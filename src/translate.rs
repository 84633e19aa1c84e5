//! Turning a parsed statement into the query that the document store runs.

use vstd::prelude::*;
use crate::ast::{
    CompareOperations, Condition, ConditionV, FireSQLSelect, OpV, ProjectionV, SelectProjection,
};

verus! {

/// One store-side filter on a field.
#[derive(Debug, PartialEq, Eq)]
pub enum FieldFilter {
    IsNull(String),
    Compare(String, CompareOperations),
}

pub enum FilterV {
    IsNull(Seq<char>),
    Compare(Seq<char>, OpV),
}

impl View for FieldFilter {
    type V = FilterV;

    open spec fn view(&self) -> FilterV {
        match self {
            FieldFilter::IsNull(f) => FilterV::IsNull(f@),
            FieldFilter::Compare(f, op) => FilterV::Compare(f@, op@),
        }
    }
}

/// What the store is asked for. A document is returned when every filter
/// holds of it; with no filters every document of the collection is.
#[derive(Debug, PartialEq, Eq)]
pub struct QueryPlan {
    /// The collection path.
    pub collection: String,
    /// The fields to fetch, or `None` for whole documents.
    pub fields: Option<Vec<String>>,
    pub filters: Vec<FieldFilter>,
    /// The statement's projections, which shape the rows of the answer.
    pub projections: Vec<SelectProjection>,
}

/// A statement the store cannot be asked.
#[derive(Debug, Clone, Copy, PartialEq, Eq)]
pub enum TranslateError {
    /// A negated condition: the store query has no negation for it.
    UnsupportedNegation,
}

/// The store filter for a condition; none for a negation.
pub open spec fn filter_of(c: ConditionV) -> Option<FilterV> {
    match c {
        ConditionV::Not(_) => None,
        ConditionV::IsNull(f) => Some(FilterV::IsNull(f)),
        ConditionV::Comparison(f, op) => Some(FilterV::Compare(f, op)),
    }
}

/// The names of the `Property` projections among the first `n`, in order.
pub open spec fn property_names(ps: Seq<ProjectionV>, n: int) -> Seq<Seq<char>>
    decreases n,
{
    if n <= 0 || n > ps.len() {
        Seq::empty()
    } else {
        match ps[n - 1] {
            ProjectionV::Property(name) => property_names(ps, n - 1).push(name),
            _ => property_names(ps, n - 1),
        }
    }
}

pub open spec fn wants_whole_documents(ps: Seq<ProjectionV>) -> bool {
    exists|i: int| 0 <= i < ps.len() && ps[i] is Object
}

/// The fields to fetch: the named properties, unless a projection wants whole documents.
pub open spec fn requested_fields(ps: Seq<ProjectionV>) -> Option<Seq<Seq<char>>> {
    if wants_whole_documents(ps) {
        None
    } else {
        Some(property_names(ps, ps.len() as int))
    }
}

pub open spec fn translatable(cs: Seq<ConditionV>) -> bool {
    forall|i: int| 0 <= i < cs.len() ==> !(#[trigger] cs[i] is Not)
}

/// `filters` are the filters of `cs`, one for one and in order.
pub open spec fn filters_of(filters: Seq<FilterV>, cs: Seq<ConditionV>) -> bool {
    &&& filters.len() == cs.len()
    &&& forall|i: int| 0 <= i < cs.len() ==> #[trigger] filter_of(cs[i]) == Some(filters[i])
}

/// Every filter holds, for a given meaning of "holds".
pub open spec fn all_hold(filters: Seq<FilterV>, holds: spec_fn(FilterV) -> bool) -> bool {
    forall|i: int| 0 <= i < filters.len() ==> holds(#[trigger] filters[i])
}

/// The filters of a statement act as one conjunction: whatever a single
/// filter means for a document, the query admits the document exactly when
/// the filter of every condition holds of it.
pub proof fn lemma_filters_conjoin(
    filters: Seq<FilterV>,
    cs: Seq<ConditionV>,
    holds: spec_fn(FilterV) -> bool,
)
    requires
        filters_of(filters, cs),
    ensures
        all_hold(filters, holds) <==> forall|i: int|
            0 <= i < cs.len() ==> holds(#[trigger] filter_of(cs[i])->Some_0),
{
    if all_hold(filters, holds) {
        assert forall|i: int| 0 <= i < cs.len() implies holds(
            #[trigger] filter_of(cs[i])->Some_0,
        ) by {
            assert(filter_of(cs[i]) == Some(filters[i]));
        }
    }
    if forall|i: int| 0 <= i < cs.len() ==> holds(#[trigger] filter_of(cs[i])->Some_0) {
        assert forall|i: int| 0 <= i < filters.len() implies holds(#[trigger] filters[i]) by {
            assert(filter_of(cs[i]) == Some(filters[i]));
        }
    }
}

/// The store filter for one condition.
pub fn condition_filter(c: Condition) -> (r: Result<FieldFilter, TranslateError>)
    ensures
        match r {
            Ok(f) => filter_of(c@) == Some(f@),
            Err(_) => filter_of(c@) is None,
        },
{
    match c {
        Condition::Not(_) => Err(TranslateError::UnsupportedNegation),
        Condition::IsNull(f) => Ok(FieldFilter::IsNull(f)),
        Condition::Comparison(f, op) => Ok(FieldFilter::Compare(f, op)),
    }
}

/// The fields to fetch for `projections`.
pub fn field_selection(projections: &Vec<SelectProjection>) -> (r: Option<Vec<String>>)
    ensures
        match r {
            Some(names) => requested_fields(projections@.map_values(|p: SelectProjection| p@))
                == Some(names@.map_values(|n: String| n@)),
            None => requested_fields(projections@.map_values(|p: SelectProjection| p@)) is None,
        },
{
    let ghost ps = projections@.map_values(|p: SelectProjection| p@);
    let mut names: Vec<String> = Vec::new();
    let mut k: usize = 0;
    while k < projections.len()
        invariant
            k <= projections@.len(),
            ps == projections@.map_values(|p: SelectProjection| p@),
            names@.map_values(|n: String| n@) == property_names(ps, k as int),
            forall|i: int| 0 <= i < k ==> !(#[trigger] ps[i] is Object),
        decreases projections@.len() - k,
    {
        let ghost before = names@;
        match &projections[k] {
            SelectProjection::Object => {
                assert(ps[k as int] is Object);
                return None;
            },
            SelectProjection::Property(name) => {
                names.push(name.clone());
                assert(names@.map_values(|n: String| n@) =~= before.map_values(|n: String| n@).push(name@));
            },
            SelectProjection::ObjectId => {},
        }
        k = k + 1;
    }
    Some(names)
}

/// The query for a statement: its collection, the fields to fetch, and one
/// filter per condition, in order. A negated condition is refused.
pub fn plan_query(select: FireSQLSelect) -> (r: Result<QueryPlan, TranslateError>)
    ensures
        r is Ok <==> translatable(select@.conditions),
        r matches Ok(plan) ==> {
            &&& plan.collection@ == select@.path
            &&& plan.projections == select.projections
            &&& match plan.fields {
                Some(names) => requested_fields(select@.projections) == Some(
                    names@.map_values(|n: String| n@),
                ),
                None => requested_fields(select@.projections) is None,
            }
            &&& filters_of(plan.filters@.map_values(|f: FieldFilter| f@), select@.conditions)
        },
{
    let ghost cs = select@.conditions;
    let FireSQLSelect { projections, collection, conditions } = select;
    let fields = field_selection(&projections);
    let mut rest = conditions;
    let mut filters: Vec<FieldFilter> = Vec::new();
    let ghost n = rest@.len();
    while rest.len() > 0
        invariant
            cs == conditions@.map_values(|c: Condition| c@),
            cs == select@.conditions,
            n == cs.len(),
            filters@.len() + rest@.len() == n,
            rest@.map_values(|c: Condition| c@) == cs.subrange(filters@.len() as int, n as int),
            forall|i: int|
                0 <= i < filters@.len() ==> #[trigger] filter_of(cs[i]) == Some(filters@[i]@),
        decreases rest@.len(),
    {
        let ghost k = filters@.len() as int;
        let ghost before = rest@;
        let c = rest.remove(0);
        assert(c@ == cs[k]) by {
            assert(before.map_values(|c: Condition| c@)[0] == cs.subrange(k, n as int)[0]);
        }
        let ghost mapped = rest@.map_values(|c: Condition| c@);
        let ghost old_mapped = before.map_values(|c: Condition| c@);
        assert(mapped =~= cs.subrange(k + 1, n as int)) by {
            assert forall|j: int| 0 <= j < mapped.len() implies #[trigger] mapped[j] == cs.subrange(
                k + 1,
                n as int,
            )[j] by {
                assert(rest@[j] == before[j + 1]);
                assert(old_mapped[j + 1] == cs.subrange(k, n as int)[j + 1]);
            }
        }
        match condition_filter(c) {
            Ok(f) => filters.push(f),
            Err(e) => {
                assert(cs[k] is Not);
                assert(!translatable(cs));
                return Err(e);
            },
        }
    }
    proof {
        assert forall|i: int| 0 <= i < cs.len() implies !(#[trigger] cs[i] is Not) by {
            assert(filter_of(cs[i]) == Some(filters@[i]@));
        }
    }
    Ok(QueryPlan { collection: collection.path, fields, filters, projections })
}

} // verus!
