//! Documents as the store returns them, and the rows shaped from them.

use vstd::prelude::*;
use crate::ast::{ProjectionV, SelectProjection};
use vstd::std_specs::vec::axiom_vec_index_decreases;

verus! {

/// A field value of a stored document.
///
/// Floating-point numbers and timestamps are held as the text they display
/// as; everything else is held as itself.
#[derive(Debug, PartialEq)]
pub enum FieldValue {
    Null,
    Boolean(bool),
    Integer(i64),
    Double(String),
    Timestamp(String),
    Text(String),
    Bytes(Vec<u8>),
    Reference(String),
    /// Latitude and longitude.
    GeoPoint(String, String),
    Array(Vec<FieldValue>),
    Fields(Vec<(String, FieldValue)>),
}

/// A document: its full resource name and its fields, in the order the store gave them.
#[derive(Debug, PartialEq)]
pub struct Document {
    pub name: String,
    pub fields: Vec<(String, FieldValue)>,
}

/// One output row: the document id and one `(name, text)` column per projection.
#[derive(Debug, Clone, PartialEq, Eq)]
pub struct Row(pub String, pub Vec<(String, String)>);

impl Row {
    /// The document id.
    pub fn id(&self) -> (r: &str)
        ensures
            r@ == self.0@,
    {
        self.0.as_str()
    }

    /// The `(name, text)` columns, one per projection, in projection order.
    pub fn columns(&self) -> (r: &Vec<(String, String)>)
        ensures
            r == &self.1,
    {
        &self.1
    }
}

/// A value that has no display form.
#[derive(Debug, Clone, Copy, PartialEq, Eq)]
pub enum RenderError {
    /// Byte blobs are not rendered.
    UnsupportedBytes,
}

pub open spec fn digit_char(d: int) -> char {
    if d == 0 {
        '0'
    } else if d == 1 {
        '1'
    } else if d == 2 {
        '2'
    } else if d == 3 {
        '3'
    } else if d == 4 {
        '4'
    } else if d == 5 {
        '5'
    } else if d == 6 {
        '6'
    } else if d == 7 {
        '7'
    } else if d == 8 {
        '8'
    } else {
        '9'
    }
}

/// The decimal digits of a natural number, most significant first.
pub open spec fn digits(n: nat) -> Seq<char>
    decreases n,
{
    if n < 10 {
        seq![digit_char(n as int)]
    } else {
        digits(n / 10) + seq![digit_char((n % 10) as int)]
    }
}

/// The decimal text of an integer, with a leading `-` when it is negative.
pub open spec fn decimal(n: int) -> Seq<char> {
    if n < 0 {
        seq!['-'] + digits((-n) as nat)
    } else {
        digits(n as nat)
    }
}

/// The JSON string literal that stands for `s`: quoted, with `"`, `\` and
/// control characters escaped.
pub uninterp spec fn json_quoted(s: Seq<char>) -> Seq<char>;

/// Relies on the `Display` of `i64`, which writes the number in decimal.
#[verifier::external_body]
fn integer_text(n: i64) -> (r: String)
    ensures
        r@ == decimal(n as int),
{
    n.to_string()
}

/// Relies on serde_json's compact `Display` of `Value::String`, which writes
/// the JSON string literal for the text.
#[verifier::external_body]
fn json_string(s: &str) -> (r: String)
    ensures
        r@ == json_quoted(s@),
{
    serde_json::Value::String(s.to_owned()).to_string()
}

pub open spec fn comma_join(a: Seq<char>, b: Seq<char>, first: bool) -> Seq<char> {
    if first {
        b
    } else {
        a + seq![',', ' '] + b
    }
}

/// The display text of a value; `None` where it has none (a byte blob, at any depth).
pub open spec fn rendered(v: FieldValue) -> Option<Seq<char>>
    decreases v, 0int,
{
    match v {
        FieldValue::Null => Some(seq!['N', 'U', 'L', 'L']),
        FieldValue::Boolean(b) => Some(
            if b {
                seq!['t', 'r', 'u', 'e']
            } else {
                seq!['f', 'a', 'l', 's', 'e']
            },
        ),
        FieldValue::Integer(n) => Some(decimal(n as int)),
        FieldValue::Double(t) => Some(t@),
        FieldValue::Timestamp(t) => Some(t@),
        FieldValue::Text(t) => Some(t@),
        FieldValue::Bytes(_) => None,
        FieldValue::Reference(r) => Some(seq!['#', ':'] + r@),
        FieldValue::GeoPoint(lat, lng) => Some(lat@ + seq![':'] + lng@),
        FieldValue::Array(items) => rendered_items(items@, items@.len() as int),
        FieldValue::Fields(entries) => rendered_entries(entries@, entries@.len() as int),
    }
}

/// The first `n` items, rendered and joined by `, `.
pub open spec fn rendered_items(items: Seq<FieldValue>, n: int) -> Option<Seq<char>>
    decreases items, n,
{
    if n <= 0 || n > items.len() {
        Some(Seq::empty())
    } else {
        match (rendered_items(items, n - 1), rendered(items[n - 1])) {
            (Some(a), Some(b)) => Some(comma_join(a, b, n == 1)),
            _ => None,
        }
    }
}

/// The first `n` entries, each rendered as `(key : value)`, joined by `, `.
pub open spec fn rendered_entries(entries: Seq<(String, FieldValue)>, n: int) -> Option<
    Seq<char>,
>
    decreases entries, n,
{
    if n <= 0 || n > entries.len() {
        Some(Seq::empty())
    } else {
        match (rendered_entries(entries, n - 1), rendered(entries[n - 1].1)) {
            (Some(a), Some(b)) => Some(
                comma_join(
                    a,
                    seq!['('] + entries[n - 1].0@ + seq![' ', ':', ' '] + b + seq![')'],
                    n == 1,
                ),
            ),
            _ => None,
        }
    }
}

pub proof fn lemma_items_stay_unrendered(items: Seq<FieldValue>, k: int, n: int)
    requires
        0 < k <= n <= items.len(),
        rendered_items(items, k) is None,
    ensures
        rendered_items(items, n) is None,
    decreases n - k,
{
    if n > k {
        lemma_items_stay_unrendered(items, k, n - 1);
    }
}

pub proof fn lemma_entries_stay_unrendered(entries: Seq<(String, FieldValue)>, k: int, n: int)
    requires
        0 < k <= n <= entries.len(),
        rendered_entries(entries, k) is None,
    ensures
        rendered_entries(entries, n) is None,
    decreases n - k,
{
    if n > k {
        lemma_entries_stay_unrendered(entries, k, n - 1);
    }
}

/// The display text of a value.
pub fn render_value(v: &FieldValue) -> (r: Result<String, RenderError>)
    ensures
        match r {
            Ok(t) => rendered(*v) == Some(t@),
            Err(_) => rendered(*v) is None,
        },
    decreases v,
{
    match v {
        FieldValue::Null => {
            proof {
                reveal_strlit("NULL");
            }
            let t = "NULL".to_owned();
            assert(t@ =~= seq!['N', 'U', 'L', 'L']);
            Ok(t)
        },
        FieldValue::Boolean(b) => {
            proof {
                reveal_strlit("true");
                reveal_strlit("false");
            }
            if *b {
                let t = "true".to_owned();
                assert(t@ =~= seq!['t', 'r', 'u', 'e']);
                Ok(t)
            } else {
                let t = "false".to_owned();
                assert(t@ =~= seq!['f', 'a', 'l', 's', 'e']);
                Ok(t)
            }
        },
        FieldValue::Integer(n) => Ok(integer_text(*n)),
        FieldValue::Double(t) => Ok(t.clone()),
        FieldValue::Timestamp(t) => Ok(t.clone()),
        FieldValue::Text(t) => Ok(t.clone()),
        FieldValue::Bytes(_) => Err(RenderError::UnsupportedBytes),
        FieldValue::Reference(r) => {
            proof {
                reveal_strlit("#:");
            }
            let mut t = "#:".to_owned();
            t.append(r.as_str());
            assert(t@ =~= seq!['#', ':'] + r@);
            Ok(t)
        },
        FieldValue::GeoPoint(lat, lng) => {
            proof {
                reveal_strlit(":");
            }
            let mut t = lat.clone();
            t.append(":");
            t.append(lng.as_str());
            assert(t@ =~= lat@ + seq![':'] + lng@);
            Ok(t)
        },
        FieldValue::Array(items) => {
            let mut out = String::new();
            let mut k: usize = 0;
            while k < items.len()
                invariant
                    *v == FieldValue::Array(*items),
                    k <= items@.len(),
                    rendered_items(items@, k as int) == Some(out@),
                decreases items@.len() - k,
            {
                proof {
                    axiom_vec_index_decreases(*items, k as int);
                }
                let t = match render_value(&items[k]) {
                    Ok(t) => t,
                    Err(e) => {
                        proof {
                            lemma_items_stay_unrendered(items@, k + 1, items@.len() as int);
                        }
                        return Err(e);
                    },
                };
                let ghost before = out@;
                proof {
                    reveal_strlit(", ");
                }
                if k > 0 {
                    out.append(", ");
                }
                out.append(t.as_str());
                assert(out@ =~= comma_join(before, t@, k == 0));
                k = k + 1;
            }
            Ok(out)
        },
        FieldValue::Fields(entries) => {
            let mut out = String::new();
            let mut k: usize = 0;
            while k < entries.len()
                invariant
                    *v == FieldValue::Fields(*entries),
                    k <= entries@.len(),
                    rendered_entries(entries@, k as int) == Some(out@),
                decreases entries@.len() - k,
            {
                proof {
                    axiom_vec_index_decreases(*entries, k as int);
                }
                let t = match render_value(&entries[k].1) {
                    Ok(t) => t,
                    Err(e) => {
                        proof {
                            lemma_entries_stay_unrendered(entries@, k + 1, entries@.len() as int);
                        }
                        return Err(e);
                    },
                };
                let ghost before = out@;
                proof {
                    reveal_strlit(", ");
                }
                proof {
                    reveal_strlit("(");
                    reveal_strlit(" : ");
                    reveal_strlit(")");
                }
                if k > 0 {
                    out.append(", ");
                }
                out.append("(");
                out.append(entries[k].0.as_str());
                out.append(" : ");
                out.append(t.as_str());
                out.append(")");
                assert(out@ =~= comma_join(
                    before,
                    seq!['('] + entries@[k as int].0@ + seq![' ', ':', ' '] + t@ + seq![')'],
                    k == 0,
                ));
                k = k + 1;
            }
            Ok(out)
        },
    }
}

/// The first `n` fields as JSON object members `"key":"text"`, joined by `,`.
pub open spec fn json_members(fields: Seq<(String, FieldValue)>, n: int) -> Option<Seq<char>>
    decreases n,
{
    if n <= 0 || n > fields.len() {
        Some(Seq::empty())
    } else {
        match (json_members(fields, n - 1), rendered(fields[n - 1].1)) {
            (Some(a), Some(b)) => {
                let member = json_quoted(fields[n - 1].0@) + seq![':'] + json_quoted(b);
                Some(
                    if n == 1 {
                        member
                    } else {
                        a + seq![','] + member
                    },
                )
            },
            _ => None,
        }
    }
}

/// The whole document as a flat JSON object from field name to display text,
/// fields in the order the store gave them.
pub open spec fn json_object(fields: Seq<(String, FieldValue)>) -> Option<Seq<char>> {
    match json_members(fields, fields.len() as int) {
        Some(m) => Some(seq!['{'] + m + seq!['}']),
        None => None,
    }
}

/// The first field at or after `k` that is named `name`.
pub open spec fn lookup_from(fields: Seq<(String, FieldValue)>, name: Seq<char>, k: int) -> Option<
    FieldValue,
>
    decreases fields.len() - k,
{
    if k < 0 || k >= fields.len() {
        None
    } else if fields[k].0@ == name {
        Some(fields[k].1)
    } else {
        lookup_from(fields, name, k + 1)
    }
}

pub open spec fn lookup(fields: Seq<(String, FieldValue)>, name: Seq<char>) -> Option<FieldValue> {
    lookup_from(fields, name, 0)
}

/// What follows the last `/` of `name`; all of it when there is none.
pub open spec fn last_segment(name: Seq<char>) -> Seq<char>
    decreases name.len(),
{
    if name.len() == 0 || name.last() == '/' {
        Seq::empty()
    } else {
        last_segment(name.drop_last()).push(name.last())
    }
}

pub open spec fn column_name(p: ProjectionV) -> Seq<char> {
    match p {
        ProjectionV::ObjectId => seq![':', 'i', 'd'],
        ProjectionV::Object => seq!['*'],
        ProjectionV::Property(name) => name,
    }
}

/// The text that stands in a row for a field the document lacks.
pub open spec fn missing_text() -> Seq<char> {
    seq!['n', 'i', 'l']
}

/// The column that projection `p` gives for `doc`: its name and its text,
/// or `None` where a value in it cannot be rendered.
pub open spec fn column(p: ProjectionV, doc: Document) -> Option<(Seq<char>, Seq<char>)> {
    match p {
        ProjectionV::ObjectId => Some((column_name(p), last_segment(doc.name@))),
        ProjectionV::Object => match json_object(doc.fields@) {
            Some(t) => Some((column_name(p), t)),
            None => None,
        },
        ProjectionV::Property(name) => match lookup(doc.fields@, name) {
            None => Some((name, missing_text())),
            Some(v) => match rendered(v) {
                Some(t) => Some((name, t)),
                None => None,
            },
        },
    }
}

/// Every projection gives `doc` a column.
pub open spec fn renders(ps: Seq<ProjectionV>, doc: Document) -> bool {
    forall|i: int| 0 <= i < ps.len() ==> (#[trigger] column(ps[i], doc)) is Some
}

/// `row` is the row of `doc` under the projections `ps`.
pub open spec fn is_row_of(row: Row, ps: Seq<ProjectionV>, doc: Document) -> bool {
    &&& row.0@ == last_segment(doc.name@)
    &&& row.1@.len() == ps.len()
    &&& forall|i: int|
        0 <= i < ps.len() ==> #[trigger] column(ps[i], doc) == Some(
            (row.1@[i].0@, row.1@[i].1@),
        )
}

pub proof fn lemma_members_stay_unrendered(fields: Seq<(String, FieldValue)>, k: int, n: int)
    requires
        0 < k <= n <= fields.len(),
        json_members(fields, k) is None,
    ensures
        json_members(fields, n) is None,
    decreases n - k,
{
    if n > k {
        lemma_members_stay_unrendered(fields, k, n - 1);
    }
}

/// The document as a JSON object of field name to display text.
pub fn document_json(fields: &Vec<(String, FieldValue)>) -> (r: Result<String, RenderError>)
    ensures
        match r {
            Ok(t) => json_object(fields@) == Some(t@),
            Err(_) => json_object(fields@) is None,
        },
{
    let mut out = String::new();
    let mut k: usize = 0;
    while k < fields.len()
        invariant
            k <= fields@.len(),
            json_members(fields@, k as int) == Some(out@),
        decreases fields@.len() - k,
    {
        let t = match render_value(&fields[k].1) {
            Ok(t) => t,
            Err(e) => {
                proof {
                    lemma_members_stay_unrendered(fields@, k + 1, fields@.len() as int);
                }
                return Err(e);
            },
        };
        let key = json_string(fields[k].0.as_str());
        let text = json_string(t.as_str());
        let ghost before = out@;
        proof {
            reveal_strlit(",");
            reveal_strlit(":");
        }
        if k > 0 {
            out.append(",");
        }
        out.append(key.as_str());
        out.append(":");
        out.append(text.as_str());
        assert(out@ =~= if k == 0 {
            key@ + seq![':'] + text@
        } else {
            before + seq![','] + key@ + seq![':'] + text@
        });
        k = k + 1;
    }
    proof {
        reveal_strlit("{");
        reveal_strlit("}");
    }
    let mut t = "{".to_owned();
    t.append(out.as_str());
    t.append("}");
    assert(t@ =~= seq!['{'] + out@ + seq!['}']);
    Ok(t)
}

/// The first field named `name`, if any.
pub fn find_field<'a>(fields: &'a Vec<(String, FieldValue)>, name: &String) -> (r: Option<
    &'a FieldValue,
>)
    ensures
        match r {
            Some(v) => lookup(fields@, name@) == Some(*v),
            None => lookup(fields@, name@) is None,
        },
{
    let mut k: usize = 0;
    while k < fields.len()
        invariant
            k <= fields@.len(),
            lookup(fields@, name@) == lookup_from(fields@, name@, k as int),
        decreases fields@.len() - k,
    {
        if fields[k].0 == *name {
            return Some(&fields[k].1);
        }
        k = k + 1;
    }
    None
}

/// The document id: what follows the last `/` of the document's name.
pub fn document_id(name: &String) -> (r: String)
    ensures
        r@ == last_segment(name@),
{
    let s = crate::scan::chars_of(name.as_str());
    let mut k: usize = s.len();
    assert(s@.subrange(0, k as int) =~= s@);
    assert(s@.subrange(k as int, k as int) =~= Seq::<char>::empty());
    assert(last_segment(s@) + Seq::<char>::empty() =~= last_segment(s@));
    while k > 0 && s[k - 1] != '/'
        invariant
            k <= s@.len(),
            s@ == name@,
            last_segment(s@) == last_segment(s@.subrange(0, k as int)) + s@.subrange(
                k as int,
                s@.len() as int,
            ),
        decreases k,
    {
        let ghost p = s@.subrange(0, k as int);
        assert(p.drop_last() =~= s@.subrange(0, k - 1));
        assert(last_segment(p) == last_segment(s@.subrange(0, k - 1)).push(s@[k - 1]));
        assert(last_segment(s@.subrange(0, k - 1)).push(s@[k - 1]) + s@.subrange(
            k as int,
            s@.len() as int,
        ) =~= last_segment(s@.subrange(0, k - 1)) + s@.subrange(k - 1, s@.len() as int));
        k = k - 1;
    }
    assert(last_segment(s@.subrange(0, k as int)) =~= Seq::empty());
    assert(s@.subrange(0, s@.len() as int) =~= s@);
    crate::scan::text_between(name.as_str(), k, s.len())
}

/// The column that `p` gives for `doc`.
pub fn shape_column(p: &SelectProjection, doc: &Document) -> (r: Result<
    (String, String),
    RenderError,
>)
    ensures
        match r {
            Ok((name, text)) => column(p@, *doc) == Some((name@, text@)),
            Err(_) => column(p@, *doc) is None,
        },
{
    match p {
        SelectProjection::ObjectId => {
            proof {
                reveal_strlit(":id");
            }
            let name = ":id".to_owned();
            assert(name@ =~= seq![':', 'i', 'd']);
            Ok((name, document_id(&doc.name)))
        },
        SelectProjection::Object => {
            proof {
                reveal_strlit("*");
            }
            let name = "*".to_owned();
            assert(name@ =~= seq!['*']);
            match document_json(&doc.fields) {
                Ok(t) => Ok((name, t)),
                Err(e) => Err(e),
            }
        },
        SelectProjection::Property(name) => match find_field(&doc.fields, name) {
            None => {
                proof {
                    reveal_strlit("nil");
                }
                let t = "nil".to_owned();
                assert(t@ =~= missing_text());
                Ok((name.clone(), t))
            },
            Some(v) => match render_value(v) {
                Ok(t) => Ok((name.clone(), t)),
                Err(e) => Err(e),
            },
        },
    }
}

/// The row of `doc`: its id and one column per projection, in projection order.
pub fn shape_row(projections: &Vec<SelectProjection>, doc: &Document) -> (r: Result<
    Row,
    RenderError,
>)
    ensures
        r is Ok <==> renders(projections@.map_values(|p: SelectProjection| p@), *doc),
        r matches Ok(row) ==> is_row_of(row, projections@.map_values(|p: SelectProjection| p@), *doc),
{
    let ghost ps = projections@.map_values(|p: SelectProjection| p@);
    let mut columns: Vec<(String, String)> = Vec::new();
    let mut k: usize = 0;
    while k < projections.len()
        invariant
            k <= projections@.len(),
            ps == projections@.map_values(|p: SelectProjection| p@),
            columns@.len() == k,
            forall|i: int|
                0 <= i < k ==> #[trigger] column(ps[i], *doc) == Some(
                    (columns@[i].0@, columns@[i].1@),
                ),
        decreases projections@.len() - k,
    {
        match shape_column(&projections[k], doc) {
            Ok(c) => columns.push(c),
            Err(e) => {
                assert(column(ps[k as int], *doc) is None);
                return Err(e);
            },
        }
        k = k + 1;
    }
    Ok(Row(document_id(&doc.name), columns))
}

/// The rows of `docs`, one per document, in the order given.
pub fn shape_rows(projections: &Vec<SelectProjection>, docs: &Vec<Document>) -> (r: Result<
    Vec<Row>,
    RenderError,
>)
    ensures
        r is Ok <==> forall|j: int|
            0 <= j < docs@.len() ==> renders(
                projections@.map_values(|p: SelectProjection| p@),
                #[trigger] docs@[j],
            ),
        r matches Ok(rows) ==> rows@.len() == docs@.len() && forall|j: int|
            0 <= j < docs@.len() ==> is_row_of(
                #[trigger] rows@[j],
                projections@.map_values(|p: SelectProjection| p@),
                docs@[j],
            ),
{
    let mut rows: Vec<Row> = Vec::new();
    let mut k: usize = 0;
    while k < docs.len()
        invariant
            k <= docs@.len(),
            rows@.len() == k,
            forall|j: int|
                0 <= j < k ==> renders(
                    projections@.map_values(|p: SelectProjection| p@),
                    #[trigger] docs@[j],
                ),
            forall|j: int|
                0 <= j < k ==> is_row_of(
                    #[trigger] rows@[j],
                    projections@.map_values(|p: SelectProjection| p@),
                    docs@[j],
                ),
        decreases docs@.len() - k,
    {
        match shape_row(projections, &docs[k]) {
            Ok(row) => rows.push(row),
            Err(e) => return Err(e),
        }
        k = k + 1;
    }
    Ok(rows)
}

/// The columns of a row come in the order of the projections, each named
/// after its projection: `:id`, `*`, or the property's name.
pub proof fn lemma_columns_follow_projections(row: Row, ps: Seq<ProjectionV>, doc: Document)
    requires
        is_row_of(row, ps, doc),
    ensures
        forall|i: int| 0 <= i < ps.len() ==> #[trigger] row.1@[i].0@ == column_name(ps[i]),
{
    assert forall|i: int| 0 <= i < ps.len() implies #[trigger] row.1@[i].0@ == column_name(
        ps[i],
    ) by {
        assert(column(ps[i], doc) == Some((row.1@[i].0@, row.1@[i].1@)));
    }
}

/// A property the document lacks shows as `nil`.
pub proof fn lemma_missing_field_is_nil(row: Row, ps: Seq<ProjectionV>, doc: Document, i: int)
    requires
        is_row_of(row, ps, doc),
        0 <= i < ps.len(),
        ps[i] matches ProjectionV::Property(name) && lookup(doc.fields@, name) is None,
    ensures
        row.1@[i].1@ == missing_text(),
{
    assert(column(ps[i], doc) == Some((row.1@[i].0@, row.1@[i].1@)));
}

} // verus!
