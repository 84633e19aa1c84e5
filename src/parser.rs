//! The statement parser: text in, syntax tree or the first error out.

use vstd::prelude::*;
use crate::ast::{
    CompareOperations, Collection, Condition, ConditionV, Expected, FireSQLSelect, GrammarError,
    Number, ParseError, OpV, ParseErrorV, ProjectionV, SelectProjection, SelectV, Value, ValueV,
};
use crate::grammar::{
    after_word, comparison_op, condition_at, conditions_from, is_path, lemma_condition_advances,
    lemma_projection_advances, lemma_value_advances, number_at, projection_at, projections_from,
    segment_count, select_at, skip_ws, slash_count, trim_leading_zeros, trim_trailing_zeros,
    value_at,
};
use crate::scan::{
    at_keyword, chars_of, is_identifier_text, lemma_run_end_bounds, run_end, scan_run,
    text_between, CharClass, Keyword,
};

verus! {

/// Parses `SELECT` statements.
pub struct FireSQLParser;

/// What parsing a statement gives.
pub type FireSQLParseResult = Result<FireSQLSelect, ParseError>;

fn grammar_error(position: usize, expected: Expected) -> (r: ParseError)
    ensures
        r@ == ParseErrorV::Grammar(position as int, expected),
{
    ParseError::GrammarError(GrammarError { position, expected })
}

/// Whether `s[start..end]` is exactly `lit`.
fn text_is(s: &Vec<char>, start: usize, end: usize, lit: &Vec<char>) -> (r: bool)
    requires
        start <= end <= s@.len(),
    ensures
        r == (s@.subrange(start as int, end as int) == lit@),
{
    if end - start != lit.len() {
        return false;
    }
    let mut j: usize = 0;
    while j < lit.len()
        invariant
            start <= end <= s@.len(),
            end - start == lit@.len(),
            j <= lit@.len(),
            forall|t: int| 0 <= t < j ==> s@[start + t] == lit@[t],
        decreases lit@.len() - j,
    {
        if s[start + j] != lit[j] {
            assert(s@.subrange(start as int, end as int)[j as int] != lit@[j as int]);
            return false;
        }
        j = j + 1;
    }
    assert(s@.subrange(start as int, end as int) =~= lit@);
    true
}

/// Whether `s[start..end]` is a path of non-empty segments.
fn is_path_text(s: &Vec<char>, start: usize, end: usize) -> (r: bool)
    requires
        start <= end <= s@.len(),
    ensures
        r == is_path(s@.subrange(start as int, end as int)),
{
    let ghost p = s@.subrange(start as int, end as int);
    if start == end || s[start] == '/' || s[end - 1] == '/' {
        return false;
    }
    let mut k: usize = start;
    while k + 1 < end
        invariant
            start <= k < end <= s@.len(),
            p == s@.subrange(start as int, end as int),
            forall|t: int|
                0 <= t < k - start && p[t] == '/' ==> #[trigger] p[t + 1] != '/',
        decreases end - k,
    {
        if s[k] == '/' && s[k + 1] == '/' {
            assert(p[(k - start) + 1] == s@[k + 1]);
            return false;
        }
        k = k + 1;
    }
    true
}

/// The number of slashes in `s[start..end]`.
fn count_slashes(s: &Vec<char>, start: usize, end: usize) -> (r: usize)
    requires
        start <= end <= s@.len(),
    ensures
        r == slash_count(s@.subrange(start as int, end as int)),
{
    let mut j: usize = start;
    let mut c: usize = 0;
    while j < end
        invariant
            start <= j <= end <= s@.len(),
            c <= j - start,
            c == slash_count(s@.subrange(start as int, j as int)),
        decreases end - j,
    {
        assert(s@.subrange(start as int, j + 1).drop_last() =~= s@.subrange(start as int, j as int));
        if s[j] == '/' {
            c = c + 1;
        }
        j = j + 1;
    }
    c
}

/// `text[start..end]` without its leading zeros.
fn without_leading_zeros(text: &str, s: &Vec<char>, start: usize, end: usize) -> (r: String)
    requires
        s@ == text@,
        start <= end <= s@.len(),
    ensures
        r@ == trim_leading_zeros(s@.subrange(start as int, end as int)),
{
    let mut k: usize = start;
    while k < end && s[k] == '0'
        invariant
            start <= k <= end <= s@.len(),
            trim_leading_zeros(s@.subrange(start as int, end as int)) == trim_leading_zeros(
                s@.subrange(k as int, end as int),
            ),
        decreases end - k,
    {
        assert(s@.subrange(k as int, end as int).drop_first() =~= s@.subrange(k + 1, end as int));
        k = k + 1;
    }
    text_between(text, k, end)
}

/// `text[start..end]` without its trailing zeros.
fn without_trailing_zeros(text: &str, s: &Vec<char>, start: usize, end: usize) -> (r: String)
    requires
        s@ == text@,
        start <= end <= s@.len(),
    ensures
        r@ == trim_trailing_zeros(s@.subrange(start as int, end as int)),
{
    let mut k: usize = end;
    while k > start && s[k - 1] == '0'
        invariant
            start <= k <= end <= s@.len(),
            trim_trailing_zeros(s@.subrange(start as int, end as int)) == trim_trailing_zeros(
                s@.subrange(start as int, k as int),
            ),
        decreases k - start,
    {
        assert(s@.subrange(start as int, k as int).drop_last() =~= s@.subrange(
            start as int,
            k - 1,
        ));
        k = k - 1;
    }
    text_between(text, start, k)
}

fn parse_projection(text: &str, s: &Vec<char>, i: usize) -> (r: Result<
    (SelectProjection, usize),
    ParseError,
>)
    requires
        s@ == text@,
        i <= s@.len(),
    ensures
        match r {
            Ok((p, e)) => projection_at(s@, i as int) == Ok::<(ProjectionV, int), ParseErrorV>(
                (p@, e as int),
            ) && i < e <= s@.len(),
            Err(err) => projection_at(s@, i as int) == Err::<(ProjectionV, int), ParseErrorV>(
                err@,
            ),
        },
{
    proof {
        lemma_projection_advances(s@, i as int);
    }
    let w = scan_run(s, i, CharClass::Word);
    if i < s.len() && s[i] == '*' {
        Ok((SelectProjection::Object, i + 1))
    } else if s.len() - i >= 3 && s[i] == ':' && s[i + 1] == 'i' && s[i + 2] == 'd' && scan_run(
        s,
        i + 1,
        CharClass::Word,
    ) == i + 3 {
        Ok((SelectProjection::ObjectId, i + 3))
    } else if is_identifier_text(s, i, w) {
        Ok((SelectProjection::Property(text_between(text, i, w)), w))
    } else {
        Err(grammar_error(i, Expected::Projection))
    }
}

fn parse_projections(text: &str, s: &Vec<char>, i: usize) -> (r: Result<
    (Vec<SelectProjection>, usize),
    ParseError,
>)
    requires
        s@ == text@,
        i <= s@.len(),
    ensures
        match r {
            Ok((ps, e)) => projections_from(s@, i as int) == Ok::<
                (Seq<ProjectionV>, int),
                ParseErrorV,
            >((ps@.map_values(|p: SelectProjection| p@), e as int)) && e <= s@.len(),
            Err(err) => projections_from(s@, i as int) == Err::<
                (Seq<ProjectionV>, int),
                ParseErrorV,
            >(err@),
        },
    decreases s@.len() - i,
{
    let (p, e) = match parse_projection(text, s, i) {
        Ok(x) => x,
        Err(err) => return Err(err),
    };
    let j = scan_run(s, e, CharClass::Space);
    if j < s.len() && s[j] == ',' {
        let k = scan_run(s, j + 1, CharClass::Space);
        let (mut rest, m) = match parse_projections(text, s, k) {
            Ok(x) => x,
            Err(err) => return Err(err),
        };
        let ghost tail = rest@;
        rest.insert(0, p);
        assert(rest@.map_values(|q: SelectProjection| q@) =~= seq![p@] + tail.map_values(
            |q: SelectProjection| q@,
        ));
        Ok((rest, m))
    } else {
        let ps = vec![p];
        assert(ps@.map_values(|q: SelectProjection| q@) =~= seq![p@]);
        Ok((ps, j))
    }
}

fn parse_number(text: &str, s: &Vec<char>, i: usize) -> (r: Result<(Value, usize), ParseError>)
    requires
        s@ == text@,
        i <= s@.len(),
    ensures
        match r {
            Ok((v, e)) => number_at(s@, i as int) == Ok::<(ValueV, int), ParseErrorV>(
                (v@, e as int),
            ),
            Err(err) => number_at(s@, i as int) == Err::<(ValueV, int), ParseErrorV>(err@),
        },
{
    let negative = i < s.len() && s[i] == '-';
    let d0 = if negative {
        i + 1
    } else {
        i
    };
    let d1 = scan_run(s, d0, CharClass::Digit);
    if d1 == d0 {
        return Err(grammar_error(i, Expected::Value));
    }
    let whole = without_leading_zeros(text, s, d0, d1);
    if s.len() - d1 >= 2 && s[d1] == '.' && '0' <= s[d1 + 1] && s[d1 + 1] <= '9' {
        let d2 = scan_run(s, d1 + 1, CharClass::Digit);
        let fraction = without_trailing_zeros(text, s, d1 + 1, d2);
        Ok((Value::Number(Number { negative, whole, fraction }), d2))
    } else {
        let fraction = String::new();
        Ok((Value::Number(Number { negative, whole, fraction }), d1))
    }
}

fn parse_value(text: &str, s: &Vec<char>, i: usize) -> (r: Result<(Value, usize), ParseError>)
    requires
        s@ == text@,
        i <= s@.len(),
    ensures
        match r {
            Ok((v, e)) => value_at(s@, i as int) == Ok::<(ValueV, int), ParseErrorV>(
                (v@, e as int),
            ) && i < e <= s@.len(),
            Err(err) => value_at(s@, i as int) == Err::<(ValueV, int), ParseErrorV>(err@),
        },
{
    proof {
        lemma_value_advances(s@, i as int);
    }
    let w = scan_run(s, i, CharClass::Word);
    if i < s.len() && s[i] == '"' {
        let q = scan_run(s, i + 1, CharClass::Unquoted);
        if q < s.len() {
            Ok((Value::String(text_between(text, i + 1, q)), q + 1))
        } else {
            Err(grammar_error(i, Expected::Value))
        }
    } else if i < s.len() && s[i] == '#' {
        let e = scan_run(s, i + 1, CharClass::Path);
        if is_path_text(s, i + 1, e) {
            Ok((Value::Reference(text_between(text, i + 1, e)), e))
        } else {
            Err(grammar_error(i, Expected::Value))
        }
    } else if text_is(s, i, w, &vec!['t', 'r', 'u', 'e']) {
        Ok((Value::Bool(true), w))
    } else if text_is(s, i, w, &vec!['f', 'a', 'l', 's', 'e']) {
        Ok((Value::Bool(false), w))
    } else {
        parse_number(text, s, i)
    }
}

fn parse_condition(text: &str, s: &Vec<char>, i: usize) -> (r: Result<
    (Condition, usize),
    ParseError,
>)
    requires
        s@ == text@,
        i <= s@.len(),
    ensures
        match r {
            Ok((c, e)) => condition_at(s@, i as int) == Ok::<(ConditionV, int), ParseErrorV>(
                (c@, e as int),
            ) && i < e <= s@.len(),
            Err(err) => condition_at(s@, i as int) == Err::<(ConditionV, int), ParseErrorV>(
                err@,
            ),
        },
{
    proof {
        lemma_condition_advances(s@, i as int);
    }
    let w = scan_run(s, i, CharClass::Word);
    if !is_identifier_text(s, i, w) {
        return Err(grammar_error(i, Expected::Condition));
    }
    let j = scan_run(s, w, CharClass::Space);
    if at_keyword(s, j, Keyword::Is) {
        let k = scan_run(s, scan_run(s, j, CharClass::Word), CharClass::Space);
        if at_keyword(s, k, Keyword::Not) {
            let m = scan_run(s, scan_run(s, k, CharClass::Word), CharClass::Space);
            if at_keyword(s, m, Keyword::Null) {
                let name = text_between(text, i, w);
                let c = Condition::Not(Box::new(Condition::IsNull(name)));
                proof {
                    reveal_with_fuel(crate::ast::condition_view, 2);
                }
                Ok((c, scan_run(s, m, CharClass::Word)))
            } else {
                Err(grammar_error(m, Expected::NullKeyword))
            }
        } else if at_keyword(s, k, Keyword::Null) {
            Ok((Condition::IsNull(text_between(text, i, w)), scan_run(s, k, CharClass::Word)))
        } else {
            Err(grammar_error(k, Expected::NullKeyword))
        }
    } else {
        let oe = scan_run(s, j, CharClass::Operator);
        if oe == j {
            return Err(grammar_error(j, Expected::Operator));
        }
        let vs = scan_run(s, oe, CharClass::Space);
        let (v, e) = match parse_value(text, s, vs) {
            Ok(x) => x,
            Err(err) => return Err(err),
        };
        let name = text_between(text, i, w);
        proof {
            lemma_run_end_bounds(s@, j as int, CharClass::Operator);
            lemma_run_end_bounds(s@, oe as int, CharClass::Space);
        }
        let eq = vec!['='];
        let ne = vec!['!', '='];
        let gt = vec!['>'];
        let lt = vec!['<'];
        assert(eq@ == seq!['=']);
        assert(ne@ == seq!['!', '=']);
        assert(gt@ == seq!['>']);
        assert(lt@ == seq!['<']);
        if text_is(s, j, oe, &eq) {
            Ok((Condition::Comparison(name, CompareOperations::Equal(v)), e))
        } else if text_is(s, j, oe, &ne) {
            Ok((Condition::Comparison(name, CompareOperations::NotEqual(v)), e))
        } else if text_is(s, j, oe, &gt) {
            Ok((Condition::Comparison(name, CompareOperations::GreaterThan(v)), e))
        } else if text_is(s, j, oe, &lt) {
            Ok((Condition::Comparison(name, CompareOperations::LessThan(v)), e))
        } else {
            Err(ParseError::UnexpectedItem(text_between(text, j, oe)))
        }
    }
}

fn parse_conditions(text: &str, s: &Vec<char>, i: usize) -> (r: Result<
    (Vec<Condition>, usize),
    ParseError,
>)
    requires
        s@ == text@,
        i <= s@.len(),
    ensures
        match r {
            Ok((cs, e)) => conditions_from(s@, i as int) == Ok::<
                (Seq<ConditionV>, int),
                ParseErrorV,
            >((cs@.map_values(|c: Condition| c@), e as int)) && e <= s@.len(),
            Err(err) => conditions_from(s@, i as int) == Err::<
                (Seq<ConditionV>, int),
                ParseErrorV,
            >(err@),
        },
    decreases s@.len() - i,
{
    let (c, e) = match parse_condition(text, s, i) {
        Ok(x) => x,
        Err(err) => return Err(err),
    };
    let ghost cv = c@;
    let j = scan_run(s, e, CharClass::Space);
    if at_keyword(s, j, Keyword::And) {
        let k = scan_run(s, scan_run(s, j, CharClass::Word), CharClass::Space);
        proof {
            lemma_run_end_bounds(s@, j as int, CharClass::Word);
        }
        let (mut rest, m) = match parse_conditions(text, s, k) {
            Ok(x) => x,
            Err(err) => return Err(err),
        };
        let ghost tail = rest@;
        rest.insert(0, c);
        assert(rest@.map_values(|q: Condition| q@) =~= seq![cv] + tail.map_values(
            |q: Condition| q@,
        ));
        Ok((rest, m))
    } else {
        let cs = vec![c];
        assert(cs@.map_values(|q: Condition| q@) =~= seq![cv]);
        Ok((cs, j))
    }
}

impl FireSQLParser {
    /// Parses a statement into its syntax tree. The result is exactly what
    /// the grammar gives for the statement's characters: the tree on success,
    /// else the first error in reading order.
    pub fn parse(stmt: &str) -> (r: Result<FireSQLSelect, ParseError>)
        ensures
            parse_outcome(r) == select_at(stmt@),
    {
        let s = chars_of(stmt);
        let i = scan_run(&s, 0, CharClass::Space);
        if !at_keyword(&s, i, Keyword::Select) {
            return Err(grammar_error(i, Expected::SelectKeyword));
        }
        let start = scan_run(&s, scan_run(&s, i, CharClass::Word), CharClass::Space);
        let (projections, j) = match parse_projections(stmt, &s, start) {
            Ok(x) => x,
            Err(err) => return Err(err),
        };
        if !at_keyword(&s, j, Keyword::From) {
            return Err(grammar_error(j, Expected::FromKeyword));
        }
        let p = scan_run(&s, scan_run(&s, j, CharClass::Word), CharClass::Space);
        let pe = scan_run(&s, p, CharClass::Path);
        if !is_path_text(&s, p, pe) {
            return Err(grammar_error(p, Expected::CollectionPath));
        }
        let path = text_between(stmt, p, pe);
        if count_slashes(&s, p, pe) % 2 == 1 {
            return Err(ParseError::InvalidCollectionPath(path));
        }
        let collection = Collection { path };
        let k = scan_run(&s, pe, CharClass::Space);
        if k == s.len() {
            let conditions: Vec<Condition> = Vec::new();
            let select = FireSQLSelect { projections, collection, conditions };
            assert(select@.conditions =~= Seq::<ConditionV>::empty());
            return Ok(select);
        }
        if !at_keyword(&s, k, Keyword::Where) {
            return Err(grammar_error(k, Expected::WhereOrEnd));
        }
        let c = scan_run(&s, scan_run(&s, k, CharClass::Word), CharClass::Space);
        let (conditions, m) = match parse_conditions(stmt, &s, c) {
            Ok(x) => x,
            Err(err) => return Err(err),
        };
        if m != s.len() {
            return Err(grammar_error(m, Expected::AndOrEnd));
        }
        Ok(FireSQLSelect { projections, collection, conditions })
    }
}

/// The view of a parse result.
pub open spec fn parse_outcome(r: Result<FireSQLSelect, ParseError>) -> Result<SelectV, ParseErrorV> {
    match r {
        Ok(select) => Ok(select@),
        Err(err) => Err(err@),
    }
}

/// Parsing holds no state: two parses of the same text give the same tree,
/// or the same error.
pub proof fn lemma_parse_deterministic(
    text: Seq<char>,
    first: Result<FireSQLSelect, ParseError>,
    second: Result<FireSQLSelect, ParseError>,
)
    requires
        parse_outcome(first) == select_at(text),
        parse_outcome(second) == select_at(text),
    ensures
        parse_outcome(first) == parse_outcome(second),
{
}

} // verus!
