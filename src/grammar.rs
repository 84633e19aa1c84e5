//! The statement grammar, stated over the characters of the statement.
//!
//! Each rule is a spec function from a start position to the view of what it
//! matched and the position after it, or to the error at the first place
//! where matching failed. Blanks between tokens are skipped; keywords match
//! in either case and must stand as whole words.

use vstd::prelude::*;
use crate::ast::{ConditionV, Expected, OpV, ParseErrorV, ProjectionV, SelectV, ValueV};
use crate::scan::{
    is_digit, is_identifier, keyword_at, lemma_run_end_bounds, run_end, word_at,
    CharClass, Keyword,
};

verus! {

pub open spec fn skip_ws(s: Seq<char>, i: int) -> int {
    run_end(s, i, CharClass::Space)
}

/// The first non-blank position after the word at `i`.
pub open spec fn after_word(s: Seq<char>, i: int) -> int {
    skip_ws(s, run_end(s, i, CharClass::Word))
}

/// A path: segments of segment characters joined by single slashes.
pub open spec fn is_path(p: Seq<char>) -> bool {
    &&& p.len() > 0
    &&& p[0] != '/'
    &&& p.last() != '/'
    &&& forall|k: int| 0 <= k < p.len() - 1 && p[k] == '/' ==> #[trigger] p[k + 1] != '/'
}

pub open spec fn slash_count(p: Seq<char>) -> nat
    decreases p.len(),
{
    if p.len() == 0 {
        0
    } else {
        slash_count(p.drop_last()) + if p.last() == '/' {
            1nat
        } else {
            0nat
        }
    }
}

/// How many pieces splitting `p` on `/` gives.
pub open spec fn segment_count(p: Seq<char>) -> nat {
    slash_count(p) + 1
}

pub open spec fn trim_leading_zeros(d: Seq<char>) -> Seq<char>
    decreases d.len(),
{
    if d.len() > 0 && d[0] == '0' {
        trim_leading_zeros(d.drop_first())
    } else {
        d
    }
}

pub open spec fn trim_trailing_zeros(d: Seq<char>) -> Seq<char>
    decreases d.len(),
{
    if d.len() > 0 && d.last() == '0' {
        trim_trailing_zeros(d.drop_last())
    } else {
        d
    }
}

/// `s[i..]` starts with the id projection `:id`.
pub open spec fn id_token_at(s: Seq<char>, i: int) -> bool {
    i + 3 <= s.len() && s[i] == ':' && s[i + 1] == 'i' && s[i + 2] == 'd' && run_end(
        s,
        i + 1,
        CharClass::Word,
    ) == i + 3
}

pub open spec fn projection_at(s: Seq<char>, i: int) -> Result<(ProjectionV, int), ParseErrorV> {
    let w = run_end(s, i, CharClass::Word);
    if i < s.len() && s[i] == '*' {
        Ok((ProjectionV::Object, i + 1))
    } else if id_token_at(s, i) {
        Ok((ProjectionV::ObjectId, i + 3))
    } else if is_identifier(s.subrange(i, w)) {
        Ok((ProjectionV::Property(s.subrange(i, w)), w))
    } else {
        Err(ParseErrorV::Grammar(i, Expected::Projection))
    }
}

/// A comma-separated list of projections.
pub open spec fn projections_from(s: Seq<char>, i: int) -> Result<
    (Seq<ProjectionV>, int),
    ParseErrorV,
>
    decreases s.len() - i,
    when 0 <= i <= s.len()
{
    match projection_at(s, i) {
        Err(e) => Err(e),
        Ok((p, e)) => {
            let j = skip_ws(s, e);
            if j < s.len() && s[j] == ',' {
                proof {
                    lemma_projection_advances(s, i);
                    lemma_run_end_bounds(s, e, CharClass::Space);
                    lemma_run_end_bounds(s, j + 1, CharClass::Space);
                }
                match projections_from(s, skip_ws(s, j + 1)) {
                    Err(err) => Err(err),
                    Ok((rest, m)) => Ok((seq![p] + rest, m)),
                }
            } else {
                Ok((seq![p], j))
            }
        },
    }
}

pub open spec fn number_at(s: Seq<char>, i: int) -> Result<(ValueV, int), ParseErrorV> {
    let negative = i < s.len() && s[i] == '-';
    let d0 = if negative {
        i + 1
    } else {
        i
    };
    let d1 = run_end(s, d0, CharClass::Digit);
    let whole = trim_leading_zeros(s.subrange(d0, d1));
    if d1 == d0 {
        Err(ParseErrorV::Grammar(i, Expected::Value))
    } else if d1 + 1 < s.len() && s[d1] == '.' && is_digit(s[d1 + 1]) {
        let d2 = run_end(s, d1 + 1, CharClass::Digit);
        Ok(
            (
                ValueV::Number(negative, whole, trim_trailing_zeros(s.subrange(d1 + 1, d2))),
                d2,
            ),
        )
    } else {
        Ok((ValueV::Number(negative, whole, Seq::empty()), d1))
    }
}

pub open spec fn value_at(s: Seq<char>, i: int) -> Result<(ValueV, int), ParseErrorV> {
    let w = run_end(s, i, CharClass::Word);
    if i < s.len() && s[i] == '"' {
        let q = run_end(s, i + 1, CharClass::Unquoted);
        if q < s.len() {
            Ok((ValueV::Text(s.subrange(i + 1, q)), q + 1))
        } else {
            Err(ParseErrorV::Grammar(i, Expected::Value))
        }
    } else if i < s.len() && s[i] == '#' {
        let e = run_end(s, i + 1, CharClass::Path);
        if is_path(s.subrange(i + 1, e)) {
            Ok((ValueV::Reference(s.subrange(i + 1, e)), e))
        } else {
            Err(ParseErrorV::Grammar(i, Expected::Value))
        }
    } else if word_at(s, i) == seq!['t', 'r', 'u', 'e'] {
        Ok((ValueV::Bool(true), w))
    } else if word_at(s, i) == seq!['f', 'a', 'l', 's', 'e'] {
        Ok((ValueV::Bool(false), w))
    } else {
        number_at(s, i)
    }
}

/// The comparison that the operator spelled `t` makes with `v`, if `t` is one.
pub open spec fn comparison_op(t: Seq<char>, v: ValueV) -> Option<OpV> {
    if t == seq!['='] {
        Some(OpV::Equal(v))
    } else if t == seq!['!', '='] {
        Some(OpV::NotEqual(v))
    } else if t == seq!['>'] {
        Some(OpV::GreaterThan(v))
    } else if t == seq!['<'] {
        Some(OpV::LessThan(v))
    } else {
        None
    }
}

pub open spec fn condition_at(s: Seq<char>, i: int) -> Result<(ConditionV, int), ParseErrorV> {
    let w = run_end(s, i, CharClass::Word);
    let name = s.subrange(i, w);
    let j = skip_ws(s, w);
    if !is_identifier(name) {
        Err(ParseErrorV::Grammar(i, Expected::Condition))
    } else if keyword_at(s, j, Keyword::Is) {
        let k = after_word(s, j);
        if keyword_at(s, k, Keyword::Not) {
            let m = after_word(s, k);
            if keyword_at(s, m, Keyword::Null) {
                Ok(
                    (
                        ConditionV::Not(Box::new(ConditionV::IsNull(name))),
                        run_end(s, m, CharClass::Word),
                    ),
                )
            } else {
                Err(ParseErrorV::Grammar(m, Expected::NullKeyword))
            }
        } else if keyword_at(s, k, Keyword::Null) {
            Ok((ConditionV::IsNull(name), run_end(s, k, CharClass::Word)))
        } else {
            Err(ParseErrorV::Grammar(k, Expected::NullKeyword))
        }
    } else {
        let oe = run_end(s, j, CharClass::Operator);
        if oe == j {
            Err(ParseErrorV::Grammar(j, Expected::Operator))
        } else {
            match value_at(s, skip_ws(s, oe)) {
                Err(e) => Err(e),
                Ok((v, e)) => match comparison_op(s.subrange(j, oe), v) {
                    Some(op) => Ok((ConditionV::Comparison(name, op), e)),
                    None => Err(ParseErrorV::UnexpectedItem(s.subrange(j, oe))),
                },
            }
        }
    }
}

/// Conditions joined by `AND`.
pub open spec fn conditions_from(s: Seq<char>, i: int) -> Result<
    (Seq<ConditionV>, int),
    ParseErrorV,
>
    decreases s.len() - i,
    when 0 <= i <= s.len()
{
    match condition_at(s, i) {
        Err(e) => Err(e),
        Ok((c, e)) => {
            let j = skip_ws(s, e);
            if keyword_at(s, j, Keyword::And) {
                proof {
                    lemma_condition_advances(s, i);
                    lemma_run_end_bounds(s, e, CharClass::Space);
                    lemma_run_end_bounds(s, j, CharClass::Word);
                    lemma_run_end_bounds(s, run_end(s, j, CharClass::Word), CharClass::Space);
                }
                match conditions_from(s, after_word(s, j)) {
                    Err(err) => Err(err),
                    Ok((rest, m)) => Ok((seq![c] + rest, m)),
                }
            } else {
                Ok((seq![c], j))
            }
        },
    }
}

/// A whole statement: `SELECT` projections `FROM` path, then optionally
/// `WHERE` conditions, and nothing after but blanks.
pub open spec fn select_at(s: Seq<char>) -> Result<SelectV, ParseErrorV> {
    let i = skip_ws(s, 0);
    if !keyword_at(s, i, Keyword::Select) {
        Err(ParseErrorV::Grammar(i, Expected::SelectKeyword))
    } else {
        match projections_from(s, after_word(s, i)) {
            Err(e) => Err(e),
            Ok((projections, j)) => {
                let p = after_word(s, j);
                let pe = run_end(s, p, CharClass::Path);
                let path = s.subrange(p, pe);
                let k = skip_ws(s, pe);
                if !keyword_at(s, j, Keyword::From) {
                    Err(ParseErrorV::Grammar(j, Expected::FromKeyword))
                } else if !is_path(path) {
                    Err(ParseErrorV::Grammar(p, Expected::CollectionPath))
                } else if segment_count(path) % 2 == 0 {
                    Err(ParseErrorV::InvalidCollectionPath(path))
                } else if k == s.len() {
                    Ok(SelectV { projections, path, conditions: Seq::empty() })
                } else if !keyword_at(s, k, Keyword::Where) {
                    Err(ParseErrorV::Grammar(k, Expected::WhereOrEnd))
                } else {
                    match conditions_from(s, after_word(s, k)) {
                        Err(e) => Err(e),
                        Ok((conditions, m)) => if m == s.len() {
                            Ok(SelectV { projections, path, conditions })
                        } else {
                            Err(ParseErrorV::Grammar(m, Expected::AndOrEnd))
                        },
                    }
                }
            },
        }
    }
}

pub proof fn lemma_projection_advances(s: Seq<char>, i: int)
    requires
        0 <= i <= s.len(),
    ensures
        projection_at(s, i) matches Ok((_, e)) ==> i < e <= s.len(),
{
    lemma_run_end_bounds(s, i, CharClass::Word);
}

pub proof fn lemma_value_advances(s: Seq<char>, i: int)
    requires
        0 <= i <= s.len(),
    ensures
        value_at(s, i) matches Ok((_, e)) ==> i < e <= s.len(),
{
    lemma_run_end_bounds(s, i, CharClass::Word);
    lemma_run_end_bounds(s, i, CharClass::Digit);
    if i < s.len() {
        lemma_run_end_bounds(s, i + 1, CharClass::Unquoted);
        lemma_run_end_bounds(s, i + 1, CharClass::Path);
        lemma_run_end_bounds(s, i + 1, CharClass::Digit);
    }
    let d0 = if i < s.len() && s[i] == '-' {
        i + 1
    } else {
        i
    };
    let d1 = run_end(s, d0, CharClass::Digit);
    if d1 + 1 < s.len() {
        lemma_run_end_bounds(s, d1 + 1, CharClass::Digit);
    }
    assert(seq!['t', 'r', 'u', 'e'].len() == 4);
    assert(seq!['f', 'a', 'l', 's', 'e'].len() == 5);
}

pub proof fn lemma_condition_advances(s: Seq<char>, i: int)
    requires
        0 <= i <= s.len(),
    ensures
        condition_at(s, i) matches Ok((_, e)) ==> i < e <= s.len(),
{
    lemma_run_end_bounds(s, i, CharClass::Word);
    let w = run_end(s, i, CharClass::Word);
    lemma_run_end_bounds(s, w, CharClass::Space);
    let j = skip_ws(s, w);
    lemma_run_end_bounds(s, j, CharClass::Word);
    lemma_run_end_bounds(s, run_end(s, j, CharClass::Word), CharClass::Space);
    let k = after_word(s, j);
    lemma_run_end_bounds(s, k, CharClass::Word);
    lemma_run_end_bounds(s, run_end(s, k, CharClass::Word), CharClass::Space);
    let m = after_word(s, k);
    lemma_run_end_bounds(s, m, CharClass::Word);
    lemma_run_end_bounds(s, j, CharClass::Operator);
    let oe = run_end(s, j, CharClass::Operator);
    lemma_run_end_bounds(s, oe, CharClass::Space);
    lemma_value_advances(s, skip_ws(s, oe));
}

pub proof fn lemma_projections_errors(s: Seq<char>, i: int)
    requires
        0 <= i <= s.len(),
    ensures
        projections_from(s, i) matches Err(e) ==> e is Grammar,
        projections_from(s, i) matches Ok((_, e)) ==> i <= e <= s.len(),
    decreases s.len() - i,
{
    lemma_projection_advances(s, i);
    if let Ok((_, e)) = projection_at(s, i) {
        lemma_run_end_bounds(s, e, CharClass::Space);
        let j = skip_ws(s, e);
        if j < s.len() && s[j] == ',' {
            lemma_run_end_bounds(s, j + 1, CharClass::Space);
            lemma_projections_errors(s, skip_ws(s, j + 1));
        }
    }
}

pub proof fn lemma_conditions_errors(s: Seq<char>, i: int)
    requires
        0 <= i <= s.len(),
    ensures
        conditions_from(s, i) matches Err(e) ==> !(e is InvalidCollectionPath),
        conditions_from(s, i) matches Ok((_, e)) ==> i <= e <= s.len(),
    decreases s.len() - i,
{
    lemma_condition_advances(s, i);
    if let Ok((_, e)) = condition_at(s, i) {
        lemma_run_end_bounds(s, e, CharClass::Space);
        let j = skip_ws(s, e);
        if keyword_at(s, j, Keyword::And) {
            lemma_run_end_bounds(s, j, CharClass::Word);
            lemma_run_end_bounds(s, run_end(s, j, CharClass::Word), CharClass::Space);
            lemma_conditions_errors(s, after_word(s, j));
        }
    }
}

/// The collection path that a statement's `FROM` clause names, where the
/// statement matches the grammar up to and including it.
pub open spec fn from_path(s: Seq<char>) -> Option<Seq<char>> {
    let i = skip_ws(s, 0);
    if !keyword_at(s, i, Keyword::Select) {
        None
    } else {
        match projections_from(s, after_word(s, i)) {
            Err(_) => None,
            Ok((_, j)) => {
                let p = after_word(s, j);
                let path = s.subrange(p, run_end(s, p, CharClass::Path));
                if keyword_at(s, j, Keyword::From) && is_path(path) {
                    Some(path)
                } else {
                    None
                }
            },
        }
    }
}

/// A statement whose grammar reaches a collection path is refused for that
/// path exactly when the path splits into an even number of segments, and
/// every statement that parses names a path with an odd number of segments.
pub proof fn lemma_path_parity(s: Seq<char>)
    ensures
        from_path(s) matches Some(p) ==> (select_at(s) == Err::<SelectV, ParseErrorV>(
            ParseErrorV::InvalidCollectionPath(p),
        ) <==> segment_count(p) % 2 == 0),
        select_at(s) matches Ok(sel) ==> from_path(s) == Some(sel.path) && segment_count(sel.path)
            % 2 == 1,
        select_at(s) matches Err(ParseErrorV::InvalidCollectionPath(p)) ==> from_path(s) == Some(
            p,
        ) && segment_count(p) % 2 == 0,
{
    lemma_run_end_bounds(s, 0, CharClass::Space);
    let i = skip_ws(s, 0);
    lemma_run_end_bounds(s, i, CharClass::Word);
    lemma_run_end_bounds(s, run_end(s, i, CharClass::Word), CharClass::Space);
    lemma_projections_errors(s, after_word(s, i));
    if keyword_at(s, i, Keyword::Select) {
        if let Ok((_, j)) = projections_from(s, after_word(s, i)) {
            lemma_run_end_bounds(s, j, CharClass::Word);
            lemma_run_end_bounds(s, run_end(s, j, CharClass::Word), CharClass::Space);
            let p = after_word(s, j);
            lemma_run_end_bounds(s, p, CharClass::Path);
            let k = skip_ws(s, run_end(s, p, CharClass::Path));
            lemma_run_end_bounds(s, run_end(s, p, CharClass::Path), CharClass::Space);
            lemma_run_end_bounds(s, k, CharClass::Word);
            lemma_run_end_bounds(s, run_end(s, k, CharClass::Word), CharClass::Space);
            lemma_conditions_errors(s, after_word(s, k));
        }
    }
}

} // verus!
