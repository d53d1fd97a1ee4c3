//! The expression parser: a small recursive grammar that recognizes one
//! parenthesized procedure call — an opening delimiter, an operator token
//! classified by ordered alternation (special form, then primitive, then
//! user name), zero or more whitespace-delimited argument tokens, and a
//! closing delimiter.

use crate::ast::{Op, OpModel, ParseError, Prim, ProcModel, Procedure, SForm};
use vstd::prelude::*;

verus! {

/// Whitespace as the tokenizer understands it: the characters with Unicode's
/// White_Space property, the set `str::trim` removes.
pub open spec fn is_ws_char(c: char) -> bool {
    ||| c == ' ' || c == '\t' || c == '\n' || c == '\r' || c == '\u{0b}' || c == '\u{0c}'
    ||| c == '\u{85}' || c == '\u{a0}' || c == '\u{1680}'
    ||| '\u{2000}' <= c && c <= '\u{200a}'
    ||| c == '\u{2028}' || c == '\u{2029}' || c == '\u{202f}' || c == '\u{205f}' || c
        == '\u{3000}'
}

/// An ASCII alphanumeric character: the only characters a token may contain.
pub open spec fn is_alnum_char(c: char) -> bool {
    ||| '0' <= c && c <= '9'
    ||| 'a' <= c && c <= 'z'
    ||| 'A' <= c && c <= 'Z'
}

fn is_ws(c: char) -> (r: bool)
    ensures
        r == is_ws_char(c),
{
    (c == ' ' || c == '\t' || c == '\n' || c == '\r' || c == '\u{0b}' || c == '\u{0c}') || (c
        == '\u{85}' || c == '\u{a0}' || c == '\u{1680}') || ('\u{2000}' <= c && c <= '\u{200a}')
        || (c == '\u{2028}' || c == '\u{2029}' || c == '\u{202f}' || c == '\u{205f}' || c
        == '\u{3000}')
}

fn is_alnum(c: char) -> (r: bool)
    ensures
        r == is_alnum_char(c),
{
    ('0' <= c && c <= '9') || ('a' <= c && c <= 'z') || ('A' <= c && c <= 'Z')
}

/// The index of the first non-whitespace character at or after `i`.
pub open spec fn spec_skip_ws(s: Seq<char>, i: int) -> int
    decreases s.len() - i
        when 0 <= i <= s.len()
{
    if i < s.len() && is_ws_char(s[i]) {
        spec_skip_ws(s, i + 1)
    } else {
        i
    }
}

/// The index just past the maximal alphanumeric run starting at `i`.
pub open spec fn spec_alnum_end(s: Seq<char>, i: int) -> int
    decreases s.len() - i
        when 0 <= i <= s.len()
{
    if i < s.len() && is_alnum_char(s[i]) {
        spec_alnum_end(s, i + 1)
    } else {
        i
    }
}

proof fn lemma_skip_ws_bounds(s: Seq<char>, i: int)
    requires
        0 <= i <= s.len(),
    ensures
        i <= spec_skip_ws(s, i) <= s.len(),
        spec_skip_ws(s, i) < s.len() ==> !is_ws_char(s[spec_skip_ws(s, i)]),
    decreases s.len() - i,
{
    if i < s.len() && is_ws_char(s[i]) {
        lemma_skip_ws_bounds(s, i + 1);
    }
}

proof fn lemma_alnum_end_bounds(s: Seq<char>, i: int)
    requires
        0 <= i <= s.len(),
    ensures
        i <= spec_alnum_end(s, i) <= s.len(),
        forall|m: int| i <= m < spec_alnum_end(s, i) ==> is_alnum_char(s[m]),
        spec_alnum_end(s, i) < s.len() ==> !is_alnum_char(s[spec_alnum_end(s, i)]),
    decreases s.len() - i,
{
    if i < s.len() && is_alnum_char(s[i]) {
        lemma_alnum_end_bounds(s, i + 1);
    }
}

/// Whether the token recognizer succeeds at position `i`: after skipping
/// whitespace an alphanumeric character must be next.
pub open spec fn token_ok(s: Seq<char>, i: int) -> bool {
    let j = spec_skip_ws(s, i);
    j < s.len() && is_alnum_char(s[j])
}

/// The token the token recognizer returns at position `i`: the maximal
/// alphanumeric run after the leading whitespace.
pub open spec fn spec_token(s: Seq<char>, i: int) -> Seq<char> {
    let j = spec_skip_ws(s, i);
    s.subrange(j, spec_alnum_end(s, j))
}

/// Where the input resumes after the token at position `i`: immediately
/// after the consumed alphanumeric run. Whitespace separating the run from
/// later text stays in the remainder.
pub open spec fn spec_token_next(s: Seq<char>, i: int) -> int {
    spec_alnum_end(s, spec_skip_ws(s, i))
}

/// Where the trailing whitespace run of `s` begins: the end of `s` with
/// trailing whitespace trimmed, as `str::trim` trims it.
pub open spec fn spec_trim_end(s: Seq<char>) -> int
    decreases s.len(),
{
    if s.len() > 0 && is_ws_char(s.last()) {
        spec_trim_end(s.drop_last())
    } else {
        s.len() as int
    }
}

proof fn lemma_trim_end_bounds(s: Seq<char>)
    ensures
        0 <= spec_trim_end(s) <= s.len(),
    decreases s.len(),
{
    if s.len() > 0 && is_ws_char(s.last()) {
        lemma_trim_end_bounds(s.drop_last());
    }
}

/// Every character at or after a non-whitespace character's successor index
/// can only be trimmed if that character stays: the trimmed end lies past
/// any non-whitespace position.
proof fn lemma_trim_end_after(s: Seq<char>, p: int)
    requires
        0 <= p < s.len(),
        !is_ws_char(s[p]),
    ensures
        spec_trim_end(s) >= p + 1,
    decreases s.len(),
{
    if s.len() > 0 && is_ws_char(s.last()) {
        lemma_trim_end_after(s.drop_last(), p);
    }
}

/// A successful token parse consumes at least one character and never runs
/// past the end of the input.
proof fn lemma_token_next_bounds(s: Seq<char>, i: int)
    requires
        0 <= i <= s.len(),
        token_ok(s, i),
    ensures
        i < spec_token_next(s, i) <= s.len(),
        spec_token(s, i).len() > 0,
{
    let j = spec_skip_ws(s, i);
    lemma_skip_ws_bounds(s, i);
    lemma_alnum_end_bounds(s, j);
    assert(spec_alnum_end(s, j) == spec_alnum_end(s, j + 1));
    lemma_alnum_end_bounds(s, j + 1);
}

/// The token ends on an alphanumeric character, so the trailing whitespace
/// run of the input begins no earlier than the token's end.
proof fn lemma_token_next_in_trim(s: Seq<char>, i: int)
    requires
        0 <= i <= s.len(),
        token_ok(s, i),
    ensures
        spec_token_next(s, i) <= spec_trim_end(s),
{
    let j = spec_skip_ws(s, i);
    let k = spec_token_next(s, i);
    lemma_skip_ws_bounds(s, i);
    lemma_alnum_end_bounds(s, j);
    assert(spec_alnum_end(s, j) == spec_alnum_end(s, j + 1));
    lemma_alnum_end_bounds(s, j + 1);
    assert(is_alnum_char(s[k - 1]));
    assert(!is_ws_char(s[k - 1]));
    lemma_trim_end_after(s, k - 1);
}

/// Skips whitespace starting at `i`, returning the first index holding a
/// non-whitespace character (or the input's length).
fn skip_ws_at(s: &str, i: usize) -> (j: usize)
    requires
        i <= s@.len(),
    ensures
        j == spec_skip_ws(s@, i as int),
        i <= j <= s@.len(),
    decreases s@.len() - i,
{
    let n = s.unicode_len();
    if i < n && is_ws(s.get_char(i)) {
        skip_ws_at(s, i + 1)
    } else {
        i
    }
}

/// Scans the maximal alphanumeric run starting at `i`, returning the index
/// just past it.
fn scan_alnum(s: &str, i: usize) -> (k: usize)
    requires
        i <= s@.len(),
    ensures
        k == spec_alnum_end(s@, i as int),
        i <= k <= s@.len(),
    decreases s@.len() - i,
{
    let n = s.unicode_len();
    if i < n && is_alnum(s.get_char(i)) {
        scan_alnum(s, i + 1)
    } else {
        i
    }
}

/// The token recognizer on a cursor: consumes leading whitespace and one
/// maximal alphanumeric run, returning the run and the position immediately
/// after it (whitespace separating the run from later text is kept).
fn token_at(s: &str, i: usize) -> (r: Option<(String, usize)>)
    requires
        i <= s@.len(),
    ensures
        r is Some <==> token_ok(s@, i as int),
        r matches Some((t, next)) ==> {
            &&& t@ == spec_token(s@, i as int)
            &&& next == spec_token_next(s@, i as int)
            &&& i < next <= s@.len()
        },
{
    let n = s.unicode_len();
    let j = skip_ws_at(s, i);
    if j < n && is_alnum(s.get_char(j)) {
        let k = scan_alnum(s, j);
        let t = s.substring_char(j, k).to_owned();
        proof {
            lemma_token_next_bounds(s@, i as int);
        }
        Some((t, k))
    } else {
        None
    }
}

/// Whole-token matching against the special-form keyword set: a token
/// classifies as a special form exactly when it equals one of the five
/// keywords in full (a token merely extending a keyword does not match).
pub open spec fn keyword_sform(t: Seq<char>) -> Option<SForm> {
    if t == "if"@ {
        Some(SForm::If)
    } else if t == "begin"@ {
        Some(SForm::Begin)
    } else if t == "define"@ {
        Some(SForm::Define)
    } else if t == "lambda"@ {
        Some(SForm::Lambda)
    } else if t == "let"@ {
        Some(SForm::Let)
    } else {
        None
    }
}

/// The primitive kind a single character denotes, if any.
pub open spec fn prim_of_char(c: char) -> Option<Prim> {
    if c == '*' {
        Some(Prim::Mul)
    } else if c == '+' {
        Some(Prim::Add)
    } else if c == '-' {
        Some(Prim::Sub)
    } else if c == '/' {
        Some(Prim::Div)
    } else {
        None
    }
}

/// Classifies a complete token against the keyword set.
fn token_sform(t: &String) -> (r: Option<SForm>)
    ensures
        r == keyword_sform(t@),
{
    if *t == String::from_str("if") {
        Some(SForm::If)
    } else if *t == String::from_str("begin") {
        Some(SForm::Begin)
    } else if *t == String::from_str("define") {
        Some(SForm::Define)
    } else if *t == String::from_str("lambda") {
        Some(SForm::Lambda)
    } else if *t == String::from_str("let") {
        Some(SForm::Let)
    } else {
        None
    }
}

fn prim_char(c: char) -> (r: Option<Prim>)
    ensures
        r == prim_of_char(c),
{
    if c == '*' {
        Some(Prim::Mul)
    } else if c == '+' {
        Some(Prim::Add)
    } else if c == '-' {
        Some(Prim::Sub)
    } else if c == '/' {
        Some(Prim::Div)
    } else {
        None
    }
}

/// What the operator recognizer returns at position `i`: leading whitespace
/// is skipped, then the ordered alternation special form / primitive / user
/// name is tried. An alphanumeric token is a special form exactly when it
/// equals a keyword in full, and a user name otherwise; a primitive is a
/// single operator symbol.
pub open spec fn op_result(s: Seq<char>, i: int) -> Option<(OpModel, int)> {
    if token_ok(s, i) {
        let t = spec_token(s, i);
        match keyword_sform(t) {
            Some(f) => Some((OpModel::SpecialForm(f), spec_token_next(s, i))),
            None => Some((OpModel::User(t), spec_token_next(s, i))),
        }
    } else {
        let j = spec_skip_ws(s, i);
        if j < s.len() && prim_of_char(s[j]) is Some {
            Some((OpModel::Primitive(prim_of_char(s[j])->Some_0), j + 1))
        } else {
            None
        }
    }
}

/// The operator recognizer on a cursor: tries special form, then primitive,
/// then user name, after skipping leading whitespace.
fn op_at(s: &str, i: usize) -> (r: Option<(Op, usize)>)
    requires
        i <= s@.len(),
    ensures
        r is Some <==> op_result(s@, i as int) is Some,
        r matches Some((o, next)) ==> {
            &&& op_result(s@, i as int) matches Some(m)
            &&& o@ == m.0
            &&& next == m.1
            &&& i < next <= s@.len()
        },
{
    let n = s.unicode_len();
    match token_at(s, i) {
        Some((t, next)) => match token_sform(&t) {
            Some(f) => Some((Op::SpecialForm(f), next)),
            None => Some((Op::User(t), next)),
        },
        None => {
            let j = skip_ws_at(s, i);
            if j < n {
                match prim_char(s.get_char(j)) {
                    Some(p) => Some((Op::Primitive(p), j + 1)),
                    None => None,
                }
            } else {
                None
            }
        },
    }
}

/// What the argument collector returns at position `i`: the tokens consumed
/// one after another until no further token matches, and the position where
/// collection stopped.
pub open spec fn args_result(s: Seq<char>, i: int) -> (Seq<Seq<char>>, int)
    decreases s.len() - i
        when 0 <= i <= s.len()
        via args_result_decreases
{
    if token_ok(s, i) {
        let t = spec_token(s, i);
        let (rest, j) = args_result(s, spec_token_next(s, i));
        (seq![t] + rest, j)
    } else {
        (Seq::empty(), i)
    }
}

#[via_fn]
proof fn args_result_decreases(s: Seq<char>, i: int) {
    if 0 <= i <= s.len() && token_ok(s, i) {
        lemma_token_next_bounds(s, i);
    }
}

/// The argument collector on a cursor: consumes tokens until none matches.
fn args_at(s: &str, i: usize) -> (r: (Vec<String>, usize))
    requires
        i <= s@.len(),
    ensures
        r.0@.map_values(|t: String| t@) == args_result(s@, i as int).0,
        r.1 == args_result(s@, i as int).1,
        i <= r.1 <= s@.len(),
    decreases s@.len() - i,
{
    match token_at(s, i) {
        Some((t, next)) => {
            let (mut rest, j) = args_at(s, next);
            rest.insert(0, t);
            proof {
                assert(rest@.map_values(|t: String| t@) =~= args_result(s@, i as int).0);
            }
            (rest, j)
        },
        None => {
            proof {
                assert(Seq::<String>::empty().map_values(|t: String| t@) =~= Seq::<
                    Seq<char>,
                >::empty());
            }
            (Vec::new(), i)
        },
    }
}

/// What the procedure-body recognizer returns at position `i`: an operator
/// followed by the collected arguments, or nothing when the operator
/// recognizer fails.
pub open spec fn body_result(s: Seq<char>, i: int) -> Option<(ProcModel, int)> {
    match op_result(s, i) {
        Some((o, j)) => {
            let (args, k) = args_result(s, j);
            Some((ProcModel { op: o, args }, k))
        },
        None => None,
    }
}

/// The procedure-body recognizer on a cursor: an operator, then arguments.
fn body_at(s: &str, i: usize) -> (r: Option<(Procedure, usize)>)
    requires
        i <= s@.len(),
    ensures
        r is Some <==> body_result(s@, i as int) is Some,
        r matches Some((p, k)) ==> {
            &&& body_result(s@, i as int) matches Some(m)
            &&& p@ == m.0
            &&& k == m.1
            &&& i <= k <= s@.len()
        },
{
    match op_at(s, i) {
        Some((o, j)) => {
            let (args, k) = args_at(s, j);
            let p = Procedure { op: o, args };
            proof {
                let m = body_result(s@, i as int)->Some_0;
                assert(p@.args =~= m.0.args);
            }
            Some((p, k))
        },
        None => None,
    }
}

/// What parsing one whole procedure from the front of `s` yields: an exact
/// `(`, an operator, the collected arguments, whitespace, and an exact `)` —
/// or the error naming the first unsatisfiable expectation. On success the
/// second component is the position just past the closing delimiter; text
/// beyond it is not examined.
pub open spec fn proc_result(s: Seq<char>) -> Result<(ProcModel, int), ParseError> {
    if s.len() == 0 || s[0] != '(' {
        Err(ParseError::MissingDelimiter)
    } else {
        match body_result(s, 1) {
            None => Err(ParseError::InvalidOperator),
            Some((p, k)) => {
                let m = spec_skip_ws(s, k);
                if m < s.len() && s[m] == ')' {
                    Ok((p, m + 1))
                } else {
                    Err(ParseError::MissingDelimiter)
                }
            },
        }
    }
}

/// The procedure recognizer on the whole input: `(`, body, `)`.
fn proc_at(s: &str) -> (r: Result<(Procedure, usize), ParseError>)
    ensures
        r matches Ok((p, j)) ==> {
            &&& proc_result(s@) matches Ok(m)
            &&& p@ == m.0
            &&& j == m.1
            &&& 0 < j <= s@.len()
        },
        r matches Err(e) ==> proc_result(s@) matches Err(e2) && e == e2,
{
    let n = s.unicode_len();
    if n == 0 || s.get_char(0) != '(' {
        return Err(ParseError::MissingDelimiter);
    }
    match body_at(s, 1) {
        None => Err(ParseError::InvalidOperator),
        Some((p, k)) => {
            let m = skip_ws_at(s, k);
            if m < n && s.get_char(m) == ')' {
                Ok((p, m + 1))
            } else {
                Err(ParseError::MissingDelimiter)
            }
        },
    }
}

/// Computes where the trailing whitespace run of `s`'s first `e` characters
/// begins.
fn trim_end_at(s: &str, e: usize) -> (r: usize)
    requires
        e <= s@.len(),
    ensures
        r == spec_trim_end(s@.subrange(0, e as int)),
        r <= e,
    decreases e,
{
    if e > 0 && is_ws(s.get_char(e - 1)) {
        proof {
            assert(s@.subrange(0, e as int).drop_last() =~= s@.subrange(0, e as int - 1));
            assert(s@.subrange(0, e as int).last() == s@[e as int - 1]);
        }
        trim_end_at(s, e - 1)
    } else {
        proof {
            if e > 0 {
                assert(s@.subrange(0, e as int).last() == s@[e as int - 1]);
            }
        }
        e
    }
}

/// The rest of `s` from character position `j` up to `s`'s trimmed end.
fn rest_trimmed<'a>(s: &'a str, j: usize) -> (r: &'a str)
    requires
        j as int <= spec_trim_end(s@),
    ensures
        r@ == s@.subrange(j as int, spec_trim_end(s@)),
{
    let n = s.unicode_len();
    let e = trim_end_at(s, n);
    proof {
        assert(s@.subrange(0, n as int) =~= s@);
    }
    s.substring_char(j, e)
}

/// The operator recognizer stops on an operator symbol or at a token's end,
/// so never inside the trailing whitespace run.
proof fn lemma_op_next_in_trim(s: Seq<char>, i: int)
    requires
        0 <= i <= s.len(),
        op_result(s, i) is Some,
    ensures
        op_result(s, i)->Some_0.1 <= spec_trim_end(s),
{
    if token_ok(s, i) {
        lemma_token_next_in_trim(s, i);
    } else {
        let j = spec_skip_ws(s, i);
        lemma_skip_ws_bounds(s, i);
        lemma_trim_end_after(s, j);
    }
}

/// Argument collection stops at a token's end (or where it started), so
/// never inside the trailing whitespace run.
proof fn lemma_args_end_in_trim(s: Seq<char>, i: int)
    requires
        0 <= i <= s.len(),
        i <= spec_trim_end(s),
    ensures
        args_result(s, i).1 <= spec_trim_end(s),
    decreases s.len() - i,
{
    if token_ok(s, i) {
        lemma_token_next_bounds(s, i);
        lemma_token_next_in_trim(s, i);
        lemma_args_end_in_trim(s, spec_token_next(s, i));
    }
}

/// The procedure-body recognizer stops on or before the trailing whitespace
/// run.
proof fn lemma_body_end_in_trim(s: Seq<char>, i: int)
    requires
        0 <= i <= s.len(),
        body_result(s, i) is Some,
    ensures
        body_result(s, i)->Some_0.1 <= spec_trim_end(s),
{
    let j = op_result(s, i)->Some_0.1;
    lemma_op_result_bounds(s, i);
    lemma_op_next_in_trim(s, i);
    lemma_args_end_in_trim(s, j);
}

/// The rest of `s` from character position `j` on.
fn rest_from<'a>(s: &'a str, j: usize) -> (r: &'a str)
    requires
        j <= s@.len(),
    ensures
        r@ == s@.subrange(j as int, s@.len() as int),
{
    let n = s.unicode_len();
    s.substring_char(j, n)
}

/// The token recognizer: discards the input's surrounding whitespace, then
/// consumes one maximal run of alphanumeric characters, returning the run
/// together with the remaining unconsumed input — the rest of the trimmed
/// input immediately after the run, with whitespace separating the run from
/// later text kept. Fails with `InvalidToken` exactly when, after the
/// leading whitespace, the next character is not alphanumeric (in particular
/// on exhausted input or on a delimiter).
pub fn string<'a>(i: &'a str) -> (r: Result<(&'a str, String), ParseError>)
    ensures
        r matches Ok((rest, t)) ==> {
            &&& token_ok(i@, 0)
            &&& t@ == spec_token(i@, 0)
            &&& rest@ == i@.subrange(spec_token_next(i@, 0), spec_trim_end(i@))
        },
        r matches Err(e) ==> !token_ok(i@, 0) && e == ParseError::InvalidToken,
{
    match token_at(i, 0) {
        Some((t, next)) => {
            proof {
                lemma_token_next_in_trim(i@, 0);
            }
            Ok((rest_trimmed(i, next), t))
        },
        None => Err(ParseError::InvalidToken),
    }
}

/// The user-name recognizer: unconditionally wraps the next alphanumeric
/// token as `Op::User`. Fails exactly when no token is available.
pub fn user<'a>(i: &'a str) -> (r: Result<(&'a str, Op), ParseError>)
    ensures
        r matches Ok((rest, o)) ==> {
            &&& token_ok(i@, 0)
            &&& o@ == OpModel::User(spec_token(i@, 0))
            &&& rest@ == i@.subrange(spec_token_next(i@, 0), spec_trim_end(i@))
        },
        r matches Err(e) ==> !token_ok(i@, 0) && e == ParseError::InvalidOperator,
{
    match token_at(i, 0) {
        Some((t, next)) => {
            proof {
                lemma_token_next_in_trim(i@, 0);
            }
            Ok((rest_trimmed(i, next), Op::User(t)))
        },
        None => Err(ParseError::InvalidOperator),
    }
}

/// The special-form recognizer: succeeds exactly when the next token equals
/// one of the five keywords in full.
pub fn specialform<'a>(i: &'a str) -> (r: Result<(&'a str, Op), ParseError>)
    ensures
        r matches Ok((rest, o)) ==> {
            &&& token_ok(i@, 0)
            &&& keyword_sform(spec_token(i@, 0)) matches Some(f)
                && o@ == OpModel::SpecialForm(f)
            &&& rest@ == i@.subrange(spec_token_next(i@, 0), spec_trim_end(i@))
        },
        r matches Err(e) ==> {
            &&& !token_ok(i@, 0) || keyword_sform(spec_token(i@, 0)) is None
            &&& e == ParseError::InvalidOperator
        },
{
    match token_at(i, 0) {
        Some((t, next)) => match token_sform(&t) {
            Some(f) => {
                proof {
                    lemma_token_next_in_trim(i@, 0);
                }
                Ok((rest_trimmed(i, next), Op::SpecialForm(f)))
            },
            None => Err(ParseError::InvalidOperator),
        },
        None => Err(ParseError::InvalidOperator),
    }
}

/// The primitive recognizer: an exact match of the leading character against
/// the operator symbol set `* + - /`, consuming that character alone.
pub fn primitive<'a>(i: &'a str) -> (r: Result<(&'a str, Op), ParseError>)
    ensures
        r matches Ok((rest, o)) ==> {
            &&& i@.len() > 0
            &&& prim_of_char(i@[0]) matches Some(p) && o@ == OpModel::Primitive(p)
            &&& rest@ == i@.subrange(1, i@.len() as int)
        },
        r matches Err(e) ==> {
            &&& i@.len() == 0 || prim_of_char(i@[0]) is None
            &&& e == ParseError::InvalidOperator
        },
{
    if i.unicode_len() == 0 {
        return Err(ParseError::InvalidOperator);
    }
    match prim_char(i.get_char(0)) {
        Some(p) => Ok((rest_from(i, 1), Op::Primitive(p))),
        None => Err(ParseError::InvalidOperator),
    }
}

/// The operator recognizer: skips leading whitespace, then tries the
/// special-form, primitive and user recognizers in that order, returning the
/// first success. Fails exactly when the input offers neither an
/// alphanumeric token nor a primitive symbol.
pub fn op<'a>(i: &'a str) -> (r: Result<(&'a str, Op), ParseError>)
    ensures
        r matches Ok((rest, o)) ==> {
            &&& op_result(i@, 0) matches Some(m)
            &&& o@ == m.0
            &&& rest@ == i@.subrange(m.1, spec_trim_end(i@))
        },
        r matches Err(e) ==> op_result(i@, 0) is None && e == ParseError::InvalidOperator,
{
    match op_at(i, 0) {
        Some((o, next)) => {
            proof {
                lemma_op_next_in_trim(i@, 0);
            }
            Ok((rest_trimmed(i, next), o))
        },
        None => Err(ParseError::InvalidOperator),
    }
}

/// The procedure-body recognizer: an operator followed by zero or more
/// argument tokens, without the surrounding delimiters.
pub fn procedure_body<'a>(i: &'a str) -> (r: Result<(&'a str, Procedure), ParseError>)
    ensures
        r matches Ok((rest, p)) ==> {
            &&& body_result(i@, 0) matches Some(m)
            &&& p@ == m.0
            &&& rest@ == i@.subrange(m.1, spec_trim_end(i@))
        },
        r matches Err(e) ==> body_result(i@, 0) is None && e == ParseError::InvalidOperator,
{
    match body_at(i, 0) {
        Some((p, k)) => {
            proof {
                lemma_body_end_in_trim(i@, 0);
            }
            Ok((rest_trimmed(i, k), p))
        },
        None => Err(ParseError::InvalidOperator),
    }
}

/// The procedure recognizer: an exact `(`, an operator, zero or more
/// argument tokens, and an exact `)`, with whitespace between the elements
/// insignificant. Returns the assembled procedure together with the input
/// remaining after the closing delimiter.
pub fn procedure<'a>(i: &'a str) -> (r: Result<(&'a str, Procedure), ParseError>)
    ensures
        r matches Ok((rest, p)) ==> {
            &&& proc_result(i@) matches Ok(m)
            &&& p@ == m.0
            &&& rest@ == i@.subrange(m.1, i@.len() as int)
        },
        r matches Err(e) ==> proc_result(i@) matches Err(e2) && e == e2,
{
    match proc_at(i) {
        Ok((p, j)) => Ok((rest_from(i, j), p)),
        Err(e) => Err(e),
    }
}

/// Structural parse of one line: recognizes one parenthesized procedure call
/// at the front of `text` and classifies its operator. Text after the
/// closing delimiter is not examined. Fails with `MissingDelimiter` when the
/// leading `(` or the closing `)` is absent, and with `InvalidOperator` when
/// no operator can be consumed after the `(`.
pub fn parse_procedure(text: &str) -> (r: Result<Procedure, ParseError>)
    ensures
        r matches Ok(p) ==> proc_result(text@) matches Ok(m) && p@ == m.0,
        r matches Err(e) ==> proc_result(text@) matches Err(e2) && e == e2,
{
    match proc_at(text) {
        Ok((p, _)) => Ok(p),
        Err(e) => Err(e),
    }
}

/// The input's lexemes from position `i` on: whitespace is dropped, each
/// maximal alphanumeric run is kept whole, and every other character stands
/// alone. A lexeme is thus either a nonempty alphanumeric word, or a single
/// character that is neither alphanumeric nor whitespace (a delimiter or an
/// operator symbol) — the two kinds cannot be confused. Whitespace only
/// separates lexemes.
pub open spec fn lexemes(s: Seq<char>, i: int) -> Seq<Seq<char>>
    decreases s.len() - i
        via lexemes_decreases
{
    if i < 0 || i > s.len() {
        Seq::empty()
    } else {
        let j = spec_skip_ws(s, i);
        if j >= s.len() {
            Seq::empty()
        } else if is_alnum_char(s[j]) {
            seq![spec_token(s, i)] + lexemes(s, spec_token_next(s, i))
        } else {
            seq![seq![s[j]]] + lexemes(s, j + 1)
        }
    }
}

#[via_fn]
proof fn lexemes_decreases(s: Seq<char>, i: int) {
    if 0 <= i <= s.len() {
        lemma_skip_ws_bounds(s, i);
        if token_ok(s, i) {
            lemma_token_next_bounds(s, i);
        }
    }
}

/// Two equal nonempty lexeme streams have equal heads and equal tails.
proof fn lemma_lex_cons_eq(a: Seq<char>, r1: Seq<Seq<char>>, b: Seq<char>, r2: Seq<Seq<char>>)
    requires
        seq![a] + r1 == seq![b] + r2,
    ensures
        a == b,
        r1 == r2,
{
    assert((seq![a] + r1).len() == 1 + r1.len());
    assert((seq![b] + r2).len() == 1 + r2.len());
    assert((seq![a] + r1)[0] == a);
    assert((seq![b] + r2)[0] == b);
    assert(r1 =~= r2) by {
        assert forall|m: int| 0 <= m < r1.len() implies r1[m] == r2[m] by {
            assert((seq![a] + r1)[m + 1] == r1[m]);
            assert((seq![b] + r2)[m + 1] == r2[m]);
        }
    }
}

/// Inputs with equal lexeme streams agree on the token recognizer: both
/// fail, or both return the same token with equal streams remaining.
proof fn lemma_lex_token(s1: Seq<char>, i1: int, s2: Seq<char>, i2: int)
    requires
        0 <= i1 <= s1.len(),
        0 <= i2 <= s2.len(),
        lexemes(s1, i1) == lexemes(s2, i2),
    ensures
        token_ok(s1, i1) == token_ok(s2, i2),
        token_ok(s1, i1) ==> spec_token(s1, i1) == spec_token(s2, i2) && lexemes(
            s1,
            spec_token_next(s1, i1),
        ) == lexemes(s2, spec_token_next(s2, i2)),
{
    let j1 = spec_skip_ws(s1, i1);
    let j2 = spec_skip_ws(s2, i2);
    lemma_skip_ws_bounds(s1, i1);
    lemma_skip_ws_bounds(s2, i2);
    if token_ok(s1, i1) && token_ok(s2, i2) {
        lemma_lex_cons_eq(
            spec_token(s1, i1),
            lexemes(s1, spec_token_next(s1, i1)),
            spec_token(s2, i2),
            lexemes(s2, spec_token_next(s2, i2)),
        );
    } else if token_ok(s1, i1) {
        lemma_token_next_bounds(s1, i1);
        lemma_alnum_end_bounds(s1, j1);
        if j2 < s2.len() {
            lemma_lex_cons_eq(
                spec_token(s1, i1),
                lexemes(s1, spec_token_next(s1, i1)),
                seq![s2[j2]],
                lexemes(s2, j2 + 1),
            );
            assert(spec_token(s1, i1)[0] == s1[j1]);
            assert(seq![s2[j2]][0] == s2[j2]);
            assert(is_alnum_char(s1[j1]) && !is_alnum_char(s2[j2]));
            assert(false);
        } else {
            assert(lexemes(s1, i1).len() > 0);
            assert(false);
        }
    } else if token_ok(s2, i2) {
        lemma_token_next_bounds(s2, i2);
        lemma_alnum_end_bounds(s2, j2);
        if j1 < s1.len() {
            lemma_lex_cons_eq(
                seq![s1[j1]],
                lexemes(s1, j1 + 1),
                spec_token(s2, i2),
                lexemes(s2, spec_token_next(s2, i2)),
            );
            assert(spec_token(s2, i2)[0] == s2[j2]);
            assert(seq![s1[j1]][0] == s1[j1]);
            assert(is_alnum_char(s2[j2]) && !is_alnum_char(s1[j1]));
            assert(false);
        } else {
            assert(lexemes(s2, i2).len() > 0);
            assert(false);
        }
    }
}

/// Inputs with equal lexeme streams agree on the operator recognizer: both
/// fail, or both return the same operator with equal streams remaining.
proof fn lemma_lex_op(s1: Seq<char>, i1: int, s2: Seq<char>, i2: int)
    requires
        0 <= i1 <= s1.len(),
        0 <= i2 <= s2.len(),
        lexemes(s1, i1) == lexemes(s2, i2),
    ensures
        op_result(s1, i1) is Some <==> op_result(s2, i2) is Some,
        op_result(s1, i1) matches Some(m1) ==> op_result(s2, i2) matches Some(m2) && m1.0 == m2.0
            && lexemes(s1, m1.1) == lexemes(s2, m2.1),
{
    let j1 = spec_skip_ws(s1, i1);
    let j2 = spec_skip_ws(s2, i2);
    lemma_skip_ws_bounds(s1, i1);
    lemma_skip_ws_bounds(s2, i2);
    lemma_lex_token(s1, i1, s2, i2);
    if !token_ok(s1, i1) {
        if j1 < s1.len() && j2 < s2.len() {
            lemma_lex_cons_eq(seq![s1[j1]], lexemes(s1, j1 + 1), seq![s2[j2]], lexemes(s2, j2 + 1));
            assert(seq![s1[j1]][0] == s1[j1]);
            assert(seq![s2[j2]][0] == s2[j2]);
            assert(s1[j1] == s2[j2]);
        } else if j1 < s1.len() {
            assert(lexemes(s1, i1).len() > 0);
            assert(false);
        } else if j2 < s2.len() {
            assert(lexemes(s2, i2).len() > 0);
            assert(false);
        }
    }
}

/// Inputs with equal lexeme streams agree on argument collection: the same
/// arguments, with equal streams remaining.
proof fn lemma_lex_args(s1: Seq<char>, i1: int, s2: Seq<char>, i2: int)
    requires
        0 <= i1 <= s1.len(),
        0 <= i2 <= s2.len(),
        lexemes(s1, i1) == lexemes(s2, i2),
    ensures
        args_result(s1, i1).0 == args_result(s2, i2).0,
        lexemes(s1, args_result(s1, i1).1) == lexemes(s2, args_result(s2, i2).1),
    decreases s1.len() - i1,
{
    lemma_lex_token(s1, i1, s2, i2);
    if token_ok(s1, i1) {
        lemma_token_next_bounds(s1, i1);
        lemma_token_next_bounds(s2, i2);
        lemma_lex_args(s1, spec_token_next(s1, i1), s2, spec_token_next(s2, i2));
        assert(args_result(s1, i1).0 =~= args_result(s2, i2).0);
    }
}

/// Whitespace is insignificant separation: two inputs that open with `(` and
/// carry the same lexemes — that is, differ only in the whitespace runs
/// between the delimiters, the operator and the arguments — parse to the
/// same procedure, or fail with the same error.
pub proof fn lemma_parse_whitespace_insensitive(s1: Seq<char>, s2: Seq<char>)
    requires
        s1.len() > 0 && s1[0] == '(',
        s2.len() > 0 && s2[0] == '(',
        lexemes(s1, 1) == lexemes(s2, 1),
    ensures
        proc_result(s1) matches Ok(m1) ==> proc_result(s2) matches Ok(m2) && m1.0 == m2.0,
        proc_result(s1) matches Err(e1) ==> proc_result(s2) matches Err(e2) && e1 == e2,
{
    lemma_lex_op(s1, 1, s2, 1);
    if op_result(s1, 1) is Some {
        let m1 = op_result(s1, 1)->Some_0;
        let m2 = op_result(s2, 1)->Some_0;
        lemma_op_result_bounds(s1, 1);
        lemma_op_result_bounds(s2, 1);
        lemma_lex_args(s1, m1.1, s2, m2.1);
        let k1 = args_result(s1, m1.1).1;
        let k2 = args_result(s2, m2.1).1;
        lemma_args_end_bounds(s1, m1.1);
        lemma_args_end_bounds(s2, m2.1);
        let c1 = spec_skip_ws(s1, k1);
        let c2 = spec_skip_ws(s2, k2);
        lemma_skip_ws_bounds(s1, k1);
        lemma_skip_ws_bounds(s2, k2);
        lemma_lex_token(s1, k1, s2, k2);
        if c1 < s1.len() && c2 < s2.len() {
            if !is_alnum_char(s1[c1]) && !is_alnum_char(s2[c2]) {
                lemma_lex_cons_eq(
                    seq![s1[c1]],
                    lexemes(s1, c1 + 1),
                    seq![s2[c2]],
                    lexemes(s2, c2 + 1),
                );
                assert(seq![s1[c1]][0] == s1[c1]);
                assert(seq![s2[c2]][0] == s2[c2]);
                assert(s1[c1] == s2[c2]);
            }
        } else if c1 < s1.len() {
            assert(lexemes(s1, k1).len() > 0);
            assert(lexemes(s2, k2).len() == 0);
            assert(false);
        } else if c2 < s2.len() {
            assert(lexemes(s2, k2).len() > 0);
            assert(lexemes(s1, k1).len() == 0);
            assert(false);
        }
    }
}

/// Argument collection never runs past the end of the input.
proof fn lemma_args_end_bounds(s: Seq<char>, i: int)
    requires
        0 <= i <= s.len(),
    ensures
        i <= args_result(s, i).1 <= s.len(),
    decreases s.len() - i,
{
    if token_ok(s, i) {
        lemma_token_next_bounds(s, i);
        lemma_args_end_bounds(s, spec_token_next(s, i));
    }
}

/// Every character of `t` is alphanumeric.
pub open spec fn all_alnum(t: Seq<char>) -> bool {
    forall|m: int| 0 <= m < t.len() ==> is_alnum_char(#[trigger] t[m])
}

/// A token that textually extends a special-form keyword is not itself a
/// keyword: keyword matching is whole-token, never prefix, matching.
pub proof fn lemma_keyword_extension_not_keyword(t: Seq<char>, k: Seq<char>)
    requires
        keyword_sform(k) is Some,
        k.len() < t.len(),
        t.subrange(0, k.len() as int) == k,
    ensures
        keyword_sform(t) is None,
{
    reveal_strlit("if");
    reveal_strlit("begin");
    reveal_strlit("define");
    reveal_strlit("lambda");
    reveal_strlit("let");
    let n = k.len() as int;
    assert(t[0] == k[0] && t[1] == k[1]) by {
        assert(t.subrange(0, n)[0] == t[0]);
        assert(t.subrange(0, n)[1] == t[1]);
    }
}

/// A token that textually extends a special-form keyword classifies as a
/// user name: the operator recognizer returns `User` for it, never the
/// extended keyword's special form.
pub proof fn lemma_keyword_extension_is_user(s: Seq<char>, k: Seq<char>)
    requires
        token_ok(s, 0),
        keyword_sform(k) is Some,
        k.len() < spec_token(s, 0).len(),
        spec_token(s, 0).subrange(0, k.len() as int) == k,
    ensures
        op_result(s, 0) matches Some(m) && m.0 == OpModel::User(spec_token(s, 0)),
{
    lemma_keyword_extension_not_keyword(spec_token(s, 0), k);
}

/// A string that is entirely one alphanumeric run is one complete token: the
/// token recognizer returns it whole and consumes the whole input.
pub proof fn lemma_whole_token(t: Seq<char>)
    requires
        t.len() > 0,
        all_alnum(t),
    ensures
        token_ok(t, 0),
        spec_token(t, 0) == t,
        spec_token_next(t, 0) == t.len(),
        spec_trim_end(t) == t.len(),
{
    lemma_alnum_end_covers(t, 0);
    assert(spec_token(t, 0) =~= t);
    assert(!is_ws_char(t[t.len() - 1]));
    lemma_trim_end_after(t, t.len() - 1);
    lemma_trim_end_bounds(t);
}

/// From a position where every remaining character is alphanumeric, the
/// alphanumeric run extends to the end of the input.
proof fn lemma_alnum_end_covers(t: Seq<char>, i: int)
    requires
        0 <= i <= t.len(),
        forall|m: int| i <= m < t.len() ==> is_alnum_char(#[trigger] t[m]),
    ensures
        spec_alnum_end(t, i) == t.len(),
    decreases t.len() - i,
{
    if i < t.len() {
        lemma_alnum_end_covers(t, i + 1);
    }
}

/// Every token the argument collector returns is a nonempty alphanumeric
/// run.
proof fn lemma_args_result_tokens(s: Seq<char>, i: int)
    requires
        0 <= i <= s.len(),
    ensures
        forall|x: int|
            0 <= x < args_result(s, i).0.len() ==> {
                let t = #[trigger] args_result(s, i).0[x];
                t.len() > 0 && all_alnum(t)
            },
    decreases s.len() - i,
{
    if token_ok(s, i) {
        lemma_token_next_bounds(s, i);
        lemma_args_result_tokens(s, spec_token_next(s, i));
        let j = spec_skip_ws(s, i);
        lemma_skip_ws_bounds(s, i);
        lemma_alnum_end_bounds(s, j);
        assert(all_alnum(spec_token(s, i)));
        assert(args_result(s, i).0[0] == spec_token(s, i));
        assert(forall|x: int|
            1 <= x < args_result(s, i).0.len() ==> #[trigger] args_result(s, i).0[x]
                == args_result(s, spec_token_next(s, i)).0[x - 1]);
    }
}

/// On success the operator recognizer consumes at least one character and
/// never runs past the end of the input.
proof fn lemma_op_result_bounds(s: Seq<char>, i: int)
    requires
        0 <= i <= s.len(),
        op_result(s, i) is Some,
    ensures
        i < op_result(s, i)->Some_0.1 <= s.len(),
{
    if token_ok(s, i) {
        lemma_token_next_bounds(s, i);
    } else {
        lemma_skip_ws_bounds(s, i);
    }
}

/// Idempotence of tokenization: every argument string a successful parse
/// returns is one complete token, so re-parsing it with the token recognizer
/// returns it unchanged and leaves nothing over.
pub proof fn lemma_arg_reparse(s: Seq<char>, x: int)
    requires
        proc_result(s) is Ok,
        0 <= x < proc_result(s)->Ok_0.0.args.len(),
    ensures
        ({
            let t = proc_result(s)->Ok_0.0.args[x];
            &&& token_ok(t, 0)
            &&& spec_token(t, 0) == t
            &&& spec_token_next(t, 0) == t.len()
            &&& spec_trim_end(t) == t.len()
        }),
{
    let (o, j) = op_result(s, 1)->Some_0;
    lemma_op_result_bounds(s, 1);
    lemma_args_result_tokens(s, j);
    let t = proc_result(s)->Ok_0.0.args[x];
    assert(t == args_result(s, j).0[x]);
    lemma_whole_token(t);
}

} // verus!
