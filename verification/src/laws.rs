//! Laws the library states of itself: the pipeline is deterministic,
//! whitespace is only ever skipped, and every program the parser emits is
//! well-formed for a stack machine.

use vstd::prelude::*;

use crate::lexer::{
    char_token, is_number_char, is_space_char, lemma_number_run_end_bounds, number_run_end,
    spec_tokenize, spec_tokenize_from,
};
use crate::parser::{
    spec_expr_rest, spec_expression, spec_factor, spec_parse, spec_term, spec_term_rest, ParseStep,
};
use crate::token::{spec_render, OpV, TokenV};

verus! {

/// Law: evaluation is deterministic and pure. The token stream and the
/// parse outcome are functions of the input text alone, so repeated calls
/// on the same text yield the same result or error.
pub proof fn lemma_pipeline_deterministic(
    s: Seq<char>,
    t1: Seq<TokenV>,
    t2: Seq<TokenV>,
)
    requires
        t1 == spec_tokenize(s),
        t2 == spec_tokenize(s),
    ensures
        t1 == t2,
        spec_parse(t1) == spec_parse(t2),
{
}

/// Law: a whitespace character under the cursor never affects the token
/// stream beyond being skipped.
pub proof fn lemma_whitespace_skipped(s: Seq<char>, i: int)
    requires
        0 <= i < s.len(),
        is_space_char(s[i]),
    ensures
        spec_tokenize_from(s, i) == spec_tokenize_from(s, i + 1),
{
}

/// Every character of the numeric run starting at `i` is a digit or a
/// dot, and the run stops at the end of the text or at a character that is
/// neither.
pub proof fn lemma_number_run_props(s: Seq<char>, i: int)
    requires
        0 <= i <= s.len(),
    ensures
        forall|k: int| i <= k < number_run_end(s, i) ==> is_number_char(#[trigger] s[k]),
        number_run_end(s, i) < s.len() ==> !is_number_char(s[number_run_end(s, i)]),
    decreases s.len() - i,
{
    if i < s.len() && is_number_char(s[i]) {
        lemma_number_run_props(s, i + 1);
    }
}

/// A stretch of digits and dots bounded by the end of the text or by some
/// other character is exactly the numeric run.
pub proof fn lemma_number_run_exact(s: Seq<char>, i: int, e: int)
    requires
        0 <= i <= e <= s.len(),
        forall|k: int| i <= k < e ==> is_number_char(#[trigger] s[k]),
        e == s.len() || !is_number_char(s[e]),
    ensures
        number_run_end(s, i) == e,
    decreases e - i,
{
    if i < e {
        lemma_number_run_exact(s, i + 1, e);
    }
}

/// Numeric runs at the heads of equal suffixes have equal lengths.
proof fn lemma_number_run_align(s: Seq<char>, v: Seq<char>, i: int, k: int)
    requires
        0 <= i <= s.len(),
        0 <= k <= v.len(),
        s.subrange(i, s.len() as int) == v.subrange(k, v.len() as int),
    ensures
        number_run_end(s, i) - i == number_run_end(v, k) - k,
    decreases s.len() - i,
{
    assert(s.len() - i == v.len() - k) by {
        assert(s.subrange(i, s.len() as int).len() == s.len() - i);
        assert(v.subrange(k, v.len() as int).len() == v.len() - k);
    }
    if i < s.len() {
        assert(s[i] == v[k]) by {
            assert(s.subrange(i, s.len() as int)[0] == s[i]);
            assert(v.subrange(k, v.len() as int)[0] == v[k]);
        }
        if is_number_char(s[i]) {
            assert(s.subrange(i + 1, s.len() as int) =~= v.subrange(k + 1, v.len() as int)) by {
                assert(forall|m: int|
                    0 <= m < s.len() - i - 1 ==> #[trigger] s.subrange(i + 1, s.len() as int)[m]
                        == s.subrange(i, s.len() as int)[m + 1]);
                assert(forall|m: int|
                    0 <= m < v.len() - k - 1 ==> #[trigger] v.subrange(k + 1, v.len() as int)[m]
                        == v.subrange(k, v.len() as int)[m + 1]);
            }
            lemma_number_run_align(s, v, i + 1, k + 1);
        }
    }
}

/// The token stream never looks left of the cursor: scanning equal
/// suffixes from their heads yields equal token streams.
pub proof fn lemma_tokenize_align(s: Seq<char>, v: Seq<char>, i: int, k: int)
    requires
        0 <= i <= s.len(),
        0 <= k <= v.len(),
        s.subrange(i, s.len() as int) == v.subrange(k, v.len() as int),
    ensures
        spec_tokenize_from(s, i) == spec_tokenize_from(v, k),
    decreases s.len() - i,
{
    assert(s.len() - i == v.len() - k) by {
        assert(s.subrange(i, s.len() as int).len() == s.len() - i);
        assert(v.subrange(k, v.len() as int).len() == v.len() - k);
    }
    if i < s.len() {
        assert(s[i] == v[k]) by {
            assert(s.subrange(i, s.len() as int)[0] == s[i]);
            assert(v.subrange(k, v.len() as int)[0] == v[k]);
        }
        assert(s.subrange(i + 1, s.len() as int) =~= v.subrange(k + 1, v.len() as int)) by {
            assert(forall|m: int|
                0 <= m < s.len() - i - 1 ==> #[trigger] s.subrange(i + 1, s.len() as int)[m]
                    == s.subrange(i, s.len() as int)[m + 1]);
            assert(forall|m: int|
                0 <= m < v.len() - k - 1 ==> #[trigger] v.subrange(k + 1, v.len() as int)[m]
                    == v.subrange(k, v.len() as int)[m + 1]);
        }
        if is_space_char(s[i]) {
            lemma_tokenize_align(s, v, i + 1, k + 1);
        } else if is_number_char(s[i]) {
            let e: int = number_run_end(s, i);
            let f: int = number_run_end(v, k);
            lemma_number_run_align(s, v, i, k);
            assert(number_run_end(s, i) == number_run_end(s, i + 1));
            lemma_number_run_end_bounds(s, i + 1);
            lemma_number_run_end_bounds(v, k);
            assert(s.subrange(i, e) =~= v.subrange(k, f)) by {
                assert(forall|m: int|
                    0 <= m < e - i ==> #[trigger] s.subrange(i, e)[m] == s.subrange(i, s.len() as int)[m]);
                assert(forall|m: int|
                    0 <= m < f - k ==> #[trigger] v.subrange(k, f)[m] == v.subrange(k, v.len() as int)[m]);
            }
            assert(s.subrange(e, s.len() as int) =~= v.subrange(f, v.len() as int)) by {
                assert(forall|m: int|
                    0 <= m < s.len() - e ==> #[trigger] s.subrange(e, s.len() as int)[m]
                        == s.subrange(i, s.len() as int)[m + (e - i)]);
                assert(forall|m: int|
                    0 <= m < v.len() - f ==> #[trigger] v.subrange(f, v.len() as int)[m]
                        == v.subrange(k, v.len() as int)[m + (f - k)]);
            }
            lemma_tokenize_align(s, v, e, f);
        } else {
            lemma_tokenize_align(s, v, i + 1, k + 1);
        }
    }
}

/// From a cursor followed by nothing but whitespace, no token comes.
pub proof fn lemma_tokenize_all_space(s: Seq<char>, i: int)
    requires
        0 <= i <= s.len(),
        forall|k: int| i <= k < s.len() ==> is_space_char(#[trigger] s[k]),
    ensures
        spec_tokenize_from(s, i) == Seq::<TokenV>::empty(),
    decreases s.len() - i,
{
    if i < s.len() {
        lemma_tokenize_all_space(s, i + 1);
    }
}

/// Law: leading whitespace never changes the token stream.
pub proof fn lemma_leading_whitespace(ws: Seq<char>, s: Seq<char>)
    requires
        forall|k: int| 0 <= k < ws.len() ==> is_space_char(#[trigger] ws[k]),
    ensures
        spec_tokenize(ws + s) == spec_tokenize(s),
{
    lemma_leading_whitespace_from(ws, s, 0);
}

proof fn lemma_leading_whitespace_from(ws: Seq<char>, s: Seq<char>, i: int)
    requires
        forall|k: int| 0 <= k < ws.len() ==> is_space_char(#[trigger] ws[k]),
        0 <= i <= ws.len(),
    ensures
        spec_tokenize_from(ws + s, i) == spec_tokenize(s),
    decreases ws.len() - i,
{
    let u = ws + s;
    if i < ws.len() {
        assert(u[i] == ws[i]);
        lemma_leading_whitespace_from(ws, s, i + 1);
    } else {
        assert(u.subrange(i, u.len() as int) =~= s.subrange(0, s.len() as int));
        assert(s.subrange(0, s.len() as int) =~= s);
        lemma_tokenize_align(u, s, i, 0);
    }
}

/// Law: trailing whitespace never changes the token stream.
pub proof fn lemma_trailing_whitespace(s: Seq<char>, ws: Seq<char>)
    requires
        forall|k: int| 0 <= k < ws.len() ==> is_space_char(#[trigger] ws[k]),
    ensures
        spec_tokenize(s + ws) == spec_tokenize(s),
{
    lemma_trailing_whitespace_from(s, ws, 0);
}

proof fn lemma_trailing_whitespace_from(s: Seq<char>, ws: Seq<char>, i: int)
    requires
        forall|k: int| 0 <= k < ws.len() ==> is_space_char(#[trigger] ws[k]),
        0 <= i <= s.len(),
    ensures
        spec_tokenize_from(s + ws, i) == spec_tokenize_from(s, i),
    decreases s.len() - i,
{
    let u = s + ws;
    if i == s.len() {
        lemma_tokenize_all_space(u, i);
    } else {
        assert(u[i] == s[i]);
        if is_space_char(s[i]) {
            lemma_trailing_whitespace_from(s, ws, i + 1);
        } else if is_number_char(s[i]) {
            let e: int = number_run_end(s, i);
            lemma_number_run_end_bounds(s, i);
            lemma_number_run_props(s, i);
            assert(forall|k: int| i <= k < e ==> is_number_char(#[trigger] u[k]));
            if e == s.len() {
                if ws.len() > 0 {
                    assert(u[e] == ws[0]);
                    assert(!is_number_char(u[e]));
                    lemma_number_run_exact(u, i, e);
                } else {
                    assert(u =~= s);
                }
            } else {
                assert(u[e] == s[e]);
                lemma_number_run_exact(u, i, e);
            }
            assert(number_run_end(u, i) == e);
            assert(u.subrange(i, e) =~= s.subrange(i, e));
            lemma_trailing_whitespace_from(s, ws, e);
        } else {
            lemma_trailing_whitespace_from(s, ws, i + 1);
        }
    }
}

/// A token whose rendering reads back as the same token: a number whose
/// literal is a non-empty run of digits and dots, or a bracket or
/// operator. An `Invalid` marker renders as the text `Invalid(c)`, which
/// is not one token, so it is not well formed.
pub open spec fn well_formed_token(t: TokenV) -> bool {
    match t {
        TokenV::Number(lex) => lex.len() > 0 && forall|k: int|
            0 <= k < lex.len() ==> is_number_char(#[trigger] lex[k]),
        TokenV::Invalid(_) => false,
        _ => true,
    }
}

/// The renderings of the tokens, joined with single spaces.
pub open spec fn spec_render_join(ts: Seq<TokenV>) -> Seq<char>
    decreases ts.len(),
{
    if ts.len() == 0 {
        Seq::empty()
    } else if ts.len() == 1 {
        spec_render(ts[0])
    } else {
        spec_render(ts[0]) + seq![' '] + spec_render_join(ts.drop_first())
    }
}

/// Scanning text that starts with the rendering of a well-formed token,
/// delimited by a space or by the end of the text, yields that token and
/// scans on from just past the rendering.
proof fn lemma_head_token(u: Seq<char>, t: TokenV)
    requires
        well_formed_token(t),
        spec_render(t).len() <= u.len(),
        u.subrange(0, spec_render(t).len() as int) == spec_render(t),
        u.len() == spec_render(t).len() || u[spec_render(t).len() as int] == ' ',
    ensures
        spec_tokenize_from(u, 0) == seq![t] + spec_tokenize_from(u, spec_render(t).len() as int),
{
    let r = spec_render(t);
    assert(forall|m: int| 0 <= m < r.len() ==> #[trigger] u[m] == r[m]) by {
        assert(forall|m: int|
            0 <= m < r.len() ==> #[trigger] u.subrange(0, r.len() as int)[m] == u[m]);
    }
    match t {
        TokenV::Number(lex) => {
            assert(u[0] == lex[0]);
            assert(is_number_char(u[0]));
            assert(!is_space_char(u[0]));
            lemma_number_run_exact(u, 0, r.len() as int);
            assert(u.subrange(0, r.len() as int) =~= lex);
        },
        TokenV::Invalid(_) => {},
        _ => {
            assert(u[0] == r[0]);
            assert(!is_space_char(u[0]));
            assert(!is_number_char(u[0]));
            assert(char_token(u[0]) == t);
        },
    }
}

/// Law: rendering each of a sequence of well-formed tokens and rejoining
/// the renderings with single spaces reproduces text that tokenizes to the
/// identical token sequence.
pub proof fn lemma_render_join_round_trip(ts: Seq<TokenV>)
    requires
        forall|m: int| 0 <= m < ts.len() ==> well_formed_token(#[trigger] ts[m]),
    ensures
        spec_tokenize(spec_render_join(ts)) == ts,
    decreases ts.len(),
{
    let u = spec_render_join(ts);
    if ts.len() == 0 {
        assert(spec_tokenize_from(u, 0) =~= ts);
    } else if ts.len() == 1 {
        let r = spec_render(ts[0]);
        assert(u == r);
        assert(u.subrange(0, r.len() as int) =~= r);
        lemma_head_token(u, ts[0]);
        assert(spec_tokenize_from(u, r.len() as int) =~= Seq::<TokenV>::empty());
        assert(seq![ts[0]] + Seq::<TokenV>::empty() =~= ts);
    } else {
        let rest = ts.drop_first();
        let r = spec_render(ts[0]);
        let jr = spec_render_join(rest);
        assert(u == r + seq![' '] + jr);
        assert(u.subrange(0, r.len() as int) =~= r);
        assert(u[r.len() as int] == ' ') by {
            assert((r + seq![' '])[r.len() as int] == ' ');
        }
        lemma_head_token(u, ts[0]);
        assert(spec_tokenize_from(u, r.len() as int) == spec_tokenize_from(u, r.len() as int + 1));
        assert(u.subrange(r.len() as int + 1, u.len() as int) =~= jr);
        assert(jr.subrange(0, jr.len() as int) =~= jr);
        lemma_tokenize_align(u, jr, r.len() as int + 1, 0);
        assert(forall|m: int| 0 <= m < rest.len() ==> well_formed_token(#[trigger] rest[m])) by {
            assert(forall|m: int| 0 <= m < rest.len() ==> #[trigger] rest[m] == ts[m + 1]);
        }
        lemma_render_join_round_trip(rest);
        assert(seq![ts[0]] + rest =~= ts);
    }
}

/// Every token the lexer emits is either an `Invalid` marker or well
/// formed: a `Number` carries the non-empty run of digits and dots it was
/// scanned from.
pub proof fn lemma_lexer_tokens_well_formed(s: Seq<char>, i: int)
    requires
        0 <= i <= s.len(),
    ensures
        forall|m: int|
            0 <= m < spec_tokenize_from(s, i).len() ==> (#[trigger] spec_tokenize_from(s, i)[m])
                matches TokenV::Invalid(_) || well_formed_token(spec_tokenize_from(s, i)[m]),
    decreases s.len() - i,
{
    if i < s.len() {
        if is_space_char(s[i]) {
            lemma_lexer_tokens_well_formed(s, i + 1);
        } else if is_number_char(s[i]) {
            let e: int = number_run_end(s, i);
            assert(number_run_end(s, i) == number_run_end(s, i + 1));
            lemma_number_run_end_bounds(s, i + 1);
            lemma_number_run_props(s, i);
            let lex = s.subrange(i, e);
            assert(forall|k: int| 0 <= k < lex.len() ==> is_number_char(#[trigger] lex[k])) by {
                assert(forall|k: int| 0 <= k < e - i ==> #[trigger] lex[k] == s[i + k]);
            }
            assert(well_formed_token(TokenV::Number(lex)));
            lemma_lexer_tokens_well_formed(s, e);
        } else {
            lemma_lexer_tokens_well_formed(s, i + 1);
        }
    }
}

/// Law: a token stream the lexer produced round-trips through rendering,
/// provided it holds no `Invalid` marker: rejoining the renderings with
/// single spaces gives text that tokenizes to the identical stream.
pub proof fn lemma_tokenize_round_trip(s: Seq<char>)
    requires
        forall|m: int|
            0 <= m < spec_tokenize(s).len() ==> !((#[trigger] spec_tokenize(s)[m]) matches
                TokenV::Invalid(_)),
    ensures
        spec_tokenize(spec_render_join(spec_tokenize(s))) == spec_tokenize(s),
{
    lemma_lexer_tokens_well_formed(s, 0);
    lemma_render_join_round_trip(spec_tokenize(s));
}

/// The stack depth after running a postfix program from depth `d`: a push
/// deepens the stack, a negation rewrites its top, a binary operation pops
/// two operands and pushes the result. `None` means an operation found too
/// few operands.
pub open spec fn spec_run_depth(code: Seq<OpV>, d: nat) -> Option<nat>
    decreases code.len(),
{
    if code.len() == 0 {
        Some(d)
    } else {
        match code[0] {
            OpV::Push(_) => spec_run_depth(code.drop_first(), d + 1),
            OpV::Neg => if d >= 1 {
                spec_run_depth(code.drop_first(), d)
            } else {
                None
            },
            _ => if d >= 2 {
                spec_run_depth(code.drop_first(), (d - 1) as nat)
            } else {
                None
            },
        }
    }
}

/// Running a concatenation runs the first part, then the second from the
/// depth the first part reached.
pub proof fn lemma_run_depth_append(a: Seq<OpV>, b: Seq<OpV>, d: nat)
    ensures
        spec_run_depth(a + b, d) == match spec_run_depth(a, d) {
            Some(m) => spec_run_depth(b, m),
            None => None,
        },
    decreases a.len(),
{
    if a.len() == 0 {
        assert(a + b =~= b);
    } else {
        assert((a + b).drop_first() =~= a.drop_first() + b);
        assert((a + b)[0] == a[0]);
        match a[0] {
            OpV::Push(_) => lemma_run_depth_append(a.drop_first(), b, d + 1),
            OpV::Neg => {
                if d >= 1 {
                    lemma_run_depth_append(a.drop_first(), b, d);
                }
            },
            _ => {
                if d >= 2 {
                    lemma_run_depth_append(a.drop_first(), b, (d - 1) as nat);
                }
            },
        }
    }
}

/// The code of a factor leaves exactly one new value on the stack.
pub proof fn lemma_factor_runs(t: Seq<TokenV>, i: int, d: nat)
    ensures
        spec_factor(t, i) matches ParseStep::Done(code, j) ==> spec_run_depth(code, d) == Some(
            (d + 1) as nat,
        ),
    decreases t.len() - i, 0int,
{
    if 0 <= i < t.len() {
        match t[i] {
            TokenV::Number(lex) => {
                assert(seq![OpV::Push(lex)].drop_first() =~= Seq::<OpV>::empty());
                assert(spec_run_depth(Seq::<OpV>::empty(), (d + 1) as nat) == Some(
                    (d + 1) as nat,
                ));
                assert(spec_run_depth(seq![OpV::Push(lex)], d) == Some((d + 1) as nat));
            },
            TokenV::LeftParen => {
                lemma_expression_runs(t, i + 1, d);
            },
            TokenV::Plus => {
                lemma_factor_runs(t, i + 1, d);
            },
            TokenV::Minus => {
                lemma_factor_runs(t, i + 1, d);
                match spec_factor(t, i + 1) {
                    ParseStep::Done(code, _j) => {
                        lemma_run_depth_append(code, seq![OpV::Neg], d);
                        assert(seq![OpV::Neg].drop_first() =~= Seq::<OpV>::empty());
                        assert(spec_run_depth(Seq::<OpV>::empty(), (d + 1) as nat) == Some(
                            (d + 1) as nat,
                        ));
                        assert(spec_run_depth(seq![OpV::Neg], (d + 1) as nat) == Some(
                            (d + 1) as nat,
                        ));
                        assert(code.push(OpV::Neg) =~= code + seq![OpV::Neg]);
                    },
                    _ => {},
                }
            },
            _ => {},
        }
    }
}

/// The `term` continuation keeps the stack discipline of its accumulator.
pub proof fn lemma_term_rest_runs(t: Seq<TokenV>, i: int, acc: Seq<OpV>, d: nat)
    requires
        spec_run_depth(acc, d) == Some((d + 1) as nat),
    ensures
        spec_term_rest(t, i, acc) matches ParseStep::Done(code, j) ==> spec_run_depth(code, d)
            == Some((d + 1) as nat),
    decreases t.len() - i, 1int,
{
    if 0 <= i < t.len() && (t[i] is Star || t[i] is Slash) {
        let op = if t[i] is Star {
            OpV::Mul
        } else {
            OpV::Div
        };
        lemma_factor_runs(t, i + 1, (d + 1) as nat);
        match spec_factor(t, i + 1) {
            ParseStep::Done(code2, j) => {
                if i < j <= t.len() {
                    lemma_run_depth_append(acc, code2, d);
                    lemma_run_depth_append(acc + code2, seq![op], d);
                    assert(seq![op].drop_first() =~= Seq::<OpV>::empty());
                    assert(spec_run_depth(Seq::<OpV>::empty(), (d + 1) as nat) == Some(
                        (d + 1) as nat,
                    ));
                    assert(spec_run_depth(seq![op], (d + 2) as nat) == Some((d + 1) as nat));
                    assert(spec_run_depth(acc + code2 + seq![op], d) == Some((d + 1) as nat));
                    lemma_term_rest_runs(t, j, acc + code2 + seq![op], d);
                }
            },
            _ => {},
        }
    }
}

/// The code of a term leaves exactly one new value on the stack.
pub proof fn lemma_term_runs(t: Seq<TokenV>, i: int, d: nat)
    ensures
        spec_term(t, i) matches ParseStep::Done(code, j) ==> spec_run_depth(code, d) == Some(
            (d + 1) as nat,
        ),
    decreases t.len() - i, 2int,
{
    lemma_factor_runs(t, i, d);
    match spec_factor(t, i) {
        ParseStep::Done(code, j) => {
            if i <= j <= t.len() {
                lemma_term_rest_runs(t, j, code, d);
            }
        },
        _ => {},
    }
}

/// The `expression` continuation keeps the stack discipline of its
/// accumulator.
pub proof fn lemma_expr_rest_runs(t: Seq<TokenV>, i: int, acc: Seq<OpV>, d: nat)
    requires
        spec_run_depth(acc, d) == Some((d + 1) as nat),
    ensures
        spec_expr_rest(t, i, acc) matches ParseStep::Done(code, j) ==> spec_run_depth(code, d)
            == Some((d + 1) as nat),
    decreases t.len() - i, 3int,
{
    if 0 <= i < t.len() && (t[i] is Plus || t[i] is Minus) {
        let op = if t[i] is Plus {
            OpV::Add
        } else {
            OpV::Sub
        };
        lemma_term_runs(t, i + 1, (d + 1) as nat);
        match spec_term(t, i + 1) {
            ParseStep::Done(code2, j) => {
                if i < j <= t.len() {
                    lemma_run_depth_append(acc, code2, d);
                    lemma_run_depth_append(acc + code2, seq![op], d);
                    assert(seq![op].drop_first() =~= Seq::<OpV>::empty());
                    assert(spec_run_depth(Seq::<OpV>::empty(), (d + 1) as nat) == Some(
                        (d + 1) as nat,
                    ));
                    assert(spec_run_depth(seq![op], (d + 2) as nat) == Some((d + 1) as nat));
                    assert(spec_run_depth(acc + code2 + seq![op], d) == Some((d + 1) as nat));
                    lemma_expr_rest_runs(t, j, acc + code2 + seq![op], d);
                }
            },
            _ => {},
        }
    }
}

/// The code of an expression leaves exactly one new value on the stack.
pub proof fn lemma_expression_runs(t: Seq<TokenV>, i: int, d: nat)
    ensures
        spec_expression(t, i) matches ParseStep::Done(code, j) ==> spec_run_depth(code, d)
            == Some((d + 1) as nat),
    decreases t.len() - i, 4int,
{
    lemma_term_runs(t, i, d);
    match spec_term(t, i) {
        ParseStep::Done(code, j) => {
            if i <= j <= t.len() {
                lemma_expr_rest_runs(t, j, code, d);
            }
        },
        _ => {},
    }
}

/// Law: every program the parser emits is well-formed for a stack machine.
/// Run on an empty stack, each operation finds its operands and exactly
/// one value — the expression's — remains at the end.
pub proof fn lemma_parse_balanced(t: Seq<TokenV>)
    ensures
        spec_parse(t) matches Ok(code) ==> spec_run_depth(code, 0) == Some(1nat),
{
    lemma_expression_runs(t, 0, 0);
}

} // verus!
