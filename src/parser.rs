//! The parser: query text to statements. It works on the characters of the
//! text by position; each recogniser returns what it read and the position
//! after it, or `None` when the text does not start with what it reads.
use vstd::prelude::*;
use crate::ast::{
    opt_expr, column_model, select_model, datatype_model, constraint_model, column_def_model, SelectM, StatementM, DataTypeM, ConstraintM, ColumnM, ExprM, BinaryOp, Column, ColumnDef, Constraint, CreateCollectionStmt, CreateViewStmt, DataType,
    DeleteStmt, Expr, InsertStmt, Literal, OrderBy, OrderDirection, SelectStmt, SetClause,
    SpecialField, Statement, UnaryOp, UpdateStmt,
};
use crate::document::{Decimal, ValueModel, DECIMAL_ONE};
use crate::text::{all_digits, chars_of, digits_value, is_digit, parse_digits, push_char, string_of};
use crate::validation::{is_alnum, lower_ascii};

verus! {

/// Whitespace between tokens: space, tab, carriage return, line feed.
pub open spec fn is_ws(c: char) -> bool {
    c == ' ' || c == '\t' || c == '\r' || c == '\n'
}

/// A character of an identifier: ASCII letters and digits, `_` and `-`.
pub open spec fn is_word_char(c: char) -> bool {
    is_alnum(c) || c == '_' || c == '-'
}

/// `s[from..to]` holds only whitespace.
pub open spec fn all_ws(s: Seq<char>, from: int, to: int) -> bool {
    forall|i: int| from <= i < to ==> is_ws(#[trigger] s[i])
}

/// `s` holds keyword `kw` at `p`, letters compared without case.
pub open spec fn keyword_at(s: Seq<char>, p: int, kw: Seq<char>) -> bool {
    &&& 0 <= p
    &&& p + kw.len() <= s.len()
    &&& forall|i: int| 0 <= i < kw.len() ==> lower_ascii(#[trigger] s[p + i]) == lower_ascii(kw[i])
}

/// The end of the run of characters satisfying `f` that starts at `p`.
pub open spec fn run_end(s: Seq<char>, p: int, f: spec_fn(char) -> bool) -> int
    decreases s.len() - p,
{
    if 0 <= p < s.len() && f(s[p]) {
        run_end(s, p + 1, f)
    } else {
        p
    }
}

/// A run that every character between `p` and `r` satisfies, and that stops
/// at `r`, ends at `r`.
pub proof fn lemma_run_end(s: Seq<char>, p: int, r: int, f: spec_fn(char) -> bool)
    requires
        0 <= p <= r <= s.len(),
        forall|i: int| p <= i < r ==> f(#[trigger] s[i]),
        r == s.len() || !f(s[r]),
    ensures
        run_end(s, p, f) == r,
    decreases r - p,
{
    if p < r {
        lemma_run_end(s, p + 1, r, f);
    }
}

/// Where the whitespace starting at `p` ends.
pub open spec fn ws_end(s: Seq<char>, p: int) -> int {
    run_end(s, p, |c: char| is_ws(c))
}

/// A found position as an integer.
pub open spec fn pos_of(r: Option<usize>) -> Option<int> {
    match r {
        Some(p) => Some(p as int),
        None => None,
    }
}

/// `ws1`: at least one whitespace character.
pub open spec fn ws1_s(s: Seq<char>, p: int) -> Option<int> {
    if ws_end(s, p) > p { Some(ws_end(s, p)) } else { None }
}

/// Keyword `kw` at `p`.
pub open spec fn keyword_s(s: Seq<char>, p: int, kw: Seq<char>) -> Option<int> {
    if keyword_at(s, p, kw) { Some(p + kw.len()) } else { None }
}

/// The character `c` at `p`.
pub open spec fn symbol_s(s: Seq<char>, p: int, c: char) -> Option<int> {
    if 0 <= p < s.len() && s[p] == c { Some(p + 1) } else { None }
}

/// A list separator `c` with optional whitespace around it.
pub open spec fn sep_s(s: Seq<char>, p: int, c: char) -> Option<int> {
    match symbol_s(s, ws_end(s, p), c) {
        Some(q) => Some(ws_end(s, q)),
        None => None,
    }
}

/// An identifier at `p`: its text and end.
pub open spec fn ident_s(s: Seq<char>, p: int) -> Option<(Seq<char>, int)> {
    let e = run_end(s, p, |c: char| is_word_char(c));
    if e > p { Some((s.subrange(p, e), e)) } else { None }
}

/// The end of a run of digits at `p`, if there is at least one.
pub open spec fn digits_s(s: Seq<char>, p: int) -> Option<int> {
    let e = run_end(s, p, |c: char| is_digit(c));
    if e > p { Some(e) } else { None }
}

fn is_ws_exec(c: char) -> (r: bool)
    ensures
        r == is_ws(c),
{
    c == ' ' || c == '\t' || c == '\r' || c == '\n'
}

fn is_word_char_exec(c: char) -> (r: bool)
    ensures
        r == is_word_char(c),
{
    ('a' <= c && c <= 'z') || ('A' <= c && c <= 'Z') || ('0' <= c && c <= '9') || c == '_' || c == '-'
}

fn lower_exec(c: char) -> (r: char)
    ensures
        r == lower_ascii(c),
{
    if 'A' <= c && c <= 'Z' {
        ((c as u8) + 32) as char
    } else {
        c
    }
}

/// Skips whitespace (zero or more characters).
pub fn ws0(s: &Vec<char>, pos: usize) -> (r: usize)
    requires
        pos <= s@.len(),
    ensures
        pos <= r <= s@.len(),
        all_ws(s@, pos as int, r as int),
        r == s@.len() || !is_ws(s@[r as int]),
        r == ws_end(s@, pos as int),
{
    let mut p = pos;
    while p < s.len() && is_ws_exec(s[p])
        invariant
            pos <= p <= s@.len(),
            all_ws(s@, pos as int, p as int),
        decreases s@.len() - p,
    {
        p = p + 1;
    }
    proof {
        lemma_run_end(s@, pos as int, p as int, |c: char| is_ws(c));
    }
    p
}

/// Skips at least one whitespace character.
pub fn ws1(s: &Vec<char>, pos: usize) -> (r: Option<usize>)
    requires
        pos <= s@.len(),
    ensures
        match r {
            Some(p) => pos < p <= s@.len() && all_ws(s@, pos as int, p as int) && (p == s@.len() || !is_ws(s@[p as int])),
            None => pos == s@.len() || !is_ws(s@[pos as int]),
        },
        pos_of(r) == ws1_s(s@, pos as int),
{
    let p = ws0(s, pos);
    if p == pos {
        None
    } else {
        Some(p)
    }
}

/// Reads keyword `kw` (without case) at `pos`.
pub fn keyword(s: &Vec<char>, pos: usize, kw: &str) -> (r: Option<usize>)
    requires
        pos <= s@.len(),
    ensures
        match r {
            Some(p) => p == pos + kw@.len() && keyword_at(s@, pos as int, kw@),
            None => !keyword_at(s@, pos as int, kw@),
        },
        pos_of(r) == keyword_s(s@, pos as int, kw@),
{
    let k = chars_of(kw);
    let n = s.len();
    if k.len() > n - pos {
        return None;
    }
    let mut i: usize = 0;
    while i < k.len()
        invariant
            k@ == kw@,
            n == s@.len(),
            pos + k@.len() <= s@.len(),
            i <= k@.len(),
            forall|j: int| 0 <= j < i ==> lower_ascii(#[trigger] s@[pos + j]) == lower_ascii(k@[j]),
        decreases k@.len() - i,
    {
        if lower_exec(s[pos + i]) != lower_exec(k[i]) {
            assert(lower_ascii(s@[pos + i]) != lower_ascii(kw@[i as int]));
            return None;
        }
        i = i + 1;
    }
    Some(pos + k.len())
}

/// Reads the single character `c` at `pos`.
pub fn symbol(s: &Vec<char>, pos: usize, c: char) -> (r: Option<usize>)
    requires
        pos <= s@.len(),
    ensures
        match r {
            Some(p) => p == pos + 1 && pos < s@.len() && s@[pos as int] == c,
            None => pos == s@.len() || s@[pos as int] != c,
        },
        pos_of(r) == symbol_s(s@, pos as int, c),
{
    if pos < s.len() && s[pos] == c {
        Some(pos + 1)
    } else {
        None
    }
}

/// Reads `ws0 c ws0`: the separator of lists.
pub fn separator(s: &Vec<char>, pos: usize, c: char) -> (r: Option<usize>)
    requires
        pos <= s@.len(),
    ensures
        match r {
            Some(p) => pos < p <= s@.len(),
            None => true,
        },
        pos_of(r) == sep_s(s@, pos as int, c),
{
    let p = ws0(s, pos);
    match symbol(s, p, c) {
        Some(q) => Some(ws0(s, q)),
        None => None,
    }
}

/// The end of the identifier that starts at `pos`: the longest run of word
/// characters.
pub open spec fn word_end(s: Seq<char>, pos: int, e: int) -> bool {
    &&& pos <= e <= s.len()
    &&& forall|i: int| pos <= i < e ==> is_word_char(#[trigger] s[i])
    &&& (e == s.len() || !is_word_char(s[e]))
}

/// `w` is a non-empty run of word characters.
pub open spec fn is_word(w: Seq<char>) -> bool {
    w.len() > 0 && forall|i: int| 0 <= i < w.len() ==> is_word_char(#[trigger] w[i])
}

/// Reads an identifier: one or more of `A-Z a-z 0-9 _ -`.
pub fn identifier(s: &Vec<char>, pos: usize) -> (r: Option<(String, usize)>)
    requires
        pos <= s@.len(),
    ensures
        match r {
            Some((name, p)) => pos < p && word_end(s@, pos as int, p as int) && name@ == s@.subrange(pos as int, p as int)
                && is_word(name@),
            None => word_end(s@, pos as int, pos as int),
        },
        match r {
            Some((name, p)) => ident_s(s@, pos as int) == Some((name@, p as int)),
            None => ident_s(s@, pos as int) is None,
        },
{
    let mut p = pos;
    while p < s.len() && is_word_char_exec(s[p])
        invariant
            pos <= p <= s@.len(),
            forall|i: int| pos <= i < p ==> is_word_char(#[trigger] s@[i]),
        decreases s@.len() - p,
    {
        p = p + 1;
    }
    proof {
        lemma_run_end(s@, pos as int, p as int, |c: char| is_word_char(c));
    }
    if p == pos {
        None
    } else {
        let name = string_of(s, pos, p);
        assert forall|i: int| 0 <= i < name@.len() implies is_word_char(#[trigger] name@[i]) by {
            assert(name@[i] == s@[pos + i]);
        }
        Some((name, p))
    }
}

/// Reads one or more ASCII digits; gives the position after them.
pub fn digits(s: &Vec<char>, pos: usize) -> (r: Option<usize>)
    requires
        pos <= s@.len(),
    ensures
        match r {
            Some(p) => pos < p <= s@.len() && all_digits(s@.subrange(pos as int, p as int)) && (p == s@.len()
                || !is_digit(s@[p as int])),
            None => pos == s@.len() || !is_digit(s@[pos as int]),
        },
        pos_of(r) == digits_s(s@, pos as int),
{
    let mut p = pos;
    while p < s.len() && '0' <= s[p] && s[p] <= '9'
        invariant
            pos <= p <= s@.len(),
            forall|i: int| pos <= i < p ==> is_digit(#[trigger] s@[i]),
        decreases s@.len() - p,
    {
        p = p + 1;
    }
    proof {
        lemma_run_end(s@, pos as int, p as int, |c: char| is_digit(c));
    }
    if p == pos {
        None
    } else {
        assert(all_digits(s@.subrange(pos as int, p as int))) by {
            assert forall|i: int| 0 <= i < p - pos implies is_digit(#[trigger] s@.subrange(pos as int, p as int)[i]) by {
                assert(s@.subrange(pos as int, p as int)[i] == s@[pos + i]);
            }
        }
        Some(p)
    }
}

/// The value of a run of digits read as an unsigned count: the number when
/// it fits in `usize`, else 0.
pub open spec fn count_value(d: Seq<char>) -> int {
    if digits_value(d) <= usize::MAX { digits_value(d) } else { 0 }
}

/// Reads a `LIMIT`/`OFFSET` count.
pub fn count_literal(s: &Vec<char>, pos: usize) -> (r: Option<(usize, usize)>)
    requires
        pos <= s@.len(),
    ensures
        match r {
            Some((n, p)) => pos < p <= s@.len() && all_digits(s@.subrange(pos as int, p as int)) && (p == s@.len()
                || !is_digit(s@[p as int])) && n as int == count_value(s@.subrange(pos as int, p as int)),
            None => pos == s@.len() || !is_digit(s@[pos as int]),
        },
        match r {
            Some((n, p)) => count_s(s@, pos as int) == Some((n as int, p as int)),
            None => count_s(s@, pos as int) is None,
        },
{
    match digits(s, pos) {
        Some(p) => {
            let n = match parse_digits(s, pos, p, usize::MAX as u64) {
                Some(v) => v as usize,
                None => 0,
            };
            Some((n, p))
        },
        None => None,
    }
}

} // verus!

verus! {

/// Decodes the body of a single-quoted string starting at `p` (after the
/// opening quote): `''` stands for one quote, the first lone quote ends it.
/// Gives the text and the position after the closing quote.
pub open spec fn single_quoted(s: Seq<char>, p: int) -> Option<(Seq<char>, int)>
    decreases s.len() - p,
{
    if p < 0 || p >= s.len() {
        None
    } else if s[p] == '\'' {
        if p + 1 < s.len() && s[p + 1] == '\'' {
            match single_quoted(s, p + 2) {
                Some((t, e)) => Some((seq!['\''] + t, e)),
                None => None,
            }
        } else {
            Some((Seq::empty(), p + 1))
        }
    } else {
        match single_quoted(s, p + 1) {
            Some((t, e)) => Some((seq![s[p]] + t, e)),
            None => None,
        }
    }
}

/// The character a backslash escape stands for in a double-quoted string.
pub open spec fn escaped(c: char) -> Option<char> {
    if c == '"' {
        Some('"')
    } else if c == 'n' {
        Some('\n')
    } else if c == 't' {
        Some('\t')
    } else if c == '\\' {
        Some('\\')
    } else {
        None
    }
}

/// Decodes the body of a double-quoted string starting at `p`: `\"`, `\n`,
/// `\t` and `\\` are the only escapes; any other backslash makes it fail.
pub open spec fn double_quoted(s: Seq<char>, p: int) -> Option<(Seq<char>, int)>
    decreases s.len() - p,
{
    if p < 0 || p >= s.len() {
        None
    } else if s[p] == '"' {
        Some((Seq::empty(), p + 1))
    } else if s[p] == '\\' {
        if p + 1 < s.len() && escaped(s[p + 1]) is Some {
            match double_quoted(s, p + 2) {
                Some((t, e)) => Some((seq![escaped(s[p + 1])->Some_0] + t, e)),
                None => None,
            }
        } else {
            None
        }
    } else {
        match double_quoted(s, p + 1) {
            Some((t, e)) => Some((seq![s[p]] + t, e)),
            None => None,
        }
    }
}

/// The string literal at `p`, single- or double-quoted.
pub open spec fn string_at(s: Seq<char>, p: int) -> Option<(Seq<char>, int)> {
    if 0 <= p < s.len() && s[p] == '\'' {
        single_quoted(s, p + 1)
    } else if 0 <= p < s.len() && s[p] == '"' {
        double_quoted(s, p + 1)
    } else {
        None
    }
}

fn escaped_exec(c: char) -> (r: Option<char>)
    ensures
        r == escaped(c),
{
    if c == '"' {
        Some('"')
    } else if c == 'n' {
        Some('\n')
    } else if c == 't' {
        Some('\t')
    } else if c == '\\' {
        Some('\\')
    } else {
        None
    }
}

/// Reads a string literal.
pub fn string_literal(s: &Vec<char>, pos: usize) -> (r: Option<(String, usize)>)
    requires
        pos <= s@.len(),
    ensures
        match r {
            Some((t, p)) => string_at(s@, pos as int) == Some((t@, p as int)) && pos < p <= s@.len(),
            None => string_at(s@, pos as int).is_none(),
        },
{
    if pos >= s.len() {
        return None;
    }
    let q = s[pos];
    if q != '\'' && q != '"' {
        return None;
    }
    let single = q == '\'';
    let mut acc = String::new();
    let mut p = pos + 1;
    let ghost spec_of = |s: Seq<char>, p: int| if single { single_quoted(s, p) } else { double_quoted(s, p) };
    while p < s.len()
        invariant
            pos < p <= s@.len(),
            single == (s@[pos as int] == '\''),
            !single ==> s@[pos as int] == '"',
            spec_of == (|s: Seq<char>, p: int| if single { single_quoted(s, p) } else { double_quoted(s, p) }),
            spec_of(s@, pos + 1) == match spec_of(s@, p as int) {
                Some((t, e)) => Some((acc@ + t, e)),
                None => None::<(Seq<char>, int)>,
            },
        decreases s@.len() - p,
    {
        let c = s[p];
        if single {
            if c == '\'' {
                if p + 1 < s.len() && s[p + 1] == '\'' {
                    proof {
                        match single_quoted(s@, p + 2) {
                            Some((t, e)) => { assert(acc@ + (seq!['\''] + t) =~= (acc@ + seq!['\'']) + t); },
                            None => {},
                        }
                    }
                    push_char(&mut acc, '\'');
                    p = p + 2;
                } else {
                    assert(acc@ + Seq::<char>::empty() =~= acc@);
                    return Some((acc, p + 1));
                }
            } else {
                proof {
                    match single_quoted(s@, p + 1) {
                        Some((t, e)) => { assert(acc@ + (seq![c] + t) =~= (acc@ + seq![c]) + t); },
                        None => {},
                    }
                }
                push_char(&mut acc, c);
                p = p + 1;
            }
        } else {
            if c == '"' {
                assert(acc@ + Seq::<char>::empty() =~= acc@);
                return Some((acc, p + 1));
            } else if c == '\\' {
                if p + 1 < s.len() {
                    match escaped_exec(s[p + 1]) {
                        Some(e) => {
                            proof {
                                match double_quoted(s@, p + 2) {
                                    Some((t, x)) => { assert(acc@ + (seq![e] + t) =~= (acc@ + seq![e]) + t); },
                                    None => {},
                                }
                            }
                            push_char(&mut acc, e);
                            p = p + 2;
                        },
                        None => {
                            return None;
                        },
                    }
                } else {
                    return None;
                }
            } else {
                proof {
                    match double_quoted(s@, p + 1) {
                        Some((t, e)) => { assert(acc@ + (seq![c] + t) =~= (acc@ + seq![c]) + t); },
                        None => {},
                    }
                }
                push_char(&mut acc, c);
                p = p + 1;
            }
        }
    }
    None
}

/// The value of the digits of an integer literal: the number when it fits in
/// `i64`, else 0.
pub open spec fn int_value(d: Seq<char>) -> int {
    if digits_value(d) <= i64::MAX { digits_value(d) } else { 0 }
}

/// Reads an integer literal: an optional `-`, then digits.
pub fn integer_literal(s: &Vec<char>, pos: usize) -> (r: Option<(i64, usize)>)
    requires
        pos <= s@.len(),
    ensures
        match r {
            Some((v, p)) => int_s(s@, pos as int) == Some((v as int, p as int)),
            None => int_s(s@, pos as int) is None,
        },
        match r {
            Some((v, p)) => pos < p <= s@.len() && {
                let neg = s@[pos as int] == '-';
                let start = if neg { pos + 1 } else { pos as int };
                &&& start < p
                &&& all_digits(s@.subrange(start, p as int))
                &&& (p == s@.len() || !is_digit(s@[p as int]))
                &&& v as int == if neg { -int_value(s@.subrange(start, p as int)) } else { int_value(s@.subrange(start, p as int)) }
            },
            None => true,
        },
{
    let neg = pos < s.len() && s[pos] == '-';
    let start = if neg { pos + 1 } else { pos };
    match digits(s, start) {
        Some(p) => {
            let v: i64 = match parse_digits(s, start, p, 9223372036854775807) {
                Some(v) => v as i64,
                None => 0,
            };
            Some((if neg { -v } else { v }, p))
        },
        None => None,
    }
}

/// The units of a fractional part: its first 18 digits, scaled to 10^-18.
pub open spec fn frac_units(f: Seq<char>) -> int {
    let k = if f.len() < 18 { f.len() } else { 18 };
    digits_value(f.subrange(0, k as int)) * crate::document::pow10((18 - k) as nat)
}

/// The units of a decimal literal with whole digits `w` and fractional digits
/// `f`: 0 when the whole part exceeds `u64::MAX`.
pub open spec fn decimal_units(w: Seq<char>, f: Seq<char>) -> int {
    if digits_value(w) <= u64::MAX { digits_value(w) * DECIMAL_ONE + frac_units(f) } else { 0 }
}

/// A run of `n` digits is below `10^n`.
pub proof fn lemma_digits_bound(d: Seq<char>)
    requires
        all_digits(d),
    ensures
        0 <= digits_value(d) < crate::document::pow10(d.len()),
    decreases d.len(),
{
    if d.len() > 0 {
        assert(all_digits(d.drop_last())) by {
            assert forall|i: int| 0 <= i < d.drop_last().len() implies is_digit(#[trigger] d.drop_last()[i]) by {
                assert(d.drop_last()[i] == d[i]);
            }
        }
        lemma_digits_bound(d.drop_last());
        assert(is_digit(d[d.len() - 1]));
        let a = digits_value(d.drop_last());
        let b = crate::document::pow10(d.drop_last().len());
        assert(a * 10 + 9 < b * 10) by (nonlinear_arith) requires a < b;
    }
}

/// `s[pos..p]` is a decimal literal with its point at `a` and value `units`.
pub open spec fn float_at(s: Seq<char>, pos: int, a: int, p: int, units: int) -> bool {
    let neg = s[pos] == '-';
    let start = if neg { pos + 1 } else { pos };
    &&& start < a && a + 1 < p
    &&& s[a] == '.'
    &&& all_digits(s.subrange(start, a))
    &&& all_digits(s.subrange(a + 1, p))
    &&& (p == s.len() || !is_digit(s[p]))
    &&& units == if neg { -decimal_units(s.subrange(start, a), s.subrange(a + 1, p)) } else {
        decimal_units(s.subrange(start, a), s.subrange(a + 1, p))
    }
}

/// `s[pos..p]` is a decimal literal of value `units`.
pub open spec fn float_parsed(s: Seq<char>, pos: int, p: int, units: int) -> bool {
    exists|a: int| float_at(s, pos, a, p, units)
}

/// Reads a decimal literal: an optional `-`, digits, `.`, digits.
pub fn float_literal(s: &Vec<char>, pos: usize) -> (r: Option<(Decimal, usize)>)
    requires
        pos <= s@.len(),
    ensures
        match r {
            Some((d, p)) => float_s(s@, pos as int) == Some((d.units as int, p as int)),
            None => float_s(s@, pos as int) is None,
        },
        match r {
            Some((d, p)) => pos < p <= s@.len() && float_parsed(s@, pos as int, p as int, d.units as int),
            None => true,
        },
{
    let neg = pos < s.len() && s[pos] == '-';
    let start = if neg { pos + 1 } else { pos };
    let a = match digits(s, start) {
        Some(a) => a,
        None => return None,
    };
    let dot = match symbol(s, a, '.') {
        Some(d) => d,
        None => return None,
    };
    let b = match digits(s, dot) {
        Some(b) => b,
        None => return None,
    };
    let k = if b - dot < 18 { b - dot } else { 18 };
    let ghost f = s@.subrange(dot as int, b as int);
    assert(s@.subrange(dot as int, dot + k) =~= f.subrange(0, k as int));
    assert(all_digits(f.subrange(0, k as int))) by {
        assert forall|i: int| 0 <= i < k implies is_digit(#[trigger] f.subrange(0, k as int)[i]) by {
            assert(f.subrange(0, k as int)[i] == f[i]);
        }
    }
    proof {
        lemma_digits_bound(f.subrange(0, k as int));
        lemma_pow10_mono(k as nat, 18);
        lemma_pow10_18();
    }
    let fv = match parse_digits(s, dot, dot + k, 1_000_000_000_000_000_000) {
        Some(v) => v,
        None => 0,
    };
    let mut scaled: u128 = fv as u128;
    let mut j: usize = k;
    assert(crate::document::pow10(0) == 1);
    while j < 18
        invariant
            k <= j <= 18,
            k <= f.len(),
            fv as int == digits_value(f.subrange(0, k as int)),
            fv < crate::document::pow10(k as nat),
            scaled as int == fv * crate::document::pow10((j - k) as nat),
            crate::document::pow10(18) == 1_000_000_000_000_000_000,
        decreases 18 - j,
    {
        proof {
            lemma_pow10_add(k as nat, (j - k) as nat);
            lemma_pow10_mono(j as nat, 18);
            lemma_pow10_pos((j - k) as nat);
            assert(crate::document::pow10((j + 1 - k) as nat) == 10 * crate::document::pow10((j - k) as nat));
            assert(scaled < crate::document::pow10(j as nat)) by (nonlinear_arith)
                requires
                    scaled as int == fv * crate::document::pow10((j - k) as nat),
                    fv < crate::document::pow10(k as nat),
                    crate::document::pow10(j as nat) == crate::document::pow10(k as nat) * crate::document::pow10((j - k) as nat),
                    crate::document::pow10((j - k) as nat) >= 1;
        }
        let ghost before = scaled as int;
        scaled = scaled * 10;
        proof {
            let pp = crate::document::pow10((j - k) as nat);
            assert(scaled as int == fv * crate::document::pow10((j + 1 - k) as nat)) by (nonlinear_arith)
                requires
                    scaled as int == before * 10,
                    before == fv * pp,
                    crate::document::pow10((j + 1 - k) as nat) == 10 * pp;
        }
        j = j + 1;
    }
    proof {
        lemma_pow10_add(k as nat, (18 - k) as nat);
        lemma_pow10_pos((18 - k) as nat);
        assert(scaled < 1_000_000_000_000_000_000) by (nonlinear_arith)
            requires
                scaled as int == fv * crate::document::pow10((18 - k) as nat),
                fv < crate::document::pow10(k as nat),
                1_000_000_000_000_000_000 == crate::document::pow10(k as nat) * crate::document::pow10((18 - k) as nat),
                crate::document::pow10((18 - k) as nat) >= 1;
    }
    let w = parse_digits(s, start, a, u64::MAX);
    let units: i128 = match w {
        Some(wv) => (wv as i128) * DECIMAL_ONE + (scaled as i128),
        None => 0,
    };
    let d = Decimal { units: if neg { -units } else { units } };
    assert(float_at(s@, pos as int, a as int, b as int, d.units as int));
    assert(float_parsed(s@, pos as int, b as int, d.units as int));
    Some((d, b))
}

proof fn lemma_pow10_18()
    ensures
        crate::document::pow10(18) == 1_000_000_000_000_000_000,
{
    reveal_with_fuel(crate::document::pow10, 19);
}

proof fn lemma_pow10_add(a: nat, b: nat)
    ensures
        crate::document::pow10(a + b) == crate::document::pow10(a) * crate::document::pow10(b),
    decreases a,
{
    if a > 0 {
        lemma_pow10_add((a - 1) as nat, b);
        assert(crate::document::pow10(a + b) == 10 * crate::document::pow10((a - 1 + b) as nat));
        assert(crate::document::pow10(a) == 10 * crate::document::pow10((a - 1) as nat));
        assert(10 * (crate::document::pow10((a - 1) as nat) * crate::document::pow10(b)) == (10 * crate::document::pow10((a - 1) as nat)) * crate::document::pow10(b)) by (nonlinear_arith);
    }
}

proof fn lemma_pow10_mono(a: nat, b: nat)
    requires
        a <= b,
    ensures
        1 <= crate::document::pow10(a) <= crate::document::pow10(b),
    decreases b,
{
    if b > a {
        lemma_pow10_mono(a, (b - 1) as nat);
    } else {
        lemma_pow10_pos(a);
    }
}

proof fn lemma_pow10_pos(a: nat)
    ensures
        1 <= crate::document::pow10(a),
    decreases a,
{
    if a > 0 {
        lemma_pow10_pos((a - 1) as nat);
    }
}

} // verus!

verus! {

/// A `LIMIT`/`OFFSET` count at `p`.
pub open spec fn count_s(s: Seq<char>, p: int) -> Option<(int, int)> {
    match digits_s(s, p) {
        Some(e) => Some((count_value(s.subrange(p, e)), e)),
        None => None,
    }
}

/// Where the digits of a number start: after a leading `-`, if any.
pub open spec fn num_start(s: Seq<char>, p: int) -> int {
    if 0 <= p < s.len() && s[p] == '-' { p + 1 } else { p }
}

/// An integer literal at `p`: its value and end.
pub open spec fn int_s(s: Seq<char>, p: int) -> Option<(int, int)> {
    let st = num_start(s, p);
    match digits_s(s, st) {
        Some(e) => Some((if st > p { -int_value(s.subrange(st, e)) } else { int_value(s.subrange(st, e)) }, e)),
        None => None,
    }
}

/// A decimal literal at `p`: its units and end.
pub open spec fn float_s(s: Seq<char>, p: int) -> Option<(int, int)> {
    let st = num_start(s, p);
    match digits_s(s, st) {
        Some(a) => match symbol_s(s, a, '.') {
            Some(d) => match digits_s(s, d) {
                Some(b) => Some((
                    if st > p {
                        -decimal_units(s.subrange(st, a), s.subrange(d, b))
                    } else {
                        decimal_units(s.subrange(st, a), s.subrange(d, b))
                    },
                    b,
                )),
                None => None,
            },
            None => None,
        },
        None => None,
    }
}

/// A literal at `p`: `NULL`, `true`, `false`, a string, a decimal, an
/// integer or an array, in that order.
pub open spec fn literal_s(s: Seq<char>, p: int) -> Option<(ValueModel, int)>
    decreases s.len() - p, 2int,
{
    if keyword_s(s, p, "NULL"@) is Some {
        Some((ValueModel::Null, keyword_s(s, p, "NULL"@)->Some_0))
    } else if keyword_s(s, p, "true"@) is Some {
        Some((ValueModel::Bool(true), keyword_s(s, p, "true"@)->Some_0))
    } else if keyword_s(s, p, "false"@) is Some {
        Some((ValueModel::Bool(false), keyword_s(s, p, "false"@)->Some_0))
    } else if 0 <= p < s.len() && (s[p] == '\'' || s[p] == '"') {
        match string_at(s, p) {
            Some((t, e)) => Some((ValueModel::String(t), e)),
            None => None,
        }
    } else if float_s(s, p) is Some {
        Some((ValueModel::Float(float_s(s, p)->Some_0.0), float_s(s, p)->Some_0.1))
    } else if int_s(s, p) is Some {
        Some((ValueModel::Int(int_s(s, p)->Some_0.0 as i64), int_s(s, p)->Some_0.1))
    } else {
        match array_s(s, p) {
            Some((items, e)) => Some((ValueModel::Array(items), e)),
            None => None,
        }
    }
}

/// `[literal, ...]` at `p`.
pub open spec fn array_s(s: Seq<char>, p: int) -> Option<(Seq<ValueModel>, int)>
    decreases s.len() - p, 1int,
{
    match symbol_s(s, p, '[') {
        None => None,
        Some(q) => match literal_s(s, q) {
            Some((l, e)) => if e <= q || e > s.len() {
                None
            } else {
                let rest = lit_tail(s, e);
                match symbol_s(s, rest.1, ']') {
                    Some(g) => Some((seq![l] + rest.0, g)),
                    None => None,
                }
            },
            None => match symbol_s(s, q, ']') {
                Some(g) => Some((Seq::empty(), g)),
                None => None,
            },
        },
    }
}

/// The literals that follow the first of a list at `p`, each after a comma,
/// and where they end.
pub open spec fn lit_tail(s: Seq<char>, p: int) -> (Seq<ValueModel>, int)
    decreases s.len() - p, 0int,
{
    match sep_s(s, p, ',') {
        Some(q) => if q <= p || q > s.len() {
            (Seq::empty(), p)
        } else {
            match literal_s(s, q) {
                Some((l, e)) => if e <= q || e > s.len() {
                    (Seq::empty(), p)
                } else {
                    let rest = lit_tail(s, e);
                    (seq![l] + rest.0, rest.1)
                },
                None => (Seq::empty(), p),
            }
        },
        None => (Seq::empty(), p),
    }
}

/// The models of a list of literals.
pub open spec fn lits_model(v: Seq<Literal>) -> Seq<ValueModel> {
    Seq::new(v.len(), |i: int| v[i]@)
}

/// Reads a literal: `NULL`, `true`, `false` (any case), a decimal, an
/// integer, a string or an array, tried in that order.
pub fn literal(s: &Vec<char>, pos: usize) -> (r: Option<(Literal, usize)>)
    requires
        pos <= s@.len(),
    ensures
        match r {
            Some((l, p)) => literal_s(s@, pos as int) == Some((l@, p as int)),
            None => literal_s(s@, pos as int) is None,
        },
        match r {
            Some((_, p)) => pos < p <= s@.len(),
            None => true,
        },
        keyword_at(s@, pos as int, "NULL"@) ==> (r matches Some((l, p)) && l is Null && p == pos + 4),
        !keyword_at(s@, pos as int, "NULL"@) && keyword_at(s@, pos as int, "true"@) ==> (r matches Some((l, p))
            && l == Literal::Bool(true) && p == pos + 4),
        string_at(s@, pos as int) is Some ==> (r matches Some((l, p)) && l is String
            && string_at(s@, pos as int) == Some((l->String_0@, p as int))),
    decreases s@.len() - pos, 2int,
{
    if let Some(p) = keyword(s, pos, "NULL") {
        proof {
            reveal_strlit("NULL");
            assert(lower_ascii(s@[pos + 0]) == lower_ascii("NULL"@[0]));
        }
        return Some((Literal::Null, p));
    }
    if let Some(p) = keyword(s, pos, "true") {
        proof {
            reveal_strlit("true");
            assert(lower_ascii(s@[pos + 0]) == lower_ascii("true"@[0]));
        }
        return Some((Literal::Bool(true), p));
    }
    if let Some(p) = keyword(s, pos, "false") {
        proof {
            reveal_strlit("false");
            assert(lower_ascii(s@[pos + 0]) == lower_ascii("false"@[0]));
        }
        return Some((Literal::Bool(false), p));
    }
    if pos < s.len() && (s[pos] == '\'' || s[pos] == '"') {
        proof {
            reveal_strlit("NULL");
            reveal_strlit("true");
            reveal_strlit("false");
        }
        return match string_literal(s, pos) {
            Some((t, p)) => Some((Literal::String(t), p)),
            None => None,
        };
    }
    if let Some((d, p)) = float_literal(s, pos) {
        return Some((Literal::Float(d), p));
    }
    if let Some((v, p)) = integer_literal(s, pos) {
        return Some((Literal::Int(v), p));
    }
    if let Some((t, p)) = string_literal(s, pos) {
        return Some((Literal::String(t), p));
    }
    match array_literal(s, pos) {
        Some((items, p)) => {
            let l = Literal::Array(items);
            assert(l@->Array_0 =~= lits_model(l->Array_0@));
            Some((l, p))
        },
        None => None,
    }
}

/// Reads `[literal, ...]` (possibly empty).
pub fn array_literal(s: &Vec<char>, pos: usize) -> (r: Option<(Vec<Literal>, usize)>)
    requires
        pos <= s@.len(),
    ensures
        match r {
            Some((_, p)) => pos < p <= s@.len(),
            None => true,
        },
        match r {
            Some((items, p)) => array_s(s@, pos as int) == Some((lits_model(items@), p as int)),
            None => array_s(s@, pos as int) is None,
        },
    decreases s@.len() - pos, 1int,
{
    let mut p = match symbol(s, pos, '[') {
        Some(p) => p,
        None => return None,
    };
    let ghost q0 = p as int;
    let mut items: Vec<Literal> = Vec::new();
    match literal(s, p) {
        Some((l, q)) => {
            let ghost first_m = l@;
            items.push(l);
            p = q;
            let ghost e0 = q as int;
            assert(lits_model(items@).drop_first() =~= Seq::<ValueModel>::empty());
            loop
                invariant
                    pos < p <= s@.len(),
                    items@.len() >= 1,
                    lits_model(items@)[0] == first_m,
                    literal_s(s@, q0) == Some((first_m, e0)),
                    symbol_s(s@, pos as int, '[') == Some(q0),
                    q0 < e0 <= s@.len(),
                    lit_tail(s@, e0).0 == lits_model(items@).drop_first() + lit_tail(s@, p as int).0,
                    lit_tail(s@, e0).1 == lit_tail(s@, p as int).1,
                ensures
                    lit_tail(s@, p as int) == (Seq::<ValueModel>::empty(), p as int),
                    lit_tail(s@, e0).0 == lits_model(items@).drop_first(),
                    lit_tail(s@, e0).1 == p,
                    items@.len() >= 1,
                    pos < p <= s@.len(),
                    lits_model(items@)[0] == first_m,
                    literal_s(s@, q0) == Some((first_m, e0)),
                    symbol_s(s@, pos as int, '[') == Some(q0),
                    q0 < e0 <= s@.len(),
                decreases s@.len() - p,
            {
                let q = match separator(s, p, ',') {
                    Some(q) => q,
                    None => break,
                };
                match literal(s, q) {
                    Some((l, e)) => {
                        let ghost before = lits_model(items@);
                        items.push(l);
                        assert(lits_model(items@) =~= before.push(l@));
                        assert(lits_model(items@)[0] == before[0]);
                        assert(lits_model(items@).drop_first() =~= before.drop_first() + seq![l@]);
                        p = e;
                    },
                    None => break,
                }
            }
            assert(lits_model(items@) =~= seq![lits_model(items@)[0]] + lits_model(items@).drop_first());
            assert(array_s(s@, pos as int) == match symbol_s(s@, p as int, ']') {
                Some(g) => Some((lits_model(items@), g)),
                None => None::<(Seq<ValueModel>, int)>,
            });
        },
        None => {
            assert(lits_model(items@) =~= Seq::<ValueModel>::empty());
            assert(array_s(s@, pos as int) == match symbol_s(s@, p as int, ']') {
                Some(g) => Some((lits_model(items@), g)),
                None => None::<(Seq<ValueModel>, int)>,
            });
        },
    }
    match symbol(s, p, ']') {
        Some(e) => Some((items, e)),
        None => None,
    }
}

} // verus!

verus! {

/// A parsed expression and where it ends.
pub open spec fn expr_res(r: Option<(Expr, usize)>) -> Option<(ExprM, int)> {
    match r {
        Some((e, p)) => Some((e@, p as int)),
        None => None,
    }
}

/// `@id`, `@body`, `@path`, `@modified` or `@created` at `p`.
pub open spec fn special_s(s: Seq<char>, p: int) -> Option<(SpecialField, int)> {
    match symbol_s(s, p, '@') {
        None => None,
        Some(q) => if keyword_s(s, q, "id"@) is Some {
            Some((SpecialField::Id, keyword_s(s, q, "id"@)->Some_0))
        } else if keyword_s(s, q, "body"@) is Some {
            Some((SpecialField::Body, keyword_s(s, q, "body"@)->Some_0))
        } else if keyword_s(s, q, "path"@) is Some {
            Some((SpecialField::Path, keyword_s(s, q, "path"@)->Some_0))
        } else if keyword_s(s, q, "modified"@) is Some {
            Some((SpecialField::Modified, keyword_s(s, q, "modified"@)->Some_0))
        } else if keyword_s(s, q, "created"@) is Some {
            Some((SpecialField::Created, keyword_s(s, q, "created"@)->Some_0))
        } else {
            None
        },
    }
}

/// `NOT ` at `p`: whether it is there, and where what follows starts.
pub open spec fn not_s(s: Seq<char>, p: int) -> (bool, int) {
    match keyword_s(s, p, "NOT"@) {
        Some(q) => match ws1_s(s, q) {
            Some(r) => (true, r),
            None => (false, p),
        },
        None => (false, p),
    }
}

/// A comparison operator at `p`, longest first.
pub open spec fn comparison_op_s(s: Seq<char>, p: int) -> Option<(BinaryOp, int)> {
    if symbol_s(s, p, '=') is Some {
        Some((BinaryOp::Eq, p + 1))
    } else if symbol_s(s, p, '!') is Some && symbol_s(s, p + 1, '=') is Some {
        Some((BinaryOp::Ne, p + 2))
    } else if symbol_s(s, p, '<') is Some {
        if symbol_s(s, p + 1, '>') is Some {
            Some((BinaryOp::Ne, p + 2))
        } else if symbol_s(s, p + 1, '=') is Some {
            Some((BinaryOp::Le, p + 2))
        } else {
            Some((BinaryOp::Lt, p + 1))
        }
    } else if symbol_s(s, p, '>') is Some {
        if symbol_s(s, p + 1, '=') is Some {
            Some((BinaryOp::Ge, p + 2))
        } else {
            Some((BinaryOp::Gt, p + 1))
        }
    } else {
        None
    }
}

/// `CONTAINS ( 'text' )` at `p`.
pub open spec fn contains_s(s: Seq<char>, p: int) -> Option<(ExprM, int)> {
    match keyword_s(s, p, "CONTAINS"@) {
        None => None,
        Some(q) => match symbol_s(s, ws_end(s, q), '(') {
            None => None,
            Some(q2) => match string_at(s, ws_end(s, q2)) {
                None => None,
                Some((t, e)) => match symbol_s(s, ws_end(s, e), ')') {
                    Some(f) => Some((ExprM::Contains(t), f)),
                    None => None,
                },
            },
        },
    }
}

/// `HAS TAG 'tag' [IN column]` at `p`.
pub open spec fn has_tag_s(s: Seq<char>, p: int) -> Option<(ExprM, int)> {
    match keyword_s(s, p, "HAS"@) {
        None => None,
        Some(q) => match ws1_s(s, q) {
            None => None,
            Some(q2) => match keyword_s(s, q2, "TAG"@) {
                None => None,
                Some(q3) => match ws1_s(s, q3) {
                    None => None,
                    Some(q4) => match string_at(s, q4) {
                        None => None,
                        Some((t, e)) => {
                            let col = match ws1_s(s, e) {
                                Some(a) => match keyword_s(s, a, "IN"@) {
                                    Some(b) => match ws1_s(s, b) {
                                        Some(c) => ident_s(s, c),
                                        None => None,
                                    },
                                    None => None,
                                },
                                None => None,
                            };
                            match col {
                                Some((n, f)) => Some((ExprM::HasTag(t, Some(n)), f)),
                                None => Some((ExprM::HasTag(t, None), e)),
                            }
                        },
                    },
                },
            },
        },
    }
}

/// Positions strictly after `p` and within `s`.
pub open spec fn ahead(s: Seq<char>, p: int, q: int) -> bool {
    p < q <= s.len()
}

/// The literals of a parenthesised `IN` list at `p`: `( literal, ... )`.
pub open spec fn in_list_s(s: Seq<char>, p: int) -> Option<(Seq<ValueModel>, int)> {
    match symbol_s(s, p, '(') {
        None => None,
        Some(q) => match literal_s(s, q) {
            None => None,
            Some((l, e)) => if !ahead(s, q, e) {
                None
            } else {
                let rest = lit_tail(s, e);
                match symbol_s(s, rest.1, ')') {
                    Some(f) => Some((seq![l] + rest.0, f)),
                    None => None,
                }
            },
        },
    }
}

/// Literals as literal expressions.
pub open spec fn lit_exprs(v: Seq<ValueModel>) -> Seq<ExprM> {
    Seq::new(v.len(), |i: int| ExprM::Literal(v[i]))
}

/// An expression at `p`.
pub open spec fn expr_s(s: Seq<char>, p: int) -> Option<(ExprM, int)>
    decreases s.len() - p, 10int,
{
    or_s(s, p)
}

/// `and (OR and)*` at `p`, grouped to the left.
pub open spec fn or_s(s: Seq<char>, p: int) -> Option<(ExprM, int)>
    decreases s.len() - p, 9int,
{
    match and_s(s, p) {
        Some((f, e)) => if !ahead(s, p, e) { None } else { Some(or_tail(s, e, f)) },
        None => None,
    }
}

/// The `OR` operands after `acc` at `p`.
pub open spec fn or_tail(s: Seq<char>, p: int, acc: ExprM) -> (ExprM, int)
    decreases s.len() - p, 9int,
{
    match ws1_s(s, p) {
        Some(q1) => match keyword_s(s, q1, "OR"@) {
            Some(q2) => match ws1_s(s, q2) {
                Some(q3) => if !ahead(s, p, q3) {
                    (acc, p)
                } else {
                    match and_s(s, q3) {
                        Some((e, r)) => if !ahead(s, q3, r) {
                            (acc, p)
                        } else {
                            or_tail(s, r, ExprM::BinaryOp(Box::new(acc), BinaryOp::Or, Box::new(e)))
                        },
                        None => (acc, p),
                    }
                },
                None => (acc, p),
            },
            None => (acc, p),
        },
        None => (acc, p),
    }
}

/// `not (AND not)*` at `p`, grouped to the left.
pub open spec fn and_s(s: Seq<char>, p: int) -> Option<(ExprM, int)>
    decreases s.len() - p, 8int,
{
    match not_expr_s(s, p) {
        Some((f, e)) => if !ahead(s, p, e) { None } else { Some(and_tail(s, e, f)) },
        None => None,
    }
}

/// The `AND` operands after `acc` at `p`.
pub open spec fn and_tail(s: Seq<char>, p: int, acc: ExprM) -> (ExprM, int)
    decreases s.len() - p, 8int,
{
    match ws1_s(s, p) {
        Some(q1) => match keyword_s(s, q1, "AND"@) {
            Some(q2) => match ws1_s(s, q2) {
                Some(q3) => if !ahead(s, p, q3) {
                    (acc, p)
                } else {
                    match not_expr_s(s, q3) {
                        Some((e, r)) => if !ahead(s, q3, r) {
                            (acc, p)
                        } else {
                            and_tail(s, r, ExprM::BinaryOp(Box::new(acc), BinaryOp::And, Box::new(e)))
                        },
                        None => (acc, p),
                    }
                },
                None => (acc, p),
            },
            None => (acc, p),
        },
        None => (acc, p),
    }
}

/// `NOT not_expr`, else a comparison, at `p`.
pub open spec fn not_expr_s(s: Seq<char>, p: int) -> Option<(ExprM, int)>
    decreases s.len() - p, 7int,
{
    let n = not_s(s, p);
    let negated = if n.0 && ahead(s, p, n.1) {
        match not_expr_s(s, n.1) {
            Some((e, q)) => Some((ExprM::UnaryOp(UnaryOp::Not, Box::new(e)), q)),
            None => None,
        }
    } else {
        None
    };
    if negated is Some { negated } else { comparison_s(s, p) }
}

/// The comparison-level forms at `p`, tried in order.
pub open spec fn comparison_s(s: Seq<char>, p: int) -> Option<(ExprM, int)>
    decreases s.len() - p, 6int,
{
    if contains_s(s, p) is Some {
        contains_s(s, p)
    } else if has_tag_s(s, p) is Some {
        has_tag_s(s, p)
    } else if is_null_s(s, p) is Some {
        is_null_s(s, p)
    } else if like_s(s, p) is Some {
        like_s(s, p)
    } else if in_s(s, p) is Some {
        in_s(s, p)
    } else if between_s(s, p) is Some {
        between_s(s, p)
    } else {
        binary_s(s, p)
    }
}

/// A primary, then at most one comparison with a second primary, at `p`.
pub open spec fn binary_s(s: Seq<char>, p: int) -> Option<(ExprM, int)>
    decreases s.len() - p, 5int,
{
    match primary_s(s, p) {
        None => None,
        Some((l, e)) => {
            let rhs = match comparison_op_s(s, ws_end(s, e)) {
                Some((op, q)) => {
                    let q2 = ws_end(s, q);
                    if !ahead(s, p, q2) {
                        None
                    } else {
                        match primary_s(s, q2) {
                            Some((r, f)) => Some((ExprM::BinaryOp(Box::new(l), op, Box::new(r)), f)),
                            None => None,
                        }
                    }
                },
                None => None,
            };
            if rhs is Some { rhs } else { Some((l, e)) }
        },
    }
}

/// `primary IS [NOT] NULL` at `p`.
pub open spec fn is_null_s(s: Seq<char>, p: int) -> Option<(ExprM, int)>
    decreases s.len() - p, 5int,
{
    match primary_s(s, p) {
        None => None,
        Some((x, e)) => match ws1_s(s, e) {
            None => None,
            Some(q) => match keyword_s(s, q, "IS"@) {
                None => None,
                Some(q2) => match ws1_s(s, q2) {
                    None => None,
                    Some(q3) => {
                        let n = not_s(s, q3);
                        match keyword_s(s, n.1, "NULL"@) {
                            Some(f) => Some((ExprM::IsNull(Box::new(x), n.0), f)),
                            None => None,
                        }
                    },
                },
            },
        },
    }
}

/// `primary [NOT] LIKE 'pattern'` at `p`.
pub open spec fn like_s(s: Seq<char>, p: int) -> Option<(ExprM, int)>
    decreases s.len() - p, 5int,
{
    match primary_s(s, p) {
        None => None,
        Some((x, e)) => match ws1_s(s, e) {
            None => None,
            Some(q) => {
                let n = not_s(s, q);
                match keyword_s(s, n.1, "LIKE"@) {
                    None => None,
                    Some(q2) => match ws1_s(s, q2) {
                        None => None,
                        Some(q3) => match string_at(s, q3) {
                            Some((t, f)) => Some((ExprM::Like(Box::new(x), t, n.0), f)),
                            None => None,
                        },
                    },
                }
            },
        },
    }
}

/// `primary [NOT] IN (literal, ...)` at `p`.
pub open spec fn in_s(s: Seq<char>, p: int) -> Option<(ExprM, int)>
    decreases s.len() - p, 5int,
{
    match primary_s(s, p) {
        None => None,
        Some((x, e)) => match ws1_s(s, e) {
            None => None,
            Some(q) => {
                let n = not_s(s, q);
                match keyword_s(s, n.1, "IN"@) {
                    None => None,
                    Some(q2) => match in_list_s(s, ws_end(s, q2)) {
                        Some((v, f)) => Some((ExprM::In(Box::new(x), lit_exprs(v), n.0), f)),
                        None => None,
                    },
                }
            },
        },
    }
}

/// `primary [NOT] BETWEEN primary AND primary` at `p`.
pub open spec fn between_s(s: Seq<char>, p: int) -> Option<(ExprM, int)>
    decreases s.len() - p, 5int,
{
    match primary_s(s, p) {
        None => None,
        Some((x, e)) => match ws1_s(s, e) {
            None => None,
            Some(q) => {
                let n = not_s(s, q);
                match keyword_s(s, n.1, "BETWEEN"@) {
                    None => None,
                    Some(q2) => match ws1_s(s, q2) {
                        None => None,
                        Some(q3) => if !ahead(s, p, q3) {
                            None
                        } else {
                            match primary_s(s, q3) {
                                None => None,
                                Some((lo, e2)) => match ws1_s(s, e2) {
                                    None => None,
                                    Some(q4) => match keyword_s(s, q4, "AND"@) {
                                        None => None,
                                        Some(q5) => match ws1_s(s, q5) {
                                            None => None,
                                            Some(q6) => if !ahead(s, p, q6) {
                                                None
                                            } else {
                                                match primary_s(s, q6) {
                                                    Some((hi, f)) => Some((
                                                        ExprM::Between(Box::new(x), Box::new(lo), Box::new(hi), n.0),
                                                        f,
                                                    )),
                                                    None => None,
                                                }
                                            },
                                        },
                                    },
                                },
                            }
                        },
                    },
                }
            },
        },
    }
}

/// `( expr )` at `p`.
pub open spec fn paren_s(s: Seq<char>, p: int) -> Option<(ExprM, int)>
    decreases s.len() - p, 3int,
{
    match symbol_s(s, p, '(') {
        Some(q) => {
            let q1 = ws_end(s, q);
            if !ahead(s, p, q1) {
                None
            } else {
                match expr_s(s, q1) {
                    Some((e, r)) => match symbol_s(s, ws_end(s, r), ')') {
                        Some(f) => Some((e, f)),
                        None => None,
                    },
                    None => None,
                }
            }
        },
        None => None,
    }
}

/// `( expr )`, a literal, a special field or a field name, at `p`.
pub open spec fn primary_s(s: Seq<char>, p: int) -> Option<(ExprM, int)>
    decreases s.len() - p, 4int,
{
    let paren = paren_s(s, p);
    if paren is Some {
        paren
    } else if literal_s(s, p) is Some {
        Some((ExprM::Literal(literal_s(s, p)->Some_0.0), literal_s(s, p)->Some_0.1))
    } else if special_s(s, p) is Some {
        Some((ExprM::Column(ColumnM::Special(special_s(s, p)->Some_0.0)), special_s(s, p)->Some_0.1))
    } else {
        match ident_s(s, p) {
            Some((n, e)) => Some((ExprM::Column(ColumnM::Field(n)), e)),
            None => None,
        }
    }
}

} // verus!

verus! {

/// Reads `@id`, `@body`, `@path`, `@modified` or `@created` (any case).
pub fn special_field(s: &Vec<char>, pos: usize) -> (r: Option<(SpecialField, usize)>)
    requires
        pos <= s@.len(),
    ensures
        match r { Some((f, p)) => special_s(s@, pos as int) == Some((f, p as int)), None => special_s(s@, pos as int) is None },
        match r {
            Some((_, p)) => pos < p <= s@.len() && s@[pos as int] == '@',
            None => true,
        },
{
    let p = match symbol(s, pos, '@') {
        Some(p) => p,
        None => return None,
    };
    if let Some(q) = keyword(s, p, "id") {
        return Some((SpecialField::Id, q));
    }
    if let Some(q) = keyword(s, p, "body") {
        return Some((SpecialField::Body, q));
    }
    if let Some(q) = keyword(s, p, "path") {
        return Some((SpecialField::Path, q));
    }
    if let Some(q) = keyword(s, p, "modified") {
        return Some((SpecialField::Modified, q));
    }
    if let Some(q) = keyword(s, p, "created") {
        return Some((SpecialField::Created, q));
    }
    None
}

/// Reads `NOT ` when it is there; says whether it was.
fn opt_not(s: &Vec<char>, pos: usize) -> (r: (bool, usize))
    requires
        pos <= s@.len(),
    ensures
        (r.0, r.1 as int) == not_s(s@, pos as int),
        pos <= r.1 <= s@.len(),
        r.0 ==> pos < r.1,
        !r.0 ==> r.1 == pos,
{
    match keyword(s, pos, "NOT") {
        Some(p) => match ws1(s, p) {
            Some(q) => (true, q),
            None => (false, pos),
        },
        None => (false, pos),
    }
}

/// An expression: `OR` of `AND`s.
pub fn expr(s: &Vec<char>, pos: usize) -> (r: Option<(Expr, usize)>)
    requires
        pos <= s@.len(),
    ensures
        expr_res(r) == expr_s(s@, pos as int),
        match r {
            Some((_, p)) => pos < p <= s@.len(),
            None => true,
        },
    decreases s@.len() - pos, 10int,
{
    or_expr(s, pos)
}

/// `and_expr (OR and_expr)*`, grouped to the left.
fn or_expr(s: &Vec<char>, pos: usize) -> (r: Option<(Expr, usize)>)
    requires
        pos <= s@.len(),
    ensures
        expr_res(r) == or_s(s@, pos as int),
        match r {
            Some((_, p)) => pos < p <= s@.len(),
            None => true,
        },
    decreases s@.len() - pos, 9int,
{
    let (mut acc, mut p) = match and_expr(s, pos) {
        Some(x) => x,
        None => return None,
    };
    let ghost e0 = p as int;
    let ghost f0 = acc@;
    loop
        invariant
            pos < p <= s@.len(),
            pos < e0 <= s@.len(),
            or_tail(s@, e0, f0) == or_tail(s@, p as int, acc@),
        ensures
            pos < p <= s@.len(),
            or_tail(s@, e0, f0) == or_tail(s@, p as int, acc@),
            or_tail(s@, p as int, acc@) == (acc@, p as int),
        decreases s@.len() - p,
    {
        let q = match ws1(s, p) {
            Some(q) => q,
            None => break,
        };
        let q = match keyword(s, q, "OR") {
            Some(q) => q,
            None => break,
        };
        let q = match ws1(s, q) {
            Some(q) => q,
            None => break,
        };
        match and_expr(s, q) {
            Some((e, e_end)) => {
                acc = Expr::BinaryOp { left: Box::new(acc), op: BinaryOp::Or, right: Box::new(e) };
                p = e_end;
            },
            None => break,
        }
    }
    Some((acc, p))
}

/// `not_expr (AND not_expr)*`, grouped to the left.
fn and_expr(s: &Vec<char>, pos: usize) -> (r: Option<(Expr, usize)>)
    requires
        pos <= s@.len(),
    ensures
        expr_res(r) == and_s(s@, pos as int),
        match r {
            Some((_, p)) => pos < p <= s@.len(),
            None => true,
        },
    decreases s@.len() - pos, 8int,
{
    let (mut acc, mut p) = match not_expr(s, pos) {
        Some(x) => x,
        None => return None,
    };
    let ghost e0 = p as int;
    let ghost f0 = acc@;
    loop
        invariant
            pos < p <= s@.len(),
            pos < e0 <= s@.len(),
            and_tail(s@, e0, f0) == and_tail(s@, p as int, acc@),
        ensures
            pos < p <= s@.len(),
            and_tail(s@, e0, f0) == and_tail(s@, p as int, acc@),
            and_tail(s@, p as int, acc@) == (acc@, p as int),
        decreases s@.len() - p,
    {
        let q = match ws1(s, p) {
            Some(q) => q,
            None => break,
        };
        let q = match keyword(s, q, "AND") {
            Some(q) => q,
            None => break,
        };
        let q = match ws1(s, q) {
            Some(q) => q,
            None => break,
        };
        match not_expr(s, q) {
            Some((e, e_end)) => {
                acc = Expr::BinaryOp { left: Box::new(acc), op: BinaryOp::And, right: Box::new(e) };
                p = e_end;
            },
            None => break,
        }
    }
    Some((acc, p))
}

/// `NOT not_expr`, or a comparison.
fn not_expr(s: &Vec<char>, pos: usize) -> (r: Option<(Expr, usize)>)
    requires
        pos <= s@.len(),
    ensures
        expr_res(r) == not_expr_s(s@, pos as int),
        match r {
            Some((_, p)) => pos < p <= s@.len(),
            None => true,
        },
    decreases s@.len() - pos, 7int,
{
    let (neg, p) = opt_not(s, pos);
    if neg {
        if let Some((e, q)) = not_expr(s, p) {
            return Some((Expr::UnaryOp { op: UnaryOp::Not, expr: Box::new(e) }, q));
        }
    }
    comparison_expr(s, pos)
}

/// The forms at comparison level, tried in order: `CONTAINS`, `HAS TAG`,
/// `IS NULL`, `LIKE`, `IN`, `BETWEEN`, then a binary comparison.
fn comparison_expr(s: &Vec<char>, pos: usize) -> (r: Option<(Expr, usize)>)
    requires
        pos <= s@.len(),
    ensures
        expr_res(r) == comparison_s(s@, pos as int),
        match r {
            Some((_, p)) => pos < p <= s@.len(),
            None => true,
        },
    decreases s@.len() - pos, 6int,
{
    if let Some(x) = contains_expr(s, pos) {
        return Some(x);
    }
    if let Some(x) = has_tag_expr(s, pos) {
        return Some(x);
    }
    if let Some(x) = is_null_expr(s, pos) {
        return Some(x);
    }
    if let Some(x) = like_expr(s, pos) {
        return Some(x);
    }
    if let Some(x) = in_expr(s, pos) {
        return Some(x);
    }
    if let Some(x) = between_expr(s, pos) {
        return Some(x);
    }
    binary_comparison(s, pos)
}

/// Reads a comparison operator, longest first.
fn comparison_op(s: &Vec<char>, pos: usize) -> (r: Option<(BinaryOp, usize)>)
    requires
        pos <= s@.len(),
    ensures
        match r { Some((o, p)) => comparison_op_s(s@, pos as int) == Some((o, p as int)), None => comparison_op_s(s@, pos as int) is None },
        match r {
            Some((_, p)) => pos < p <= s@.len(),
            None => true,
        },
{
    if let Some(p) = symbol(s, pos, '=') {
        return Some((BinaryOp::Eq, p));
    }
    if let Some(p) = symbol(s, pos, '!') {
        if let Some(q) = symbol(s, p, '=') {
            return Some((BinaryOp::Ne, q));
        }
    }
    if let Some(p) = symbol(s, pos, '<') {
        if let Some(q) = symbol(s, p, '>') {
            return Some((BinaryOp::Ne, q));
        }
        if let Some(q) = symbol(s, p, '=') {
            return Some((BinaryOp::Le, q));
        }
        return Some((BinaryOp::Lt, p));
    }
    if let Some(p) = symbol(s, pos, '>') {
        if let Some(q) = symbol(s, p, '=') {
            return Some((BinaryOp::Ge, q));
        }
        return Some((BinaryOp::Gt, p));
    }
    None
}

/// A primary, then at most one comparison operator and a second primary.
fn binary_comparison(s: &Vec<char>, pos: usize) -> (r: Option<(Expr, usize)>)
    requires
        pos <= s@.len(),
    ensures
        expr_res(r) == binary_s(s@, pos as int),
        match r {
            Some((_, p)) => pos < p <= s@.len(),
            None => true,
        },
    decreases s@.len() - pos, 5int,
{
    let (left, p) = match primary_expr(s, pos) {
        Some(x) => x,
        None => return None,
    };
    let q = ws0(s, p);
    if let Some((op, q)) = comparison_op(s, q) {
        let q = ws0(s, q);
        if let Some((right, e)) = primary_expr(s, q) {
            return Some((Expr::BinaryOp { left: Box::new(left), op, right: Box::new(right) }, e));
        }
    }
    Some((left, p))
}

/// `CONTAINS ( 'text' )`.
fn contains_expr(s: &Vec<char>, pos: usize) -> (r: Option<(Expr, usize)>)
    requires
        pos <= s@.len(),
    ensures
        expr_res(r) == contains_s(s@, pos as int),
        match r {
            Some((_, p)) => pos < p <= s@.len(),
            None => true,
        },
{
    let p = match keyword(s, pos, "CONTAINS") {
        Some(p) => p,
        None => return None,
    };
    proof { reveal_strlit("CONTAINS"); }
    let p = ws0(s, p);
    let p = match symbol(s, p, '(') {
        Some(p) => p,
        None => return None,
    };
    let p = ws0(s, p);
    let (text, p) = match string_literal(s, p) {
        Some(x) => x,
        None => return None,
    };
    let p = ws0(s, p);
    match symbol(s, p, ')') {
        Some(p) => Some((Expr::Contains { text }, p)),
        None => None,
    }
}

/// `HAS TAG 'tag' [IN column]`.
fn has_tag_expr(s: &Vec<char>, pos: usize) -> (r: Option<(Expr, usize)>)
    requires
        pos <= s@.len(),
    ensures
        expr_res(r) == has_tag_s(s@, pos as int),
        match r {
            Some((_, p)) => pos < p <= s@.len(),
            None => true,
        },
{
    let p = match keyword(s, pos, "HAS") {
        Some(p) => p,
        None => return None,
    };
    proof { reveal_strlit("HAS"); }
    let p = match ws1(s, p) {
        Some(p) => p,
        None => return None,
    };
    let p = match keyword(s, p, "TAG") {
        Some(p) => p,
        None => return None,
    };
    let p = match ws1(s, p) {
        Some(p) => p,
        None => return None,
    };
    let (tag, p) = match string_literal(s, p) {
        Some(x) => x,
        None => return None,
    };
    let mut column: Option<String> = None;
    let mut end = p;
    if let Some(q) = ws1(s, p) {
        if let Some(q) = keyword(s, q, "IN") {
            if let Some(q) = ws1(s, q) {
                if let Some((c, q)) = identifier(s, q) {
                    column = Some(c);
                    end = q;
                }
            }
        }
    }
    Some((Expr::HasTag { tag, column }, end))
}

/// `primary IS [NOT] NULL`.
fn is_null_expr(s: &Vec<char>, pos: usize) -> (r: Option<(Expr, usize)>)
    requires
        pos <= s@.len(),
    ensures
        expr_res(r) == is_null_s(s@, pos as int),
        match r {
            Some((_, p)) => pos < p <= s@.len(),
            None => true,
        },
    decreases s@.len() - pos, 5int,
{
    let (e, p) = match primary_expr(s, pos) {
        Some(x) => x,
        None => return None,
    };
    let p = match ws1(s, p) {
        Some(p) => p,
        None => return None,
    };
    let p = match keyword(s, p, "IS") {
        Some(p) => p,
        None => return None,
    };
    let p = match ws1(s, p) {
        Some(p) => p,
        None => return None,
    };
    let (negated, p) = opt_not(s, p);
    match keyword(s, p, "NULL") {
        Some(p) => Some((Expr::IsNull { expr: Box::new(e), negated }, p)),
        None => None,
    }
}

/// `primary [NOT] LIKE 'pattern'`.
fn like_expr(s: &Vec<char>, pos: usize) -> (r: Option<(Expr, usize)>)
    requires
        pos <= s@.len(),
    ensures
        expr_res(r) == like_s(s@, pos as int),
        match r {
            Some((_, p)) => pos < p <= s@.len(),
            None => true,
        },
    decreases s@.len() - pos, 5int,
{
    let (e, p) = match primary_expr(s, pos) {
        Some(x) => x,
        None => return None,
    };
    let p = match ws1(s, p) {
        Some(p) => p,
        None => return None,
    };
    let (negated, p) = opt_not(s, p);
    let p = match keyword(s, p, "LIKE") {
        Some(p) => p,
        None => return None,
    };
    let p = match ws1(s, p) {
        Some(p) => p,
        None => return None,
    };
    match string_literal(s, p) {
        Some((pattern, p)) => Some((Expr::Like { expr: Box::new(e), pattern, negated }, p)),
        None => None,
    }
}

/// The models of a list of expressions.
pub open spec fn exprs_model(v: Seq<Expr>) -> Seq<ExprM> {
    Seq::new(v.len(), |i: int| v[i]@)
}

/// `( literal, ... )` of an `IN`, as literal expressions.
fn in_list(s: &Vec<char>, pos: usize) -> (r: Option<(Vec<Expr>, usize)>)
    requires
        pos <= s@.len(),
    ensures
        match r {
            Some((v, p)) => pos < p <= s@.len() && (in_list_s(s@, pos as int) matches Some((lv, q)) && q == p
                && exprs_model(v@) == lit_exprs(lv)),
            None => in_list_s(s@, pos as int) is None,
        },
{
    let q0 = match symbol(s, pos, '(') {
        Some(p) => p,
        None => return None,
    };
    let (first, mut p) = match literal(s, q0) {
        Some(x) => x,
        None => return None,
    };
    let ghost e0 = p as int;
    let ghost lits: Seq<ValueModel> = seq![first@];
    let mut values: Vec<Expr> = Vec::new();
    values.push(Expr::Literal(first));
    assert(exprs_model(values@) =~= lit_exprs(lits));
    loop
        invariant
            pos < q0 < e0 <= p <= s@.len(),
            literal_s(s@, q0 as int) == Some((lits[0], e0)),
            symbol_s(s@, pos as int, '(') == Some(q0 as int),
            lits.len() >= 1,
            exprs_model(values@) == lit_exprs(lits),
            lit_tail(s@, e0).0 == lits.drop_first() + lit_tail(s@, p as int).0,
            lit_tail(s@, e0).1 == lit_tail(s@, p as int).1,
        ensures
            pos < q0 < e0 <= p <= s@.len(),
            literal_s(s@, q0 as int) == Some((lits[0], e0)),
            symbol_s(s@, pos as int, '(') == Some(q0 as int),
            lits.len() >= 1,
            exprs_model(values@) == lit_exprs(lits),
            lit_tail(s@, e0).0 == lits.drop_first(),
            lit_tail(s@, e0).1 == p,
        decreases s@.len() - p,
    {
        let q = match separator(s, p, ',') {
            Some(q) => q,
            None => break,
        };
        match literal(s, q) {
            Some((l, e)) => {
                let ghost before = values@;
                let ghost old_lits = lits;
                let ghost lm = l@;
                proof {
                    lits = lits.push(lm);
                }
                let x = Expr::Literal(l);
                assert(x@ == ExprM::Literal(lm));
                values.push(x);
                assert(exprs_model(values@) =~= exprs_model(before).push(ExprM::Literal(lm)));
                assert(lit_exprs(lits) =~= lit_exprs(old_lits).push(ExprM::Literal(lm)));
                assert(lits.drop_first() =~= old_lits.drop_first() + seq![lm]);
                p = e;
            },
            None => break,
        }
    }
    assert(lits =~= seq![lits[0]] + lits.drop_first());
    match symbol(s, p, ')') {
        Some(e) => Some((values, e)),
        None => None,
    }
}

/// `primary [NOT] IN (literal, ...)`.
fn in_expr(s: &Vec<char>, pos: usize) -> (r: Option<(Expr, usize)>)
    requires
        pos <= s@.len(),
    ensures
        expr_res(r) == in_s(s@, pos as int),
        match r {
            Some((_, p)) => pos < p <= s@.len(),
            None => true,
        },
    decreases s@.len() - pos, 5int,
{
    let (e, p) = match primary_expr(s, pos) {
        Some(x) => x,
        None => return None,
    };
    let p = match ws1(s, p) {
        Some(p) => p,
        None => return None,
    };
    let (negated, p) = opt_not(s, p);
    let p = match keyword(s, p, "IN") {
        Some(p) => p,
        None => return None,
    };
    let p = ws0(s, p);
    match in_list(s, p) {
        Some((values, p)) => {
            let r = Expr::In { expr: Box::new(e), values, negated };
            assert(r@->In_1 =~= exprs_model(r->In_values@));
            Some((r, p))
        },
        None => None,
    }
}

/// `primary [NOT] BETWEEN primary AND primary`.
fn between_expr(s: &Vec<char>, pos: usize) -> (r: Option<(Expr, usize)>)
    requires
        pos <= s@.len(),
    ensures
        expr_res(r) == between_s(s@, pos as int),
        match r {
            Some((_, p)) => pos < p <= s@.len(),
            None => true,
        },
    decreases s@.len() - pos, 5int,
{
    let (e, p) = match primary_expr(s, pos) {
        Some(x) => x,
        None => return None,
    };
    let p = match ws1(s, p) {
        Some(p) => p,
        None => return None,
    };
    let (negated, p) = opt_not(s, p);
    let p = match keyword(s, p, "BETWEEN") {
        Some(p) => p,
        None => return None,
    };
    let p = match ws1(s, p) {
        Some(p) => p,
        None => return None,
    };
    let (low, p) = match primary_expr(s, p) {
        Some(x) => x,
        None => return None,
    };
    let p = match ws1(s, p) {
        Some(p) => p,
        None => return None,
    };
    let p = match keyword(s, p, "AND") {
        Some(p) => p,
        None => return None,
    };
    let p = match ws1(s, p) {
        Some(p) => p,
        None => return None,
    };
    match primary_expr(s, p) {
        Some((high, p)) => Some((Expr::Between { expr: Box::new(e), low: Box::new(low), high: Box::new(high), negated }, p)),
        None => None,
    }
}

/// `( expr )`.
fn paren_expr(s: &Vec<char>, pos: usize) -> (r: Option<(Expr, usize)>)
    requires
        pos <= s@.len(),
    ensures
        expr_res(r) == paren_s(s@, pos as int),
        match r {
            Some((_, p)) => pos < p <= s@.len(),
            None => true,
        },
    decreases s@.len() - pos, 3int,
{
    if let Some(p) = symbol(s, pos, '(') {
        let p = ws0(s, p);
        if let Some((e, q)) = expr(s, p) {
            let q = ws0(s, q);
            if let Some(q) = symbol(s, q, ')') {
                return Some((e, q));
            }
        }
    }
    None
}

/// `( expr )`, a literal, a special field, or a field name, tried in order.
fn primary_expr(s: &Vec<char>, pos: usize) -> (r: Option<(Expr, usize)>)
    requires
        pos <= s@.len(),
    ensures
        expr_res(r) == primary_s(s@, pos as int),
        match r {
            Some((_, p)) => pos < p <= s@.len(),
            None => true,
        },
    decreases s@.len() - pos, 4int,
{
    if let Some(x) = paren_expr(s, pos) {
        return Some(x);
    }
    if let Some((l, p)) = literal(s, pos) {
        return Some((Expr::Literal(l), p));
    }
    if let Some((f, p)) = special_field(s, pos) {
        assert(column_model(Column::Special(f)) == ColumnM::Special(f));
        return Some((Expr::Column(Column::Special(f)), p));
    }
    match identifier(s, pos) {
        Some((name, p)) => {
            assert(column_model(Column::Field(name)) == ColumnM::Field(name@));
            Some((Expr::Column(Column::Field(name)), p))
        },
        None => None,
    }
}

} // verus!

verus! {

} // verus!

verus! {

/// `ws1 kw ws1` at `p`.
pub open spec fn spaced_s(s: Seq<char>, p: int, kw: Seq<char>) -> Option<int> {
    match ws1_s(s, p) {
        Some(q) => match keyword_s(s, q, kw) {
            Some(q2) => ws1_s(s, q2),
            None => None,
        },
        None => None,
    }
}

/// `kw ws1` at `p`.
pub open spec fn kws_s(s: Seq<char>, p: int, kw: Seq<char>) -> Option<int> {
    match keyword_s(s, p, kw) {
        Some(q) => ws1_s(s, q),
        None => None,
    }
}

/// One selected column at `p`.
pub open spec fn column_s(s: Seq<char>, p: int) -> Option<(ColumnM, int)> {
    if symbol_s(s, p, '*') is Some {
        Some((ColumnM::Star, p + 1))
    } else if special_s(s, p) is Some {
        Some((ColumnM::Special(special_s(s, p)->Some_0.0), special_s(s, p)->Some_0.1))
    } else {
        match ident_s(s, p) {
            Some((n, e)) => Some((ColumnM::Field(n), e)),
            None => None,
        }
    }
}

/// The columns after the first, each after a comma, at `p`.
pub open spec fn col_tail(s: Seq<char>, p: int) -> (Seq<ColumnM>, int)
    decreases s.len() - p,
{
    match sep_s(s, p, ',') {
        Some(q) => match column_s(s, q) {
            Some((c, e)) => if !ahead(s, p, e) {
                (Seq::empty(), p)
            } else {
                let rest = col_tail(s, e);
                (seq![c] + rest.0, rest.1)
            },
            None => (Seq::empty(), p),
        },
        None => (Seq::empty(), p),
    }
}

/// The column list of a `SELECT` at `p`.
pub open spec fn columns_s(s: Seq<char>, p: int) -> Option<(Seq<ColumnM>, int)> {
    if symbol_s(s, p, '*') is Some {
        Some((seq![ColumnM::Star], p + 1))
    } else {
        match column_s(s, p) {
            Some((c, e)) => if !ahead(s, p, e) {
                None
            } else {
                let rest = col_tail(s, e);
                Some((seq![c] + rest.0, rest.1))
            },
            None => None,
        }
    }
}

/// One `ORDER BY` key at `p`.
pub open spec fn order_item_s(s: Seq<char>, p: int) -> Option<((Seq<char>, OrderDirection), int)> {
    match ident_s(s, p) {
        None => None,
        Some((n, e)) => match ws1_s(s, e) {
            Some(q) => if keyword_s(s, q, "ASC"@) is Some {
                Some(((n, OrderDirection::Asc), keyword_s(s, q, "ASC"@)->Some_0))
            } else if keyword_s(s, q, "DESC"@) is Some {
                Some(((n, OrderDirection::Desc), keyword_s(s, q, "DESC"@)->Some_0))
            } else {
                Some(((n, OrderDirection::Asc), e))
            },
            None => Some(((n, OrderDirection::Asc), e)),
        },
    }
}

/// The keys after the first, each after a comma, at `p`.
pub open spec fn order_tail(s: Seq<char>, p: int) -> (Seq<(Seq<char>, OrderDirection)>, int)
    decreases s.len() - p,
{
    match sep_s(s, p, ',') {
        Some(q) => match order_item_s(s, q) {
            Some((o, e)) => if !ahead(s, p, e) {
                (Seq::empty(), p)
            } else {
                let rest = order_tail(s, e);
                (seq![o] + rest.0, rest.1)
            },
            None => (Seq::empty(), p),
        },
        None => (Seq::empty(), p),
    }
}

/// The `ORDER BY` keys at `p`.
pub open spec fn order_list_s(s: Seq<char>, p: int) -> Option<(Seq<(Seq<char>, OrderDirection)>, int)> {
    match order_item_s(s, p) {
        Some((o, e)) => if !ahead(s, p, e) {
            None
        } else {
            let rest = order_tail(s, e);
            Some((seq![o] + rest.0, rest.1))
        },
        None => None,
    }
}

/// `WHERE expr` after whitespace at `p`, when it is there.
pub open spec fn where_s(s: Seq<char>, p: int) -> (Option<ExprM>, int) {
    match spaced_s(s, p, "WHERE"@) {
        Some(q) => match expr_s(s, q) {
            Some((e, r)) => (Some(e), r),
            None => (None, p),
        },
        None => (None, p),
    }
}

/// `ORDER BY keys` after whitespace at `p`.
pub open spec fn order_clause_s(s: Seq<char>, p: int) -> Option<(Seq<(Seq<char>, OrderDirection)>, int)> {
    match spaced_s(s, p, "ORDER"@) {
        Some(a) => match kws_s(s, a, "BY"@) {
            Some(b) => order_list_s(s, b),
            None => None,
        },
        None => None,
    }
}

/// `kw n` after whitespace at `p` (`LIMIT` or `OFFSET`).
pub open spec fn count_clause_s(s: Seq<char>, p: int, kw: Seq<char>) -> Option<(int, int)> {
    match spaced_s(s, p, kw) {
        Some(a) => count_s(s, a),
        None => None,
    }
}

/// A `SELECT` statement at `p`.
#[verifier::opaque]
pub open spec fn select_s(s: Seq<char>, p: int) -> Option<(SelectM, int)> {
    match kws_s(s, p, "SELECT"@) {
        None => None,
        Some(q) => match columns_s(s, q) {
            None => None,
            Some((cols, q2)) => match spaced_s(s, q2, "FROM"@) {
                None => None,
                Some(q3) => match ident_s(s, q3) {
                    None => None,
                    Some((from, q4)) => {
                        let w = where_s(s, q4);
                        let ob = order_clause_s(s, w.1);
                        let p5 = match ob { Some((_, e)) => e, None => w.1 };
                        let lim = count_clause_s(s, p5, "LIMIT"@);
                        let p6 = match lim { Some((_, e)) => e, None => p5 };
                        let off = count_clause_s(s, p6, "OFFSET"@);
                        let p7 = match off { Some((_, e)) => e, None => p6 };
                        Some((
                            SelectM {
                                columns: cols,
                                from,
                                where_clause: w.0,
                                order_by: match ob { Some((l, _)) => l, None => Seq::empty() },
                                limit: match lim { Some((n, _)) => Some(n), None => None },
                                offset: match off { Some((n, _)) => Some(n), None => None },
                            },
                            p7,
                        ))
                    },
                },
            },
        },
    }
}

/// The identifiers after the first, each after a comma, at `p`.
pub open spec fn ident_tail(s: Seq<char>, p: int) -> (Seq<Seq<char>>, int)
    decreases s.len() - p,
{
    match sep_s(s, p, ',') {
        Some(q) => match ident_s(s, q) {
            Some((n, e)) => if !ahead(s, p, e) {
                (Seq::empty(), p)
            } else {
                let rest = ident_tail(s, e);
                (seq![n] + rest.0, rest.1)
            },
            None => (Seq::empty(), p),
        },
        None => (Seq::empty(), p),
    }
}

/// `( identifier, ... )` at `p`.
pub open spec fn paren_idents_s(s: Seq<char>, p: int) -> Option<(Seq<Seq<char>>, int)> {
    match symbol_s(s, p, '(') {
        None => None,
        Some(q) => match ident_s(s, q) {
            None => None,
            Some((n, e)) => {
                let rest = ident_tail(s, e);
                match symbol_s(s, rest.1, ')') {
                    Some(f) => Some((seq![n] + rest.0, f)),
                    None => None,
                }
            },
        },
    }
}

/// An `INSERT` statement at `p`.
#[verifier::opaque]
pub open spec fn insert_s(s: Seq<char>, p: int) -> Option<(StatementM, int)> {
    match kws_s(s, p, "INSERT"@) {
        None => None,
        Some(q) => match kws_s(s, q, "INTO"@) {
            None => None,
            Some(q2) => match ident_s(s, q2) {
                None => None,
                Some((into, q3)) => match paren_idents_s(s, ws_end(s, q3)) {
                    None => None,
                    Some((cols, q4)) => match ws1_s(s, q4) {
                        None => None,
                        Some(q5) => match keyword_s(s, q5, "VALUES"@) {
                            None => None,
                            Some(q6) => match in_list_s(s, ws_end(s, q6)) {
                                None => None,
                                Some((vals, q7)) => {
                                    let body = match spaced_s(s, q7, "BODY"@) {
                                        Some(a) => string_at(s, a),
                                        None => None,
                                    };
                                    Some((
                                        StatementM::Insert {
                                            into,
                                            columns: cols,
                                            values: vals,
                                            body: match body { Some((t, _)) => Some(t), None => None },
                                        },
                                        match body { Some((_, e)) => e, None => q7 },
                                    ))
                                },
                            },
                        },
                    },
                },
            },
        },
    }
}

/// `column = expr` at `p`.
pub open spec fn set_clause_s(s: Seq<char>, p: int) -> Option<((Seq<char>, ExprM), int)> {
    match ident_s(s, p) {
        None => None,
        Some((c, e)) => match symbol_s(s, ws_end(s, e), '=') {
            None => None,
            Some(q) => match expr_s(s, ws_end(s, q)) {
                Some((x, f)) => Some(((c, x), f)),
                None => None,
            },
        },
    }
}

/// The `SET` clauses after the first, each after a comma, at `p`.
pub open spec fn set_tail(s: Seq<char>, p: int) -> (Seq<(Seq<char>, ExprM)>, int)
    decreases s.len() - p,
{
    match sep_s(s, p, ',') {
        Some(q) => match set_clause_s(s, q) {
            Some((c, e)) => if !ahead(s, p, e) {
                (Seq::empty(), p)
            } else {
                let rest = set_tail(s, e);
                (seq![c] + rest.0, rest.1)
            },
            None => (Seq::empty(), p),
        },
        None => (Seq::empty(), p),
    }
}

/// `SET` clauses separated by commas at `p`.
pub open spec fn set_list_s(s: Seq<char>, p: int) -> Option<(Seq<(Seq<char>, ExprM)>, int)> {
    match set_clause_s(s, p) {
        None => None,
        Some((first, e)) => if !ahead(s, p, e) {
            None
        } else {
            let rest = set_tail(s, e);
            Some((seq![first] + rest.0, rest.1))
        },
    }
}

/// An `UPDATE` statement at `p`.
#[verifier::opaque]
pub open spec fn update_s(s: Seq<char>, p: int) -> Option<(StatementM, int)> {
    match kws_s(s, p, "UPDATE"@) {
        None => None,
        Some(q) => match ident_s(s, q) {
            None => None,
            Some((c, q2)) => match spaced_s(s, q2, "SET"@) {
                None => None,
                Some(q3) => match set_list_s(s, q3) {
                    None => None,
                    Some((set, e)) => {
                        let w = where_s(s, e);
                        Some((StatementM::Update { collection: c, set, where_clause: w.0 }, w.1))
                    },
                },
            },
        },
    }
}

/// A `DELETE` statement at `p`.
#[verifier::opaque]
pub open spec fn delete_s(s: Seq<char>, p: int) -> Option<(StatementM, int)> {
    match kws_s(s, p, "DELETE"@) {
        None => None,
        Some(q) => match kws_s(s, q, "FROM"@) {
            None => None,
            Some(q2) => match ident_s(s, q2) {
                None => None,
                Some((f, q3)) => {
                    let w = where_s(s, q3);
                    Some((StatementM::Delete { from: f, where_clause: w.0 }, w.1))
                },
            },
        },
    }
}

/// A column type at `p`.
pub open spec fn data_type_s(s: Seq<char>, p: int) -> Option<(DataTypeM, int)>
    decreases s.len() - p,
{
    if keyword_s(s, p, "STRING"@) is Some {
        Some((DataTypeM::String, keyword_s(s, p, "STRING"@)->Some_0))
    } else if keyword_s(s, p, "INT"@) is Some {
        Some((DataTypeM::Int, keyword_s(s, p, "INT"@)->Some_0))
    } else if keyword_s(s, p, "FLOAT"@) is Some {
        Some((DataTypeM::Float, keyword_s(s, p, "FLOAT"@)->Some_0))
    } else if keyword_s(s, p, "BOOL"@) is Some {
        Some((DataTypeM::Bool, keyword_s(s, p, "BOOL"@)->Some_0))
    } else if keyword_s(s, p, "DATE"@) is Some {
        Some((DataTypeM::Date, keyword_s(s, p, "DATE"@)->Some_0))
    } else if keyword_s(s, p, "DATETIME"@) is Some {
        Some((DataTypeM::DateTime, keyword_s(s, p, "DATETIME"@)->Some_0))
    } else if keyword_s(s, p, "OBJECT"@) is Some {
        Some((DataTypeM::Object, keyword_s(s, p, "OBJECT"@)->Some_0))
    } else {
        let arr = match keyword_s(s, p, "ARRAY"@) {
            Some(q) => match symbol_s(s, ws_end(s, q), '<') {
                Some(q2) => if !ahead(s, p, q2) {
                    None
                } else {
                    match data_type_s(s, q2) {
                        Some((inner, e)) => match symbol_s(s, e, '>') {
                            Some(f) => Some((DataTypeM::Array(Box::new(inner)), f)),
                            None => None,
                        },
                        None => None,
                    }
                },
                None => None,
            },
            None => None,
        };
        if arr is Some {
            arr
        } else {
            match keyword_s(s, p, "REF"@) {
                Some(q) => match symbol_s(s, ws_end(s, q), '<') {
                    Some(q2) => match ident_s(s, q2) {
                        Some((n, e)) => match symbol_s(s, e, '>') {
                            Some(f) => Some((DataTypeM::Ref(n), f)),
                            None => None,
                        },
                        None => None,
                    },
                    None => None,
                },
                None => None,
            }
        }
    }
}

/// A column constraint at `p`.
pub open spec fn constraint_s(s: Seq<char>, p: int) -> Option<(ConstraintM, int)> {
    if keyword_s(s, p, "REQUIRED"@) is Some {
        Some((ConstraintM::Required, keyword_s(s, p, "REQUIRED"@)->Some_0))
    } else if keyword_s(s, p, "UNIQUE"@) is Some {
        Some((ConstraintM::Unique, keyword_s(s, p, "UNIQUE"@)->Some_0))
    } else if keyword_s(s, p, "INDEXED"@) is Some {
        Some((ConstraintM::Indexed, keyword_s(s, p, "INDEXED"@)->Some_0))
    } else {
        match kws_s(s, p, "DEFAULT"@) {
            Some(q) => match literal_s(s, q) {
                Some((l, e)) => Some((ConstraintM::Default(l), e)),
                None => None,
            },
            None => None,
        }
    }
}

/// The constraints at `p`, each after whitespace.
pub open spec fn cons_tail(s: Seq<char>, p: int) -> (Seq<ConstraintM>, int)
    decreases s.len() - p,
{
    match ws1_s(s, p) {
        Some(q) => match constraint_s(s, q) {
            Some((c, e)) => if !ahead(s, p, e) {
                (Seq::empty(), p)
            } else {
                let rest = cons_tail(s, e);
                (seq![c] + rest.0, rest.1)
            },
            None => (Seq::empty(), p),
        },
        None => (Seq::empty(), p),
    }
}

/// `name type constraint*` at `p`.
pub open spec fn column_def_s(s: Seq<char>, p: int) -> Option<((Seq<char>, DataTypeM, Seq<ConstraintM>), int)> {
    match ident_s(s, p) {
        None => None,
        Some((n, e)) => match ws1_s(s, e) {
            None => None,
            Some(q) => match data_type_s(s, q) {
                None => None,
                Some((t, e2)) => {
                    let cs = cons_tail(s, e2);
                    Some(((n, t, cs.0), cs.1))
                },
            },
        },
    }
}

/// The column definitions after the first, each after a comma, at `p`.
pub open spec fn coldef_tail(s: Seq<char>, p: int) -> (Seq<(Seq<char>, DataTypeM, Seq<ConstraintM>)>, int)
    decreases s.len() - p,
{
    match sep_s(s, p, ',') {
        Some(q) => match column_def_s(s, q) {
            Some((c, e)) => if !ahead(s, p, e) {
                (Seq::empty(), p)
            } else {
                let rest = coldef_tail(s, e);
                (seq![c] + rest.0, rest.1)
            },
            None => (Seq::empty(), p),
        },
        None => (Seq::empty(), p),
    }
}

/// `( column_def, ... )`, possibly empty, at `p`.
pub open spec fn column_defs_s(s: Seq<char>, p: int) -> Option<(Seq<(Seq<char>, DataTypeM, Seq<ConstraintM>)>, int)> {
    match symbol_s(s, p, '(') {
        None => None,
        Some(q) => {
            let defs = match column_def_s(s, q) {
                Some((c, e)) => {
                    let rest = coldef_tail(s, e);
                    (seq![c] + rest.0, rest.1)
                },
                None => (Seq::empty(), q),
            };
            match symbol_s(s, defs.1, ')') {
                Some(f) => Some((defs.0, f)),
                None => None,
            }
        },
    }
}

/// `IF NOT EXISTS ` at `p`, when it is there.
pub open spec fn ifne_s(s: Seq<char>, p: int) -> (bool, int) {
    match kws_s(s, p, "IF"@) {
        Some(a) => match kws_s(s, a, "NOT"@) {
            Some(b) => match kws_s(s, b, "EXISTS"@) {
                Some(c) => (true, c),
                None => (false, p),
            },
            None => (false, p),
        },
        None => (false, p),
    }
}

/// A `CREATE COLLECTION` statement at `p`.
#[verifier::opaque]
pub open spec fn create_collection_s(s: Seq<char>, p: int) -> Option<(StatementM, int)> {
    match kws_s(s, p, "CREATE"@) {
        None => None,
        Some(q) => {
            let ine = ifne_s(s, q);
            match kws_s(s, ine.1, "COLLECTION"@) {
                None => None,
                Some(q2) => match ident_s(s, q2) {
                    None => None,
                    Some((n, e)) => {
                        let q3 = ws_end(s, e);
                        match column_defs_s(s, q3) {
                            Some((defs, f)) => Some((StatementM::CreateCollection { name: n, columns: defs, if_not_exists: ine.0 }, f)),
                            None => Some((StatementM::CreateCollection { name: n, columns: Seq::empty(), if_not_exists: ine.0 }, q3)),
                        }
                    },
                },
            }
        },
    }
}

/// A `CREATE VIEW` statement at `p`.
#[verifier::opaque]
pub open spec fn create_view_s(s: Seq<char>, p: int) -> Option<(StatementM, int)> {
    match kws_s(s, p, "CREATE"@) {
        None => None,
        Some(q) => {
            let ine = ifne_s(s, q);
            match kws_s(s, ine.1, "VIEW"@) {
                None => None,
                Some(q2) => match ident_s(s, q2) {
                    None => None,
                    Some((n, e)) => match spaced_s(s, e, "AS"@) {
                        None => None,
                        Some(q3) => match select_s(s, q3) {
                            None => None,
                            Some((sel, f)) => {
                                let t = match spaced_s(s, f, "TEMPLATE"@) {
                                    Some(a) => string_at(s, a),
                                    None => None,
                                };
                                Some((
                                    StatementM::CreateView {
                                        name: n,
                                        query: sel,
                                        template: match t { Some((x, _)) => Some(x), None => None },
                                        if_not_exists: ine.0,
                                    },
                                    match t { Some((_, g)) => g, None => f },
                                ))
                            },
                        },
                    },
                },
            }
        },
    }
}

/// `DROP kind name` at `p`.
pub open spec fn drop_s(s: Seq<char>, p: int, kind: Seq<char>) -> Option<(Seq<char>, int)> {
    match kws_s(s, p, "DROP"@) {
        Some(q) => match kws_s(s, q, kind) {
            Some(q2) => ident_s(s, q2),
            None => None,
        },
        None => None,
    }
}

/// A statement at `p`, the forms tried in a fixed order.
pub open spec fn statement_s(s: Seq<char>, p: int) -> Option<(StatementM, int)> {
    if select_s(s, p) is Some {
        Some((StatementM::Select(select_s(s, p)->Some_0.0), select_s(s, p)->Some_0.1))
    } else if insert_s(s, p) is Some {
        insert_s(s, p)
    } else if update_s(s, p) is Some {
        update_s(s, p)
    } else if delete_s(s, p) is Some {
        delete_s(s, p)
    } else if create_collection_s(s, p) is Some {
        create_collection_s(s, p)
    } else if create_view_s(s, p) is Some {
        create_view_s(s, p)
    } else if drop_s(s, p, "COLLECTION"@) is Some {
        Some((StatementM::DropCollection(drop_s(s, p, "COLLECTION"@)->Some_0.0), drop_s(s, p, "COLLECTION"@)->Some_0.1))
    } else if drop_s(s, p, "VIEW"@) is Some {
        Some((StatementM::DropView(drop_s(s, p, "VIEW"@)->Some_0.0), drop_s(s, p, "VIEW"@)->Some_0.1))
    } else {
        None
    }
}

} // verus!


verus! {

/// Models of selected columns.
pub open spec fn cols_model(v: Seq<Column>) -> Seq<ColumnM> {
    Seq::new(v.len(), |i: int| v[i]@)
}

/// Models of `ORDER BY` keys.
pub open spec fn orders_model(v: Seq<OrderBy>) -> Seq<(Seq<char>, OrderDirection)> {
    Seq::new(v.len(), |i: int| (v[i].column@, v[i].direction))
}

/// Models of strings.
pub open spec fn strs_model(v: Seq<String>) -> Seq<Seq<char>> {
    Seq::new(v.len(), |i: int| v[i]@)
}

/// Models of constraints.
pub open spec fn cons_model(v: Seq<Constraint>) -> Seq<ConstraintM> {
    Seq::new(v.len(), |i: int| constraint_model(v[i]))
}

/// Models of column definitions.
pub open spec fn defs_model(v: Seq<ColumnDef>) -> Seq<(Seq<char>, DataTypeM, Seq<ConstraintM>)> {
    Seq::new(v.len(), |i: int| column_def_model(v[i]))
}

/// Models of `SET` clauses.
pub open spec fn sets_model(v: Seq<SetClause>) -> Seq<(Seq<char>, ExprM)> {
    Seq::new(v.len(), |i: int| (v[i].column@, v[i].value@))
}

} // verus!

verus! {

/// `ws1 kw ws1`: a keyword standing between whitespace.
fn spaced_keyword(s: &Vec<char>, pos: usize, kw: &str) -> (r: Option<usize>)
    requires
        pos <= s@.len(),
    ensures
        pos_of(r) == spaced_s(s@, pos as int, kw@),
        match r {
            Some(p) => pos < p <= s@.len(),
            None => true,
        },
{
    let p = match ws1(s, pos) {
        Some(p) => p,
        None => return None,
    };
    let p = match keyword(s, p, kw) {
        Some(p) => p,
        None => return None,
    };
    ws1(s, p)
}

/// `kw ws1`: a keyword followed by whitespace.
fn keyword_ws(s: &Vec<char>, pos: usize, kw: &str) -> (r: Option<usize>)
    requires
        pos <= s@.len(),
    ensures
        pos_of(r) == kws_s(s@, pos as int, kw@),
        match r {
            Some(p) => pos < p <= s@.len() && keyword_at(s@, pos as int, kw@),
            None => true,
        },
{
    let p = match keyword(s, pos, kw) {
        Some(p) => p,
        None => return None,
    };
    ws1(s, p)
}

/// One selected column: `*`, a special field or a field name.
fn column(s: &Vec<char>, pos: usize) -> (r: Option<(Column, usize)>)
    requires
        pos <= s@.len(),
    ensures
        match r { Some((x, p)) => column_s(s@, pos as int) == Some((x@, p as int)), None => column_s(s@, pos as int) is None },
        match r {
            Some((_, p)) => pos < p <= s@.len(),
            None => true,
        },
{
    if let Some(p) = symbol(s, pos, '*') {
        return Some((Column::Star, p));
    }
    if let Some((f, p)) = special_field(s, pos) {
        return Some((Column::Special(f), p));
    }
    match identifier(s, pos) {
        Some((name, p)) => Some((Column::Field(name), p)),
        None => None,
    }
}

/// The column list of `SELECT`: `*`, or columns separated by commas.
fn select_columns(s: &Vec<char>, pos: usize) -> (r: Option<(Vec<Column>, usize)>)
    requires
        pos <= s@.len(),
    ensures
        match r { Some((x, p)) => columns_s(s@, pos as int) == Some((cols_model(x@), p as int)), None => columns_s(s@, pos as int) is None },
        match r {
            Some((cols, p)) => pos < p <= s@.len() && cols@.len() > 0,
            None => true,
        },
{
    if let Some(p) = symbol(s, pos, '*') {
        let v = vec![Column::Star];
        assert(cols_model(v@) =~= seq![ColumnM::Star]);
        return Some((v, p));
    }
    let (first, mut p) = match column(s, pos) {
        Some(x) => x,
        None => return None,
    };
    let mut cols: Vec<Column> = Vec::new();
    let ghost first_m = first@;
    let ghost e0 = p as int;
    cols.push(first);
    loop
        invariant
            pos < p <= s@.len(),
            cols@.len() >= 1,
            cols_model(cols@)[0] == first_m,
            column_s(s@, pos as int) == Some((first_m, e0)),
            e0 <= p,
            col_tail(s@, e0).0 == cols_model(cols@).drop_first() + col_tail(s@, p as int).0,
            col_tail(s@, e0).1 == col_tail(s@, p as int).1,
        ensures
            pos < p <= s@.len(),
            cols@.len() >= 1,
            cols_model(cols@)[0] == first_m,
            column_s(s@, pos as int) == Some((first_m, e0)),
            col_tail(s@, e0).0 == cols_model(cols@).drop_first(),
            col_tail(s@, e0).1 == p,
            cols@.len() > 0,
        decreases s@.len() - p,
    {
        let q = match separator(s, p, ',') {
            Some(q) => q,
            None => break,
        };
        match column(s, q) {
            Some((c, e)) => {
                let ghost before = cols@;
                let ghost m = c@;
                cols.push(c);
                assert(cols_model(cols@) =~= cols_model(before).push(m));
                assert(cols_model(cols@)[0] == cols_model(before)[0]);
                assert(cols_model(cols@).drop_first() =~= cols_model(before).drop_first() + seq![m]);
                p = e;
            },
            None => break,
        }
    }
    assert(cols_model(cols@) =~= seq![cols_model(cols@)[0]] + cols_model(cols@).drop_first());
    Some((cols, p))
}

/// One `ORDER BY` key: a field name and an optional `ASC`/`DESC`.
fn order_by_item(s: &Vec<char>, pos: usize) -> (r: Option<(OrderBy, usize)>)
    requires
        pos <= s@.len(),
    ensures
        match r { Some((x, p)) => order_item_s(s@, pos as int) == Some(((x.column@, x.direction), p as int)), None => order_item_s(s@, pos as int) is None },
        match r {
            Some((_, p)) => pos < p <= s@.len(),
            None => true,
        },
{
    let (name, p) = match identifier(s, pos) {
        Some(x) => x,
        None => return None,
    };
    if let Some(q) = ws1(s, p) {
        if let Some(e) = keyword(s, q, "ASC") {
            return Some((OrderBy { column: name, direction: OrderDirection::Asc }, e));
        }
        if let Some(e) = keyword(s, q, "DESC") {
            return Some((OrderBy { column: name, direction: OrderDirection::Desc }, e));
        }
    }
    Some((OrderBy { column: name, direction: OrderDirection::Asc }, p))
}

/// `ORDER BY` keys separated by commas.
fn order_by_list(s: &Vec<char>, pos: usize) -> (r: Option<(Vec<OrderBy>, usize)>)
    requires
        pos <= s@.len(),
    ensures
        match r { Some((x, p)) => order_list_s(s@, pos as int) == Some((orders_model(x@), p as int)), None => order_list_s(s@, pos as int) is None },
        match r {
            Some((_, p)) => pos < p <= s@.len(),
            None => true,
        },
{
    let (first, mut p) = match order_by_item(s, pos) {
        Some(x) => x,
        None => return None,
    };
    let mut items: Vec<OrderBy> = Vec::new();
    let ghost first_m = (first.column@, first.direction);
    let ghost e0 = p as int;
    items.push(first);
    loop
        invariant
            pos < p <= s@.len(),
            items@.len() >= 1,
            orders_model(items@)[0] == first_m,
            order_item_s(s@, pos as int) == Some((first_m, e0)),
            e0 <= p,
            order_tail(s@, e0).0 == orders_model(items@).drop_first() + order_tail(s@, p as int).0,
            order_tail(s@, e0).1 == order_tail(s@, p as int).1,
        ensures
            pos < p <= s@.len(),
            items@.len() >= 1,
            orders_model(items@)[0] == first_m,
            order_item_s(s@, pos as int) == Some((first_m, e0)),
            order_tail(s@, e0).0 == orders_model(items@).drop_first(),
            order_tail(s@, e0).1 == p,
        decreases s@.len() - p,
    {
        let q = match separator(s, p, ',') {
            Some(q) => q,
            None => break,
        };
        match order_by_item(s, q) {
            Some((o, e)) => {
                let ghost before = items@;
                let ghost m = (o.column@, o.direction);
                items.push(o);
                assert(orders_model(items@) =~= orders_model(before).push(m));
                assert(orders_model(items@)[0] == orders_model(before)[0]);
                assert(orders_model(items@).drop_first() =~= orders_model(before).drop_first() + seq![m]);
                p = e;
            },
            None => break,
        }
    }
    assert(orders_model(items@) =~= seq![orders_model(items@)[0]] + orders_model(items@).drop_first());
    Some((items, p))
}

/// `WHERE expr` after whitespace, when it is there.
fn opt_where(s: &Vec<char>, pos: usize) -> (r: (Option<Expr>, usize))
    requires
        pos <= s@.len(),
    ensures
        (opt_expr(r.0), r.1 as int) == where_s(s@, pos as int),
        pos <= r.1 <= s@.len(),
{
    if let Some(p) = spaced_keyword(s, pos, "WHERE") {
        if let Some((e, q)) = expr(s, p) {
            return (Some(e), q);
        }
    }
    (None, pos)
}

/// `ORDER BY keys` after whitespace.
fn order_clause(s: &Vec<char>, pos: usize) -> (r: Option<(Vec<OrderBy>, usize)>)
    requires
        pos <= s@.len(),
    ensures
        match r {
            Some((x, p)) => order_clause_s(s@, pos as int) == Some((orders_model(x@), p as int)) && pos < p <= s@.len(),
            None => order_clause_s(s@, pos as int) is None,
        },
{
    if let Some(q) = spaced_keyword(s, pos, "ORDER") {
        if let Some(q) = keyword_ws(s, q, "BY") {
            return order_by_list(s, q);
        }
    }
    None
}

/// `kw n` after whitespace, for `LIMIT` and `OFFSET`.
fn count_clause(s: &Vec<char>, pos: usize, kw: &str) -> (r: Option<(usize, usize)>)
    requires
        pos <= s@.len(),
    ensures
        match r {
            Some((n, p)) => count_clause_s(s@, pos as int, kw@) == Some((n as int, p as int)) && pos < p <= s@.len(),
            None => count_clause_s(s@, pos as int, kw@) is None,
        },
{
    if let Some(q) = spaced_keyword(s, pos, kw) {
        return count_literal(s, q);
    }
    None
}

/// `SELECT columns FROM name [WHERE ..] [ORDER BY ..] [LIMIT n] [OFFSET n]`.
#[verifier::rlimit(80)]
pub fn select_stmt(s: &Vec<char>, pos: usize) -> (r: Option<(SelectStmt, usize)>)
    requires
        pos <= s@.len(),
    ensures
        match r { Some((x, p)) => select_s(s@, pos as int) == Some((select_model(x), p as int)), None => select_s(s@, pos as int) is None },
        match r {
            Some((sel, p)) => pos < p <= s@.len() && keyword_at(s@, pos as int, "SELECT"@) && sel.columns@.len() > 0
                && is_word(sel.from@),
            None => true,
        },
{
    proof {
        reveal(select_s);
    }
    let p = match keyword_ws(s, pos, "SELECT") {
        Some(p) => p,
        None => return None,
    };
    let (columns, p) = match select_columns(s, p) {
        Some(x) => x,
        None => return None,
    };
    let p = match spaced_keyword(s, p, "FROM") {
        Some(p) => p,
        None => return None,
    };
    let q0 = p;
    let (from, p) = match identifier(s, p) {
        Some(x) => x,
        None => return None,
    };
    let (where_clause, mut p) = opt_where(s, p);
    let ghost w1 = p as int;
    let mut order_by: Vec<OrderBy> = Vec::new();
    if let Some((list, q)) = order_clause(s, p) {
        order_by = list;
        p = q;
    } else {
        assert(orders_model(order_by@) =~= Seq::<(Seq<char>, OrderDirection)>::empty());
    }
    assert(orders_model(order_by@) == match order_clause_s(s@, w1) {
        Some((l, _)) => l,
        None => Seq::empty(),
    });
    let mut limit: Option<usize> = None;
    if let Some((n, e)) = count_clause(s, p, "LIMIT") {
        limit = Some(n);
        p = e;
    }
    let mut offset: Option<usize> = None;
    if let Some((n, e)) = count_clause(s, p, "OFFSET") {
        offset = Some(n);
        p = e;
    }
    let sel = SelectStmt { columns, from, where_clause, order_by, limit, offset };
    assert(select_model(sel).columns =~= cols_model(sel.columns@));
    assert(select_model(sel).order_by =~= orders_model(sel.order_by@));
    Some((sel, p))
}

/// `w` is a whole word of `s` read between `pos` and `p`.
pub open spec fn read_word(s: Seq<char>, pos: int, p: int, w: Seq<char>) -> bool {
    exists|q: int| pos < q && q + w.len() <= p && #[trigger] word_end(s, q, q + w.len()) && s.subrange(q, q + w.len()) == w
}

/// `t` is the text of a string literal of `s` read between `pos` and `p`.
pub open spec fn read_string(s: Seq<char>, pos: int, p: int, t: Seq<char>) -> bool {
    exists|q: int| pos < q && (#[trigger] string_at(s, q) matches Some((u, e)) && u == t && e <= p)
}

/// A parenthesised list of at least one identifier.
fn paren_identifiers(s: &Vec<char>, pos: usize) -> (r: Option<(Vec<String>, usize)>)
    requires
        pos <= s@.len(),
    ensures
        match r { Some((x, p)) => paren_idents_s(s@, pos as int) == Some((strs_model(x@), p as int)), None => paren_idents_s(s@, pos as int) is None },
        match r {
            Some((items, p)) => pos < p <= s@.len() && items@.len() > 0 && forall|i: int|
                0 <= i < items@.len() ==> is_word(#[trigger] items@[i]@),
            None => true,
        },
{
    let p = match symbol(s, pos, '(') {
        Some(p) => p,
        None => return None,
    };
    let (first, mut p) = match identifier(s, p) {
        Some(x) => x,
        None => return None,
    };
    let mut items: Vec<String> = Vec::new();
    let ghost first_m = first@;
    let ghost e0 = p as int;
    items.push(first);
    loop
        invariant
            pos < p <= s@.len(),
            items@.len() > 0,
            forall|i: int| 0 <= i < items@.len() ==> is_word(#[trigger] items@[i]@),
            items@.len() >= 1,
            strs_model(items@)[0] == first_m,
            ident_s(s@, pos + 1) == Some((first_m, e0)),
            e0 <= p,
            ident_tail(s@, e0).0 == strs_model(items@).drop_first() + ident_tail(s@, p as int).0,
            ident_tail(s@, e0).1 == ident_tail(s@, p as int).1,
        ensures
            pos < p <= s@.len(),
            items@.len() >= 1,
            strs_model(items@)[0] == first_m,
            ident_s(s@, pos + 1) == Some((first_m, e0)),
            ident_tail(s@, e0).0 == strs_model(items@).drop_first(),
            ident_tail(s@, e0).1 == p,
            items@.len() > 0,
            forall|i: int| 0 <= i < items@.len() ==> is_word(#[trigger] items@[i]@),
        decreases s@.len() - p,
    {
        let q = match separator(s, p, ',') {
            Some(q) => q,
            None => break,
        };
        match identifier(s, q) {
            Some((c, e)) => {
                let ghost before = items@;
                let ghost m = c@;
                items.push(c);
                assert(strs_model(items@) =~= strs_model(before).push(m));
                assert(strs_model(items@)[0] == strs_model(before)[0]);
                assert(strs_model(items@).drop_first() =~= strs_model(before).drop_first() + seq![m]);
                p = e;
            },
            None => break,
        }
    }
    assert(strs_model(items@) =~= seq![strs_model(items@)[0]] + strs_model(items@).drop_first());
    match symbol(s, p, ')') {
        Some(e) => Some((items, e)),
        None => None,
    }
}

/// A parenthesised list of at least one literal.
fn paren_literals(s: &Vec<char>, pos: usize) -> (r: Option<(Vec<Literal>, usize)>)
    requires
        pos <= s@.len(),
    ensures
        match r { Some((x, p)) => in_list_s(s@, pos as int) == Some((lits_model(x@), p as int)), None => in_list_s(s@, pos as int) is None },
        match r {
            Some((items, p)) => pos < p <= s@.len() && items@.len() > 0,
            None => true,
        },
{
    let p = match symbol(s, pos, '(') {
        Some(p) => p,
        None => return None,
    };
    let (first, mut p) = match literal(s, p) {
        Some(x) => x,
        None => return None,
    };
    let mut items: Vec<Literal> = Vec::new();
    let ghost first_m = first@;
    let ghost e0 = p as int;
    items.push(first);
    loop
        invariant
            pos < p <= s@.len(),
            items@.len() >= 1,
            lits_model(items@)[0] == first_m,
            literal_s(s@, pos + 1) == Some((first_m, e0)),
            e0 <= p,
            lit_tail(s@, e0).0 == lits_model(items@).drop_first() + lit_tail(s@, p as int).0,
            lit_tail(s@, e0).1 == lit_tail(s@, p as int).1,
        ensures
            pos < p <= s@.len(),
            items@.len() >= 1,
            lits_model(items@)[0] == first_m,
            literal_s(s@, pos + 1) == Some((first_m, e0)),
            lit_tail(s@, e0).0 == lits_model(items@).drop_first(),
            lit_tail(s@, e0).1 == p,
            items@.len() > 0,
        decreases s@.len() - p,
    {
        let q = match separator(s, p, ',') {
            Some(q) => q,
            None => break,
        };
        match literal(s, q) {
            Some((c, e)) => {
                let ghost before = items@;
                let ghost m = c@;
                items.push(c);
                assert(lits_model(items@) =~= lits_model(before).push(m));
                assert(lits_model(items@)[0] == lits_model(before)[0]);
                assert(lits_model(items@).drop_first() =~= lits_model(before).drop_first() + seq![m]);
                p = e;
            },
            None => break,
        }
    }
    assert(lits_model(items@) =~= seq![lits_model(items@)[0]] + lits_model(items@).drop_first());
    match symbol(s, p, ')') {
        Some(e) => Some((items, e)),
        None => None,
    }
}

/// `INSERT INTO name (columns) VALUES (literals) [BODY 'text']`.
pub fn insert_stmt(s: &Vec<char>, pos: usize) -> (r: Option<(InsertStmt, usize)>)
    requires
        pos <= s@.len(),
    ensures
        match r { Some((x, p)) => insert_s(s@, pos as int) == Some((Statement::Insert(x)@, p as int)), None => insert_s(s@, pos as int) is None },
        match r {
            Some((ins, p)) => pos < p <= s@.len() && keyword_at(s@, pos as int, "INSERT"@) && is_word(ins.into@)
                && read_word(s@, pos as int, p as int, ins.into@) && ins.columns@.len() > 0 && ins.values@.len() > 0
                && (forall|i: int| 0 <= i < ins.columns@.len() ==> is_word(#[trigger] ins.columns@[i]@)) && (ins.body matches Some(
                b,
            ) ==> read_string(s@, pos as int, p as int, b@)),
            None => true,
        },
{
    proof {
        reveal(insert_s);
    }
    let p = match keyword_ws(s, pos, "INSERT") {
        Some(p) => p,
        None => return None,
    };
    let p = match keyword_ws(s, p, "INTO") {
        Some(p) => p,
        None => return None,
    };
    let q0 = p;
    let (into, p) = match identifier(s, p) {
        Some(x) => x,
        None => return None,
    };
    assert(word_end(s@, q0 as int, q0 + into@.len()));
    let ghost into_end = p;
    let p = ws0(s, p);
    let (columns, p) = match paren_identifiers(s, p) {
        Some(x) => x,
        None => return None,
    };
    let p = match ws1(s, p) {
        Some(p) => p,
        None => return None,
    };
    let p = match keyword(s, p, "VALUES") {
        Some(p) => p,
        None => return None,
    };
    let p = ws0(s, p);
    let (values, mut p) = match paren_literals(s, p) {
        Some(x) => x,
        None => return None,
    };
    let mut body: Option<String> = None;
    if let Some(q) = spaced_keyword(s, p, "BODY") {
        if let Some((t, e)) = string_literal(s, q) {
            assert(string_at(s@, q as int) == Some((t@, e as int)));
            body = Some(t);
            p = e;
        }
    }
    assert(read_word(s@, pos as int, p as int, into@)) by {
        assert(word_end(s@, q0 as int, q0 + into@.len()));
    }
    Some((InsertStmt { into, columns, values, body }, p))
}

/// `column = expr` of an `UPDATE`.
fn set_clause(s: &Vec<char>, pos: usize) -> (r: Option<(SetClause, usize)>)
    requires
        pos <= s@.len(),
    ensures
        match r { Some((x, p)) => set_clause_s(s@, pos as int) == Some(((x.column@, x.value@), p as int)), None => set_clause_s(s@, pos as int) is None },
        match r {
            Some((_, p)) => pos < p <= s@.len(),
            None => true,
        },
{
    let (column, p) = match identifier(s, pos) {
        Some(x) => x,
        None => return None,
    };
    let p = ws0(s, p);
    let p = match symbol(s, p, '=') {
        Some(p) => p,
        None => return None,
    };
    let p = ws0(s, p);
    match expr(s, p) {
        Some((value, p)) => Some((SetClause { column, value }, p)),
        None => None,
    }
}

/// `UPDATE name SET column = expr, ... [WHERE expr]`.
#[verifier::rlimit(80)]
/// `SET` clauses separated by commas, at least one.
fn set_list(s: &Vec<char>, pos: usize) -> (r: Option<(Vec<SetClause>, usize)>)
    requires
        pos <= s@.len(),
    ensures
        match r {
            Some((x, p)) => set_list_s(s@, pos as int) == Some((sets_model(x@), p as int)) && pos < p <= s@.len()
                && x@.len() > 0,
            None => set_list_s(s@, pos as int) is None,
        },
{
    let p = pos;
    let ghost q_first = p as int;
    let (first, mut p) = match set_clause(s, p) {
        Some(x) => x,
        None => return None,
    };
    let mut set: Vec<SetClause> = Vec::new();
    let ghost first_m = (first.column@, first.value@);
    let ghost e0 = p as int;
    set.push(first);
    loop
        invariant
            pos < p <= s@.len(),
            set@.len() >= 1,
            sets_model(set@)[0] == first_m,
            set_clause_s(s@, q_first) == Some((first_m, e0)),
            e0 <= p,
            set_tail(s@, e0).0 == sets_model(set@).drop_first() + set_tail(s@, p as int).0,
            set_tail(s@, e0).1 == set_tail(s@, p as int).1,
        ensures
            pos < p <= s@.len(),
            set@.len() >= 1,
            sets_model(set@)[0] == first_m,
            set_clause_s(s@, q_first) == Some((first_m, e0)),
            set_tail(s@, e0).0 == sets_model(set@).drop_first(),
            set_tail(s@, e0).1 == p,
            set@.len() > 0,
        decreases s@.len() - p,
    {
        let q = match separator(s, p, ',') {
            Some(q) => q,
            None => break,
        };
        match set_clause(s, q) {
            Some((c, e)) => {
                let ghost before = set@;
                let ghost m = (c.column@, c.value@);
                set.push(c);
                assert(sets_model(set@) =~= sets_model(before).push(m));
                assert(sets_model(set@)[0] == sets_model(before)[0]);
                assert(sets_model(set@).drop_first() =~= sets_model(before).drop_first() + seq![m]);
                p = e;
            },
            None => break,
        }
    }
    assert(sets_model(set@) =~= seq![sets_model(set@)[0]] + sets_model(set@).drop_first());
    Some((set, p))
}

pub fn update_stmt(s: &Vec<char>, pos: usize) -> (r: Option<(UpdateStmt, usize)>)
    requires
        pos <= s@.len(),
    ensures
        match r { Some((x, p)) => update_s(s@, pos as int) == Some((Statement::Update(x)@, p as int)), None => update_s(s@, pos as int) is None },
        match r {
            Some((u, p)) => pos < p <= s@.len() && keyword_at(s@, pos as int, "UPDATE"@) && u.set@.len() > 0 && is_word(
                u.collection@,
            ),
            None => true,
        },
{
    proof {
        reveal(update_s);
    }
    let p = match keyword_ws(s, pos, "UPDATE") {
        Some(p) => p,
        None => return None,
    };
    let (collection, p) = match identifier(s, p) {
        Some(x) => x,
        None => return None,
    };
    let p = match spaced_keyword(s, p, "SET") {
        Some(p) => p,
        None => return None,
    };
    let (set, p) = match set_list(s, p) {
        Some(x) => x,
        None => return None,
    };
    let (where_clause, p) = opt_where(s, p);
    let u = UpdateStmt { collection, set, where_clause };
    assert(Statement::Update(u)@->Update_set =~= sets_model(u.set@));
    Some((u, p))
}

/// `DELETE FROM name [WHERE expr]`.
pub fn delete_stmt(s: &Vec<char>, pos: usize) -> (r: Option<(DeleteStmt, usize)>)
    requires
        pos <= s@.len(),
    ensures
        match r { Some((x, p)) => delete_s(s@, pos as int) == Some((Statement::Delete(x)@, p as int)), None => delete_s(s@, pos as int) is None },
        match r {
            Some((d, p)) => pos < p <= s@.len() && keyword_at(s@, pos as int, "DELETE"@) && is_word(d.from@),
            None => true,
        },
{
    proof {
        reveal(delete_s);
    }
    let p = match keyword_ws(s, pos, "DELETE") {
        Some(p) => p,
        None => return None,
    };
    let p = match keyword_ws(s, p, "FROM") {
        Some(p) => p,
        None => return None,
    };
    let (from, p) = match identifier(s, p) {
        Some(x) => x,
        None => return None,
    };
    let (where_clause, p) = opt_where(s, p);
    Some((DeleteStmt { from, where_clause }, p))
}

/// A column type: `STRING`, `INT`, `FLOAT`, `BOOL`, `DATE`, `DATETIME`,
/// `OBJECT`, `ARRAY<type>` or `REF<collection>`, tried in that order.
fn data_type(s: &Vec<char>, pos: usize) -> (r: Option<(DataType, usize)>)
    requires
        pos <= s@.len(),
    ensures
        match r { Some((x, p)) => data_type_s(s@, pos as int) == Some((datatype_model(x), p as int)), None => data_type_s(s@, pos as int) is None },
        match r {
            Some((_, p)) => pos < p <= s@.len(),
            None => true,
        },
    decreases s@.len() - pos,
{
    if let Some(p) = keyword(s, pos, "STRING") {
        proof { reveal_strlit("STRING"); }
        return Some((DataType::String, p));
    }
    if let Some(p) = keyword(s, pos, "INT") {
        proof { reveal_strlit("INT"); }
        return Some((DataType::Int, p));
    }
    if let Some(p) = keyword(s, pos, "FLOAT") {
        proof { reveal_strlit("FLOAT"); }
        return Some((DataType::Float, p));
    }
    if let Some(p) = keyword(s, pos, "BOOL") {
        proof { reveal_strlit("BOOL"); }
        return Some((DataType::Bool, p));
    }
    if let Some(p) = keyword(s, pos, "DATE") {
        proof { reveal_strlit("DATE"); }
        return Some((DataType::Date, p));
    }
    if let Some(p) = keyword(s, pos, "DATETIME") {
        proof { reveal_strlit("DATETIME"); }
        return Some((DataType::DateTime, p));
    }
    if let Some(p) = keyword(s, pos, "OBJECT") {
        proof { reveal_strlit("OBJECT"); }
        return Some((DataType::Object, p));
    }
    if let Some(p) = keyword(s, pos, "ARRAY") {
        proof { reveal_strlit("ARRAY"); }
        let p = ws0(s, p);
        if let Some(p) = symbol(s, p, '<') {
            if let Some((inner, p)) = data_type(s, p) {
                if let Some(p) = symbol(s, p, '>') {
                    return Some((DataType::Array(Box::new(inner)), p));
                }
            }
        }
    }
    if let Some(p) = keyword(s, pos, "REF") {
        proof { reveal_strlit("REF"); }
        let p = ws0(s, p);
        if let Some(p) = symbol(s, p, '<') {
            if let Some((name, p)) = identifier(s, p) {
                if let Some(p) = symbol(s, p, '>') {
                    return Some((DataType::Ref(name), p));
                }
            }
        }
    }
    None
}

/// A column constraint: `REQUIRED`, `UNIQUE`, `INDEXED` or `DEFAULT literal`.
fn constraint(s: &Vec<char>, pos: usize) -> (r: Option<(Constraint, usize)>)
    requires
        pos <= s@.len(),
    ensures
        match r { Some((x, p)) => constraint_s(s@, pos as int) == Some((constraint_model(x), p as int)), None => constraint_s(s@, pos as int) is None },
        match r {
            Some((_, p)) => pos < p <= s@.len(),
            None => true,
        },
{
    if let Some(p) = keyword(s, pos, "REQUIRED") {
        proof { reveal_strlit("REQUIRED"); }
        return Some((Constraint::Required, p));
    }
    if let Some(p) = keyword(s, pos, "UNIQUE") {
        proof { reveal_strlit("UNIQUE"); }
        return Some((Constraint::Unique, p));
    }
    if let Some(p) = keyword(s, pos, "INDEXED") {
        proof { reveal_strlit("INDEXED"); }
        return Some((Constraint::Indexed, p));
    }
    if let Some(p) = keyword_ws(s, pos, "DEFAULT") {
        if let Some((l, q)) = literal(s, p) {
            return Some((Constraint::Default(l), q));
        }
    }
    None
}

/// `name type constraint*`.
fn column_def(s: &Vec<char>, pos: usize) -> (r: Option<(ColumnDef, usize)>)
    requires
        pos <= s@.len(),
    ensures
        match r { Some((x, p)) => column_def_s(s@, pos as int) == Some((column_def_model(x), p as int)), None => column_def_s(s@, pos as int) is None },
        match r {
            Some((_, p)) => pos < p <= s@.len(),
            None => true,
        },
{
    let (name, p) = match identifier(s, pos) {
        Some(x) => x,
        None => return None,
    };
    let p = match ws1(s, p) {
        Some(p) => p,
        None => return None,
    };
    let (data_type, mut p) = match data_type(s, p) {
        Some(x) => x,
        None => return None,
    };
    let mut constraints: Vec<Constraint> = Vec::new();
    let ghost e0 = p as int;
    loop
        invariant
            pos < p <= s@.len(),
            e0 <= p,
            cons_tail(s@, e0).0 == cons_model(constraints@) + cons_tail(s@, p as int).0,
            cons_tail(s@, e0).1 == cons_tail(s@, p as int).1,
        ensures
            pos < p <= s@.len(),
            cons_tail(s@, e0).0 == cons_model(constraints@),
            cons_tail(s@, e0).1 == p,
        decreases s@.len() - p,
    {
        let q = match ws1(s, p) {
            Some(q) => q,
            None => break,
        };
        match constraint(s, q) {
            Some((c, e)) => {
                let ghost before = constraints@;
                let ghost m = constraint_model(c);
                constraints.push(c);
                assert(cons_model(constraints@) =~= cons_model(before).push(m));
                assert(cons_model(before) + (seq![m] + cons_tail(s@, e as int).0) =~= cons_model(constraints@) + cons_tail(s@, e as int).0);
                p = e;
            },
            None => break,
        }
    }
    assert(cons_model(Seq::<Constraint>::empty()) =~= Seq::<ConstraintM>::empty());
    let d = ColumnDef { name, data_type, constraints };
    assert(column_def_model(d).2 =~= cons_model(d.constraints@));
    Some((d, p))
}

/// `( column_def, ... )`, possibly empty.
fn column_defs(s: &Vec<char>, pos: usize) -> (r: Option<(Vec<ColumnDef>, usize)>)
    requires
        pos <= s@.len(),
    ensures
        match r {
            Some((x, p)) => column_defs_s(s@, pos as int) == Some((defs_model(x@), p as int)),
            None => column_defs_s(s@, pos as int) is None,
        },
        match r {
            Some((_, p)) => pos < p <= s@.len(),
            None => true,
        },
{
    let mut p = match symbol(s, pos, '(') {
        Some(p) => p,
        None => return None,
    };
    let ghost q0 = p as int;
    let mut defs: Vec<ColumnDef> = Vec::new();
    if let Some((first, q)) = column_def(s, p) {
        let ghost first_m = column_def_model(first);
        defs.push(first);
        p = q;
        let ghost e0 = p as int;
        loop
            invariant
                pos < p <= s@.len(),
                q0 < e0 <= p,
                defs@.len() >= 1,
                defs_model(defs@)[0] == first_m,
                column_def_s(s@, q0) == Some((first_m, e0)),
                coldef_tail(s@, e0).0 == defs_model(defs@).drop_first() + coldef_tail(s@, p as int).0,
                coldef_tail(s@, e0).1 == coldef_tail(s@, p as int).1,
            ensures
                pos < p <= s@.len(),
                defs@.len() >= 1,
                defs_model(defs@)[0] == first_m,
                column_def_s(s@, q0) == Some((first_m, e0)),
                coldef_tail(s@, e0).0 == defs_model(defs@).drop_first(),
                coldef_tail(s@, e0).1 == p,
            decreases s@.len() - p,
        {
            let q = match separator(s, p, ',') {
                Some(q) => q,
                None => break,
            };
            match column_def(s, q) {
                Some((c, e)) => {
                    let ghost before = defs@;
                    let ghost m = column_def_model(c);
                    defs.push(c);
                    assert(defs_model(defs@) =~= defs_model(before).push(m));
                    assert(defs_model(defs@)[0] == defs_model(before)[0]);
                    assert(defs_model(defs@).drop_first() =~= defs_model(before).drop_first() + seq![m]);
                    p = e;
                },
                None => break,
            }
        }
        assert(defs_model(defs@) =~= seq![defs_model(defs@)[0]] + defs_model(defs@).drop_first());
        assert(column_defs_s(s@, pos as int) == match symbol_s(s@, p as int, ')') {
            Some(f) => Some((defs_model(defs@), f)),
            None => None::<(Seq<(Seq<char>, DataTypeM, Seq<ConstraintM>)>, int)>,
        });
    } else {
        assert(defs_model(defs@) =~= Seq::<(Seq<char>, DataTypeM, Seq<ConstraintM>)>::empty());
        assert(column_defs_s(s@, pos as int) == match symbol_s(s@, p as int, ')') {
            Some(f) => Some((defs_model(defs@), f)),
            None => None::<(Seq<(Seq<char>, DataTypeM, Seq<ConstraintM>)>, int)>,
        });
    }
    match symbol(s, p, ')') {
        Some(e) => Some((defs, e)),
        None => None,
    }
}

/// `IF NOT EXISTS ` when it is there.
fn opt_if_not_exists(s: &Vec<char>, pos: usize) -> (r: (bool, usize))
    requires
        pos <= s@.len(),
    ensures
        (r.0, r.1 as int) == ifne_s(s@, pos as int),
        pos <= r.1 <= s@.len(),
{
    if let Some(p) = keyword_ws(s, pos, "IF") {
        if let Some(p) = keyword_ws(s, p, "NOT") {
            if let Some(p) = keyword_ws(s, p, "EXISTS") {
                return (true, p);
            }
        }
    }
    (false, pos)
}

/// `CREATE [IF NOT EXISTS] COLLECTION name [(column defs)]`.
pub fn create_collection_stmt(s: &Vec<char>, pos: usize) -> (r: Option<(CreateCollectionStmt, usize)>)
    requires
        pos <= s@.len(),
    ensures
        match r { Some((x, p)) => create_collection_s(s@, pos as int) == Some((Statement::CreateCollection(x)@, p as int)), None => create_collection_s(s@, pos as int) is None },
        match r {
            Some((c, p)) => pos < p <= s@.len() && keyword_at(s@, pos as int, "CREATE"@) && is_word(c.name@),
            None => true,
        },
{
    proof {
        reveal(create_collection_s);
    }
    let p = match keyword_ws(s, pos, "CREATE") {
        Some(p) => p,
        None => return None,
    };
    let (if_not_exists, p) = opt_if_not_exists(s, p);
    let p = match keyword_ws(s, p, "COLLECTION") {
        Some(p) => p,
        None => return None,
    };
    let (name, p) = match identifier(s, p) {
        Some(x) => x,
        None => return None,
    };
    let q = ws0(s, p);
    match column_defs(s, q) {
        Some((columns, e)) => {
            let c = CreateCollectionStmt { name, columns, if_not_exists };
            assert(Statement::CreateCollection(c)@->CreateCollection_columns =~= defs_model(c.columns@));
            Some((c, e))
        },
        None => {
            let c = CreateCollectionStmt { name, columns: Vec::new(), if_not_exists };
            assert(Statement::CreateCollection(c)@->CreateCollection_columns =~= Seq::<(Seq<char>, DataTypeM, Seq<ConstraintM>)>::empty());
            Some((c, q))
        },
    }
}

/// `CREATE [IF NOT EXISTS] VIEW name AS select [TEMPLATE 'name']`.
#[verifier::rlimit(80)]
pub fn create_view_stmt(s: &Vec<char>, pos: usize) -> (r: Option<(CreateViewStmt, usize)>)
    requires
        pos <= s@.len(),
    ensures
        match r { Some((x, p)) => create_view_s(s@, pos as int) == Some((Statement::CreateView(x)@, p as int)), None => create_view_s(s@, pos as int) is None },
        match r {
            Some((v, p)) => pos < p <= s@.len() && keyword_at(s@, pos as int, "CREATE"@) && is_word(v.name@) && is_word(
                v.query.from@,
            ) && read_word(s@, pos as int, p as int, v.name@) && (v.template matches Some(t) ==> read_string(
                s@,
                pos as int,
                p as int,
                t@,
            )),
            None => true,
        },
{
    proof {
        reveal(create_view_s);
    }
    let p = match keyword_ws(s, pos, "CREATE") {
        Some(p) => p,
        None => return None,
    };
    let (if_not_exists, p) = opt_if_not_exists(s, p);
    let p = match keyword_ws(s, p, "VIEW") {
        Some(p) => p,
        None => return None,
    };
    let q0 = p;
    let (name, p) = match identifier(s, p) {
        Some(x) => x,
        None => return None,
    };
    assert(word_end(s@, q0 as int, q0 + name@.len()));
    let p = match spaced_keyword(s, p, "AS") {
        Some(p) => p,
        None => return None,
    };
    let (query, mut p) = match select_stmt(s, p) {
        Some(x) => x,
        None => return None,
    };
    let mut template: Option<String> = None;
    if let Some(q) = spaced_keyword(s, p, "TEMPLATE") {
        if let Some((t, e)) = string_literal(s, q) {
            assert(string_at(s@, q as int) == Some((t@, e as int)));
            template = Some(t);
            p = e;
        }
    }
    assert(read_word(s@, pos as int, p as int, name@)) by {
        assert(word_end(s@, q0 as int, q0 + name@.len()));
    }
    Some((CreateViewStmt { name, query: Box::new(query), template, if_not_exists }, p))
}

/// `DROP kind name`, for kind `COLLECTION` or `VIEW`.
fn drop_stmt(s: &Vec<char>, pos: usize, kind: &str) -> (r: Option<(String, usize)>)
    requires
        pos <= s@.len(),
    ensures
        match r { Some((x, p)) => drop_s(s@, pos as int, kind@) == Some((x@, p as int)), None => drop_s(s@, pos as int, kind@) is None },
        match r {
            Some((n, p)) => pos < p <= s@.len() && keyword_at(s@, pos as int, "DROP"@) && is_word(n@),
            None => true,
        },
{
    let p = match keyword_ws(s, pos, "DROP") {
        Some(p) => p,
        None => return None,
    };
    let p = match keyword_ws(s, p, kind) {
        Some(p) => p,
        None => return None,
    };
    identifier(s, p)
}

/// The keyword a statement starts with.
pub open spec fn leading_keyword(st: Statement) -> Seq<char> {
    match st {
        Statement::Select(_) => "SELECT"@,
        Statement::Insert(_) => "INSERT"@,
        Statement::Update(_) => "UPDATE"@,
        Statement::Delete(_) => "DELETE"@,
        Statement::CreateCollection(_) => "CREATE"@,
        Statement::CreateView(_) => "CREATE"@,
        Statement::DropCollection(_) => "DROP"@,
        Statement::DropView(_) => "DROP"@,
    }
}

/// The name a statement targets (collection, view).
pub open spec fn target_name(st: Statement) -> Seq<char> {
    match st {
        Statement::Select(x) => x.from@,
        Statement::Insert(x) => x.into@,
        Statement::Update(x) => x.collection@,
        Statement::Delete(x) => x.from@,
        Statement::CreateCollection(x) => x.name@,
        Statement::CreateView(x) => x.name@,
        Statement::DropCollection(n) => n@,
        Statement::DropView(n) => n@,
    }
}

/// One statement, the forms tried in a fixed order. What is read starts with
/// the statement's keyword, and the name it targets is an identifier.
pub fn statement(s: &Vec<char>, pos: usize) -> (r: Option<(Statement, usize)>)
    requires
        pos <= s@.len(),
    ensures
        match r { Some((x, p)) => statement_s(s@, pos as int) == Some((x@, p as int)), None => statement_s(s@, pos as int) is None },
        match r {
            Some((st, p)) => pos < p <= s@.len() && keyword_at(s@, pos as int, leading_keyword(st)) && is_word(
                target_name(st),
            ),
            None => true,
        },
{
    if let Some((x, p)) = select_stmt(s, pos) {
        return Some((Statement::Select(x), p));
    }
    if let Some((x, p)) = insert_stmt(s, pos) {
        return Some((Statement::Insert(x), p));
    }
    if let Some((x, p)) = update_stmt(s, pos) {
        return Some((Statement::Update(x), p));
    }
    if let Some((x, p)) = delete_stmt(s, pos) {
        return Some((Statement::Delete(x), p));
    }
    if let Some((x, p)) = create_collection_stmt(s, pos) {
        return Some((Statement::CreateCollection(x), p));
    }
    if let Some((x, p)) = create_view_stmt(s, pos) {
        return Some((Statement::CreateView(x), p));
    }
    if let Some((x, p)) = drop_stmt(s, pos, "COLLECTION") {
        return Some((Statement::DropCollection(x), p));
    }
    if let Some((x, p)) = drop_stmt(s, pos, "VIEW") {
        return Some((Statement::DropView(x), p));
    }
    None
}

} // verus!

verus! {

/// An error found while parsing.
#[derive(Debug, Clone)]
pub struct ParseError {
    pub message: String,
    pub position: Option<usize>,
    pub line: Option<usize>,
    pub column: Option<usize>,
}

impl ParseError {
    /// An error with `message` and no location.
    pub fn new(message: String) -> (r: ParseError)
        ensures
            r.message == message,
            r.position.is_none(),
            r.line.is_none(),
            r.column.is_none(),
    {
        ParseError { message, position: None, line: None, column: None }
    }

    /// This error located at character offset `pos`.
    pub fn with_position(self, pos: usize) -> (r: ParseError)
        ensures
            r.message == self.message,
            r.position == Some(pos),
            r.line == self.line,
            r.column == self.column,
    {
        let mut e = self;
        e.position = Some(pos);
        e
    }

    /// This error located at `line` and `column`.
    pub fn with_location(self, line: usize, column: usize) -> (r: ParseError)
        ensures
            r.message == self.message,
            r.position == self.position,
            r.line == Some(line),
            r.column == Some(column),
    {
        let mut e = self;
        e.line = Some(line);
        e.column = Some(column);
        e
    }

    /// The message as it is shown: `Parse error: <message>`, then the line and
    /// column when both are known, else the position when it is.
    pub fn to_text(&self) -> (r: String)
        ensures
            r@ == "Parse error: "@ + self.message@ + match (self.line, self.column) {
                (Some(l), Some(c)) => " at line "@ + crate::text::nat_text(l as nat) + ", column "@ + crate::text::nat_text(
                    c as nat,
                ),
                _ => match self.position {
                    Some(p) => " at position "@ + crate::text::nat_text(p as nat),
                    None => Seq::empty(),
                },
            },
    {
        let mut r = String::new();
        crate::text::push_text(&mut r, "Parse error: ");
        crate::text::push_text(&mut r, self.message.as_str());
        match (self.line, self.column) {
            (Some(line), Some(col)) => {
                crate::text::push_text(&mut r, " at line ");
                crate::text::push_nat_text(&mut r, line as u128);
                crate::text::push_text(&mut r, ", column ");
                crate::text::push_nat_text(&mut r, col as u128);
            },
            _ => match self.position {
                Some(pos) => {
                    crate::text::push_text(&mut r, " at position ");
                    crate::text::push_nat_text(&mut r, pos as u128);
                },
                None => {},
            },
        }
        assert(r@ =~= "Parse error: "@ + self.message@ + match (self.line, self.column) {
            (Some(l), Some(c)) => " at line "@ + crate::text::nat_text(l as nat) + ", column "@ + crate::text::nat_text(
                c as nat,
            ),
            _ => match self.position {
                Some(p) => " at position "@ + crate::text::nat_text(p as nat),
                None => Seq::empty(),
            },
        });
        r
    }
}

/// A whitespace character in Unicode's sense (`char::is_whitespace`).
pub open spec fn is_space(c: char) -> bool {
    ||| ('\u{9}' <= c && c <= '\u{d}')
    ||| c == ' '
    ||| c == '\u{85}'
    ||| c == '\u{a0}'
    ||| c == '\u{1680}'
    ||| ('\u{2000}' <= c && c <= '\u{200a}')
    ||| c == '\u{2028}'
    ||| c == '\u{2029}'
    ||| c == '\u{202f}'
    ||| c == '\u{205f}'
    ||| c == '\u{3000}'
}

pub fn is_space_exec(c: char) -> (r: bool)
    ensures
        r == is_space(c),
{
    ('\u{9}' <= c && c <= '\u{d}') || c == ' ' || c == '\u{85}' || c == '\u{a0}' || c == '\u{1680}'
        || ('\u{2000}' <= c && c <= '\u{200a}') || c == '\u{2028}' || c == '\u{2029}' || c == '\u{202f}'
        || c == '\u{205f}' || c == '\u{3000}'
}

/// `s[from..to]` holds only Unicode whitespace.
pub open spec fn all_space(s: Seq<char>, from: int, to: int) -> bool {
    forall|i: int| from <= i < to ==> is_space(#[trigger] s[i])
}

/// `s[a2..b2]` is `s[a..b]` trimmed of whitespace at both ends.
pub open spec fn is_trim(s: Seq<char>, a: int, b: int, a2: int, b2: int) -> bool {
    &&& a <= a2 <= b2 <= b
    &&& all_space(s, a, a2)
    &&& all_space(s, b2, b)
    &&& (a2 == b2 || (!is_space(s[a2]) && !is_space(s[b2 - 1])))
}

/// What follows a statement in `s[p..e]` is acceptable: only whitespace and `;`.
pub open spec fn rest_ok(s: Seq<char>, p: int, e: int) -> bool {
    forall|i: int| p <= i < e ==> (is_space(#[trigger] s[i]) || s[i] == ';')
}

/// Where the whitespace at the start of `s[a..b]` ends.
pub open spec fn lead_end(s: Seq<char>, a: int, b: int) -> int
    decreases b - a,
{
    if a < b && is_space(s[a]) { lead_end(s, a + 1, b) } else { a }
}

/// Where the whitespace at the end of `s[x..y]` starts.
pub open spec fn trail_start(s: Seq<char>, x: int, y: int) -> int
    decreases y - x,
{
    if y > x && is_space(s[y - 1]) { trail_start(s, x, y - 1) } else { y }
}

/// The text of `input` without surrounding whitespace.
pub open spec fn trimmed(input: Seq<char>) -> Seq<char> {
    let a = lead_end(input, 0, input.len() as int);
    input.subrange(a, trail_start(input, a, input.len() as int))
}

/// The statement `input` holds: one statement of the grammar, with
/// surrounding whitespace and trailing `;` allowed, and nothing else.
pub open spec fn parsed(input: Seq<char>) -> Option<StatementM> {
    let t = trimmed(input);
    match statement_s(t, 0) {
        Some((st, p)) => if rest_ok(t, p, t.len() as int) { Some(st) } else { None },
        None => None,
    }
}

/// Where the next statement starts: after any mix of whitespace and `;`
/// (so empty statements between separators are skipped).
pub open spec fn next_start(t: Seq<char>, p: int) -> int {
    run_end(t, p, |c: char| is_space(c) || c == ';')
}

/// The statements of `t` from `p` on; `None` when one does not parse.
pub open spec fn statements_from(t: Seq<char>, p: int) -> Option<Seq<StatementM>>
    decreases t.len() - p,
{
    if p >= t.len() || next_start(t, p) >= t.len() {
        Some(Seq::empty())
    } else {
        match statement_s(t, next_start(t, p)) {
            Some((st, e)) => if e <= p || e > t.len() {
                None
            } else {
                match statements_from(t, e) {
                    Some(rest) => Some(seq![st] + rest),
                    None => None,
                }
            },
            None => None,
        }
    }
}

/// The `;`-separated statements `input` holds.
pub open spec fn parsed_all(input: Seq<char>) -> Option<Seq<StatementM>> {
    statements_from(trimmed(input), 0)
}

/// Models of statements.
pub open spec fn stmts_model(v: Seq<Statement>) -> Seq<StatementM> {
    Seq::new(v.len(), |i: int| v[i]@)
}

/// Trims whitespace off both ends of `s[a..b]`.
pub fn trim_range(s: &Vec<char>, a: usize, b: usize) -> (r: (usize, usize))
    requires
        a <= b <= s@.len(),
    ensures
        is_trim(s@, a as int, b as int, r.0 as int, r.1 as int),
        r.0 == lead_end(s@, a as int, b as int),
        r.1 == trail_start(s@, r.0 as int, b as int),
{
    let mut x = a;
    while x < b && is_space_exec(s[x])
        invariant
            a <= x <= b <= s@.len(),
            all_space(s@, a as int, x as int),
            lead_end(s@, a as int, b as int) == lead_end(s@, x as int, b as int),
        decreases b - x,
    {
        x = x + 1;
    }
    let mut y = b;
    while y > x && is_space_exec(s[y - 1])
        invariant
            a <= x <= y <= b <= s@.len(),
            all_space(s@, y as int, b as int),
            x < b ==> !is_space(s@[x as int]),
            trail_start(s@, x as int, b as int) == trail_start(s@, x as int, y as int),
        decreases y,
    {
        y = y - 1;
    }
    (x, y)
}

/// The characters `s[from..to]` as a vector.
fn slice_chars(s: &Vec<char>, from: usize, to: usize) -> (r: Vec<char>)
    requires
        from <= to <= s@.len(),
    ensures
        r@ == s@.subrange(from as int, to as int),
{
    let mut r: Vec<char> = Vec::new();
    let mut i = from;
    while i < to
        invariant
            from <= i <= to <= s@.len(),
            r@ == s@.subrange(from as int, i as int),
        decreases to - i,
    {
        r.push(s[i]);
        i = i + 1;
        assert(r@ =~= s@.subrange(from as int, i as int));
    }
    r
}

/// `Parse error near: "<up to 20 characters from pos>"`.
fn error_near(s: &Vec<char>, pos: usize) -> (r: ParseError)
    requires
        pos <= s@.len(),
{
    let mut m = String::new();
    crate::text::push_text(&mut m, "Parse error near: \"");
    let end = if s.len() - pos > 20 { pos + 20 } else { s.len() };
    let mut i = pos;
    while i < end
        invariant
            pos <= i <= end <= s@.len(),
        decreases end - i,
    {
        let c = s[i];
        if c == '"' || c == '\\' {
            push_char(&mut m, '\\');
            push_char(&mut m, c);
        } else if c == '\n' {
            crate::text::push_text(&mut m, "\\n");
        } else if c == '\t' {
            crate::text::push_text(&mut m, "\\t");
        } else if c == '\r' {
            crate::text::push_text(&mut m, "\\r");
        } else {
            push_char(&mut m, c);
        }
        i = i + 1;
    }
    push_char(&mut m, '"');
    ParseError::new(m)
}

/// Checks what follows a statement; the error names it when it is not
/// only whitespace and `;`.
fn check_rest(t: &Vec<char>, p: usize) -> (r: Result<(), ParseError>)
    requires
        p <= t@.len(),
    ensures
        r is Ok == rest_ok(t@, p as int, t@.len() as int),
{
    let n = t.len();
    let mut i = p;
    while i < n && (is_space_exec(t[i]) || t[i] == ';')
        invariant
            p <= i <= n == t@.len(),
            forall|k: int| p <= k < i ==> (is_space(#[trigger] t@[k]) || t@[k] == ';'),
        decreases n - i,
    {
        i = i + 1;
    }
    if i == n {
        Ok(())
    } else {
        assert(!(is_space(t@[i as int]) || t@[i as int] == ';'));
        let (lo, hi) = trim_range(t, p, n);
        let rest = slice_chars(t, lo, hi);
        let mut m = String::new();
        crate::text::push_text(&mut m, "Unexpected trailing content: ");
        let rs = string_of(&rest, 0, rest.len());
        crate::text::push_text(&mut m, rs.as_str());
        Err(ParseError::new(m))
    }
}

/// Parses exactly one statement. Surrounding whitespace is ignored, and so
/// are `;` at the end; anything else after the statement is an error.
pub fn parse_statement(input: &str) -> (r: Result<Statement, ParseError>)
    ensures
        match r {
            Ok(st) => parsed(input@) == Some(st@),
            Err(_) => parsed(input@) is None,
        },
        r is Ok ==> exists|a: int, b: int, p: int|
            #![trigger is_trim(input@, 0, input@.len() as int, a, b), rest_ok(input@, p, b)]
            is_trim(input@, 0, input@.len() as int, a, b) && a < p <= b && rest_ok(input@, p, b) && keyword_at(
                input@,
                a,
                leading_keyword(r->Ok_0),
            ) && is_word(target_name(r->Ok_0)),
{
    let s = chars_of(input);
    let (a, b) = trim_range(&s, 0, s.len());
    let t = slice_chars(&s, a, b);
    assert(t@ == trimmed(input@));
    match statement(&t, 0) {
        Some((stmt, p)) => {
            match check_rest(&t, p) {
                Ok(()) => {
                    proof {
                        lemma_rest_shift(s@, a as int, b as int, p as int);
                        let kw = leading_keyword(stmt);
                        assert forall|i: int| 0 <= i < kw.len() implies lower_ascii(#[trigger] s@[a + i]) == lower_ascii(kw[i]) by {
                            assert(t@[0 + i] == s@[a + i]);
                        }
                    }
                    Ok(stmt)
                },
                Err(e) => Err(e),
            }
        },
        None => Err(error_near(&t, 0)),
    }
}

proof fn lemma_rest_shift(s: Seq<char>, a: int, b: int, p: int)
    requires
        0 <= a <= b <= s.len(),
        0 <= p <= b - a,
        rest_ok(s.subrange(a, b), p, b - a),
    ensures
        rest_ok(s, a + p, b),
{
    let t = s.subrange(a, b);
    assert forall|i: int| a + p <= i < b implies (is_space(#[trigger] s[i]) || s[i] == ';') by {
        assert(s[i] == t[i - a]);
    }
}

/// Parses `;`-separated statements; empty statements between separators are
/// skipped, and the first statement that does not parse fails the whole text.
pub fn parse_statements(input: &str) -> (r: Result<Vec<Statement>, ParseError>)
    ensures
        match r {
            Ok(v) => parsed_all(input@) == Some(stmts_model(v@)),
            Err(_) => parsed_all(input@) is None,
        },
        r matches Ok(v) ==> forall|i: int| 0 <= i < v@.len() ==> is_word(#[trigger] target_name(v@[i])),
{
    let s = chars_of(input);
    let (a, b) = trim_range(&s, 0, s.len());
    let t = slice_chars(&s, a, b);
    assert(t@ == trimmed(input@));
    let n = t.len();
    let mut statements: Vec<Statement> = Vec::new();
    let mut p: usize = 0;
    assert(stmts_model(statements@) =~= Seq::<StatementM>::empty());
    while p < n
        invariant
            n == t@.len(),
            p <= n,
            t@ == trimmed(input@),
            forall|i: int| 0 <= i < statements@.len() ==> is_word(#[trigger] target_name(statements@[i])),
            statements_from(t@, 0) == match statements_from(t@, p as int) {
                Some(rest) => Some(stmts_model(statements@) + rest),
                None => None::<Seq<StatementM>>,
            },
        ensures
            forall|i: int| 0 <= i < statements@.len() ==> is_word(#[trigger] target_name(statements@[i])),
            statements_from(t@, 0) == Some(stmts_model(statements@)),
        decreases n - p,
    {
        let mut q = p;
        while q < n && (is_space_exec(t[q]) || t[q] == ';')
            invariant
                p <= q <= n,
                n == t@.len(),
                forall|i: int| p <= i < q ==> (is_space(#[trigger] t@[i]) || t@[i] == ';'),
            decreases n - q,
        {
            q = q + 1;
        }
        proof {
            lemma_run_end(t@, p as int, q as int, |c: char| is_space(c) || c == ';');
        }
        assert(q == next_start(t@, p as int));
        if q >= n {
            assert(stmts_model(statements@) + Seq::<StatementM>::empty() =~= stmts_model(statements@));
            break;
        }
        match statement(&t, q) {
            Some((stmt, e)) => {
                let ghost before = statements@;
                let ghost m = stmt@;
                statements.push(stmt);
                assert(stmts_model(statements@) =~= stmts_model(before).push(m));
                proof {
                    match statements_from(t@, e as int) {
                        Some(rest) => {
                            assert(stmts_model(before) + (seq![m] + rest) =~= stmts_model(statements@) + rest);
                        },
                        None => {},
                    }
                }
                p = e;
            },
            None => return Err(error_near(&t, q)),
        }
    }
    Ok(statements)
}

} // verus!

verus! {

/// Parses one statement (see [`parse_statement`]).
pub fn parse(input: &str) -> (r: Result<Statement, ParseError>)
    ensures
        match r {
            Ok(st) => parsed(input@) == Some(st@),
            Err(_) => parsed(input@) is None,
        },
        r is Ok ==> exists|a: int, b: int, p: int|
            #![trigger is_trim(input@, 0, input@.len() as int, a, b), rest_ok(input@, p, b)]
            is_trim(input@, 0, input@.len() as int, a, b) && a < p <= b && rest_ok(input@, p, b) && keyword_at(
                input@,
                a,
                leading_keyword(r->Ok_0),
            ) && is_word(target_name(r->Ok_0)),
{
    parse_statement(input)
}

/// Parses `;`-separated statements (see [`parse_statements`]).
pub fn parse_multi(input: &str) -> (r: Result<Vec<Statement>, ParseError>)
    ensures
        match r {
            Ok(v) => parsed_all(input@) == Some(stmts_model(v@)),
            Err(_) => parsed_all(input@) is None,
        },
        r matches Ok(v) ==> forall|i: int| 0 <= i < v@.len() ==> is_word(#[trigger] target_name(v@[i])),
{
    parse_statements(input)
}

} // verus!
