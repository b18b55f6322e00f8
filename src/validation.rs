//! Rules for identifiers (collection names, view names, document ids) and
//! template names, which keep them safe to use as file names.
use vstd::prelude::*;
use vstd::string::StringSliceAdditionalSpecFns;
use crate::text::{chars_of, push_char};

verus! {

/// Why an identifier was refused.
#[derive(Debug)]
pub enum ValidationError {
    /// The identifier and the reason it is invalid.
    InvalidIdentifier(String, &'static str),
    /// The identifier and the maximum length.
    TooLong(String, usize),
    Empty,
    Reserved(String),
}

/// Maximum length of an identifier, in bytes.
pub const MAX_IDENTIFIER_LENGTH: usize = 255;

/// Reason given for a character outside the allowed set of an identifier.
pub const REASON_IDENTIFIER_CHARS: &'static str =
    "contains invalid characters (only alphanumeric, underscore, and hyphen allowed)";

/// Reason given for an identifier that starts with `-` or `_`.
pub const REASON_IDENTIFIER_START: &'static str = "cannot start with hyphen or underscore";

/// Reason given for a template name holding `..`, `/` or `\`.
pub const REASON_TEMPLATE_TRAVERSAL: &'static str = "contains path traversal characters";

/// Reason given for a character outside the allowed set of a template name.
pub const REASON_TEMPLATE_CHARS: &'static str =
    "contains invalid characters (only alphanumeric, underscore, hyphen, and dot allowed)";

/// Reason given for a template name that starts with `.`, `-` or `_`.
pub const REASON_TEMPLATE_START: &'static str = "cannot start with dot, hyphen, or underscore";

/// The kinds of fault an identifier or template name can have.
#[derive(Debug, Clone, Copy, PartialEq, Eq, Structural)]
pub enum NameFault {
    Empty,
    TooLong,
    Traversal,
    BadChar,
    BadStart,
    Reserved,
}

/// An ASCII letter or digit.
pub open spec fn is_alnum(c: char) -> bool {
    ('a' <= c && c <= 'z') || ('A' <= c && c <= 'Z') || ('0' <= c && c <= '9')
}

/// A character allowed in an identifier.
pub open spec fn is_ident_char(c: char) -> bool {
    is_alnum(c) || c == '_' || c == '-'
}

/// A character allowed in a template name.
pub open spec fn is_template_char(c: char) -> bool {
    is_ident_char(c) || c == '.'
}

/// ASCII lower case of one character.
pub open spec fn lower_ascii(c: char) -> char {
    if 'A' <= c && c <= 'Z' { (((c as u8) + 32) as u8) as char } else { c }
}

/// ASCII lower case of a sequence.
pub open spec fn lower_ascii_seq(s: Seq<char>) -> Seq<char> {
    Seq::new(s.len(), |i: int| lower_ascii(s[i]))
}

/// The reserved device names (compared in lower case).
pub open spec fn is_reserved(s: Seq<char>) -> bool {
    ||| s == seq!['.']
    ||| s == seq!['.', '.']
    ||| s == seq!['c', 'o', 'n']
    ||| s == seq!['p', 'r', 'n']
    ||| s == seq!['a', 'u', 'x']
    ||| s == seq!['n', 'u', 'l']
    ||| (s.len() == 4 && s[0] == 'c' && s[1] == 'o' && s[2] == 'm' && '1' <= s[3] && s[3] <= '9')
    ||| (s.len() == 4 && s[0] == 'l' && s[1] == 'p' && s[2] == 't' && '1' <= s[3] && s[3] <= '9')
}

/// The length in bytes of the UTF-8 encoding of `s`, as `str::len` gives it.
pub open spec fn utf8_len(s: Seq<char>) -> int {
    vstd::utf8::encode_utf8(s).len() as usize as int
}

/// The first fault of an identifier with characters `s`.
pub open spec fn identifier_fault(s: Seq<char>) -> Option<NameFault> {
    let bytes = utf8_len(s);
    if s.len() == 0 {
        Some(NameFault::Empty)
    } else if bytes > MAX_IDENTIFIER_LENGTH {
        Some(NameFault::TooLong)
    } else if !is_ident_char(s[0]) {
        Some(NameFault::BadChar)
    } else if s[0] == '-' || s[0] == '_' {
        Some(NameFault::BadStart)
    } else if exists|i: int| 0 <= i < s.len() && !is_ident_char(#[trigger] s[i]) {
        Some(NameFault::BadChar)
    } else if is_reserved(lower_ascii_seq(s)) {
        Some(NameFault::Reserved)
    } else {
        None
    }
}

/// The part of `s` before its first `.` (all of it when it has none).
pub open spec fn before_dot(s: Seq<char>) -> Seq<char> {
    if exists|i: int| 0 <= i < s.len() && s[i] == '.' {
        s.subrange(0, choose|i: int| 0 <= i < s.len() && s[i] == '.' && forall|j: int| 0 <= j < i ==> s[j] != '.')
    } else {
        s
    }
}

/// `s` holds `/` or `\` at `i`, or `..` starting at `i`.
pub open spec fn traversal_at(s: Seq<char>, i: int) -> bool {
    0 <= i < s.len() && (s[i] == '/' || s[i] == '\\' || (s[i] == '.' && i + 1 < s.len() && s[i + 1] == '.'))
}

/// `s` holds `..`, `/` or `\`.
pub open spec fn has_traversal(s: Seq<char>) -> bool {
    exists|i: int| traversal_at(s, i)
}

/// The first fault of a template name with characters `s`.
pub open spec fn template_fault(s: Seq<char>) -> Option<NameFault> {
    let bytes = utf8_len(s);
    if s.len() == 0 {
        Some(NameFault::Empty)
    } else if bytes > MAX_IDENTIFIER_LENGTH {
        Some(NameFault::TooLong)
    } else if has_traversal(s) {
        Some(NameFault::Traversal)
    } else if !is_template_char(s[0]) {
        Some(NameFault::BadChar)
    } else if s[0] == '.' || s[0] == '-' || s[0] == '_' {
        Some(NameFault::BadStart)
    } else if exists|i: int| 0 <= i < s.len() && !is_template_char(#[trigger] s[i]) {
        Some(NameFault::BadChar)
    } else if is_reserved(lower_ascii_seq(before_dot(s))) {
        Some(NameFault::Reserved)
    } else {
        None
    }
}

/// `r` reports `fault` for `name`, with the given reasons for bad characters
/// and a bad start.
pub open spec fn reports(
    r: Result<(), ValidationError>,
    name: Seq<char>,
    fault: Option<NameFault>,
    chars_reason: &'static str,
    start_reason: &'static str,
) -> bool {
    match fault {
        None => r is Ok,
        Some(NameFault::Empty) => r == Err::<(), ValidationError>(ValidationError::Empty),
        Some(NameFault::TooLong) => r is Err && r->Err_0 is TooLong && r->Err_0->TooLong_0@ == name
            && r->Err_0->TooLong_1 == MAX_IDENTIFIER_LENGTH,
        Some(NameFault::Traversal) => r is Err && r->Err_0 is InvalidIdentifier
            && r->Err_0->InvalidIdentifier_0@ == name && r->Err_0->InvalidIdentifier_1
            == REASON_TEMPLATE_TRAVERSAL,
        Some(NameFault::BadChar) => r is Err && r->Err_0 is InvalidIdentifier
            && r->Err_0->InvalidIdentifier_0@ == name && r->Err_0->InvalidIdentifier_1 == chars_reason,
        Some(NameFault::BadStart) => r is Err && r->Err_0 is InvalidIdentifier
            && r->Err_0->InvalidIdentifier_0@ == name && r->Err_0->InvalidIdentifier_1 == start_reason,
        Some(NameFault::Reserved) => r is Err && r->Err_0 is Reserved && r->Err_0->Reserved_0@ == name,
    }
}

fn is_alnum_exec(c: char) -> (r: bool)
    ensures
        r == is_alnum(c),
{
    ('a' <= c && c <= 'z') || ('A' <= c && c <= 'Z') || ('0' <= c && c <= '9')
}

fn lower_ascii_exec(c: char) -> (r: char)
    ensures
        r == lower_ascii(c),
{
    if 'A' <= c && c <= 'Z' {
        ((c as u8) + 32) as char
    } else {
        c
    }
}

/// Whether `s[from..to]` is a reserved name, compared in lower case.
fn reserved_range(s: &Vec<char>, from: usize, to: usize) -> (r: bool)
    requires
        from <= to <= s@.len(),
    ensures
        r == is_reserved(lower_ascii_seq(s@.subrange(from as int, to as int))),
{
    let ghost t = lower_ascii_seq(s@.subrange(from as int, to as int));
    let n = to - from;
    let mut low: Vec<char> = Vec::new();
    let mut i: usize = from;
    while i < to
        invariant
            from <= i <= to <= s@.len(),
            low@ =~= lower_ascii_seq(s@.subrange(from as int, i as int)),
        decreases to - i,
    {
        low.push(lower_ascii_exec(s[i]));
        i = i + 1;
    }
    assert(low@ == t);
    let r = if n == 1 {
        low[0] == '.'
    } else if n == 2 {
        low[0] == '.' && low[1] == '.'
    } else if n == 3 {
        (low[0] == 'c' && low[1] == 'o' && low[2] == 'n') || (low[0] == 'p' && low[1] == 'r' && low[2] == 'n')
            || (low[0] == 'a' && low[1] == 'u' && low[2] == 'x') || (low[0] == 'n' && low[1] == 'u' && low[2] == 'l')
    } else if n == 4 {
        ((low[0] == 'c' && low[1] == 'o' && low[2] == 'm') || (low[0] == 'l' && low[1] == 'p' && low[2] == 't'))
            && '1' <= low[3] && low[3] <= '9'
    } else {
        false
    };
    proof {
        if n == 1 {
            assert(r == (t == seq!['.'])) by {
                if r { assert(t =~= seq!['.']); }
            }
        } else if n == 2 {
            assert(r == (t == seq!['.', '.'])) by {
                if r { assert(t =~= seq!['.', '.']); }
            }
        } else if n == 3 {
            if low[0] == 'c' && low[1] == 'o' && low[2] == 'n' { assert(t =~= seq!['c', 'o', 'n']); }
            if low[0] == 'p' && low[1] == 'r' && low[2] == 'n' { assert(t =~= seq!['p', 'r', 'n']); }
            if low[0] == 'a' && low[1] == 'u' && low[2] == 'x' { assert(t =~= seq!['a', 'u', 'x']); }
            if low[0] == 'n' && low[1] == 'u' && low[2] == 'l' { assert(t =~= seq!['n', 'u', 'l']); }
        }
    }
    r
}

/// Checks an identifier against the rules: 1 to 255 bytes, ASCII letters,
/// digits, `_` and `-` only, not starting with `-` or `_`, and not a reserved
/// device name in any case.
fn validate_identifier(name: &str, kind: &'static str) -> (r: Result<(), ValidationError>)
    ensures
        reports(r, name@, identifier_fault(name@), REASON_IDENTIFIER_CHARS, REASON_IDENTIFIER_START),
{
    let s = chars_of(name);
    if s.len() == 0 {
        return Err(ValidationError::Empty);
    }
    if name.len() > MAX_IDENTIFIER_LENGTH {
        return Err(ValidationError::TooLong(name.to_owned(), MAX_IDENTIFIER_LENGTH));
    }
    let mut i: usize = 0;
    while i < s.len()
        invariant
            s@ == name@,
            name.len() <= MAX_IDENTIFIER_LENGTH,
            s@.len() > 0,
            i <= s@.len(),
            i > 0 ==> is_ident_char(s@[0]) && s@[0] != '-' && s@[0] != '_',
            forall|j: int| 0 <= j < i ==> is_ident_char(#[trigger] s@[j]),
        decreases s@.len() - i,
    {
        let c = s[i];
        if !(is_alnum_exec(c) || c == '_' || c == '-') {
            return Err(ValidationError::InvalidIdentifier(name.to_owned(), REASON_IDENTIFIER_CHARS));
        }
        if i == 0 && (c == '-' || c == '_') {
            return Err(ValidationError::InvalidIdentifier(name.to_owned(), REASON_IDENTIFIER_START));
        }
        i = i + 1;
    }
    assert(s@.subrange(0, s@.len() as int) =~= s@);
    if reserved_range(&s, 0, s.len()) {
        return Err(ValidationError::Reserved(name.to_owned()));
    }
    Ok(())
}

/// Checks a collection name against the identifier rules.
pub fn validate_collection_name(name: &str) -> (r: Result<(), ValidationError>)
    ensures
        reports(r, name@, identifier_fault(name@), REASON_IDENTIFIER_CHARS, REASON_IDENTIFIER_START),
{
    validate_identifier(name, "collection name")
}

/// Checks a document id against the identifier rules.
pub fn validate_document_id(id: &str) -> (r: Result<(), ValidationError>)
    ensures
        reports(r, id@, identifier_fault(id@), REASON_IDENTIFIER_CHARS, REASON_IDENTIFIER_START),
{
    validate_identifier(id, "document ID")
}

/// Checks a view name against the identifier rules.
pub fn validate_view_name(name: &str) -> (r: Result<(), ValidationError>)
    ensures
        reports(r, name@, identifier_fault(name@), REASON_IDENTIFIER_CHARS, REASON_IDENTIFIER_START),
{
    validate_identifier(name, "view name")
}

/// Checks a template name: like an identifier, but `.` is allowed (not
/// first, and never `..`), `/` and `\` are refused, and the part before the
/// first `.` must not be a reserved name.
pub fn validate_template_name(name: &str) -> (r: Result<(), ValidationError>)
    ensures
        reports(r, name@, template_fault(name@), REASON_TEMPLATE_CHARS, REASON_TEMPLATE_START),
{
    let s = chars_of(name);
    if s.len() == 0 {
        return Err(ValidationError::Empty);
    }
    if name.len() > MAX_IDENTIFIER_LENGTH {
        return Err(ValidationError::TooLong(name.to_owned(), MAX_IDENTIFIER_LENGTH));
    }
    let mut k: usize = 0;
    while k < s.len()
        invariant
            s@ == name@,
            name.len() <= MAX_IDENTIFIER_LENGTH,
            k <= s@.len(),
            forall|j: int| 0 <= j < k ==> !traversal_at(s@, j),
        decreases s@.len() - k,
    {
        let c = s[k];
        if c == '/' || c == '\\' || (c == '.' && k + 1 < s.len() && s[k + 1] == '.') {
            assert(traversal_at(s@, k as int));
            return Err(ValidationError::InvalidIdentifier(name.to_owned(), REASON_TEMPLATE_TRAVERSAL));
        }
        k = k + 1;
    }
    let mut i: usize = 0;
    while i < s.len()
        invariant
            s@ == name@,
            name.len() <= MAX_IDENTIFIER_LENGTH,
            s@.len() > 0,
            !has_traversal(s@),
            i <= s@.len(),
            i > 0 ==> is_template_char(s@[0]) && s@[0] != '.' && s@[0] != '-' && s@[0] != '_',
            forall|j: int| 0 <= j < i ==> is_template_char(#[trigger] s@[j]),
        decreases s@.len() - i,
    {
        let c = s[i];
        if !(is_alnum_exec(c) || c == '_' || c == '-' || c == '.') {
            return Err(ValidationError::InvalidIdentifier(name.to_owned(), REASON_TEMPLATE_CHARS));
        }
        if i == 0 && (c == '.' || c == '-' || c == '_') {
            return Err(ValidationError::InvalidIdentifier(name.to_owned(), REASON_TEMPLATE_START));
        }
        i = i + 1;
    }
    let mut d: usize = 0;
    while d < s.len() && s[d] != '.'
        invariant
            s@ == name@,
            name.len() <= MAX_IDENTIFIER_LENGTH,
            s@.len() > 0,
            !has_traversal(s@),
            is_template_char(s@[0]) && s@[0] != '.' && s@[0] != '-' && s@[0] != '_',
            forall|j: int| 0 <= j < s@.len() ==> is_template_char(#[trigger] s@[j]),
            d <= s@.len(),
            forall|j: int| 0 <= j < d ==> s@[j] != '.',
        decreases s@.len() - d,
    {
        d = d + 1;
    }
    proof {
        if d < s@.len() {
            let w = choose|w: int| 0 <= w < s@.len() && s@[w] == '.' && forall|j: int| 0 <= j < w ==> s@[j] != '.';
            assert(w == d) by { if w < d {} else if w > d {} };
            assert(before_dot(s@) == s@.subrange(0, d as int));
        } else {
            assert(s@.subrange(0, d as int) =~= s@);
        }
    }
    if reserved_range(&s, 0, d) {
        return Err(ValidationError::Reserved(name.to_owned()));
    }
    Ok(())
}

} // verus!

verus! {

/// One step of sanitising: what character `c` at position `i` adds to `res`.
pub open spec fn sanitize_step(res: Seq<char>, i: int, c: char) -> Seq<char> {
    if is_alnum(c) {
        res.push(c)
    } else if (c == '_' || c == '-') && i > 0 {
        res.push(c)
    } else if res.len() > 0 && res.last() != '_' {
        res.push('_')
    } else {
        res
    }
}

/// `s` with every character sanitised in turn.
pub open spec fn sanitize_raw(s: Seq<char>) -> Seq<char>
    decreases s.len(),
{
    if s.len() == 0 {
        Seq::empty()
    } else {
        sanitize_step(sanitize_raw(s.drop_last()), s.len() - 1, s.last())
    }
}

/// `s` without trailing underscores.
pub open spec fn trim_underscores(s: Seq<char>) -> Seq<char>
    decreases s.len(),
{
    if s.len() > 0 && s.last() == '_' {
        trim_underscores(s.drop_last())
    } else {
        s
    }
}

/// What sanitising `s` gives: the sanitised text when it is a valid identifier.
pub open spec fn sanitized(s: Seq<char>) -> Option<Seq<char>> {
    let t = trim_underscores(sanitize_raw(s));
    if s.len() == 0 || t.len() == 0 || identifier_fault(t) is Some {
        None
    } else {
        Some(t)
    }
}

/// Turns arbitrary text into an identifier: characters outside the allowed
/// set become one `_` (never two in a row, never leading), a leading `-` or
/// `_` is dropped, and trailing `_` are trimmed. `None` when what is left is
/// empty or still not a valid identifier.
pub fn sanitize_identifier(input: &str) -> (r: Option<String>)
    ensures
        match r {
            Some(t) => sanitized(input@) == Some(t@),
            None => sanitized(input@).is_none(),
        },
{
    let s = chars_of(input);
    if s.len() == 0 {
        return None;
    }
    let mut res: Vec<char> = Vec::new();
    let mut i: usize = 0;
    while i < s.len()
        invariant
            s@ == input@,
            i <= s@.len(),
            res@ == sanitize_raw(s@.subrange(0, i as int)),
        decreases s@.len() - i,
    {
        let c = s[i];
        proof {
            assert(s@.subrange(0, i + 1).drop_last() =~= s@.subrange(0, i as int));
        }
        if is_alnum_exec(c) {
            res.push(c);
        } else if (c == '_' || c == '-') && i > 0 {
            res.push(c);
        } else if res.len() > 0 && res[res.len() - 1] != '_' {
            res.push('_');
        }
        i = i + 1;
    }
    assert(s@.subrange(0, s@.len() as int) =~= s@);
    let mut e: usize = res.len();
    assert(res@.subrange(0, e as int) =~= res@);
    while e > 0 && res[e - 1] == '_'
        invariant
            e <= res@.len(),
            trim_underscores(res@.subrange(0, e as int)) == trim_underscores(res@),
        decreases e,
    {
        assert(res@.subrange(0, e as int).drop_last() =~= res@.subrange(0, e - 1));
        e = e - 1;
    }
    let t = crate::text::string_of(&res, 0, e);
    if e == 0 {
        return None;
    }
    match validate_identifier(t.as_str(), "") {
        Ok(()) => Some(t),
        Err(_) => None,
    }
}

} // verus!
