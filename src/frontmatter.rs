//! The text form of a document: an optional structured section between
//! `---` lines, then the body. The structured section's own syntax (YAML) is
//! read and written by the caller; this module frames and splits the text.
use vstd::prelude::*;
use crate::error::Error;
use crate::parser::{all_space, is_space, is_space_exec, is_trim, trim_range};
use crate::text::{chars_of, occurs_at, push_text, string_of};

verus! {

/// `s[0..a]` is whitespace and `s[a]`, if any, is not.
pub open spec fn lead_at(s: Seq<char>, a: int) -> bool {
    0 <= a <= s.len() && all_space(s, 0, a) && (a == s.len() || !is_space(s[a]))
}

/// `s` starts, at `a`, with `---`.
pub open spec fn dashes_at(s: Seq<char>, a: int) -> bool {
    0 <= a && a + 3 <= s.len() && s[a] == '-' && s[a + 1] == '-' && s[a + 2] == '-'
}

/// The closing marker: a line that starts with `---`.
pub open spec fn marker() -> Seq<char> {
    seq!['\n', '-', '-', '-']
}

/// `e` is the first place where the closing marker occurs in `s`.
pub open spec fn first_marker(s: Seq<char>, e: int) -> bool {
    occurs_at(s, marker(), e) && forall|j: int| 0 <= j < e ==> !occurs_at(s, marker(), j)
}

/// `s[0..k]` are line feeds and `s[k]`, if any, is not.
pub open spec fn newlines_end(s: Seq<char>, k: int) -> bool {
    0 <= k <= s.len() && (forall|i: int| 0 <= i < k ==> s[i] == '\n') && (k == s.len() || s[k] != '\n')
}

/// `r` is what splitting the text `c` gives: after leading whitespace, text
/// that does not start with `---` is all body; otherwise the structured
/// section runs to the first line starting with `---` (trimmed), and the body
/// follows that marker, without its leading line feeds. A section that is
/// never closed is an error.
pub open spec fn split_result(c: Seq<char>, r: Result<(Option<String>, String), Error>) -> bool {
    exists|a: int| #![trigger lead_at(c, a)] lead_at(c, a) && {
        let rest = c.subrange(a + 3, c.len() as int);
        if !dashes_at(c, a) {
            r matches Ok((h, b)) && h is None && b@ == c.subrange(a, c.len() as int)
        } else if exists|e: int| first_marker(rest, e) {
            exists|e: int, y1: int, y2: int, k: int|
                #![trigger first_marker(rest, e), is_trim(rest, 0, e, y1, y2), newlines_end(rest.subrange(e + 4, rest.len() as int), k)]
                first_marker(rest, e) && is_trim(rest, 0, e, y1, y2) && newlines_end(
                    rest.subrange(e + 4, rest.len() as int),
                    k,
                ) && (r matches Ok((h, b)) && h matches Some(y) && y@ == rest.subrange(y1, y2) && b@ == rest.subrange(
                    e + 4 + k,
                    rest.len() as int,
                ))
        } else {
            r is Err
        }
    }
}

/// The first place at or after `from` where the closing marker occurs.
fn find_marker(v: &Vec<char>, from: usize) -> (r: Option<usize>)
    requires
        from <= v@.len(),
    ensures
        match r {
            Some(e) => from <= e && first_marker(v@.subrange(from as int, v@.len() as int), e - from),
            None => forall|j: int| !occurs_at(v@.subrange(from as int, v@.len() as int), marker(), j),
        },
{
    let n = v.len();
    let ghost s = v@.subrange(from as int, n as int);
    let mut i: usize = from;
    while i < n && n - i >= 4
        invariant
            from <= i,
            n == v@.len(),
            s == v@.subrange(from as int, n as int),
            forall|j: int| 0 <= j < i - from ==> !occurs_at(s, marker(), j),
        decreases n - i,
    {
        if v[i] == '\n' && v[i + 1] == '-' && v[i + 2] == '-' && v[i + 3] == '-' {
            assert(s.subrange(i - from, i - from + 4) =~= marker());
            return Some(i);
        }
        assert(!occurs_at(s, marker(), i - from)) by {
            if occurs_at(s, marker(), i - from) {
                assert(s.subrange(i - from, i - from + 4)[0] == v@[i as int]);
                assert(s.subrange(i - from, i - from + 4)[1] == v@[i + 1]);
                assert(s.subrange(i - from, i - from + 4)[2] == v@[i + 2]);
                assert(s.subrange(i - from, i - from + 4)[3] == v@[i + 3]);
            }
        }
        i = i + 1;
    }
    None
}

/// Splits document text into its structured section, if it has one, and its
/// body (see [`split_result`]).
pub fn split_frontmatter(content: &str) -> (r: Result<(Option<String>, String), Error>)
    ensures
        split_result(content@, r),
{
    let c = chars_of(content);
    let n = c.len();
    let mut a: usize = 0;
    while a < n && is_space_exec(c[a])
        invariant
            a <= n == c@.len(),
            all_space(c@, 0, a as int),
        decreases n - a,
    {
        a = a + 1;
    }
    assert(lead_at(content@, a as int));
    if !(n - a >= 3 && c[a] == '-' && c[a + 1] == '-' && c[a + 2] == '-') {
        let body = string_of(&c, a, n);
        return Ok((None, body));
    }
    let ghost rest = c@.subrange(a + 3, n as int);
    match find_marker(&c, a + 3) {
        None => {
            let mut m = String::new();
            push_text(&mut m, "Unclosed frontmatter: missing closing ---");
            Err(Error::Other(m))
        },
        Some(end) => {
            let e = end - (a + 3);
            let (y1, y2) = trim_range(&c, a + 3, end);
            assert(is_trim(rest, 0, e as int, y1 - (a + 3), y2 - (a + 3))) by {
                assert forall|i: int| 0 <= i < y1 - (a + 3) implies is_space(#[trigger] rest[i]) by {
                    assert(rest[i] == c@[i + a + 3]);
                }
                assert forall|i: int| y2 - (a + 3) <= i < e implies is_space(#[trigger] rest[i]) by {
                    assert(rest[i] == c@[i + a + 3]);
                }
                if y1 < y2 {
                    assert(rest[y1 - (a + 3)] == c@[y1 as int]);
                    assert(rest[y2 - (a + 3) - 1] == c@[y2 - 1]);
                }
            }
            let yaml = string_of(&c, y1, y2);
            assert(yaml@ =~= rest.subrange(y1 - (a + 3), y2 - (a + 3)));
            let mut b = end + 4;
            while b < n && c[b] == '\n'
                invariant
                    end + 4 <= b <= n == c@.len(),
                    forall|i: int| end + 4 <= i < b ==> c@[i] == '\n',
                decreases n - b,
            {
                b = b + 1;
            }
            let body = string_of(&c, b, n);
            proof {
                let after = rest.subrange(e + 4, rest.len() as int);
                let k = b - (end + 4);
                assert(newlines_end(after, k as int)) by {
                    assert forall|i: int| 0 <= i < k implies after[i] == '\n' by {
                        assert(after[i] == c@[end + 4 + i]);
                    }
                    if b < n {
                        assert(after[k as int] == c@[b as int]);
                    }
                }
                assert(body@ =~= rest.subrange(e + 4 + k, rest.len() as int));
                assert(first_marker(rest, e as int));
            }
            Ok((Some(yaml), body))
        },
    }
}

/// The text of a document with structured section `yaml` (which ends with a
/// line feed) and body `body`: `---`, line feed, the section, `---`, a blank
/// line, the body.
pub fn frame(yaml: &str, body: &str) -> (r: String)
    ensures
        r@ == seq!['-', '-', '-', '\n'] + yaml@ + seq!['-', '-', '-', '\n', '\n'] + body@,
{
    let mut r = String::new();
    push_text(&mut r, "---\n");
    push_text(&mut r, yaml);
    push_text(&mut r, "---\n\n");
    push_text(&mut r, body);
    proof {
        reveal_strlit("---\n");
        reveal_strlit("---\n\n");
    }
    assert(r@ =~= seq!['-', '-', '-', '\n'] + yaml@ + seq!['-', '-', '-', '\n', '\n'] + body@);
    r
}

} // verus!

verus! {

proof fn lemma_marker_position(y: Seq<char>, b: Seq<char>)
    requires
        y.len() > 0,
        y.last() == '\n',
        forall|i: int| 0 <= i < y.len() ==> !occurs_at(seq!['\n'] + y + seq!['-', '-', '-'], marker(), i),
    ensures
        first_marker(seq!['\n'] + y + seq!['-', '-', '-', '\n', '\n'] + b, y.len() as int),
{
    let n = y.len() as int;
    let rest = seq!['\n'] + y + seq!['-', '-', '-', '\n', '\n'] + b;
    let p = seq!['\n'] + y + seq!['-', '-', '-'];
    assert(rest.subrange(n, n + 4) =~= marker()) by {
        assert(rest[n] == y[n - 1]);
    }
    assert forall|j: int| 0 <= j < n implies !occurs_at(rest, marker(), j) by {
        assert(rest.subrange(j, j + 4) =~= p.subrange(j, j + 4));
        assert(!occurs_at(p, marker(), j));
    }
}

proof fn lemma_trim_shift(y: Seq<char>, rest: Seq<char>, y1: int, y2: int)
    requires
        y.len() > 0,
        y.last() == '\n',
        rest.len() > y.len(),
        rest[0] == '\n',
        forall|i: int| 1 <= i <= y.len() ==> rest[i] == y[i - 1],
        is_trim(rest, 0, y.len() as int, y1, y2),
    ensures
        exists|z1: int, z2: int| is_trim(y, 0, y.len() as int, z1, z2) && rest.subrange(y1, y2) == y.subrange(z1, z2),
{
    let n = y.len() as int;
    if y1 < y2 {
        assert(y1 >= 1) by {
            if y1 == 0 {
                assert(is_space(rest[0]));
            }
        }
        assert(is_trim(y, 0, n, y1 - 1, y2 - 1)) by {
            assert forall|i: int| 0 <= i < y1 - 1 implies is_space(#[trigger] y[i]) by {
                assert(y[i] == rest[i + 1]);
            }
            assert forall|i: int| y2 - 1 <= i < n implies is_space(#[trigger] y[i]) by {
                if i < n - 1 {
                    assert(y[i] == rest[i + 1]);
                }
            }
            assert(y[y1 - 1] == rest[y1]);
            assert(y[y2 - 2] == rest[y2 - 1]);
        }
        assert(rest.subrange(y1, y2) =~= y.subrange(y1 - 1, y2 - 1));
    } else {
        assert(is_trim(y, 0, n, 0, 0)) by {
            assert forall|i: int| 0 <= i < n implies is_space(#[trigger] y[i]) by {
                if i < n - 1 {
                    assert(y[i] == rest[i + 1]);
                }
            }
        }
        assert(rest.subrange(y1, y2) =~= y.subrange(0, 0));
    }
}

proof fn lemma_newlines_shift(b: Seq<char>, after: Seq<char>, k: int)
    requires
        after == seq!['\n', '\n'] + b,
        newlines_end(after, k),
    ensures
        k >= 2,
        newlines_end(b, k - 2),
        after.subrange(k, after.len() as int) == b.subrange(k - 2, b.len() as int),
{
    assert(k >= 2) by {
        if k < 2 {
            assert(after[k] == '\n');
        }
    }
    assert forall|i: int| 0 <= i < k - 2 implies b[i] == '\n' by {
        assert(after[i + 2] == b[i]);
    }
    if k < after.len() {
        assert(after[k] == b[k - 2]);
    }
    assert(after.subrange(k, after.len() as int) =~= b.subrange(k - 2, b.len() as int));
}

/// Framing a structured section and a body, then splitting the text, gives
/// back the section trimmed of surrounding whitespace and the body without
/// its leading line feeds, when the section ends with a line feed and holds
/// no line that starts with `---`.
pub proof fn lemma_frame_round_trip(y: Seq<char>, b: Seq<char>, r: Result<(Option<String>, String), Error>)
    requires
        y.len() > 0,
        y.last() == '\n',
        forall|i: int| 0 <= i < y.len() ==> !occurs_at(seq!['\n'] + y + seq!['-', '-', '-'], marker(), i),
        split_result(seq!['-', '-', '-', '\n'] + y + seq!['-', '-', '-', '\n', '\n'] + b, r),
    ensures
        r is Ok,
        r->Ok_0.0 is Some,
        exists|y1: int, y2: int| is_trim(y, 0, y.len() as int, y1, y2) && r->Ok_0.0->Some_0@ == y.subrange(y1, y2),
        exists|k: int| newlines_end(b, k) && r->Ok_0.1@ == b.subrange(k, b.len() as int),
{
    let c = seq!['-', '-', '-', '\n'] + y + seq!['-', '-', '-', '\n', '\n'] + b;
    let n = y.len() as int;
    let rest = c.subrange(3, c.len() as int);
    assert(rest =~= seq!['\n'] + y + seq!['-', '-', '-', '\n', '\n'] + b);
    lemma_marker_position(y, b);
    let a = choose|a: int| #![trigger lead_at(c, a)] lead_at(c, a) && {
        let rest = c.subrange(a + 3, c.len() as int);
        if !dashes_at(c, a) {
            r matches Ok((h, bb)) && h is None && bb@ == c.subrange(a, c.len() as int)
        } else if exists|e: int| first_marker(rest, e) {
            exists|e: int, y1: int, y2: int, k: int|
                #![trigger first_marker(rest, e), is_trim(rest, 0, e, y1, y2), newlines_end(rest.subrange(e + 4, rest.len() as int), k)]
                first_marker(rest, e) && is_trim(rest, 0, e, y1, y2) && newlines_end(
                    rest.subrange(e + 4, rest.len() as int),
                    k,
                ) && (r matches Ok((h, bb)) && h matches Some(yy) && yy@ == rest.subrange(y1, y2) && bb@ == rest.subrange(
                    e + 4 + k,
                    rest.len() as int,
                ))
        } else {
            r is Err
        }
    };
    assert(c[0] == '-');
    if a > 0 {
        assert(is_space(c[0]));
    }
    assert(a == 0);
    assert(dashes_at(c, 0));
    let (e, y1, y2, k) = choose|e: int, y1: int, y2: int, k: int|
        #![trigger first_marker(rest, e), is_trim(rest, 0, e, y1, y2), newlines_end(rest.subrange(e + 4, rest.len() as int), k)]
        first_marker(rest, e) && is_trim(rest, 0, e, y1, y2) && newlines_end(rest.subrange(e + 4, rest.len() as int), k)
            && (r matches Ok((h, bb)) && h matches Some(yy) && yy@ == rest.subrange(y1, y2) && bb@ == rest.subrange(
            e + 4 + k,
            rest.len() as int,
        ));
    assert(e == n) by {
        if e < n {
            assert(!occurs_at(rest, marker(), e));
        } else if e > n {
            assert(!occurs_at(rest, marker(), n));
        }
    }
    assert forall|i: int| 1 <= i <= n implies rest[i] == y[i - 1] by {}
    lemma_trim_shift(y, rest, y1, y2);
    let after = rest.subrange(n + 4, rest.len() as int);
    assert(after =~= seq!['\n', '\n'] + b);
    lemma_newlines_shift(b, after, k);
    assert(rest.subrange(n + 4 + k, rest.len() as int) == after.subrange(k, after.len() as int));
}

} // verus!

verus! {

/// The text of a document whose structured section is `yaml` and holds
/// `field_count` fields: the body alone when there are none, else the framed
/// section and body.
pub fn render_text(yaml: &str, field_count: usize, body: &str) -> (r: String)
    ensures
        field_count == 0 ==> r@ == body@,
        field_count > 0 ==> r@ == seq!['-', '-', '-', '\n'] + yaml@ + seq!['-', '-', '-', '\n', '\n'] + body@,
{
    if field_count == 0 {
        body.to_owned()
    } else {
        frame(yaml, body)
    }
}

} // verus!
