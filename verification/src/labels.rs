//! Decomposition of the categorical labels drawn under the chart's bars: a
//! web-server or database name is displayed stripped at its first `[`
//! delimiter, the bracketed remainder of a database label becomes an extra
//! tag, and tab captions show test names with underscores as spaces.

use vstd::prelude::*;
use vstd::string::*;

verus! {

/// Index of the first occurrence of `c` in `s`, or `s.len()` when absent.
pub open spec fn first_index_of(s: Seq<char>, c: char) -> int
    decreases s.len(),
{
    if s.len() == 0 {
        0
    } else if s[0] == c {
        0
    } else {
        1 + first_index_of(s.drop_first(), c)
    }
}

pub proof fn lemma_first_index_of(s: Seq<char>, c: char)
    ensures
        0 <= first_index_of(s, c) <= s.len(),
        first_index_of(s, c) < s.len() ==> s[first_index_of(s, c)] == c,
        forall|i: int| 0 <= i < first_index_of(s, c) ==> s[i] != c,
        (first_index_of(s, c) < s.len()) == s.contains(c),
    decreases s.len(),
{
    if s.len() == 0 || s[0] == c {
        if s.len() > 0 && s[0] == c {
            assert(s.contains(c));
        }
    } else {
        let t = s.drop_first();
        lemma_first_index_of(t, c);
        assert(forall|i: int| 0 <= i < t.len() ==> t[i] == s[i + 1]);
        let f = first_index_of(s, c);
        assert(forall|i: int| 1 <= i < f ==> s[i] == t[i - 1] && t[i - 1] != c);
        if f < s.len() {
            assert(s[f] == t[f - 1]);
            assert(s.contains(c));
        } else {
            if s.contains(c) {
                let w = choose|w: int| 0 <= w < s.len() && s[w] == c;
                assert(w >= 1);
                assert(t[w - 1] == c);
                assert(t.contains(c));
            }
        }
    }
}

/// The label part before the first `[` delimiter; the whole label when it
/// has none.
pub open spec fn name_part(s: Seq<char>) -> Seq<char> {
    s.take(first_index_of(s, '['))
}

/// The characters after the first `[`, with every `]` removed.
pub open spec fn tag_part(s: Seq<char>) -> Seq<char> {
    s.skip(first_index_of(s, '[') + 1).filter(|c: char| c != ']')
}

/// A tag of ten or more characters keeps its first eight and gains a
/// two-dot ellipsis marker; shorter tags pass through unchanged.
pub open spec fn truncated_tag(t: Seq<char>) -> Seq<char> {
    if t.len() >= 10 {
        t.take(8).push('.').push('.')
    } else {
        t
    }
}

/// Relies on `String::push`: appends exactly the given character.
#[verifier::external_body]
fn push_char(s: &mut String, c: char)
    ensures
        final(s)@ == old(s)@.push(c),
{
    s.push(c);
}

/// Position of the first `c` in `s`, or its character length when absent.
pub fn find_char(s: &str, c: char) -> (r: usize)
    ensures
        r == first_index_of(s@, c),
{
    proof {
        lemma_first_index_of(s@, c);
    }
    let n = s.unicode_len();
    let mut i: usize = 0;
    while i < n
        invariant
            i <= n == s@.len(),
            forall|j: int| 0 <= j < i ==> s@[j] != c,
        decreases n - i,
    {
        if s.get_char(i) == c {
            proof {
                lemma_first_index_of(s@, c);
            }
            return i;
        }
        i = i + 1;
    }
    n
}

/// Character-for-character equality of two string slices.
pub fn str_eq(a: &str, b: &str) -> (r: bool)
    ensures
        r == (a@ == b@),
{
    let na = a.unicode_len();
    let nb = b.unicode_len();
    if na != nb {
        return false;
    }
    let mut i: usize = 0;
    while i < na
        invariant
            i <= na == a@.len(),
            na == b@.len(),
            forall|j: int| 0 <= j < i ==> a@[j] == b@[j],
        decreases na - i,
    {
        if a.get_char(i) != b.get_char(i) {
            return false;
        }
        i = i + 1;
    }
    proof {
        assert(a@ =~= b@);
    }
    true
}

/// The categorical label shown for a bar: everything before the first `[`.
pub fn split_label(s: &str) -> (r: String)
    ensures
        r@ == name_part(s@),
{
    let i = find_char(s, '[');
    proof {
        lemma_first_index_of(s@, '[');
    }
    let pre = s.substring_char(0, i);
    proof {
        assert(pre@ =~= name_part(s@));
    }
    String::from_str(pre)
}

/// The optional extra tag carried inside a database label's bracket suffix,
/// truncated by `truncated_tag` when it runs long. `None` exactly when the
/// label has no `[`.
pub fn extra_tag(s: &str) -> (r: Option<String>)
    ensures
        (r is Some) == s@.contains('['),
        r matches Some(t) ==> t@ == truncated_tag(tag_part(s@)),
{
    proof {
        lemma_first_index_of(s@, '[');
    }
    let n = s.unicode_len();
    let i = find_char(s, '[');
    if i == n {
        return None;
    }
    let mut tag = String::new();
    let mut j = i + 1;
    while j < n
        invariant
            i + 1 <= j <= n == s@.len(),
            tag@ == s@.subrange(i + 1, j as int).filter(|c: char| c != ']'),
        decreases n - j,
    {
        let c = s.get_char(j);
        proof {
            reveal(Seq::filter);
            let prev = s@.subrange(i + 1, j as int);
            let cur = s@.subrange(i + 1, j + 1);
            assert(cur.drop_last() =~= prev);
            assert(cur.last() == c);
        }
        if c != ']' {
            push_char(&mut tag, c);
        }
        j = j + 1;
    }
    proof {
        assert(s@.subrange(i + 1, n as int) =~= s@.skip(i + 1));
    }
    let len = tag.as_str().unicode_len();
    if len >= 10 {
        let head = tag.as_str().substring_char(0, 8);
        let mut out = String::from_str(head);
        push_char(&mut out, '.');
        push_char(&mut out, '.');
        proof {
            assert(head@ =~= tag_part(s@).take(8));
        }
        Some(out)
    } else {
        Some(tag)
    }
}

/// A tab's caption: the test name with each underscore shown as a space.
pub fn tab_label(name: &str) -> (r: String)
    ensures
        r@ == name@.map_values(|c: char| if c == '_' { ' ' } else { c }),
{
    let n = name.unicode_len();
    let mut out = String::new();
    let mut i: usize = 0;
    while i < n
        invariant
            i <= n == name@.len(),
            out@ == name@.take(i as int).map_values(|c: char| if c == '_' { ' ' } else { c }),
        decreases n - i,
    {
        let c = name.get_char(i);
        if c == '_' {
            push_char(&mut out, ' ');
        } else {
            push_char(&mut out, c);
        }
        proof {
            let f = |c: char| if c == '_' { ' ' } else { c };
            assert(name@.take(i + 1).map_values(f) =~= name@.take(i as int).map_values(f).push(
                f(name@[i as int]),
            ));
        }
        i = i + 1;
    }
    proof {
        assert(name@.take(n as int) =~= name@);
    }
    out
}

} // verus!
