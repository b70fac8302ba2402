//! Character-level text helpers used by the query filters and the
//! event fingerprint: case-folded comparison, substring search and
//! prefix truncation, all stated over the `Seq<char>` view of strings.

use vstd::prelude::*;
use vstd::string::*;

verus! {

/// The code point of `c` after ASCII lower-casing (`A`..=`Z` become
/// `a`..=`z`; every other character is left alone).
pub open spec fn fold_ascii(c: char) -> u32 {
    if 65 <= (c as u32) && (c as u32) <= 90 {
        ((c as u32) + 32) as u32
    } else {
        c as u32
    }
}

/// `a` and `b` are equal when ASCII letters are compared without regard
/// to case, as `str::eq_ignore_ascii_case` decides.
pub open spec fn eq_ignore_ascii_case_spec(a: Seq<char>, b: Seq<char>) -> bool {
    &&& a.len() == b.len()
    &&& forall|i: int| 0 <= i < a.len() ==> #[trigger] fold_ascii(a[i]) == fold_ascii(b[i])
}

/// `needle` occurs in `hay` as a contiguous run of characters (the empty
/// needle occurs in every string), as `str::contains` decides.
pub open spec fn contains_spec(hay: Seq<char>, needle: Seq<char>) -> bool {
    exists|i: int| 0 <= i <= hay.len() - needle.len() && #[trigger] hay.subrange(i, i + needle.len()) == needle
}

/// The first `n` characters of `s`, or all of `s` when it is shorter.
pub open spec fn prefix_spec(s: Seq<char>, n: nat) -> Seq<char> {
    if s.len() <= n { s } else { s.take(n as int) }
}

/// The characters of `s`, in order.
pub fn chars_of(s: &str) -> (v: Vec<char>)
    ensures
        v@ == s@,
{
    let mut v: Vec<char> = Vec::new();
    for c in it: s.chars()
        invariant
            it.seq() == s@,
            v@ == it.seq().take(it.index()),
    {
        proof {
            assert(it.seq().take(it.index() + 1) =~= it.seq().take(it.index() as int).push(c));
        }
        v.push(c);
    }
    proof {
        assert(v@ =~= s@);
    }
    v
}

fn fold_char(c: char) -> (r: u32)
    ensures
        r == fold_ascii(c),
{
    let code = c as u32;
    if 65 <= code && code <= 90 {
        code + 32
    } else {
        code
    }
}

/// Compares two strings, ASCII letters without regard to case.
pub fn eq_ignore_ascii_case(a: &str, b: &str) -> (r: bool)
    ensures
        r == eq_ignore_ascii_case_spec(a@, b@),
{
    let av = chars_of(a);
    let bv = chars_of(b);
    if av.len() != bv.len() {
        return false;
    }
    let mut i: usize = 0;
    while i < av.len()
        invariant
            av@ == a@,
            bv@ == b@,
            av.len() == bv.len(),
            i <= av.len(),
            forall|j: int| 0 <= j < i ==> #[trigger] fold_ascii(a@[j]) == fold_ascii(b@[j]),
        decreases av.len() - i,
    {
        if fold_char(av[i]) != fold_char(bv[i]) {
            return false;
        }
        i = i + 1;
    }
    true
}

fn matches_at(hay: &Vec<char>, needle: &Vec<char>, start: usize) -> (r: bool)
    requires
        start + needle.len() <= hay.len(),
    ensures
        r == (hay@.subrange(start as int, start + needle.len()) == needle@),
{
    let mut j: usize = 0;
    while j < needle.len()
        invariant
            start + needle.len() <= hay.len(),
            j <= needle.len(),
            forall|k: int| 0 <= k < j ==> hay@[start + k] == needle@[k],
        decreases needle.len() - j,
    {
        if hay[start + j] != needle[j] {
            proof {
                assert(hay@.subrange(start as int, start + needle.len())[j as int] != needle@[j as int]);
            }
            return false;
        }
        j = j + 1;
    }
    proof {
        assert(hay@.subrange(start as int, start + needle.len()) =~= needle@);
    }
    true
}

/// Whether `needle` occurs in `hay`.
pub fn contains(hay: &str, needle: &str) -> (r: bool)
    ensures
        r == contains_spec(hay@, needle@),
{
    let h = chars_of(hay);
    let n = chars_of(needle);
    if n.len() > h.len() {
        return false;
    }
    let last = h.len() - n.len();
    let mut i: usize = 0;
    loop
        invariant
            h@ == hay@,
            n@ == needle@,
            last == h.len() - n.len(),
            i <= last,
            forall|k: int| 0 <= k < i ==> #[trigger] h@.subrange(k, k + n.len()) != n@,
        decreases last - i,
    {
        if matches_at(&h, &n, i) {
            return true;
        }
        if i == last {
            return false;
        }
        i = i + 1;
    }
}

/// The first `n` characters of `s` as an owned string.
pub fn prefix(s: &str, n: usize) -> (r: String)
    ensures
        r@ == prefix_spec(s@, n as nat),
{
    let len = s.unicode_len();
    let end = if len <= n { len } else { n };
    let part = s.substring_char(0, end);
    proof {
        if s@.len() <= n {
            assert(s@.subrange(0, end as int) =~= s@);
        }
    }
    part.to_owned()
}

/// Whether two strings hold the same characters.
pub fn same_text(a: &str, b: &str) -> (r: bool)
    ensures
        r == (a@ == b@),
{
    let av = chars_of(a);
    let bv = chars_of(b);
    if av.len() != bv.len() {
        return false;
    }
    let mut i: usize = 0;
    while i < av.len()
        invariant
            av@ == a@,
            bv@ == b@,
            av.len() == bv.len(),
            i <= av.len(),
            forall|j: int| 0 <= j < i ==> a@[j] == b@[j],
        decreases av.len() - i,
    {
        if av[i] != bv[i] {
            return false;
        }
        i = i + 1;
    }
    proof {
        assert(a@ =~= b@);
    }
    true
}

/// Each character of `needle` equals the character of `hay` at position
/// `i` onwards.
pub open spec fn occurs_at(hay: Seq<char>, needle: Seq<char>, i: int) -> bool {
    forall|k: int| 0 <= k < needle.len() ==> #[trigger] hay[i + k] == needle[k]
}

/// The text laws: `needle` occurs in `hay` exactly when, at some
/// position, each of its characters equals the character of `hay` there
/// and onwards (so the empty needle occurs everywhere and every string
/// contains itself); two characters fold to the same code exactly when
/// they are equal or are one ASCII letter in its two cases; and a prefix
/// of `n` characters is the start of the string, `n` long or the whole
/// string when it is shorter.
pub proof fn lemma_text_laws(hay: Seq<char>, needle: Seq<char>, c: char, d: char, n: nat)
    ensures
        contains_spec(hay, needle) == (exists|i: int|
            0 <= i <= hay.len() - needle.len() && #[trigger] occurs_at(hay, needle, i)),
        contains_spec(hay, Seq::empty()),
        contains_spec(hay, hay),
        (fold_ascii(c) == fold_ascii(d)) == (c == d || (65 <= (c as u32) <= 90 && (d as u32) == (c as u32) + 32) || (65
            <= (d as u32) <= 90 && (c as u32) == (d as u32) + 32)),
        eq_ignore_ascii_case_spec(hay, hay),
        prefix_spec(hay, n).len() == (if hay.len() <= n { hay.len() } else { n }),
        forall|k: int| 0 <= k < prefix_spec(hay, n).len() ==> #[trigger] prefix_spec(hay, n)[k] == hay[k],
{
    if contains_spec(hay, needle) {
        let i = choose|i: int| 0 <= i <= hay.len() - needle.len() && #[trigger] hay.subrange(i, i + needle.len()) == needle;
        assert forall|k: int| 0 <= k < needle.len() implies #[trigger] hay[i + k] == needle[k] by {
            assert(hay.subrange(i, i + needle.len())[k] == hay[i + k]);
        }
        assert(occurs_at(hay, needle, i));
    }
    if exists|i: int| 0 <= i <= hay.len() - needle.len() && #[trigger] occurs_at(hay, needle, i) {
        let i = choose|i: int| 0 <= i <= hay.len() - needle.len() && #[trigger] occurs_at(hay, needle, i);
        assert forall|k: int| 0 <= k < needle.len() implies #[trigger] hay.subrange(i, i + needle.len())[k] == needle[k] by {
            assert(hay[i + k] == needle[k]);
        }
        assert(hay.subrange(i, i + needle.len()) =~= needle);
    }
    assert(hay.subrange(0int, 0int + Seq::<char>::empty().len()) =~= Seq::<char>::empty());
    assert(hay.subrange(0int, 0int + hay.len()) =~= hay);
    if c != d && (c as u32) == (d as u32) {
        assert(false);
    }
}

} // verus!
