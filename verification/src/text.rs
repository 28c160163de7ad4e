//! Character-level helpers over `&str` and `String`.
//!
//! All matching in this crate is done on character boundaries, never on raw
//! byte offsets, since administrative names are multi-byte-per-character.

use vstd::prelude::*;
use vstd::string::StrSliceExecFns;
use vstd::string::StringExecFns;

verus! {

/// Whether a character has the Unicode White_Space property: the fixed set of
/// characters that trimming removes.
pub open spec fn is_whitespace_char(c: char) -> bool {
    ||| c == ' '
    ||| ('\u{0009}' <= c && c <= '\u{000d}')
    ||| c == '\u{0085}'
    ||| c == '\u{00a0}'
    ||| c == '\u{1680}'
    ||| ('\u{2000}' <= c && c <= '\u{200a}')
    ||| c == '\u{2028}'
    ||| c == '\u{2029}'
    ||| c == '\u{202f}'
    ||| c == '\u{205f}'
    ||| c == '\u{3000}'
}

/// Whether `c` has the White_Space property.
pub fn is_whitespace_char_exec(c: char) -> (r: bool)
    ensures
        r == is_whitespace_char(c),
{
    c == ' ' || ('\u{0009}' <= c && c <= '\u{000d}') || c == '\u{0085}' || c == '\u{00a0}'
        || c == '\u{1680}' || ('\u{2000}' <= c && c <= '\u{200a}') || c == '\u{2028}' || c
        == '\u{2029}' || c == '\u{202f}' || c == '\u{205f}' || c == '\u{3000}'
}

/// Character-by-character equality of two string slices.
pub fn str_eq(a: &str, b: &str) -> (r: bool)
    ensures
        r == (a@ == b@),
{
    let alen = a.unicode_len();
    let blen = b.unicode_len();
    if alen != blen {
        return false;
    }
    let mut i: usize = 0;
    while i < alen
        invariant
            alen == a@.len(),
            blen == b@.len(),
            alen == blen,
            i <= alen,
            forall|j: int| 0 <= j < i ==> a@[j] == b@[j],
        decreases alen - i,
    {
        if a.get_char(i) != b.get_char(i) {
            return false;
        }
        i += 1;
    }
    proof {
        assert(a@ =~= b@);
    }
    true
}

/// Whether the first `klen` characters of `text` spell out `key`.
pub(crate) fn str_prefix_eq(key: &str, text: &str, klen: usize) -> (r: bool)
    requires
        klen == key@.len(),
        klen <= text@.len(),
    ensures
        r == (key@ == text@.take(klen as int)),
{
    let mut i: usize = 0;
    while i < klen
        invariant
            klen == key@.len() <= text@.len(),
            i <= klen,
            forall|j: int| 0 <= j < i ==> key@[j] == text@[j],
        decreases klen - i,
    {
        if key.get_char(i) != text.get_char(i) {
            proof {
                assert(text@.take(klen as int)[i as int] == text@[i as int]);
            }
            return false;
        }
        i += 1;
    }
    proof {
        assert(key@ =~= text@.take(klen as int));
    }
    true
}

/// Whether `suf` is a suffix of `s`.
pub open spec fn spec_ends_with(s: Seq<char>, suf: Seq<char>) -> bool {
    suf.len() <= s.len() && s.subrange(s.len() - suf.len(), s.len() as int) == suf
}

/// Whether `s` ends with the characters of `suffix`.
pub fn str_ends_with(s: &str, suffix: &str) -> (r: bool)
    ensures
        r == spec_ends_with(s@, suffix@),
{
    let slen = s.unicode_len();
    let flen = suffix.unicode_len();
    if flen > slen {
        return false;
    }
    let off = slen - flen;
    let mut i: usize = 0;
    while i < flen
        invariant
            slen == s@.len(),
            flen == suffix@.len(),
            flen <= slen,
            off == slen - flen,
            i <= flen,
            forall|j: int| 0 <= j < i ==> s@[off + j] == suffix@[j],
        decreases flen - i,
    {
        if s.get_char(off + i) != suffix.get_char(i) {
            proof {
                let sub = s@.subrange(s@.len() - suffix@.len(), s@.len() as int);
                assert(sub[i as int] == s@[off + i]);
            }
            return false;
        }
        i += 1;
    }
    proof {
        assert(s@.subrange(s@.len() - suffix@.len(), s@.len() as int) =~= suffix@);
    }
    true
}

/// `s` with every trailing repetition of `suf` removed.
pub open spec fn spec_strip_all(s: Seq<char>, suf: Seq<char>) -> Seq<char>
    decreases s.len(),
{
    if suf.len() >= 1 && spec_ends_with(s, suf) {
        spec_strip_all(s.take(s.len() - suf.len()), suf)
    } else {
        s
    }
}

/// Stripping never lengthens, and removes at least one suffix occurrence when
/// one is there.
pub proof fn lemma_strip_all_shorter(s: Seq<char>, suf: Seq<char>)
    ensures
        spec_strip_all(s, suf).len() <= s.len(),
        (suf.len() >= 1 && spec_ends_with(s, suf)) ==> spec_strip_all(s, suf).len() < s.len(),
    decreases s.len(),
{
    if suf.len() >= 1 && spec_ends_with(s, suf) {
        lemma_strip_all_shorter(s.take(s.len() - suf.len()), suf);
    }
}

/// The slice of `s` left after removing every trailing repetition of `suffix`.
pub(crate) fn strip_suffix_all<'a>(s: &'a str, suffix: &str) -> (r: &'a str)
    requires
        suffix@.len() >= 1,
    ensures
        r@ == spec_strip_all(s@, suffix@),
{
    let slen = s.unicode_len();
    let flen = suffix.unicode_len();
    let mut e = slen;
    let mut cont = true;
    proof {
        assert(s@.take(slen as int) =~= s@);
    }
    while cont
        invariant
            slen == s@.len(),
            flen == suffix@.len(),
            flen >= 1,
            e <= slen,
            spec_strip_all(s@, suffix@) == spec_strip_all(s@.take(e as int), suffix@),
            !cont ==> !spec_ends_with(s@.take(e as int), suffix@),
        decreases e, (if cont { 1int } else { 0int }),
    {
        let t = s.substring_char(0, e);
        if str_ends_with(t, suffix) {
            proof {
                let tv = s@.take(e as int);
                assert(tv.take(tv.len() - suffix@.len()) =~= s@.take(e - flen));
            }
            e = e - flen;
        } else {
            cont = false;
        }
    }
    proof {
        let t = s@.take(e as int);
        assert(spec_strip_all(t, suffix@) == t);
    }
    s.substring_char(0, e)
}

/// The index of the first character of `s` at or after `i` that is not
/// whitespace, or the length of `s` if there is none.
pub open spec fn first_non_ws(s: Seq<char>, i: int) -> int
    recommends
        0 <= i <= s.len(),
    decreases s.len() - i,
{
    if i < 0 || i >= s.len() {
        i
    } else if is_whitespace_char(s[i]) {
        first_non_ws(s, i + 1)
    } else {
        i
    }
}

/// One past the index of the last character of `s.take(i)` that is not
/// whitespace, or `0` if there is none.
pub open spec fn last_non_ws(s: Seq<char>, i: int) -> int
    recommends
        0 <= i <= s.len(),
    decreases i,
{
    if i <= 0 {
        0
    } else if is_whitespace_char(s[i - 1]) {
        last_non_ws(s, i - 1)
    } else {
        i
    }
}

/// `s` with leading and trailing whitespace removed.
pub open spec fn spec_trim(s: Seq<char>) -> Seq<char> {
    let a = first_non_ws(s, 0);
    let b = last_non_ws(s, s.len() as int);
    if a <= b {
        s.subrange(a, b)
    } else {
        Seq::empty()
    }
}

/// Scanning from `i` over whitespace up to the first non-whitespace index
/// `a` ends at `a`.
pub proof fn lemma_first_non_ws(s: Seq<char>, i: int, a: int)
    requires
        0 <= i <= a <= s.len(),
        forall|j: int| i <= j < a ==> is_whitespace_char(s[j]),
        a == s.len() || !is_whitespace_char(s[a]),
    ensures
        first_non_ws(s, i) == a,
    decreases a - i,
{
    if i < a {
        lemma_first_non_ws(s, i + 1, a);
    }
}

/// Scanning down from `i` over whitespace to `b`, with nothing but
/// whitespace between, ends at `b`.
pub proof fn lemma_last_non_ws(s: Seq<char>, b: int, i: int)
    requires
        0 <= b <= i <= s.len(),
        forall|j: int| b <= j < i ==> is_whitespace_char(s[j]),
        b == 0 || !is_whitespace_char(s[b - 1]),
    ensures
        last_non_ws(s, i) == b,
    decreases i - b,
{
    if b < i {
        lemma_last_non_ws(s, b, i - 1);
    }
}

/// `s` with trailing whitespace removed.
pub open spec fn spec_trim_end(s: Seq<char>) -> Seq<char> {
    s.take(last_non_ws(s, s.len() as int))
}

/// The slice of `s` with trailing whitespace removed.
pub fn trim_end_str<'a>(s: &'a str) -> (r: &'a str)
    ensures
        r@ == spec_trim_end(s@),
{
    let n = s.unicode_len();
    let mut b: usize = n;
    while b > 0 && is_whitespace_char_exec(s.get_char(b - 1))
        invariant
            n == s@.len(),
            b <= n,
            forall|j: int| b <= j < n ==> is_whitespace_char(s@[j]),
        decreases b,
    {
        b -= 1;
    }
    proof {
        lemma_last_non_ws(s@, b as int, s@.len() as int);
    }
    s.substring_char(0, b)
}

/// The slice of `s` with leading and trailing whitespace removed.
pub fn trim_str<'a>(s: &'a str) -> (r: &'a str)
    ensures
        r@ == spec_trim(s@),
{
    let n = s.unicode_len();
    let mut a: usize = 0;
    while a < n && is_whitespace_char_exec(s.get_char(a))
        invariant
            n == s@.len(),
            a <= n,
            forall|j: int| 0 <= j < a ==> is_whitespace_char(s@[j]),
        decreases n - a,
    {
        a += 1;
    }
    proof {
        lemma_first_non_ws(s@, 0, a as int);
    }
    if a == n {
        let r = s.substring_char(n, n);
        proof {
            lemma_last_non_ws(s@, 0, s@.len() as int);
            assert(r@ =~= spec_trim(s@));
        }
        return r;
    }
    let mut b: usize = n;
    while b > a && is_whitespace_char_exec(s.get_char(b - 1))
        invariant
            n == s@.len(),
            a < n,
            a <= b <= n,
            !is_whitespace_char(s@[a as int]),
            forall|j: int| b <= j < n ==> is_whitespace_char(s@[j]),
        decreases b,
    {
        b -= 1;
    }
    proof {
        assert(b > a);
        lemma_last_non_ws(s@, b as int, s@.len() as int);
    }
    s.substring_char(a, b)
}

/// The concatenation of two string slices.
pub fn concat2(a: &str, b: &str) -> (r: String)
    ensures
        r@ == a@ + b@,
{
    let mut r = a.to_owned();
    r.append(b);
    r
}

} // verus!
