//! The name matcher: a finite dictionary of registered names, each carrying a
//! canonical value, with exact lookup and longest-prefix lookup against the
//! start of a text.
//!
//! The mathematical model of a matcher is a partial map from character
//! sequences to values; every operation is specified against that map.

use vstd::prelude::*;
use vstd::string::StrSliceExecFns;
use vstd::string::StringSliceAdditionalSpecFns;
use crate::text::{str_eq, str_prefix_eq};

verus! {

/// One registered name together with its canonical value.
pub struct TrieNode<T> {
    pub key: String,
    pub value: T,
}

/// A dictionary of names used for exact and longest-prefix matching.
pub struct Trie<T> {
    entries: Vec<TrieNode<T>>,
}

/// The partial map described by a sequence of entries; a later entry for the
/// same name overrides an earlier one.
pub open spec fn assoc_map<T>(s: Seq<TrieNode<T>>) -> Map<Seq<char>, T>
    decreases s.len(),
{
    if s.len() == 0 {
        Map::empty()
    } else {
        assoc_map(s.drop_last()).insert(s.last().key@, s.last().value)
    }
}

impl<T> View for Trie<T> {
    type V = Map<Seq<char>, T>;

    closed spec fn view(&self) -> Map<Seq<char>, T> {
        assoc_map(self.entries@)
    }
}

/// A key in the map of a sequence of entries is the key of some entry.
proof fn lemma_assoc_dom<T>(s: Seq<TrieNode<T>>, k: Seq<char>)
    requires
        assoc_map(s).dom().contains(k),
    ensures
        exists|j: int| 0 <= j < s.len() && s[j].key@ == k,
    decreases s.len(),
{
    if s.len() > 0 {
        if s.last().key@ == k {
            assert(s[s.len() - 1].key@ == k);
        } else {
            lemma_assoc_dom(s.drop_last(), k);
            let j = choose|j: int| 0 <= j < s.drop_last().len() && s.drop_last()[j].key@ == k;
            assert(s[j].key@ == k);
        }
    }
}

/// Entries from position `i` on that never mention `k` do not change the map
/// at `k`.
proof fn lemma_assoc_skip<T>(s: Seq<TrieNode<T>>, k: Seq<char>, i: int)
    requires
        0 <= i <= s.len(),
        forall|j: int| i <= j < s.len() ==> s[j].key@ != k,
    ensures
        assoc_map(s).dom().contains(k) == assoc_map(s.take(i)).dom().contains(k),
        assoc_map(s).dom().contains(k) ==> assoc_map(s)[k] == assoc_map(s.take(i))[k],
    decreases s.len() - i,
{
    if i == s.len() {
        assert(s.take(i) =~= s);
    } else {
        lemma_assoc_skip(s, k, i + 1);
        assert(s.take(i + 1).drop_last() =~= s.take(i));
        assert(s.take(i + 1).last() == s[i]);
    }
}

/// The map of a prefix of the entries, extended by the next entry, is the map
/// of the longer prefix.
proof fn lemma_assoc_take_step<T>(s: Seq<TrieNode<T>>, i: int)
    requires
        0 <= i < s.len(),
    ensures
        assoc_map(s.take(i + 1)) == assoc_map(s.take(i)).insert(s[i].key@, s[i].value),
{
    assert(s.take(i + 1).drop_last() =~= s.take(i));
    assert(s.take(i + 1).last() == s[i]);
}

/// The longest-prefix match of `text` against `m` among lengths `1..=l`: the
/// matched prefix and its value.
pub open spec fn spec_longest_from<T>(m: Map<Seq<char>, T>, text: Seq<char>, l: int) -> Option<
    (Seq<char>, T),
>
    decreases l,
{
    if l < 1 {
        None
    } else if m.dom().contains(text.take(l)) {
        Some((text.take(l), m[text.take(l)]))
    } else {
        spec_longest_from(m, text, l - 1)
    }
}

/// The longest nonempty prefix of `text` that is a key of `m`, with its value.
pub open spec fn spec_longest<T>(m: Map<Seq<char>, T>, text: Seq<char>) -> Option<(Seq<char>, T)> {
    spec_longest_from(m, text, text.len() as int)
}

proof fn lemma_longest_from_down<T>(m: Map<Seq<char>, T>, text: Seq<char>, l: int, hi: int)
    requires
        l <= hi,
        forall|l2: int| l < l2 <= hi ==> !m.dom().contains(text.take(l2)),
    ensures
        spec_longest_from(m, text, hi) == spec_longest_from(m, text, l),
    decreases hi - l,
{
    if hi > l {
        lemma_longest_from_down(m, text, l, hi - 1);
    }
}

/// If `text.take(l)` is a key and no longer prefix is, the longest match is
/// exactly that prefix.
pub proof fn lemma_longest_some<T>(m: Map<Seq<char>, T>, text: Seq<char>, l: int)
    requires
        1 <= l <= text.len(),
        m.dom().contains(text.take(l)),
        forall|l2: int| l < l2 <= text.len() ==> !m.dom().contains(text.take(l2)),
    ensures
        spec_longest(m, text) == Some((text.take(l), m[text.take(l)])),
{
    lemma_longest_from_down(m, text, l, text.len() as int);
}

/// If no nonempty prefix of `text` is a key, there is no longest match.
pub proof fn lemma_longest_none<T>(m: Map<Seq<char>, T>, text: Seq<char>)
    requires
        forall|l: int| 1 <= l <= text.len() ==> !m.dom().contains(text.take(l)),
    ensures
        spec_longest(m, text) is None,
{
    lemma_longest_from_down(m, text, 0, text.len() as int);
}

proof fn lemma_longest_from_props<T>(m: Map<Seq<char>, T>, text: Seq<char>, hi: int)
    requires
        0 <= hi <= text.len(),
    ensures
        match spec_longest_from(m, text, hi) {
            Some((k, v)) => {
                &&& 1 <= k.len() <= hi
                &&& k == text.take(k.len() as int)
                &&& m.dom().contains(k)
                &&& v == m[k]
                &&& forall|l: int| k.len() < l <= hi ==> !m.dom().contains(text.take(l))
            },
            None => forall|l: int| 1 <= l <= hi ==> !m.dom().contains(text.take(l)),
        },
    decreases hi,
{
    if hi >= 1 && !m.dom().contains(text.take(hi)) {
        lemma_longest_from_props(m, text, hi - 1);
    }
}

/// What a longest match means: the matched prefix is a key of `m`, carries its
/// value, and no longer nonempty prefix of `text` is a key.
pub proof fn lemma_longest_props<T>(m: Map<Seq<char>, T>, text: Seq<char>)
    ensures
        match spec_longest(m, text) {
            Some((k, v)) => {
                &&& 1 <= k.len() <= text.len()
                &&& k == text.take(k.len() as int)
                &&& m.dom().contains(k)
                &&& v == m[k]
                &&& forall|l: int| k.len() < l <= text.len() ==> !m.dom().contains(text.take(l))
            },
            None => forall|l: int| 1 <= l <= text.len() ==> !m.dom().contains(text.take(l)),
        },
{
    lemma_longest_from_props(m, text, text.len() as int);
}

impl<T> Trie<T> {
    /// An empty matcher, with no registered name.
    pub fn new() -> (r: Self)
        ensures
            r@ == Map::<Seq<char>, T>::empty(),
    {
        Trie { entries: Vec::new() }
    }

    /// Registers `word` with its canonical `value`, overwriting any value
    /// previously stored for exactly that name.
    pub fn insert(&mut self, word: &str, value: T)
        ensures
            final(self)@ == old(self)@.insert(word@, value),
    {
        let k = word.to_owned();
        let ghost olde = self.entries@;
        self.entries.push(TrieNode { key: k, value });
        proof {
            assert(self.entries@.drop_last() =~= olde);
        }
    }

    /// The value registered for exactly `word`, if any.
    pub fn get(&self, word: &str) -> (r: Option<&T>)
        ensures
            match r {
                Some(v) => self@.dom().contains(word@) && *v == self@[word@],
                None => !self@.dom().contains(word@),
            },
    {
        let n = self.entries.len();
        let mut i = n;
        while i > 0
            invariant
                n == self.entries@.len(),
                i <= n,
                forall|j: int| i <= j < n ==> self.entries@[j].key@ != word@,
            decreases i,
        {
            i -= 1;
            if str_eq(self.entries[i].key.as_str(), word) {
                proof {
                    lemma_assoc_skip(self.entries@, word@, i + 1);
                    lemma_assoc_take_step(self.entries@, i as int);
                }
                return Some(&self.entries[i].value);
            }
        }
        proof {
            if self@.dom().contains(word@) {
                lemma_assoc_dom(self.entries@, word@);
            }
        }
        None
    }

    /// Whether `word` is a registered name.
    pub fn contains(&self, word: &str) -> (r: bool)
        ensures
            r == self@.dom().contains(word@),
    {
        self.get(word).is_some()
    }

    /// The longest registered name that is a prefix of `text`, its value, and
    /// its length in bytes. Matches never have length zero; the matcher keeps
    /// extending past a registered name while a longer registered name still
    /// matches.
    pub fn find_longest_prefix<'a>(&self, text: &'a str) -> (r: Option<(&'a str, &T, usize)>)
        ensures
            match r {
                Some((m, v, blen)) => {
                    &&& 1 <= m@.len() <= text@.len()
                    &&& m@ == text@.take(m@.len() as int)
                    &&& self@.dom().contains(m@)
                    &&& *v == self@[m@]
                    &&& blen == m.spec_bytes().len() as usize
                    &&& forall|l: int|
                        m@.len() < l <= text@.len() ==> !self@.dom().contains(text@.take(l))
                    &&& spec_longest(self@, text@) == Some((m@, *v))
                },
                None => {
                    &&& forall|l: int|
                        1 <= l <= text@.len() ==> !self@.dom().contains(text@.take(l))
                    &&& spec_longest(self@, text@) is None
                },
            },
    {
        let tlen = text.unicode_len();
        let n = self.entries.len();
        let mut best_idx: usize = 0;
        let mut best_len: usize = 0;
        let mut found = false;
        let mut i: usize = 0;
        while i < n
            invariant
                n == self.entries@.len(),
                tlen == text@.len(),
                i <= n,
                !found ==> forall|j: int|
                    0 <= j < i ==> !(1 <= self.entries@[j].key@.len() <= tlen
                        && self.entries@[j].key@ == text@.take(self.entries@[j].key@.len() as int)),
                found ==> best_idx < i,
                found ==> 1 <= best_len <= tlen,
                found ==> self.entries@[best_idx as int].key@ == text@.take(best_len as int),
                found ==> best_len == self.entries@[best_idx as int].key@.len(),
                found ==> forall|j: int|
                    best_idx < j < i ==> self.entries@[j].key@ != text@.take(best_len as int),
                found ==> forall|j: int|
                    0 <= j < i ==> ((1 <= self.entries@[j].key@.len() <= tlen
                        && self.entries@[j].key@ == text@.take(self.entries@[j].key@.len() as int))
                        ==> self.entries@[j].key@.len() <= best_len),
            decreases n - i,
        {
            let key = &self.entries[i].key;
            let klen = key.as_str().unicode_len();
            if 1 <= klen && klen <= tlen && str_prefix_eq(key.as_str(), text, klen) {
                if !found || klen >= best_len {
                    best_idx = i;
                    best_len = klen;
                    found = true;
                }
            }
            i += 1;
        }
        if !found {
            proof {
                assert forall|l: int| 1 <= l <= text@.len() implies !self@.dom().contains(
                    text@.take(l),
                ) by {
                    if self@.dom().contains(text@.take(l)) {
                        lemma_assoc_dom(self.entries@, text@.take(l));
                        let j = choose|j: int|
                            0 <= j < self.entries@.len() && self.entries@[j].key@ == text@.take(l);
                        assert(text@.take(l).len() == l);
                    }
                }
                lemma_longest_none(self@, text@);
            }
            return None;
        }
        let m = text.substring_char(0, best_len);
        let v = &self.entries[best_idx].value;
        let blen = m.len();
        proof {
            assert(m@ =~= text@.take(best_len as int));
            lemma_assoc_skip(self.entries@, m@, best_idx + 1);
            lemma_assoc_take_step(self.entries@, best_idx as int);
            assert forall|l: int| m@.len() < l <= text@.len() implies !self@.dom().contains(
                text@.take(l),
            ) by {
                if self@.dom().contains(text@.take(l)) {
                    lemma_assoc_dom(self.entries@, text@.take(l));
                    let j = choose|j: int|
                        0 <= j < self.entries@.len() && self.entries@[j].key@ == text@.take(l);
                    assert(text@.take(l).len() == l);
                }
            }
            lemma_longest_some(self@, text@, best_len as int);
        }
        Some((m, v, blen))
    }

    /// The longest matches found at every character position of `text`, each
    /// with the byte offset of its position, the matched slice and its value.
    pub fn find_all<'a>(&self, text: &'a str) -> (r: Vec<(usize, &'a str, &T)>)
        ensures
            r@.len() == spec_find_all(self@, text@, 0).len(),
            forall|k: int|
                0 <= k < r@.len() ==> {
                    let e = spec_find_all(self@, text@, 0)[k];
                    &&& (#[trigger] r@[k]).0 == vstd::utf8::encode_utf8(text@.take(e.0)).len()
                        as usize
                    &&& r@[k].1@ == e.1
                    &&& *r@[k].2 == e.2
                },
    {
        let ghost s0 = spec_find_all(self@, text@, 0);
        let tlen = text.unicode_len();
        let mut out: Vec<(usize, &'a str, &T)> = Vec::new();
        let mut p: usize = 0;
        while p < tlen
            invariant
                tlen == text@.len(),
                p <= tlen,
                s0 == spec_find_all(self@, text@, 0),
                spec_find_all(self@, text@, p as int) == s0.skip(out@.len() as int),
                out@.len() <= s0.len(),
                forall|k: int|
                    0 <= k < out@.len() ==> {
                        let e = s0[k];
                        &&& (#[trigger] out@[k]).0 == vstd::utf8::encode_utf8(text@.take(e.0)).len()
                            as usize
                        &&& out@[k].1@ == e.1
                        &&& *out@[k].2 == e.2
                    },
            decreases tlen - p,
        {
            let rem = text.substring_char(p, tlen);
            proof {
                assert(rem@ =~= text@.skip(p as int));
            }
            match self.find_longest_prefix(rem) {
                Some((matched, value, _blen)) => {
                    let prefix = text.substring_char(0, p);
                    proof {
                        assert(prefix@ =~= text@.take(p as int));
                        let e = ((p as int), matched@, *value);
                        let rest = spec_find_all(self@, text@, p + 1);
                        assert(spec_find_all(self@, text@, p as int) == seq![e] + rest);
                        assert((seq![e] + rest)[0] == e);
                        assert(s0[out@.len() as int] == e);
                        assert(rest =~= (seq![e] + rest).skip(1));
                        assert(s0.skip(out@.len() as int).skip(1) =~= s0.skip(
                            out@.len() as int + 1,
                        ));
                    }
                    let byte_pos = prefix.len();
                    out.push((byte_pos, matched, value));
                },
                None => {
                    proof {
                        assert(spec_find_all(self@, text@, p as int) == spec_find_all(
                            self@,
                            text@,
                            p + 1,
                        ));
                    }
                },
            }
            p += 1;
        }
        proof {
            assert(spec_find_all(self@, text@, p as int) =~= Seq::<(int, Seq<char>, T)>::empty());
            assert(s0.skip(out@.len() as int).len() == 0);
        }
        out
    }
}

/// The longest match, if any, at each character position of `text`, from
/// position `p` on: (position, matched prefix, value) triples in order.
pub open spec fn spec_find_all<T>(m: Map<Seq<char>, T>, text: Seq<char>, p: int) -> Seq<
    (int, Seq<char>, T),
>
    decreases text.len() - p,
{
    if p < 0 || p >= text.len() {
        Seq::empty()
    } else {
        let rest = spec_find_all(m, text, p + 1);
        match spec_longest(m, text.skip(p)) {
            Some((k, v)) => seq![(p, k, v)] + rest,
            None => rest,
        }
    }
}

} // verus!
