//! A small map from header names to header values, viewed as a
//! `Map<Seq<char>, Seq<char>>`, and a parser for header blocks written one
//! `Name: value` pair per line.

use vstd::prelude::*;
use crate::text::{
    find_from, spec_trim, str_to_chars, chars_range_to_string, str_eq, trim_range,
    find_char_in_range, find_char_from, lemma_find_from_in_range,
};

verus! {

/// The map described by a pair list, later pairs overriding earlier ones.
pub open spec fn pairs_map(s: Seq<(String, String)>) -> Map<Seq<char>, Seq<char>>
    decreases s.len(),
{
    if s.len() == 0 {
        Map::<Seq<char>, Seq<char>>::empty()
    } else {
        pairs_map(s.drop_last()).insert(s.last().0@, s.last().1@)
    }
}

/// No header name occurs twice.
pub open spec fn distinct_keys(s: Seq<(String, String)>) -> bool {
    forall|i: int, j: int| 0 <= i < j < s.len() ==> s[i].0@ != s[j].0@
}

proof fn lemma_pairs_map_absent(s: Seq<(String, String)>, key: Seq<char>)
    requires
        forall|i: int| 0 <= i < s.len() ==> s[i].0@ != key,
    ensures
        !pairs_map(s).contains_key(key),
    decreases s.len(),
{
    if s.len() > 0 {
        lemma_pairs_map_absent(s.drop_last(), key);
    }
}

proof fn lemma_pairs_map_found(s: Seq<(String, String)>, i: int)
    requires
        distinct_keys(s),
        0 <= i < s.len(),
    ensures
        pairs_map(s).contains_key(s[i].0@),
        pairs_map(s)[s[i].0@] == s[i].1@,
    decreases s.len(),
{
    if i < s.len() - 1 {
        lemma_pairs_map_found(s.drop_last(), i);
    }
}

proof fn lemma_pairs_map_len(s: Seq<(String, String)>)
    requires
        distinct_keys(s),
    ensures
        pairs_map(s).dom().finite(),
        pairs_map(s).dom().len() == s.len(),
    decreases s.len(),
{
    if s.len() > 0 {
        lemma_pairs_map_len(s.drop_last());
        lemma_pairs_map_absent(s.drop_last(), s.last().0@);
    }
}


/// `s` without the pairs named `key`, in order.
pub open spec fn filter_key(s: Seq<(String, String)>, key: Seq<char>) -> Seq<(String, String)>
    decreases s.len(),
{
    if s.len() == 0 {
        s
    } else {
        let rest = filter_key(s.drop_last(), key);
        if s.last().0@ == key {
            rest
        } else {
            rest.push(s.last())
        }
    }
}

proof fn lemma_filter_key_map(s: Seq<(String, String)>, key: Seq<char>)
    ensures
        pairs_map(filter_key(s, key)) =~= pairs_map(s).remove(key),
        forall|j: int| 0 <= j < filter_key(s, key).len() ==> (#[trigger] filter_key(s, key)[j]).0@
            != key,
    decreases s.len(),
{
    if s.len() > 0 {
        lemma_filter_key_map(s.drop_last(), key);
        let f = filter_key(s, key);
        let fd = filter_key(s.drop_last(), key);
        if s.last().0@ != key {
            assert(f.drop_last() =~= fd);
            assert(f.last() == s.last());
        }
    }
}

proof fn lemma_filter_key_keeps_absent(s: Seq<(String, String)>, key: Seq<char>, other: Seq<char>)
    requires
        forall|i: int| 0 <= i < s.len() ==> s[i].0@ != other,
    ensures
        forall|j: int| 0 <= j < filter_key(s, key).len() ==> (#[trigger] filter_key(s, key)[j]).0@
            != other,
    decreases s.len(),
{
    if s.len() > 0 {
        lemma_filter_key_keeps_absent(s.drop_last(), key, other);
        let f = filter_key(s, key);
        let fd = filter_key(s.drop_last(), key);
        if s.last().0@ != key {
            assert(f.drop_last() =~= fd);
            assert(forall|j: int| 0 <= j < f.len() - 1 ==> f[j] == fd[j]);
        }
    }
}

proof fn lemma_filter_key_distinct(s: Seq<(String, String)>, key: Seq<char>)
    requires
        distinct_keys(s),
    ensures
        distinct_keys(filter_key(s, key)),
    decreases s.len(),
{
    if s.len() > 0 {
        lemma_filter_key_distinct(s.drop_last(), key);
        lemma_filter_key_keeps_absent(s.drop_last(), key, s.last().0@);
        let f = filter_key(s, key);
        let fd = filter_key(s.drop_last(), key);
        if s.last().0@ != key {
            assert forall|a: int, b: int| 0 <= a < b < f.len() implies f[a].0@ != f[b].0@ by {
                if b < f.len() - 1 {
                    assert(f[a] == fd[a] && f[b] == fd[b]);
                } else {
                    assert(f[a] == fd[a]);
                }
            }
        }
    }
}

/// A mapping of header name to header value.
#[derive(Debug)]
pub struct HeaderMap {
    pairs: Vec<(String, String)>,
}

impl View for HeaderMap {
    type V = Map<Seq<char>, Seq<char>>;

    closed spec fn view(&self) -> Map<Seq<char>, Seq<char>> {
        pairs_map(self.pairs@)
    }
}

impl HeaderMap {
    #[verifier::type_invariant]
    spec fn wf(&self) -> bool {
        distinct_keys(self.pairs@)
    }

    /// An empty mapping.
    pub fn new() -> (m: HeaderMap)
        ensures
            m@ == Map::<Seq<char>, Seq<char>>::empty(),
    {
        HeaderMap { pairs: Vec::new() }
    }

    /// Binds `key` to `value`, replacing any earlier binding.
    pub fn insert(&mut self, key: &str, value: &str)
        ensures
            final(self)@ == old(self)@.insert(key@, value@),
    {
        proof {
            use_type_invariant(&*self);
        }
        let ghost orig = self.pairs@;
        let n = self.pairs.len();
        let mut pairs: Vec<(String, String)> = Vec::new();
        let mut i: usize = 0;
        while i < n
            invariant
                n == self.pairs@.len(),
                self.pairs@ == orig,
                i <= n,
                pairs@.len() == filter_key(orig.take(i as int), key@).len(),
                forall|j: int|
                    0 <= j < pairs@.len() ==> (#[trigger] pairs@[j]).0@ == filter_key(
                        orig.take(i as int),
                        key@,
                    )[j].0@ && pairs@[j].1@ == filter_key(orig.take(i as int), key@)[j].1@,
            decreases n - i,
        {
            let same = str_eq(self.pairs[i].0.as_str(), key);
            proof {
                assert(orig.take(i + 1).drop_last() =~= orig.take(i as int));
                assert(orig.take(i + 1).last() == orig[i as int]);
            }
            if !same {
                let k = self.pairs[i].0.clone();
                let v = self.pairs[i].1.clone();
                pairs.push((k, v));
            }
            i += 1;
        }
        proof {
            assert(orig.take(n as int) =~= orig);
            lemma_filter_key_map(orig, key@);
            lemma_filter_key_distinct(orig, key@);
            lemma_pairs_map_congruent(pairs@, filter_key(orig, key@));
        }
        let ghost filtered = pairs@;
        pairs.push((key.to_owned(), value.to_owned()));
        self.pairs = pairs;
        proof {
            assert(self.pairs@.drop_last() =~= filtered);
            assert(pairs_map(self.pairs@) =~= pairs_map(orig).insert(key@, value@));
            assert forall|a: int, b: int|
                0 <= a < b < self.pairs@.len() implies self.pairs@[a].0@
                != self.pairs@[b].0@ by {
                if b == self.pairs@.len() - 1 {
                    assert(self.pairs@[a].0@ == filter_key(orig, key@)[a].0@);
                }
            }
        }
    }

    /// The value bound to `key`, if any.
    pub fn get(&self, key: &str) -> (r: Option<&String>)
        ensures
            r is Some <==> self@.contains_key(key@),
            r is Some ==> r->0@ == self@[key@],
    {
        proof {
            use_type_invariant(self);
        }
        let n = self.pairs.len();
        let mut i: usize = 0;
        while i < n
            invariant
                n == self.pairs@.len(),
                i <= n,
                distinct_keys(self.pairs@),
                self@ == pairs_map(self.pairs@),
                forall|k: int| 0 <= k < i ==> self.pairs@[k].0@ != key@,
            decreases n - i,
        {
            if str_eq(self.pairs[i].0.as_str(), key) {
                proof {
                    lemma_pairs_map_found(self.pairs@, i as int);
                }
                return Some(&self.pairs[i].1);
            }
            i += 1;
        }
        proof {
            lemma_pairs_map_absent(self.pairs@, key@);
        }
        None
    }

    /// Whether `key` is bound.
    pub fn contains_key(&self, key: &str) -> (r: bool)
        ensures
            r == self@.contains_key(key@),
    {
        match self.get(key) {
            Some(_) => true,
            None => false,
        }
    }

    /// How many names are bound.
    pub fn len(&self) -> (r: usize)
        ensures
            r == self@.dom().len(),
    {
        proof {
            use_type_invariant(self);
            lemma_pairs_map_len(self.pairs@);
        }
        self.pairs.len()
    }

    /// Whether nothing is bound.
    pub fn is_empty(&self) -> (r: bool)
        ensures
            r == (self@.dom().len() == 0),
    {
        self.len() == 0
    }

    /// The bindings as pairs: each one in the map, no name twice, and every
    /// bound name listed.
    pub fn entries(&self) -> (r: &Vec<(String, String)>)
        ensures
            r@.len() == self@.dom().len(),
            forall|i: int|
                0 <= i < r@.len() ==> self@.contains_key(#[trigger] r@[i].0@) && self@[r@[i].0@]
                    == r@[i].1@,
            forall|i: int, j: int| 0 <= i < j < r@.len() ==> r@[i].0@ != r@[j].0@,
            forall|k: Seq<char>|
                self@.contains_key(k) ==> exists|i: int|
                    0 <= i < r@.len() && (#[trigger] r@[i]).0@ == k,
    {
        proof {
            use_type_invariant(self);
            lemma_pairs_map_len(self.pairs@);
            assert forall|i: int| 0 <= i < self.pairs@.len() implies self@.contains_key(
                #[trigger] self.pairs@[i].0@,
            ) && self@[self.pairs@[i].0@] == self.pairs@[i].1@ by {
                lemma_pairs_map_found(self.pairs@, i);
            }
            assert forall|k: Seq<char>| self@.contains_key(k) implies exists|i: int|
                0 <= i < self.pairs@.len() && (#[trigger] self.pairs@[i]).0@ == k by {
                if forall|i: int|
                    0 <= i < self.pairs@.len() ==> (#[trigger] self.pairs@[i]).0@ != k {
                    lemma_pairs_map_absent(self.pairs@, k);
                }
            }
        }
        &self.pairs
    }

    /// A copy with the same bindings.
    pub fn duplicate(&self) -> (r: HeaderMap)
        ensures
            r@ == self@,
    {
        proof {
            use_type_invariant(self);
        }
        let n = self.pairs.len();
        let mut pairs: Vec<(String, String)> = Vec::new();
        let mut i: usize = 0;
        while i < n
            invariant
                n == self.pairs@.len(),
                i <= n,
                pairs@.len() == i,
                forall|k: int|
                    0 <= k < i ==> (#[trigger] pairs@[k]).0@ == self.pairs@[k].0@ && pairs@[k].1@
                        == self.pairs@[k].1@,
            decreases n - i,
        {
            let k = self.pairs[i].0.clone();
            let v = self.pairs[i].1.clone();
            pairs.push((k, v));
            i += 1;
        }
        proof {
            lemma_pairs_map_congruent(pairs@, self.pairs@);
        }
        HeaderMap { pairs }
    }
}

proof fn lemma_pairs_map_congruent(a: Seq<(String, String)>, b: Seq<(String, String)>)
    requires
        a.len() == b.len(),
        forall|k: int| 0 <= k < a.len() ==> (#[trigger] a[k]).0@ == b[k].0@ && a[k].1@ == b[k].1@,
        distinct_keys(b),
    ensures
        pairs_map(a) =~= pairs_map(b),
        distinct_keys(a),
    decreases a.len(),
{
    if a.len() > 0 {
        lemma_pairs_map_congruent(a.drop_last(), b.drop_last());
    }
}

/// The parse of a header block from position `i` on, given the bindings made
/// so far: each line is trimmed, blank lines are skipped, and a line without
/// a colon fails the whole parse.
pub open spec fn parse_from(
    s: Seq<char>,
    i: int,
    acc: Map<Seq<char>, Seq<char>>,
) -> Option<Map<Seq<char>, Seq<char>>>
    recommends
        0 <= i,
    decreases s.len() + 1 - i,
    via parse_from_dec
{
    if i >= s.len() || i < 0 {
        Some(acc)
    } else {
        let j = find_from(s, '\n', i);
        let t = spec_trim(s.subrange(i, j));
        if t.len() == 0 {
            parse_from(s, j + 1, acc)
        } else {
            let k = find_from(t, ':', 0);
            if k >= t.len() {
                None
            } else {
                parse_from(s, j + 1, acc.insert(spec_trim(t.take(k)), spec_trim(t.skip(k + 1))))
            }
        }
    }
}

#[via_fn]
proof fn parse_from_dec(s: Seq<char>, i: int, acc: Map<Seq<char>, Seq<char>>) {
    if 0 <= i < s.len() {
        lemma_find_from_in_range(s, '\n', i);
    }
}

/// The header block's bindings, or nothing if some line is malformed.
pub open spec fn spec_parse_headers(s: Seq<char>) -> Option<Map<Seq<char>, Seq<char>>> {
    parse_from(s, 0, Map::<Seq<char>, Seq<char>>::empty())
}

/// The trimmed text of the first nonblank line from `i` on that holds no
/// colon; empty if every such line has one.
pub open spec fn first_malformed_from(s: Seq<char>, i: int) -> Seq<char>
    recommends
        0 <= i,
    decreases s.len() + 1 - i,
    via first_malformed_from_dec
{
    if i >= s.len() || i < 0 {
        Seq::<char>::empty()
    } else {
        let j = find_from(s, '\n', i);
        let t = spec_trim(s.subrange(i, j));
        if t.len() == 0 {
            first_malformed_from(s, j + 1)
        } else if find_from(t, ':', 0) >= t.len() {
            t
        } else {
            first_malformed_from(s, j + 1)
        }
    }
}

#[via_fn]
proof fn first_malformed_from_dec(s: Seq<char>, i: int) {
    if 0 <= i < s.len() {
        lemma_find_from_in_range(s, '\n', i);
    }
}

/// The first malformed line of the block.
pub open spec fn spec_first_malformed_line(s: Seq<char>) -> Seq<char> {
    first_malformed_from(s, 0)
}

/// Why a header block was rejected.
#[derive(Debug, PartialEq, Eq)]
pub enum HeaderError {
    /// A nonblank line holds no colon; the line is carried along.
    MalformedHeaderLine(String),
}

/// Parses a header block: one `Name: value` per line, names and values
/// trimmed, blank lines ignored. A rejection carries the offending line.
pub fn parse_headers_string(headers_str: &str) -> (r: Result<HeaderMap, HeaderError>)
    ensures
        r is Ok <==> spec_parse_headers(headers_str@) is Some,
        r is Ok ==> r->Ok_0@ == spec_parse_headers(headers_str@)->0,
        r matches Err(HeaderError::MalformedHeaderLine(line)) ==> line@
            == spec_first_malformed_line(headers_str@),
{
    let cv = str_to_chars(headers_str);
    let n = cv.len();
    let mut m = HeaderMap::new();
    let mut i: usize = 0;
    while i < n
        invariant
            cv@ == headers_str@,
            n == cv@.len(),
            i <= n,
            parse_from(cv@, i as int, m@) == spec_parse_headers(cv@),
            first_malformed_from(cv@, i as int) == spec_first_malformed_line(cv@),
        decreases n - i,
    {
        let j = find_char_from(&cv, '\n', i);
        let (a, b) = trim_range(&cv, i, j);
        let ghost t = spec_trim(cv@.subrange(i as int, j as int));
        proof {
            assert(t == cv@.subrange(a as int, b as int));
        }
        if a == b {
            proof {
                assert(t.len() == 0);
            }
        } else {
            let k = find_char_in_range(&cv, ':', a, b);
            proof {
                assert(t.len() == b - a);
                assert(find_from(t, ':', 0) == k - a);
            }
            if k == b {
                let line = chars_range_to_string(&cv, a, b);
                proof {
                    assert(first_malformed_from(cv@, i as int) == t);
                }
                return Err(HeaderError::MalformedHeaderLine(line));
            }
            let (ka, kb) = trim_range(&cv, a, k);
            let (va, vb) = trim_range(&cv, k + 1, b);
            let key = chars_range_to_string(&cv, ka, kb);
            let value = chars_range_to_string(&cv, va, vb);
            proof {
                assert(t.take(k - a) =~= cv@.subrange(a as int, k as int));
                assert(t.skip(k - a + 1) =~= cv@.subrange(k + 1, b as int));
            }
            m.insert(key.as_str(), value.as_str());
        }
        if j < n {
            i = j + 1;
        } else {
            proof {
                assert(parse_from(cv@, j + 1, m@) == parse_from(cv@, j as int, m@));
                assert(first_malformed_from(cv@, j + 1) == first_malformed_from(cv@, j as int));
            }
            i = j;
        }
    }
    proof {
        assert(parse_from(cv@, i as int, m@) == Some(m@));
    }
    Ok(m)
}

} // verus!
