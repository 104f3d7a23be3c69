//! Character-level helpers shared across the crate: decimal numerals,
//! character vectors, equality and substring search over text.

use vstd::prelude::*;
use vstd::string::StrSliceExecFns;

verus! {

/// The decimal digit character for `d`, which must be below ten.
pub open spec fn dec_digit(d: int) -> char
    recommends
        0 <= d < 10,
{
    ((48 + d) as u8) as char
}

/// The decimal numeral of `n`, most significant digit first.
pub open spec fn spec_dec(n: int) -> Seq<char>
    recommends
        n >= 0,
    decreases n,
{
    if n < 10 {
        seq![dec_digit(n)]
    } else {
        spec_dec(n / 10).push(dec_digit(n % 10))
    }
}

/// Appends one character. Relies on `String::push`, which appends the given
/// character to the end of the string.
#[verifier::external_body]
pub fn push_char(s: &mut String, c: char)
    ensures
        final(s)@ == old(s)@.push(c),
{
    s.push(c);
}

/// Renders `n` in decimal.
pub fn u64_to_dec(n: u64) -> (s: String)
    ensures
        s@ == spec_dec(n as int),
    decreases n,
{
    let d: u8 = 48 + (n % 10) as u8;
    if n < 10 {
        let mut s = String::new();
        push_char(&mut s, d as char);
        proof {
            assert(s@ =~= spec_dec(n as int));
        }
        s
    } else {
        let mut s = u64_to_dec(n / 10);
        push_char(&mut s, d as char);
        s
    }
}

/// The characters of `s`, in order.
pub fn str_to_chars(s: &str) -> (v: Vec<char>)
    ensures
        v@ == s@,
{
    let n = s.unicode_len();
    let mut v: Vec<char> = Vec::new();
    let mut i: usize = 0;
    while i < n
        invariant
            n == s@.len(),
            i <= n,
            v@ == s@.take(i as int),
        decreases n - i,
    {
        let c = s.get_char(i);
        v.push(c);
        proof {
            assert(v@ =~= s@.take(i + 1));
        }
        i += 1;
    }
    proof {
        assert(s@.take(n as int) =~= s@);
    }
    v
}

/// The text whose characters are `v[from..to]`.
pub fn chars_range_to_string(v: &Vec<char>, from: usize, to: usize) -> (s: String)
    requires
        from <= to <= v@.len(),
    ensures
        s@ == v@.subrange(from as int, to as int),
{
    let mut s = String::new();
    let mut i: usize = from;
    while i < to
        invariant
            from <= i <= to <= v@.len(),
            s@ == v@.subrange(from as int, i as int),
        decreases to - i,
    {
        push_char(&mut s, v[i]);
        proof {
            assert(v@.subrange(from as int, i as int).push(v@[i as int]) =~= v@.subrange(
                from as int,
                i + 1,
            ));
        }
        i += 1;
    }
    s
}

/// Whether two texts have the same characters.
pub fn str_eq(a: &str, b: &str) -> (r: bool)
    ensures
        r == (a@ == b@),
{
    let an = a.unicode_len();
    let bn = b.unicode_len();
    if an != bn {
        return false;
    }
    let mut i: usize = 0;
    while i < an
        invariant
            an == a@.len(),
            an == b@.len(),
            i <= an,
            forall|k: int| 0 <= k < i ==> a@[k] == b@[k],
        decreases an - i,
    {
        if a.get_char(i) != b.get_char(i) {
            return false;
        }
        i += 1;
    }
    proof {
        assert(a@ =~= b@);
    }
    true
}

/// `n` occurs in `h` as a contiguous run.
pub open spec fn spec_contains(h: Seq<char>, n: Seq<char>) -> bool {
    exists|i: int|
        0 <= i && i + n.len() <= h.len() && #[trigger] h.subrange(i, i + n.len()) == n
}

/// Naive substring search.
pub fn str_contains(h: &str, needle: &str) -> (r: bool)
    ensures
        r == spec_contains(h@, needle@),
{
    let hv = str_to_chars(h);
    let nv = str_to_chars(needle);
    let hn = hv.len();
    let nn = nv.len();
    if nn > hn {
        return false;
    }
    let mut i: usize = 0;
    while i <= hn - nn
        invariant
            hv@ == h@,
            nv@ == needle@,
            hn == h@.len(),
            nn == needle@.len(),
            nn <= hn,
            i <= hn,
            forall|k: int| 0 <= k < i ==> #[trigger] h@.subrange(k, k + nn as int) != needle@,
        decreases hn - i,
    {
        let mut j: usize = 0;
        while j < nn && hv[i + j] == nv[j]
            invariant
                hv@ == h@,
                nv@ == needle@,
                hn == h@.len(),
                nn == needle@.len(),
                i + nn <= hn,
                j <= nn,
                forall|k: int| 0 <= k < j ==> h@[i + k] == needle@[k],
            decreases nn - j,
        {
            j += 1;
        }
        if j == nn {
            proof {
                assert(h@.subrange(i as int, i as int + nn as int) =~= needle@);
            }
            return true;
        }
        proof {
            assert(h@.subrange(i as int, i as int + nn as int)[j as int] != needle@[j as int]);
        }
        i += 1;
    }
    false
}

/// An ASCII whitespace character.
pub open spec fn is_ws(c: char) -> bool {
    c == ' ' || c == '\t' || c == '\r' || c == '\n' || c == '\u{b}' || c == '\u{c}'
}

/// `s` without leading whitespace.
pub open spec fn trim_start(s: Seq<char>) -> Seq<char>
    decreases s.len(),
{
    if s.len() > 0 && is_ws(s[0]) {
        trim_start(s.drop_first())
    } else {
        s
    }
}

/// `s` without trailing whitespace.
pub open spec fn trim_end(s: Seq<char>) -> Seq<char>
    decreases s.len(),
{
    if s.len() > 0 && is_ws(s.last()) {
        trim_end(s.drop_last())
    } else {
        s
    }
}

/// `s` without leading or trailing whitespace.
pub open spec fn spec_trim(s: Seq<char>) -> Seq<char> {
    trim_end(trim_start(s))
}

/// The first position at or after `i` holding `c`, or the length if none does.
pub open spec fn find_from(s: Seq<char>, c: char, i: int) -> int
    recommends
        0 <= i <= s.len(),
    decreases s.len() - i,
{
    if i < 0 || i >= s.len() {
        s.len() as int
    } else if s[i] == c {
        i
    } else {
        find_from(s, c, i + 1)
    }
}

pub proof fn lemma_find_from_in_range(s: Seq<char>, c: char, i: int)
    requires
        0 <= i <= s.len(),
    ensures
        i <= find_from(s, c, i) <= s.len(),
        find_from(s, c, i) < s.len() ==> s[find_from(s, c, i)] == c,
        forall|k: int| i <= k < find_from(s, c, i) ==> s[k] != c,
    decreases s.len() - i,
{
    if i < s.len() && s[i] != c {
        lemma_find_from_in_range(s, c, i + 1);
    }
}

fn is_ws_exec(c: char) -> (r: bool)
    ensures
        r == is_ws(c),
{
    c == ' ' || c == '\t' || c == '\r' || c == '\n' || c == '\u{b}' || c == '\u{c}'
}

/// Narrows `[from, to)` in `v` to the whitespace-trimmed core, so that the
/// characters in the result range are the trimmed text.
pub fn trim_range(v: &Vec<char>, from: usize, to: usize) -> (r: (usize, usize))
    requires
        from <= to <= v@.len(),
    ensures
        from <= r.0 <= r.1 <= to,
        v@.subrange(r.0 as int, r.1 as int) == spec_trim(v@.subrange(from as int, to as int)),
{
    let ghost orig = v@.subrange(from as int, to as int);
    let mut a = from;
    while a < to && is_ws_exec(v[a])
        invariant
            from <= a <= to <= v@.len(),
            trim_start(v@.subrange(a as int, to as int)) == trim_start(orig),
            orig == v@.subrange(from as int, to as int),
        decreases to - a,
    {
        proof {
            assert(v@.subrange(a as int, to as int).drop_first() =~= v@.subrange(
                a + 1,
                to as int,
            ));
        }
        a += 1;
    }
    proof {
        assert(trim_start(v@.subrange(a as int, to as int)) == v@.subrange(a as int, to as int));
    }
    let mut b = to;
    while b > a && is_ws_exec(v[b - 1])
        invariant
            from <= a <= b <= to <= v@.len(),
            trim_end(v@.subrange(a as int, b as int)) == trim_end(
                trim_start(orig),
            ),
            orig == v@.subrange(from as int, to as int),
        decreases b - a,
    {
        proof {
            assert(v@.subrange(a as int, b as int).drop_last() =~= v@.subrange(
                a as int,
                b - 1,
            ));
        }
        b -= 1;
    }
    proof {
        assert(trim_end(v@.subrange(a as int, b as int)) == v@.subrange(a as int, b as int));
    }
    (a, b)
}

/// The first position of `c` at or after `i`, executably.
pub fn find_char_from(v: &Vec<char>, c: char, i: usize) -> (r: usize)
    requires
        i <= v@.len(),
    ensures
        r == find_from(v@, c, i as int),
        i <= r <= v@.len(),
        r < v@.len() ==> v@[r as int] == c,
        forall|k: int| i <= k < r ==> v@[k] != c,
    decreases v@.len() - i,
{
    proof {
        lemma_find_from_in_range(v@, c, i as int);
    }
    let n = v.len();
    let mut j = i;
    while j < n && v[j] != c
        invariant
            i <= j <= n,
            n == v@.len(),
            find_from(v@, c, i as int) == find_from(v@, c, j as int),
            forall|k: int| i <= k < j ==> v@[k] != c,
        decreases n - j,
    {
        j += 1;
    }
    j
}

/// The first position of `c` in `[from, to)`, relative to the whole vector;
/// `to` if the range holds none.
pub fn find_char_in_range(v: &Vec<char>, c: char, from: usize, to: usize) -> (r: usize)
    requires
        from <= to <= v@.len(),
    ensures
        from <= r <= to,
        r - from == find_from(v@.subrange(from as int, to as int), c, 0),
        r < to ==> v@[r as int] == c,
        forall|k: int| from <= k < r ==> v@[k] != c,
{
    let ghost t = v@.subrange(from as int, to as int);
    let mut j = from;
    while j < to && v[j] != c
        invariant
            from <= j <= to <= v@.len(),
            t == v@.subrange(from as int, to as int),
            find_from(t, c, 0) == find_from(t, c, j - from),
            forall|k: int| from <= k < j ==> v@[k] != c,
        decreases to - j,
    {
        j += 1;
    }
    proof {
        lemma_find_from_in_range(t, c, j - from);
        if j < to {
            assert(t[j - from] == c);
        }
    }
    j
}

} // verus!

