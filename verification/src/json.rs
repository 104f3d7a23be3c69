//! JSON checks and lookups. Parsing, rendering and member lookup belong to
//! `serde_json` and stay behind trusted wrappers, whose contracts speak of
//! an uninterpreted tree model of the document; what this crate adds and
//! proves is everything around them: splitting a dotted path, deciding
//! index against key steps, walking the tree, and reporting the first
//! segment that does not resolve.

use vstd::prelude::*;
use crate::text::{str_to_chars, chars_range_to_string, find_from, find_char_from, lemma_find_from_in_range};
use crate::style::{colorize_json, plain_text, strip_styles};

verus! {

#[verifier::external_type_specification]
#[verifier::external_body]
pub struct ExJsonValue(serde_json::Value);

#[verifier::external_type_specification]
#[verifier::external_body]
pub struct ExJsonError(serde_json::Error);

/// A JSON document, as the lookups see it. A number carries its rendering,
/// which the crate never interprets.
pub enum JsonNode {
    Null,
    Bool(bool),
    Num(Seq<char>),
    Str(Seq<char>),
    Arr(Seq<JsonNode>),
    Obj(Map<Seq<char>, JsonNode>),
}

/// The named member of a node, when the node is an object that has it.
pub open spec fn member_of(n: JsonNode, key: Seq<char>) -> Option<JsonNode> {
    match n {
        JsonNode::Obj(m) => if m.contains_key(key) {
            Some(m[key])
        } else {
            None
        },
        _ => None,
    }
}

/// The element of a node, when the node is an array that is long enough.
pub open spec fn element_of(n: JsonNode, i: int) -> Option<JsonNode> {
    match n {
        JsonNode::Arr(a) => if 0 <= i < a.len() {
            Some(a[i])
        } else {
            None
        },
        _ => None,
    }
}

/// Whether serde_json accepts the text as JSON: a fixed function of the text.
pub uninterp spec fn json_accepts(s: Seq<char>) -> bool;

/// The tree a parsed value holds: a fixed function of the value.
pub uninterp spec fn model_of(v: serde_json::Value) -> JsonNode;

/// The tree a JSON text parses to: a fixed function of the text.
pub uninterp spec fn json_model(s: Seq<char>) -> JsonNode;

/// The text a tree renders to with indentation: a fixed function of the tree.
pub uninterp spec fn pretty_of(n: JsonNode) -> Seq<char>;

/// Relies on `serde_json::from_str::<Value>`: it succeeds exactly on the
/// texts serde_json's grammar accepts, and both the outcome and the parsed
/// document are functions of the text alone.
#[verifier::external_body]
pub(crate) fn parse_json_value(s: &str) -> (r: Result<serde_json::Value, serde_json::Error>)
    ensures
        r is Ok <==> json_accepts(s@),
        r matches Ok(v) ==> model_of(v) == json_model(s@),
{
    serde_json::from_str(s)
}

/// Relies on `serde_json::to_string_pretty`: rendering a parsed value cannot
/// fail (its keys are strings, its serializer never errors, and it writes to
/// memory), the text depends only on the document, and control characters
/// are escaped, so the text holds no escape character.
#[verifier::external_body]
fn to_pretty(v: &serde_json::Value) -> (r: Result<String, serde_json::Error>)
    ensures
        r is Ok,
        r matches Ok(t) ==> t@ == pretty_of(model_of(*v)),
        r matches Ok(t) ==> plain_text(t@),
{
    serde_json::to_string_pretty(v)
}

/// Relies on `serde_json::Value::get` with a string index: the named member
/// when the value is an object that has it, nothing otherwise.
#[verifier::external_body]
fn value_get_key<'a>(v: &'a serde_json::Value, key: &str) -> (r: Option<&'a serde_json::Value>)
    ensures
        r is Some <==> member_of(model_of(*v), key@) is Some,
        r matches Some(u) ==> Some(model_of(*u)) == member_of(model_of(*v), key@),
{
    v.get(key)
}

/// Relies on `serde_json::Value::get` with a numeric index: the array
/// element at that position when the value is an array that is long enough,
/// nothing otherwise.
#[verifier::external_body]
fn value_get_index<'a>(v: &'a serde_json::Value, i: usize) -> (r: Option<
    &'a serde_json::Value,
>)
    ensures
        r is Some <==> element_of(model_of(*v), i as int) is Some,
        r matches Some(u) ==> Some(model_of(*u)) == element_of(model_of(*v), i as int),
{
    v.get(i)
}

/// Relies on `serde_json::Value::clone`: the copy holds the same document.
#[verifier::external_body]
fn value_clone(v: &serde_json::Value) -> (r: serde_json::Value)
    ensures
        model_of(r) == model_of(*v),
{
    v.clone()
}

/// Whether the text parses as JSON.
pub fn is_valid_json(json_str: &str) -> (r: bool)
    ensures
        r == json_accepts(json_str@),
{
    match parse_json_value(json_str) {
        Ok(_) => true,
        Err(_) => false,
    }
}

/// Why pretty-printing failed.
#[derive(Debug, PartialEq, Eq, Structural)]
pub enum JsonError {
    /// The text did not parse as JSON.
    InvalidJson,
    /// The parsed value could not be rendered back to text.
    FormatFailure,
}

/// Parses the text, renders it with indentation and colorizes the result.
/// Fails with `InvalidJson` exactly when the text is not JSON; on success
/// the visible characters are exactly the indented rendering.
pub fn pretty_print_json(json_str: &str) -> (r: Result<String, JsonError>)
    ensures
        r is Ok <==> json_accepts(json_str@),
        (r matches Err(e) && e == JsonError::InvalidJson) <==> !json_accepts(json_str@),
        r matches Ok(t) ==> strip_styles(t@) == pretty_of(json_model(json_str@)),
{
    let v = match parse_json_value(json_str) {
        Ok(v) => v,
        Err(_) => {
            return Err(JsonError::InvalidJson);
        },
    };
    let pretty = match to_pretty(&v) {
        Ok(p) => p,
        Err(_) => {
            return Err(JsonError::FormatFailure);
        },
    };
    Ok(colorize_json(pretty.as_str()))
}

/// A decimal digit.
pub open spec fn all_digits(s: Seq<char>) -> bool {
    forall|i: int| 0 <= i < s.len() ==> 48 <= #[trigger] s[i] as int && s[i] as int <= 57
}

/// The number a digit string denotes.
pub open spec fn digits_val(s: Seq<char>) -> int
    decreases s.len(),
{
    if s.len() == 0 {
        0
    } else {
        digits_val(s.drop_last()) * 10 + (s.last() as int - 48)
    }
}

/// The digit part of a numeral: an optional leading `+` is dropped.
pub open spec fn spec_usize_digits(s: Seq<char>) -> Seq<char> {
    if s.len() > 0 && s[0] == '+' {
        s.drop_first()
    } else {
        s
    }
}

/// What `usize` parsing accepts: a nonempty digit string, after an optional
/// `+`, whose value fits.
pub open spec fn spec_parses_usize(s: Seq<char>) -> bool {
    let t = spec_usize_digits(s);
    t.len() > 0 && all_digits(t) && digits_val(t) <= usize::MAX
}

proof fn lemma_digits_val_nonneg(s: Seq<char>)
    requires
        all_digits(s),
    ensures
        digits_val(s) >= 0,
    decreases s.len(),
{
    if s.len() > 0 {
        assert(all_digits(s.drop_last()));
        lemma_digits_val_nonneg(s.drop_last());
    }
}

proof fn lemma_digits_val_prefix_le(s: Seq<char>, k: int)
    requires
        all_digits(s),
        0 <= k <= s.len(),
    ensures
        digits_val(s.take(k)) <= digits_val(s),
    decreases s.len() - k,
{
    if k == s.len() {
        assert(s.take(k) =~= s);
    } else {
        assert(s.take(k + 1).drop_last() =~= s.take(k));
        assert(s.take(k + 1).last() == s[k]);
        assert(all_digits(s.take(k)));
        lemma_digits_val_nonneg(s.take(k));
        lemma_digits_val_prefix_le(s, k + 1);
    }
}

fn char_digit(c: char) -> (r: Option<u8>)
    ensures
        r is Some <==> (48 <= c as int <= 57),
        r is Some ==> r->0 as int == c as int - 48,
{
    let n = c as u32;
    if 48 <= n && n <= 57 {
        Some((n - 48) as u8)
    } else {
        None
    }
}

/// Parses a nonnegative number the way `usize` parsing does: optional `+`,
/// then decimal digits, rejecting anything else and anything too large.
pub fn parse_usize(s: &str) -> (r: Option<usize>)
    ensures
        r is Some <==> spec_parses_usize(s@),
        r is Some ==> r->0 == digits_val(spec_usize_digits(s@)),
{
    let cv = str_to_chars(s);
    let n = cv.len();
    let start: usize = if n > 0 && cv[0] == '+' {
        1
    } else {
        0
    };
    let ghost t = spec_usize_digits(s@);
    proof {
        assert(t =~= cv@.skip(start as int));
    }
    if start == n {
        return None;
    }
    let mut acc: usize = 0;
    let mut i = start;
    while i < n
        invariant
            cv@ == s@,
            n == cv@.len(),
            t == cv@.skip(start as int),
            t == spec_usize_digits(s@),
            start <= i <= n,
            start < n,
            all_digits(t.take(i - start)),
            acc == digits_val(t.take(i - start)),
        decreases n - i,
    {
        let c = cv[i];
        proof {
            assert(t[i - start] == cv@[i as int]);
        }
        let d: usize = match char_digit(c) {
            Some(d8) => d8 as usize,
            None => {
                proof {
                    assert(!(48 <= t[i - start] as int && t[i - start] as int <= 57));
                    assert(!all_digits(t));
                }
                return None;
            },
        };
        let ghost pre = t.take(i - start);
        proof {
            assert(t.take(i - start + 1).drop_last() =~= pre);
            assert(t.take(i - start + 1).last() == t[i - start]);
            assert(all_digits(t.take(i - start + 1)));
        }
        if acc > usize::MAX / 10 || (acc == usize::MAX / 10 && d > usize::MAX % 10) {
            proof {
                assert(digits_val(t.take(i - start + 1)) == acc * 10 + (t[i - start] as int
                    - 48));
                assert(d as int == t[i - start] as int - 48);
                assert(acc * 10 + d as int > usize::MAX);
                assert(digits_val(t.take(i - start + 1)) > usize::MAX);
                if spec_parses_usize(s@) {
                    lemma_digits_val_prefix_le(t, i - start + 1);
                }
            }
            return None;
        }
        acc = acc * 10 + d;
        i += 1;
    }
    proof {
        assert(t.take(n - start) =~= t);
    }
    Some(acc)
}

/// The nonempty segments of a dotted path, from position `i` on.
pub open spec fn segments_from(p: Seq<char>, i: int) -> Seq<Seq<char>>
    recommends
        0 <= i,
    decreases p.len() + 1 - i,
    via segments_from_dec
{
    if i >= p.len() || i < 0 {
        Seq::<Seq<char>>::empty()
    } else {
        let j = find_from(p, '.', i);
        let rest = segments_from(p, j + 1);
        if j == i {
            rest
        } else {
            seq![p.subrange(i, j)] + rest
        }
    }
}

#[via_fn]
proof fn segments_from_dec(p: Seq<char>, i: int) {
    if 0 <= i < p.len() {
        lemma_find_from_in_range(p, '.', i);
    }
}

/// The nonempty segments of a dotted path.
pub open spec fn spec_segments(p: Seq<char>) -> Seq<Seq<char>> {
    segments_from(p, 0)
}

/// Splits a dotted path into its nonempty segments.
pub fn split_path(path: &str) -> (r: Vec<String>)
    ensures
        r@.map_values(|x: String| x@) == spec_segments(path@),
{
    let cv = str_to_chars(path);
    let n = cv.len();
    let mut res: Vec<String> = Vec::new();
    let mut i: usize = 0;
    proof {
        assert(res@.map_values(|x: String| x@) + segments_from(cv@, 0) =~= spec_segments(
            path@,
        ));
    }
    while i < n
        invariant
            cv@ == path@,
            n == cv@.len(),
            i <= n,
            res@.map_values(|x: String| x@) + segments_from(cv@, i as int) == spec_segments(
                path@,
            ),
        decreases n - i,
    {
        let j = find_char_from(&cv, '.', i);
        let ghost pre = res@;
        if j > i {
            let seg = chars_range_to_string(&cv, i, j);
            res.push(seg);
            proof {
                assert(res@.map_values(|x: String| x@) =~= pre.map_values(|x: String| x@)
                    + seq![cv@.subrange(i as int, j as int)]);
                assert(res@.map_values(|x: String| x@) + segments_from(cv@, j + 1)
                    =~= spec_segments(path@));
            }
        }
        if j < n {
            i = j + 1;
        } else {
            proof {
                assert(segments_from(cv@, j + 1) =~= segments_from(cv@, j as int));
            }
            i = j;
        }
    }
    proof {
        assert(segments_from(cv@, i as int) =~= Seq::<Seq<char>>::empty());
        assert(res@.map_values(|x: String| x@) + Seq::<Seq<char>>::empty() =~= res@.map_values(
            |x: String| x@,
        ));
    }
    res
}

/// One path step: a segment that parses as a number indexes an array, any
/// other names an object member.
pub open spec fn path_step(n: JsonNode, seg: Seq<char>) -> Option<JsonNode> {
    if spec_parses_usize(seg) {
        element_of(n, digits_val(spec_usize_digits(seg)))
    } else {
        member_of(n, seg)
    }
}

/// The node the segments lead to, stepping left to right.
pub open spec fn resolve(n: JsonNode, segs: Seq<Seq<char>>) -> Option<JsonNode>
    decreases segs.len(),
{
    if segs.len() == 0 {
        Some(n)
    } else {
        match path_step(n, segs[0]) {
            Some(next) => resolve(next, segs.drop_first()),
            None => None,
        }
    }
}

/// The first segment that does not resolve; empty if all do.
pub open spec fn first_unresolved(n: JsonNode, segs: Seq<Seq<char>>) -> Seq<char>
    decreases segs.len(),
{
    if segs.len() == 0 {
        Seq::<char>::empty()
    } else {
        match path_step(n, segs[0]) {
            Some(next) => first_unresolved(next, segs.drop_first()),
            None => segs[0],
        }
    }
}

/// Why a path lookup failed.
#[derive(Debug, PartialEq, Eq)]
pub enum PathError {
    /// The document did not parse as JSON.
    InvalidJson,
    /// No member or element matched this path segment.
    PathNotFound(String),
}

/// Looks a dotted path up in a JSON document: each nonempty segment indexes
/// an array when it parses as a number and names an object member otherwise.
/// Fails with `InvalidJson` exactly when the document is not JSON; succeeds
/// exactly when every segment resolves, with the node the path leads to; and
/// otherwise fails with `PathNotFound` naming the first segment that does
/// not resolve.
pub fn json_path_extract(json_str: &str, path: &str) -> (r: Result<
    serde_json::Value,
    PathError,
>)
    ensures
        (r matches Err(e) && e == PathError::InvalidJson) <==> !json_accepts(json_str@),
        json_accepts(json_str@) ==> (r is Ok <==> resolve(
            json_model(json_str@),
            spec_segments(path@),
        ) is Some),
        r matches Ok(v) ==> Some(model_of(v)) == resolve(
            json_model(json_str@),
            spec_segments(path@),
        ),
        r matches Err(PathError::PathNotFound(seg)) ==> seg@ == first_unresolved(
            json_model(json_str@),
            spec_segments(path@),
        ),
{
    let v = match parse_json_value(json_str) {
        Ok(v) => v,
        Err(_) => {
            return Err(PathError::InvalidJson);
        },
    };
    let ghost doc = json_model(json_str@);
    let ghost segsv = spec_segments(path@);
    let segs = split_path(path);
    let mut cur: &serde_json::Value = &v;
    let mut idx: usize = 0;
    let n = segs.len();
    proof {
        assert(segsv.skip(0) =~= segsv);
    }
    while idx < n
        invariant
            n == segs@.len(),
            idx <= n,
            json_accepts(json_str@),
            doc == json_model(json_str@),
            segsv == spec_segments(path@),
            segs@.map_values(|x: String| x@) == segsv,
            resolve(doc, segsv) == resolve(model_of(*cur), segsv.skip(idx as int)),
            first_unresolved(doc, segsv) == first_unresolved(
                model_of(*cur),
                segsv.skip(idx as int),
            ),
        decreases n - idx,
    {
        let seg = &segs[idx];
        proof {
            assert(segsv.skip(idx as int)[0] == segsv[idx as int]);
            assert(segsv[idx as int] == seg@);
            assert(segsv.skip(idx as int).drop_first() =~= segsv.skip(idx + 1));
        }
        let step = match parse_usize(seg.as_str()) {
            Some(ix) => value_get_index(cur, ix),
            None => value_get_key(cur, seg.as_str()),
        };
        proof {
            assert(step is Some <==> path_step(model_of(*cur), seg@) is Some);
        }
        match step {
            Some(next) => {
                proof {
                    assert(Some(model_of(*next)) == path_step(model_of(*cur), seg@));
                }
                cur = next;
            },
            None => {
                return Err(PathError::PathNotFound(seg.clone()));
            },
        }
        idx += 1;
    }
    proof {
        assert(segsv.skip(n as int) =~= Seq::<Seq<char>>::empty());
    }
    Ok(value_clone(cur))
}


} // verus!
