//! Terminal styling of JSON text and status codes. The styling itself comes
//! from the `colored` crate; everything proved here is stated through
//! [`strip_styles`], which removes escape sequences, so the central claim is
//! that colorizing never changes the visible characters.

use vstd::prelude::*;
use colored::Colorize;
use crate::text::{spec_dec, str_to_chars, chars_range_to_string, str_eq, u64_to_dec, push_char};

verus! {

/// `s` with every escape sequence removed: an escape character starts a
/// sequence that runs up to the next `m`, and contributes nothing.
pub open spec fn strip_rec(s: Seq<char>, in_esc: bool) -> Seq<char>
    decreases s.len(),
{
    if s.len() == 0 {
        Seq::<char>::empty()
    } else if in_esc {
        strip_rec(s.drop_first(), s[0] != 'm')
    } else if s[0] == '\u{1b}' {
        strip_rec(s.drop_first(), true)
    } else {
        seq![s[0]] + strip_rec(s.drop_first(), false)
    }
}

/// Whether a scan of `s` ends inside an escape sequence.
pub open spec fn esc_state(s: Seq<char>, in_esc: bool) -> bool
    decreases s.len(),
{
    if s.len() == 0 {
        in_esc
    } else if in_esc {
        esc_state(s.drop_first(), s[0] != 'm')
    } else {
        esc_state(s.drop_first(), s[0] == '\u{1b}')
    }
}

/// The visible characters of `s`.
pub open spec fn strip_styles(s: Seq<char>) -> Seq<char> {
    strip_rec(s, false)
}

/// Every escape sequence in `s` is finished.
pub open spec fn closes_styles(s: Seq<char>) -> bool {
    !esc_state(s, false)
}

/// `s` holds no escape character at all.
pub open spec fn plain_text(s: Seq<char>) -> bool {
    forall|i: int| 0 <= i < s.len() ==> s[i] != '\u{1b}'
}

/// Stripping distributes over concatenation, threading the escape state.
pub proof fn lemma_strip_append(a: Seq<char>, b: Seq<char>, st: bool)
    ensures
        strip_rec(a + b, st) == strip_rec(a, st) + strip_rec(b, esc_state(a, st)),
        esc_state(a + b, st) == esc_state(b, esc_state(a, st)),
    decreases a.len(),
{
    if a.len() == 0 {
        assert(a + b =~= b);
        assert(strip_rec(a, st) + strip_rec(b, esc_state(a, st)) =~= strip_rec(b, st));
    } else {
        assert((a + b).drop_first() =~= a.drop_first() + b);
        let st2 = if st {
            a[0] != 'm'
        } else {
            a[0] == '\u{1b}'
        };
        lemma_strip_append(a.drop_first(), b, st2);
        if !st && a[0] != '\u{1b}' {
            assert(seq![a[0]] + (strip_rec(a.drop_first(), false) + strip_rec(
                b,
                esc_state(a.drop_first(), false),
            )) =~= (seq![a[0]] + strip_rec(a.drop_first(), false)) + strip_rec(
                b,
                esc_state(a.drop_first(), false),
            ));
        }
    }
}

/// Text without escape characters strips to itself and leaves styling closed.
pub proof fn lemma_strip_plain(s: Seq<char>)
    requires
        plain_text(s),
    ensures
        strip_styles(s) == s,
        closes_styles(s),
    decreases s.len(),
{
    if s.len() > 0 {
        assert(plain_text(s.drop_first()));
        lemma_strip_plain(s.drop_first());
        assert(seq![s[0]] + s.drop_first() =~= s);
    }
}

/// Growing styled output by one styled piece keeps the visible text exact.
proof fn lemma_extend(pre: Seq<char>, piece: Seq<char>, done: Seq<char>, tok: Seq<char>)
    requires
        strip_styles(pre) == done,
        closes_styles(pre),
        strip_styles(piece) == tok,
        closes_styles(piece),
    ensures
        strip_styles(pre + piece) == done + tok,
        closes_styles(pre + piece),
{
    lemma_strip_append(pre, piece, false);
}

/// Decimal numerals hold no escape character.
proof fn lemma_spec_dec_plain(n: int)
    requires
        n >= 0,
    ensures
        plain_text(spec_dec(n)),
    decreases n,
{
    if n >= 10 {
        lemma_spec_dec_plain(n / 10);
    }
}

/// Relies on `colored`'s `green` and `ColoredString`'s rendering: the text
/// comes back unchanged, or wrapped in one colour sequence and one closing
/// reset sequence, so its visible characters are kept.
#[verifier::external_body]
fn style_green(s: &str) -> (r: String)
    ensures
        plain_text(s@) ==> strip_styles(r@) == s@,
        plain_text(s@) ==> closes_styles(r@),
{
    s.green().to_string()
}

/// Relies on `colored`'s `yellow`, as `style_green` relies on `green`.
#[verifier::external_body]
fn style_yellow(s: &str) -> (r: String)
    ensures
        plain_text(s@) ==> strip_styles(r@) == s@,
        plain_text(s@) ==> closes_styles(r@),
{
    s.yellow().to_string()
}

/// Relies on `colored`'s `cyan` and `bold`, as `style_green` relies on `green`.
#[verifier::external_body]
fn style_cyan_bold(s: &str) -> (r: String)
    ensures
        plain_text(s@) ==> strip_styles(r@) == s@,
        plain_text(s@) ==> closes_styles(r@),
{
    s.cyan().bold().to_string()
}

/// Relies on `colored`'s `white`, as `style_green` relies on `green`.
#[verifier::external_body]
fn style_white(s: &str) -> (r: String)
    ensures
        plain_text(s@) ==> strip_styles(r@) == s@,
        plain_text(s@) ==> closes_styles(r@),
{
    s.white().to_string()
}

/// Relies on `colored`'s `blue`, as `style_green` relies on `green`.
#[verifier::external_body]
fn style_blue(s: &str) -> (r: String)
    ensures
        plain_text(s@) ==> strip_styles(r@) == s@,
        plain_text(s@) ==> closes_styles(r@),
{
    s.blue().to_string()
}

/// Relies on `colored`'s `magenta`, as `style_green` relies on `green`.
#[verifier::external_body]
fn style_magenta(s: &str) -> (r: String)
    ensures
        plain_text(s@) ==> strip_styles(r@) == s@,
        plain_text(s@) ==> closes_styles(r@),
{
    s.magenta().to_string()
}

/// Relies on `colored`'s `red`, as `style_green` relies on `green`.
#[verifier::external_body]
fn style_red(s: &str) -> (r: String)
    ensures
        plain_text(s@) ==> strip_styles(r@) == s@,
        plain_text(s@) ==> closes_styles(r@),
{
    s.red().to_string()
}

/// Relies on `colored`'s `green` and `bold`, as `style_green` relies on `green`.
#[verifier::external_body]
fn style_green_bold(s: &str) -> (r: String)
    ensures
        plain_text(s@) ==> strip_styles(r@) == s@,
        plain_text(s@) ==> closes_styles(r@),
{
    s.green().bold().to_string()
}

/// Relies on `colored`'s `yellow` and `bold`, as `style_green` relies on `green`.
#[verifier::external_body]
fn style_yellow_bold(s: &str) -> (r: String)
    ensures
        plain_text(s@) ==> strip_styles(r@) == s@,
        plain_text(s@) ==> closes_styles(r@),
{
    s.yellow().bold().to_string()
}

/// Relies on `colored`'s `red` and `bold`, as `style_green` relies on `green`.
#[verifier::external_body]
fn style_red_bold(s: &str) -> (r: String)
    ensures
        plain_text(s@) ==> strip_styles(r@) == s@,
        plain_text(s@) ==> closes_styles(r@),
{
    s.red().bold().to_string()
}

/// Relies on `colored`'s `red`, `bold` and `on_white`, as `style_green`
/// relies on `green`.
#[verifier::external_body]
fn style_red_bold_on_white(s: &str) -> (r: String)
    ensures
        plain_text(s@) ==> strip_styles(r@) == s@,
        plain_text(s@) ==> closes_styles(r@),
{
    s.red().bold().on_white().to_string()
}

/// A decimal digit.
pub open spec fn is_digit_spec(c: char) -> bool {
    48 <= c as int <= 57
}

/// A character a number token may continue with.
pub open spec fn is_number_part(c: char) -> bool {
    is_digit_spec(c) || c == '.' || c == 'e' || c == 'E' || c == '+' || c == '-'
}

/// An ASCII letter, which word tokens are made of.
pub open spec fn is_word_char(c: char) -> bool {
    65 <= c as int <= 90 || 97 <= c as int <= 122
}

fn is_digit_char(c: char) -> (r: bool)
    ensures
        r == is_digit_spec(c),
{
    let n = c as u32;
    48 <= n && n <= 57
}

fn is_alpha_char(c: char) -> (r: bool)
    ensures
        r == is_word_char(c),
{
    let n = c as u32;
    (65 <= n && n <= 90) || (97 <= n && n <= 122)
}

fn is_number_char(c: char) -> (r: bool)
    ensures
        r == is_number_part(c),
{
    let n = c as u32;
    (48 <= n && n <= 57) || c == '.' || c == 'e' || c == 'E' || c == '+' || c == '-'
}

/// One character as its own string.
fn one_char_string(c: char) -> (s: String)
    ensures
        s@ == seq![c],
{
    let mut s = String::new();
    push_char(&mut s, c);
    proof {
        assert(s@ =~= seq![c]);
    }
    s
}

/// A lexical class of (ideally pretty-printed) JSON text, each styled in
/// its own colour.
#[derive(Clone, Copy, PartialEq, Eq, Structural, Debug)]
pub enum TokenClass {
    /// One character of a string literal, quotes and escapes included.
    StringPart,
    /// A colon.
    Colon,
    /// A brace or bracket.
    Delimiter,
    /// A comma.
    Comma,
    /// A maximal numeric run.
    Number,
    /// The word `true` or `false`.
    BoolWord,
    /// The word `null`.
    NullWord,
    /// Anything else, passed through unstyled.
    Plain,
}

/// Where a run of number or word characters starting before `i` ends.
pub open spec fn run_end(s: Seq<char>, i: int, word: bool) -> int
    recommends
        0 <= i,
    decreases s.len() - i,
{
    if i < 0 || i >= s.len() {
        s.len() as int
    } else if (word && is_word_char(s[i])) || (!word && is_number_part(s[i])) {
        run_end(s, i + 1, word)
    } else {
        i
    }
}

pub proof fn lemma_run_end_range(s: Seq<char>, i: int, word: bool)
    requires
        0 <= i <= s.len(),
    ensures
        i <= run_end(s, i, word) <= s.len(),
    decreases s.len() - i,
{
    if i < s.len() && ((word && is_word_char(s[i])) || (!word && is_number_part(s[i]))) {
        lemma_run_end_range(s, i + 1, word);
    }
}

/// The scan of the text from a given string state: string characters while
/// a quote is open (escapes tracked), single structural characters, maximal
/// number and word runs with words classified by exact match, everything
/// else passed through unstyled.
pub open spec fn spec_scan(s: Seq<char>, in_string: bool, escaped: bool) -> Seq<
    (TokenClass, Seq<char>),
>
    decreases s.len(),
    via spec_scan_dec
{
    if s.len() == 0 {
        Seq::<(TokenClass, Seq<char>)>::empty()
    } else {
        let c = s[0];
        let rest = s.drop_first();
        if c == '"' && !escaped {
            seq![(TokenClass::StringPart, seq![c])] + spec_scan(rest, !in_string, escaped)
        } else if c == '\\' && in_string {
            seq![(TokenClass::StringPart, seq![c])] + spec_scan(rest, in_string, !escaped)
        } else if in_string {
            seq![(TokenClass::StringPart, seq![c])] + spec_scan(rest, in_string, false)
        } else if c == ':' {
            seq![(TokenClass::Colon, seq![c])] + spec_scan(rest, in_string, escaped)
        } else if c == '{' || c == '}' || c == '[' || c == ']' {
            seq![(TokenClass::Delimiter, seq![c])] + spec_scan(rest, in_string, escaped)
        } else if c == ',' {
            seq![(TokenClass::Comma, seq![c])] + spec_scan(rest, in_string, escaped)
        } else if is_digit_spec(c) || c == '.' || c == '-' {
            let j = run_end(s, 1, false);
            seq![(TokenClass::Number, s.take(j))] + spec_scan(s.skip(j), in_string, escaped)
        } else if is_word_char(c) {
            let j = run_end(s, 1, true);
            let w = s.take(j);
            let cls = if w == "true"@ || w == "false"@ {
                TokenClass::BoolWord
            } else if w == "null"@ {
                TokenClass::NullWord
            } else {
                TokenClass::Plain
            };
            seq![(cls, w)] + spec_scan(s.skip(j), in_string, escaped)
        } else {
            seq![(TokenClass::Plain, seq![c])] + spec_scan(rest, in_string, false)
        }
    }
}

#[via_fn]
proof fn spec_scan_dec(s: Seq<char>, in_string: bool, escaped: bool) {
    if s.len() > 0 {
        lemma_run_end_range(s, 1, false);
        lemma_run_end_range(s, 1, true);
    }
}

/// The tokenization of the text.
pub open spec fn spec_tokens(s: Seq<char>) -> Seq<(TokenClass, Seq<char>)> {
    spec_scan(s, false, false)
}

/// The texts of the tokens, in order.
pub open spec fn scan_text(ts: Seq<(TokenClass, Seq<char>)>) -> Seq<char>
    decreases ts.len(),
{
    if ts.len() == 0 {
        Seq::<char>::empty()
    } else {
        ts[0].1 + scan_text(ts.drop_first())
    }
}

proof fn lemma_scan_text_step(head: (TokenClass, Seq<char>), rest: Seq<(TokenClass, Seq<char>)>)
    ensures
        scan_text(seq![head] + rest) == head.1 + scan_text(rest),
{
    assert((seq![head] + rest)[0] == head);
    assert((seq![head] + rest).drop_first() =~= rest);
}

/// The tokens partition the text: their texts, in order, are the text.
pub proof fn lemma_scan_text(s: Seq<char>, in_string: bool, escaped: bool)
    ensures
        scan_text(spec_scan(s, in_string, escaped)) == s,
    decreases s.len(),
{
    if s.len() > 0 {
        let c = s[0];
        let rest = s.drop_first();
        lemma_run_end_range(s, 1, false);
        lemma_run_end_range(s, 1, true);
        if c == '"' && !escaped {
            lemma_scan_text(rest, !in_string, escaped);
            lemma_scan_text_step((TokenClass::StringPart, seq![c]), spec_scan(rest, !in_string, escaped));
            assert(seq![c] + rest =~= s);
        } else if c == '\\' && in_string {
            lemma_scan_text(rest, in_string, !escaped);
            lemma_scan_text_step((TokenClass::StringPart, seq![c]), spec_scan(rest, in_string, !escaped));
            assert(seq![c] + rest =~= s);
        } else if in_string {
            lemma_scan_text(rest, in_string, false);
            lemma_scan_text_step((TokenClass::StringPart, seq![c]), spec_scan(rest, in_string, false));
            assert(seq![c] + rest =~= s);
        } else if c == ':' || c == '{' || c == '}' || c == '[' || c == ']' || c == ',' {
            lemma_scan_text(rest, in_string, escaped);
            let cls = if c == ':' {
                TokenClass::Colon
            } else if c == ',' {
                TokenClass::Comma
            } else {
                TokenClass::Delimiter
            };
            lemma_scan_text_step((cls, seq![c]), spec_scan(rest, in_string, escaped));
            assert(seq![c] + rest =~= s);
        } else if is_digit_spec(c) || c == '.' || c == '-' {
            let j = run_end(s, 1, false);
            lemma_scan_text(s.skip(j), in_string, escaped);
            lemma_scan_text_step((TokenClass::Number, s.take(j)), spec_scan(s.skip(j), in_string, escaped));
            assert(s.take(j) + s.skip(j) =~= s);
        } else if is_word_char(c) {
            let j = run_end(s, 1, true);
            let w = s.take(j);
            let cls = if w == "true"@ || w == "false"@ {
                TokenClass::BoolWord
            } else if w == "null"@ {
                TokenClass::NullWord
            } else {
                TokenClass::Plain
            };
            lemma_scan_text(s.skip(j), in_string, escaped);
            lemma_scan_text_step((cls, w), spec_scan(s.skip(j), in_string, escaped));
            assert(s.take(j) + s.skip(j) =~= s);
        } else {
            lemma_scan_text(rest, in_string, false);
            lemma_scan_text_step((TokenClass::Plain, seq![c]), spec_scan(rest, in_string, false));
            assert(seq![c] + rest =~= s);
        }
    }
}

proof fn lemma_scan_text_snoc(ts: Seq<(TokenClass, Seq<char>)>, x: (TokenClass, Seq<char>))
    ensures
        scan_text(ts.push(x)) == scan_text(ts) + x.1,
    decreases ts.len(),
{
    assert(scan_text(ts.push(x)) == ts.push(x)[0].1 + scan_text(ts.push(x).drop_first()));
    if ts.len() == 0 {
        assert(ts.push(x)[0] == x);
        assert(ts.push(x).drop_first() =~= Seq::<(TokenClass, Seq<char>)>::empty());
        assert(scan_text(Seq::<(TokenClass, Seq<char>)>::empty()) == Seq::<char>::empty());
        assert(x.1 + Seq::<char>::empty() =~= x.1);
        assert(Seq::<char>::empty() + x.1 =~= x.1);
    } else {
        assert(ts.push(x)[0] == ts[0]);
        assert(ts.push(x).drop_first() =~= ts.drop_first().push(x));
        lemma_scan_text_snoc(ts.drop_first(), x);
        assert(scan_text(ts) == ts[0].1 + scan_text(ts.drop_first()));
        assert(ts[0].1 + (scan_text(ts.drop_first()) + x.1) =~= (ts[0].1 + scan_text(
            ts.drop_first(),
        )) + x.1);
    }
}

proof fn lemma_plain_split(a: Seq<char>, b: Seq<char>)
    requires
        plain_text(a + b),
    ensures
        plain_text(a),
        plain_text(b),
{
    assert forall|i: int| 0 <= i < a.len() implies a[i] != '\u{1b}' by {
        assert(a[i] == (a + b)[i]);
    }
    assert forall|i: int| 0 <= i < b.len() implies b[i] != '\u{1b}' by {
        assert(b[i] == (a + b)[a.len() + i]);
    }
}

proof fn lemma_scan_text_plain(ts: Seq<(TokenClass, Seq<char>)>)
    requires
        plain_text(scan_text(ts)),
    ensures
        forall|k: int| 0 <= k < ts.len() ==> plain_text((#[trigger] ts[k]).1),
    decreases ts.len(),
{
    if ts.len() > 0 {
        assert(scan_text(ts) == ts[0].1 + scan_text(ts.drop_first()));
        lemma_plain_split(ts[0].1, scan_text(ts.drop_first()));
        lemma_scan_text_plain(ts.drop_first());
        assert forall|k: int| 0 <= k < ts.len() implies plain_text((#[trigger] ts[k]).1) by {
            if k > 0 {
                assert(ts[k] == ts.drop_first()[k - 1]);
            }
        }
    }
}

/// The classified views of materialized tokens.
pub open spec fn token_views(v: Seq<(TokenClass, String)>) -> Seq<(TokenClass, Seq<char>)> {
    v.map_values(|t: (TokenClass, String)| (t.0, t.1@))
}

fn token_run_end(v: &Vec<char>, i: usize, word: bool) -> (r: usize)
    requires
        i < v@.len(),
    ensures
        i < r <= v@.len(),
        r - i == run_end(v@.skip(i as int), 1, word),
{
    let ghost suf = v@.skip(i as int);
    proof {
        lemma_run_end_range(suf, 1, word);
    }
    let n = v.len();
    let mut p = i + 1;
    while p < n && (word && is_alpha_char(v[p]) || !word && is_number_char(v[p]))
        invariant
            i < p <= n,
            n == v@.len(),
            suf == v@.skip(i as int),
            run_end(suf, 1, word) == run_end(suf, p - i, word),
        decreases n - p,
    {
        proof {
            assert(suf[p - i] == v@[p as int]);
        }
        p += 1;
    }
    proof {
        if p < n {
            assert(suf[p - i] == v@[p as int]);
        }
    }
    p
}

/// Splits the text into classified tokens, exactly as [`spec_tokens`] says:
/// their texts, in order, are the text, and each carries its lexical class.
pub fn tokenize_json(json: &str) -> (v: Vec<(TokenClass, String)>)
    ensures
        token_views(v@) == spec_tokens(json@),
{
    let cv = str_to_chars(json);
    let n = cv.len();
    let mut v: Vec<(TokenClass, String)> = Vec::new();
    let mut in_string = false;
    let mut escaped = false;
    let mut i: usize = 0;
    proof {
        assert(json@.skip(0) =~= json@);
        assert(token_views(v@) + spec_scan(json@, false, false) =~= spec_tokens(json@));
    }
    while i < n
        invariant
            cv@ == json@,
            n == json@.len(),
            i <= n,
            token_views(v@) + spec_scan(json@.skip(i as int), in_string, escaped) == spec_tokens(
                json@,
            ),
        decreases n - i,
    {
        let ch = cv[i];
        let ghost pre = v@;
        let ghost suf = json@.skip(i as int);
        proof {
            assert(suf[0] == json@[i as int]);
            assert(suf.drop_first() =~= json@.skip(i + 1));
        }
        if ch == '"' && !escaped {
            in_string = !in_string;
            v.push((TokenClass::StringPart, one_char_string(ch)));
            i += 1;
        } else if ch == '\\' && in_string {
            escaped = !escaped;
            v.push((TokenClass::StringPart, one_char_string(ch)));
            i += 1;
        } else if in_string {
            escaped = false;
            v.push((TokenClass::StringPart, one_char_string(ch)));
            i += 1;
        } else if ch == ':' {
            v.push((TokenClass::Colon, one_char_string(ch)));
            i += 1;
        } else if ch == '{' || ch == '}' || ch == '[' || ch == ']' {
            v.push((TokenClass::Delimiter, one_char_string(ch)));
            i += 1;
        } else if ch == ',' {
            v.push((TokenClass::Comma, one_char_string(ch)));
            i += 1;
        } else if is_digit_char(ch) || ch == '.' || ch == '-' {
            let j = token_run_end(&cv, i, false);
            let tok = chars_range_to_string(&cv, i, j);
            proof {
                assert(suf.take(j - i) =~= json@.subrange(i as int, j as int));
                assert(suf.skip(j - i) =~= json@.skip(j as int));
            }
            v.push((TokenClass::Number, tok));
            i = j;
        } else if is_alpha_char(ch) {
            let j = token_run_end(&cv, i, true);
            let tok = chars_range_to_string(&cv, i, j);
            proof {
                assert(suf.take(j - i) =~= json@.subrange(i as int, j as int));
                assert(suf.skip(j - i) =~= json@.skip(j as int));
            }
            let is_bool = str_eq(tok.as_str(), "true") || str_eq(tok.as_str(), "false");
            let is_null = str_eq(tok.as_str(), "null");
            let cls = if is_bool {
                TokenClass::BoolWord
            } else if is_null {
                TokenClass::NullWord
            } else {
                TokenClass::Plain
            };
            v.push((cls, tok));
            i = j;
        } else {
            escaped = false;
            v.push((TokenClass::Plain, one_char_string(ch)));
            i += 1;
        }
        proof {
            assert(token_views(v@) =~= token_views(pre).push(
                (v@.last().0, v@.last().1@),
            ));
            assert(token_views(pre).push((v@.last().0, v@.last().1@)) + spec_scan(
                json@.skip(i as int),
                in_string,
                escaped,
            ) =~= token_views(pre) + (seq![(v@.last().0, v@.last().1@)] + spec_scan(
                json@.skip(i as int),
                in_string,
                escaped,
            )));
        }
    }
    proof {
        assert(spec_scan(json@.skip(n as int), in_string, escaped) =~= Seq::<(
            TokenClass,
            Seq<char>,
        )>::empty());
        assert(token_views(v@) + Seq::<(TokenClass, Seq<char>)>::empty() =~= token_views(v@));
    }
    v
}

/// Wraps each lexical token class of (ideally pretty-printed) JSON text in
/// its own terminal styling: string characters in one colour, delimiters,
/// colons, commas, numbers and the word literals in others, as
/// [`spec_tokens`] classifies them. Any text is accepted; once the styling
/// codes are stripped, the characters are exactly the input, and every
/// styling sequence is closed.
pub fn colorize_json(json: &str) -> (r: String)
    ensures
        plain_text(json@) ==> strip_styles(r@) == json@,
        plain_text(json@) ==> closes_styles(r@),
{
    let toks = tokenize_json(json);
    let ghost tsv = spec_tokens(json@);
    proof {
        lemma_scan_text(json@, false, false);
        if plain_text(json@) {
            lemma_scan_text_plain(tsv);
        }
        assert(tsv.take(0) =~= Seq::<(TokenClass, Seq<char>)>::empty());
    }
    let n = toks.len();
    let mut result = String::new();
    let mut k: usize = 0;
    while k < n
        invariant
            n == toks@.len(),
            token_views(toks@) == tsv,
            tsv == spec_tokens(json@),
            scan_text(tsv) == json@,
            k <= n,
            plain_text(json@) ==> strip_styles(result@) == scan_text(tsv.take(k as int)),
            plain_text(json@) ==> closes_styles(result@),
        decreases n - k,
    {
        let ghost pre = result@;
        let t = &toks[k];
        proof {
            assert(tsv[k as int] == (t.0, t.1@));
        }
        let piece: String = match t.0 {
            TokenClass::StringPart => style_green(t.1.as_str()),
            TokenClass::Colon => style_yellow(t.1.as_str()),
            TokenClass::Delimiter => style_cyan_bold(t.1.as_str()),
            TokenClass::Comma => style_white(t.1.as_str()),
            TokenClass::Number => style_blue(t.1.as_str()),
            TokenClass::BoolWord => style_magenta(t.1.as_str()),
            TokenClass::NullWord => style_red(t.1.as_str()),
            TokenClass::Plain => t.1.clone(),
        };
        result.append(piece.as_str());
        proof {
            if plain_text(json@) {
                lemma_scan_text_plain(tsv);
                assert(plain_text(t.1@));
                if t.0 == TokenClass::Plain {
                    lemma_strip_plain(piece@);
                }
                lemma_extend(pre, piece@, scan_text(tsv.take(k as int)), t.1@);
                assert(tsv.take(k + 1) =~= tsv.take(k as int).push(tsv[k as int]));
                lemma_scan_text_snoc(tsv.take(k as int), tsv[k as int]);
            }
        }
        k += 1;
    }
    proof {
        assert(tsv.take(n as int) =~= tsv);
    }
    result
}

/// The status code rendered in decimal, styled by its class: green for
/// success, yellow for redirects, red for client errors, red on white for
/// server errors, plain white otherwise. The visible characters are always
/// exactly the decimal code.
pub fn status_indicator(status_code: u16) -> (r: String)
    ensures
        strip_styles(r@) == spec_dec(status_code as int),
{
    let s = u64_to_dec(status_code as u64);
    proof {
        lemma_spec_dec_plain(status_code as int);
    }
    if 200 <= status_code && status_code <= 299 {
        style_green_bold(s.as_str())
    } else if 300 <= status_code && status_code <= 399 {
        style_yellow_bold(s.as_str())
    } else if 400 <= status_code && status_code <= 499 {
        style_red_bold(s.as_str())
    } else if 500 <= status_code && status_code <= 599 {
        style_red_bold_on_white(s.as_str())
    } else {
        style_white(s.as_str())
    }
}

} // verus!
