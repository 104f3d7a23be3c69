//! Standard base64 with `=` padding: an encoder over bytes, a mathematical
//! decoder, and proofs that decoding recovers the input and that the output
//! length and padding follow the usual formulas.

use vstd::prelude::*;
use vstd::arithmetic::div_mod::lemma_fundamental_div_mod;
use vstd::string::StringExecFns;
use vstd::string::StringSliceAdditionalSpecFns;

verus! {

/// The alphabet character for a six-bit value.
pub open spec fn b64_char(v: int) -> char
    recommends
        0 <= v < 64,
{
    if v < 26 {
        ((65 + v) as u8) as char
    } else if v < 52 {
        ((97 + (v - 26)) as u8) as char
    } else if v < 62 {
        ((48 + (v - 52)) as u8) as char
    } else if v == 62 {
        '+'
    } else {
        '/'
    }
}

/// The six-bit value of an alphabet character; foreign characters and `=`
/// get a value outside the alphabet.
pub open spec fn b64_value(c: char) -> int {
    let n = c as int;
    if 65 <= n && n <= 90 {
        n - 65
    } else if 97 <= n && n <= 122 {
        n - 97 + 26
    } else if 48 <= n && n <= 57 {
        n - 48 + 52
    } else if n == 43 {
        62
    } else if n == 47 {
        63
    } else {
        64
    }
}

/// The four characters that encode a group of one, two or three bytes.
pub open spec fn encode_group(b0: u8, b1: u8, b2: u8, count: int) -> Seq<char>
    recommends
        1 <= count <= 3,
{
    let s0 = b0 / 4;
    let s1 = (b0 % 4) * 16 + b1 / 16;
    let s2 = (b1 % 16) * 4 + b2 / 64;
    let s3 = b2 % 64;
    if count == 1 {
        seq![b64_char(s0 as int), b64_char(s1 as int), '=', '=']
    } else if count == 2 {
        seq![b64_char(s0 as int), b64_char(s1 as int), b64_char(s2 as int), '=']
    } else {
        seq![b64_char(s0 as int), b64_char(s1 as int), b64_char(s2 as int), b64_char(s3 as int)]
    }
}

/// Standard base64 of a byte sequence, with `=` padding and no line breaks.
pub open spec fn spec_b64(b: Seq<u8>) -> Seq<char>
    decreases b.len(),
{
    if b.len() == 0 {
        Seq::<char>::empty()
    } else if b.len() == 1 {
        encode_group(b[0], 0, 0, 1)
    } else if b.len() == 2 {
        encode_group(b[0], b[1], 0, 2)
    } else {
        encode_group(b[0], b[1], b[2], 3) + spec_b64(b.skip(3))
    }
}

/// The bytes that a four-character group decodes to, honouring `=` padding.
pub open spec fn decode_group(s: Seq<char>) -> Seq<u8>
    recommends
        s.len() == 4,
{
    let v0 = b64_value(s[0]);
    let v1 = b64_value(s[1]);
    let v2 = b64_value(s[2]);
    let v3 = b64_value(s[3]);
    if s[2] == '=' {
        seq![(v0 * 4 + v1 / 16) as u8]
    } else if s[3] == '=' {
        seq![(v0 * 4 + v1 / 16) as u8, ((v1 % 16) * 16 + v2 / 4) as u8]
    } else {
        seq![
            (v0 * 4 + v1 / 16) as u8,
            ((v1 % 16) * 16 + v2 / 4) as u8,
            ((v2 % 4) * 64 + v3) as u8,
        ]
    }
}

/// A standard base64 decoder: four characters at a time, stray tails dropped.
pub open spec fn spec_b64_decode(s: Seq<char>) -> Seq<u8>
    decreases s.len(),
{
    if s.len() < 4 {
        Seq::<u8>::empty()
    } else {
        decode_group(s.take(4)) + spec_b64_decode(s.skip(4))
    }
}

/// Alphabet characters are never the padding character.
proof fn lemma_b64_char_not_pad(v: int)
    requires
        0 <= v < 64,
    ensures
        b64_char(v) != '=',
{
}

/// Looking an alphabet character back up recovers its six-bit value.
proof fn lemma_b64_value_of_char(v: int)
    requires
        0 <= v < 64,
    ensures
        b64_value(b64_char(v)) == v,
{
}

/// Decoding one encoded group gives back the original bytes.
proof fn lemma_decode_encode_group(b0: u8, b1: u8, b2: u8, count: int)
    requires
        1 <= count <= 3,
        count < 2 ==> b1 == 0,
        count < 3 ==> b2 == 0,
    ensures
        count == 1 ==> decode_group(encode_group(b0, b1, b2, 1)) == seq![b0],
        count == 2 ==> decode_group(encode_group(b0, b1, b2, 2)) == seq![b0, b1],
        count == 3 ==> decode_group(encode_group(b0, b1, b2, 3)) == seq![b0, b1, b2],
{
    let s0 = (b0 / 4) as int;
    let s1 = ((b0 % 4) * 16 + b1 / 16) as int;
    let s2 = ((b1 % 16) * 4 + b2 / 64) as int;
    let s3 = (b2 % 64) as int;
    lemma_b64_value_of_char(s0);
    lemma_b64_value_of_char(s1);
    lemma_b64_value_of_char(s2);
    lemma_b64_value_of_char(s3);
    lemma_b64_char_not_pad(s0);
    lemma_b64_char_not_pad(s1);
    lemma_b64_char_not_pad(s2);
    lemma_b64_char_not_pad(s3);
    lemma_fundamental_div_mod(b0 as int, 4);
    lemma_fundamental_div_mod(b1 as int, 16);
    lemma_fundamental_div_mod(b2 as int, 64);
    assert(s0 * 4 + s1 / 16 == b0) by (nonlinear_arith)
        requires
            s0 == b0 / 4,
            s1 == (b0 % 4) * 16 + b1 / 16,
            b0 == 4 * (b0 / 4) + b0 % 4,
            0 <= b0 % 4 < 4,
            0 <= b1 / 16 < 16,
    ;
    assert((s1 % 16) * 16 + s2 / 4 == b1) by (nonlinear_arith)
        requires
            s1 == (b0 % 4) * 16 + b1 / 16,
            s2 == (b1 % 16) * 4 + b2 / 64,
            b1 == 16 * (b1 / 16) + b1 % 16,
            0 <= b1 / 16 < 16,
            0 <= b1 % 16 < 16,
            0 <= b0 % 4 < 4,
            0 <= b2 / 64 < 4,
    ;
    assert((s2 % 4) * 64 + s3 == b2) by (nonlinear_arith)
        requires
            s2 == (b1 % 16) * 4 + b2 / 64,
            s3 == b2 % 64,
            b2 == 64 * (b2 / 64) + b2 % 64,
            0 <= b2 / 64 < 4,
            0 <= b2 % 64 < 64,
            0 <= b1 % 16 < 16,
    ;
}

/// Decoding standard base64 output recovers the exact original bytes.
pub proof fn lemma_b64_round_trip(b: Seq<u8>)
    ensures
        spec_b64_decode(spec_b64(b)) == b,
    decreases b.len(),
{
    if b.len() == 0 {
        assert(spec_b64_decode(spec_b64(b)) =~= b);
    } else if b.len() == 1 {
        lemma_decode_encode_group(b[0], 0, 0, 1);
        assert(spec_b64(b).take(4) =~= spec_b64(b));
        assert(spec_b64(b).skip(4) =~= Seq::<char>::empty());
        assert(spec_b64_decode(Seq::<char>::empty()) =~= Seq::<u8>::empty());
        assert(spec_b64_decode(spec_b64(b)) =~= b);
    } else if b.len() == 2 {
        lemma_decode_encode_group(b[0], b[1], 0, 2);
        assert(spec_b64(b).take(4) =~= spec_b64(b));
        assert(spec_b64(b).skip(4) =~= Seq::<char>::empty());
        assert(spec_b64_decode(Seq::<char>::empty()) =~= Seq::<u8>::empty());
        assert(spec_b64_decode(spec_b64(b)) =~= b);
    } else {
        let group = encode_group(b[0], b[1], b[2], 3);
        let rest = spec_b64(b.skip(3));
        lemma_b64_round_trip(b.skip(3));
        lemma_decode_encode_group(b[0], b[1], b[2], 3);
        assert((group + rest).take(4) =~= group);
        assert((group + rest).skip(4) =~= rest);
        assert(spec_b64_decode(spec_b64(b)) =~= seq![b[0], b[1], b[2]] + b.skip(3));
        assert(seq![b[0], b[1], b[2]] + b.skip(3) =~= b);
    }
}

/// A character every standard decoder accepts: one of the alphabet, or
/// padding.
pub open spec fn is_b64_symbol(c: char) -> bool {
    b64_value(c) < 64 || c == '='
}

/// The encoder emits alphabet characters and padding, nothing else.
pub proof fn lemma_b64_symbols(b: Seq<u8>)
    ensures
        forall|i: int| 0 <= i < spec_b64(b).len() ==> is_b64_symbol(#[trigger] spec_b64(b)[i]),
    decreases b.len(),
{
    if b.len() == 0 {
    } else {
        let b1: u8 = if b.len() >= 2 {
            b[1]
        } else {
            0
        };
        let b2: u8 = if b.len() >= 3 {
            b[2]
        } else {
            0
        };
        lemma_b64_value_of_char((b[0] / 4) as int);
        lemma_b64_value_of_char(((b[0] % 4) * 16 + b1 / 16) as int);
        lemma_b64_value_of_char(((b1 % 16) * 4 + b2 / 64) as int);
        lemma_b64_value_of_char((b2 % 64) as int);
        if b.len() >= 3 {
            lemma_b64_symbols(b.skip(3));
            let group = encode_group(b[0], b[1], b[2], 3);
            let rest = spec_b64(b.skip(3));
            assert forall|i: int| 0 <= i < spec_b64(b).len() implies is_b64_symbol(
                #[trigger] spec_b64(b)[i],
            ) by {
                if i >= 4 {
                    assert(spec_b64(b)[i] == rest[i - 4]);
                }
            }
        }
    }
}

/// How many `=` characters end the sequence.
pub open spec fn trailing_pad(s: Seq<char>) -> int
    decreases s.len(),
{
    if s.len() == 0 {
        0
    } else if s.last() == '=' {
        1 + trailing_pad(s.drop_last())
    } else {
        0
    }
}

proof fn lemma_trailing_pad_le_len(s: Seq<char>)
    ensures
        0 <= trailing_pad(s) <= s.len(),
    decreases s.len(),
{
    if s.len() > 0 && s.last() == '=' {
        lemma_trailing_pad_le_len(s.drop_last());
    }
}

/// Appending in front does not change the trailing padding, as long as the
/// back part is not padding through and through.
proof fn lemma_trailing_pad_append(a: Seq<char>, b: Seq<char>)
    requires
        trailing_pad(b) < b.len(),
    ensures
        trailing_pad(a + b) == trailing_pad(b),
    decreases b.len(),
{
    if b.last() == '=' {
        assert((a + b).last() == b.last());
        assert((a + b).drop_last() =~= a + b.drop_last());
        lemma_trailing_pad_le_len(b.drop_last());
        lemma_trailing_pad_append(a, b.drop_last());
    } else {
        assert((a + b).last() == b.last());
    }
}

/// The output length is `4 * ceil(n / 3)`, and the trailing padding is
/// `(3 - n % 3) % 3`.
pub proof fn lemma_b64_shape(b: Seq<u8>)
    ensures
        spec_b64(b).len() == 4 * ((b.len() + 2) / 3),
        trailing_pad(spec_b64(b)) == (3 - b.len() % 3) % 3,
    decreases b.len(),
{
    if b.len() == 0 {
    } else if b.len() == 1 {
        lemma_b64_char_not_pad((b[0] / 4) as int);
        lemma_b64_char_not_pad(((b[0] % 4) * 16) as int);
        let s = spec_b64(b);
        let c0 = b64_char((b[0] / 4) as int);
        let c1 = b64_char(((b[0] % 4) * 16) as int);
        assert(s.drop_last() =~= seq![c0, c1, '=']);
        assert(seq![c0, c1, '='].drop_last() =~= seq![c0, c1]);
        assert(seq![c0, c1].last() == c1);
        assert(trailing_pad(seq![c0, c1]) == 0);
        assert(trailing_pad(seq![c0, c1, '=']) == 1);
        assert(trailing_pad(s) == 2);
    } else if b.len() == 2 {
        lemma_b64_char_not_pad((b[0] / 4) as int);
        lemma_b64_char_not_pad(((b[0] % 4) * 16 + b[1] / 16) as int);
        lemma_b64_char_not_pad(((b[1] % 16) * 4) as int);
        let s = spec_b64(b);
        let c0 = b64_char((b[0] / 4) as int);
        let c1 = b64_char(((b[0] % 4) * 16 + b[1] / 16) as int);
        let c2 = b64_char(((b[1] % 16) * 4) as int);
        assert(s.drop_last() =~= seq![c0, c1, c2]);
        assert(seq![c0, c1, c2].last() == c2);
        assert(trailing_pad(seq![c0, c1, c2]) == 0);
        assert(trailing_pad(s) == 1);
    } else {
        let group = encode_group(b[0], b[1], b[2], 3);
        let rest = spec_b64(b.skip(3));
        lemma_b64_shape(b.skip(3));
        if b.len() == 3 {
            lemma_b64_char_not_pad(((b[1] % 16) * 4 + b[2] / 64) as int);
            lemma_b64_char_not_pad((b[2] % 64) as int);
            assert(rest =~= Seq::<char>::empty());
            assert(spec_b64(b) =~= group);
        } else {
            assert(rest.len() >= 4);
            assert(trailing_pad(rest) <= 2);
            lemma_trailing_pad_append(group, rest);
        }
    }
}

/// One character of the alphabet, executably.
fn b64_char_exec(v: u8) -> (c: char)
    requires
        v < 64,
    ensures
        c == b64_char(v as int),
{
    if v < 26 {
        (65 + v) as char
    } else if v < 52 {
        (97 + (v - 26)) as char
    } else if v < 62 {
        (48 + (v - 52)) as char
    } else if v == 62 {
        '+'
    } else {
        '/'
    }
}

fn encode_from(b: &[u8], i: usize) -> (s: String)
    requires
        i <= b@.len(),
    ensures
        s@ == spec_b64(b@.skip(i as int)),
    decreases b@.len() - i,
{
    let n = b.len();
    if i == n {
        let s = String::new();
        proof {
            assert(b@.skip(i as int) =~= Seq::<u8>::empty());
        }
        s
    } else {
        let b0 = b[i];
        let count: usize = n - i;
        let b1 = if count >= 2 { b[i + 1] } else { 0 };
        let b2 = if count >= 3 { b[i + 2] } else { 0 };
        let s0 = b0 / 4;
        let s1 = (b0 % 4) * 16 + b1 / 16;
        let s2 = (b1 % 16) * 4 + b2 / 64;
        let s3 = b2 % 64;
        let mut s = String::new();
        crate::text::push_char(&mut s, b64_char_exec(s0));
        crate::text::push_char(&mut s, b64_char_exec(s1));
        if count >= 2 {
            crate::text::push_char(&mut s, b64_char_exec(s2));
        } else {
            crate::text::push_char(&mut s, '=');
        }
        if count >= 3 {
            crate::text::push_char(&mut s, b64_char_exec(s3));
        } else {
            crate::text::push_char(&mut s, '=');
        }
        if count >= 3 {
            let rest = encode_from(b, i + 3);
            proof {
                assert(b@.skip(i as int).skip(3) =~= b@.skip(i + 3));
                assert(b@.skip(i as int)[0] == b@[i as int]);
                assert(b@.skip(i as int)[1] == b@[i + 1]);
                assert(b@.skip(i as int)[2] == b@[i + 2]);
            }
            let out = s.concat(rest.as_str());
            proof {
                assert(out@ =~= spec_b64(b@.skip(i as int)));
            }
            out
        } else {
            proof {
                let tail = b@.skip(i as int);
                assert(tail.len() == count);
                assert(tail[0] == b@[i as int]);
                if count == 2 {
                    assert(tail[1] == b@[i + 1]);
                }
                assert(s@ =~= spec_b64(tail));
            }
            s
        }
    }
}

/// Encodes the text's bytes as standard base64 with `=` padding.
pub fn base64_encode(input: &str) -> (s: String)
    ensures
        s@ == spec_b64(input.spec_bytes()),
{
    let bytes = input.as_bytes();
    let s = encode_from(bytes, 0);
    proof {
        assert(bytes@.skip(0) =~= bytes@);
    }
    s
}

} // verus!
