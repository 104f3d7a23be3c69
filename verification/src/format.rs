//! Human-readable rendering of durations, byte sizes and status codes,
//! with exact integer specifications (fractions are rounded half-up to two
//! decimal places).

use vstd::prelude::*;
use crate::text::{spec_dec, dec_digit, u64_to_dec, push_char};

verus! {

/// `whole` and a two-digit fraction of hundredths, as in `12.05`.
pub open spec fn spec_two_decimals(c: int) -> Seq<char>
    recommends
        c >= 0,
{
    spec_dec(c / 100) + seq!['.', dec_digit((c / 10) % 10), dec_digit(c % 10)]
}

/// The duration in milliseconds, as `ms` below one second, as seconds with
/// two decimals below one minute, else as minutes with two decimals.
pub open spec fn spec_format_duration(ms: int) -> Seq<char>
    recommends
        ms >= 0,
{
    if ms < 1000 {
        spec_dec(ms) + seq!['m', 's']
    } else if ms < 60000 {
        spec_two_decimals((ms + 5) / 10) + seq!['s']
    } else {
        spec_two_decimals((ms + 300) / 600) + seq!['m']
    }
}

/// Renders hundredths as `<whole>.<frac>` followed by `unit`.
fn two_decimals_with_unit(c: u64, unit: char) -> (s: String)
    ensures
        s@ == spec_two_decimals(c as int) + seq![unit],
{
    let mut s = u64_to_dec(c / 100);
    push_char(&mut s, '.');
    push_char(&mut s, (48 + ((c / 10) % 10) as u8) as char);
    push_char(&mut s, (48 + (c % 10) as u8) as char);
    push_char(&mut s, unit);
    proof {
        assert(s@ =~= spec_two_decimals(c as int) + seq![unit]);
    }
    s
}

/// Formats a millisecond count for people.
pub fn format_duration(ms: u64) -> (s: String)
    ensures
        s@ == spec_format_duration(ms as int),
{
    if ms < 1000 {
        let mut s = u64_to_dec(ms);
        push_char(&mut s, 'm');
        push_char(&mut s, 's');
        proof {
            assert(s@ =~= spec_format_duration(ms as int));
        }
        s
    } else if ms < 60000 {
        two_decimals_with_unit((ms + 5) / 10, 's')
    } else {
        let c128: u128 = (ms as u128 + 300) / 600;
        let c: u64 = c128 as u64;
        proof {
            assert(c == (ms as int + 300) / 600);
        }
        two_decimals_with_unit(c, 'm')
    }
}

/// The unit a byte count is shown in: 0 bytes, 1 kilo, 2 mega, 3 giga.
pub open spec fn size_unit(bytes: int) -> int {
    if bytes < 1024 {
        0
    } else if bytes < 1048576 {
        1
    } else if bytes < 1073741824 {
        2
    } else {
        3
    }
}

/// The divisor belonging to a unit.
pub open spec fn unit_divisor(k: int) -> int {
    if k == 0 {
        1
    } else if k == 1 {
        1024
    } else if k == 2 {
        1048576
    } else {
        1073741824
    }
}

/// The unit's suffix, with its leading space.
pub open spec fn unit_suffix(k: int) -> Seq<char> {
    if k == 0 {
        seq![' ', 'B']
    } else if k == 1 {
        seq![' ', 'K', 'B']
    } else if k == 2 {
        seq![' ', 'M', 'B']
    } else {
        seq![' ', 'G', 'B']
    }
}

/// A byte count scaled into B, KB, MB or GB: bytes print as an integer,
/// larger units with two decimals.
pub open spec fn spec_format_size(bytes: int) -> Seq<char>
    recommends
        bytes >= 0,
{
    let k = size_unit(bytes);
    if k == 0 {
        spec_dec(bytes) + unit_suffix(0)
    } else {
        let d = unit_divisor(k);
        spec_two_decimals((bytes * 100 + d / 2) / d) + unit_suffix(k)
    }
}

fn push_suffix(s: &mut String, a: char, b: char)
    ensures
        final(s)@ == old(s)@ + seq![a, b],
{
    push_char(s, a);
    push_char(s, b);
    proof {
        assert(final(s)@ =~= old(s)@ + seq![a, b]);
    }
}

/// Formats a byte count for people.
pub fn format_size(bytes: usize) -> (s: String)
    ensures
        s@ == spec_format_size(bytes as int),
{
    if bytes < 1024 {
        let mut s = u64_to_dec(bytes as u64);
        push_suffix(&mut s, ' ', 'B');
        s
    } else {
        let c: u64 = if bytes < 1048576 {
            ((bytes as u128 * 100 + 512) / 1024) as u64
        } else if bytes < 1073741824 {
            ((bytes as u128 * 100 + 524288) / 1048576) as u64
        } else {
            ((bytes as u128 * 100 + 536870912) / 1073741824) as u64
        };
        proof {
            let k = size_unit(bytes as int);
            assert(c == (bytes as int * 100 + unit_divisor(k) / 2) / unit_divisor(k));
        }
        let mut s = two_decimals_with_unit(c, ' ');
        let k_is_one = bytes < 1048576;
        let k_is_two = !k_is_one && bytes < 1073741824;
        proof {
            assert(spec_two_decimals(c as int) + seq![' '] + seq!['K', 'B']
                =~= spec_two_decimals(c as int) + unit_suffix(1));
            assert(spec_two_decimals(c as int) + seq![' '] + seq!['M', 'B']
                =~= spec_two_decimals(c as int) + unit_suffix(2));
            assert(spec_two_decimals(c as int) + seq![' '] + seq!['G', 'B']
                =~= spec_two_decimals(c as int) + unit_suffix(3));
        }
        if k_is_one {
            push_suffix(&mut s, 'K', 'B');
            s
        } else if k_is_two {
            push_suffix(&mut s, 'M', 'B');
            s
        } else {
            push_suffix(&mut s, 'G', 'B');
            s
        }
    }
}

/// The canonical phrase for the status codes the crate knows; anything else
/// is the generic phrase.
pub open spec fn spec_status_message(code: int) -> Seq<char> {
    if code == 200 {
        "OK"@
    } else if code == 201 {
        "Created"@
    } else if code == 204 {
        "No Content"@
    } else if code == 400 {
        "Bad Request"@
    } else if code == 401 {
        "Unauthorized"@
    } else if code == 403 {
        "Forbidden"@
    } else if code == 404 {
        "Not Found"@
    } else if code == 500 {
        "Internal Server Error"@
    } else if code == 502 {
        "Bad Gateway"@
    } else if code == 503 {
        "Service Unavailable"@
    } else {
        "Unknown Status"@
    }
}

/// The phrase for a status code.
pub fn status_message(status_code: u16) -> (s: String)
    ensures
        s@ == spec_status_message(status_code as int),
{
    if status_code == 200 {
        "OK".to_owned()
    } else if status_code == 201 {
        "Created".to_owned()
    } else if status_code == 204 {
        "No Content".to_owned()
    } else if status_code == 400 {
        "Bad Request".to_owned()
    } else if status_code == 401 {
        "Unauthorized".to_owned()
    } else if status_code == 403 {
        "Forbidden".to_owned()
    } else if status_code == 404 {
        "Not Found".to_owned()
    } else if status_code == 500 {
        "Internal Server Error".to_owned()
    } else if status_code == 502 {
        "Bad Gateway".to_owned()
    } else if status_code == 503 {
        "Service Unavailable".to_owned()
    } else {
        "Unknown Status".to_owned()
    }
}

} // verus!
