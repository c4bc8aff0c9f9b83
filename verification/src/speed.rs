//! Throughput values: parsing them from the device's decimal strings,
//! choosing a display unit, and writing the speed line.

use vstd::prelude::*;
use vstd::string::StrSliceExecFns;
use vstd::string::StringExecFns;

use crate::text::all_digits;
use crate::text::dec_digits;
use crate::text::dec_val;
use crate::text::digit_val;
use crate::text::find_char;
use crate::text::first_at;
use crate::text::is_digit;
use crate::text::lemma_dec_val_take_le;
use crate::text::u64_to_string;

verus! {

/// Current uplink and downlink throughput, in bytes per second.
/// Replaced wholesale on every poll; fractions of a byte per second are
/// not represented.
pub struct RouterInfo {
    pub upspeed: u64,
    pub downspeed: u64,
}

pub open spec fn unit_b() -> Seq<char> {
    seq!['B', '/', 's']
}

pub open spec fn unit_kb() -> Seq<char> {
    seq!['K', 'B', '/', 's']
}

pub open spec fn unit_mb() -> Seq<char> {
    seq!['M', 'B', '/', 's']
}

/// The display unit for a throughput of `s` bytes per second: plain bytes
/// below one KiB; megabytes once `s / 1024`, rounded half up, exceeds 1024;
/// kilobytes in between.
pub open spec fn spec_speed_unit(s: nat) -> Seq<char> {
    if s < 1024 {
        unit_b()
    } else if (s + 512) / 1024 > 1024 {
        unit_mb()
    } else {
        unit_kb()
    }
}

/// Suffix naming the unit a throughput value is displayed in.
pub fn speed_unit(speed: u64) -> (r: &'static str)
    ensures
        r@ == spec_speed_unit(speed as nat),
{
    proof {
        reveal_strlit("B/s");
        reveal_strlit("KB/s");
        reveal_strlit("MB/s");
    }
    if speed < 1024 {
        assert("B/s"@ =~= unit_b());
        "B/s"
    } else if speed >= 1049088 {
        assert(((speed as nat) + 512) / 1024 > 1024);
        assert("MB/s"@ =~= unit_mb());
        "MB/s"
    } else {
        assert(((speed as nat) + 512) / 1024 <= 1024);
        assert("KB/s"@ =~= unit_kb());
        "KB/s"
    }
}

/// The throughput a decimal string of the device denotes, in whole bytes per
/// second: the value of the digits before the first `.`, with any fractional
/// digits ignored. A string that is not `digits` or `digits.digits`, or whose
/// whole part does not fit in a `u64`, counts as zero, mirroring how an
/// unreadable field falls back to a default.
pub open spec fn spec_speed_value(s: Seq<char>) -> nat {
    let dot = first_at(s, '.');
    let ip = s.take(dot);
    let fp = s.skip(
        if dot < s.len() {
            dot + 1
        } else {
            dot
        },
    );
    if ip.len() > 0 && all_digits(ip) && all_digits(fp) && dec_val(ip) <= u64::MAX {
        dec_val(ip)
    } else {
        0
    }
}

/// Reads a throughput value from the device's decimal string.
pub fn parse_speed(s: &str) -> (r: u64)
    ensures
        r as nat == spec_speed_value(s@),
{
    let n = s.unicode_len();
    let dot = find_char(s, '.');
    let ghost ip = s@.take(dot as int);
    if dot == 0 {
        return 0;
    }
    let mut v: u64 = 0;
    let mut j: usize = 0;
    while j < dot
        invariant
            n == s@.len(),
            0 < dot <= n,
            dot as int == first_at(s@, '.'),
            ip == s@.take(dot as int),
            j <= dot,
            v as nat == dec_val(ip.take(j as int)),
            forall|j2: int| 0 <= j2 < j ==> is_digit(#[trigger] ip[j2]),
        decreases dot - j,
    {
        let c = s.get_char(j);
        assert(ip[j as int] == s@[j as int]);
        if c < '0' || c > '9' {
            assert(!is_digit(ip[j as int]));
            assert(!all_digits(ip));
            return 0;
        }
        let d: u64 = (c as u32 - 48) as u64;
        assert(d as nat == digit_val(c));
        proof {
            assert(ip.take(j + 1).drop_last() =~= ip.take(j as int));
            assert(ip.take(j + 1).last() == ip[j as int]);
            assert(dec_val(ip.take(j + 1)) == dec_val(ip.take(j as int)) * 10 + digit_val(
                ip[j as int],
            ));
        }
        if v > u64::MAX / 10 {
            proof {
                lemma_dec_val_take_le(ip, j + 1);
                assert(dec_val(ip.take(j + 1)) > u64::MAX);
            }
            return 0;
        }
        v = v * 10;
        if v > u64::MAX - d {
            proof {
                lemma_dec_val_take_le(ip, j + 1);
                assert(dec_val(ip.take(j + 1)) > u64::MAX);
                assert(dec_val(ip) > u64::MAX);
                assert(spec_speed_value(s@) == 0);
            }
            return 0;
        }
        v = v + d;
        j = j + 1;
    }
    proof {
        assert(ip.take(dot as int) =~= ip);
        assert(all_digits(ip));
    }
    if dot < n {
        let mut k: usize = dot + 1;
        let ghost fp = s@.skip(dot + 1);
        while k < n
            invariant
                n == s@.len(),
                dot + 1 <= k <= n,
                dot as int == first_at(s@, '.'),
                ip == s@.take(dot as int),
                ip.len() > 0,
                all_digits(ip),
                v as nat == dec_val(ip),
                fp == s@.skip(dot + 1),
                forall|k2: int| 0 <= k2 < k - dot - 1 ==> is_digit(#[trigger] fp[k2]),
            decreases n - k,
        {
            let c = s.get_char(k);
            assert(fp[k - dot - 1] == s@[k as int]);
            if c < '0' || c > '9' {
                assert(!is_digit(fp[k - dot - 1]));
                assert(!all_digits(fp));
                return 0;
            }
            k = k + 1;
        }
        assert(all_digits(fp));
    }
    v
}

/// Emphasis used on the headline throughput numbers.
pub open spec fn bold_wrap(s: Seq<char>) -> Seq<char> {
    "\u{1b}[1m"@ + s + "\u{1b}[0m"@
}

/// De-emphasis used on the unit suffixes.
pub open spec fn dim_wrap(s: Seq<char>) -> Seq<char> {
    "\u{1b}[2m"@ + s + "\u{1b}[0m"@
}

/// The speed line's text: up arrow, bold up-throughput with its dimmed unit,
/// then down arrow, bold down-throughput with its dimmed unit.
pub open spec fn spec_router_line(up: nat, down: nat) -> Seq<char> {
    "↑ "@ + bold_wrap(dec_digits(up)) + " "@ + dim_wrap(spec_speed_unit(up)) + " \t ↓ "@
        + bold_wrap(dec_digits(down)) + " "@ + dim_wrap(spec_speed_unit(down))
}

/// Writes the current throughput as one terminal line.
pub fn router_line(info: &RouterInfo) -> (r: String)
    ensures
        r@ == spec_router_line(info.upspeed as nat, info.downspeed as nat),
{
    let mut r = String::new();
    r.append("↑ ");
    r.append("\u{1b}[1m");
    let up = u64_to_string(info.upspeed);
    r.append(up.as_str());
    r.append("\u{1b}[0m");
    r.append(" ");
    r.append("\u{1b}[2m");
    r.append(speed_unit(info.upspeed));
    r.append("\u{1b}[0m");
    r.append(" \t ↓ ");
    r.append("\u{1b}[1m");
    let down = u64_to_string(info.downspeed);
    r.append(down.as_str());
    r.append("\u{1b}[0m");
    r.append(" ");
    r.append("\u{1b}[2m");
    r.append(speed_unit(info.downspeed));
    r.append("\u{1b}[0m");
    proof {
        assert(r@ =~= spec_router_line(info.upspeed as nat, info.downspeed as nat));
    }
    r
}

} // verus!
