//! How the system's uptime and identity are shown.
use vstd::prelude::*;
use crate::num::{dec_digits, push_dec};
use crate::text::{push_char, push_chars};

verus! {

/// Host facts shown in the header.
#[derive(Debug, Clone)]
pub struct SystemInfo {
    pub hostname: String,
    pub kernel_version: String,
    pub os_version: String,
    pub architecture: String,
    pub cpu_count: usize,
}

/// The one-line description of a host: `host | os | arch | N cores`.
pub open spec fn system_info_line(i: SystemInfo) -> Seq<char> {
    i.hostname@ + " | "@ + i.os_version@ + " | "@ + i.architecture@ + " | "@ + dec_digits(
        i.cpu_count as nat,
    ) + " cores"@
}

impl SystemInfo {
    /// The one-line description of the host.
    pub fn to_string(&self) -> (r: String)
        ensures
            r@ == system_info_line(*self),
    {
        let mut r = self.hostname.clone();
        push_chars(&mut r, " | ");
        push_chars(&mut r, self.os_version.as_str());
        push_chars(&mut r, " | ");
        push_chars(&mut r, self.architecture.as_str());
        push_chars(&mut r, " | ");
        push_dec(&mut r, self.cpu_count as u64);
        push_chars(&mut r, " cores");
        r
    }
}

/// `x` read as a two's-complement `i64` (as `x as i64` does).
pub open spec fn as_i64(x: nat) -> int {
    if x <= i64::MAX {
        x as int
    } else {
        x - 0x1_0000_0000_0000_0000
    }
}

/// Division rounding toward zero (as `/` on `i64`).
pub open spec fn div_toward_zero(a: int, d: nat) -> int {
    if a >= 0 {
        a / (d as int)
    } else {
        -((-a) / (d as int))
    }
}

/// The remainder that goes with `div_toward_zero` (as `%` on `i64`).
pub open spec fn rem_toward_zero(a: int, d: nat) -> int {
    a - d * div_toward_zero(a, d)
}

/// The decimal form of a signed integer (as `{}` formats one).
pub open spec fn signed_digits(x: int) -> Seq<char> {
    if x < 0 {
        seq!['-'] + dec_digits((-x) as nat)
    } else {
        dec_digits(x as nat)
    }
}

/// The largest number of seconds a chrono duration holds (`i64::MAX` milliseconds).
pub open spec fn max_duration_secs() -> int {
    9_223_372_036_854_775
}

/// How an uptime of `secs` seconds is shown: days, hours and minutes, leaving out
/// the leading units that are not positive.
pub open spec fn uptime_text(secs: int) -> Seq<char> {
    let days = div_toward_zero(secs, 86400);
    let hours = rem_toward_zero(div_toward_zero(secs, 3600), 24);
    let minutes = rem_toward_zero(div_toward_zero(secs, 60), 60);
    if days > 0 {
        signed_digits(days) + "d "@ + signed_digits(hours) + "h "@ + signed_digits(minutes) + "m"@
    } else if hours > 0 {
        signed_digits(hours) + "h "@ + signed_digits(minutes) + "m"@
    } else {
        signed_digits(minutes) + "m"@
    }
}

/// Appends the decimal form of `mag`, negated when `neg` holds.
fn push_signed(s: &mut String, neg: bool, mag: u64)
    ensures
        final(s)@ == old(s)@ + signed_digits(if neg { -(mag as int) } else { mag as int }),
{
    if neg && mag > 0 {
        push_char(s, '-');
    }
    push_dec(s, mag);
    proof {
        if neg && mag > 0 {
            assert(old(s)@.push('-') + dec_digits(mag as nat) == old(s)@ + (seq!['-'] + dec_digits(
                mag as nat,
            )));
        }
    }
}

/// The uptime `uptime_seconds` as shown (the seconds are read as a chrono duration,
/// which the count must fit once taken as an `i64`).
pub fn format_uptime(uptime_seconds: u64) -> (r: String)
    requires
        -max_duration_secs() <= as_i64(uptime_seconds as nat) <= max_duration_secs(),
    ensures
        r@ == uptime_text(as_i64(uptime_seconds as nat)),
{
    let neg = uptime_seconds > 0x7fff_ffff_ffff_ffff;
    let mag: u64 = if neg {
        u64::MAX - uptime_seconds + 1
    } else {
        uptime_seconds
    };
    let ghost secs = as_i64(uptime_seconds as nat);
    assert(secs == if neg { -(mag as int) } else { mag as int });
    let days = mag / 86400;
    let hours = (mag / 3600) % 24;
    let minutes = (mag / 60) % 60;
    let ghost sd = div_toward_zero(secs, 86400);
    let ghost sh = rem_toward_zero(div_toward_zero(secs, 3600), 24);
    let ghost sm = rem_toward_zero(div_toward_zero(secs, 60), 60);
    assert(sd == if neg { -(days as int) } else { days as int });
    assert(sh == if neg { -(hours as int) } else { hours as int });
    assert(sm == if neg { -(minutes as int) } else { minutes as int });
    let mut r = String::new();
    if !neg && days > 0 {
        push_signed(&mut r, neg, days);
        push_chars(&mut r, "d ");
        push_signed(&mut r, neg, hours);
        push_chars(&mut r, "h ");
        push_signed(&mut r, neg, minutes);
        push_chars(&mut r, "m");
    } else if !neg && hours > 0 {
        push_signed(&mut r, neg, hours);
        push_chars(&mut r, "h ");
        push_signed(&mut r, neg, minutes);
        push_chars(&mut r, "m");
    } else {
        push_signed(&mut r, neg, minutes);
        push_chars(&mut r, "m");
    }
    r
}

} // verus!
