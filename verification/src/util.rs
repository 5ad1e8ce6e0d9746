//! Timestamp helpers shared by sessions and timesheets: the wall clock,
//! rendering durations for people, and parsing `HH:MM` offsets.

use vstd::prelude::*;

verus! {

/// The character for one decimal digit.
pub open spec fn spec_digit(d: int) -> char {
    if d == 0 {
        '0'
    } else if d == 1 {
        '1'
    } else if d == 2 {
        '2'
    } else if d == 3 {
        '3'
    } else if d == 4 {
        '4'
    } else if d == 5 {
        '5'
    } else if d == 6 {
        '6'
    } else if d == 7 {
        '7'
    } else if d == 8 {
        '8'
    } else {
        '9'
    }
}

/// The usual decimal rendering of a non-negative number, no leading zeros.
pub open spec fn spec_dec(n: int) -> Seq<char>
    decreases n,
{
    if n < 10 {
        seq![spec_digit(n)]
    } else {
        spec_dec(n / 10).push(spec_digit(n % 10))
    }
}

/// How a duration in seconds reads to a person, mirroring the rendering
/// rules of the status lines: seconds below a minute, minutes below an
/// hour, bare hours when the minutes round away (at most 4 past, or 56 and
/// beyond rounding up), and hours with minutes otherwise.
pub open spec fn spec_hms(seconds: int) -> Seq<char> {
    let h = seconds / 3600;
    let m = (seconds - h * 3600) / 60;
    let s = seconds - m * 60 - h * 3600;
    if h == 0 && m == 0 && s == 1 {
        "1 second"@
    } else if h == 0 && m == 0 {
        spec_dec(s) + " seconds"@
    } else if h == 0 && m == 1 {
        "1 minute"@
    } else if h == 0 {
        spec_dec(m) + " minutes"@
    } else if h == 1 && m <= 4 {
        "1 hour"@
    } else if m <= 4 {
        spec_dec(h) + " hours"@
    } else if 56 <= m && m <= 59 {
        spec_dec(h + 1) + " hours"@
    } else {
        spec_dec(h) + " hours and "@ + spec_dec(m) + " minutes"@
    }
}

/// Relies on `std::time::SystemTime::now` and
/// `SystemTime::duration_since(UNIX_EPOCH)`: the current wall-clock time in
/// whole seconds since the Unix epoch, or 0 if the clock reads before the
/// epoch. Nothing is promised of the value: the clock can move arbitrarily
/// between two calls.
#[verifier::external_body]
pub fn get_seconds() -> u64 {
    std::time::SystemTime::now()
        .duration_since(std::time::UNIX_EPOCH)
        .map(|d| d.as_secs())
        .unwrap_or(0)
}

/// The one-character string for a decimal digit.
fn digit_str(d: u64) -> (s: &'static str)
    requires
        d < 10,
    ensures
        s@ == seq![spec_digit(d as int)],
{
    let r = match d {
        0 => "0",
        1 => "1",
        2 => "2",
        3 => "3",
        4 => "4",
        5 => "5",
        6 => "6",
        7 => "7",
        8 => "8",
        _ => "9",
    };
    proof {
        reveal_strlit("0");
        reveal_strlit("1");
        reveal_strlit("2");
        reveal_strlit("3");
        reveal_strlit("4");
        reveal_strlit("5");
        reveal_strlit("6");
        reveal_strlit("7");
        reveal_strlit("8");
        reveal_strlit("9");
        assert(r@ =~= seq![spec_digit(d as int)]);
    }
    r
}

/// Renders a number in decimal, most significant digit first.
pub fn u64_to_string(n: u64) -> (s: String)
    ensures
        s@ == spec_dec(n as int),
    decreases n,
{
    if n < 10 {
        String::from_str(digit_str(n))
    } else {
        let mut s = u64_to_string(n / 10);
        s.append(digit_str(n % 10));
        proof {
            assert(s@ =~= spec_dec(n as int));
        }
        s
    }
}

/// Renders a duration in seconds for people, per `spec_hms`.
pub fn sec_to_hms_string(seconds: u64) -> (r: String)
    ensures
        r@ == spec_hms(seconds as int),
{
    let hours = seconds / 3600;
    let minutes = (seconds - hours * 3600) / 60;
    let secs = seconds - minutes * 60 - hours * 3600;
    if hours == 0 && minutes == 0 && secs == 1 {
        String::from_str("1 second")
    } else if hours == 0 && minutes == 0 {
        u64_to_string(secs).concat(" seconds")
    } else if hours == 0 && minutes == 1 {
        String::from_str("1 minute")
    } else if hours == 0 {
        u64_to_string(minutes).concat(" minutes")
    } else if hours == 1 && minutes <= 4 {
        String::from_str("1 hour")
    } else if minutes <= 4 {
        u64_to_string(hours).concat(" hours")
    } else if 56 <= minutes && minutes <= 59 {
        u64_to_string(hours + 1).concat(" hours")
    } else {
        let mut s = u64_to_string(hours).concat(" hours and ");
        s.append(u64_to_string(minutes).as_str());
        s.append(" minutes");
        s
    }
}

/// The seconds elapsed since `since` at instant `now`, clamped at zero
/// against a clock that moved backwards.
pub open spec fn spec_elapsed(now: u64, since: u64) -> int {
    if now >= since {
        now - since
    } else {
        0
    }
}

/// Whether a character is a decimal digit.
pub open spec fn is_digit_char(c: char) -> bool {
    48 <= c as int && c as int <= 57
}

/// The numeric value of a digit character.
pub open spec fn digit_val(c: char) -> int {
    c as int - 48
}

/// The length of the maximal digit run starting at `from`.
pub open spec fn digit_run_len(s: Seq<char>, from: int) -> int
    decreases s.len() - from,
{
    if from < 0 || from >= s.len() || !is_digit_char(s[from]) {
        0
    } else {
        1 + digit_run_len(s, from + 1)
    }
}

/// The number the digits `s[from..to]` spell out.
pub open spec fn digits_value(s: Seq<char>, from: int, to: int) -> int
    decreases to - from,
{
    if from >= to {
        0
    } else {
        digits_value(s, from, to - 1) * 10 + digit_val(s[to - 1])
    }
}

/// Whether the text starts with `<digits>:<digits>`; trailing characters
/// play no part in the grammar.
pub open spec fn hhmm_shape(s: Seq<char>) -> bool {
    let d1 = digit_run_len(s, 0);
    &&& d1 >= 1
    &&& d1 < s.len()
    &&& s[d1] == ':'
    &&& digit_run_len(s, d1 + 1) >= 1
}

/// The hour part of a `<digits>:<digits>` text.
pub open spec fn hhmm_hours(s: Seq<char>) -> int {
    digits_value(s, 0, digit_run_len(s, 0))
}

/// The minute part of a `<digits>:<digits>` text.
pub open spec fn hhmm_minutes(s: Seq<char>) -> int {
    let d1 = digit_run_len(s, 0);
    digits_value(s, d1 + 1, d1 + 1 + digit_run_len(s, d1 + 1))
}

/// Whether a `HH:MM` text parses: the shape must hold, each number must
/// fit a signed 64-bit value, and the resulting seconds must fit `u64`.
pub open spec fn hhmm_ok(s: Seq<char>) -> bool {
    &&& hhmm_shape(s)
    &&& hhmm_hours(s) <= i64::MAX
    &&& hhmm_minutes(s) <= i64::MAX
    &&& 3600 * hhmm_hours(s) + 60 * hhmm_minutes(s) <= u64::MAX
}

/// A run of digits from `from` to `to` (exclusive), with `to` just past the
/// run's end, is exactly the maximal run.
pub proof fn lemma_digit_run(s: Seq<char>, from: int, to: int)
    requires
        0 <= from <= to <= s.len(),
        forall|k: int| from <= k < to ==> is_digit_char(#[trigger] s[k]),
        to == s.len() || !is_digit_char(s[to]),
    ensures
        digit_run_len(s, from) == to - from,
    decreases to - from,
{
    if from < to {
        assert(is_digit_char(s[from]));
        lemma_digit_run(s, from + 1, to);
    }
}

/// Whether the character at `i` is a decimal digit.
fn char_at_is_digit(s: &str, i: usize) -> (r: bool)
    requires
        i < s@.len(),
    ensures
        r == is_digit_char(s@[i as int]),
{
    let cv = s.get_char(i) as u32;
    48 <= cv && cv <= 57
}

/// Parses a `HH:MM` offset into seconds: at least one digit, a colon, at
/// least one digit, anything after the minute digits ignored; a number too
/// large for a signed 64-bit value fails the parse, and so does a total
/// that cannot be counted in `u64` seconds.
pub fn parse_hhmm_to_seconds(timestr: &str) -> (r: Option<u64>)
    ensures
        match r {
            Some(v) => hhmm_ok(timestr@) && v as int == 3600 * hhmm_hours(timestr@) + 60
                * hhmm_minutes(timestr@),
            None => !hhmm_ok(timestr@),
        },
{
    let ghost s = timestr@;
    let len = timestr.unicode_len();
    let max_i64: u64 = 9223372036854775807;
    let mut i: usize = 0;
    let mut h: u64 = 0;
    let mut over_h = false;
    while i < len && char_at_is_digit(timestr, i)
        invariant
            s == timestr@,
            len == s.len(),
            0 <= i <= len,
            max_i64 == i64::MAX,
            forall|k: int| 0 <= k < i ==> is_digit_char(#[trigger] s[k]),
            digits_value(s, 0, i as int) >= 0,
            !over_h ==> h as int == digits_value(s, 0, i as int),
            over_h ==> digits_value(s, 0, i as int) > i64::MAX,
        decreases len - i,
    {
        let c = timestr.get_char(i);
        let cv = c as u32;
        let d = (cv - 48) as u64;
        proof {
            assert(digits_value(s, 0, i as int + 1) == digits_value(s, 0, i as int) * 10
                + digit_val(s[i as int]));
        }
        if over_h || h > (max_i64 - d) / 10 {
            proof {
                if !over_h {
                    assert((max_i64 - d) as int == 10 * (((max_i64 - d) as int) / 10) + ((
                    max_i64 - d) as int) % 10);
                }
            }
            over_h = true;
        } else {
            h = h * 10 + d;
        }
        i += 1;
    }
    let d1 = i;
    proof {
        lemma_digit_run(s, 0, d1 as int);
    }
    if d1 == 0 || d1 >= len {
        return None;
    }
    let colon = timestr.get_char(d1);
    if colon as u32 != 58 {
        proof {
            assert(s[d1 as int] != ':');
        }
        return None;
    }
    let mut j: usize = d1 + 1;
    let mut m: u64 = 0;
    let mut over_m = false;
    while j < len && char_at_is_digit(timestr, j)
        invariant
            s == timestr@,
            len == s.len(),
            d1 as int + 1 <= j <= len,
            max_i64 == i64::MAX,
            forall|k: int| d1 as int + 1 <= k < j ==> is_digit_char(#[trigger] s[k]),
            digits_value(s, d1 as int + 1, j as int) >= 0,
            !over_m ==> m as int == digits_value(s, d1 as int + 1, j as int),
            over_m ==> digits_value(s, d1 as int + 1, j as int) > i64::MAX,
        decreases len - j,
    {
        let c = timestr.get_char(j);
        let cv = c as u32;
        let d = (cv - 48) as u64;
        proof {
            assert(digits_value(s, d1 as int + 1, j as int + 1) == digits_value(
                s,
                d1 as int + 1,
                j as int,
            ) * 10 + digit_val(s[j as int]));
        }
        if over_m || m > (max_i64 - d) / 10 {
            proof {
                if !over_m {
                    assert((max_i64 - d) as int == 10 * (((max_i64 - d) as int) / 10) + ((
                    max_i64 - d) as int) % 10);
                }
            }
            over_m = true;
        } else {
            m = m * 10 + d;
        }
        j += 1;
    }
    proof {
        lemma_digit_run(s, d1 as int + 1, j as int);
    }
    if j == d1 + 1 {
        return None;
    }
    if over_h || over_m {
        return None;
    }
    // 3600 * h + 60 * m, refused where it cannot be counted in u64 seconds
    if h > u64::MAX / 3600 {
        proof {
            assert(u64::MAX as int == 3600 * ((u64::MAX as int) / 3600) + (u64::MAX as int)
                % 3600);
        }
        return None;
    }
    let hs = h * 3600;
    if m > u64::MAX / 60 {
        proof {
            assert(u64::MAX as int == 60 * ((u64::MAX as int) / 60) + (u64::MAX as int) % 60);
        }
        return None;
    }
    let ms = m * 60;
    if hs > u64::MAX - ms {
        return None;
    }
    Some(hs + ms)
}

} // verus!
