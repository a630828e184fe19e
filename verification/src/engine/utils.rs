//! Rates, ages and sizes.
use vstd::prelude::*;
use vstd::utf8::is_ascii_chars;

use crate::outside::clock::unix_seconds;
use crate::outside::codec::{lowercase, to_lower};
use crate::text::{
    ascii_lower, chars_of, concat, decimal, decimal_of, ends_with, is_white_space, lower_char,
    same_text, slice_of, string_of, trim, trimmed,
};

verus! {

/// How many bytes of a disk are never used.
pub const DISK_SPACE_RESERVE_BYTES: u64 = 67108864;

/// A rate as a number in text and the power of 1024 that it counts.
#[derive(Clone, Debug, PartialEq, Eq)]
pub struct RateText {
    pub number: String,
    pub multiplier: u32,
}

/// `s` without `suffix`, where it ends with it.
pub open spec fn without_suffix(s: Seq<char>, suffix: Seq<char>) -> Seq<char> {
    if suffix.is_suffix_of(s) {
        s.take(s.len() - suffix.len())
    } else {
        s
    }
}

/// A rate in lower case without the unit of bytes per second.
pub open spec fn rate_core(lower: Seq<char>) -> Seq<char> {
    let a = without_suffix(lower, "/s"@);
    let b = without_suffix(a, "b/s"@);
    let c = without_suffix(b, "b"@);
    trim(without_suffix(c, "ps"@))
}

/// The number and the multiplier of a rate in lower case.
pub open spec fn rate_parts(lower: Seq<char>) -> (Seq<char>, u32) {
    let core = rate_core(lower);
    if core.len() > 0 && core.last() == 'k' {
        (trim(core.drop_last()), 1024u32)
    } else if core.len() > 0 && core.last() == 'm' {
        (trim(core.drop_last()), 1048576u32)
    } else if core.len() > 0 && core.last() == 'g' {
        (trim(core.drop_last()), 1073741824u32)
    } else {
        (trim(core), 1u32)
    }
}

impl View for RateText {
    type V = (Seq<char>, u32);

    open spec fn view(&self) -> (Seq<char>, u32) {
        (self.number@, self.multiplier)
    }
}

/// `s` without `suffix`, where it ends with it.
fn drop_suffix(s: String, suffix: &str) -> (r: String)
    ensures
        r@ == without_suffix(s@, suffix@),
{
    if ends_with(s.as_str(), suffix) {
        let chars = chars_of(s.as_str());
        let tail = chars_of(suffix);
        let kept = slice_of(&chars, 0, chars.len() - tail.len());
        proof {
            assert(kept@ =~= s@.take(s@.len() - suffix@.len()));
        }
        string_of(&kept)
    } else {
        s
    }
}

/// Reads a rate in lower case.
pub fn read_rate(lower: &str) -> (r: RateText)
    ensures
        r@ == rate_parts(lower@),
{
    let a = drop_suffix(String::from_str(lower), "/s");
    let b = drop_suffix(a, "b/s");
    let c = drop_suffix(b, "b");
    let d = drop_suffix(c, "ps");
    let core = chars_of(trimmed(d.as_str()).as_str());
    let n: usize = core.len();
    if n > 0 {
        let multiplier: u32 = match core[n - 1] {
            'k' => 1024,
            'm' => 1048576,
            'g' => 1073741824,
            _ => 1,
        };
        if multiplier > 1 {
            let front = slice_of(&core, 0, n - 1);
            proof {
                assert(front@ =~= core@.drop_last());
            }
            let number = trimmed(string_of(&front).as_str());
            return RateText { number, multiplier };
        }
    }
    RateText { number: trimmed(string_of(&core).as_str()), multiplier: 1 }
}

/// The limit that a rate in lower case sets: none where it is empty, 0 or `unlimited`. The
/// words `low`, `medium` and `high` stand for 50, 500 and 1500 kilobytes per second.
pub open spec fn rate_limit(lower: Seq<char>) -> Option<(Seq<char>, u32)> {
    if lower.len() == 0 || lower == "0"@ || lower == "unlimited"@ {
        None
    } else if lower == "low"@ {
        Some(("50"@, 1024u32))
    } else if lower == "medium"@ {
        Some(("500"@, 1024u32))
    } else if lower == "high"@ {
        Some(("1500"@, 1024u32))
    } else {
        Some(rate_parts(lower))
    }
}

/// The number and the multiplier of a limit, where there is one.
pub open spec fn limit_view(limit: Option<RateText>) -> Option<(Seq<char>, u32)> {
    match limit {
        Some(t) => Some(t@),
        None => None,
    }
}

/// Reads the limit that a rate in lower case sets.
pub fn read_limit(lower: &str) -> (r: Option<RateText>)
    ensures
        limit_view(r) == rate_limit(lower@),
{
    if lower.is_empty() || same_text(lower, "0") || same_text(lower, "unlimited") {
        None
    } else if same_text(lower, "low") {
        Some(RateText { number: String::from_str("50"), multiplier: 1024 })
    } else if same_text(lower, "medium") {
        Some(RateText { number: String::from_str("500"), multiplier: 1024 })
    } else if same_text(lower, "high") {
        Some(RateText { number: String::from_str("1500"), multiplier: 1024 })
    } else {
        Some(read_rate(lower))
    }
}

/// Reads a rate such as `1.5 MB/s` or `Medium`; `None` where it sets no limit.
pub fn parse_rate(rate: &str) -> (r: Option<RateText>)
    ensures
        limit_view(r) == rate_limit(lowercase(rate@)),
        is_ascii_chars(rate@) ==> limit_view(r) == rate_limit(ascii_lower(rate@)),
        rate@.len() == 0 || rate@ == "0"@ ==> r is None,
{
    proof {
        reveal_strlit("0");
        if rate@.len() == 0 || rate@ == "0"@ {
            assert(is_ascii_chars(rate@));
            assert(ascii_lower(rate@) =~= rate@);
        }
    }
    read_limit(to_lower(rate).as_str())
}

/// The size of a unit of rates; the empty unit is that of bytes.
pub open spec fn unit_multiplier(unit: Seq<char>) -> u32 {
    if unit == "k"@ {
        1024
    } else if unit == "m"@ {
        1048576
    } else if unit == "g"@ {
        1073741824
    } else {
        1
    }
}

proof fn lemma_decimal_digits(n: nat)
    ensures
        decimal(n).len() > 0,
        forall|i: int| 0 <= i < decimal(n).len() ==> '0' <= #[trigger] decimal(n)[i] <= '9',
        n > 0 ==> decimal(n) != "0"@,
    decreases n,
{
    reveal_strlit("0");
    let digit = (n % 10 + 48) as char;
    assert('0' <= digit <= '9');
    if n < 10 {
        if n > 0 {
            assert(decimal(n)[0] != '0');
        }
    } else {
        lemma_decimal_digits(n / 10);
        assert(decimal(n).len() > 1);
    }
}

/// Trimming leaves a text without white space at its ends as it is.
proof fn lemma_trim_nothing(s: Seq<char>)
    requires
        s.len() > 0,
        !is_white_space(s[0]),
        !is_white_space(s.last()),
    ensures
        trim(s) == s,
{
}

/// A whole number with a unit sets that many of the unit, whether the unit is followed by `b`
/// for bytes, by `/s`, by both or by nothing, and whatever the case of the letters.
pub proof fn law_rate_in_units(n: nat, unit: Seq<char>, suffix: Seq<char>, rate: Seq<char>)
    requires
        n > 0,
        unit == ""@ || unit == "k"@ || unit == "m"@ || unit == "g"@,
        suffix == ""@ || suffix == "b"@ || suffix == "/s"@ || suffix == "b/s"@,
        ascii_lower(rate) == decimal(n) + unit + suffix,
    ensures
        is_ascii_chars(rate),
        rate_limit(ascii_lower(rate)) == Some((decimal(n), unit_multiplier(unit))),
        rate_limit(ascii_lower(rate)) == rate_limit(decimal(n) + unit),
{
    let number = decimal(n);
    let plain = number + unit;
    let lower = plain + suffix;
    reveal_strlit("");
    lemma_decimal_digits(n);
    lemma_rate_is_ascii(n, unit, suffix, rate);
    lemma_plain_rate(n, unit);
    lemma_rate_suffix(plain, suffix);
    lemma_rate_suffix(plain, ""@);
    assert(plain + ""@ =~= plain);
    assert(number + (unit + suffix) =~= lower);
    lemma_no_rate_word(lower, n, unit + suffix);
    lemma_no_rate_word(plain, n, unit);
}

/// A whole number with a unit and a suffix is an ASCII text, in any case of the letters.
proof fn lemma_rate_is_ascii(n: nat, unit: Seq<char>, suffix: Seq<char>, rate: Seq<char>)
    requires
        unit == ""@ || unit == "k"@ || unit == "m"@ || unit == "g"@,
        suffix == ""@ || suffix == "b"@ || suffix == "/s"@ || suffix == "b/s"@,
        ascii_lower(rate) == decimal(n) + unit + suffix,
    ensures
        is_ascii_chars(rate),
{
    let number = decimal(n);
    let plain = number + unit;
    let lower = plain + suffix;
    lemma_decimal_digits(n);
    reveal_strlit("");
    reveal_strlit("k");
    reveal_strlit("m");
    reveal_strlit("g");
    reveal_strlit("b");
    reveal_strlit("/s");
    reveal_strlit("b/s");
    assert(ascii_lower(rate).len() == rate.len());
    assert forall|i: int| 0 <= i < rate.len() implies '\0' <= #[trigger] rate[i] <= '\u{7f}' by {
        let c = ascii_lower(rate)[i];
        assert(c == lower_char(rate[i]));
        assert(c == lower[i]);
        if i < number.len() {
            assert(c == number[i]);
        } else if i < plain.len() {
            assert(c == unit[i - number.len()]);
        } else {
            assert(c == suffix[i - plain.len()]);
        }
    }
}

/// A text that begins with a whole number is none of the words for a rate.
proof fn lemma_no_rate_word(lower: Seq<char>, n: nat, rest: Seq<char>)
    requires
        n > 0,
        lower == decimal(n) + rest,
    ensures
        rate_limit(lower) == Some(rate_parts(lower)),
{
    lemma_decimal_digits(n);
    reveal_strlit("0");
    reveal_strlit("unlimited");
    reveal_strlit("low");
    reveal_strlit("medium");
    reveal_strlit("high");
    assert(lower[0] == decimal(n)[0]);
    assert("unlimited"@[0] == 'u' && "low"@[0] == 'l' && "medium"@[0] == 'm' && "high"@[0] == 'h');
    if lower == "0"@ {
        assert("0"@.len() == 1);
        assert(lower =~= decimal(n));
    }
}

/// A number with a unit ends in none of the suffixes of rates.
proof fn lemma_rate_suffix(plain: Seq<char>, suffix: Seq<char>)
    requires
        plain.len() > 0,
        !is_white_space(plain[0]),
        '0' <= plain.last() <= '9' || plain.last() == 'k' || plain.last() == 'm' || plain.last()
            == 'g',
        suffix == ""@ || suffix == "b"@ || suffix == "/s"@ || suffix == "b/s"@,
    ensures
        rate_core(plain + suffix) == plain,
{
    reveal_strlit("");
    reveal_strlit("b");
    reveal_strlit("/s");
    reveal_strlit("b/s");
    reveal_strlit("ps");
    lemma_trim_nothing(plain);
    lemma_not_suffix(plain, "/s"@);
    lemma_not_suffix(plain, "b/s"@);
    lemma_not_suffix(plain, "b"@);
    lemma_not_suffix(plain, "ps"@);
    let with_b = plain + "b"@;
    assert(with_b.last() == 'b');
    lemma_not_suffix(with_b, "/s"@);
    lemma_not_suffix(with_b, "b/s"@);
    assert(with_b.take(with_b.len() - 1) =~= plain);
    assert("b"@.is_suffix_of(with_b));
    if suffix == ""@ {
        assert(plain + suffix =~= plain);
    } else if suffix == "/s"@ {
        let s = plain + suffix;
        assert("/s"@.is_suffix_of(s));
        assert(s.take(s.len() - 2) =~= plain);
    } else if suffix == "b/s"@ {
        let s = plain + suffix;
        assert("/s"@ =~= s.subrange(s.len() - 2, s.len() as int));
        assert(s.take(s.len() - 2) =~= with_b);
    }
}

/// A text that ends in another character does not end in `suffix`.
pub proof fn lemma_not_suffix(s: Seq<char>, suffix: Seq<char>)
    requires
        s.len() > 0,
        suffix.len() > 0,
        s.last() != suffix.last(),
    ensures
        !suffix.is_suffix_of(s),
{
    if suffix.is_suffix_of(s) {
        let tail = s.subrange(s.len() - suffix.len(), s.len() as int);
        assert(tail[suffix.len() - 1] == s.last());
    }
}

/// The number and the multiplier of a whole number with a unit.
proof fn lemma_plain_rate(n: nat, unit: Seq<char>)
    requires
        unit == ""@ || unit == "k"@ || unit == "m"@ || unit == "g"@,
    ensures
        !is_white_space((decimal(n) + unit)[0]),
        ({
            let core = decimal(n) + unit;
            &&& '0' <= core.last() <= '9' || core.last() == 'k' || core.last() == 'm'
                || core.last() == 'g'
            &&& forall|lower: Seq<char>|
                rate_core(lower) == core ==> #[trigger] rate_parts(lower) == (
                    decimal(n),
                    unit_multiplier(unit),
                )
        }),
{
    let number = decimal(n);
    let core = number + unit;
    lemma_decimal_digits(n);
    reveal_strlit("");
    reveal_strlit("k");
    reveal_strlit("m");
    reveal_strlit("g");
    assert(core[0] == number[0]);
    lemma_trim_nothing(number);
    if unit == ""@ {
        assert(core =~= number);
    } else {
        assert(core.last() == unit[0]);
        assert(core.drop_last() =~= number);
        assert("k"@[0] == 'k' && "m"@[0] == 'm' && "g"@[0] == 'g');
    }
}

/// The limits on down- and upload, by the rates that the settings give. A limit of 0 is
/// none; where nothing may be uploaded, the limit is 1.
pub fn rate_limits(down: Option<u32>, up: Option<u32>, enable_upload: bool) -> (r: (
    Option<u32>,
    Option<u32>,
))
    ensures
        r.0 == (if down == Some(0u32) {
            None
        } else {
            down
        }),
        r.1 == (if !enable_upload {
            Some(1u32)
        } else if up == Some(0u32) {
            None
        } else {
            up
        }),
{
    (nonzero(down), if enable_upload {
        nonzero(up)
    } else {
        Some(1)
    })
}

fn nonzero(rate: Option<u32>) -> (r: Option<u32>)
    ensures
        r == (if rate == Some(0u32) {
            None
        } else {
            rate
        }),
{
    match rate {
        Some(0) => None,
        other => other,
    }
}

/// How long ago something was that lies `seconds` back.
pub open spec fn ago(seconds: int) -> Seq<char> {
    if seconds < 1 {
        "just now"@
    } else if seconds < 60 {
        decimal(seconds as nat) + " seconds ago"@
    } else if seconds / 60 < 60 {
        decimal((seconds / 60) as nat) + " minutes ago"@
    } else if seconds / 3600 < 24 {
        decimal((seconds / 3600) as nat) + " hours ago"@
    } else {
        decimal((seconds / 86400) as nat) + " days ago"@
    }
}

/// How long ago `timestamp` was at `now`; nothing for the time stamp 0.
pub open spec fn ago_at(timestamp: i64, now: i64) -> Seq<char> {
    if timestamp == 0 {
        ""@
    } else {
        ago(now - timestamp)
    }
}

/// How long ago `timestamp` was at `now`; `None` where the time between them is beyond
/// all time stamps.
pub fn format_ago_at(timestamp: i64, now: i64) -> (r: Option<String>)
    ensures
        match r {
            Some(text) => text@ == ago_at(timestamp, now) && (timestamp == 0 || i64::MIN <= now
                - timestamp <= i64::MAX),
            None => timestamp != 0 && !(i64::MIN <= now - timestamp <= i64::MAX),
        },
{
    if timestamp == 0 {
        return Some(String::from_str(""));
    }
    let diff = match now.checked_sub(timestamp) {
        Some(d) => d,
        None => {
            return None;
        },
    };
    if diff < 1 {
        return Some(String::from_str("just now"));
    }
    let seconds: u64 = diff as u64;
    if seconds < 60 {
        return Some(concat(decimal_of(seconds).as_str(), " seconds ago"));
    }
    let mins: u64 = seconds / 60;
    if mins < 60 {
        return Some(concat(decimal_of(mins).as_str(), " minutes ago"));
    }
    let hours: u64 = mins / 60;
    if hours < 24 {
        return Some(concat(decimal_of(hours).as_str(), " hours ago"));
    }
    let days: u64 = hours / 24;
    Some(concat(decimal_of(days).as_str(), " days ago"))
}

/// How long ago `timestamp` is now; nothing for the time stamp 0. `None` while the clock
/// stands before the epoch, or too far from `timestamp`.
pub fn format_ago(timestamp: i64) -> (r: Option<String>)
    ensures
        timestamp == 0 ==> r is Some,
        r matches Some(text) ==> exists|now: i64| text@ == #[trigger] ago_at(timestamp, now),
{
    if timestamp == 0 {
        proof {
            assert(ago_at(timestamp, 0) == ""@);
        }
        return Some(String::from_str(""));
    }
    match unix_seconds() {
        Some(seconds) => format_ago_at(timestamp, seconds as i64),
        None => None,
    }
}

/// What is left to download, where anything is.
pub open spec fn remaining(total_bytes: u64, progress_bytes: u64) -> Option<u64> {
    if progress_bytes < total_bytes {
        Some((total_bytes - progress_bytes) as u64)
    } else {
        None
    }
}

/// What is left to download, where anything is.
pub fn remaining_download_bytes(total_bytes: u64, progress_bytes: u64) -> (r: Option<u64>)
    ensures
        r == remaining(total_bytes, progress_bytes),
{
    if total_bytes == 0 || progress_bytes >= total_bytes {
        None
    } else {
        Some(total_bytes - progress_bytes)
    }
}

/// `n` over `d`, rounded to the nearest number, and to an even one where two are nearest.
pub open spec fn nearest(n: nat, d: nat) -> nat {
    let below = n / d;
    if 2 * (n % d) < d || (2 * (n % d) == d && below % 2 == 0) {
        below
    } else {
        below + 1
    }
}

/// The distance between the numbers of 53 binary digits around `n`.
pub open spec fn gap(n: nat) -> nat
    decreases n,
{
    if n < 0x20_0000_0000_0000 {
        1
    } else {
        2 * gap(n / 2)
    }
}

/// The number of 53 binary digits nearest to `n`.
pub open spec fn nearest_double(n: nat) -> nat {
    nearest(n, gap(n)) * gap(n)
}

/// How many times `n` is divided by 1024: until it is below 1024, and at most 4 times.
pub open spec fn unit_of(n: nat) -> nat {
    if n < 1024 {
        0
    } else if n < 1048576 {
        1
    } else if n < 1073741824 {
        2
    } else if n < 1099511627776 {
        3
    } else {
        4
    }
}

/// The size of a unit.
pub open spec fn unit_size(unit: nat) -> nat {
    if unit == 0 {
        1
    } else if unit == 1 {
        1024
    } else if unit == 2 {
        1048576
    } else if unit == 3 {
        1073741824
    } else {
        1099511627776
    }
}

/// The name of a unit.
pub open spec fn unit_name(unit: nat) -> Seq<char> {
    if unit == 0 {
        "B"@
    } else if unit == 1 {
        "KB"@
    } else if unit == 2 {
        "MB"@
    } else if unit == 3 {
        "GB"@
    } else {
        "TB"@
    }
}

/// A number of hundredths, with two digits behind the point.
pub open spec fn hundredths_text(hundredths: nat) -> Seq<char> {
    decimal(hundredths / 100) + "."@ + decimal(hundredths / 10 % 10) + decimal(hundredths % 10)
}

/// A number of bytes in its unit, with two digits behind the point.
pub open spec fn bytes_text(bytes: u64) -> Seq<char> {
    if bytes == 0 {
        "0 B"@
    } else {
        let value = nearest_double(bytes as nat);
        let unit = unit_of(value);
        hundredths_text(nearest(value * 100, unit_size(unit))) + " "@ + unit_name(unit)
    }
}

fn rounded(n: u128, d: u128) -> (r: u128)
    requires
        0 < d <= 0x100_0000_0000,
        n < 0x1_0000_0000_0000_0000_0000_0000,
    ensures
        r == nearest(n as nat, d as nat),
        r <= n + 1,
{
    let below: u128 = n / d;
    let rest: u128 = n % d;
    proof {
        assert(below <= n) by (nonlinear_arith)
            requires
                d > 0,
                below == n / d,
        ;
        assert(rest < d) by (nonlinear_arith)
            requires
                d > 0,
                rest == n % d,
        ;
    }
    if 2 * rest < d || (2 * rest == d && below % 2 == 0) {
        below
    } else {
        below + 1
    }
}

proof fn lemma_gap(n: nat)
    requires
        n <= u64::MAX,
    ensures
        1 <= gap(n) <= 2048,
{
    reveal_with_fuel(gap, 13);
}

fn as_double(n: u64) -> (r: u128)
    ensures
        r == nearest_double(n as nat),
        r <= 0x800_0000_0000_0000_0000,
{
    let mut m: u64 = n;
    let mut g: u128 = 1;
    proof {
        lemma_gap(n as nat);
    }
    while m >= 0x20_0000_0000_0000
        invariant
            g * gap(m as nat) == gap(n as nat),
            1 <= gap(n as nat) <= 2048,
            1 <= g <= 2048,
        decreases m,
    {
        proof {
            let inner = gap((m / 2) as nat);
            let wide = g as nat;
            lemma_gap((m / 2) as nat);
            assert(gap(m as nat) == 2 * inner);
            assert((2 * wide) * inner == wide * (2 * inner)) by (nonlinear_arith);
            assert(2 * wide <= (2 * wide) * inner) by (nonlinear_arith)
                requires
                    inner >= 1,
            ;
        }
        m = m / 2;
        g = 2 * g;
    }
    proof {
        assert(gap(m as nat) == 1);
        assert(g * 1 == g) by (nonlinear_arith);
    }
    let q = rounded(n as u128, g);
    proof {
        assert(q * g <= 0x1_0000_0000_0000_0000 * 2048) by (nonlinear_arith)
            requires
                q <= 0x1_0000_0000_0000_0000,
                g <= 2048,
        ;
    }
    q * g
}

/// A number of bytes in its unit, with two digits behind the point.
pub fn format_bytes_for_error(bytes: u64) -> (r: String)
    ensures
        r@ == bytes_text(bytes),
{
    if bytes == 0 {
        return String::from_str("0 B");
    }
    let value = as_double(bytes);
    let (size, unit): (u128, &str) = if value < 1024 {
        (1, "B")
    } else if value < 1048576 {
        (1024, "KB")
    } else if value < 1073741824 {
        (1048576, "MB")
    } else if value < 1099511627776 {
        (1073741824, "GB")
    } else {
        (1099511627776, "TB")
    };
    let hundredths: u128 = rounded(value * 100, size);
    let whole: u128 = hundredths / 100;
    proof {
        lemma_whole_fits(bytes);
    }
    let mut text = decimal_of(whole as u64);
    text.append(".");
    text.append(decimal_of((hundredths / 10 % 10) as u64).as_str());
    text.append(decimal_of((hundredths % 10) as u64).as_str());
    text.append(" ");
    text.append(unit);
    text
}

proof fn lemma_whole_fits(bytes: u64)
    ensures
        nearest(
            nearest_double(bytes as nat) * 100,
            unit_size(unit_of(nearest_double(bytes as nat))),
        ) / 100 <= u64::MAX,
{
    let n = bytes as nat;
    let g = gap(n);
    let value = nearest_double(n);
    lemma_gap(n);
    let q = nearest(n, g);
    assert(value <= 0x1_0000_0000_0000_0000 + 2048) by {
        assert(q <= n / g + 1);
        assert(q * g <= n + g) by (nonlinear_arith)
            requires
                q <= n / g + 1,
                g >= 1,
        ;
    }
    let size = unit_size(unit_of(value));
    assert(nearest(value * 100, size) <= value * 100 / size + 1);
}

/// The message on a download that does not fit.
pub open spec fn storage_error(required: u64, free: u64) -> Seq<char> {
    "Need "@ + bytes_text(required) + " free for this download, but only "@ + bytes_text(free)
        + " is available in the download directory."@
}

/// The message on a download that does not fit.
pub fn format_storage_error(required: u64, free: u64) -> (r: String)
    ensures
        r@ == storage_error(required, free),
{
    let mut text = concat("Need ", format_bytes_for_error(required).as_str());
    text.append(" free for this download, but only ");
    text.append(format_bytes_for_error(free).as_str());
    text.append(" is available in the download directory.");
    text
}

} // verus!
