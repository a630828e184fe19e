//! What holds of ages, sizes, rates and room, whatever the numbers are.
use vstd::prelude::*;

use crate::engine::space::{
    any_covers, any_root, count_active, holds_directory, is_first_root, less, reservation,
    DiskFacts, Transfer,
};
use crate::engine::trackers::TRACKER_CACHE_TTL;
use crate::engine::utils::{
    ago, ago_at, bytes_text, gap, lemma_not_suffix, nearest, nearest_double, rate_core, rate_limit,
    remaining, DISK_SPACE_RESERVE_BYTES,
};
use crate::text::{decimal, in_class, is_white_space, trim, CharClass};
use crate::text_laws::law_trimmed;

verus! {

/// An age is told in the largest unit of which it holds at least one whole, and in whole
/// ones: seconds below a minute, minutes below an hour, hours below a day, and else days.
/// What is not a second old, or lies ahead, is just now.
pub proof fn law_ago(seconds: int, n: nat)
    ensures
        seconds < 1 ==> ago(seconds) == "just now"@,
        seconds == n && 1 <= n < 60 ==> ago(seconds) == decimal(n) + " seconds ago"@,
        60 * n <= seconds < 60 * (n + 1) && 1 <= n < 60 ==> ago(seconds) == decimal(n)
            + " minutes ago"@,
        3600 * n <= seconds < 3600 * (n + 1) && 1 <= n < 24 ==> ago(seconds) == decimal(n)
            + " hours ago"@,
        86400 * n <= seconds < 86400 * (n + 1) && 1 <= n ==> ago(seconds) == decimal(n)
            + " days ago"@,
{
    if 60 * n <= seconds < 60 * (n + 1) {
        assert(seconds / 60 == n);
    }
    if 3600 * n <= seconds < 3600 * (n + 1) {
        assert(seconds / 3600 == n);
    }
    if 86400 * n <= seconds < 86400 * (n + 1) {
        assert(seconds / 86400 == n);
    }
}

/// The age of a time stamp is what has passed since; the time stamp 0 has none.
pub proof fn law_ago_at(timestamp: i64, now: i64, later: i64)
    ensures
        ago_at(0, now).len() == 0,
        timestamp != 0 ==> ago_at(timestamp, now) == ago(now - timestamp),
        timestamp != 0 && timestamp + later <= i64::MAX && now + later <= i64::MAX && timestamp
            + later > 0 && now + later >= i64::MIN ==> ago_at(
            (timestamp + later) as i64,
            (now + later) as i64,
        ) == ago_at(timestamp, now),
{
    reveal_strlit("");
}

/// What is left to download is what is missing of the whole, where anything is.
pub proof fn law_remaining(total: u64, progress: u64)
    ensures
        remaining(total, progress) matches Some(left) ==> left > 0 && progress + left == total,
        remaining(total, progress) is None <==> progress >= total,
{
}

/// Rounding goes to a number that is at most half of the divisor away, and to an even one
/// where two are as near.
pub proof fn law_nearest(n: nat, d: nat)
    requires
        d > 0,
    ensures
        2 * (nearest(n, d) * d - n) <= d,
        2 * (n - nearest(n, d) * d) <= d,
        n % d == 0 ==> nearest(n, d) * d == n,
        2 * (n % d) == d ==> nearest(n, d) % 2 == 0,
{
    let below = n / d;
    let rest = n % d;
    assert(n == below * d + rest) by (nonlinear_arith)
        requires
            d > 0,
            below == n / d,
            rest == n % d,
    ;
    assert(rest < d) by (nonlinear_arith)
        requires
            d > 0,
            rest == n % d,
    ;
    assert((below + 1) * d == below * d + d) by (nonlinear_arith);
}

/// Below nine thousand billions a number of bytes is taken as it is.
proof fn lemma_small_double(n: nat)
    requires
        n < 0x20_0000_0000_0000,
    ensures
        nearest_double(n) == n,
{
    law_nearest(n, 1);
    assert(n % 1 == 0);
    assert(nearest(n, 1) * 1 == nearest(n, 1));
}

/// A number of bytes is told in the largest unit that it reaches, of five, with two digits
/// behind the point: the hundredths of the unit that are nearest to it.
pub proof fn law_bytes_in_units(bytes: u64, size: nat, name: Seq<char>) -> (hundredths: nat)
    requires
        0 < bytes < 0x20_0000_0000_0000,
        ({
            ||| size == 1 && name == "B"@ && bytes < 1024
            ||| size == 1024 && name == "KB"@ && 1024 <= bytes < 1048576
            ||| size == 1048576 && name == "MB"@ && 1048576 <= bytes < 1073741824
            ||| size == 1073741824 && name == "GB"@ && 1073741824 <= bytes < 1099511627776
            ||| size == 1099511627776 && name == "TB"@ && 1099511627776 <= bytes
        }),
    ensures
        bytes_text(bytes) == decimal(hundredths / 100) + "."@ + decimal(hundredths / 10 % 10)
            + decimal(hundredths % 10) + " "@ + name,
        2 * (hundredths * size - 100 * bytes) <= size,
        2 * (100 * bytes - hundredths * size) <= size,
{
    let n = bytes as nat;
    lemma_small_double(n);
    law_nearest(n * 100, size);
    nearest(n * 100, size)
}

/// No bytes are told without digits behind the point.
pub proof fn law_no_bytes()
    ensures
        bytes_text(0) == "0 B"@,
{
}

/// What the running torrents still take is the sum of what is missing of each; those that are
/// paused take nothing.
pub proof fn law_reservation(transfers: Seq<Transfer>, t: Transfer)
    ensures
        reservation(Seq::empty()) == 0,
        t.paused || t.progress_bytes >= t.total_bytes ==> reservation(transfers.push(t))
            == reservation(transfers),
        !t.paused && t.progress_bytes < t.total_bytes ==> reservation(transfers.push(t))
            == reservation(transfers) + (t.total_bytes - t.progress_bytes),
{
    assert(transfers.push(t).drop_last() =~= transfers);
}

/// The number of torrents that run counts each that is not paused once.
pub proof fn law_active_count(paused: Seq<bool>, last: bool)
    ensures
        count_active(Seq::empty()) == 0,
        last ==> count_active(paused.push(last)) == count_active(paused),
        !last ==> count_active(paused.push(last)) == count_active(paused) + 1,
        count_active(paused) <= paused.len(),
    decreases paused.len(),
{
    assert(paused.push(last).drop_last() =~= paused);
    if paused.len() > 0 {
        law_active_count(paused.drop_last(), paused.last());
        assert(paused.drop_last().push(paused.last()) =~= paused);
    }
}

/// Taking one number from another leaves the difference, and nothing where it is too large.
pub proof fn law_less(a: u64, b: u64)
    ensures
        b <= a ==> less(a, b) + b == a,
        b > a ==> less(a, b) == 0,
{
}

/// The words for rates stand for 50, 500 and 1500 kilobytes, and three texts set no limit.
pub proof fn law_rate_words()
    ensures
        rate_limit("low"@) == rate_limit("50k"@),
        rate_limit("medium"@) == rate_limit("500k"@),
        rate_limit("high"@) == rate_limit("1500k"@),
        rate_limit("unlimited"@) is None,
        rate_limit("0"@) is None,
        rate_limit(""@) is None,
{
    reveal_strlit("");
    lemma_kilobytes("50"@, "50k"@);
    lemma_kilobytes("500"@, "500k"@);
    lemma_kilobytes("1500"@, "1500k"@);
    reveal_strlit("low");
    reveal_strlit("medium");
    reveal_strlit("high");
    reveal_strlit("0");
    reveal_strlit("unlimited");
    assert("low"@[0] == 'l' && "medium"@[0] == 'm' && "high"@[0] == 'h');
    assert("unlimited"@[0] == 'u' && "0"@[0] == '0');
    assert("low"@.len() == 3 && "medium"@.len() == 6 && "high"@.len() == 4);
}

proof fn lemma_kilobytes(number: Seq<char>, text: Seq<char>)
    requires
        (number == "50"@ && text == "50k"@) || (number == "500"@ && text == "500k"@) || (number
            == "1500"@ && text == "1500k"@),
    ensures
        rate_limit(text) == Some((number, 1024u32)),
{
    reveal_strlit("50");
    reveal_strlit("500");
    reveal_strlit("1500");
    reveal_strlit("50k");
    reveal_strlit("500k");
    reveal_strlit("1500k");
    reveal_strlit("/s");
    reveal_strlit("b/s");
    reveal_strlit("b");
    reveal_strlit("ps");
    reveal_strlit("0");
    reveal_strlit("low");
    reveal_strlit("medium");
    reveal_strlit("high");
    reveal_strlit("unlimited");
    assert(text.last() == 'k');
    assert(text[0] == '5' || text[0] == '1');
    assert("low"@[0] == 'l' && "medium"@[0] == 'm' && "high"@[0] == 'h' && "unlimited"@[0] == 'u');
    assert(text.len() > 1);
    assert(!"/s"@.is_suffix_of(text)) by {
        assert("/s"@[1] == 's');
    }
    assert(!"b/s"@.is_suffix_of(text)) by {
        assert("b/s"@[2] == 's');
    }
    assert(!"b"@.is_suffix_of(text)) by {
        assert("b"@[0] == 'b');
    }
    assert(!"ps"@.is_suffix_of(text)) by {
        assert("ps"@[1] == 's');
    }
    assert(trim(text) == text);
    assert(text.drop_last() =~= number);
    assert(trim(number) == number);
}

proof fn lemma_trim_gap(number: Seq<char>, gap: Seq<char>)
    requires
        number.len() > 0,
        !is_white_space(number[0]),
        !is_white_space(number.last()),
        forall|i: int| 0 <= i < gap.len() ==> is_white_space(#[trigger] gap[i]),
    ensures
        trim(number + gap) == number,
{
    let s = number + gap;
    let n = number.len() as int;
    let (from, to) = law_trimmed(s, CharClass::Space);
    assert(s[0] == number[0]);
    assert(s[n - 1] == number.last());
    if from > 0 {
        assert(in_class(CharClass::Space, s[0]));
    }
    if to < n {
        assert(in_class(CharClass::Space, s[n - 1]));
    }
    if to > n {
        assert(s[to - 1] == gap[to - 1 - n]);
    }
    assert(s.subrange(0, n) =~= number);
}

/// What is left of a rate once its unit of bytes is taken off.
proof fn lemma_rate_core(plain: Seq<char>, suffix: Seq<char>)
    requires
        plain.len() > 0,
        plain.last() != 's',
        plain.last() != 'b',
        suffix == ""@ || suffix == "b"@ || suffix == "/s"@ || suffix == "b/s"@ || suffix == "ps"@,
    ensures
        rate_core(plain + suffix) == trim(plain),
{
    reveal_strlit("");
    reveal_strlit("b");
    reveal_strlit("/s");
    reveal_strlit("b/s");
    reveal_strlit("ps");
    lemma_not_suffix(plain, "/s"@);
    lemma_not_suffix(plain, "b/s"@);
    lemma_not_suffix(plain, "b"@);
    lemma_not_suffix(plain, "ps"@);
    let with_b = plain + "b"@;
    assert(with_b.last() == 'b');
    lemma_not_suffix(with_b, "/s"@);
    lemma_not_suffix(with_b, "b/s"@);
    assert(with_b.take(with_b.len() - 1) =~= plain);
    assert("b"@.is_suffix_of(with_b));
    let s = plain + suffix;
    if suffix == ""@ {
        assert(s =~= plain);
    } else if suffix == "/s"@ {
        assert("/s"@.is_suffix_of(s));
        assert(s.take(s.len() - 2) =~= plain);
    } else if suffix == "b/s"@ {
        assert("/s"@ =~= s.subrange(s.len() - 2, s.len() as int));
        assert(s.take(s.len() - 2) =~= with_b);
    } else if suffix == "ps"@ {
        let n = s.len() as int;
        assert(s[n - 2] == 'p');
        assert(s.last() == 's');
        if "/s"@.is_suffix_of(s) {
            assert(s.subrange(n - 2, n)[0] == s[n - 2]);
            assert("/s"@[0] == '/');
        }
        if "b/s"@.is_suffix_of(s) {
            assert(s.subrange(n - 3, n)[1] == s[n - 2]);
            assert("b/s"@[1] == '/');
        }
        lemma_not_suffix(s, "b"@);
        assert("ps"@.is_suffix_of(s));
        assert(s.take(n - 2) =~= plain);
    }
}

/// A rate is a number, in whatever way it is written between its first and its last digit, of
/// a unit that may follow behind white space, and of bytes or bytes per second.
pub proof fn law_rate_of_any_number(
    number: Seq<char>,
    gap: Seq<char>,
    unit: Seq<char>,
    suffix: Seq<char>,
    multiplier: u32,
)
    requires
        number.len() > 0,
        '0' <= number[0] && number[0] <= '9',
        '0' <= number.last() && number.last() <= '9',
        forall|i: int| 0 <= i < gap.len() ==> is_white_space(#[trigger] gap[i]),
        ({
            ||| unit == ""@ && multiplier == 1
            ||| unit == "k"@ && multiplier == 1024
            ||| unit == "m"@ && multiplier == 1024 * 1024
            ||| unit == "g"@ && multiplier == 1024 * 1024 * 1024
        }),
        suffix == ""@ || suffix == "b"@ || suffix == "/s"@ || suffix == "b/s"@ || suffix == "ps"@,
        number + gap + unit + suffix != "0"@,
    ensures
        rate_limit(number + gap + unit + suffix) == Some((number, multiplier)),
{
    let plain = number + gap + unit;
    let lower = plain + suffix;
    reveal_strlit("");
    reveal_strlit("k");
    reveal_strlit("m");
    reveal_strlit("g");
    reveal_strlit("unlimited");
    reveal_strlit("low");
    reveal_strlit("medium");
    reveal_strlit("high");
    assert(lower[0] == number[0]);
    assert("unlimited"@[0] == 'u' && "low"@[0] == 'l' && "medium"@[0] == 'm' && "high"@[0] == 'h');
    assert("k"@[0] == 'k' && "m"@[0] == 'm' && "g"@[0] == 'g');
    lemma_trim_gap(number, gap);
    lemma_trim_gap(number, Seq::empty());
    assert(number + Seq::<char>::empty() =~= number);
    if unit == ""@ {
        assert(plain =~= number + gap);
        if gap.len() > 0 {
            assert(plain.last() == gap[gap.len() - 1]);
            assert(is_white_space(gap[gap.len() - 1]));
        } else {
            assert(plain.last() == number.last());
        }
        lemma_rate_core(plain, suffix);
        assert(rate_core(lower) == number);
    } else {
        assert(plain.last() == unit[0]);
        assert(plain[0] == number[0]);
        assert(plain.drop_last() =~= number + gap);
        lemma_trim_gap(plain, Seq::empty());
        assert(plain + Seq::<char>::empty() =~= plain);
        lemma_rate_core(plain, suffix);
        assert(rate_core(lower) == plain);
    }
}

/// A number of bytes of more than 53 binary digits is told in the largest unit, as the nearest
/// number that has no more.
pub proof fn law_many_bytes(bytes: u64) -> (hundredths: nat)
    requires
        bytes >= 0x20_0000_0000_0000,
    ensures
        bytes_text(bytes) == decimal(hundredths / 100) + "."@ + decimal(hundredths / 10 % 10)
            + decimal(hundredths % 10) + " "@ + "TB"@,
        2 * (hundredths * 1099511627776 - 100 * nearest_double(bytes as nat)) <= 1099511627776,
        2 * (100 * nearest_double(bytes as nat) - hundredths * 1099511627776) <= 1099511627776,
{
    let n = bytes as nat;
    let value = nearest_double(n);
    lemma_large_double(n);
    law_nearest(value * 100, 1099511627776);
    nearest(value * 100, 1099511627776)
}

proof fn lemma_large_double(n: nat)
    requires
        0x20_0000_0000_0000 <= n <= u64::MAX,
    ensures
        nearest_double(n) >= 1099511627776,
{
    reveal_with_fuel(gap, 13);
    let g = gap(n);
    assert(1 <= g <= 2048);
    law_nearest(n, g);
}

/// A number twice over, `k` times.
pub open spec fn doubled(k: nat) -> nat
    decreases k,
{
    if k == 0 {
        1
    } else {
        2 * doubled((k - 1) as nat)
    }
}

/// A number of more than 53 binary digits is taken as the nearest that has no more than 53
/// before its zeros.
pub proof fn law_nearest_double(n: nat, k: nat)
    requires
        k > 0,
        0x10_0000_0000_0000 * doubled(k) <= n < 0x20_0000_0000_0000 * doubled(k),
    ensures
        nearest_double(n) == nearest(n, doubled(k)) * doubled(k),
{
    lemma_gap_is(n, k);
}

proof fn lemma_gap_is(n: nat, k: nat)
    requires
        k > 0,
        0x10_0000_0000_0000 * doubled(k) <= n < 0x20_0000_0000_0000 * doubled(k),
    ensures
        gap(n) == doubled(k),
    decreases k,
{
    reveal_with_fuel(gap, 2);
    reveal_with_fuel(doubled, 2);
    let half = doubled((k - 1) as nat);
    assert(doubled(k) == 2 * half);
    lemma_doubled_is_positive((k - 1) as nat);
    assert(0x10_0000_0000_0000 * half <= n / 2 < 0x20_0000_0000_0000 * half);
    if k > 1 {
        lemma_gap_is(n / 2, (k - 1) as nat);
    }
}

proof fn lemma_doubled_is_positive(k: nat)
    ensures
        doubled(k) >= 1,
    decreases k,
{
    if k > 0 {
        lemma_doubled_is_positive((k - 1) as nat);
    }
}

/// The disk that holds a directory is one that covers it; no other that does has a longer
/// name, and of those with the longest it is the first. There is such a disk where any covers
/// the directory.
pub proof fn law_holding_disk(disks: Seq<DiskFacts>, i: int, k: int)
    ensures
        holds_directory(disks, i) ==> 0 <= i < disks.len() && disks[i].covers,
        holds_directory(disks, i) && 0 <= k < disks.len() && disks[k].covers ==> disks[k].mount_len
            < disks[i].mount_len || (disks[k].mount_len == disks[i].mount_len && i <= k),
        any_covers(disks) <==> exists|d: int| #[trigger] holds_directory(disks, d),
        0 <= k < disks.len() && disks[k].covers ==> any_covers(disks),
{
    if any_covers(disks) {
        let d = lemma_holder(disks, disks.len());
        assert(holds_directory(disks, d));
    }
    if exists|d: int| #[trigger] holds_directory(disks, d) {
        let d = choose|d: int| #[trigger] holds_directory(disks, d);
        assert(disks[d].covers);
    }
}

/// The first with the longest name of those of the first `n` disks that cover the directory.
proof fn lemma_holder(disks: Seq<DiskFacts>, n: nat) -> (best: int)
    requires
        n <= disks.len(),
        exists|i: int| 0 <= i < n && (#[trigger] disks[i]).covers,
    ensures
        0 <= best < n,
        disks[best].covers,
        forall|k: int|
            0 <= k < n && (#[trigger] disks[k]).covers ==> disks[k].mount_len
                <= disks[best].mount_len,
        forall|k: int|
            0 <= k < best && (#[trigger] disks[k]).covers ==> disks[k].mount_len
                < disks[best].mount_len,
    decreases n,
{
    let m = n - 1;
    if exists|i: int| 0 <= i < m && (#[trigger] disks[i]).covers {
        let best = lemma_holder(disks, m as nat);
        if disks[m].covers && disks[m].mount_len > disks[best].mount_len {
            m
        } else {
            best
        }
    } else {
        m
    }
}

/// The first root disk is a root, and none before it is.
pub proof fn law_first_root(disks: Seq<DiskFacts>, i: int, k: int)
    ensures
        is_first_root(disks, i) ==> 0 <= i < disks.len() && disks[i].is_root,
        is_first_root(disks, i) && 0 <= k < i ==> !disks[k].is_root,
        0 <= k < disks.len() && disks[k].is_root ==> any_root(disks),
{
}

/// How much of a disk is never used, and how long a list of trackers is good for: 64 megabytes
/// and a day.
pub proof fn law_reserves()
    ensures
        DISK_SPACE_RESERVE_BYTES == 64 * 1024 * 1024,
        TRACKER_CACHE_TTL == 24 * 60 * 60,
{
}

} // verus!
