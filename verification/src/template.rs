//! Output filename templates.
//!
//! Tokens (case-sensitive), expanded against the source path and the clock:
//!
//! | Token | Meaning                         |
//! |-------|---------------------------------|
//! | `%f`  | source file name (no extension) |
//! | `%e`  | source file extension           |
//! | `%P`  | source parent directory path    |
//! | `%y`  | year (4 digits)                 |
//! | `%m`  | month (2 digits)                |
//! | `%d`  | day (2 digits)                  |
//! | `%H`  | hour (24h, 2 digits)            |
//! | `%M`  | minute (2 digits)               |
//! | `%S`  | second (2 digits)               |
//! | `%i`  | auto-incrementing number        |
//! | `%r`  | 6 random lowercase/digit chars  |
//! | `%%`  | a literal `%`                   |
//!
//! A leading `~/` in the result is replaced by the home directory the
//! caller supplies.

use vstd::prelude::*;

use crate::paths::{extension, file_stem, parent, path_extension, path_file_stem, path_parent};
use crate::result::name_or_file;
use crate::text::{chars_of, int_text, nat_digits, padded_digits, push_int, push_nat, push_padded, push_str, string_of};

verus! {

/// Whether a string looks like a template (contains a `%` token).
pub fn is_template(s: &str) -> (r: bool)
    ensures
        r == s@.contains('%'),
{
    let n = s.unicode_len();
    let mut i: usize = 0;
    while i < n
        invariant
            n == s@.len(),
            i <= n,
            forall|k: int| 0 <= k < i ==> s@[k] != '%',
        decreases n - i,
    {
        if s.get_char(i) == '%' {
            return true;
        }
        i = i + 1;
    }
    false
}

/// What the tokens stand for, for one expansion.
pub struct Fill {
    pub stem: Seq<char>,
    pub ext: Seq<char>,
    pub parent: Seq<char>,
    pub year: Seq<char>,
    pub month: Seq<char>,
    pub day: Seq<char>,
    pub hour: Seq<char>,
    pub minute: Seq<char>,
    pub second: Seq<char>,
}

/// The number of `%i` tokens in `t`.
pub open spec fn count_counter(t: Seq<char>) -> nat
    decreases t.len(),
{
    if t.len() == 0 {
        0
    } else if t[0] != '%' {
        count_counter(t.drop_first())
    } else if t.len() == 1 {
        0
    } else {
        (if t[1] == 'i' { 1nat } else { 0nat }) + count_counter(t.skip(2))
    }
}

/// The number of `%r` tokens in `t`.
pub open spec fn count_random(t: Seq<char>) -> nat
    decreases t.len(),
{
    if t.len() == 0 {
        0
    } else if t[0] != '%' {
        count_random(t.drop_first())
    } else if t.len() == 1 {
        0
    } else {
        (if t[1] == 'r' { 1nat } else { 0nat }) + count_random(t.skip(2))
    }
}

/// One xorshift step.
pub open spec fn xorshift(s: u64) -> u64 {
    let a = s ^ (s << 13u64);
    let b = a ^ (a >> 7u64);
    b ^ (b << 17u64)
}

/// The character `k` (0..36) of `abcdefghijklmnopqrstuvwxyz0123456789`.
pub open spec fn alphabet_char(k: int) -> char {
    if k < 26 {
        (97 + k) as char
    } else {
        (48 + k - 26) as char
    }
}

/// `n` characters drawn from the alphabet by successive xorshift steps from `seed`.
pub open spec fn random_text(seed: u64, n: nat) -> Seq<char>
    decreases n,
{
    if n == 0 {
        Seq::empty()
    } else {
        let s = xorshift(seed);
        seq![alphabet_char((s % 36) as int)] + random_text(s, (n - 1) as nat)
    }
}

/// `t` with its tokens expanded: `%i` takes `counter` (counting up), each
/// `%r` the next seed of `seeds`, an unknown `%x` stays as it is and a
/// trailing `%` is kept.
pub open spec fn expand_from(t: Seq<char>, f: Fill, counter: int, seeds: Seq<u64>) -> Seq<char>
    decreases t.len(),
{
    if t.len() == 0 {
        Seq::empty()
    } else if t[0] != '%' {
        seq![t[0]] + expand_from(t.drop_first(), f, counter, seeds)
    } else if t.len() == 1 {
        seq!['%']
    } else {
        let c = t[1];
        let rest = t.skip(2);
        if c == 'i' {
            int_text(counter) + expand_from(rest, f, counter + 1, seeds)
        } else if c == 'r' {
            random_text(seeds[0], 6) + expand_from(rest, f, counter, seeds.drop_first())
        } else {
            (if c == 'f' {
                f.stem
            } else if c == 'e' {
                f.ext
            } else if c == 'P' {
                f.parent
            } else if c == 'y' {
                f.year
            } else if c == 'm' {
                f.month
            } else if c == 'd' {
                f.day
            } else if c == 'H' {
                f.hour
            } else if c == 'M' {
                f.minute
            } else if c == 'S' {
                f.second
            } else if c == '%' {
                seq!['%']
            } else {
                seq!['%', c]
            }) + expand_from(rest, f, counter, seeds)
        }
    }
}

/// The calendar date and time (UTC) `secs` seconds after the epoch:
/// year, month, day, hour, minute, second (days from the civil calendar,
/// Howard Hinnant's algorithm).
pub open spec fn date_parts(secs: int) -> (int, int, int, int, int, int) {
    let days = secs / 86400;
    let rem = secs % 86400;
    let z = days + 719468;
    let era = z / 146097;
    let doe = z - era * 146097;
    let yoe = (doe - doe / 1460 + doe / 36524 - doe / 146096) / 365;
    let y = yoe + era * 400;
    let doy = doe - (365 * yoe + yoe / 4 - yoe / 100);
    let mp = (5 * doy + 2) / 153;
    let d = doy - (153 * mp + 2) / 5 + 1;
    let m = if mp < 10 { mp + 3 } else { mp - 9 };
    (if m <= 2 { y + 1 } else { y }, m, d, rem / 3600, (rem % 3600) / 60, rem % 60)
}

/// A name without `%` is no template: expanding it gives it back.
pub proof fn lemma_plain_name_unchanged(t: Seq<char>, f: Fill, counter: int, seeds: Seq<u64>)
    requires
        !t.contains('%'),
    ensures
        expand_from(t, f, counter, seeds) == t,
    decreases t.len(),
{
    if t.len() > 0 {
        assert(t[0] != '%') by {
            if t[0] == '%' {
                assert(t.contains('%'));
            }
        }
        let rest = t.drop_first();
        assert(!rest.contains('%')) by {
            if rest.contains('%') {
                let k = choose|k: int| 0 <= k < rest.len() && rest[k] == '%';
                assert(t[k + 1] == '%');
            }
        }
        lemma_plain_name_unchanged(rest, f, counter, seeds);
        assert(seq![t[0]] + rest =~= t);
    }
}

/// Every moment has a valid calendar date and time: month 1 to 12, day 1
/// to 31, hour below 24, minute and second below 60.
pub proof fn lemma_date_parts_valid(secs: int)
    ensures
        ({
            let (y, m, d, h, mi, s) = date_parts(secs);
            1 <= m <= 12 && 1 <= d <= 31 && 0 <= h < 24 && 0 <= mi < 60 && 0 <= s < 60
        }),
{
    let days = secs / 86400;
    let rem = secs % 86400;
    let z = days + 719468;
    let era = z / 146097;
    let doe = z - era * 146097;
    let yoe = (doe - doe / 1460 + doe / 36524 - doe / 146096) / 365;
    let doy = doe - (365 * yoe + yoe / 4 - yoe / 100);
    assert(0 <= doy < 366) by (nonlinear_arith)
        requires
            0 <= doe < 146097,
            yoe == (doe - doe / 1460 + doe / 36524 - doe / 146096) / 365,
            doy == doe - (365 * yoe + yoe / 4 - yoe / 100),
    ;
    let mp = (5 * doy + 2) / 153;
    let d = doy - (153 * mp + 2) / 5 + 1;
    assert(1 <= d <= 31) by (nonlinear_arith)
        requires
            0 <= doy < 366,
            mp == (5 * doy + 2) / 153,
            d == doy - (153 * mp + 2) / 5 + 1,
    ;
}

/// A year as `{:04}` writes it: zero-padded to four characters, the sign
/// counting as one.
pub open spec fn year_text(y: int) -> Seq<char> {
    if y < 0 {
        seq!['-'] + padded_digits((-y) as nat, 3)
    } else {
        padded_digits(y as nat, 4)
    }
}

/// What the tokens stand for when expanding for `source` at `secs`.
pub open spec fn fill_of(source: Seq<char>, secs: int) -> Fill {
    let (y, mo, d, h, mi, s) = date_parts(secs);
    Fill {
        stem: name_or_file(path_file_stem(source)),
        ext: match path_extension(source) {
            Some(e) => e,
            None => Seq::empty(),
        },
        parent: match path_parent(source) {
            Some(p) => p,
            None => Seq::empty(),
        },
        year: year_text(y),
        month: padded_digits(mo as nat, 2),
        day: padded_digits(d as nat, 2),
        hour: padded_digits(h as nat, 2),
        minute: padded_digits(mi as nat, 2),
        second: padded_digits(s as nat, 2),
    }
}

/// A leading `~/` replaced by `home` and a slash, when a home is known.
pub open spec fn home_expanded(s: Seq<char>, home: Option<Seq<char>>) -> Seq<char> {
    if s.len() >= 2 && s[0] == '~' && s[1] == '/' && home is Some {
        home->0 + seq!['/'] + s.skip(2)
    } else {
        s
    }
}

/// The path `template` expands to for `source` at `secs` seconds after the
/// epoch, with `counter` for the first `%i` and `seeds` for the `%r` tokens.
pub open spec fn expansion(
    template: Seq<char>,
    source: Seq<char>,
    counter: int,
    home: Option<Seq<char>>,
    secs: int,
    seeds: Seq<u64>,
) -> Seq<char> {
    home_expanded(expand_from(template, fill_of(source, secs), counter, seeds), home)
}

pub open spec fn opt_str(o: Option<&str>) -> Option<Seq<char>> {
    match o {
        Some(s) => Some(s@),
        None => None,
    }
}

/// The system clock as a duration since the Unix epoch: whole seconds and
/// the nanoseconds past them; `None` when the clock is before the epoch.
/// Calls `std::time::SystemTime::now` and `duration_since(UNIX_EPOCH)`. The
/// contract claims only that the nanoseconds are below one second, as
/// `Duration::subsec_nanos` documents; the time itself is not stated.
#[verifier::external_body]
fn clock_now() -> (r: Option<(u64, u32)>)
    ensures
        r matches Some((_, n)) ==> n < 1_000_000_000,
{
    match std::time::SystemTime::now().duration_since(std::time::UNIX_EPOCH) {
        Ok(d) => Some((d.as_secs(), d.subsec_nanos())),
        Err(_) => None,
    }
}

/// Seconds since the epoch as `as_secs() as i64` gives them (0 before it).
pub open spec fn clock_secs(c: Option<(u64, u32)>) -> int {
    match c {
        Some((s, _)) => if s <= i64::MAX { s as int } else { s - 0x1_0000_0000_0000_0000 },
        None => 0,
    }
}

/// The random seed a clock reading gives: `as_nanos() as u64 | 1` (1 before
/// the epoch).
pub open spec fn clock_seed(c: Option<(u64, u32)>) -> u64 {
    match c {
        Some((s, n)) => (((s * 1_000_000_000 + n) % 0x1_0000_0000_0000_0000) as u64) | 1u64,
        None => 1,
    }
}

fn secs_of(c: Option<(u64, u32)>) -> (r: i64)
    ensures
        r == clock_secs(c),
{
    match c {
        Some((s, _)) => if s <= i64::MAX as u64 {
            s as i64
        } else {
            ((s - 0x8000_0000_0000_0000u64) as i64) + i64::MIN
        },
        None => 0,
    }
}

fn seed_of(c: Option<(u64, u32)>) -> (r: u64)
    ensures
        r == clock_seed(c),
{
    match c {
        Some((s, n)) => {
            let total: u128 = (s as u128) * 1_000_000_000 + n as u128;
            let low = (total % 0x1_0000_0000_0000_0000u128) as u64;
            low | 1
        },
        None => 1,
    }
}

/// Divide `a` by a positive `b`, rounding down.
fn floor_div(a: i128, b: i128) -> (q: i128)
    requires
        b > 0,
        -0x1_0000_0000_0000_0000_0000 < a < 0x1_0000_0000_0000_0000_0000,
        b < 0x1_0000_0000,
    ensures
        q == a / b,
{
    if a >= 0 {
        a / b
    } else {
        let n = (b - 1 - a) / b;
        proof {
            let bi = b as int;
            let ai = a as int;
            let q = ai / bi;
            let r = ai % bi;
            assert(ai == q * bi + r && 0 <= r < bi) by (nonlinear_arith)
                requires bi > 0, q == ai / bi, r == ai % bi;
            assert(bi - 1 - ai == (-q) * bi + (bi - 1 - r)) by (nonlinear_arith)
                requires ai == q * bi + r;
            assert((bi - 1 - ai) / bi == -q) by (nonlinear_arith)
                requires bi - 1 - ai == (-q) * bi + (bi - 1 - r), 0 <= bi - 1 - r < bi, bi > 0;
            assert(n == -q);
        }
        -n
    }
}

/// The calendar date and time `secs` seconds after the epoch (UTC).
fn datetime_parts(secs: i64) -> (r: (i64, u32, u32, u32, u32, u32))
    ensures
        (r.0 as int, r.1 as int, r.2 as int, r.3 as int, r.4 as int, r.5 as int) == date_parts(secs as int),
{
    let s = secs as i128;
    let days = floor_div(s, 86400);
    let rem = s - days * 86400;
    assert(rem == (secs as int) % 86400);
    let z = days + 719468;
    let era = floor_div(z, 146097);
    let doe = z - era * 146097;
    assert(0 <= doe < 146097);
    let yoe = (doe - doe / 1460 + doe / 36524 - doe / 146096) / 365;
    assert(0 <= yoe <= 400);
    let y = yoe + era * 400;
    let doy = doe - (365 * yoe + yoe / 4 - yoe / 100);
    assert(0 <= doy < 366) by (nonlinear_arith)
        requires
            0 <= doe < 146097,
            yoe == (doe - doe / 1460 + doe / 36524 - doe / 146096) / 365,
            doy == doe - (365 * yoe + yoe / 4 - yoe / 100),
    ;
    let mp = (5 * doy + 2) / 153;
    let d = doy - (153 * mp + 2) / 5 + 1;
    assert(1 <= d <= 31) by (nonlinear_arith)
        requires
            0 <= doy < 366,
            mp == (5 * doy + 2) / 153,
            d == doy - (153 * mp + 2) / 5 + 1,
    ;
    let m = if mp < 10 { mp + 3 } else { mp - 9 };
    assert(1 <= m <= 12);
    let year = if m <= 2 { y + 1 } else { y };
    assert(i64::MIN <= year <= i64::MAX) by (nonlinear_arith)
        requires
            era == z / 146097,
            z == days + 719468,
            days == (secs as int) / 86400,
            i64::MIN <= secs <= i64::MAX,
            0 <= yoe <= 400,
            year == yoe + era * 400 || year == yoe + era * 400 + 1,
    ;
    (year as i64, m as u32, d as u32, (rem / 3600) as u32, ((rem % 3600) / 60) as u32, (rem % 60) as u32)
}

/// Append `n` zero-padded to width `w` (`{:0w}` for a non-negative value).
fn push_two(out: &mut Vec<char>, n: u32)
    ensures
        final(out)@ == old(out)@ + padded_digits(n as nat, 2),
{
    push_padded(out, n as u64, 2);
}

/// Append a year as `{:04}` writes it.
fn push_year(out: &mut Vec<char>, y: i64)
    ensures
        final(out)@ == old(out)@ + year_text(y as int),
{
    if y < 0 {
        out.push('-');
        let m: u64 = if y == i64::MIN {
            9223372036854775808u64
        } else {
            (-y) as u64
        };
        let ghost a = old(out)@;
        push_padded(out, m, 3);
        assert(out@ =~= a + year_text(y as int));
    } else {
        push_padded(out, y as u64, 4);
    }
}

/// Append `n` random alphabet characters from `seed`.
fn push_random(out: &mut Vec<char>, seed: u64, n: usize)
    ensures
        final(out)@ == old(out)@ + random_text(seed, n as nat),
    decreases n,
{
    if n > 0 {
        let a = seed ^ (seed << 13u64);
        let b = a ^ (a >> 7u64);
        let s = b ^ (b << 17u64);
        assert(s == xorshift(seed));
        let k = s % 36;
        let c = if k < 26 {
            (97u8 + k as u8) as char
        } else {
            (48u8 + (k - 26) as u8) as char
        };
        assert(c == alphabet_char(k as int));
        out.push(c);
        let ghost mid = out@;
        push_random(out, s, n - 1);
        assert(out@ =~= old(out)@ + random_text(seed, n as nat));
    } else {
        assert(old(out)@ + random_text(seed, 0) =~= old(out)@);
    }
}

/// The number of `%r` tokens in `template`.
fn random_token_count(template: &Vec<char>) -> (n: usize)
    ensures
        n == count_random(template@),
{
    let mut n: usize = 0;
    let mut i: usize = 0;
    assert(template@.skip(0) =~= template@);
    while i < template.len()
        invariant
            i <= template@.len(),
            n + count_random(template@.skip(i as int)) == count_random(template@),
            n <= i,
        decreases template.len() - i,
    {
        let ghost t = template@.skip(i as int);
        if template[i] != '%' {
            assert(t.drop_first() =~= template@.skip(i + 1));
            i = i + 1;
        } else if i + 1 == template.len() {
            assert(t.len() == 1);
            i = i + 1;
            assert(template@.skip(i as int).len() == 0);
        } else {
            assert(t.skip(2) =~= template@.skip(i + 2));
            if template[i + 1] == 'r' {
                n = n + 1;
            }
            i = i + 2;
        }
    }
    assert(template@.skip(i as int).len() == 0);
    n
}

/// The number of `%i` tokens in `template`: how far one expansion advances
/// the counter.
pub fn counter_token_count(template: &str) -> (n: usize)
    ensures
        n == count_counter(template@),
{
    let t = chars_of(template);
    let mut n: usize = 0;
    let mut i: usize = 0;
    assert(t@.skip(0) =~= t@);
    while i < t.len()
        invariant
            i <= t@.len(),
            t@ == template@,
            n + count_counter(t@.skip(i as int)) == count_counter(t@),
            n <= i,
        decreases t.len() - i,
    {
        let ghost rest = t@.skip(i as int);
        if t[i] != '%' {
            assert(rest.drop_first() =~= t@.skip(i + 1));
            i = i + 1;
        } else if i + 1 == t.len() {
            assert(rest.len() == 1);
            i = i + 1;
            assert(t@.skip(i as int).len() == 0);
        } else {
            assert(rest.skip(2) =~= t@.skip(i + 2));
            if t[i + 1] == 'i' {
                n = n + 1;
            }
            i = i + 2;
        }
    }
    assert(t@.skip(i as int).len() == 0);
    n
}

/// Expand `template` for `source` at `secs` seconds after the epoch, using
/// `counter` for `%i` (and incrementing it) and one seed of `seeds` for each
/// `%r`; a leading `~/` becomes `home`.
pub fn expand_with(
    template: &str,
    source: &str,
    counter: &mut u64,
    home: Option<&str>,
    secs: i64,
    seeds: &[u64],
) -> (r: String)
    requires
        *old(counter) + count_counter(template@) <= u64::MAX,
        seeds@.len() >= count_random(template@),
    ensures
        r@ == expansion(template@, source@, *old(counter) as int, opt_str(home), secs as int, seeds@),
        *final(counter) == *old(counter) + count_counter(template@),
{
    let stem = match file_stem(source) {
        Some(s) => s,
        None => string_of(chars_of("file")),
    };
    let ext = match extension(source) {
        Some(s) => s,
        None => string_of(Vec::new()),
    };
    let par = match parent(source) {
        Some(s) => s,
        None => string_of(Vec::new()),
    };
    let (y, mo, d, h, mi, s) = datetime_parts(secs);
    let ghost f = fill_of(source@, secs as int);
    assert(stem@ == f.stem && ext@ == f.ext && par@ == f.parent);
    let t = chars_of(template);
    let ghost c0 = *counter as int;
    let ghost target = expand_from(t@, f, c0, seeds@);
    let mut out: Vec<char> = Vec::new();
    let mut k: usize = 0;
    let mut i: usize = 0;
    assert(t@.skip(0) =~= t@);
    assert(seeds@.skip(0) =~= seeds@);
    while i < t.len()
        invariant
            i <= t@.len(),
            t@ == template@,
            k <= seeds@.len(),
            stem@ == f.stem,
            ext@ == f.ext,
            par@ == f.parent,
            f == fill_of(source@, secs as int),
            (y as int, mo as int, d as int, h as int, mi as int, s as int) == date_parts(secs as int),
            out@ + expand_from(t@.skip(i as int), f, *counter as int, seeds@.skip(k as int)) == target,
            *counter + count_counter(t@.skip(i as int)) == c0 + count_counter(t@),
            k + count_random(t@.skip(i as int)) == count_random(t@),
            c0 + count_counter(t@) <= u64::MAX,
            seeds@.len() >= count_random(t@),
        decreases t.len() - i,
    {
        let ghost rest = t@.skip(i as int);
        let ghost before = out@;
        let ghost sk = seeds@.skip(k as int);
        let c = t[i];
        if c != '%' {
            assert(rest.drop_first() =~= t@.skip(i + 1));
            out.push(c);
            i = i + 1;
            assert(before + expand_from(rest, f, *counter as int, sk) =~= out@ + expand_from(
                t@.skip(i as int),
                f,
                *counter as int,
                sk,
            ));
        } else if i + 1 == t.len() {
            assert(rest.len() == 1);
            out.push('%');
            i = i + 1;
            assert(t@.skip(i as int).len() == 0);
            assert(before + expand_from(rest, f, *counter as int, sk) =~= out@ + expand_from(
                t@.skip(i as int),
                f,
                *counter as int,
                sk,
            ));
        } else {
            let n = t[i + 1];
            assert(rest.skip(2) =~= t@.skip(i + 2));
            assert(rest[1] == n);
            if n == 'i' {
                let ghost cur = *counter as int;
                push_nat(&mut out, *counter);
                *counter = *counter + 1;
                i = i + 2;
                assert(before + expand_from(rest, f, cur, sk) =~= out@ + expand_from(
                    t@.skip(i as int),
                    f,
                    *counter as int,
                    sk,
                ));
            } else if n == 'r' {
                assert(sk.drop_first() =~= seeds@.skip(k + 1));
                assert(sk[0] == seeds@[k as int]);
                push_random(&mut out, seeds[k], 6);
                k = k + 1;
                i = i + 2;
                assert(before + expand_from(rest, f, *counter as int, sk) =~= out@ + expand_from(
                    t@.skip(i as int),
                    f,
                    *counter as int,
                    seeds@.skip(k as int),
                ));
            } else {
                if n == 'f' {
                    push_str(&mut out, stem.as_str());
                } else if n == 'e' {
                    push_str(&mut out, ext.as_str());
                } else if n == 'P' {
                    push_str(&mut out, par.as_str());
                } else if n == 'y' {
                    push_year(&mut out, y);
                } else if n == 'm' {
                    push_two(&mut out, mo);
                } else if n == 'd' {
                    push_two(&mut out, d);
                } else if n == 'H' {
                    push_two(&mut out, h);
                } else if n == 'M' {
                    push_two(&mut out, mi);
                } else if n == 'S' {
                    push_two(&mut out, s);
                } else if n == '%' {
                    out.push('%');
                } else {
                    out.push('%');
                    out.push(n);
                }
                i = i + 2;
                assert(before + expand_from(rest, f, *counter as int, sk) =~= out@ + expand_from(
                    t@.skip(i as int),
                    f,
                    *counter as int,
                    sk,
                ));
            }
        }
    }
    assert(t@.skip(i as int).len() == 0);
    assert(out@ =~= target);
    string_of(with_home(out, home))
}

/// `s` with a leading `~/` replaced by `home` and a `/`, when there is a home.
fn with_home(out: Vec<char>, home: Option<&str>) -> (r: Vec<char>)
    ensures
        r@ == home_expanded(out@, opt_str(home)),
{
    if out.len() >= 2 && out[0] == '~' && out[1] == '/' && home.is_some() {
        let mut v: Vec<char> = Vec::new();
        match home {
            Some(hm) => push_str(&mut v, hm),
            None => {},
        }
        v.push('/');
        let mut j: usize = 2;
        let ghost mid = v@;
        while j < out.len()
            invariant
                2 <= j <= out@.len(),
                v@ == mid + out@.subrange(2, j as int),
            decreases out.len() - j,
        {
            v.push(out[j]);
            j = j + 1;
            assert(v@ =~= mid + out@.subrange(2, j as int));
        }
        assert(v@ =~= home_expanded(out@, opt_str(home)));
        v
    } else {
        out
    }
}

/// `s` with a leading `~/` replaced by the home directory `home`, when it is
/// known; otherwise `s` as it is.
pub fn shellexpand_home(s: &str, home: Option<&str>) -> (r: String)
    ensures
        r@ == home_expanded(s@, opt_str(home)),
{
    string_of(with_home(chars_of(s), home))
}

/// Expand `template` for `source` now, using `counter` for `%i` (and
/// incrementing it); a leading `~/` becomes `home`. The date fields and the
/// `%r` characters come from the system clock, so the result is the
/// expansion at some moment with some seeds, one for each `%r`.
pub fn expand(template: &str, source: &str, counter: &mut u64, home: Option<&str>) -> (r: String)
    requires
        *old(counter) + count_counter(template@) <= u64::MAX,
    ensures
        exists|secs: int, seeds: Seq<u64>|
            seeds.len() == count_random(template@) && r@ == #[trigger] expansion(
                template@,
                source@,
                *old(counter) as int,
                opt_str(home),
                secs,
                seeds,
            ),
        *final(counter) == *old(counter) + count_counter(template@),
{
    let secs = secs_of(clock_now());
    let t = chars_of(template);
    let n = random_token_count(&t);
    let mut seeds: Vec<u64> = Vec::new();
    while seeds.len() < n
        invariant
            seeds@.len() <= n,
        decreases n - seeds.len(),
    {
        seeds.push(seed_of(clock_now()));
    }
    let r = expand_with(template, source, counter, home, secs, seeds.as_slice());
    assert(seeds@.len() == count_random(template@));
    r
}

} // verus!
