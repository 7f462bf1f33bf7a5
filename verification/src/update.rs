//! Version comparison for the release check.
//!
//! Fetching the latest release is the application's job; this module decides
//! whether it is newer than the running version.

use vstd::prelude::*;

use crate::numbers::{all_digits, is_digit, lemma_nat_digits, lemma_parse_nat_digits, parse_unsigned};
use crate::text::{
    char_is_whitespace, char_views, chars_of, lemma_split_at, lemma_split_plain, lemma_trim_unchanged, nat_digits, split_chars, split_from, split_on, string_of,
    strip_start_char, trim, trimmed,
};

verus! {

/// `owner/repo` the releases are published under.
pub const REPO: &'static str = "kwhorne/xpress";

#[derive(Debug, Clone)]
pub struct UpdateInfo {
    pub current: String,
    pub latest: String,
    /// Whether `latest` is strictly newer than `current`.
    pub newer: bool,
    /// The release's web page.
    pub url: String,
    /// Release notes (may be empty).
    pub notes: String,
}

/// `v` up to its first `-` or `+` (the pre-release / build suffix is ignored).
pub open spec fn version_core(v: Seq<char>) -> Seq<char>
    decreases v.len(),
{
    if v.len() == 0 || v[0] == '-' || v[0] == '+' {
        Seq::empty()
    } else {
        seq![v[0]] + version_core(v.drop_first())
    }
}

/// The numeric value of a dotted field (0 when it is not a number).
pub open spec fn field_value(f: Seq<char>) -> int {
    match parse_unsigned(trim(f), u64::MAX as int) {
        Some(n) => n,
        None => 0,
    }
}

/// Field `k` of a version (0 when absent).
pub open spec fn version_field(v: Seq<char>, k: int) -> int {
    let fields = split_on(version_core(v), '.');
    if k < fields.len() {
        field_value(fields[k])
    } else {
        0
    }
}

/// `(major, minor, patch)` of a version string.
pub open spec fn version_of(v: Seq<char>) -> (int, int, int) {
    (version_field(v, 0), version_field(v, 1), version_field(v, 2))
}

/// Strict lexicographic order on `(major, minor, patch)`.
pub open spec fn triple_greater(a: (int, int, int), b: (int, int, int)) -> bool {
    a.0 > b.0 || (a.0 == b.0 && (a.1 > b.1 || (a.1 == b.1 && a.2 > b.2)))
}

/// Whether version `latest` is strictly newer than version `current`.
pub open spec fn newer_of(latest: Seq<char>, current: Seq<char>) -> bool {
    triple_greater(version_of(latest), version_of(current))
}

fn core_of(v: &Vec<char>) -> (r: Vec<char>)
    ensures
        r@ == version_core(v@),
{
    let mut i: usize = 0;
    while i < v.len() && v[i] != '-' && v[i] != '+'
        invariant
            i <= v@.len(),
            forall|k: int| 0 <= k < i ==> v@[k] != '-' && v@[k] != '+',
        decreases v.len() - i,
    {
        i = i + 1;
    }
    let mut r: Vec<char> = Vec::new();
    let mut k: usize = 0;
    while k < i
        invariant
            k <= i <= v@.len(),
            r@ == v@.take(k as int),
        decreases i - k,
    {
        r.push(v[k]);
        k = k + 1;
        assert(r@ =~= v@.take(k as int));
    }
    proof {
        lemma_core_prefix(v@, i as int);
    }
    r
}

proof fn lemma_core_prefix(v: Seq<char>, i: int)
    requires
        0 <= i <= v.len(),
        forall|k: int| 0 <= k < i ==> v[k] != '-' && v[k] != '+',
        i == v.len() || v[i] == '-' || v[i] == '+',
    ensures
        version_core(v) == v.take(i),
    decreases i,
{
    if i > 0 {
        lemma_core_prefix(v.drop_first(), i - 1);
        assert(seq![v[0]] + v.drop_first().take(i - 1) =~= v.take(i));
    } else {
        assert(v.take(0) =~= Seq::<char>::empty());
    }
}

fn field_at(fields: &Vec<Vec<char>>, k: usize) -> (r: u64)
    ensures
        r == (if k < fields@.len() { field_value(fields@[k as int]@) } else { 0 }),
{
    if k < fields.len() {
        let t = trimmed(&fields[k]);
        match crate::numbers::parse_u64(&t) {
            Some(n) => n,
            None => 0,
        }
    } else {
        0
    }
}

/// `(major, minor, patch)` of a version string.
fn parse(v: &str) -> (r: (u64, u64, u64))
    ensures
        (r.0 as int, r.1 as int, r.2 as int) == version_of(v@),
{
    let c = chars_of(v);
    let core = core_of(&c);
    let fields = split_chars(&core, '.');
    assert(char_views(fields@) == split_on(version_core(v@), '.'));
    let a = field_at(&fields, 0);
    let b = field_at(&fields, 1);
    let d = field_at(&fields, 2);
    proof {
        assert forall|k: int| 0 <= k < fields@.len() implies fields@[k]@ == split_on(
            version_core(v@),
            '.',
        )[k] by {
            assert(char_views(fields@)[k] == fields@[k]@);
        }
    }
    (a, b, d)
}

/// Whether `latest` is a strictly newer semver than `current`.
pub fn is_newer(latest: &str, current: &str) -> (r: bool)
    ensures
        r == newer_of(latest@, current@),
{
    let a = parse(latest);
    let b = parse(current);
    a.0 > b.0 || (a.0 == b.0 && (a.1 > b.1 || (a.1 == b.1 && a.2 > b.2)))
}

/// `s` without its leading copies of `c` (`str::trim_start_matches`).
fn stripped_start(s: &Vec<char>, c: char) -> (r: Vec<char>)
    ensures
        r@ == strip_start_char(s@, c),
{
    let n = s.len();
    let mut i: usize = 0;
    assert(s@.skip(0) =~= s@);
    while i < n && s[i] == c
        invariant
            n == s@.len(),
            i <= n,
            strip_start_char(s@, c) == strip_start_char(s@.skip(i as int), c),
        decreases n - i,
    {
        assert(s@.skip(i as int).drop_first() =~= s@.skip(i + 1));
        i = i + 1;
    }
    let mut r: Vec<char> = Vec::new();
    let mut k: usize = i;
    while k < n
        invariant
            i <= k <= n,
            n == s@.len(),
            r@ == s@.subrange(i as int, k as int),
        decreases n - k,
    {
        r.push(s[k]);
        k = k + 1;
        assert(r@ =~= s@.subrange(i as int, k as int));
    }
    assert(r@ =~= s@.skip(i as int));
    r
}

/// The running version and the latest release's version as reported: each
/// without its leading `v`s, the release tag also trimmed of whitespace.
pub open spec fn versions_of(current: Seq<char>, tag: Seq<char>) -> (Seq<char>, Seq<char>) {
    (strip_start_char(current, 'v'), trim(strip_start_char(tag, 'v')))
}

/// What the release check reports, given the running version `current` and
/// the latest release's tag, page and notes as the release service gave
/// them.
pub fn release_info(current: &str, tag_name: &str, url: String, notes: String) -> (r: UpdateInfo)
    ensures
        r.current@ == versions_of(current@, tag_name@).0,
        r.latest@ == versions_of(current@, tag_name@).1,
        r.newer == newer_of(versions_of(current@, tag_name@).1, versions_of(current@, tag_name@).0),
        r.url@ == url@,
        r.notes@ == notes@,
{
    let cur = string_of(stripped_start(&chars_of(current), 'v'));
    let latest = string_of(trimmed(&stripped_start(&chars_of(tag_name), 'v')));
    let newer = is_newer(latest.as_str(), cur.as_str());
    UpdateInfo { current: cur, latest, newer, url, notes }
}

/// No version is newer than itself.
pub proof fn lemma_newer_irreflexive(v: Seq<char>)
    ensures
        !newer_of(v, v),
{
}

/// Of two versions, at most one is newer than the other.
pub proof fn lemma_newer_asymmetric(a: Seq<char>, b: Seq<char>)
    ensures
        !(newer_of(a, b) && newer_of(b, a)),
{
}

/// Newer-than is transitive: a release newer than one newer than the
/// running version is newer than the running version.
pub proof fn lemma_newer_transitive(a: Seq<char>, b: Seq<char>, c: Seq<char>)
    requires
        newer_of(a, b),
        newer_of(b, c),
    ensures
        newer_of(a, c),
{
}

/// A pre-release or build suffix never makes a version newer: only the
/// part before the first `-` or `+` is compared.
pub proof fn lemma_suffix_ignored(v: Seq<char>, suffix: Seq<char>)
    requires
        suffix.len() > 0,
        suffix[0] == '-' || suffix[0] == '+',
        forall|k: int| 0 <= k < v.len() ==> v[k] != '-' && v[k] != '+',
    ensures
        version_of(v + suffix) == version_of(v),
        !newer_of(v + suffix, v),
        !newer_of(v, v + suffix),
{
    lemma_core_prefix(v + suffix, v.len() as int);
    lemma_core_prefix(v, v.len() as int);
    assert((v + suffix).take(v.len() as int) =~= v);
    assert(v.take(v.len() as int) =~= v);
}


/// The version text `X.Y.Z` of three numbers.
pub open spec fn dotted(x: nat, y: nat, z: nat) -> Seq<char> {
    nat_digits(x) + seq!['.'] + nat_digits(y) + seq!['.'] + nat_digits(z)
}

proof fn lemma_digits_field(n: nat)
    requires
        n <= u64::MAX,
    ensures
        field_value(nat_digits(n)) == n,
        forall|k: int| 0 <= k < nat_digits(n).len() ==> nat_digits(n)[k] != '.' && nat_digits(n)[k] != '-'
            && nat_digits(n)[k] != '+',
{
    lemma_nat_digits(n);
    let d = nat_digits(n);
    assert(is_digit(d[0]) && is_digit(d.last()));
    assert(!char_is_whitespace(d[0]) && !char_is_whitespace(d.last()));
    lemma_trim_unchanged(d);
    lemma_parse_nat_digits(n, u64::MAX as int);
    assert forall|k: int| 0 <= k < d.len() implies d[k] != '.' && d[k] != '-' && d[k] != '+' by {
        assert(is_digit(d[k]));
    }
}

/// The numbers of the version `X.Y.Z` are `X`, `Y` and `Z`.
pub proof fn lemma_version_of_dotted(x: nat, y: nat, z: nat)
    requires
        x <= u64::MAX,
        y <= u64::MAX,
        z <= u64::MAX,
    ensures
        version_of(dotted(x, y, z)) == (x as int, y as int, z as int),
        forall|k: int| 0 <= k < dotted(x, y, z).len() ==> dotted(x, y, z)[k] != '-' && dotted(x, y, z)[k] != '+',
{
    lemma_digits_field(x);
    lemma_digits_field(y);
    lemma_digits_field(z);
    let (a, b, c) = (nat_digits(x), nat_digits(y), nat_digits(z));
    let v = dotted(x, y, z);
    assert forall|k: int| 0 <= k < v.len() implies v[k] != '-' && v[k] != '+' by {
        if k < a.len() {
            assert(v[k] == a[k]);
        } else if k == a.len() {
        } else if k < a.len() + 1 + b.len() {
            assert(v[k] == b[k - a.len() - 1]);
        } else if k == a.len() + 1 + b.len() {
        } else {
            assert(v[k] == c[k - a.len() - 2 - b.len()]);
        }
    }
    lemma_core_prefix(v, v.len() as int);
    assert(v.take(v.len() as int) =~= v);
    assert(v =~= a + seq!['.'] + (b + seq!['.'] + c));
    lemma_split_at(Seq::empty(), a, b + seq!['.'] + c, '.');
    lemma_split_at(Seq::empty(), b, c, '.');
    lemma_split_plain(Seq::empty(), c, '.');
    assert(Seq::<char>::empty() + a =~= a);
    assert(Seq::<char>::empty() + b =~= b);
    assert(Seq::<char>::empty() + c =~= c);
    let fields = split_on(version_core(v), '.');
    assert(fields =~= seq![a, b, c]);
}

/// For numeric versions `X.Y.Z`, each with any pre-release or build suffix,
/// newer is the lexicographic order on `(X, Y, Z)`.
pub proof fn lemma_newer_numeric(
    x1: nat,
    y1: nat,
    z1: nat,
    s1: Seq<char>,
    x2: nat,
    y2: nat,
    z2: nat,
    s2: Seq<char>,
)
    requires
        x1 <= u64::MAX,
        y1 <= u64::MAX,
        z1 <= u64::MAX,
        x2 <= u64::MAX,
        y2 <= u64::MAX,
        z2 <= u64::MAX,
        s1.len() == 0 || s1[0] == '-' || s1[0] == '+',
        s2.len() == 0 || s2[0] == '-' || s2[0] == '+',
    ensures
        newer_of(dotted(x1, y1, z1) + s1, dotted(x2, y2, z2) + s2) == (x1 > x2 || (x1 == x2 && (y1 > y2 || (y1
            == y2 && z1 > z2)))),
{
    lemma_version_of_dotted(x1, y1, z1);
    lemma_version_of_dotted(x2, y2, z2);
    if s1.len() > 0 {
        lemma_suffix_ignored(dotted(x1, y1, z1), s1);
    } else {
        assert(dotted(x1, y1, z1) + s1 =~= dotted(x1, y1, z1));
    }
    if s2.len() > 0 {
        lemma_suffix_ignored(dotted(x2, y2, z2), s2);
    } else {
        assert(dotted(x2, y2, z2) + s2 =~= dotted(x2, y2, z2));
    }
}

} // verus!
