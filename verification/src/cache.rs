//! "Already optimised" markers, so re-running over a folder is instant and
//! never re-encodes a file that has already been squeezed (which would only
//! add generation loss).
//!
//! After a plain optimise, the resulting file gets an extended attribute
//! recording the settings used and a CRC32 fingerprint of its content. Next
//! time, a file whose content still matches and that was optimised at least as
//! hard (same or higher compression, metadata stripped if asked, PDF DPI at or
//! below the requested one) is skipped. Any edit changes the fingerprint and
//! invalidates the marker. Reading and writing the attribute, and reading the
//! file, are the application's part; this module encodes, decodes and judges
//! markers and folds file content into the fingerprint.

use vstd::prelude::*;

use crate::numbers::{
    hex_digit_value, hex_value, is_hex_digit, lemma_nat_digits, lemma_parse_int_text,
    lemma_parse_nat_digits, parse_hex, parse_hex_u32, parse_i32, parse_signed, parse_u64,
    parse_unsigned,
};
use crate::result::OptimiseOptions;
use crate::text::{
    char_is_whitespace, char_views, int_text, lemma_first_word_begins_with, lemma_words_spaced, nat_digits, no_whitespace,
    push_int, push_nat, push_str, spaced, split_words, string_of, words,
};

verus! {

/// What a marker records about the optimisation that produced a file.
#[derive(Debug, Clone, Copy, PartialEq, Eq, Structural)]
pub struct Mark {
    pub factor: i32,
    pub strip: bool,
    /// PDF downsampling DPI (0 = none).
    pub dpi: i32,
    pub len: u64,
    pub crc: u32,
}

/// The lowercase hexadecimal digit for `d` (0..=15).
pub open spec fn hex_char(d: int) -> char {
    if d < 10 {
        (48 + d) as char
    } else {
        (87 + d) as char
    }
}

/// The last `n` lowercase hexadecimal digits of `v`, zero-padded.
pub open spec fn hex_digits(v: nat, n: nat) -> Seq<char>
    decreases n,
{
    if n == 0 {
        Seq::empty()
    } else {
        hex_digits(v / 16, (n - 1) as nat).push(hex_char((v % 16) as int))
    }
}

pub open spec fn pow16(n: nat) -> nat
    decreases n,
{
    if n == 0 {
        1
    } else {
        16 * pow16((n - 1) as nat)
    }
}

/// The words of a marker: `v1 f=<factor> s=<0|1> d=<dpi> len=<len> crc=<8 hex digits>`.
pub open spec fn mark_words(m: Mark) -> Seq<Seq<char>> {
    seq![
        "v1"@,
        "f="@ + int_text(m.factor as int),
        "s="@ + (if m.strip { "1"@ } else { "0"@ }),
        "d="@ + int_text(m.dpi as int),
        "len="@ + nat_digits(m.len as nat),
        "crc="@ + hex_digits(m.crc as nat, 8),
    ]
}

/// A marker as stored in the attribute.
pub open spec fn mark_text(m: Mark) -> Seq<char> {
    spaced(mark_words(m))
}

/// Word `k`, without the `key` it must start with.
pub open spec fn field(w: Seq<Seq<char>>, k: int, key: Seq<char>) -> Option<Seq<char>> {
    if 0 <= k < w.len() && key.len() <= w[k].len() && w[k].take(key.len() as int) == key {
        Some(w[k].skip(key.len() as int))
    } else {
        None
    }
}

/// The marker a stored text holds: the words `v1`, `f=`, `s=`, `d=`, `len=`
/// and `crc=` in that order (later words are ignored), the numbers as
/// `str::parse` and `u32::from_str_radix(_, 16)` read them, `s=1` for a
/// stripped file and any other `s=` value for one that was not.
pub open spec fn mark_of_text(s: Seq<char>) -> Option<Mark> {
    let w = words(s);
    if w.len() == 0 || w[0] != "v1"@ {
        None
    } else {
        match (field(w, 1, "f="@), field(w, 2, "s="@), field(w, 3, "d="@), field(w, 4, "len="@), field(w, 5, "crc="@)) {
            (Some(f), Some(st), Some(d), Some(l), Some(c)) => match (
                parse_signed(f, i32::MIN as int, i32::MAX as int),
                parse_signed(d, i32::MIN as int, i32::MAX as int),
                parse_unsigned(l, u64::MAX as int),
                parse_hex(c, u32::MAX as int),
            ) {
                (Some(fv), Some(dv), Some(lv), Some(cv)) => Some(
                    Mark { factor: fv as i32, strip: st == "1"@, dpi: dv as i32, len: lv as u64, crc: cv as u32 },
                ),
                _ => None,
            },
            _ => None,
        }
    }
}

/// Whether a file optimised as `m` records needs nothing more for a request:
/// it was compressed at least as hard, stripped if stripping is asked, and,
/// when a DPI is asked, downsampled to at most that DPI.
pub open spec fn covers_request(m: Mark, factor: i32, strip: bool, dpi: Option<i32>) -> bool {
    let dpi_ok = match dpi {
        None => true,
        Some(want) => m.dpi != 0 && m.dpi <= want,
    };
    m.factor >= factor && (m.strip || !strip) && dpi_ok
}

/// A raw (uncomplemented) CRC-32 register after `k` single-bit steps of the
/// reflected IEEE polynomial `0xEDB88320`.
pub open spec fn crc_bits(c: u32, k: nat) -> u32
    decreases k,
{
    if k == 0 {
        c
    } else {
        let d = crc_bits(c, (k - 1) as nat);
        if d & 1 == 1 {
            (d >> 1) ^ 0xEDB8_8320u32
        } else {
            d >> 1
        }
    }
}

/// The raw CRC-32 register `c` after the bytes `bytes`, one byte at a time.
pub open spec fn crc_raw(c: u32, bytes: Seq<u8>) -> u32
    decreases bytes.len(),
{
    if bytes.len() == 0 {
        c
    } else {
        crc_raw(crc_bits(c ^ (bytes[0] as u32), 8), bytes.drop_first())
    }
}

/// The CRC-32 (IEEE) of content continued from the checksum `crc` over
/// `bytes`: the register is the complement of the checksum, and the new
/// checksum the complement of the register (`crc32_continued(0, b)` is the
/// CRC-32 of `b`).
pub open spec fn crc32_continued(crc: u32, bytes: Seq<u8>) -> u32 {
    !crc_raw(!crc, bytes)
}

proof fn lemma_crc_raw_concat(c: u32, a: Seq<u8>, b: Seq<u8>)
    ensures
        crc_raw(c, a + b) == crc_raw(crc_raw(c, a), b),
    decreases a.len(),
{
    if a.len() == 0 {
        assert(a + b =~= b);
    } else {
        assert((a + b)[0] == a[0]);
        assert((a + b).drop_first() =~= a.drop_first() + b);
        lemma_crc_raw_concat(crc_bits(c ^ (a[0] as u32), 8), a.drop_first(), b);
    }
}

/// A CRC-32 does not depend on how the content is split: continuing over
/// `a` and then over `b` gives the checksum of `a` followed by `b`.
pub proof fn lemma_crc_chunks(crc: u32, a: Seq<u8>, b: Seq<u8>)
    ensures
        crc32_continued(crc32_continued(crc, a), b) == crc32_continued(crc, a + b),
{
    let r = crc_raw(!crc, a);
    assert(!(!r) == r) by (bit_vector);
    lemma_crc_raw_concat(!crc, a, b);
}

/// Continues a CRC-32 over `chunk` with `crc32fast`: a hasher started with
/// `Hasher::new_with_initial(crc)`, fed `chunk` with `update`, read with
/// `finalize`. The contract claims the standard CRC-32 (IEEE, reflected,
/// polynomial `0xEDB88320`) that the crate computes: its `update` complements
/// the state, folds the bytes in (table-driven or SIMD, the same function)
/// and complements the result.
#[verifier::external_body]
fn crc32_update(crc: u32, chunk: &[u8]) -> (r: u32)
    ensures
        r == crc32_continued(crc, chunk@),
{
    let mut h = crc32fast::Hasher::new_with_initial(crc);
    h.update(chunk);
    h.finalize()
}

/// A file's content as far as it has been read: its length and CRC32.
#[derive(Debug, Clone, Copy, PartialEq, Eq, Structural)]
pub struct Fingerprint {
    pub len: u64,
    pub crc: u32,
}

impl Fingerprint {
    /// The fingerprint of no content.
    pub fn new() -> (r: Fingerprint)
        ensures
            r.len == 0,
            r.crc == 0,
    {
        Fingerprint { len: 0, crc: 0 }
    }

    /// Fold the next `chunk` of the content in.
    pub fn update(&mut self, chunk: &[u8])
        requires
            old(self).len + chunk@.len() <= u64::MAX,
        ensures
            final(self).len == old(self).len + chunk@.len(),
            final(self).crc == crc32_continued(old(self).crc, chunk@),
    {
        self.crc = crc32_update(self.crc, chunk);
        self.len = self.len + chunk.len() as u64;
    }
}

proof fn lemma_hex_digits(v: nat, n: nat)
    requires
        v < pow16(n),
    ensures
        hex_digits(v, n).len() == n,
        forall|k: int| 0 <= k < n ==> is_hex_digit(#[trigger] hex_digits(v, n)[k]),
        forall|k: int| 0 <= k < n ==> !char_is_whitespace(#[trigger] hex_digits(v, n)[k]),
        forall|k: int| 0 <= k < n ==> hex_digits(v, n)[k] != '+',
        hex_value(hex_digits(v, n)) == v,
    decreases n,
{
    let d = hex_digits(v, n);
    if n == 0 {
    } else {
        let p = pow16((n - 1) as nat);
        assert(v / 16 < p) by (nonlinear_arith)
            requires
                v < 16 * p,
        ;
        lemma_hex_digits(v / 16, (n - 1) as nat);
        let prev = hex_digits(v / 16, (n - 1) as nat);
        assert(d.drop_last() =~= prev);
        let c = hex_char((v % 16) as int);
        assert(d.last() == c);
        assert(is_hex_digit(c) && hex_digit_value(c) == v % 16 && !char_is_whitespace(c) && c != '+');
        assert forall|k: int| 0 <= k < n implies is_hex_digit(#[trigger] d[k]) && !char_is_whitespace(d[k]) && d[k] != '+' by {
            if k < n - 1 {
                assert(d[k] == prev[k]);
            }
        }
        assert(hex_value(d) == hex_value(prev) * 16 + hex_digit_value(c));
    }
}

proof fn lemma_digits_plain(n: nat)
    ensures
        no_whitespace(nat_digits(n)),
        nat_digits(n).len() > 0,
{
    lemma_nat_digits(n);
    let d = nat_digits(n);
    assert forall|k: int| 0 <= k < d.len() implies !char_is_whitespace(#[trigger] d[k]) by {
        assert(crate::numbers::is_digit(d[k]));
    }
}

proof fn lemma_int_text_plain(i: int)
    ensures
        no_whitespace(int_text(i)),
{
    if i < 0 {
        lemma_digits_plain((-i) as nat);
        let t = int_text(i);
        assert forall|k: int| 0 <= k < t.len() implies !char_is_whitespace(#[trigger] t[k]) by {
            if k > 0 {
                assert(t[k] == nat_digits((-i) as nat)[k - 1]);
            }
        }
    } else {
        lemma_digits_plain(i as nat);
    }
}

proof fn lemma_keyed_word(key: Seq<char>, v: Seq<char>)
    requires
        no_whitespace(key),
        no_whitespace(v),
        key.len() > 0,
    ensures
        (key + v).len() > 0,
        no_whitespace(key + v),
        (key + v).take(key.len() as int) == key,
        (key + v).skip(key.len() as int) == v,
{
    let w = key + v;
    assert forall|k: int| 0 <= k < w.len() implies !char_is_whitespace(#[trigger] w[k]) by {
        if k < key.len() {
            assert(w[k] == key[k]);
        } else {
            assert(w[k] == v[k - key.len()]);
        }
    }
    assert(w.take(key.len() as int) =~= key);
    assert(w.skip(key.len() as int) =~= v);
}

/// Only a `v1` marker is read: text whose first word is anything else (an
/// older `v0` marker, other data) decodes to nothing.
pub proof fn lemma_only_v1_decodes(s: Seq<char>)
    requires
        words(s).len() == 0 || words(s)[0] != "v1"@,
    ensures
        mark_of_text(s) is None,
{
}

/// A text whose first two characters are not whitespace and are not `v1`
/// (another version's tag, or no tag at all) is no marker.
pub proof fn lemma_other_tag_rejected(s: Seq<char>)
    requires
        s.len() >= 2,
        !char_is_whitespace(s[0]),
        !char_is_whitespace(s[1]),
        s.subrange(0, 2) != "v1"@,
    ensures
        mark_of_text(s) is None,
{
    reveal_strlit("v1");
    let t = s.subrange(0, 2);
    assert(no_whitespace(t)) by {
        assert forall|k: int| 0 <= k < t.len() implies !char_is_whitespace(#[trigger] t[k]) by {
            assert(t[k] == s[k]);
        }
    }
    lemma_first_word_begins_with(s, t);
    if words(s)[0] == "v1"@ {
        assert(words(s)[0].subrange(0, 2) =~= "v1"@);
    }
}

/// Decoding gives back what encoding wrote: every marker survives the round
/// trip through its stored text.
pub proof fn lemma_mark_roundtrip(m: Mark)
    ensures
        mark_of_text(mark_text(m)) == Some(m),
{
    reveal_strlit("v1");
    reveal_strlit("f=");
    reveal_strlit("s=");
    reveal_strlit("d=");
    reveal_strlit("len=");
    reveal_strlit("crc=");
    reveal_strlit("1");
    reveal_strlit("0");
    let w = mark_words(m);
    let f = int_text(m.factor as int);
    let st: Seq<char> = if m.strip { "1"@ } else { "0"@ };
    let d = int_text(m.dpi as int);
    let l = nat_digits(m.len as nat);
    assert(pow16(8) == 0x1_0000_0000) by {
        reveal_with_fuel(pow16, 9);
    }
    lemma_hex_digits(m.crc as nat, 8);
    let c = hex_digits(m.crc as nat, 8);
    lemma_int_text_plain(m.factor as int);
    lemma_int_text_plain(m.dpi as int);
    lemma_digits_plain(m.len as nat);
    assert(no_whitespace(c));
    assert(no_whitespace(st));
    assert(no_whitespace("v1"@));
    assert(no_whitespace("f="@));
    assert(no_whitespace("s="@));
    assert(no_whitespace("d="@));
    assert(no_whitespace("len="@));
    assert(no_whitespace("crc="@));
    lemma_keyed_word("f="@, f);
    lemma_keyed_word("s="@, st);
    lemma_keyed_word("d="@, d);
    lemma_keyed_word("len="@, l);
    lemma_keyed_word("crc="@, c);
    assert forall|i: int| 0 <= i < w.len() implies #[trigger] w[i].len() > 0 && no_whitespace(w[i]) by {
        if i == 0 {
            assert(w[0] == "v1"@);
        }
    }
    lemma_words_spaced(w);
    let ws = words(mark_text(m));
    assert(ws == w);
    assert(field(ws, 1, "f="@) == Some(f));
    assert(field(ws, 2, "s="@) == Some(st));
    assert(field(ws, 3, "d="@) == Some(d));
    assert(field(ws, 4, "len="@) == Some(l));
    assert(field(ws, 5, "crc="@) == Some(c));
    lemma_parse_int_text(m.factor as int, i32::MIN as int, i32::MAX as int);
    lemma_parse_int_text(m.dpi as int, i32::MIN as int, i32::MAX as int);
    lemma_parse_nat_digits(m.len as nat, u64::MAX as int);
    assert(crate::numbers::unsigned_digits(c) == c);
    assert(parse_hex(c, u32::MAX as int) == Some(m.crc as int));
    assert(m.strip == (st == "1"@)) by {
        if !m.strip {
            assert(st[0] != "1"@[0]);
        }
    }
}

/// A marker that covers a request covers every gentler one: no more
/// compression, stripping only if the first asked for it, and no DPI or a
/// DPI at least as high.
pub proof fn lemma_covers_gentler(
    m: Mark,
    factor: i32,
    strip: bool,
    dpi: Option<i32>,
    factor2: i32,
    strip2: bool,
    dpi2: Option<i32>,
)
    requires
        covers_request(m, factor, strip, dpi),
        factor2 <= factor,
        strip2 ==> strip,
        match dpi2 {
            None => true,
            Some(d2) => dpi matches Some(d) && d <= d2,
        },
    ensures
        covers_request(m, factor2, strip2, dpi2),
{
}

/// Append the last `n` lowercase hexadecimal digits of `v`, zero-padded.
fn push_hex(out: &mut Vec<char>, v: u32, n: u32)
    requires
        n <= 8,
    ensures
        final(out)@ == old(out)@ + hex_digits(v as nat, n as nat),
    decreases n,
{
    if n > 0 {
        push_hex(out, v / 16, n - 1);
        let d = v % 16;
        let c = if d < 10 {
            (48u8 + d as u8) as char
        } else {
            (87u8 + d as u8) as char
        };
        assert(c == hex_char(d as int));
        out.push(c);
        assert(old(out)@ + hex_digits(v as nat, n as nat) =~= (old(out)@ + hex_digits((v / 16) as nat, (n - 1) as nat)).push(c));
    } else {
        assert(old(out)@ + hex_digits(v as nat, 0) =~= old(out)@);
    }
}

/// The words after `key` in `word`, when it starts with `key`.
fn after_prefix(word: &Vec<char>, key: &str) -> (r: Option<Vec<char>>)
    ensures
        match r {
            Some(v) => key@.len() <= word@.len() && word@.take(key@.len() as int) == key@ && v@ == word@.skip(key@.len() as int),
            None => !(key@.len() <= word@.len() && word@.take(key@.len() as int) == key@),
        },
{
    let n = key.unicode_len();
    if n > word.len() {
        return None;
    }
    let mut i: usize = 0;
    while i < n
        invariant
            n == key@.len(),
            n <= word@.len(),
            i <= n,
            forall|k: int| 0 <= k < i ==> word@[k] == key@[k],
        decreases n - i,
    {
        if word[i] != key.get_char(i) {
            assert(word@.take(n as int)[i as int] != key@[i as int]);
            return None;
        }
        i = i + 1;
    }
    assert(word@.take(n as int) =~= key@);
    let mut v: Vec<char> = Vec::new();
    let mut k: usize = n;
    while k < word.len()
        invariant
            n <= k <= word@.len(),
            v@ == word@.subrange(n as int, k as int),
        decreases word.len() - k,
    {
        v.push(word[k]);
        k = k + 1;
        assert(v@ =~= word@.subrange(n as int, k as int));
    }
    assert(v@ =~= word@.skip(n as int));
    Some(v)
}

impl Mark {
    /// The marker for a file of `len` bytes with checksum `crc`, optimised
    /// with `options` (and, for a PDF, downsampled to `pdf_dpi`).
    pub fn new(options: &OptimiseOptions, pdf_dpi: Option<i32>, len: u64, crc: u32) -> (m: Mark)
        ensures
            m == (Mark {
                factor: options.compression.factor,
                strip: options.strip_metadata,
                dpi: match pdf_dpi {
                    Some(d) => d,
                    None => 0,
                },
                len,
                crc,
            }),
    {
        Mark {
            factor: options.compression.factor,
            strip: options.strip_metadata,
            dpi: match pdf_dpi {
                Some(d) => d,
                None => 0,
            },
            len,
            crc,
        }
    }

    /// The text stored in the attribute.
    pub fn encode(&self) -> (s: String)
        ensures
            s@ == mark_text(*self),
    {
        let mut v: Vec<char> = Vec::new();
        push_str(&mut v, "v1 f=");
        push_int(&mut v, self.factor as i64);
        push_str(&mut v, " s=");
        if self.strip {
            push_str(&mut v, "1");
        } else {
            push_str(&mut v, "0");
        }
        push_str(&mut v, " d=");
        push_int(&mut v, self.dpi as i64);
        push_str(&mut v, " len=");
        push_nat(&mut v, self.len);
        push_str(&mut v, " crc=");
        push_hex(&mut v, self.crc, 8);
        proof {
            reveal_strlit("v1 f=");
            reveal_strlit(" s=");
            reveal_strlit(" d=");
            reveal_strlit(" len=");
            reveal_strlit(" crc=");
            reveal_strlit("v1");
            reveal_strlit("f=");
            reveal_strlit("s=");
            reveal_strlit("d=");
            reveal_strlit("len=");
            reveal_strlit("crc=");
            reveal_strlit("1");
            reveal_strlit("0");
            let w = mark_words(*self);
            assert(w.drop_first().drop_first().drop_first().drop_first().drop_first().len() == 1);
            reveal_with_fuel(spaced, 7);
            assert(v@ =~= mark_text(*self));
        }
        string_of(v)
    }

    /// The marker a stored text holds, if it is one.
    pub fn decode(s: &str) -> (r: Option<Mark>)
        ensures
            r == mark_of_text(s@),
    {
        let chars = crate::text::chars_of(s);
        let w = split_words(&chars);
        let ghost ws = words(s@);
        assert(char_views(w@) == ws);
        if w.len() == 0 || !crate::text::chars_eq(&w[0], "v1") {
            proof {
                if w.len() > 0 {
                    assert(ws[0] == w@[0]@);
                }
            }
            return None;
        }
        assert(ws[0] == w@[0]@);
        if w.len() < 6 {
            return None;
        }
        proof {
            assert(ws[1] == w@[1]@);
            assert(ws[2] == w@[2]@);
            assert(ws[3] == w@[3]@);
            assert(ws[4] == w@[4]@);
            assert(ws[5] == w@[5]@);
        }
        let f = match after_prefix(&w[1], "f=") {
            Some(f) => f,
            None => return None,
        };
        let factor = match parse_i32(&f) {
            Some(x) => x,
            None => return None,
        };
        let st = match after_prefix(&w[2], "s=") {
            Some(t) => t,
            None => return None,
        };
        let d = match after_prefix(&w[3], "d=") {
            Some(t) => t,
            None => return None,
        };
        let dpi = match parse_i32(&d) {
            Some(x) => x,
            None => return None,
        };
        let l = match after_prefix(&w[4], "len=") {
            Some(t) => t,
            None => return None,
        };
        let len = match parse_u64(&l) {
            Some(x) => x,
            None => return None,
        };
        let c = match after_prefix(&w[5], "crc=") {
            Some(t) => t,
            None => return None,
        };
        let crc = match parse_hex_u32(&c) {
            Some(x) => x,
            None => return None,
        };
        let strip = crate::text::chars_eq(&st, "1");
        Some(Mark { factor, strip, dpi, len, crc })
    }

    /// Whether a file optimised with this mark needs nothing more for a request.
    pub fn covers(&self, factor: i32, strip: bool, dpi: Option<i32>) -> (r: bool)
        ensures
            r == covers_request(*self, factor, strip, dpi),
    {
        let dpi_ok = match dpi {
            None => true,
            Some(want) => self.dpi != 0 && self.dpi <= want,
        };
        self.factor >= factor && (self.strip || !strip) && dpi_ok
    }

    /// Whether the file still has the content the mark was made for.
    pub fn matches(&self, fp: Fingerprint) -> (r: bool)
        ensures
            r == (fp.len == self.len && fp.crc == self.crc),
    {
        fp.len == self.len && fp.crc == self.crc
    }
}

/// The marker in a stored attribute text, when it covers a request with
/// these options (and, for a PDF, this DPI); the file's content still has
/// to be checked against it.
pub fn usable_mark(text: &str, options: &OptimiseOptions, pdf_dpi: Option<i32>) -> (r: Option<Mark>)
    ensures
        r == (match mark_of_text(text@) {
            Some(m) => if covers_request(m, options.compression.factor, options.strip_metadata, pdf_dpi) {
                Some(m)
            } else {
                None
            },
            None => None,
        }),
{
    match Mark::decode(text) {
        Some(m) => if m.covers(options.compression.factor, options.strip_metadata, pdf_dpi) {
            Some(m)
        } else {
            None
        },
        None => None,
    }
}

} // verus!
