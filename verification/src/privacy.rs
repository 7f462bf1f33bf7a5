//! Location removal: strip where a photo was taken while keeping the rest of
//! its metadata (camera, date, orientation, colour profile).
//!
//! EXIF: the GPS sub-IFD is wiped (its entries *and* the out-of-line values
//! they point to are zeroed, so no coordinates linger in the bytes) and the
//! pointer to it is removed from IFD0. XMP: `exif:GPS*`, `photoshop:City`,
//! `State`, `Country` and `Iptc4xmpCore:Location` are removed.

use vstd::prelude::*;

verus! {

/// EXIF tag of the pointer to the GPS IFD.
pub const GPS_IFD_POINTER: u16 = 0x8825;

/// The 16-bit value at `at`, if the block holds two bytes there.
pub open spec fn rd16(d: Seq<u8>, le: bool, at: int) -> Option<int> {
    if 0 <= at && at + 2 <= d.len() {
        Some(
            if le {
                d[at] + 256 * d[at + 1]
            } else {
                256 * d[at] + d[at + 1]
            },
        )
    } else {
        None
    }
}

/// The 32-bit value at `at`, if the block holds four bytes there.
pub open spec fn rd32(d: Seq<u8>, le: bool, at: int) -> Option<int> {
    if 0 <= at && at + 4 <= d.len() {
        Some(
            if le {
                d[at] + 256 * d[at + 1] + 65536 * d[at + 2] + 16777216 * d[at + 3]
            } else {
                16777216 * d[at] + 65536 * d[at + 1] + 256 * d[at + 2] + d[at + 3]
            },
        )
    } else {
        None
    }
}

/// `len` bytes from `from` set to zero, when the whole range lies in the block.
pub open spec fn zeroed(d: Seq<u8>, from: int, len: int) -> Seq<u8> {
    if 0 <= from && 0 <= len && from + len <= d.len() {
        Seq::new(d.len(), |k: int| if from <= k < from + len { 0u8 } else { d[k] })
    } else {
        d
    }
}

/// `cnt` bytes copied from `src` down to `dst`.
pub open spec fn moved(d: Seq<u8>, dst: int, src: int, cnt: int) -> Seq<u8> {
    Seq::new(d.len(), |k: int| if dst <= k < dst + cnt { d[src + (k - dst)] } else { d[k] })
}

/// The 16-bit `v` written at `at` in the block's byte order.
pub open spec fn put16(d: Seq<u8>, le: bool, at: int, v: int) -> Seq<u8> {
    if le {
        d.update(at, (v % 256) as u8).update(at + 1, (v / 256) as u8)
    } else {
        d.update(at, (v / 256) as u8).update(at + 1, (v % 256) as u8)
    }
}

/// Bytes per value for a TIFF field type.
pub open spec fn type_size_of(t: int) -> int {
    if t == 1 || t == 2 || t == 6 || t == 7 {
        1
    } else if t == 3 || t == 8 {
        2
    } else if t == 4 || t == 9 || t == 11 {
        4
    } else if t == 5 || t == 10 || t == 12 {
        8
    } else {
        1
    }
}

/// Offset of directory entry `i` of the IFD at `ifd`.
pub open spec fn entry_at(ifd: int, i: int) -> int {
    ifd + 2 + 12 * i
}

/// The first entry from `i` on, among the `n` of the IFD at `ifd`, whose tag
/// is the GPS pointer.
pub open spec fn find_gps_entry(d: Seq<u8>, le: bool, ifd: int, n: int, i: int) -> Option<int>
    decreases n - i,
{
    if i >= n {
        None
    } else if rd16(d, le, entry_at(ifd, i)) == Some(GPS_IFD_POINTER as int) {
        Some(i)
    } else {
        find_gps_entry(d, le, ifd, n, i + 1)
    }
}

/// The out-of-line values of GPS entries `i..gn` zeroed, one entry after the
/// other; the walk stops at the first entry that cannot be read.
pub open spec fn wipe_values(d: Seq<u8>, le: bool, gps: int, gn: int, i: int) -> Seq<u8>
    decreases gn - i,
{
    if i >= gn {
        d
    } else {
        let e = entry_at(gps, i);
        match (rd16(d, le, e + 2), rd32(d, le, e + 4), rd32(d, le, e + 8)) {
            (Some(ty), Some(count), Some(off)) => {
                let len = type_size_of(ty) * count;
                wipe_values(if len > 4 { zeroed(d, off, len) } else { d }, le, gps, gn, i + 1)
            },
            _ => d,
        }
    }
}

/// The GPS IFD at `gps` wiped: its values, then the directory itself.
pub open spec fn wipe_gps_ifd(d: Seq<u8>, le: bool, gps: int) -> Seq<u8> {
    match rd16(d, le, gps) {
        Some(gn) => zeroed(wipe_values(d, le, gps, gn, 0), gps, 2 + gn * 12 + 4),
        None => d,
    }
}

/// Entry `idx` dropped from the `n`-entry IFD at `ifd`: the later entries and
/// the next-IFD offset move up one slot, the freed slot is zeroed and the
/// count goes down by one. Left as it is when the IFD runs past the block.
pub open spec fn drop_entry(d: Seq<u8>, le: bool, ifd: int, n: int, idx: int) -> Seq<u8> {
    let tail_start = entry_at(ifd, idx + 1);
    let tail_end = entry_at(ifd, n) + 4;
    if tail_end <= d.len() {
        put16(
            zeroed(moved(d, entry_at(ifd, idx), tail_start, tail_end - tail_start), tail_end - 12, 12),
            le,
            ifd,
            n - 1,
        )
    } else {
        d
    }
}

/// The byte order a TIFF header announces: `II` little-endian, `MM` big.
pub open spec fn byte_order(d: Seq<u8>) -> Option<bool> {
    if d.len() >= 2 && d[0] == 0x49u8 && d[1] == 0x49u8 {
        Some(true)
    } else if d.len() >= 2 && d[0] == 0x4Du8 && d[1] == 0x4Du8 {
        Some(false)
    } else {
        None
    }
}

/// Whether IFD0's entry count, its `n` entries and the next-IFD offset after
/// them all lie inside the block.
pub open spec fn ifd_fits(d: Seq<u8>, ifd: int, n: int) -> bool {
    entry_at(ifd, n) + 4 <= d.len()
}

/// What removing the GPS data makes of an EXIF block: `None` when it is
/// malformed (no `II`/`MM` header, IFD0 beyond the block, or IFD0's entry
/// table and next-IFD offset running past its end) or has no GPS pointer
/// in IFD0, else the new bytes.
pub open spec fn gps_stripped(d: Seq<u8>) -> Option<Seq<u8>> {
    match byte_order(d) {
        None => None,
        Some(le) => match rd32(d, le, 4) {
            None => None,
            Some(ifd0) => match rd16(d, le, ifd0) {
                None => None,
                Some(n) => if !ifd_fits(d, ifd0, n) {
                    None
                } else { match find_gps_entry(d, le, ifd0, n, 0) {
                    None => None,
                    Some(idx) => match rd32(d, le, entry_at(ifd0, idx) + 8) {
                        None => None,
                        Some(gps) => Some(drop_entry(wipe_gps_ifd(d, le, gps), le, ifd0, n, idx)),
                    },
                } },
            },
        },
    }
}

fn read16(data: &[u8], le: bool, at: u64) -> (r: Option<u64>)
    ensures
        match r {
            Some(v) => rd16(data@, le, at as int) == Some(v as int) && v < 65536,
            None => rd16(data@, le, at as int) is None,
        },
{
    let len = data.len() as u64;
    if at <= len && len - at >= 2 {
        let i = at as usize;
        let a = data[i] as u64;
        let b = data[i + 1] as u64;
        if le {
            Some(a + 256 * b)
        } else {
            Some(256 * a + b)
        }
    } else {
        None
    }
}

fn read32(data: &[u8], le: bool, at: u64) -> (r: Option<u64>)
    ensures
        match r {
            Some(v) => rd32(data@, le, at as int) == Some(v as int) && v < 0x1_0000_0000,
            None => rd32(data@, le, at as int) is None,
        },
{
    let len = data.len() as u64;
    if at <= len && len - at >= 4 {
        let i = at as usize;
        let a = data[i] as u64;
        let b = data[i + 1] as u64;
        let c = data[i + 2] as u64;
        let e = data[i + 3] as u64;
        if le {
            Some(a + 256 * b + 65536 * c + 16777216 * e)
        } else {
            Some(16777216 * a + 65536 * b + 256 * c + e)
        }
    } else {
        None
    }
}

fn zero_range(data: &mut [u8], from: u64, len: u64)
    requires
        from + len <= u64::MAX,
    ensures
        final(data)@ == zeroed(old(data)@, from as int, len as int),
{
    let total = data.len() as u64;
    if from + len <= total {
        let ghost before = data@;
        let mut k: usize = from as usize;
        let end: usize = (from + len) as usize;
        while k < end
            invariant
                from <= k <= end,
                end == from + len,
                end <= data@.len(),
                data@.len() == before.len(),
                forall|j: int| 0 <= j < data@.len() ==> data@[j] == (if from <= j < k { 0u8 } else { before[j] }),
            decreases end - k,
        {
            data[k] = 0;
            k = k + 1;
        }
        assert(data@ =~= zeroed(before, from as int, len as int));
    }
}

fn type_size(t: u64) -> (r: u64)
    ensures
        r == type_size_of(t as int),
        1 <= r <= 8,
{
    if t == 1 || t == 2 || t == 6 || t == 7 {
        1
    } else if t == 3 || t == 8 {
        2
    } else if t == 4 || t == 9 || t == 11 {
        4
    } else if t == 5 || t == 10 || t == 12 {
        8
    } else {
        1
    }
}

/// Find the GPS pointer among the `n` entries of IFD0.
fn find_gps(data: &[u8], le: bool, ifd0: u64, n: u64) -> (r: Option<u64>)
    requires
        ifd0 < 0x1_0000_0000,
        n < 65536,
    ensures
        match r {
            Some(i) => find_gps_entry(data@, le, ifd0 as int, n as int, 0) == Some(i as int) && i < n,
            None => find_gps_entry(data@, le, ifd0 as int, n as int, 0) is None,
        },
{
    let mut i: u64 = 0;
    while i < n
        invariant
            i <= n,
            n < 65536,
            ifd0 < 0x1_0000_0000,
            find_gps_entry(data@, le, ifd0 as int, n as int, 0) == find_gps_entry(data@, le, ifd0 as int, n as int, i as int),
        decreases n - i,
    {
        if let Some(tag) = read16(data, le, ifd0 + 2 + i * 12) {
            if tag == GPS_IFD_POINTER as u64 {
                return Some(i);
            }
        }
        i = i + 1;
    }
    None
}

/// Zero the GPS IFD at `gps`: the out-of-line values, then the directory.
fn wipe_gps(data: &mut [u8], le: bool, gps: u64)
    requires
        gps < 0x1_0000_0000,
    ensures
        final(data)@ == wipe_gps_ifd(old(data)@, le, gps as int),
        final(data)@.len() == old(data)@.len(),
{
    if let Some(gn) = read16(data, le, gps) {
        let ghost len0 = data@.len();
        let ghost target = wipe_values(data@, le, gps as int, gn as int, 0);
        let mut i: u64 = 0;
        while i < gn
            invariant_except_break
                wipe_values(data@, le, gps as int, gn as int, i as int) == target,
            invariant
                i <= gn,
                gn < 65536,
                gps < 0x1_0000_0000,
                data@.len() == len0,
            ensures
                data@ == target,
            decreases gn - i,
        {
            let e = gps + 2 + i * 12;
            let ty = read16(data, le, e + 2);
            let count = read32(data, le, e + 4);
            let off = read32(data, le, e + 8);
            match (ty, count, off) {
                (Some(ty), Some(count), Some(off)) => {
                    let sz = type_size(ty);
                    assert(sz * count <= 8 * 0xFFFF_FFFFu64) by (nonlinear_arith)
                        requires
                            sz <= 8,
                            count < 0x1_0000_0000,
                    ;
                    let len = sz * count;
                    if len > 4 {
                        zero_range(data, off, len);
                    }
                    i = i + 1;
                },
                _ => {
                    break;
                },
            }
        }
        zero_range(data, gps, 2 + gn * 12 + 4);
    }
}

/// Drop entry `idx` of the `n`-entry IFD0 at `ifd0`.
fn drop_gps_entry(data: &mut [u8], le: bool, ifd0: u64, n: u64, idx: u64)
    requires
        ifd0 + 2 <= old(data)@.len(),
        ifd0 < 0x1_0000_0000,
        idx < n < 65536,
    ensures
        final(data)@ == drop_entry(old(data)@, le, ifd0 as int, n as int, idx as int),
{
    let dst = ifd0 + 2 + idx * 12;
    let tail_start = ifd0 + 2 + (idx + 1) * 12;
    let tail_end = ifd0 + 2 + n * 12 + 4;
    let total = data.len() as u64;
    if tail_end <= total {
        let ghost before = data@;
        let cnt = tail_end - tail_start;
        let mut k: u64 = 0;
        while k < cnt
            invariant
                k <= cnt,
                cnt == tail_end - tail_start,
                tail_start == dst + 12,
                tail_end <= data@.len(),
                data@.len() == before.len(),
                forall|j: int| 0 <= j < data@.len() ==> data@[j] == (if dst <= j < dst + k { before[tail_start + (j - dst)] } else { before[j] }),
            decreases cnt - k,
        {
            let b = data[(tail_start + k) as usize];
            data[(dst + k) as usize] = b;
            k = k + 1;
        }
        assert(data@ =~= moved(before, dst as int, tail_start as int, cnt as int));
        zero_range(data, tail_end - 12, 12);
        let v = n - 1;
        let lo = (v % 256) as u8;
        let hi = (v / 256) as u8;
        let i = ifd0 as usize;
        if le {
            data[i] = lo;
            data[i + 1] = hi;
        } else {
            data[i] = hi;
            data[i + 1] = lo;
        }
    }
}

/// Remove GPS data from a raw EXIF (TIFF) block in place. Returns whether any
/// was found. Malformed blocks (see [`gps_stripped`]) are left as they are.
pub fn strip_gps(exif: &mut [u8]) -> (found: bool)
    ensures
        found == gps_stripped(old(exif)@) is Some,
        match gps_stripped(old(exif)@) {
            Some(d) => final(exif)@ == d,
            None => final(exif)@ == old(exif)@,
        },
{
    let le = if exif.len() >= 2 && exif[0] == 0x49u8 && exif[1] == 0x49u8 {
        true
    } else if exif.len() >= 2 && exif[0] == 0x4Du8 && exif[1] == 0x4Du8 {
        false
    } else {
        return false;
    };
    let ifd0 = match read32(exif, le, 4) {
        Some(o) => o,
        None => return false,
    };
    let n = match read16(exif, le, ifd0) {
        Some(n) => n,
        None => return false,
    };
    if ifd0 + 2 + n * 12 + 4 > exif.len() as u64 {
        return false;
    }
    let idx = match find_gps(exif, le, ifd0, n) {
        Some(i) => i,
        None => return false,
    };
    let gps = match read32(exif, le, ifd0 + 2 + idx * 12 + 8) {
        Some(o) => o,
        None => return false,
    };
    wipe_gps(exif, le, gps);
    drop_gps_entry(exif, le, ifd0, n, idx);
    true
}

/// A block whose IFD0 entry table (with the next-IFD offset after it) runs
/// past its end is malformed: nothing is found and nothing changes.
pub proof fn lemma_truncated_ifd0_untouched(d: Seq<u8>, le: bool, ifd0: int, n: int)
    requires
        byte_order(d) == Some(le),
        rd32(d, le, 4) == Some(ifd0),
        rd16(d, le, ifd0) == Some(n),
        !ifd_fits(d, ifd0, n),
    ensures
        gps_stripped(d) is None,
{
}

/// Wiping only ever sets bytes to zero.
proof fn lemma_wipe_values_zero_only(d: Seq<u8>, le: bool, gps: int, gn: int, i: int)
    ensures
        wipe_values(d, le, gps, gn, i).len() == d.len(),
        forall|k: int|
            0 <= k < d.len() ==> #[trigger] wipe_values(d, le, gps, gn, i)[k] == d[k] || wipe_values(
                d,
                le,
                gps,
                gn,
                i,
            )[k] == 0,
    decreases gn - i,
{
    if i < gn {
        let e = entry_at(gps, i);
        match (rd16(d, le, e + 2), rd32(d, le, e + 4), rd32(d, le, e + 8)) {
            (Some(ty), Some(count), Some(off)) => {
                let len = type_size_of(ty) * count;
                let d1 = if len > 4 { zeroed(d, off, len) } else { d };
                lemma_wipe_values_zero_only(d1, le, gps, gn, i + 1);
                assert forall|k: int| 0 <= k < d.len() implies d1[k] == d[k] || d1[k] == 0 by {}
            },
            _ => {},
        }
    }
}

proof fn lemma_wipe_zero_only(d: Seq<u8>, le: bool, gps: int)
    ensures
        wipe_gps_ifd(d, le, gps).len() == d.len(),
        forall|k: int|
            0 <= k < d.len() ==> #[trigger] wipe_gps_ifd(d, le, gps)[k] == d[k] || wipe_gps_ifd(d, le, gps)[k] == 0,
{
    match rd16(d, le, gps) {
        Some(gn) => {
            lemma_wipe_values_zero_only(d, le, gps, gn, 0);
            let w = wipe_values(d, le, gps, gn, 0);
            assert forall|k: int| 0 <= k < d.len() implies #[trigger] wipe_gps_ifd(d, le, gps)[k] == d[k]
                || wipe_gps_ifd(d, le, gps)[k] == 0 by {
                assert(w[k] == d[k] || w[k] == 0);
            }
        },
        None => {},
    }
}

/// A tag that reads as the GPS pointer after bytes were only zeroed read as
/// the GPS pointer before: both of its bytes are non-zero.
proof fn lemma_zeroing_makes_no_gps_tag(d: Seq<u8>, w: Seq<u8>, le: bool, e: int)
    requires
        w.len() == d.len(),
        0 <= e,
        e + 1 < d.len(),
        w[e] == d[e] || w[e] == 0,
        w[e + 1] == d[e + 1] || w[e + 1] == 0,
        rd16(w, le, e) == Some(GPS_IFD_POINTER as int),
    ensures
        rd16(d, le, e) == Some(GPS_IFD_POINTER as int),
{
    assert(w[e] != 0 && w[e + 1] != 0);
}

proof fn lemma_find_some(d: Seq<u8>, le: bool, ifd: int, n: int, i: int, j: int)
    requires
        find_gps_entry(d, le, ifd, n, i) == Some(j),
    ensures
        i <= j < n,
        rd16(d, le, entry_at(ifd, j)) == Some(GPS_IFD_POINTER as int),
    decreases n - i,
{
    if i < n && rd16(d, le, entry_at(ifd, i)) != Some(GPS_IFD_POINTER as int) {
        lemma_find_some(d, le, ifd, n, i + 1, j);
    }
}

proof fn lemma_find_none_before(d: Seq<u8>, le: bool, ifd: int, n: int, i: int, j: int, k: int)
    requires
        find_gps_entry(d, le, ifd, n, i) == Some(j),
        i <= k < j,
    ensures
        rd16(d, le, entry_at(ifd, k)) != Some(GPS_IFD_POINTER as int),
    decreases n - i,
{
    if k > i {
        lemma_find_none_before(d, le, ifd, n, i + 1, j, k);
    }
}

proof fn lemma_find_none(d: Seq<u8>, le: bool, ifd: int, n: int, i: int)
    requires
        forall|k: int| i <= k < n ==> rd16(d, le, entry_at(ifd, k)) != Some(GPS_IFD_POINTER as int),
    ensures
        find_gps_entry(d, le, ifd, n, i) is None,
    decreases n - i,
{
    if i < n {
        lemma_find_none(d, le, ifd, n, i + 1);
    }
}

/// Stripping once is enough: on a well-formed block whose IFD0 has a single
/// GPS pointer, the strip succeeds, and a second call on its result finds
/// nothing (and so changes nothing), unless the strip rewrote where the IFD0
/// pointer leads. That happens only when GPS values lie over the pointer in
/// the header, or IFD0 itself starts inside the header; the second call then
/// reads another directory, which may hold a GPS pointer of its own.
pub proof fn lemma_strip_once_enough(d: Seq<u8>, le: bool, ifd0: int, n: int, idx: int, gps: int)
    requires
        byte_order(d) == Some(le),
        rd32(d, le, 4) == Some(ifd0),
        rd16(d, le, ifd0) == Some(n),
        ifd_fits(d, ifd0, n),
        find_gps_entry(d, le, ifd0, n, 0) == Some(idx),
        forall|i: int| 0 <= i < n && rd16(d, le, entry_at(ifd0, i)) == Some(GPS_IFD_POINTER as int) ==> i == idx,
        rd32(d, le, entry_at(ifd0, idx) + 8) == Some(gps),
    ensures
        gps_stripped(d) matches Some(once) && ((byte_order(once) is None || (byte_order(once) == Some(le) && rd32(
            once,
            le,
            4,
        ) == Some(ifd0))) ==> gps_stripped(once) is None),
{
    lemma_find_some(d, le, ifd0, n, 0, idx);
    lemma_wipe_zero_only(d, le, gps);
    let d1 = wipe_gps_ifd(d, le, gps);
    let end = entry_at(ifd0, n) + 4;
    let dst = entry_at(ifd0, idx);
    let src = entry_at(ifd0, idx + 1);
    let m = moved(d1, dst, src, end - src);
    let z = zeroed(m, end - 12, 12);
    let d2 = drop_entry(d1, le, ifd0, n, idx);
    assert(d2 == put16(z, le, ifd0, n - 1));
    assert(gps_stripped(d) == Some(d2));
    assert(d2.len() == d.len());
    if byte_order(d2) == Some(le) && rd32(d2, le, 4) == Some(ifd0) {
        // The entry count is one less.
        let v = n - 1;
        assert(0 <= v < 65536);
        assert(v % 256 + 256 * (v / 256) == v);
        assert(rd16(d2, le, ifd0) == Some(v));
        assert(ifd_fits(d2, ifd0, v));
        // Entry i of the new table is entry i (before idx) or i + 1 (from idx
        // on) of the wiped one, whose bytes were only zeroed.
        assert forall|i: int| 0 <= i < v implies rd16(d2, le, entry_at(ifd0, i)) != Some(GPS_IFD_POINTER as int) by {
            let e = entry_at(ifd0, i);
            let f = if i < idx { e } else { entry_at(ifd0, i + 1) };
            assert(d2[e] == d1[f] && d2[e + 1] == d1[f + 1]);
            assert(rd16(d2, le, e) == rd16(d1, le, f));
            if rd16(d1, le, f) == Some(GPS_IFD_POINTER as int) {
                assert(d1[f] == d[f] || d1[f] == 0);
                assert(d1[f + 1] == d[f + 1] || d1[f + 1] == 0);
                lemma_zeroing_makes_no_gps_tag(d, d1, le, f);
                if i < idx {
                    lemma_find_none_before(d, le, ifd0, n, 0, idx, i);
                }
            }
        }
        lemma_find_none(d2, le, ifd0, v, 0);
    }
}

/// Location properties written as attributes: `name="value"` (or single quotes).
pub const XMP_LOCATION_ATTRIBUTES: &'static str = "\\s+(?:exif:GPS[A-Za-z]*|photoshop:(?:City|State|Country)|Iptc4xmpCore:Location)\\s*=\\s*(\"[^\"]*\"|'[^']*')";

/// Location properties written as elements, empty or with content (they
/// never nest).
pub const XMP_LOCATION_ELEMENTS: &'static str = "(?s)<(?:exif:GPS[A-Za-z]*|photoshop:(?:City|State|Country)|Iptc4xmpCore:Location)\\b[^>]*?(?:/>|>.*?</(?:exif:GPS[A-Za-z]*|photoshop:(?:City|State|Country)|Iptc4xmpCore:Location)\\s*>)";

/// What `regex::bytes::Regex::new(pattern)` and then `replace_all(hay, b"")`
/// give: `None` when the pattern does not compile, else `hay` with every
/// leftmost-first, non-overlapping match removed.
pub uninterp spec fn regex_deleted(pattern: Seq<char>, hay: Seq<u8>) -> Option<Seq<u8>>;

/// Compiles `pattern` with `regex::bytes::Regex::new` and deletes its matches
/// from `hay` with `Regex::replace_all` and an empty replacement. The contract
/// claims only that the result is the one function of `pattern` and `hay`
/// named by `regex_deleted`; what the regex engine matches is not stated.
#[verifier::external_body]
fn delete_matches(pattern: &str, hay: &[u8]) -> (r: Option<Vec<u8>>)
    ensures
        match r {
            Some(v) => regex_deleted(pattern@, hay@) == Some(v@),
            None => regex_deleted(pattern@, hay@) is None,
        },
{
    match regex::bytes::Regex::new(pattern) {
        Ok(re) => Some(re.replace_all(hay, &b""[..]).into_owned()),
        Err(_) => None,
    }
}

/// An XMP packet without its location properties: the attribute forms go
/// first, then the element forms. Should a pattern not compile, the packet
/// is kept as it was.
pub open spec fn xmp_without_location(xmp: Seq<u8>) -> Seq<u8> {
    match regex_deleted(XMP_LOCATION_ATTRIBUTES@, xmp) {
        Some(a) => match regex_deleted(XMP_LOCATION_ELEMENTS@, a) {
            Some(b) => b,
            None => xmp,
        },
        None => xmp,
    }
}

/// A copy of `b`.
pub(crate) fn bytes_copy(b: &[u8]) -> (r: Vec<u8>)
    ensures
        r@ == b@,
{
    let mut r: Vec<u8> = Vec::new();
    let mut i: usize = 0;
    while i < b.len()
        invariant
            i <= b@.len(),
            r@ == b@.take(i as int),
        decreases b.len() - i,
    {
        r.push(b[i]);
        i = i + 1;
        assert(r@ =~= b@.take(i as int));
    }
    assert(b@.take(b@.len() as int) =~= b@);
    r
}

/// Remove location properties from an XMP packet (attribute and element forms).
pub fn strip_xmp_location(xmp: &[u8]) -> (r: Vec<u8>)
    ensures
        r@ == xmp_without_location(xmp@),
{
    match delete_matches(XMP_LOCATION_ATTRIBUTES, xmp) {
        Some(a) => match delete_matches(XMP_LOCATION_ELEMENTS, a.as_slice()) {
            Some(b) => b,
            None => bytes_copy(xmp),
        },
        None => bytes_copy(xmp),
    }
}

} // verus!
