//! The PDF object model the optimiser decides on, and those decisions.
//!
//! A document is read by the application's PDF crate and handed over as plain
//! values: every indirect object with its id, each dictionary as its entries
//! in file order, each stream as its dictionary (the bytes are not looked at
//! here) and each real number only as "a real" (no decision here reads one).
//!
//! On that model this module decides which embedded images can be
//! re-compressed without changing their colours, which XObject names a page
//! can draw, what a decoded image must look like to be written back, whether
//! a re-encoded stream replaces the old one, and how ghostscript is asked to
//! render pages.

use vstd::prelude::*;

use crate::compression::{clamp, clamp_exec, prefixed_int, str_vec_push, string_vec_push, views};
use crate::paths::{join, path_file_stem, path_join};
use crate::privacy::bytes_copy;
use crate::result::{file_stem_lossy, name_or_file};
use crate::text::{chars_eq, int_text, lower, push_str, string_of, to_lower};

verus! {

/// An indirect object's number and generation.
pub type ObjectId = (u32, u16);

/// A PDF object, as far as the decisions here read one.
pub enum PdfObject {
    Null,
    Boolean(bool),
    Integer(i64),
    /// A real number; its value is never read by this module.
    Real,
    Name(Vec<u8>),
    /// A string object's bytes.
    Text(Vec<u8>),
    Array(Vec<PdfObject>),
    Dictionary(PdfDict),
    /// A stream, by its dictionary.
    Stream(PdfDict),
    Reference(ObjectId),
}

/// A dictionary: its entries in file order.
pub struct PdfDict {
    pub entries: Vec<(Vec<u8>, PdfObject)>,
}

/// A document: its indirect objects with their ids.
pub struct PdfDocument {
    pub objects: Vec<(ObjectId, PdfObject)>,
}

/// The bytes of an ASCII name.
pub open spec fn ascii(s: Seq<char>) -> Seq<u8> {
    s.map_values(|c: char| c as u8)
}

/// The value of an optional reference.
pub open spec fn deref_opt<T>(r: Option<&T>) -> Option<T> {
    match r {
        Some(x) => Some(*x),
        None => None,
    }
}

/// The value of the first entry named `key`.
pub open spec fn entry_of(es: Seq<(Vec<u8>, PdfObject)>, key: Seq<u8>) -> Option<PdfObject>
    decreases es.len(),
{
    if es.len() == 0 {
        None
    } else if es[0].0@ == key {
        Some(es[0].1)
    } else {
        entry_of(es.drop_first(), key)
    }
}

/// The first object with id `id`.
pub open spec fn object_of(os: Seq<(ObjectId, PdfObject)>, id: ObjectId) -> Option<PdfObject>
    decreases os.len(),
{
    if os.len() == 0 {
        None
    } else if os[0].0 == id {
        Some(os[0].1)
    } else {
        object_of(os.drop_first(), id)
    }
}

/// Most references followed in a chain before giving up.
pub const DEREF_LIMIT: usize = 128;

/// `o` with references followed (`n` of them already): `None` when one
/// dangles or more than [`DEREF_LIMIT`] are chained.
pub open spec fn follow(os: Seq<(ObjectId, PdfObject)>, o: PdfObject, n: nat) -> Option<PdfObject>
    decreases DEREF_LIMIT - n,
{
    match o {
        PdfObject::Reference(id) => match object_of(os, id) {
            None => None,
            Some(x) => if n + 1 > DEREF_LIMIT {
                None
            } else {
                follow(os, x, n + 1)
            },
        },
        _ => Some(o),
    }
}

/// Does `n` bytes equal the ASCII name `s`?
pub fn name_is(n: &[u8], s: &str) -> (r: bool)
    ensures
        r == (n@ == ascii(s@)),
{
    let len = s.unicode_len();
    if n.len() != len {
        return false;
    }
    let mut i: usize = 0;
    while i < len
        invariant
            len == s@.len(),
            n@.len() == len,
            i <= len,
            forall|k: int| 0 <= k < i ==> n@[k] == ascii(s@)[k],
        decreases len - i,
    {
        let c = s.get_char(i);
        if n[i] != c as u8 {
            assert(n@[i as int] != ascii(s@)[i as int]);
            return false;
        }
        i = i + 1;
    }
    assert(n@ =~= ascii(s@));
    true
}

impl PdfDict {
    /// The value stored under `key`.
    pub open spec fn get_of(self, key: Seq<u8>) -> Option<PdfObject> {
        entry_of(self.entries@, key)
    }

    /// The value stored under the name `key` (`Dictionary::get`).
    pub fn get(&self, key: &str) -> (r: Option<&PdfObject>)
        ensures
            deref_opt(r) == self.get_of(ascii(key@)),
    {
        let ghost k = ascii(key@);
        let ghost es = self.entries@;
        let mut i: usize = 0;
        assert(es.skip(0) =~= es);
        while i < self.entries.len()
            invariant
                es == self.entries@,
                k == ascii(key@),
                i <= es.len(),
                entry_of(es, k) == entry_of(es.skip(i as int), k),
            decreases es.len() - i,
        {
            assert(es.skip(i as int).drop_first() =~= es.skip(i + 1));
            assert(es.skip(i as int)[0] == es[i as int]);
            let name = self.entries[i].0.as_slice();
            assert(name@ == es[i as int].0@);
            let hit = name_is(name, key);
            if hit {
                return Some(&self.entries[i].1);
            }
            i = i + 1;
        }
        None
    }

    /// Whether the name `key` has an entry (`Dictionary::has`).
    pub fn has(&self, key: &str) -> (r: bool)
        ensures
            r == self.get_of(ascii(key@)) is Some,
    {
        self.get(key).is_some()
    }
}

impl PdfDocument {
    /// The object stored under `id`, before references are followed.
    pub open spec fn lookup_of(self, id: ObjectId) -> Option<PdfObject> {
        object_of(self.objects@, id)
    }

    /// The object `id` names, references followed (`Document::get_object`).
    pub open spec fn get_object_of(self, id: ObjectId) -> Option<PdfObject> {
        match self.lookup_of(id) {
            None => None,
            Some(o) => follow(self.objects@, o, 0),
        }
    }

    /// `o` itself, or what it refers to when it is a reference.
    pub open spec fn resolve_of(self, o: PdfObject) -> Option<PdfObject> {
        match o {
            PdfObject::Reference(id) => self.get_object_of(id),
            _ => Some(o),
        }
    }

    /// The dictionary `id` names (`Document::get_dictionary`).
    pub open spec fn get_dictionary_of(self, id: ObjectId) -> Option<PdfDict> {
        match self.get_object_of(id) {
            Some(PdfObject::Dictionary(d)) => Some(d),
            _ => None,
        }
    }

    /// The object stored under `id`.
    pub fn lookup(&self, id: ObjectId) -> (r: Option<&PdfObject>)
        ensures
            deref_opt(r) == self.lookup_of(id),
    {
        let ghost os = self.objects@;
        let mut i: usize = 0;
        assert(os.skip(0) =~= os);
        while i < self.objects.len()
            invariant
                os == self.objects@,
                i <= os.len(),
                object_of(os, id) == object_of(os.skip(i as int), id),
            decreases os.len() - i,
        {
            assert(os.skip(i as int).drop_first() =~= os.skip(i + 1));
            assert(os.skip(i as int)[0] == os[i as int]);
            let oid = self.objects[i].0;
            if oid.0 == id.0 && oid.1 == id.1 {
                return Some(&self.objects[i].1);
            }
            i = i + 1;
        }
        None
    }

    /// The object `id` names, references followed.
    pub fn get_object(&self, id: ObjectId) -> (r: Option<&PdfObject>)
        ensures
            deref_opt(r) == self.get_object_of(id),
    {
        let mut cur: &PdfObject = match self.lookup(id) {
            None => return None,
            Some(o) => o,
        };
        let mut n: usize = 0;
        loop
            invariant
                n <= DEREF_LIMIT,
                self.get_object_of(id) == follow(self.objects@, *cur, n as nat),
            decreases DEREF_LIMIT - n,
        {
            match cur {
                PdfObject::Reference(next) => {
                    match self.lookup(*next) {
                        None => return None,
                        Some(x) => {
                            if n + 1 > DEREF_LIMIT {
                                return None;
                            }
                            n = n + 1;
                            cur = x;
                        },
                    }
                },
                _ => return Some(cur),
            }
        }
    }

    /// `o` itself, or what it refers to.
    pub fn resolve<'a>(&'a self, o: &'a PdfObject) -> (r: Option<&'a PdfObject>)
        ensures
            deref_opt(r) == self.resolve_of(*o),
    {
        match o {
            PdfObject::Reference(id) => self.get_object(*id),
            _ => Some(o),
        }
    }

    /// The dictionary `id` names.
    pub fn get_dictionary(&self, id: ObjectId) -> (r: Option<&PdfDict>)
        ensures
            deref_opt(r) == self.get_dictionary_of(id),
    {
        match self.get_object(id) {
            Some(PdfObject::Dictionary(d)) => Some(d),
            _ => None,
        }
    }
}

/// Is `o` the name `s`?
pub open spec fn is_name(o: PdfObject, s: Seq<char>) -> bool {
    o matches PdfObject::Name(n) && n@ == ascii(s)
}

/// A `/Filter` that is `DCTDecode` alone: the name, or an array holding
/// only it.
pub open spec fn plain_dct(f: PdfObject) -> bool {
    match f {
        PdfObject::Name(n) => n@ == ascii("DCTDecode"@),
        PdfObject::Array(a) => a@.len() == 1 && is_name(a@[0], "DCTDecode"@),
        _ => false,
    }
}

/// The component count of an ICC profile stream `o` refers to, when it is
/// 1 or 3.
pub open spec fn icc_channels(doc: PdfDocument, o: PdfObject) -> Option<u8> {
    match doc.resolve_of(o) {
        Some(PdfObject::Stream(d)) => match d.get_of(ascii("N"@)) {
            Some(PdfObject::Integer(n)) => if n == 1 {
                Some(1u8)
            } else if n == 3 {
                Some(3u8)
            } else {
                None
            },
            _ => None,
        },
        _ => None,
    }
}

/// The channel count of a colour space a JPEG decoder reproduces exactly:
/// DeviceRGB (3), DeviceGray (1), or an ICCBased space of 1 or 3
/// components.
pub open spec fn colour_channels_of(doc: PdfDocument, cs: PdfObject) -> Option<u8> {
    match doc.resolve_of(cs) {
        Some(PdfObject::Name(n)) => if n@ == ascii("DeviceRGB"@) {
            Some(3u8)
        } else if n@ == ascii("DeviceGray"@) {
            Some(1u8)
        } else {
            None
        },
        Some(PdfObject::Array(a)) => if a@.len() == 2 && is_name(a@[0], "ICCBased"@) {
            icc_channels(doc, a@[1])
        } else {
            None
        },
        _ => None,
    }
}

/// Whether `/BitsPerComponent` is absent or 8.
pub open spec fn eight_bit(b: Option<PdfObject>) -> bool {
    match b {
        None => true,
        Some(PdfObject::Integer(v)) => v == 8,
        _ => false,
    }
}

/// The channel count of an image XObject dictionary whose JPEG data can be
/// decoded and re-encoded without changing its colours: subtype Image, a
/// plain DCTDecode filter, no /Decode or /DecodeParms, 8 bits per
/// component, and a colour space of 1 or 3 channels the decoder keeps.
pub open spec fn recompressible_of(doc: PdfDocument, dict: PdfDict) -> Option<u8> {
    if !(dict.get_of(ascii("Subtype"@)) matches Some(s) && is_name(s, "Image"@)) {
        None
    } else {
        match dict.get_of(ascii("Filter"@)) {
            None => None,
            Some(f) => if !plain_dct(f) || dict.get_of(ascii("Decode"@)) is Some || dict.get_of(
                ascii("DecodeParms"@),
            ) is Some {
                None
            } else if !eight_bit(dict.get_of(ascii("BitsPerComponent"@))) {
                None
            } else {
                match dict.get_of(ascii("ColorSpace"@)) {
                    None => None,
                    Some(cs) => colour_channels_of(doc, cs),
                }
            },
        }
    }
}

/// The channel count of the colour space `cs`, if a JPEG re-encode keeps it.
pub fn colour_channels(doc: &PdfDocument, cs: &PdfObject) -> (r: Option<u8>)
    ensures
        r == colour_channels_of(*doc, *cs),
{
    match doc.resolve(cs) {
        Some(PdfObject::Name(n)) => {
            if name_is(n.as_slice(), "DeviceRGB") {
                Some(3)
            } else if name_is(n.as_slice(), "DeviceGray") {
                Some(1)
            } else {
                None
            }
        },
        Some(PdfObject::Array(a)) => {
            if a.len() == 2 {
                let icc = match &a[0] {
                    PdfObject::Name(n) => name_is(n.as_slice(), "ICCBased"),
                    _ => false,
                };
                if !icc {
                    return None;
                }
                match doc.resolve(&a[1]) {
                    Some(PdfObject::Stream(d)) => match d.get("N") {
                        Some(PdfObject::Integer(n)) => {
                            if *n == 1 {
                                Some(1)
                            } else if *n == 3 {
                                Some(3)
                            } else {
                                None
                            }
                        },
                        _ => None,
                    },
                    _ => None,
                }
            } else {
                None
            }
        },
        _ => None,
    }
}

/// If `dict` is a JPEG image XObject that can be decoded and re-encoded
/// without changing its colours, its number of colour channels (1 or 3).
pub fn recompressible_channels(doc: &PdfDocument, dict: &PdfDict) -> (r: Option<u8>)
    ensures
        r == recompressible_of(*doc, *dict),
{
    let image = match dict.get("Subtype") {
        Some(PdfObject::Name(n)) => name_is(n.as_slice(), "Image"),
        _ => false,
    };
    if !image {
        return None;
    }
    let plain = match dict.get("Filter") {
        None => return None,
        Some(PdfObject::Name(n)) => name_is(n.as_slice(), "DCTDecode"),
        Some(PdfObject::Array(a)) => {
            if a.len() == 1 {
                match &a[0] {
                    PdfObject::Name(n) => name_is(n.as_slice(), "DCTDecode"),
                    _ => false,
                }
            } else {
                false
            }
        },
        Some(_) => false,
    };
    if !plain || dict.has("Decode") || dict.has("DecodeParms") {
        return None;
    }
    let bits = match dict.get("BitsPerComponent") {
        None => true,
        Some(PdfObject::Integer(b)) => *b == 8,
        Some(_) => false,
    };
    if !bits {
        return None;
    }
    match dict.get("ColorSpace") {
        None => None,
        Some(cs) => colour_channels(doc, cs),
    }
}

/// The streams among `os` whose images can be re-compressed, with their
/// channel counts, in order.
pub open spec fn targets_of(doc: PdfDocument, os: Seq<(ObjectId, PdfObject)>) -> Seq<(ObjectId, u8)>
    decreases os.len(),
{
    if os.len() == 0 {
        seq![]
    } else {
        let rest = targets_of(doc, os.drop_last());
        match os.last().1 {
            PdfObject::Stream(d) => match recompressible_of(doc, d) {
                Some(c) => rest.push((os.last().0, c)),
                None => rest,
            },
            _ => rest,
        }
    }
}

/// Every stream object of `doc` whose JPEG image can be re-compressed
/// without changing its colours, with its channel count, in object order.
pub fn recompressible_targets(doc: &PdfDocument) -> (r: Vec<(ObjectId, u8)>)
    ensures
        r@ == targets_of(*doc, doc.objects@),
{
    let ghost os = doc.objects@;
    let mut out: Vec<(ObjectId, u8)> = Vec::new();
    let mut i: usize = 0;
    while i < doc.objects.len()
        invariant
            os == doc.objects@,
            i <= os.len(),
            out@ == targets_of(*doc, os.take(i as int)),
        decreases os.len() - i,
    {
        assert(os.take(i + 1).drop_last() =~= os.take(i as int));
        assert(os.take(i + 1).last() == os[i as int]);
        match &doc.objects[i].1 {
            PdfObject::Stream(d) => {
                match recompressible_channels(doc, d) {
                    Some(c) => out.push((doc.objects[i].0, c)),
                    None => {},
                }
            },
            _ => {},
        }
        i = i + 1;
    }
    assert(os.take(os.len() as int) =~= os);
    out
}

/// Names paired with object ids, names by their bytes.
pub open spec fn name_views(v: Seq<(Vec<u8>, ObjectId)>) -> Seq<(Seq<u8>, ObjectId)> {
    v.map_values(|p: (Vec<u8>, ObjectId)| (p.0@, p.1))
}

/// Whether `acc` already pairs the name `n` with an id.
pub open spec fn has_name(acc: Seq<(Seq<u8>, ObjectId)>, n: Seq<u8>) -> bool {
    exists|i: int| 0 <= i < acc.len() && acc[i].0 == n
}

/// The entries of a resource dictionary's `/XObject` dictionary, given
/// inline or by reference (none when it is neither).
pub open spec fn xobjects_of(doc: PdfDocument, res: PdfDict) -> Seq<(Vec<u8>, PdfObject)> {
    match res.get_of(ascii("XObject"@)) {
        Some(PdfObject::Dictionary(d)) => d.entries@,
        Some(PdfObject::Reference(id)) => match doc.get_dictionary_of(id) {
            Some(d) => d.entries@,
            None => seq![],
        },
        _ => seq![],
    }
}

/// `acc` extended, entry by entry, with each reference in `es` under a name
/// not yet taken.
pub open spec fn add_refs(acc: Seq<(Seq<u8>, ObjectId)>, es: Seq<(Vec<u8>, PdfObject)>) -> Seq<(Seq<u8>, ObjectId)>
    decreases es.len(),
{
    if es.len() == 0 {
        acc
    } else {
        let next = match es[0].1 {
            PdfObject::Reference(id) => if has_name(acc, es[0].0@) {
                acc
            } else {
                acc.push((es[0].0@, id))
            },
            _ => acc,
        };
        add_refs(next, es.drop_first())
    }
}

/// The dictionaries among the objects `ids` name, in order.
pub open spec fn listed_dicts(doc: PdfDocument, ids: Seq<ObjectId>) -> Seq<PdfDict>
    decreases ids.len(),
{
    if ids.len() == 0 {
        seq![]
    } else {
        match doc.get_dictionary_of(ids[0]) {
            Some(d) => seq![d] + listed_dicts(doc, ids.drop_first()),
            None => listed_dicts(doc, ids.drop_first()),
        }
    }
}

/// `acc` extended with the XObjects of each resource dictionary in turn.
pub open spec fn names_over(doc: PdfDocument, acc: Seq<(Seq<u8>, ObjectId)>, dicts: Seq<PdfDict>) -> Seq<(Seq<u8>, ObjectId)>
    decreases dicts.len(),
{
    if dicts.len() == 0 {
        acc
    } else {
        names_over(doc, add_refs(acc, xobjects_of(doc, dicts[0])), dicts.drop_first())
    }
}

/// A page's XObject names and the objects they refer to: from its own
/// resource dictionary `inline` first, then from the resource dictionaries
/// `ids` it inherits; the first id a name is given wins.
pub open spec fn xobject_names_of(doc: PdfDocument, inline: Option<PdfDict>, ids: Seq<ObjectId>) -> Seq<(Seq<u8>, ObjectId)> {
    let start = match inline {
        Some(d) => add_refs(seq![], xobjects_of(doc, d)),
        None => seq![],
    };
    names_over(doc, start, listed_dicts(doc, ids))
}

/// Whether `names` already gives the name `n` an id.
fn find_name(names: &Vec<(Vec<u8>, ObjectId)>, n: &Vec<u8>) -> (r: bool)
    ensures
        r == has_name(name_views(names@), n@),
{
    let ghost nv = name_views(names@);
    let mut i: usize = 0;
    while i < names.len()
        invariant
            nv == name_views(names@),
            i <= names@.len(),
            forall|k: int| 0 <= k < i ==> nv[k].0 != n@,
        decreases names@.len() - i,
    {
        if bytes_equal(names[i].0.as_slice(), n.as_slice()) {
            assert(nv[i as int].0 == n@);
            return true;
        }
        i = i + 1;
    }
    false
}

/// Whether two byte strings are equal.
fn bytes_equal(a: &[u8], b: &[u8]) -> (r: bool)
    ensures
        r == (a@ == b@),
{
    if a.len() != b.len() {
        return false;
    }
    let mut i: usize = 0;
    while i < a.len()
        invariant
            a@.len() == b@.len(),
            i <= a@.len(),
            forall|k: int| 0 <= k < i ==> a@[k] == b@[k],
        decreases a@.len() - i,
    {
        if a[i] != b[i] {
            return false;
        }
        i = i + 1;
    }
    assert(a@ =~= b@);
    true
}

/// Add the XObject references of the resource dictionary `res` to `names`.
fn add_xobjects(doc: &PdfDocument, res: &PdfDict, names: &mut Vec<(Vec<u8>, ObjectId)>)
    ensures
        name_views(final(names)@) == add_refs(name_views(old(names)@), xobjects_of(*doc, *res)),
{
    let xobjects: Option<&PdfDict> = match res.get("XObject") {
        Some(PdfObject::Dictionary(d)) => Some(d),
        Some(PdfObject::Reference(id)) => doc.get_dictionary(*id),
        _ => None,
    };
    let d = match xobjects {
        Some(d) => d,
        None => {
            assert(xobjects_of(*doc, *res) =~= seq![]);
            return;
        },
    };
    let ghost es = d.entries@;
    assert(es == xobjects_of(*doc, *res));
    let ghost target = add_refs(name_views(names@), es);
    let mut j: usize = 0;
    assert(es.skip(0) =~= es);
    while j < d.entries.len()
        invariant
            es == d.entries@,
            j <= es.len(),
            add_refs(name_views(names@), es.skip(j as int)) == target,
        decreases es.len() - j,
    {
        let ghost before = name_views(names@);
        assert(es.skip(j as int).drop_first() =~= es.skip(j + 1));
        assert(es.skip(j as int)[0] == es[j as int]);
        match &d.entries[j].1 {
            PdfObject::Reference(id) => {
                if !find_name(names, &d.entries[j].0) {
                    let n = bytes_copy(d.entries[j].0.as_slice());
                    names.push((n, *id));
                    assert(name_views(names@) =~= before.push((es[j as int].0@, *id)));
                }
            },
            _ => {},
        }
        j = j + 1;
    }
    assert(es.skip(es.len() as int) =~= seq![]);
}

/// The XObject names a page can draw and the objects they refer to. `inline`
/// is the page's own `/Resources` dictionary, when written inline, and
/// `resource_ids` the resource dictionaries it refers to or inherits
/// (`Document::get_page_resources`); the first id a name is given wins.
pub fn xobject_names(doc: &PdfDocument, inline: Option<&PdfDict>, resource_ids: &[ObjectId]) -> (r: Vec<(Vec<u8>, ObjectId)>)
    ensures
        name_views(r@) == xobject_names_of(*doc, deref_opt(inline), resource_ids@),
{
    let mut names: Vec<(Vec<u8>, ObjectId)> = Vec::new();
    assert(name_views(names@) =~= seq![]);
    match inline {
        Some(d) => add_xobjects(doc, d, &mut names),
        None => {},
    }
    let ghost ids = resource_ids@;
    let ghost target = xobject_names_of(*doc, deref_opt(inline), ids);
    let mut i: usize = 0;
    assert(ids.skip(0) =~= ids);
    while i < resource_ids.len()
        invariant
            ids == resource_ids@,
            i <= ids.len(),
            names_over(*doc, name_views(names@), listed_dicts(*doc, ids.skip(i as int))) == target,
        decreases ids.len() - i,
    {
        assert(ids.skip(i as int).drop_first() =~= ids.skip(i + 1));
        assert(ids.skip(i as int)[0] == ids[i as int]);
        match doc.get_dictionary(resource_ids[i]) {
            Some(d) => {
                let ghost rest = listed_dicts(*doc, ids.skip(i + 1));
                assert((seq![*d] + rest).drop_first() =~= rest);
                add_xobjects(doc, d, &mut names);
            },
            None => {},
        }
        i = i + 1;
    }
    assert(ids.skip(ids.len() as int) =~= seq![]);
    names
}

/// A decoded embedded image, by pixel layout.
pub enum Decoded {
    /// One byte per pixel.
    Gray(Vec<u8>),
    /// Three bytes per pixel, red, green, blue.
    Rgb(Vec<u8>),
    /// Any other layout the decoder produced.
    Other,
}

/// Whether every RGB pixel of `rgb` has equal channels.
pub open spec fn all_gray(rgb: Seq<u8>) -> bool {
    forall|p: int| 0 <= p < rgb.len() / 3 ==> #[trigger] rgb[3 * p] == rgb[3 * p + 1] && rgb[3 * p + 1] == rgb[3 * p + 2]
}

/// The first channel of each RGB pixel of `rgb`.
pub open spec fn gray_plane(rgb: Seq<u8>) -> Seq<u8> {
    Seq::new(rgb.len() / 3, |p: int| rgb[3 * p])
}

/// Gray pixels of `rgb` if every pixel is gray.
fn gray_of(rgb: &Vec<u8>) -> (r: Option<Vec<u8>>)
    ensures
        match r {
            Some(g) => all_gray(rgb@) && g@ == gray_plane(rgb@),
            None => !all_gray(rgb@),
        },
{
    let len = rgb.len();
    let n = len / 3;
    let mut g: Vec<u8> = Vec::new();
    let mut p: usize = 0;
    while p < n
        invariant
            len == rgb@.len(),
            n == rgb@.len() / 3,
            p <= n,
            g@ == gray_plane(rgb@).take(p as int),
            forall|q: int| 0 <= q < p ==> #[trigger] rgb@[3 * q] == rgb@[3 * q + 1] && rgb@[3 * q + 1] == rgb@[3 * q + 2],
        decreases n - p,
    {
        assert(3 * p + 2 < rgb@.len()) by (nonlinear_arith)
            requires
                p < n,
                n == rgb@.len() / 3,
        ;
        let i0: usize = 3 * p;
        let (a, b, c) = (rgb[i0], rgb[i0 + 1], rgb[i0 + 2]);
        if a != b || b != c {
            assert(!(rgb@[3 * (p as int)] == rgb@[3 * (p as int) + 1] && rgb@[3 * (p as int) + 1] == rgb@[3 * (p as int) + 2]));
            return None;
        }
        g.push(a);
        p = p + 1;
        assert(g@ =~= gray_plane(rgb@).take(p as int));
    }
    assert(gray_plane(rgb@).take(n as int) =~= gray_plane(rgb@));
    Some(g)
}

/// The image to write back for a stream declaring `channels` colour
/// channels, given what the decoder produced: a gray image as it is for one
/// channel, an RGB image as it is for three, an RGB image whose pixels are
/// all gray as its gray plane for one; anything else is left alone (`None`).
pub fn keep_declared(channels: u8, img: Decoded) -> (r: Option<Decoded>)
    ensures
        match img {
            Decoded::Gray(g) => if channels == 1 {
                r matches Some(Decoded::Gray(h)) && h@ == g@
            } else {
                r is None
            },
            Decoded::Rgb(v) => if channels == 1 && all_gray(v@) {
                r matches Some(Decoded::Gray(h)) && h@ == gray_plane(v@)
            } else if channels == 3 {
                r matches Some(Decoded::Rgb(h)) && h@ == v@
            } else {
                r is None
            },
            Decoded::Other => r is None,
        },
{
    match img {
        Decoded::Gray(g) => {
            if channels == 1 {
                Some(Decoded::Gray(g))
            } else {
                None
            }
        },
        Decoded::Rgb(v) => {
            if channels == 1 {
                match gray_of(&v) {
                    Some(g) => Some(Decoded::Gray(g)),
                    None => None,
                }
            } else if channels == 3 {
                Some(Decoded::Rgb(v))
            } else {
                None
            }
        },
        Decoded::Other => None,
    }
}

/// Whether a re-encoded image replaces the stream's bytes: only when it
/// encoded to something, and then always if it was downsampled, otherwise
/// only if smaller than before.
pub fn replaces_stream(encoded: bool, new_len: usize, resized: bool, old_len: usize) -> (r: bool)
    ensures
        r == (encoded && new_len > 0 && (resized || new_len < old_len)),
{
    encoded && new_len > 0 && (resized || new_len < old_len)
}

/// Ghostscript's device and the file extension for a page image format:
/// JPEG for `jpeg`/`jpg` (any case), 24-bit PNG otherwise.
pub open spec fn render_device_of(format: Seq<char>) -> (Seq<char>, Seq<char>) {
    if lower(format) == "jpeg"@ || lower(format) == "jpg"@ {
        ("jpeg"@, "jpg"@)
    } else {
        ("png16m"@, "png"@)
    }
}

/// Where the page images of `src` go: `<stem>-%03d.<ext>` in `out_dir`.
pub open spec fn render_pattern_of(src: Seq<char>, out_dir: Seq<char>, format: Seq<char>) -> Seq<char> {
    path_join(out_dir, name_or_file(path_file_stem(src)) + "-%03d."@ + render_device_of(format).1)
}

/// The ghostscript arguments that render every page of `src` as an image at
/// `dpi` (clamped to 36..=600) into `out_dir`.
pub open spec fn render_args_of(src: Seq<char>, out_dir: Seq<char>, format: Seq<char>, dpi: int) -> Seq<Seq<char>> {
    seq![
        "-dNOPAUSE"@,
        "-dBATCH"@,
        "-dSAFER"@,
        "-dQUIET"@,
        "-sDEVICE="@ + render_device_of(format).0,
        "-r"@ + int_text(clamp(dpi, 36, 600)),
        "-sOutputFile="@ + render_pattern_of(src, out_dir, format),
        src,
    ]
}

/// The ghostscript arguments that render each page of the PDF `src` as a
/// `format` image (`png` or `jpeg`) at `dpi` into `out_dir`, and the
/// extension the images get.
pub fn page_render_args(src: &str, out_dir: &str, format: &str, dpi: i32) -> (r: (Vec<String>, &'static str))
    ensures
        views(r.0@) == render_args_of(src@, out_dir@, format@, dpi as int),
        r.1@ == render_device_of(format@).1,
{
    let f = to_lower(format);
    let jpeg = chars_eq(&f, "jpeg") || chars_eq(&f, "jpg");
    let (device, ext): (&'static str, &'static str) = if jpeg {
        ("jpeg", "jpg")
    } else {
        ("png16m", "png")
    };
    proof {
        reveal_strlit("jpeg");
        reveal_strlit("jpg");
        reveal_strlit("png16m");
        reveal_strlit("png");
    }
    assert(device@ == render_device_of(format@).0 && ext@ == render_device_of(format@).1);
    let stem = file_stem_lossy(src);
    let mut name: Vec<char> = Vec::new();
    push_str(&mut name, stem.as_str());
    push_str(&mut name, "-%03d.");
    push_str(&mut name, ext);
    let name = string_of(name);
    let pattern = join(out_dir, name.as_str());
    let mut out_file: Vec<char> = Vec::new();
    push_str(&mut out_file, "-sOutputFile=");
    push_str(&mut out_file, pattern.as_str());
    let mut dev: Vec<char> = Vec::new();
    push_str(&mut dev, "-sDEVICE=");
    push_str(&mut dev, device);
    let mut args: Vec<String> = Vec::new();
    str_vec_push(&mut args, "-dNOPAUSE");
    str_vec_push(&mut args, "-dBATCH");
    str_vec_push(&mut args, "-dSAFER");
    str_vec_push(&mut args, "-dQUIET");
    string_vec_push(&mut args, string_of(dev));
    string_vec_push(&mut args, prefixed_int("-r", clamp_exec(dpi as i64, 36, 600)));
    string_vec_push(&mut args, string_of(out_file));
    str_vec_push(&mut args, src);
    assert(views(args@) =~= render_args_of(src@, out_dir@, format@, dpi as int));
    (args, ext)
}

/// An image judged re-compressible has one or three colour channels.
pub proof fn lemma_channels_one_or_three(doc: PdfDocument, dict: PdfDict)
    ensures
        recompressible_of(doc, dict) matches Some(c) ==> c == 1 || c == 3,
{
}

/// An image in a colour space named anything but DeviceRGB or DeviceGray
/// (DeviceCMYK, CalRGB, Pattern, ...) is never re-compressed.
pub proof fn lemma_other_named_spaces_untouched(doc: PdfDocument, dict: PdfDict, cs: PdfObject)
    requires
        dict.get_of(ascii("ColorSpace"@)) == Some(cs),
        doc.resolve_of(cs) matches Some(PdfObject::Name(n)) && n@ != ascii("DeviceRGB"@) && n@ != ascii("DeviceGray"@),
    ensures
        recompressible_of(doc, dict) is None,
{
}

/// An image in an array colour space other than `[/ICCBased profile]`
/// (Indexed, Separation, DeviceN, Lab, ...) is never re-compressed.
pub proof fn lemma_other_array_spaces_untouched(doc: PdfDocument, dict: PdfDict, cs: PdfObject)
    requires
        dict.get_of(ascii("ColorSpace"@)) == Some(cs),
        doc.resolve_of(cs) matches Some(PdfObject::Array(a)) && !(a@.len() == 2 && is_name(a@[0], "ICCBased"@)),
    ensures
        recompressible_of(doc, dict) is None,
{
}


/// No name occurs twice.
pub open spec fn names_unique(acc: Seq<(Seq<u8>, ObjectId)>) -> bool {
    forall|i: int, j: int| 0 <= i < j < acc.len() ==> acc[i].0 != acc[j].0
}

proof fn lemma_add_refs_unique(acc: Seq<(Seq<u8>, ObjectId)>, es: Seq<(Vec<u8>, PdfObject)>)
    requires
        names_unique(acc),
    ensures
        names_unique(add_refs(acc, es)),
    decreases es.len(),
{
    if es.len() > 0 {
        let next = match es[0].1 {
            PdfObject::Reference(id) => if has_name(acc, es[0].0@) {
                acc
            } else {
                acc.push((es[0].0@, id))
            },
            _ => acc,
        };
        assert(names_unique(next)) by {
            if next.len() > acc.len() {
                assert forall|i: int, j: int| 0 <= i < j < next.len() implies next[i].0 != next[j].0 by {
                    if j == acc.len() {
                        assert(!has_name(acc, es[0].0@));
                        assert(next[i] == acc[i]);
                    }
                }
            }
        }
        lemma_add_refs_unique(next, es.drop_first());
    }
}

proof fn lemma_names_over_unique(doc: PdfDocument, acc: Seq<(Seq<u8>, ObjectId)>, dicts: Seq<PdfDict>)
    requires
        names_unique(acc),
    ensures
        names_unique(names_over(doc, acc, dicts)),
    decreases dicts.len(),
{
    if dicts.len() > 0 {
        lemma_add_refs_unique(acc, xobjects_of(doc, dicts[0]));
        lemma_names_over_unique(doc, add_refs(acc, xobjects_of(doc, dicts[0])), dicts.drop_first());
    }
}

/// A page's XObject names are a map: no name is given two objects.
pub proof fn lemma_xobject_names_unique(doc: PdfDocument, inline: Option<PdfDict>, ids: Seq<ObjectId>)
    ensures
        names_unique(xobject_names_of(doc, inline, ids)),
{
    let empty = Seq::<(Seq<u8>, ObjectId)>::empty();
    let start = match inline {
        Some(d) => add_refs(empty, xobjects_of(doc, d)),
        None => empty,
    };
    if let Some(d) = inline {
        lemma_add_refs_unique(empty, xobjects_of(doc, d));
    }
    lemma_names_over_unique(doc, start, listed_dicts(doc, ids));
}

} // verus!
