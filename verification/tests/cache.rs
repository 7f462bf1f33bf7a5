use xpress_core::cache::{usable_mark, Fingerprint, Mark};
use xpress_core::compression::CompressionQuality;
use xpress_core::result::OptimiseOptions;

#[test]
fn mark_roundtrip() {
    let m = Mark {
        factor: 64,
        strip: true,
        dpi: 150,
        len: 12345,
        crc: 0xdead_beef,
    };
    assert_eq!(Mark::decode(&m.encode()), Some(m));
    assert_eq!(Mark::decode("v0 junk"), None);
}

#[test]
fn covers_only_equal_or_gentler_requests() {
    let m = Mark {
        factor: 50,
        strip: false,
        dpi: 0,
        len: 1,
        crc: 1,
    };
    assert!(m.covers(30, false, None), "already compressed harder");
    assert!(m.covers(50, false, None));
    assert!(!m.covers(64, false, None), "asked for more compression");
    assert!(!m.covers(30, true, None), "asked to strip metadata");
    assert!(!m.covers(30, false, Some(150)), "asked to downsample");
    let d = Mark { dpi: 144, ..m };
    assert!(d.covers(30, false, Some(150)));
    assert!(!d.covers(30, false, Some(96)));
}

#[test]
fn marker_text_is_exact() {
    let m = Mark {
        factor: -3,
        strip: false,
        dpi: 0,
        len: 0,
        crc: 0xab,
    };
    assert_eq!(m.encode(), "v1 f=-3 s=0 d=0 len=0 crc=000000ab");
}

#[test]
fn decoding_reads_numbers_as_parse_does() {
    let m = Mark::decode("  v1\tf=+7 s=yes d=-2 len=+10 crc=DEADBEEF extra").unwrap();
    assert_eq!(
        m,
        Mark {
            factor: 7,
            strip: false,
            dpi: -2,
            len: 10,
            crc: 0xdead_beef
        }
    );
    assert_eq!(Mark::decode("v1 f=1 s=1 d=0 len=1"), None, "crc missing");
    assert_eq!(Mark::decode("v1 f=1 s=1 d=0 len=1 crc=100000000"), None, "crc too wide");
    assert_eq!(Mark::decode("v1 x=1 s=1 d=0 len=1 crc=1"), None, "wrong key");
    assert_eq!(Mark::decode(""), None);
}

#[test]
fn usable_marks_cover_the_request() {
    let mut o = OptimiseOptions::default();
    o.compression = CompressionQuality::factor(40);
    let text = Mark {
        factor: 50,
        strip: false,
        dpi: 0,
        len: 5,
        crc: 9,
    }
    .encode();
    assert!(usable_mark(&text, &o, None).is_some());
    o.strip_metadata = true;
    assert!(usable_mark(&text, &o, None).is_none());
    assert!(usable_mark("garbage", &OptimiseOptions::default(), None).is_none());
}

#[test]
fn fingerprint_follows_the_content() {
    let mut a = Fingerprint::new();
    a.update(b"hello ");
    a.update(b"world");
    assert_eq!(a.len, 11);
    assert_eq!(a.crc, 0x0d4a_1185, "crc32 of 'hello world'");
    let mut b = Fingerprint::new();
    b.update(b"hello world");
    assert_eq!(a, b);
    let m = Mark::new(&OptimiseOptions::default(), Some(150), a.len, a.crc);
    assert_eq!(m.dpi, 150);
    assert!(m.matches(b));
    b.update(b"!");
    assert!(!m.matches(b));
}

#[test]
fn fingerprint_is_length_and_crc32_across_chunks() {
    let mut f = Fingerprint::new();
    f.update(b"1234");
    f.update(b"56789");
    assert_eq!(f, Fingerprint { len: 9, crc: 0xCBF4_3926 });
    let mut g = Fingerprint::new();
    g.update(b"");
    assert_eq!(g, Fingerprint::new());
}

#[test]
fn only_v1_markers_decode() {
    assert_eq!(Mark::decode("v0 junk"), None);
    assert_eq!(Mark::decode(""), None);
    assert_eq!(Mark::decode("v2 f=64 s=0 d=0 len=1 crc=00000000"), None);
}
