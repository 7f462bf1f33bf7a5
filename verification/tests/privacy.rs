use xpress_core::privacy::{strip_gps, strip_xmp_location};

fn u16_at(d: &[u8], at: usize) -> u16 {
    u16::from_le_bytes([d[at], d[at + 1]])
}

fn u32_at(d: &[u8], at: usize) -> u32 {
    u32::from_le_bytes([d[at], d[at + 1], d[at + 2], d[at + 3]])
}

/// A little-endian EXIF block: IFD0 {Make, GPS pointer, Orientation},
/// GPS IFD {GPSLatitude (3 rationals, out of line)}.
fn exif_with_gps() -> Vec<u8> {
    let mut v = b"II*\0".to_vec();
    v.extend(8u32.to_le_bytes());
    v.extend(3u16.to_le_bytes());
    v.extend(0x010Fu16.to_le_bytes());
    v.extend(2u16.to_le_bytes());
    v.extend(5u32.to_le_bytes());
    v.extend(50u32.to_le_bytes());
    v.extend(0x0112u16.to_le_bytes());
    v.extend(3u16.to_le_bytes());
    v.extend(1u32.to_le_bytes());
    v.extend(6u32.to_le_bytes());
    v.extend(0x8825u16.to_le_bytes());
    v.extend(4u16.to_le_bytes());
    v.extend(1u32.to_le_bytes());
    v.extend(56u32.to_le_bytes());
    v.extend(0u32.to_le_bytes());
    v.extend(b"Test\0\0");
    v.extend(1u16.to_le_bytes());
    v.extend(0x0002u16.to_le_bytes());
    v.extend(5u16.to_le_bytes());
    v.extend(3u32.to_le_bytes());
    v.extend(74u32.to_le_bytes());
    v.extend(0u32.to_le_bytes());
    for n in [59u32, 1, 54, 1, 3012, 100] {
        v.extend(n.to_le_bytes());
    }
    v
}

#[test]
fn removes_gps_and_keeps_the_rest() {
    let mut exif = exif_with_gps();
    assert!(strip_gps(&mut exif));
    assert_eq!(u16_at(&exif, 8), 2, "one entry fewer");
    let tags: Vec<u16> = (0..2).map(|i| u16_at(&exif, 10 + i * 12)).collect();
    assert_eq!(tags, vec![0x010F, 0x0112], "Make and Orientation kept");
    assert_eq!(u32_at(&exif, 10 + 24), 0, "next-IFD offset moved up");
    assert!(exif.windows(4).any(|w| w == b"Test"), "Make value intact");
    let lat = 3012u32.to_le_bytes();
    assert!(!exif.windows(4).any(|w| w == lat), "coordinates wiped");
    assert_eq!(
        image::metadata::Orientation::from_exif_chunk(&exif),
        image::metadata::Orientation::from_exif(6)
    );
}

#[test]
fn no_gps_no_change() {
    let mut exif = exif_with_gps();
    strip_gps(&mut exif);
    let once = exif.clone();
    assert!(!strip_gps(&mut exif));
    assert_eq!(exif, once);
    assert!(!strip_gps(&mut [0u8; 3]), "malformed input is ignored");
}

#[test]
fn big_endian_blocks_are_read_too() {
    let mut v = b"MM\0*".to_vec();
    v.extend(8u32.to_be_bytes());
    v.extend(1u16.to_be_bytes());
    v.extend(0x8825u16.to_be_bytes());
    v.extend(4u16.to_be_bytes());
    v.extend(1u32.to_be_bytes());
    v.extend(26u32.to_be_bytes());
    v.extend(0u32.to_be_bytes());
    // GPS IFD at 26: no entries.
    v.extend(0u16.to_be_bytes());
    v.extend(0u32.to_be_bytes());
    assert!(strip_gps(&mut v));
    assert_eq!(&v[8..10], &[0, 0], "count now zero");
    assert!(v[10..].iter().all(|&b| b == 0), "pointer entry and GPS IFD zeroed");
    let mut w = b"XX".to_vec();
    w.extend([0u8; 20]);
    let before = w.clone();
    assert!(!strip_gps(&mut w));
    assert_eq!(w, before);
}

#[test]
fn strips_xmp_location_attributes_and_elements() {
    let xmp = br#"<rdf:Description xmp:Rating="5" exif:GPSLatitude="59,54.5N" exif:GPSLongitude='10,45E' photoshop:City="Oslo"><photoshop:Country>Norway</photoshop:Country><dc:title>Fjord</dc:title><Iptc4xmpCore:Location/></rdf:Description>"#;
    let out = String::from_utf8(strip_xmp_location(xmp)).unwrap();
    assert!(out.contains(r#"xmp:Rating="5""#));
    assert!(out.contains("<dc:title>Fjord</dc:title>"));
    for gone in [
        "GPSLatitude",
        "GPSLongitude",
        "Oslo",
        "Norway",
        "Iptc4xmpCore",
    ] {
        assert!(!out.contains(gone), "{gone} still in {out}");
    }
}

#[test]
fn truncated_ifd0_is_left_alone() {
    // Little-endian, IFD0 at 8 announcing 2 entries, but the block ends after
    // the first one (the GPS pointer): the table cannot be read whole.
    let mut exif = vec![0u8; 30];
    exif[..8].copy_from_slice(&[0x49, 0x49, 0x2A, 0x00, 0x08, 0x00, 0x00, 0x00]);
    exif[8] = 2;
    exif[10..22].copy_from_slice(&[0x25, 0x88, 0x04, 0x00, 0x01, 0x00, 0x00, 0x00, 0x16, 0x00, 0x00, 0x00]);
    exif[22] = 0xAB;
    let before = exif.clone();
    assert!(!strip_gps(&mut exif));
    assert_eq!(exif, before);
}
