use xpress_core::pdf::{
    keep_declared, page_render_args, recompressible_channels, recompressible_targets,
    replaces_stream, xobject_names, Decoded, PdfDict, PdfDocument, PdfObject,
};

fn name(s: &str) -> PdfObject {
    PdfObject::Name(s.as_bytes().to_vec())
}

fn dict(entries: Vec<(&str, PdfObject)>) -> PdfDict {
    PdfDict { entries: entries.into_iter().map(|(k, v)| (k.as_bytes().to_vec(), v)).collect() }
}

fn jpeg_image(colour_space: PdfObject) -> PdfDict {
    dict(vec![
        ("Type", name("XObject")),
        ("Subtype", name("Image")),
        ("Filter", name("DCTDecode")),
        ("BitsPerComponent", PdfObject::Integer(8)),
        ("ColorSpace", colour_space),
    ])
}

fn empty_doc() -> PdfDocument {
    PdfDocument { objects: vec![] }
}

#[test]
fn plain_rgb_and_gray_jpegs_qualify() {
    let doc = empty_doc();
    assert_eq!(recompressible_channels(&doc, &jpeg_image(name("DeviceRGB"))), Some(3));
    assert_eq!(recompressible_channels(&doc, &jpeg_image(name("DeviceGray"))), Some(1));
    let arr = dict(vec![
        ("Subtype", name("Image")),
        ("Filter", PdfObject::Array(vec![name("DCTDecode")])),
        ("ColorSpace", name("DeviceGray")),
    ]);
    assert_eq!(recompressible_channels(&doc, &arr), Some(1));
}

#[test]
fn colour_changing_images_are_left_alone() {
    let doc = empty_doc();
    assert_eq!(recompressible_channels(&doc, &jpeg_image(name("DeviceCMYK"))), None);
    let indexed = PdfObject::Array(vec![name("Indexed"), name("DeviceRGB"), PdfObject::Integer(255)]);
    assert_eq!(recompressible_channels(&doc, &jpeg_image(indexed)), None);
    let mut with_decode = jpeg_image(name("DeviceRGB"));
    with_decode.entries.push((b"Decode".to_vec(), PdfObject::Array(vec![])));
    assert_eq!(recompressible_channels(&doc, &with_decode), None);
    let sixteen = dict(vec![
        ("Subtype", name("Image")),
        ("Filter", name("DCTDecode")),
        ("BitsPerComponent", PdfObject::Integer(16)),
        ("ColorSpace", name("DeviceRGB")),
    ]);
    assert_eq!(recompressible_channels(&doc, &sixteen), None);
    let chained = dict(vec![
        ("Subtype", name("Image")),
        ("Filter", PdfObject::Array(vec![name("FlateDecode"), name("DCTDecode")])),
        ("ColorSpace", name("DeviceRGB")),
    ]);
    assert_eq!(recompressible_channels(&doc, &chained), None);
    let form = dict(vec![("Subtype", name("Form")), ("Filter", name("DCTDecode"))]);
    assert_eq!(recompressible_channels(&doc, &form), None);
    let no_space = dict(vec![("Subtype", name("Image")), ("Filter", name("DCTDecode"))]);
    assert_eq!(recompressible_channels(&doc, &no_space), None);
}

#[test]
fn icc_profiles_are_followed_through_references() {
    let doc = PdfDocument {
        objects: vec![
            ((4, 0), PdfObject::Stream(dict(vec![("N", PdfObject::Integer(3))]))),
            ((5, 0), PdfObject::Stream(dict(vec![("N", PdfObject::Integer(4))]))),
            ((6, 0), PdfObject::Array(vec![name("ICCBased"), PdfObject::Reference((4, 0))])),
            ((7, 0), PdfObject::Reference((6, 0))),
        ],
    };
    let icc3 = PdfObject::Array(vec![name("ICCBased"), PdfObject::Reference((4, 0))]);
    assert_eq!(recompressible_channels(&doc, &jpeg_image(icc3)), Some(3));
    let icc4 = PdfObject::Array(vec![name("ICCBased"), PdfObject::Reference((5, 0))]);
    assert_eq!(recompressible_channels(&doc, &jpeg_image(icc4)), None);
    assert_eq!(recompressible_channels(&doc, &jpeg_image(PdfObject::Reference((7, 0)))), Some(3));
    assert_eq!(recompressible_channels(&doc, &jpeg_image(PdfObject::Reference((9, 0)))), None);
}

#[test]
fn reference_loops_give_up() {
    let doc = PdfDocument {
        objects: vec![
            ((1, 0), PdfObject::Reference((2, 0))),
            ((2, 0), PdfObject::Reference((1, 0))),
        ],
    };
    assert_eq!(recompressible_channels(&doc, &jpeg_image(PdfObject::Reference((1, 0)))), None);
}

#[test]
fn targets_are_the_qualifying_streams_in_order() {
    let doc = PdfDocument {
        objects: vec![
            ((1, 0), PdfObject::Stream(jpeg_image(name("DeviceRGB")))),
            ((2, 0), PdfObject::Dictionary(jpeg_image(name("DeviceRGB")))),
            ((3, 0), PdfObject::Stream(jpeg_image(name("DeviceCMYK")))),
            ((4, 0), PdfObject::Stream(jpeg_image(name("DeviceGray")))),
        ],
    };
    assert_eq!(recompressible_targets(&doc), vec![((1, 0), 3), ((4, 0), 1)]);
}

#[test]
fn xobject_names_take_the_first_id_given() {
    let doc = PdfDocument {
        objects: vec![
            ((10, 0), PdfObject::Dictionary(dict(vec![
                ("Im1", PdfObject::Reference((6, 0))),
                ("Im3", PdfObject::Reference((7, 0))),
            ]))),
            ((11, 0), PdfObject::Dictionary(dict(vec![("XObject", PdfObject::Reference((10, 0)))]))),
            ((12, 0), PdfObject::Integer(3)),
        ],
    };
    let own = dict(vec![(
        "XObject",
        PdfObject::Dictionary(dict(vec![
            ("Im1", PdfObject::Reference((5, 0))),
            ("Im2", PdfObject::Integer(1)),
        ])),
    )]);
    let names = xobject_names(&doc, Some(&own), &[(11, 0), (12, 0)]);
    assert_eq!(names, vec![(b"Im1".to_vec(), (5, 0)), (b"Im3".to_vec(), (7, 0))]);
    assert_eq!(xobject_names(&doc, None, &[]), vec![]);
}

#[test]
fn decoded_images_keep_the_declared_channels() {
    assert!(matches!(keep_declared(1, Decoded::Gray(vec![7, 8])), Some(Decoded::Gray(g)) if g == vec![7, 8]));
    assert!(keep_declared(3, Decoded::Gray(vec![7])).is_none());
    assert!(matches!(
        keep_declared(1, Decoded::Rgb(vec![5, 5, 5, 9, 9, 9])),
        Some(Decoded::Gray(g)) if g == vec![5, 9]
    ));
    assert!(keep_declared(1, Decoded::Rgb(vec![5, 5, 5, 9, 9, 8])).is_none());
    assert!(matches!(keep_declared(3, Decoded::Rgb(vec![1, 2, 3])), Some(Decoded::Rgb(v)) if v == vec![1, 2, 3]));
    assert!(keep_declared(3, Decoded::Other).is_none());
}

#[test]
fn recompressed_streams_replace_only_when_worth_it() {
    assert!(replaces_stream(true, 900, false, 1000));
    assert!(!replaces_stream(true, 1000, false, 1000));
    assert!(replaces_stream(true, 1200, true, 1000));
    assert!(!replaces_stream(true, 0, true, 1000));
    assert!(!replaces_stream(false, 10, true, 1000));
}

#[test]
fn page_rendering_arguments() {
    let (args, ext) = page_render_args("/docs/report.pdf", "/tmp/pages", "JPG", 1200);
    assert_eq!(ext, "jpg");
    assert_eq!(
        args,
        vec![
            "-dNOPAUSE",
            "-dBATCH",
            "-dSAFER",
            "-dQUIET",
            "-sDEVICE=jpeg",
            "-r600",
            "-sOutputFile=/tmp/pages/report-%03d.jpg",
            "/docs/report.pdf",
        ]
    );
    let (args, ext) = page_render_args("a.pdf", "out", "tiff", 10);
    assert_eq!(ext, "png");
    assert_eq!(args[4], "-sDEVICE=png16m");
    assert_eq!(args[5], "-r36");
    assert_eq!(args[6], "-sOutputFile=out/a-%03d.png");
}
