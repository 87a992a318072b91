use markdown_inliner::error::ConvertError;
use markdown_inliner::reference::{
    classify, classify_reference, has_protocol, mime_type, Target,
};

#[test]
fn protocol_opens_the_reference() {
    for url in ["https://example.org/a.png", "x://y", "Zz://é", "a://b\nc", "a://\n", "a://\\"] {
        assert!(matches!(classify("doc.md", url), Ok(Target::External)), "{:?}", url);
    }
}

#[test]
fn protocol_needs_letters_before_and_a_character_behind() {
    for url in [
        "://a.png",
        "1://a.png",
        "a://",
        "a:/b.png",
        "a//b.png",
        "1a://b.png",
        "a1://b.png",
        " a://b.png",
        "see http://a.png",
        "a-b://c.png",
        "é://x.png",
    ] {
        assert!(!matches!(classify("doc.md", url), Ok(Target::External)), "{:?}", url);
    }
}

#[test]
fn protocol_inside_a_reference_does_not_make_it_external() {
    match classify("doc.md", "a\\b://c.png") {
        Err(ConvertError::Backslash { url }) => assert_eq!(url, "a\\b://c.png"),
        other => panic!("unexpected result: {:?}", other),
    }
    match classify("dir/doc.md", "1x://y.png") {
        Ok(Target::Raster { path, mime }) => {
            assert_eq!(path, "dir/1x://y.png");
            assert_eq!(mime, "image/png");
        }
        other => panic!("unexpected result: {:?}", other),
    }
    assert!(matches!(
        classify("doc.md", "img/http://a.bmp"),
        Err(ConvertError::UnsupportedExtension { .. })
    ));
}

#[test]
fn raster_reference_gets_path_and_media_type() {
    match classify("docs/doc.md", "img/a.jpeg") {
        Ok(Target::Raster { path, mime }) => {
            assert_eq!(path, "docs/img/a.jpeg");
            assert_eq!(mime, "image/jpeg");
        }
        other => panic!("unexpected result: {:?}", other),
    }
}

#[test]
fn svg_reference_gets_its_path() {
    match classify("docs/doc.md", "img/b.svg") {
        Ok(Target::Svg { path }) => assert_eq!(path, "docs/img/b.svg"),
        other => panic!("unexpected result: {:?}", other),
    }
}

#[test]
fn backslash_is_refused_before_anything_else() {
    assert!(matches!(classify("doc.md", "\\a"), Err(ConvertError::Backslash { .. })));
    assert!(matches!(classify("doc.md", "/a\\b.png"), Err(ConvertError::Backslash { .. })));
    assert!(matches!(classify("/doc.md", "a\\b"), Err(ConvertError::Backslash { .. })));
}

#[test]
fn rooted_path_is_refused_before_the_extension_is_looked_at() {
    assert!(matches!(classify("doc.md", "/a"), Err(ConvertError::AbsolutePath { .. })));
    assert!(matches!(classify("doc.md", "/a.bmp"), Err(ConvertError::AbsolutePath { .. })));
    assert!(matches!(classify("/d/doc.md", "a.png"), Err(ConvertError::AbsolutePath { .. })));
}

#[test]
fn result_follows_the_flag_it_is_given() {
    assert!(matches!(classify_reference("doc.md", "x://y", true), Ok(Target::External)));
    assert!(matches!(
        classify_reference("doc.md", "a.png", false),
        Ok(Target::Raster { .. })
    ));
}

#[test]
fn media_types() {
    let mime = |ext: &str| mime_type(&ext.to_string());
    assert_eq!(mime("jpg").as_deref(), Some("image/jpeg"));
    assert_eq!(mime("jpeg").as_deref(), Some("image/jpeg"));
    assert_eq!(mime("gif").as_deref(), Some("image/gif"));
    assert_eq!(mime("png").as_deref(), Some("image/png"));
    assert_eq!(mime("webp").as_deref(), Some("image/webp"));
    assert_eq!(mime("svg"), None);
    assert_eq!(mime("JPG"), None);
    assert_eq!(mime(""), None);
    assert_eq!(mime("bmp"), None);
}

#[test]
fn messages_name_the_path_at_fault() {
    let message = |e: ConvertError| e.message();
    assert_eq!(
        message(ConvertError::Backslash { url: "a\\b".to_string() }),
        "Path a\\b contains backslash. Use forward slash, even on Windows."
    );
    assert_eq!(
        message(ConvertError::AbsolutePath { url: "/a".to_string() }),
        "Path /a is absolute. For portability reasons, this is not allowed."
    );
    assert_eq!(
        message(ConvertError::MissingExtension { path: "d/a".to_string() }),
        "Image lacks an extension: d/a"
    );
    assert_eq!(
        message(ConvertError::UnsupportedExtension { path: "d/a.bmp".to_string() }),
        "Unsupported extension for d/a.bmp"
    );
    assert_eq!(
        message(ConvertError::FileAccess { path: "d/a.png".to_string(), reason: "gone".to_string() }),
        "Could not read d/a.png: gone"
    );
    assert_eq!(message(ConvertError::MalformedSvg), "Could not find svg tag in svg file.");
    assert_eq!(
        message(ConvertError::Rendering { reason: "full".to_string() }),
        "Could not render: full"
    );
    assert_eq!(message(ConvertError::Encoding), "Encoding error");
    assert_eq!(message(ConvertError::UnsupportedNode), "these nodes are not supported");
}

#[test]
fn protocol_is_told_from_a_path() {
    assert!(has_protocol("https://example.org"));
    assert!(has_protocol("Zz://é"));
    assert!(has_protocol("a://\r"));
    assert!(has_protocol("a://\n"));
    assert!(!has_protocol("img/a.png"));
    assert!(!has_protocol("é://x"));
    assert!(!has_protocol("http:/x"));
    assert!(!has_protocol("http://"));
    assert!(!has_protocol("x http://y"));
    assert!(!has_protocol("\nhttp://y"));
    assert!(!has_protocol("a\\b://c.png"));
    assert!(!has_protocol("1x://y.png"));
    assert!(!has_protocol(""));
}
