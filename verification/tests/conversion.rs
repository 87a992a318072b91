use base64::Engine;
use markdown_inliner::error::ConvertError;
use markdown_inliner::inliner::{begin, mark_children, next_image, Progress, ReadKind};
use markdown_inliner::markdown::outline;
use markdown_inliner::reference::Target;

/// Runs a conversion against a table of files: each entry is a path and the
/// answer of the host for it, the content for a text read and the base64
/// for a binary read.
fn convert(file: &str, files: &[(&str, &str)]) -> (Result<String, ConvertError>, Vec<(ReadKind, String)>) {
    let mut reads = Vec::new();
    let (mut conversion, mut request) = begin(file);
    loop {
        reads.push((request.kind, request.path.clone()));
        let reply = match files.iter().find(|(path, _)| *path == request.path) {
            Some((_, content)) => Ok(content.to_string()),
            None => Err(format!("no such file: {}", request.path)),
        };
        match conversion.resume(reply) {
            Progress::Pending { conversion: next, request: wanted } => {
                conversion = next;
                request = wanted;
            }
            Progress::Finished { outcome } => return (outcome, reads),
        }
    }
}

#[test]
fn plain_paragraph_is_wrapped_in_a_document() {
    let (outcome, reads) = convert("doc.md", &[("doc.md", "Hello,   *world*!\n")]);
    assert_eq!(
        outcome.unwrap(),
        "<html><head></head><body><p>Hello, <em>world</em>!</p> </body></html>"
    );
    assert_eq!(reads, vec![(ReadKind::Text, "doc.md".to_string())]);
}

#[test]
fn png_is_embedded_as_data_uri() {
    let bytes: Vec<u8> = vec![0x89, b'P', b'N', b'G', 0x0d, 0x0a, 0x1a, 0x0a, 0, 1, 2, 3, 250, 251];
    let encoded = base64::engine::general_purpose::STANDARD.encode(&bytes);
    let (outcome, reads) = convert(
        "doc.md",
        &[("doc.md", "Look: ![a picture](img/a.png)\n"), ("img/a.png", &encoded)],
    );
    let html = outcome.unwrap();
    let uri = format!("data:image/png;base64,{}", encoded);
    assert_eq!(html.matches(&uri).count(), 1);
    assert_eq!(html.matches("img/a.png").count(), 0);
    assert_eq!(
        html,
        format!(
            "<html><head></head><body><p>Look: <img src=\"{}\" alt=\"a picture\"></img></p> </body></html>",
            uri
        )
    );
    assert_eq!(
        reads,
        vec![(ReadKind::Text, "doc.md".to_string()), (ReadKind::Base64, "img/a.png".to_string())]
    );
}

#[test]
fn svg_is_spliced_without_its_prolog() {
    let svg = "<?xml version=\"1.0\"?><svg viewBox=\"0 0 2 2\"><rect width=\"1\" height=\"1\"/></svg>";
    let (outcome, reads) = convert(
        "doc.md",
        &[("doc.md", "Before ![a drawing](img/b.svg) after\n"), ("img/b.svg", svg)],
    );
    let html = outcome.unwrap();
    println!("{}", html);
    assert!(html.contains("<svg viewBox=\"0 0 2 2\">"));
    assert!(!html.contains("<?xml"));
    assert!(!html.contains("<img"));
    assert!(!html.contains("b.svg"));
    assert!(!html.contains("a drawing"));
    assert_eq!(
        reads,
        vec![(ReadKind::Text, "doc.md".to_string()), (ReadKind::Text, "img/b.svg".to_string())]
    );
}

#[test]
fn external_reference_is_left_as_it_is() {
    let (outcome, reads) = convert(
        "doc.md",
        &[("doc.md", "![logo](https://example.org/logo.png)\n")],
    );
    assert_eq!(
        outcome.unwrap(),
        "<html><head></head><body><p><img src=\"https://example.org/logo.png\" alt=\"logo\"></img></p> </body></html>"
    );
    assert_eq!(reads.len(), 1);
}

#[test]
fn external_reference_without_known_extension_is_left_as_it_is() {
    let (outcome, reads) = convert("doc.md", &[("doc.md", "![x](ftp://host/a\\b.bin)\n")]);
    let html = outcome.unwrap();
    assert!(html.contains("ftp://host/a"));
    assert_eq!(reads.len(), 1);
}

#[test]
fn backslash_fails_whatever_the_extension() {
    for url in ["img\\a.png", "img\\a.svg", "img\\a", "a\\b.txt"] {
        let source = format!("![x]({})\n", url.replace('\\', "\\\\"));
        let (outcome, reads) = convert("doc.md", &[("doc.md", &source)]);
        match outcome {
            Err(ConvertError::Backslash { url: found }) => assert_eq!(found, url),
            other => panic!("unexpected outcome: {:?}", other),
        }
        assert_eq!(reads.len(), 1);
    }
}

#[test]
fn rooted_reference_fails() {
    let (outcome, reads) = convert("docs/doc.md", &[("docs/doc.md", "![x](/etc/a.png)\n")]);
    match outcome {
        Err(ConvertError::AbsolutePath { url }) => assert_eq!(url, "/etc/a.png"),
        other => panic!("unexpected outcome: {:?}", other),
    }
    assert_eq!(reads.len(), 1);
}

#[test]
fn reference_in_rooted_document_fails() {
    let (outcome, _) = convert("/docs/doc.md", &[("/docs/doc.md", "![x](a.png)\n")]);
    match outcome {
        Err(ConvertError::AbsolutePath { url }) => assert_eq!(url, "a.png"),
        other => panic!("unexpected outcome: {:?}", other),
    }
}

#[test]
fn missing_extension_fails() {
    let (outcome, _) = convert("docs/doc.md", &[("docs/doc.md", "![x](img/picture)\n")]);
    match outcome {
        Err(ConvertError::MissingExtension { path }) => assert_eq!(path, "docs/img/picture"),
        other => panic!("unexpected outcome: {:?}", other),
    }
}

#[test]
fn unsupported_extension_fails() {
    let (outcome, _) = convert("docs/doc.md", &[("docs/doc.md", "![x](img/picture.bmp)\n")]);
    match outcome {
        Err(ConvertError::UnsupportedExtension { path }) => {
            assert_eq!(path, "docs/img/picture.bmp")
        }
        other => panic!("unexpected outcome: {:?}", other),
    }
}

#[test]
fn extension_is_compared_as_written() {
    let (outcome, _) = convert("doc.md", &[("doc.md", "![x](a.PNG)\n")]);
    assert!(matches!(outcome, Err(ConvertError::UnsupportedExtension { .. })));
}

#[test]
fn unreadable_document_fails() {
    let (outcome, reads) = convert("missing.md", &[]);
    match outcome {
        Err(ConvertError::FileAccess { path, reason }) => {
            assert_eq!(path, "missing.md");
            assert_eq!(reason, "no such file: missing.md");
        }
        other => panic!("unexpected outcome: {:?}", other),
    }
    assert_eq!(reads, vec![(ReadKind::Text, "missing.md".to_string())]);
}

#[test]
fn unreadable_raster_image_fails() {
    let (outcome, reads) = convert("a/doc.md", &[("a/doc.md", "![x](b/c.gif)\n")]);
    match outcome {
        Err(ConvertError::FileAccess { path, .. }) => assert_eq!(path, "a/b/c.gif"),
        other => panic!("unexpected outcome: {:?}", other),
    }
    assert_eq!(reads[1], (ReadKind::Base64, "a/b/c.gif".to_string()));
}

#[test]
fn unreadable_svg_image_fails() {
    let (outcome, reads) = convert("a/doc.md", &[("a/doc.md", "![x](c.svg)\n")]);
    match outcome {
        Err(ConvertError::FileAccess { path, .. }) => assert_eq!(path, "a/c.svg"),
        other => panic!("unexpected outcome: {:?}", other),
    }
    assert_eq!(reads[1], (ReadKind::Text, "a/c.svg".to_string()));
}

#[test]
fn svg_without_tag_fails() {
    let (outcome, _) = convert(
        "doc.md",
        &[("doc.md", "![x](c.svg)\n"), ("c.svg", "<?xml version=\"1.0\"?><sv g></svg>")],
    );
    assert!(matches!(outcome, Err(ConvertError::MalformedSvg)));
}

#[test]
fn images_are_read_in_document_order_until_the_first_failure() {
    let (outcome, reads) = convert(
        "doc.md",
        &[("doc.md", "![one](1.png) ![two](2.bmp) ![three](3.png)\n"), ("1.png", "QQ==")],
    );
    assert!(matches!(outcome, Err(ConvertError::UnsupportedExtension { .. })));
    assert_eq!(
        reads,
        vec![(ReadKind::Text, "doc.md".to_string()), (ReadKind::Base64, "1.png".to_string())]
    );
}

#[test]
fn every_svg_of_a_document_is_spliced() {
    let (outcome, reads) = convert(
        "doc.md",
        &[
            ("doc.md", "![first *one*](1.svg)\n\nText ![second](2.svg) and ![third](3.jpg)\n"),
            ("1.svg", "<!-- drawn by hand --><svg id=\"one\"></svg>"),
            ("2.svg", "<svg id=\"two\"></svg>"),
            ("3.jpg", "AAEC"),
        ],
    );
    let html = outcome.unwrap();
    assert_eq!(
        html,
        "<html><head></head><body><p><svg id=\"one\"></svg></p> <p>Text <svg id=\"two\"></svg> and <img src=\"data:image/jpeg;base64,AAEC\" alt=\"third\"></img></p> </body></html>"
    );
    assert_eq!(reads.len(), 4);
}

#[test]
fn image_inside_the_text_of_an_svg_image_is_still_read() {
    let (outcome, reads) = convert(
        "doc.md",
        &[
            ("doc.md", "![outer ![inner](in.png) text](out.svg)\n"),
            ("out.svg", "<svg></svg>"),
            ("in.png", "AA=="),
        ],
    );
    let html = outcome.unwrap();
    assert!(html.contains("<svg></svg>"));
    assert!(!html.contains("<img"));
    assert!(!html.contains("outer"));
    assert_eq!(
        reads,
        vec![
            (ReadKind::Text, "doc.md".to_string()),
            (ReadKind::Text, "out.svg".to_string()),
            (ReadKind::Base64, "in.png".to_string()),
        ]
    );
}

#[test]
fn media_type_follows_the_extension() {
    for (name, mime) in [
        ("a.jpg", "image/jpeg"),
        ("a.jpeg", "image/jpeg"),
        ("a.gif", "image/gif"),
        ("a.png", "image/png"),
        ("a.webp", "image/webp"),
    ] {
        let source = format!("![x]({})\n", name);
        let (outcome, _) = convert("doc.md", &[("doc.md", &source), (name, "QUJD")]);
        let html = outcome.unwrap();
        assert!(html.contains(&format!("src=\"data:{};base64,QUJD\"", mime)), "{}", html);
    }
}

#[test]
fn table_block_becomes_a_table() {
    let source = "| a | b |\n|---|---|\n| 1 | 2 |\n";
    let (outcome, _) = convert("doc.md", &[("doc.md", source)]);
    let html = outcome.unwrap();
    assert!(html.contains("<table>"));
    assert!(html.contains("<thead>"));
    assert!(html.contains("<th>a</th>"));
    assert!(html.contains("<td>2</td>"));
    assert!(!html.contains("|"));
}

#[test]
fn raw_markup_in_the_document_is_let_through() {
    let (outcome, _) = convert("doc.md", &[("doc.md", "<div class=\"note\">hi</div>\n")]);
    assert_eq!(
        outcome.unwrap(),
        "<html><head></head><body><div class=\"note\">hi</div> </body></html>"
    );
}

#[test]
fn code_block_keeps_its_white_space() {
    let (outcome, _) = convert("doc.md", &[("doc.md", "```\nlet  x =\t1;\n\n  y\n```\n")]);
    let html = outcome.unwrap();
    assert!(html.contains("<pre><code>let  x =\t1;\n\n  y\n</code></pre>"), "{}", html);
}

#[test]
fn svg_markup_is_inlined_from_its_tag_on() {
    let svg = "<?xml version=\"1.0\"?><svg viewBox=\"0 0 2 2\">...</svg>";
    let (outcome, _) = convert(
        "doc.md",
        &[("doc.md", "![a drawing](img/b.svg)\n"), ("img/b.svg", svg)],
    );
    let html = outcome.unwrap();
    assert_eq!(
        html,
        "<html><head></head><body><p><svg viewBox=\"0 0 2 2\">...</svg></p> </body></html>"
    );
}

#[test]
fn images_in_a_table_are_inlined() {
    let source = "| ![k *l*](q.svg) | ![x](p.png) |\n|---|---|\n| 1 | 2 |\n";
    let (outcome, reads) = convert(
        "doc.md",
        &[("doc.md", source), ("q.svg", "<svg id=\"q\"></svg>"), ("p.png", "QQ==")],
    );
    let html = outcome.unwrap();
    assert!(html.contains("<th><svg id=\"q\"></svg></th>"), "{}", html);
    assert!(html.contains("<th><img src=\"data:image/png;base64,QQ==\" alt=\"x\"></img></th>"));
    assert!(html.contains("<td>2</td>"));
    assert_eq!(reads.len(), 3);
}

#[test]
fn walk_stops_at_the_first_image_that_needs_a_file() {
    let nodes = outline("![a](https://h/a.png) b ![c](c.gif) ![d](d.bmp)\n");
    let images: Vec<usize> =
        nodes.iter().enumerate().filter(|(_, n)| n.image.is_some()).map(|(i, _)| i).collect();
    assert_eq!(images.len(), 3);
    match next_image("docs/doc.md", &nodes, 0) {
        Some((at, Ok(Target::Raster { path, mime }))) => {
            assert_eq!(at, images[1]);
            assert_eq!(path, "docs/c.gif");
            assert_eq!(mime, "image/gif");
        }
        other => panic!("unexpected stop: {:?}", other),
    }
    match next_image("docs/doc.md", &nodes, images[1]) {
        Some((at, Ok(Target::Raster { .. }))) => assert_eq!(at, images[1]),
        other => panic!("unexpected stop: {:?}", other),
    }
    match next_image("docs/doc.md", &nodes, images[1] + 1) {
        Some((at, Err(ConvertError::UnsupportedExtension { path }))) => {
            assert_eq!(at, images[2]);
            assert_eq!(path, "docs/d.bmp");
        }
        other => panic!("unexpected stop: {:?}", other),
    }
    assert!(next_image("docs/doc.md", &nodes, images[2] + 1).is_none());
    assert!(next_image("docs/doc.md", &nodes, nodes.len()).is_none());
}

#[test]
fn walk_passes_a_document_without_images_to_inline() {
    let nodes = outline("text ![a](x://y) *more*\n");
    assert!(next_image("doc.md", &nodes, 0).is_none());
}

#[test]
fn children_of_an_image_are_marked() {
    let nodes = outline("a ![x *y* z](p.svg) b\n\nc\n");
    let image = nodes.iter().position(|n| n.image.is_some()).unwrap();
    let mut marked = vec![7usize];
    mark_children(&nodes, image, &mut marked);
    assert_eq!(marked, vec![7, image + 1, image + 2, image + 4]);
    let mut of_root = Vec::new();
    mark_children(&nodes, 0, &mut of_root);
    assert_eq!(of_root.len(), 2);
    let mut of_leaf = Vec::new();
    mark_children(&nodes, nodes.len() - 1, &mut of_leaf);
    assert!(of_leaf.is_empty());
}

#[test]
fn backslash_before_a_protocol_inside_the_reference_fails() {
    for url in ["a\\b://c.png", "img\\x://y.svg", "\\://z", "1\\a://b"] {
        let source = format!("![x]({}) ![later](later.png)\n", url.replace('\\', "\\\\"));
        let (outcome, reads) = convert("doc.md", &[("doc.md", &source), ("later.png", "QQ==")]);
        match outcome {
            Err(ConvertError::Backslash { url: found }) => assert_eq!(found, url),
            other => panic!("unexpected outcome: {:?}", other),
        }
        assert_eq!(reads, vec![(ReadKind::Text, "doc.md".to_string())]);
    }
}

#[test]
fn reference_that_does_not_open_with_letters_is_read_as_a_file() {
    let (outcome, reads) = convert(
        "dir/doc.md",
        &[("dir/doc.md", "![x](1x://y.png)\n"), ("dir/1x://y.png", "QUJD")],
    );
    let html = outcome.unwrap();
    assert!(html.contains("src=\"data:image/png;base64,QUJD\""), "{}", html);
    assert_eq!(
        reads,
        vec![
            (ReadKind::Text, "dir/doc.md".to_string()),
            (ReadKind::Base64, "dir/1x://y.png".to_string()),
        ]
    );
}

#[test]
fn each_relative_image_gets_one_read_in_document_order() {
    let source = "![a](img/a.png) ![b](https://h/b.png) ![c](c.svg)\n\n![d](sub/d.webp)\n";
    let (outcome, reads) = convert(
        "dir/doc.md",
        &[
            ("dir/doc.md", source),
            ("dir/img/a.png", "QQ=="),
            ("dir/c.svg", "<svg></svg>"),
            ("dir/sub/d.webp", "RA=="),
        ],
    );
    assert!(outcome.is_ok());
    assert_eq!(
        reads,
        vec![
            (ReadKind::Text, "dir/doc.md".to_string()),
            (ReadKind::Base64, "dir/img/a.png".to_string()),
            (ReadKind::Text, "dir/c.svg".to_string()),
            (ReadKind::Base64, "dir/sub/d.webp".to_string()),
        ]
    );
}
