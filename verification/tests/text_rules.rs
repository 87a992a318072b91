use markdown_inliner::inliner::{make_data_uri, svg_markup};
use markdown_inliner::text::{chars_of, contains_char, decode, find, string_of};

#[test]
fn characters_and_back() {
    let v = chars_of("häß€𝄞 x");
    assert_eq!(v, vec!['h', 'ä', 'ß', '€', '𝄞', ' ', 'x']);
    assert_eq!(string_of(&v, 0, v.len()), "häß€𝄞 x");
    assert_eq!(string_of(&v, 1, 4), "äß€");
    assert_eq!(string_of(&v, 3, 3), "");
}

#[test]
fn first_occurrence_is_found() {
    let hay = chars_of("ab<svg<svg>");
    assert_eq!(find(&hay, &chars_of("<svg")), Some(2));
    assert_eq!(find(&hay, &chars_of("<svg>")), Some(6));
    assert_eq!(find(&hay, &chars_of("svgx")), None);
    assert_eq!(find(&hay, &chars_of("")), Some(0));
    assert_eq!(find(&chars_of(""), &chars_of("")), Some(0));
    assert_eq!(find(&chars_of("ab"), &chars_of("abc")), None);
    assert_eq!(find(&chars_of("aab"), &chars_of("ab")), Some(1));
}

#[test]
fn character_is_looked_for() {
    assert!(contains_char(&chars_of("a\\b"), '\\'));
    assert!(!contains_char(&chars_of("a/b"), '\\'));
    assert!(!contains_char(&chars_of(""), 'a'));
}

#[test]
fn bytes_are_read_as_utf8() {
    assert_eq!(decode(vec![0x68, 0xc3, 0xa4]), Some("hä".to_string()));
    assert_eq!(decode(vec![]), Some(String::new()));
    assert_eq!(decode(vec![0x68, 0xc3]), None);
    assert_eq!(decode(vec![0xff]), None);
}

#[test]
fn data_uri_is_put_together() {
    assert_eq!(make_data_uri("image/png", "QUJD"), "data:image/png;base64,QUJD");
    assert_eq!(make_data_uri("", ""), "data:;base64,");
}

#[test]
fn svg_markup_starts_at_the_first_tag() {
    assert_eq!(
        svg_markup("<?xml version=\"1.0\"?><svg viewBox=\"0 0 2 2\">...</svg>").as_deref(),
        Some("<svg viewBox=\"0 0 2 2\">...</svg>")
    );
    assert_eq!(svg_markup("<svg/>").as_deref(), Some("<svg/>"));
    assert_eq!(svg_markup("é<!-- <svg --><svg>").as_deref(), Some("<svg --><svg>"));
    assert_eq!(svg_markup("<SVG></SVG>"), None);
    assert_eq!(svg_markup(""), None);
}
