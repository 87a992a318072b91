use markdown_inliner::paths::{
    directory, extension, file_name, is_absolute, resolve, with_extension,
};

fn chars(s: &str) -> Vec<char> {
    s.chars().collect()
}

fn text(v: Vec<char>) -> String {
    v.into_iter().collect()
}

fn resolved(file: &str, reference: &str) -> String {
    text(resolve(&chars(file), &chars(reference)))
}

fn ext(path: &str) -> Option<String> {
    extension(&chars(path)).map(text)
}

fn name(path: &str) -> Option<String> {
    let p = chars(path);
    file_name(&p).map(|(start, end)| p[start..end].iter().collect())
}

#[test]
fn reference_is_resolved_against_the_directory_of_the_document() {
    assert_eq!(resolved("docs/intro.md", "img/a.png"), "docs/img/a.png");
    assert_eq!(resolved("intro.md", "img/a.png"), "img/a.png");
    assert_eq!(resolved("a/b/c.md", "d.svg"), "a/b/d.svg");
    assert_eq!(resolved("a/b/c.md", "../d.svg"), "a/b/../d.svg");
}

#[test]
fn rooted_reference_stands_for_itself() {
    assert_eq!(resolved("docs/intro.md", "/img/a.png"), "/img/a.png");
    assert_eq!(resolved("", "/a"), "/a");
}

#[test]
fn directory_of_the_document_is_trimmed() {
    assert_eq!(resolved("docs//intro.md", "a.png"), "docs/a.png");
    assert_eq!(resolved("docs/./intro.md", "a.png"), "docs/a.png");
    assert_eq!(resolved("./intro.md", "a.png"), "./a.png");
    assert_eq!(resolved("/intro.md", "a.png"), "/a.png");
    assert_eq!(resolved("docs/", "a.png"), "a.png");
    assert_eq!(resolved("docs/intro.md/.", "a.png"), "docs/a.png");
}

#[test]
fn document_without_file_name_is_its_own_directory() {
    assert_eq!(resolved("", "a.png"), "a.png");
    assert_eq!(resolved("..", "a.png"), "../a.png");
    assert_eq!(resolved("docs/..", "a.png"), "docs/../a.png");
    assert_eq!(resolved("/", "a.png"), "/a.png");
    assert_eq!(resolved(".", "a.png"), "./a.png");
}

#[test]
fn file_name_is_the_last_component() {
    assert_eq!(name("a/b.png"), Some("b.png".to_string()));
    assert_eq!(name("a/b.png/"), Some("b.png".to_string()));
    assert_eq!(name("a/b.png/."), Some("b.png".to_string()));
    assert_eq!(name("a/b.png//./"), Some("b.png".to_string()));
    assert_eq!(name("b"), Some("b".to_string()));
    assert_eq!(name(".b"), Some(".b".to_string()));
    assert_eq!(name("..."), Some("...".to_string()));
    assert_eq!(name("a/.."), None);
    assert_eq!(name(".."), None);
    assert_eq!(name("."), None);
    assert_eq!(name("./."), None);
    assert_eq!(name("/"), None);
    assert_eq!(name("//"), None);
    assert_eq!(name(""), None);
}

#[test]
fn extension_follows_the_last_dot_of_the_file_name() {
    assert_eq!(ext("img/a.png"), Some("png".to_string()));
    assert_eq!(ext("img/a.tar.gz"), Some("gz".to_string()));
    assert_eq!(ext("img/a."), Some("".to_string()));
    assert_eq!(ext("img/a.png/"), Some("png".to_string()));
    assert_eq!(ext("img.d/a"), None);
    assert_eq!(ext("img/.hidden"), None);
    assert_eq!(ext("img/.hidden.svg"), Some("svg".to_string()));
    assert_eq!(ext("img/.."), None);
    assert_eq!(ext(""), None);
}

#[test]
fn extension_is_replaced_behind_the_stem() {
    let moved = |path: &str, e: &str| text(with_extension(&chars(path), &chars(e)));
    assert_eq!(moved("docs/intro.md", "html"), "docs/intro.html");
    assert_eq!(moved("docs/intro", "html"), "docs/intro.html");
    assert_eq!(moved("docs/intro.tar.gz", "html"), "docs/intro.tar.html");
    assert_eq!(moved("docs/.hidden", "html"), "docs/.hidden.html");
    assert_eq!(moved("docs/intro.md", ""), "docs/intro");
    assert_eq!(moved("docs/intro.md/", "html"), "docs/intro.html");
    assert_eq!(moved("docs/..", "html"), "docs/..");
    assert_eq!(moved("", "html"), "");
}

#[test]
fn rooted_path_starts_with_a_separator() {
    assert!(is_absolute(&chars("/a")));
    assert!(is_absolute(&chars("/")));
    assert!(!is_absolute(&chars("a/b")));
    assert!(!is_absolute(&chars("")));
    assert!(!is_absolute(&chars("C:/a")));
}

#[test]
fn directory_is_what_stands_before_the_file_name() {
    let dir = |path: &str| text(directory(&chars(path)));
    assert_eq!(dir("a/b/c.html"), "a/b");
    assert_eq!(dir("c.html"), "");
    assert_eq!(dir("/c.html"), "/");
    assert_eq!(dir("a//c.html"), "a");
    assert_eq!(dir("a/./c.html/"), "a");
    assert_eq!(dir("./c.html"), ".");
    assert_eq!(dir("a/.."), "a/..");
    assert_eq!(dir(""), "");
}
