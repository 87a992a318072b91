use markdown_inliner::cluster::{
    get_params_schema, has_suffix, process_cluster, ClusterEntry, ParameterKind,
};

fn entry(path: &str, is_dir: bool) -> ClusterEntry {
    ClusterEntry { relative_path: path.to_string(), is_dir }
}

#[test]
fn batch_takes_three_required_parameters() {
    let parameters = get_params_schema();
    let found: Vec<(&str, bool, ParameterKind)> =
        parameters.iter().map(|p| (p.name.as_str(), p.required, p.kind)).collect();
    assert_eq!(
        found,
        vec![
            ("input_extension", true, ParameterKind::Text),
            ("output_extension", true, ParameterKind::Text),
            ("include_artifact_mapping", true, ParameterKind::Flag),
        ]
    );
}

#[test]
fn files_with_the_input_extension_are_converted_in_order() {
    let entries = vec![
        entry("b/two.md", false),
        entry("a.md", true),
        entry("one.md", false),
        entry("notes.txt", false),
        entry("c/three.MD", false),
    ];
    let plan = process_cluster(&entries, "md", "html", true);
    let jobs: Vec<(&str, &str)> =
        plan.jobs.iter().map(|j| (j.source.as_str(), j.target.as_str())).collect();
    assert_eq!(jobs, vec![("b/two.md", "b/two.html"), ("one.md", "one.html")]);
    let reported: Vec<(&str, &str)> =
        plan.artifacts.iter().map(|a| (a.file.as_str(), a.directory.as_str())).collect();
    assert_eq!(reported, vec![("b/two.html", "b"), ("one.html", "")]);
}

#[test]
fn written_files_are_reported_only_where_the_mapping_is_asked_for() {
    let entries = vec![entry("a.md", false), entry("d", true), entry("b.md", false)];
    let with = process_cluster(&entries, "md", "html", true);
    let reported: Vec<&str> = with.artifacts.iter().map(|a| a.file.as_str()).collect();
    assert_eq!(reported, vec!["a.html", "b.html"]);
    assert_eq!(with.artifacts.len(), with.jobs.len());
    let without = process_cluster(&entries, "md", "html", false);
    assert!(without.artifacts.is_empty());
    assert_eq!(without.jobs.len(), 2);
    let none = process_cluster(&entries, "txt", "html", true);
    assert!(none.jobs.is_empty());
    assert!(none.artifacts.is_empty());
}

#[test]
fn path_is_matched_by_its_end() {
    let entries = vec![entry("readmd", false), entry("d/cmd", false), entry("x.md.bak", false)];
    let plan = process_cluster(&entries, "md", "html", false);
    let jobs: Vec<(&str, &str)> =
        plan.jobs.iter().map(|j| (j.source.as_str(), j.target.as_str())).collect();
    assert_eq!(jobs, vec![("readmd", "readmd.html"), ("d/cmd", "d/cmd.html")]);
    assert!(plan.artifacts.is_empty());
}

#[test]
fn empty_input_extension_takes_every_file() {
    let entries = vec![entry("a.txt", false), entry("d", true), entry("b", false)];
    let plan = process_cluster(&entries, "", "out", false);
    let jobs: Vec<(&str, &str)> =
        plan.jobs.iter().map(|j| (j.source.as_str(), j.target.as_str())).collect();
    assert_eq!(jobs, vec![("a.txt", "a.out"), ("b", "b.out")]);
}

#[test]
fn empty_directory_gives_no_job() {
    let plan = process_cluster(&Vec::new(), "md", "html", true);
    assert!(plan.jobs.is_empty());
    assert!(plan.artifacts.is_empty());
}

#[test]
fn suffix_is_compared_character_by_character() {
    let chars = |s: &str| s.chars().collect::<Vec<char>>();
    assert!(has_suffix(&chars("intro.md"), &chars(".md")));
    assert!(has_suffix(&chars("md"), &chars("md")));
    assert!(has_suffix(&chars("x"), &chars("")));
    assert!(!has_suffix(&chars("d"), &chars("md")));
    assert!(!has_suffix(&chars("intro.mdx"), &chars("md")));
}

#[test]
fn reported_file_belongs_in_the_directory_of_its_path() {
    let entries = vec![entry("a/b/c.md", false), entry("d//e.md", false), entry("./f.md", false)];
    let plan = process_cluster(&entries, ".md", "html", true);
    let reported: Vec<(&str, &str)> =
        plan.artifacts.iter().map(|a| (a.file.as_str(), a.directory.as_str())).collect();
    assert_eq!(
        reported,
        vec![("a/b/c.html", "a/b"), ("d//e.html", "d"), ("./f.html", ".")]
    );
}
