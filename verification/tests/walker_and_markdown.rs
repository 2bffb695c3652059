use knowledge_scanner::markdown::{extract_text, Finding};
use knowledge_scanner::walker::{
    accepts, excluded_dir_name, ignore_file_name, is_regular_file, markdown_glob,
    path_is_eligible, select_candidates, EntryKind, WalkEntry,
};

fn entry(path: &str, kind: Option<EntryKind>) -> WalkEntry {
    WalkEntry { path: path.to_string(), kind }
}

fn file(path: &str) -> WalkEntry {
    entry(path, Some(EntryKind::File))
}

fn links(f: &Finding) -> Vec<(String, Option<String>)> {
    f.links.iter().map(|l| (l.target.clone(), l.context.clone())).collect()
}

fn link(target: &str, context: &str) -> (String, Option<String>) {
    (target.to_string(), Some(context.to_string()))
}

#[test]
fn fixed_names() {
    assert_eq!(ignore_file_name(), ".ksignore");
    assert_eq!(excluded_dir_name(), "node_modules");
    assert_eq!(markdown_glob(), "*.md");
}

#[test]
fn only_regular_files_pass() {
    assert!(is_regular_file(Some(EntryKind::File)));
    assert!(!is_regular_file(Some(EntryKind::Directory)));
    assert!(!is_regular_file(Some(EntryKind::Symlink)));
    assert!(!is_regular_file(Some(EntryKind::Other)));
    assert!(!is_regular_file(None));
}

#[test]
fn markdown_paths_are_eligible() {
    assert!(path_is_eligible("a.md"));
    assert!(path_is_eligible("docs/guide/intro.md"));
    assert!(path_is_eligible(".md"));
    assert!(path_is_eligible("docs/.md"));
    assert!(path_is_eligible("a.b.md"));
}

#[test]
fn other_paths_are_not_eligible() {
    assert!(!path_is_eligible(""));
    assert!(!path_is_eligible("a.txt"));
    assert!(!path_is_eligible("a.MD"));
    assert!(!path_is_eligible("a.md/"));
    assert!(!path_is_eligible("a.md/b"));
    assert!(!path_is_eligible("amd"));
    assert!(!path_is_eligible("md"));
    assert!(!path_is_eligible("a.mdx"));
}

#[test]
fn excluded_directory_is_never_eligible() {
    assert!(!path_is_eligible("node_modules/c.md"));
    assert!(!path_is_eligible("docs/node_modules/pkg/readme.md"));
    assert!(!path_is_eligible("docs/deep/node_modules/c.md"));
    assert!(!path_is_eligible("/node_modules/c.md"));
}

#[test]
fn names_that_only_resemble_the_excluded_directory_are_eligible() {
    assert!(path_is_eligible("node_modules.md"));
    assert!(path_is_eligible("my_node_modules/a.md"));
    assert!(path_is_eligible("node_modules2/a.md"));
    assert!(path_is_eligible("Node_Modules/a.md"));
}

#[test]
fn accepts_needs_a_regular_file() {
    assert!(accepts(&file("a.md")));
    assert!(!accepts(&entry("a.md", Some(EntryKind::Directory))));
    assert!(!accepts(&entry("a.md", Some(EntryKind::Symlink))));
    assert!(!accepts(&entry("a.md", None)));
    assert!(!accepts(&file("a.txt")));
    assert!(!accepts(&file("node_modules/c.md")));
}

#[test]
fn select_candidates_keeps_each_candidate_once_in_order() {
    let entries = vec![
        file("b.md"),
        entry("docs", Some(EntryKind::Directory)),
        file("a.md"),
        file("node_modules/c.md"),
        file("b.md"),
        file("notes.txt"),
        entry("d.md", None),
        file("docs/e.md"),
        file("a.md"),
    ];
    assert_eq!(select_candidates(&entries), vec!["b.md", "a.md", "docs/e.md"]);
}

#[test]
fn select_candidates_of_nothing() {
    assert_eq!(select_candidates(&Vec::new()), Vec::<String>::new());
    assert_eq!(select_candidates(&vec![file("node_modules/c.md")]), Vec::<String>::new());
}

#[test]
fn title_is_first_top_level_heading() {
    let f = extract_text("intro\n# First \n# Second\n", "stem");
    assert_eq!(f.title, "First");
}

#[test]
fn title_falls_back_without_heading() {
    assert_eq!(extract_text("", "stem").title, "stem");
    assert_eq!(extract_text("plain text\n## Sub\n#NoSpace\n", "stem").title, "stem");
    assert_eq!(extract_text("# \n#    \t\n", "stem").title, "stem");
}

#[test]
fn title_skips_blank_heading() {
    assert_eq!(extract_text("# \n# Real\n", "stem").title, "Real");
}

#[test]
fn title_with_windows_line_ends() {
    assert_eq!(extract_text("# Title\r\ntext\r\n", "stem").title, "Title");
}

#[test]
fn declared_tags_are_read_from_tag_lines() {
    let f = extract_text("# T\ntags: notes, todo ,, Ideas\nbody\n", "stem");
    assert_eq!(f.tags, vec!["notes", "todo", "Ideas"]);
}

#[test]
fn declared_tags_accumulate_and_fold_case() {
    let f = extract_text("tags: a, B\ntext\ntags: b, c, A\n", "stem");
    assert_eq!(f.tags, vec!["a", "B", "c"]);
}

#[test]
fn no_tag_line_no_tags() {
    assert!(extract_text("# T\nTags: x\n tags: y\ntag: z\n", "stem").tags.is_empty());
    assert!(extract_text("tags:\ntags: , ,\n", "stem").tags.is_empty());
}

#[test]
fn tags_with_windows_line_ends() {
    assert_eq!(extract_text("tags: a, b\r\n", "stem").tags, vec!["a", "b"]);
}

#[test]
fn inline_links() {
    let f = extract_text("see [the guide](docs/guide.md) and [x]( http://e.org )!\n", "s");
    assert_eq!(links(&f), vec![link("docs/guide.md", "the guide"), link("http://e.org", "x")]);
}

#[test]
fn inline_link_without_text_has_no_context() {
    let f = extract_text("[](a.md) [  ](b.md)", "s");
    assert_eq!(links(&f), vec![("a.md".to_string(), None), ("b.md".to_string(), None)]);
}

#[test]
fn inline_link_without_target_is_no_link() {
    assert!(links(&extract_text("[a]() [b](   )", "s")).is_empty());
}

#[test]
fn reference_links_resolve_to_the_same_form_as_inline_links() {
    let inline = extract_text("read [the guide](docs/guide.md)\n", "s");
    let reference = extract_text("read [the guide][g]\n\n[g]: docs/guide.md\n", "s");
    assert_eq!(links(&inline), links(&reference));
    assert_eq!(links(&reference), vec![link("docs/guide.md", "the guide")]);
}

#[test]
fn reference_labels_ignore_case_and_space() {
    let f = extract_text("[Guide]:  docs/guide.md  \n[a][ guide ] [b][GUIDE]\n", "s");
    assert_eq!(links(&f), vec![link("docs/guide.md", "a"), link("docs/guide.md", "b")]);
}

#[test]
fn collapsed_reference_looks_up_its_text() {
    let f = extract_text("[Guide][]\n[guide]: g.md\n", "s");
    assert_eq!(links(&f), vec![link("g.md", "Guide")]);
}

#[test]
fn first_definition_wins() {
    let f = extract_text("[x]: one.md\n[X]: two.md\n[t][x]\n", "s");
    assert_eq!(links(&f), vec![link("one.md", "t")]);
}

#[test]
fn unresolved_reference_is_no_link() {
    assert!(links(&extract_text("[a][missing] and [b]\n", "s")).is_empty());
}

#[test]
fn definition_lines_hold_no_links() {
    let f = extract_text("[a]: [x](y.md)\n", "s");
    assert!(links(&f).is_empty());
}

#[test]
fn malformed_links_degrade() {
    let f = extract_text("[open (a.md)\n[b](never closed\n[c](c.md) tail [d\n[e][f\n", "s");
    assert_eq!(links(&f), vec![link("c.md", "c")]);
}

#[test]
fn bracket_that_opens_nothing_does_not_hide_a_later_link() {
    let f = extract_text("[[inner](i.md)] and [1] [two](2.md)", "s");
    assert_eq!(links(&f), vec![link("i.md", "inner"), link("2.md", "two")]);
}

#[test]
fn links_do_not_span_lines() {
    assert!(links(&extract_text("[a]\n(b.md)\n[c](d\n.md)\n", "s")).is_empty());
}

#[test]
fn links_come_in_document_order() {
    let f = extract_text("# [t](1.md)\n[a](2.md) [b][r]\ntags: [c](3.md)\n[r]: 4.md\n", "s");
    assert_eq!(
        links(&f),
        vec![link("1.md", "t"), link("2.md", "a"), link("4.md", "b"), link("3.md", "c")]
    );
}

#[test]
fn whole_document() {
    let text = "# Project notes\n\ntags: notes, Rust\n\nSee [the plan](plan.md) and [home][h].\n\n[h]: https://example.org\n";
    let f = extract_text(text, "readme");
    assert_eq!(f.title, "Project notes");
    assert_eq!(f.tags, vec!["notes", "Rust"]);
    assert_eq!(links(&f), vec![link("plan.md", "the plan"), link("https://example.org", "home")]);
}

#[test]
fn empty_document() {
    let f = extract_text("", "untitled");
    assert_eq!(f.title, "untitled");
    assert!(f.tags.is_empty());
    assert!(f.links.is_empty());
}
