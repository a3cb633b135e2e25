use test_each_file::error::Error;
use test_each_file::listing::Entry;
use test_each_file::tree::Tree;

fn file(name: &str) -> Entry {
    Entry::File { name: name.to_string(), resolved: format!("/abs/{name}") }
}

fn file_at(name: &str, resolved: &str) -> Entry {
    Entry::File { name: name.to_string(), resolved: resolved.to_string() }
}

fn directory(name: &str, entries: Vec<Entry>) -> Entry {
    Entry::Directory { name: name.to_string(), entries }
}

fn other(name: &str) -> Entry {
    Entry::Other { name: name.to_string() }
}

fn strings(items: &[&str]) -> Vec<String> {
    items.iter().map(|item| item.to_string()).collect()
}

fn pair(name: &str, resolved: &str) -> (String, String) {
    (name.to_string(), resolved.to_string())
}

#[test]
fn an_empty_directory_gives_an_empty_tree() {
    let tree = Tree::new(&vec![], &vec![]).unwrap();
    assert!(tree.children.is_empty());
    assert!(tree.here.is_empty());
    assert!(tree.files.is_empty());
}

#[test]
fn without_extensions_every_file_is_a_key() {
    let base = vec![file("a.txt"), file("a.md"), file("b")];
    let tree = Tree::new(&base, &vec![]).unwrap();
    assert_eq!(tree.here, strings(&["a.txt", "a.md", "b"]));
    assert_eq!(
        tree.files,
        vec![pair("a.txt", "/abs/a.txt"), pair("a.md", "/abs/a.md"), pair("b", "/abs/b")]
    );
    assert!(tree.children.is_empty());
}

#[test]
fn with_extensions_files_are_grouped_by_stem() {
    let base = vec![file("sum.in"), file("sum.out"), file("max.in"), file("max.out")];
    let tree = Tree::new(&base, &strings(&["in", "out"])).unwrap();
    assert_eq!(tree.here, strings(&["sum", "max"]));
    assert_eq!(tree.files.len(), 4);
    assert_eq!(tree.files[1], pair("sum.out", "/abs/sum.out"));
}

#[test]
fn stems_are_collected_whatever_the_extension_is() {
    let base = vec![file("sum.in"), file("notes.txt"), file("plain"), file("sum.bak")];
    let tree = Tree::new(&base, &strings(&["in"])).unwrap();
    assert_eq!(tree.here, strings(&["sum", "notes", "plain"]));
    assert_eq!(tree.files.len(), 4);
}

#[test]
fn only_the_last_extension_is_stripped() {
    let base = vec![file("a.b.in"), file("a.in")];
    let tree = Tree::new(&base, &strings(&["in"])).unwrap();
    assert_eq!(tree.here, strings(&["a.b", "a"]));
}

#[test]
fn directories_become_children_in_the_order_found() {
    let base = vec![
        directory("z", vec![file("1.txt")]),
        file("top.txt"),
        directory("a", vec![directory("deep", vec![file("x.txt")])]),
    ];
    let tree = Tree::new(&base, &vec![]).unwrap();
    assert_eq!(tree.here, strings(&["top.txt"]));
    assert_eq!(tree.children.len(), 2);
    assert_eq!(tree.children[0].0, "z");
    assert_eq!(tree.children[0].1.here, strings(&["1.txt"]));
    assert_eq!(tree.children[1].0, "a");
    assert!(tree.children[1].1.here.is_empty());
    assert_eq!(tree.children[1].1.children[0].0, "deep");
    assert_eq!(tree.children[1].1.children[0].1.here, strings(&["x.txt"]));
}

#[test]
fn a_directory_listed_twice_is_kept_once() {
    let base = vec![
        directory("d", vec![file("old.txt")]),
        directory("e", vec![]),
        directory("d", vec![file("new.txt")]),
    ];
    let tree = Tree::new(&base, &vec![]).unwrap();
    assert_eq!(tree.children.len(), 2);
    assert_eq!(tree.children[0].0, "d");
    assert_eq!(tree.children[0].1.here, strings(&["new.txt"]));
    assert_eq!(tree.children[1].0, "e");
}

#[test]
fn a_file_listed_twice_is_one_key() {
    let base = vec![file_at("a.txt", "/first"), file_at("a.txt", "/second")];
    let tree = Tree::new(&base, &vec![]).unwrap();
    assert_eq!(tree.here, strings(&["a.txt"]));
    assert_eq!(tree.files, vec![pair("a.txt", "/first"), pair("a.txt", "/second")]);
}

#[test]
fn an_entry_that_is_neither_file_nor_directory_is_refused() {
    let base = vec![file("a.txt"), other("socket"), file("b.txt")];
    assert_eq!(
        Tree::new(&base, &vec![]),
        Err(Error::UnsupportedEntry { name: "socket".to_string() })
    );
}

#[test]
fn an_unsupported_entry_deep_down_fails_the_whole_scan() {
    let base = vec![
        file("a.txt"),
        directory("d", vec![directory("e", vec![file("ok.txt"), other("pipe")])]),
        other("later"),
    ];
    assert_eq!(
        Tree::new(&base, &strings(&["txt"])),
        Err(Error::UnsupportedEntry { name: "pipe".to_string() })
    );
}
