use test_each_file::config::TestEachArgs;
use test_each_file::emit::{generate_from_tree, Arguments, Declaration, Type};
use test_each_file::error::Error;
use test_each_file::listing::Entry;
use test_each_file::tree::Tree;
use test_each_file::{test_each, test_each_file, test_each_path};

fn file(name: &str, resolved: &str) -> Entry {
    Entry::File { name: name.to_string(), resolved: resolved.to_string() }
}

fn directory(name: &str, entries: Vec<Entry>) -> Entry {
    Entry::Directory { name: name.to_string(), entries }
}

fn strings(items: &[&str]) -> Vec<String> {
    items.iter().map(|item| item.to_string()).collect()
}

fn args(extensions: &[&str]) -> TestEachArgs {
    TestEachArgs {
        path: "./resources".to_string(),
        module: None,
        function: "check".to_string(),
        extensions: strings(extensions),
        attributes: vec![],
        async_fn: false,
    }
}

fn test(name: &str, kind: Type, arguments: Arguments) -> Declaration {
    Declaration::Test {
        name: name.to_string(),
        attributes: vec![],
        is_async: false,
        function: "check".to_string(),
        kind,
        arguments,
    }
}

fn single(path: &str) -> Arguments {
    Arguments::Single(path.to_string())
}

fn list(paths: &[&str]) -> Arguments {
    Arguments::List(strings(paths))
}

fn module(name: &str, items: Vec<Declaration>) -> Declaration {
    Declaration::Module { name: name.to_string(), test_only: false, items }
}

fn names(items: &[Declaration]) -> Vec<String> {
    items
        .iter()
        .map(|item| match item {
            Declaration::Module { name, .. } => name.clone(),
            Declaration::Test { name, .. } => name.clone(),
        })
        .collect()
}

fn count_tests(items: &[Declaration]) -> usize {
    items
        .iter()
        .map(|item| match item {
            Declaration::Module { items, .. } => count_tests(items),
            Declaration::Test { .. } => 1,
        })
        .sum()
}

fn count_modules(items: &[Declaration]) -> usize {
    items
        .iter()
        .map(|item| match item {
            Declaration::Module { items, .. } => 1 + count_modules(items),
            Declaration::Test { .. } => 0,
        })
        .sum()
}

#[test]
fn a_single_file_gives_a_test_on_its_content() {
    let root = directory("resources", vec![file("foo.txt", "/abs/resources/foo.txt")]);
    let suite = test_each_file(&args(&[]), &root).unwrap();
    assert_eq!(suite, vec![test("foo", Type::File, single("/abs/resources/foo.txt"))]);
}

#[test]
fn a_single_file_gives_a_test_on_its_path() {
    let root = directory("resources", vec![file("foo.txt", "/abs/resources/foo.txt")]);
    let suite = test_each_path(&args(&[]), &root).unwrap();
    assert_eq!(suite, vec![test("foo", Type::Path, single("/abs/resources/foo.txt"))]);
}

#[test]
fn files_of_one_stem_give_one_test_in_the_order_asked_for() {
    let root = directory(
        "resources",
        vec![file("sum.out", "/abs/sum.out"), file("sum.in", "/abs/sum.in")],
    );
    let suite = test_each_file(&args(&["in", "out"]), &root).unwrap();
    assert_eq!(suite, vec![test("sum", Type::File, list(&["/abs/sum.in", "/abs/sum.out"]))]);
    let turned = test_each_file(&args(&["out", "in"]), &root).unwrap();
    assert_eq!(turned, vec![test("sum", Type::File, list(&["/abs/sum.out", "/abs/sum.in"]))]);
}

#[test]
fn one_extension_still_gives_a_list() {
    let root = directory("resources", vec![file("sum.in", "/abs/sum.in")]);
    let suite = test_each_path(&args(&["in"]), &root).unwrap();
    assert_eq!(suite, vec![test("sum", Type::Path, list(&["/abs/sum.in"]))]);
}

#[test]
fn a_missing_file_of_a_pair_fails_the_whole_suite() {
    let root = directory(
        "resources",
        vec![
            file("max.in", "/abs/max.in"),
            file("max.out", "/abs/max.out"),
            file("sum.in", "/abs/sum.in"),
        ],
    );
    assert_eq!(
        test_each_file(&args(&["in", "out"]), &root),
        Err(Error::MissingExpectedFile { stem: "sum".to_string(), extension: "out".to_string() })
    );
}

#[test]
fn the_first_missing_extension_is_reported() {
    let root = directory("resources", vec![file("sum.txt", "/abs/sum.txt")]);
    assert_eq!(
        test_each_file(&args(&["in", "out"]), &root),
        Err(Error::MissingExpectedFile { stem: "sum".to_string(), extension: "in".to_string() })
    );
}

#[test]
fn a_missing_file_in_a_subdirectory_fails_the_whole_suite() {
    let root = directory(
        "resources",
        vec![
            file("ok.in", "/abs/ok.in"),
            directory("nested", vec![file("lonely.out", "/abs/nested/lonely.out")]),
        ],
    );
    assert_eq!(
        test_each_file(&args(&["in"]), &root),
        Err(Error::MissingExpectedFile { stem: "lonely".to_string(), extension: "in".to_string() })
    );
}

#[test]
fn names_that_collide_are_both_kept() {
    let root = directory(
        "resources",
        vec![file("a-b.txt", "/abs/a-b.txt"), file("a.b.txt", "/abs/a.b.txt")],
    );
    let suite = test_each_file(&args(&[]), &root).unwrap();
    assert_eq!(
        suite,
        vec![
            test("a_b", Type::File, single("/abs/a-b.txt")),
            test("a_b_2", Type::File, single("/abs/a.b.txt")),
        ]
    );
}

#[test]
fn files_that_differ_in_extension_collide_without_extensions() {
    let root = directory(
        "resources",
        vec![file("a.txt", "/abs/a.txt"), file("a.md", "/abs/a.md"), file("a", "/abs/a")],
    );
    let suite = test_each_file(&args(&[]), &root).unwrap();
    assert_eq!(names(&suite), ["a", "a_2", "a_3"]);
}

#[test]
fn a_name_that_starts_with_a_digit_gets_the_marker() {
    let root = directory("resources", vec![file("1.txt", "/abs/1.txt")]);
    let suite = test_each_file(&args(&[]), &root).unwrap();
    assert_eq!(suite, vec![test("test_1", Type::File, single("/abs/1.txt"))]);
}

#[test]
fn with_extensions_the_stem_is_the_name() {
    let root = directory("resources", vec![file("a.b.in", "/abs/a.b.in")]);
    let suite = test_each_file(&args(&["in"]), &root).unwrap();
    assert_eq!(suite, vec![test("a_b", Type::File, list(&["/abs/a.b.in"]))]);
}

#[test]
fn directories_become_modules_before_the_tests() {
    let root = directory(
        "resources",
        vec![
            file("top.txt", "/abs/top.txt"),
            directory(
                "unit",
                vec![
                    file("one.txt", "/abs/unit/one.txt"),
                    directory("deep", vec![file("two.txt", "/abs/unit/deep/two.txt")]),
                ],
            ),
            directory("empty", vec![]),
        ],
    );
    let suite = test_each_file(&args(&[]), &root).unwrap();
    assert_eq!(
        suite,
        vec![
            module(
                "unit",
                vec![
                    module("deep", vec![test("two", Type::File, single("/abs/unit/deep/two.txt"))]),
                    test("one", Type::File, single("/abs/unit/one.txt")),
                ],
            ),
            module("empty", vec![]),
            test("top", Type::File, single("/abs/top.txt")),
        ]
    );
    assert_eq!(count_tests(&suite), 3);
    assert_eq!(count_modules(&suite), 3);
}

#[test]
fn a_directory_and_a_file_may_share_a_name() {
    let root = directory(
        "resources",
        vec![
            file("case.txt", "/abs/case.txt"),
            directory("case", vec![]),
            directory("case-", vec![]),
            directory("case+", vec![]),
        ],
    );
    let suite = test_each_file(&args(&[]), &root).unwrap();
    assert_eq!(names(&suite), ["case", "case_", "case__2", "case"]);
}

#[test]
fn names_are_unique_in_each_directory_by_itself() {
    let root = directory(
        "resources",
        vec![
            directory("a", vec![file("x.txt", "/1"), file("x.md", "/2")]),
            directory("b", vec![file("x.txt", "/3")]),
        ],
    );
    let suite = test_each_file(&args(&[]), &root).unwrap();
    assert_eq!(
        suite,
        vec![
            module(
                "a",
                vec![test("x", Type::File, single("/1")), test("x_2", Type::File, single("/2"))],
            ),
            module("b", vec![test("x", Type::File, single("/3"))]),
        ]
    );
}

#[test]
fn the_suite_goes_into_its_module() {
    let root = directory("resources", vec![file("foo.txt", "/abs/foo.txt")]);
    let mut parsed = args(&[]);
    parsed.module = Some("simple".to_string());
    let suite = test_each_file(&parsed, &root).unwrap();
    assert_eq!(
        suite,
        vec![Declaration::Module {
            name: "simple".to_string(),
            test_only: true,
            items: vec![test("foo", Type::File, single("/abs/foo.txt"))],
        }]
    );
}

#[test]
fn attributes_and_async_go_to_every_test() {
    let root = directory("resources", vec![file("a.txt", "/a"), file("b.txt", "/b")]);
    let mut parsed = args(&[]);
    parsed.attributes = strings(&["tokio::test", "ignore"]);
    parsed.async_fn = true;
    parsed.function = "|input: &str| run(input)".to_string();
    let suite = test_each(&parsed, &root, &Type::File).unwrap();
    assert_eq!(suite.len(), 2);
    for (item, path) in suite.iter().zip(["/a", "/b"]) {
        match item {
            Declaration::Test { attributes, is_async, function, kind, arguments, .. } => {
                assert_eq!(attributes, &strings(&["tokio::test", "ignore"]));
                assert!(*is_async);
                assert_eq!(function, "|input: &str| run(input)");
                assert_eq!(*kind, Type::File);
                assert_eq!(arguments, &single(path));
            }
            Declaration::Module { .. } => panic!("a module where a test belongs"),
        }
    }
}

#[test]
fn a_root_that_is_no_directory_is_refused() {
    let parsed = args(&[]);
    assert_eq!(test_each_file(&parsed, &file("resources", "/abs/resources")), Err(Error::InvalidRoot));
    let missing = Entry::Other { name: "resources".to_string() };
    assert_eq!(test_each_path(&parsed, &missing), Err(Error::InvalidRoot));
}

#[test]
fn an_unsupported_entry_fails_the_suite() {
    let root =
        directory("resources", vec![file("a.txt", "/a"), Entry::Other { name: "fifo".to_string() }]);
    assert_eq!(
        test_each_file(&args(&[]), &root),
        Err(Error::UnsupportedEntry { name: "fifo".to_string() })
    );
}

#[test]
fn a_key_that_is_no_file_of_its_directory_is_reported() {
    let tree = Tree { children: vec![], here: strings(&["ghost.txt"]), files: vec![] };
    assert_eq!(
        generate_from_tree(&tree, &args(&[]), &Type::File),
        Err(Error::MissingFile { name: "ghost.txt".to_string() })
    );
}

#[test]
fn the_first_file_of_a_name_is_the_one_resolved() {
    let tree = Tree {
        children: vec![],
        here: strings(&["a.txt"]),
        files: vec![
            ("b.txt".to_string(), "/b".to_string()),
            ("a.txt".to_string(), "/first".to_string()),
            ("a.txt".to_string(), "/second".to_string()),
        ],
    };
    let suite = generate_from_tree(&tree, &args(&[]), &Type::Path).unwrap();
    assert_eq!(suite, vec![test("a", Type::Path, single("/first"))]);
}

#[test]
fn an_empty_tree_gives_nothing() {
    let tree = Tree::new(&vec![], &vec![]).unwrap();
    assert_eq!(generate_from_tree(&tree, &args(&["in"]), &Type::File), Ok(vec![]));
}
