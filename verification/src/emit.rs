//! From the tree of test files to the declarations of the tests.

use crate::config::{ArgsView, TestEachArgs};
use crate::error::{Error, ErrorView};
use crate::ident::{sanitize_ident, sanitized};
use crate::listing::{file_stem, stem};
use crate::names::{generate_name, identifiers, identifiers_distinct, unique_names, unique_names_step};
use crate::text::{clone_texts, text_pairs, texts};
use crate::tree::{child_names, Tree, TreeView};
use vstd::hash_set::StringHashSet;
use vstd::prelude::*;
use vstd::string::*;

verus! {

/// What a test hands to its function for each file.
#[derive(Clone, Copy, Debug, PartialEq, Eq, Structural)]
pub enum Type {
    /// The content of the file.
    File,
    /// The path of the file.
    Path,
}

/// The files of one test, each by the absolute path it resolves to.
#[derive(Debug, PartialEq, Eq)]
pub enum Arguments {
    /// One file, handed over as it is.
    Single(String),
    /// One file for each extension asked for, in that order, handed over
    /// as one array.
    List(Vec<String>),
}

/// One generated item.
#[derive(Debug, PartialEq, Eq)]
pub enum Declaration {
    /// A module with the items of one directory. Only the module around a
    /// whole suite is compiled for tests only.
    Module { name: String, test_only: bool, items: Vec<Declaration> },
    /// A test that calls `function` with `arguments`.
    Test {
        name: String,
        attributes: Vec<String>,
        is_async: bool,
        function: String,
        kind: Type,
        arguments: Arguments,
    },
}

/// [`Arguments`] with its texts as sequences of characters.
pub ghost enum ArgumentsView {
    Single(Seq<char>),
    List(Seq<Seq<char>>),
}

/// A [`Declaration`] with its texts as sequences of characters.
pub ghost enum DeclarationView {
    Module { name: Seq<char>, test_only: bool, items: Seq<DeclarationView> },
    Test {
        name: Seq<char>,
        attributes: Seq<Seq<char>>,
        is_async: bool,
        function: Seq<char>,
        kind: Type,
        arguments: ArgumentsView,
    },
}

impl View for Arguments {
    type V = ArgumentsView;

    open spec fn view(&self) -> ArgumentsView {
        match self {
            Arguments::Single(path) => ArgumentsView::Single(path@),
            Arguments::List(paths) => ArgumentsView::List(texts(paths@)),
        }
    }
}

impl Declaration {
    pub open spec fn view(&self) -> DeclarationView
        decreases self,
    {
        match self {
            Declaration::Module { name, test_only, items } => DeclarationView::Module {
                name: name@,
                test_only: *test_only,
                items: Seq::new(
                    items.len() as nat,
                    |i: int|
                        if 0 <= i < items.len() {
                            items[i]@
                        } else {
                            arbitrary()
                        },
                ),
            },
            Declaration::Test {
                name,
                attributes,
                is_async,
                function,
                kind,
                arguments,
            } => DeclarationView::Test {
                name: name@,
                attributes: texts(attributes@),
                is_async: *is_async,
                function: function@,
                kind: *kind,
                arguments: arguments@,
            },
        }
    }
}

/// The declarations of a row, each as its view.
pub open spec fn declaration_views(row: Seq<Declaration>) -> Seq<DeclarationView> {
    Seq::new(row.len(), |i: int| row[i]@)
}

/// The path that the first file named `name` resolves to, if there is one.
pub open spec fn resolve(files: Seq<(Seq<char>, Seq<char>)>, name: Seq<char>) -> Option<Seq<char>>
    decreases files.len(),
{
    if files.len() == 0 {
        None
    } else {
        match resolve(files.drop_last(), name) {
            Some(path) => Some(path),
            None => if files.last().0 == name {
                Some(files.last().1)
            } else {
                None
            },
        }
    }
}

/// The name of the file that has the given stem and extension.
pub open spec fn variant_name(stem: Seq<char>, extension: Seq<char>) -> Seq<char> {
    stem + seq!['.'] + extension
}

/// The paths of the files of `stem` for the first `n` extensions, or the
/// first of those extensions that `stem` has no file for.
pub open spec fn resolved_variants(
    files: Seq<(Seq<char>, Seq<char>)>,
    stem: Seq<char>,
    extensions: Seq<Seq<char>>,
    n: nat,
) -> Result<Seq<Seq<char>>, ErrorView>
    decreases n,
{
    if n == 0 || n > extensions.len() {
        Ok(Seq::empty())
    } else {
        match resolved_variants(files, stem, extensions, (n - 1) as nat) {
            Err(e) => Err(e),
            Ok(paths) => match resolve(files, variant_name(stem, extensions[n - 1])) {
                Some(path) => Ok(paths.push(path)),
                None => Err(
                    ErrorView::MissingExpectedFile { stem, extension: extensions[n - 1] },
                ),
            },
        }
    }
}

/// What the test made from `key` hands to its function: without
/// extensions the file of that name, else the files of that stem, one for
/// each extension.
pub open spec fn leaf_arguments(
    files: Seq<(Seq<char>, Seq<char>)>,
    key: Seq<char>,
    extensions: Seq<Seq<char>>,
) -> Result<ArgumentsView, ErrorView> {
    if extensions.len() == 0 {
        match resolve(files, key) {
            Some(path) => Ok(ArgumentsView::Single(path)),
            None => Err(ErrorView::MissingFile { name: key }),
        }
    } else {
        match resolved_variants(files, key, extensions, extensions.len()) {
            Ok(paths) => Ok(ArgumentsView::List(paths)),
            Err(e) => Err(e),
        }
    }
}

/// The stem that the test made from `key` is named after.
pub open spec fn leaf_stem(key: Seq<char>, extensions: Seq<Seq<char>>) -> Seq<char> {
    if extensions.len() == 0 {
        stem(key)
    } else {
        key
    }
}

/// The names of the modules of a directory, one for each subdirectory.
pub open spec fn module_names(tree: TreeView) -> Seq<Seq<char>> {
    identifiers(child_names(tree.children))
}

/// The names of the tests of a directory, one for each of its keys.
pub open spec fn test_names(tree: TreeView, extensions: Seq<Seq<char>>) -> Seq<Seq<char>> {
    identifiers(tree.here.map_values(|key: Seq<char>| leaf_stem(key, extensions)))
}

/// The tests of the first `n` keys of a directory, or the first failure
/// among them.
pub open spec fn emitted_tests(tree: TreeView, args: ArgsView, kind: Type, n: nat) -> Result<
    Seq<DeclarationView>,
    ErrorView,
>
    decreases n,
{
    if n == 0 || n > tree.here.len() {
        Ok(Seq::empty())
    } else {
        match emitted_tests(tree, args, kind, (n - 1) as nat) {
            Err(e) => Err(e),
            Ok(tests) => match leaf_arguments(tree.files, tree.here[n - 1], args.extensions) {
                Err(e) => Err(e),
                Ok(arguments) => Ok(
                    tests.push(
                        DeclarationView::Test {
                            name: test_names(tree, args.extensions)[n - 1],
                            attributes: args.attributes,
                            is_async: args.async_fn,
                            function: args.function,
                            kind,
                            arguments,
                        },
                    ),
                ),
            },
        }
    }
}

/// The modules of the first `n` subdirectories of a directory, or the
/// first failure among them.
pub open spec fn emitted_modules(tree: TreeView, args: ArgsView, kind: Type, n: nat) -> Result<
    Seq<DeclarationView>,
    ErrorView,
>
    decreases tree, 0nat, n,
{
    if n == 0 || n > tree.children.len() {
        Ok(Seq::empty())
    } else {
        match emitted_modules(tree, args, kind, (n - 1) as nat) {
            Err(e) => Err(e),
            Ok(modules) => match emitted(tree.children[n - 1].1, args, kind) {
                Err(e) => Err(e),
                Ok(items) => Ok(
                    modules.push(
                        DeclarationView::Module {
                            name: module_names(tree)[n - 1],
                            test_only: false,
                            items,
                        },
                    ),
                ),
            },
        }
    }
}

/// The declarations of a directory: a module for each subdirectory, then
/// a test for each key. Or the first failure, directories gone into as
/// they are met.
pub open spec fn emitted(tree: TreeView, args: ArgsView, kind: Type) -> Result<
    Seq<DeclarationView>,
    ErrorView,
>
    decreases tree, 1nat, 0nat,
{
    match emitted_modules(tree, args, kind, tree.children.len()) {
        Err(e) => Err(e),
        Ok(modules) => match emitted_tests(tree, args, kind, tree.here.len()) {
            Err(e) => Err(e),
            Ok(tests) => Ok(modules + tests),
        },
    }
}

/// A file found among the first `k` files is the file found among all.
pub proof fn resolve_stays(files: Seq<(Seq<char>, Seq<char>)>, name: Seq<char>, k: int)
    requires
        0 <= k <= files.len(),
        resolve(files.take(k), name) is Some,
    ensures
        resolve(files, name) == resolve(files.take(k), name),
    decreases files.len(),
{
    if k < files.len() {
        assert(files.drop_last().take(k) == files.take(k));
        resolve_stays(files.drop_last(), name, k);
    } else {
        assert(files.take(k) == files);
    }
}

/// A missing file among the first `k` extensions is the failure of any
/// longer run.
pub proof fn variants_failure_stays(
    files: Seq<(Seq<char>, Seq<char>)>,
    stem: Seq<char>,
    extensions: Seq<Seq<char>>,
    k: nat,
    n: nat,
)
    requires
        k <= n <= extensions.len(),
        resolved_variants(files, stem, extensions, k) is Err,
    ensures
        resolved_variants(files, stem, extensions, n) == resolved_variants(
            files,
            stem,
            extensions,
            k,
        ),
    decreases n,
{
    if k < n {
        variants_failure_stays(files, stem, extensions, k, (n - 1) as nat);
    }
}

/// A failure among the first `k` tests is the failure of any longer run.
pub proof fn tests_failure_stays(tree: TreeView, args: ArgsView, kind: Type, k: nat, n: nat)
    requires
        k <= n <= tree.here.len(),
        emitted_tests(tree, args, kind, k) is Err,
    ensures
        emitted_tests(tree, args, kind, n) == emitted_tests(tree, args, kind, k),
    decreases n,
{
    if k < n {
        tests_failure_stays(tree, args, kind, k, (n - 1) as nat);
    }
}

/// A failure among the first `k` modules is the failure of any longer run.
pub proof fn modules_failure_stays(tree: TreeView, args: ArgsView, kind: Type, k: nat, n: nat)
    requires
        k <= n <= tree.children.len(),
        emitted_modules(tree, args, kind, k) is Err,
    ensures
        emitted_modules(tree, args, kind, n) == emitted_modules(tree, args, kind, k),
    decreases n,
{
    if k < n {
        modules_failure_stays(tree, args, kind, k, (n - 1) as nat);
    }
}

/// Looks a file up by its name.
fn find_file(files: &Vec<(String, String)>, name: &String) -> (found: Option<String>)
    ensures
        match found {
            Some(path) => resolve(text_pairs(files@), name@) == Some(path@),
            None => resolve(text_pairs(files@), name@) is None,
        },
{
    let ghost all = text_pairs(files@);
    let mut i: usize = 0;
    while i < files.len()
        invariant
            i <= files.len(),
            all == text_pairs(files@),
            resolve(all.take(i as int), name@) is None,
        decreases files.len() - i,
    {
        proof {
            assert(all.take(i + 1).drop_last() == all.take(i as int));
            assert(all.take(i + 1).last() == (files@[i as int].0@, files@[i as int].1@));
        }
        if files[i].0 == *name {
            proof {
                resolve_stays(all, name@, i + 1);
            }
            return Some(files[i].1.clone());
        }
        i += 1;
    }
    assert(all.take(files.len() as int) == all);
    None
}

/// Resolves the files of one stem, one for each extension.
fn resolve_variants(files: &Vec<(String, String)>, stem: &String, extensions: &Vec<String>) -> (result:
    Result<Vec<String>, Error>)
    ensures
        match result {
            Ok(paths) => resolved_variants(
                text_pairs(files@),
                stem@,
                texts(extensions@),
                extensions@.len(),
            ) == Ok::<Seq<Seq<char>>, ErrorView>(texts(paths@)),
            Err(e) => resolved_variants(
                text_pairs(files@),
                stem@,
                texts(extensions@),
                extensions@.len(),
            ) == Err::<Seq<Seq<char>>, ErrorView>(e@),
        },
{
    let ghost wanted = texts(extensions@);
    let mut paths: Vec<String> = Vec::new();
    let mut i: usize = 0;
    assert(texts(paths@) =~= Seq::empty());
    while i < extensions.len()
        invariant
            i <= extensions.len(),
            wanted == texts(extensions@),
            resolved_variants(text_pairs(files@), stem@, wanted, i as nat) == Ok::<
                Seq<Seq<char>>,
                ErrorView,
            >(texts(paths@)),
        decreases extensions.len() - i,
    {
        let extension = &extensions[i];
        assert(wanted[i as int] == extension@);
        let mut file = stem.clone();
        file.push('.');
        file.append(extension.as_str());
        assert(file@ == variant_name(stem@, extension@));
        match find_file(files, &file) {
            Some(path) => {
                let ghost before = paths@;
                paths.push(path);
                assert(texts(paths@) =~= texts(before).push(path@));
            },
            None => {
                proof {
                    variants_failure_stays(
                        text_pairs(files@),
                        stem@,
                        wanted,
                        (i + 1) as nat,
                        wanted.len(),
                    );
                }
                return Err(
                    Error::MissingExpectedFile { stem: stem.clone(), extension: extension.clone() },
                );
            },
        }
        i += 1;
    }
    Ok(paths)
}

/// Generates the declarations of a directory: a module for each
/// subdirectory, with the declarations of that directory in it, then a
/// test for each key of the directory itself. The names are sanitized and
/// made unique, the modules among themselves and the tests among
/// themselves. Nothing is generated where a file is missing.
pub fn generate_from_tree(tree: &Tree, parsed: &TestEachArgs, invocation_type: &Type) -> (result:
    Result<Vec<Declaration>, Error>)
    ensures
        match result {
            Ok(stream) => emitted(tree@, parsed@, *invocation_type) == Ok::<
                Seq<DeclarationView>,
                ErrorView,
            >(declaration_views(stream@)),
            Err(e) => emitted(tree@, parsed@, *invocation_type) == Err::<
                Seq<DeclarationView>,
                ErrorView,
            >(e@),
        },
    decreases tree,
{
    let ghost model = tree@;
    let ghost args = parsed@;
    let ghost kind = *invocation_type;
    let mut stream: Vec<Declaration> = Vec::new();

    let ghost folders = child_names(model.children).map_values(|name: Seq<char>| sanitized(name));
    let mut taken_names_folders = StringHashSet::new();
    let mut i: usize = 0;
    proof {
        assert(declaration_views(stream@) =~= Seq::empty());
        assert(folders.take(0) =~= Seq::empty());
        assert(unique_names(folders.take(0)).to_set() =~= Set::empty());
        assert(model.children.len() == tree.children.len());
    }
    while i < tree.children.len()
        invariant
            i <= tree.children.len(),
            model == tree@,
            args == parsed@,
            kind == *invocation_type,
            model.children.len() == tree.children.len(),
            folders == child_names(model.children).map_values(
                |name: Seq<char>| sanitized(name),
            ),
            taken_names_folders@ == unique_names(folders.take(i as int)).to_set(),
            taken_names_folders@.finite(),
            emitted_modules(model, args, kind, i as nat) == Ok::<Seq<DeclarationView>, ErrorView>(
                declaration_views(stream@),
            ),
        decreases tree.children.len() - i,
    {
        let directory = &tree.children[i].1;
        assert(model.children[i as int] == (tree.children[i as int].0@, directory@));
        let file_name = sanitize_ident(tree.children[i].0.as_str());
        assert(file_name@ == folders[i as int]);
        let file_name = generate_name(file_name, &mut taken_names_folders);
        proof {
            identifiers_distinct(child_names(model.children));
            unique_names_step(folders, i as int);
            assert(file_name@ == module_names(model)[i as int]);
        }
        let items = match generate_from_tree(directory, parsed, invocation_type) {
            Ok(items) => items,
            Err(e) => {
                proof {
                    modules_failure_stays(model, args, kind, (i + 1) as nat, model.children.len());
                }
                return Err(e);
            },
        };
        let ghost before = stream@;
        let module = Declaration::Module { name: file_name, test_only: false, items };
        assert(module@->Module_items =~= declaration_views(items@));
        stream.push(module);
        assert(declaration_views(stream@) =~= declaration_views(before).push(module@));
        i += 1;
    }

    let ghost modules = declaration_views(stream@);
    let ghost stems = model.here.map_values(|key: Seq<char>| leaf_stem(key, args.extensions));
    let ghost files = stems.map_values(|name: Seq<char>| sanitized(name));
    let mut taken_names_files = StringHashSet::new();
    let mut j: usize = 0;
    proof {
        assert(files.take(0) =~= Seq::empty());
        assert(unique_names(files.take(0)).to_set() =~= Set::empty());
        assert(modules + Seq::empty() =~= modules);
    }
    while j < tree.here.len()
        invariant
            j <= tree.here.len(),
            model == tree@,
            args == parsed@,
            kind == *invocation_type,
            stems == model.here.map_values(|key: Seq<char>| leaf_stem(key, args.extensions)),
            files == stems.map_values(|name: Seq<char>| sanitized(name)),
            taken_names_files@ == unique_names(files.take(j as int)).to_set(),
            taken_names_files@.finite(),
            emitted_modules(model, args, kind, model.children.len()) == Ok::<
                Seq<DeclarationView>,
                ErrorView,
            >(modules),
            exists|tests: Seq<DeclarationView>|
                #![auto]
                emitted_tests(model, args, kind, j as nat) == Ok::<Seq<DeclarationView>, ErrorView>(
                    tests,
                ) && declaration_views(stream@) == modules + tests,
        decreases tree.here.len() - j,
    {
        let key = &tree.here[j];
        assert(model.here[j as int] == key@);
        let ghost tests = choose|tests: Seq<DeclarationView>|
            #![auto]
            emitted_tests(model, args, kind, j as nat) == Ok::<Seq<DeclarationView>, ErrorView>(
                tests,
            ) && declaration_views(stream@) == modules + tests;
        let file_name = if parsed.extensions.len() == 0 {
            sanitize_ident(file_stem(key.as_str()).as_str())
        } else {
            sanitize_ident(key.as_str())
        };
        assert(file_name@ == files[j as int]);
        let file_name = generate_name(file_name, &mut taken_names_files);
        proof {
            identifiers_distinct(stems);
            unique_names_step(files, j as int);
            assert(file_name@ == test_names(model, args.extensions)[j as int]);
        }
        let found = if parsed.extensions.len() == 0 {
            match find_file(&tree.files, key) {
                Some(path) => Ok(Arguments::Single(path)),
                None => Err(Error::MissingFile { name: key.clone() }),
            }
        } else {
            match resolve_variants(&tree.files, key, &parsed.extensions) {
                Ok(paths) => Ok(Arguments::List(paths)),
                Err(e) => Err(e),
            }
        };
        let arguments = match found {
            Ok(arguments) => arguments,
            Err(e) => {
                proof {
                    assert(leaf_arguments(model.files, key@, args.extensions) == Err::<
                        ArgumentsView,
                        ErrorView,
                    >(e@));
                    tests_failure_stays(model, args, kind, (j + 1) as nat, model.here.len());
                }
                return Err(e);
            },
        };
        assert(leaf_arguments(model.files, key@, args.extensions) == Ok::<
            ArgumentsView,
            ErrorView,
        >(arguments@));
        let ghost before = stream@;
        let test = Declaration::Test {
            name: file_name,
            attributes: clone_texts(&parsed.attributes),
            is_async: parsed.async_fn,
            function: parsed.function.clone(),
            kind: *invocation_type,
            arguments,
        };
        stream.push(test);
        proof {
            assert(declaration_views(stream@) =~= declaration_views(before).push(test@));
            assert(emitted_tests(model, args, kind, (j + 1) as nat) == Ok::<
                Seq<DeclarationView>,
                ErrorView,
            >(tests.push(test@)));
            assert((modules + tests).push(test@) =~= modules + tests.push(test@));
        }
        j += 1;
    }
    Ok(stream)
}

} // verus!
