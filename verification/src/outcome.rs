//! When a suite is generated, and by what it fails.

use crate::config::ArgsView;
use crate::emit::{
    emitted, emitted_modules, emitted_tests, resolve, resolved_variants, variant_name, Type,
};
use crate::tree::{keys_are_files, listed, TreeView};
use vstd::prelude::*;

verus! {

/// Whether the key at `j` has every file that its test takes: without
/// extensions the file of that name, else a file for each extension.
pub open spec fn key_has_files(tree: TreeView, extensions: Seq<Seq<char>>, j: int) -> bool {
    if extensions.len() == 0 {
        resolve(tree.files, tree.here[j]) is Some
    } else {
        forall|k: int|
            0 <= k < extensions.len() ==> resolve(
                tree.files,
                #[trigger] variant_name(tree.here[j], extensions[k]),
            ) is Some
    }
}

/// Whether every key of the tree, at any depth, has every file that its
/// test takes.
pub open spec fn has_all_files(tree: TreeView, extensions: Seq<Seq<char>>) -> bool
    decreases tree,
{
    &&& forall|j: int| 0 <= j < tree.here.len() ==> #[trigger] key_has_files(tree, extensions, j)
    &&& forall|i: int|
        0 <= i < tree.children.len() ==> has_all_files(
            (#[trigger] tree.children[i]).1,
            extensions,
        )
}

/// The files of a stem are resolved for the first `n` extensions exactly
/// where it has a file for each of them.
proof fn variants_resolve_where_present(
    files: Seq<(Seq<char>, Seq<char>)>,
    stem: Seq<char>,
    extensions: Seq<Seq<char>>,
    n: nat,
)
    requires
        n <= extensions.len(),
    ensures
        resolved_variants(files, stem, extensions, n) is Ok <==> forall|k: int|
            0 <= k < n ==> resolve(files, #[trigger] variant_name(stem, extensions[k])) is Some,
    decreases n,
{
    if n > 0 {
        variants_resolve_where_present(files, stem, extensions, (n - 1) as nat);
        if resolved_variants(files, stem, extensions, (n - 1) as nat) is Ok && !(
        resolved_variants(files, stem, extensions, n) is Ok) {
            assert(resolve(files, variant_name(stem, extensions[n - 1])) is None);
        }
    }
}

/// The first `n` tests are generated exactly where their keys have their
/// files.
proof fn tests_succeed_where_files(tree: TreeView, args: ArgsView, kind: Type, n: nat)
    requires
        n <= tree.here.len(),
    ensures
        emitted_tests(tree, args, kind, n) is Ok <==> forall|j: int|
            0 <= j < n ==> #[trigger] key_has_files(tree, args.extensions, j),
    decreases n,
{
    if n > 0 {
        tests_succeed_where_files(tree, args, kind, (n - 1) as nat);
        variants_resolve_where_present(
            tree.files,
            tree.here[n - 1],
            args.extensions,
            args.extensions.len(),
        );
        if emitted_tests(tree, args, kind, n) is Ok {
            assert(key_has_files(tree, args.extensions, n - 1));
        } else if emitted_tests(tree, args, kind, (n - 1) as nat) is Ok {
            assert(!key_has_files(tree, args.extensions, n - 1));
        }
    }
}

/// The first `n` modules are generated exactly where the trees of their
/// directories have all their files.
proof fn modules_succeed_where_files(tree: TreeView, args: ArgsView, kind: Type, n: nat)
    requires
        n <= tree.children.len(),
    ensures
        emitted_modules(tree, args, kind, n) is Ok <==> forall|i: int|
            0 <= i < n ==> has_all_files((#[trigger] tree.children[i]).1, args.extensions),
    decreases tree, 0nat, n,
{
    if n > 0 {
        modules_succeed_where_files(tree, args, kind, (n - 1) as nat);
        emitted_succeeds_where_files(tree.children[n - 1].1, args, kind);
        if emitted_modules(tree, args, kind, n) is Ok {
            assert(has_all_files(tree.children[n - 1].1, args.extensions));
        } else if emitted_modules(tree, args, kind, (n - 1) as nat) is Ok {
            assert(!has_all_files(tree.children[n - 1].1, args.extensions));
        }
    }
}

/// A suite is generated from a tree exactly where every key of the tree
/// has every file that its test takes.
pub proof fn emitted_succeeds_where_files(tree: TreeView, args: ArgsView, kind: Type)
    ensures
        emitted(tree, args, kind) is Ok <==> has_all_files(tree, args.extensions),
    decreases tree, 1nat, 0nat,
{
    modules_succeed_where_files(tree, args, kind, tree.children.len());
    tests_succeed_where_files(tree, args, kind, tree.here.len());
}

/// A file that is listed can be resolved.
pub proof fn listed_resolves(files: Seq<(Seq<char>, Seq<char>)>, name: Seq<char>)
    requires
        listed(files, name),
    ensures
        resolve(files, name) is Some,
    decreases files.len(),
{
    if files.last().0 != name {
        let at = choose|at: int| 0 <= at < files.len() && (#[trigger] files[at]).0 == name;
        assert(files.drop_last()[at].0 == name);
        listed_resolves(files.drop_last(), name);
    }
}

/// Where files are grouped by extension, the only failure is a stem that
/// lacks the file of an extension.
pub proof fn variants_fail_by_missing_file(
    files: Seq<(Seq<char>, Seq<char>)>,
    stem: Seq<char>,
    extensions: Seq<Seq<char>>,
    n: nat,
)
    ensures
        resolved_variants(files, stem, extensions, n) matches Err(e) ==> e
            is MissingExpectedFile,
    decreases n,
{
    if n > 0 {
        variants_fail_by_missing_file(files, stem, extensions, (n - 1) as nat);
    }
}

/// The tests of a directory fail only by a stem that lacks the file of an
/// extension, provided that, where every file is a test of its own, every
/// key is the name of a file.
proof fn tests_fail_by_missing_file(tree: TreeView, args: ArgsView, kind: Type, n: nat)
    requires
        args.extensions.len() == 0 ==> keys_are_files(tree),
    ensures
        emitted_tests(tree, args, kind, n) matches Err(e) ==> e is MissingExpectedFile,
        args.extensions.len() == 0 ==> emitted_tests(tree, args, kind, n) is Ok,
    decreases n,
{
    if n > 0 && n <= tree.here.len() {
        tests_fail_by_missing_file(tree, args, kind, (n - 1) as nat);
        let key = tree.here[n - 1];
        if args.extensions.len() == 0 {
            listed_resolves(tree.files, key);
        } else {
            variants_fail_by_missing_file(tree.files, key, args.extensions, args.extensions.len());
        }
    }
}

/// The modules of a directory fail only by a stem that lacks the file of
/// an extension, under the same proviso.
proof fn modules_fail_by_missing_file(tree: TreeView, args: ArgsView, kind: Type, n: nat)
    requires
        args.extensions.len() == 0 ==> keys_are_files(tree),
    ensures
        emitted_modules(tree, args, kind, n) matches Err(e) ==> e is MissingExpectedFile,
        args.extensions.len() == 0 ==> emitted_modules(tree, args, kind, n) is Ok,
    decreases tree, 0nat, n,
{
    if n > 0 && n <= tree.children.len() {
        modules_fail_by_missing_file(tree, args, kind, (n - 1) as nat);
        assert(args.extensions.len() == 0 ==> keys_are_files(tree.children[n - 1].1));
        emitted_fails_by_missing_file(tree.children[n - 1].1, args, kind);
    }
}

/// Generating fails only by a stem that lacks the file of an extension.
/// Where every file is a test of its own and every key of the tree is the
/// name of a file, it does not fail.
pub proof fn emitted_fails_by_missing_file(tree: TreeView, args: ArgsView, kind: Type)
    requires
        args.extensions.len() == 0 ==> keys_are_files(tree),
    ensures
        emitted(tree, args, kind) matches Err(e) ==> e is MissingExpectedFile,
        args.extensions.len() == 0 ==> emitted(tree, args, kind) is Ok,
    decreases tree, 1nat, 0nat,
{
    modules_fail_by_missing_file(tree, args, kind, tree.children.len());
    tests_fail_by_missing_file(tree, args, kind, tree.here.len());
}

} // verus!
