//! The generated declarations have the shape of the tree they are made
//! from.

use crate::config::ArgsView;
use crate::emit::{emitted, emitted_modules, emitted_tests, DeclarationView, Type};
use crate::tree::TreeView;
use vstd::prelude::*;

verus! {

/// The declarations follow the tree: first a module for each subdirectory,
/// in their order and each following the tree of its subdirectory, then a
/// test for each key, and nothing else.
pub open spec fn mirrors(items: Seq<DeclarationView>, tree: TreeView) -> bool
    decreases tree,
{
    &&& items.len() == tree.children.len() + tree.here.len()
    &&& forall|i: int|
        0 <= i < tree.children.len() ==> (#[trigger] items[i]) is Module && mirrors(
            items[i]->Module_items,
            tree.children[i].1,
        )
    &&& forall|j: int| tree.children.len() <= j < items.len() ==> (#[trigger] items[j]) is Test
}

/// The number of tests among the first `n` declarations, at any depth.
pub open spec fn tests_among(items: Seq<DeclarationView>, n: nat) -> nat
    decreases items, n,
{
    if n == 0 || n > items.len() {
        0
    } else {
        tests_among(items, (n - 1) as nat) + match items[n - 1] {
            DeclarationView::Module { items: inner, .. } => tests_among(inner, inner.len()),
            DeclarationView::Test { .. } => 1,
        }
    }
}

/// The number of modules among the first `n` declarations, at any depth.
pub open spec fn modules_among(items: Seq<DeclarationView>, n: nat) -> nat
    decreases items, n,
{
    if n == 0 || n > items.len() {
        0
    } else {
        modules_among(items, (n - 1) as nat) + match items[n - 1] {
            DeclarationView::Module { items: inner, .. } => 1 + modules_among(inner, inner.len()),
            DeclarationView::Test { .. } => 0,
        }
    }
}

/// The number of keys in the first `n` subdirectories of a tree, at any
/// depth.
pub open spec fn keys_below(tree: TreeView, n: nat) -> nat
    decreases tree, n,
{
    if n == 0 || n > tree.children.len() {
        0
    } else {
        let child = tree.children[n - 1].1;
        keys_below(tree, (n - 1) as nat) + child.here.len() + keys_below(
            child,
            child.children.len(),
        )
    }
}

/// The number of directories below the first `n` subdirectories of a
/// tree, themselves included.
pub open spec fn directories_below(tree: TreeView, n: nat) -> nat
    decreases tree, n,
{
    if n == 0 || n > tree.children.len() {
        0
    } else {
        let child = tree.children[n - 1].1;
        directories_below(tree, (n - 1) as nat) + 1 + directories_below(
            child,
            child.children.len(),
        )
    }
}

/// The number of tests at any depth.
pub open spec fn test_count(items: Seq<DeclarationView>) -> nat {
    tests_among(items, items.len())
}

/// The number of modules at any depth.
pub open spec fn module_count(items: Seq<DeclarationView>) -> nat {
    modules_among(items, items.len())
}

/// The number of keys of a tree at any depth.
pub open spec fn key_count(tree: TreeView) -> nat {
    tree.here.len() + keys_below(tree, tree.children.len())
}

/// The number of directories below the root of a tree.
pub open spec fn directory_count(tree: TreeView) -> nat {
    directories_below(tree, tree.children.len())
}

/// The first `n` tests of a directory are `n` tests.
proof fn emitted_tests_shape(tree: TreeView, args: ArgsView, kind: Type, n: nat)
    requires
        n <= tree.here.len(),
    ensures
        emitted_tests(tree, args, kind, n) matches Ok(tests) ==> tests.len() == n && forall|
            j: int,
        |
            0 <= j < n ==> (#[trigger] tests[j]) is Test,
    decreases n,
{
    if n > 0 {
        emitted_tests_shape(tree, args, kind, (n - 1) as nat);
    }
}

/// The first `n` modules of a directory are `n` modules, each following
/// the tree of its subdirectory.
proof fn emitted_modules_shape(tree: TreeView, args: ArgsView, kind: Type, n: nat)
    requires
        n <= tree.children.len(),
    ensures
        emitted_modules(tree, args, kind, n) matches Ok(modules) ==> modules.len() == n && forall|
            i: int,
        |
            0 <= i < n ==> (#[trigger] modules[i]) is Module && mirrors(
                modules[i]->Module_items,
                tree.children[i].1,
            ),
    decreases tree, 0nat, n,
{
    if n > 0 {
        emitted_modules_shape(tree, args, kind, (n - 1) as nat);
        emitted_mirrors_tree(tree.children[n - 1].1, args, kind);
    }
}

/// What is generated from a tree has the shape of the tree: a module for
/// each directory, nested as the directories are, and a test for each
/// key, in the module of its directory.
pub proof fn emitted_mirrors_tree(tree: TreeView, args: ArgsView, kind: Type)
    ensures
        emitted(tree, args, kind) matches Ok(items) ==> mirrors(items, tree),
    decreases tree, 1nat, 0nat,
{
    emitted_modules_shape(tree, args, kind, tree.children.len());
    emitted_tests_shape(tree, args, kind, tree.here.len());
}

/// Declarations that follow a tree hold, among their first `n`, as many
/// tests and modules as the tree has keys and directories there.
proof fn mirrored_counts_among(items: Seq<DeclarationView>, tree: TreeView, n: nat)
    requires
        mirrors(items, tree),
        n <= items.len(),
    ensures
        n <= tree.children.len() ==> tests_among(items, n) == keys_below(tree, n),
        n <= tree.children.len() ==> modules_among(items, n) == directories_below(tree, n),
        n >= tree.children.len() ==> tests_among(items, n) == keys_below(
            tree,
            tree.children.len(),
        ) + n - tree.children.len(),
        n >= tree.children.len() ==> modules_among(items, n) == directories_below(
            tree,
            tree.children.len(),
        ),
    decreases tree, n,
{
    if n > 0 {
        mirrored_counts_among(items, tree, (n - 1) as nat);
        if n <= tree.children.len() {
            let inner = items[n - 1]->Module_items;
            let child = tree.children[n - 1].1;
            assert(items[n - 1] is Module && mirrors(inner, child));
            mirrored_counts_among(inner, child, inner.len());
        } else {
            assert(items[n - 1] is Test);
        }
    }
}

/// Declarations that follow a tree hold as many tests as the tree has
/// keys, and as many modules as it has directories.
pub proof fn mirrored_counts(items: Seq<DeclarationView>, tree: TreeView)
    requires
        mirrors(items, tree),
    ensures
        test_count(items) == key_count(tree),
        module_count(items) == directory_count(tree),
{
    mirrored_counts_among(items, tree, items.len());
}

/// From a tree with N keys and M directories below its root exactly N
/// tests and M modules are generated, each test in the module of its
/// directory.
pub proof fn emitted_counts(tree: TreeView, args: ArgsView, kind: Type)
    ensures
        emitted(tree, args, kind) matches Ok(items) ==> {
            &&& mirrors(items, tree)
            &&& test_count(items) == key_count(tree)
            &&& module_count(items) == directory_count(tree)
        },
{
    emitted_mirrors_tree(tree, args, kind);
    if let Ok(items) = emitted(tree, args, kind) {
        mirrored_counts(items, tree);
    }
}

} // verus!
