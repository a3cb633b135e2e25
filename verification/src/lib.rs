//! Generates one test for each file below a directory.
//!
//! A suite is asked for by a configuration, which [`config::TestEachArgs::parse`]
//! reads from its tokens. What is on disk below the root directory is
//! described by a [`listing::Entry`]. From the two, [`test_each_file`] and
//! [`test_each_path`] make the declarations of the suite: a module for each
//! subdirectory and a test for each file, or for each group of files that
//! differ in their extension only. The names of the modules and tests are
//! made from the names on disk ([`ident::sanitize_ident`]) and are unique
//! among their siblings ([`names::generate_name`]).
//!
//! Nothing here reads a disk or writes code: the caller lists the
//! directory, and turns the declarations into the code of the tests.

pub mod config;
pub mod decimal;
pub mod emit;
pub mod error;
pub mod ident;
pub mod listing;
pub mod names;
pub mod outcome;
pub mod shape;
pub mod syntax;
pub mod text;
pub mod token;
pub mod tree;

use crate::config::{ArgsView, TestEachArgs};
use crate::emit::{
    declaration_views, emitted, generate_from_tree, Declaration, DeclarationView, Type,
};
use crate::error::{Error, ErrorView};
use crate::listing::{entry_views, Entry, EntryView};
use crate::outcome::emitted_fails_by_missing_file;
use crate::shape::{
    directory_count, emitted_counts, key_count, mirrors, module_count, test_count,
};
use crate::tree::{scan_fails_by_unsupported_entry, scanned, scanned_keys_are_files, Tree};
pub use vstd::hash_set::StringHashSet;
use vstd::prelude::*;

verus! {

/// The declarations of the suite that `args` asks for, with `root` as the
/// root directory: those of the tree below the root, inside the module of
/// the suite where it has one. Or why there are none: the root is no
/// directory, it holds what is neither a file nor a directory, or a file
/// is missing.
pub open spec fn expanded(args: ArgsView, root: EntryView, kind: Type) -> Result<
    Seq<DeclarationView>,
    ErrorView,
> {
    match root {
        EntryView::Directory { name, entries } => match scanned(entries, args.extensions) {
            Err(e) => Err(e),
            Ok(tree) => match emitted(tree, args, kind) {
                Err(e) => Err(e),
                Ok(items) => match args.module {
                    Some(module) => Ok(
                        seq![DeclarationView::Module { name: module, test_only: true, items }],
                    ),
                    None => Ok(items),
                },
            },
        },
        _ => Err(ErrorView::InvalidRoot),
    }
}

/// A suite is generated unless the root is no directory, the root holds
/// what is neither a file nor a directory, or a stem lacks the file of an
/// extension that is asked for. Where no extension is asked for, every
/// tree of files and directories gives a suite.
pub proof fn expanded_failures(args: ArgsView, root: EntryView, kind: Type)
    ensures
        expanded(args, root, kind) matches Err(e) ==> e is InvalidRoot || e is UnsupportedEntry
            || e is MissingExpectedFile,
        expanded(args, root, kind) matches Err(e) ==> (e is InvalidRoot <==> !(root
            is Directory)),
        args.extensions.len() == 0 ==> !(expanded(args, root, kind) matches Err(e) && e
            is MissingExpectedFile),
{
    if let EntryView::Directory { name, entries } = root {
        scan_fails_by_unsupported_entry(entries, args.extensions, entries.len());
        if let Ok(tree) = scanned(entries, args.extensions) {
            if args.extensions.len() == 0 {
                scanned_keys_are_files(entries, args.extensions, entries.len());
            }
            emitted_fails_by_missing_file(tree, args, kind);
        }
    }
}

/// A suite has the shape of the tree below its root: inside the module of
/// the suite, where it has one, stand a module for each directory, nested
/// as the directories are, and a test for each key, in the module of its
/// directory, and nothing else.
pub proof fn expanded_mirrors_tree(args: ArgsView, root: EntryView, kind: Type)
    ensures
        expanded(args, root, kind) matches Ok(suite) ==> {
            &&& root is Directory
            &&& scanned(root->entries, args.extensions) matches Ok(tree) && {
                let items = if args.module is Some {
                    suite[0]->Module_items
                } else {
                    suite
                };
                &&& args.module is Some ==> suite.len() == 1 && suite[0] is Module
                &&& mirrors(items, tree)
                &&& test_count(items) == key_count(tree)
                &&& module_count(items) == directory_count(tree)
            }
        },
{
    if let EntryView::Directory { name, entries } = root {
        if let Ok(tree) = scanned(entries, args.extensions) {
            emitted_counts(tree, args, kind);
        }
    }
}

/// Generates the suite that `parsed` asks for from what was found at its
/// root.
pub fn test_each(parsed: &TestEachArgs, root: &Entry, invocation_type: &Type) -> (result: Result<
    Vec<Declaration>,
    Error,
>)
    ensures
        match result {
            Ok(tokens) => expanded(parsed@, root@, *invocation_type) == Ok::<
                Seq<DeclarationView>,
                ErrorView,
            >(declaration_views(tokens@)),
            Err(e) => expanded(parsed@, root@, *invocation_type) == Err::<
                Seq<DeclarationView>,
                ErrorView,
            >(e@),
        },
{
    let entries = match root {
        Entry::Directory { name, entries } => entries,
        _ => {
            return Err(Error::InvalidRoot);
        },
    };
    assert(root@->Directory_entries =~= entry_views(entries@));
    let files = match Tree::new(entries, &parsed.extensions) {
        Ok(files) => files,
        Err(e) => {
            return Err(e);
        },
    };
    let tokens = match generate_from_tree(&files, parsed, invocation_type) {
        Ok(tokens) => tokens,
        Err(e) => {
            return Err(e);
        },
    };
    match &parsed.module {
        Some(module) => {
            let wrapped = Declaration::Module { name: module.clone(), test_only: true, items: tokens };
            assert(wrapped@->Module_items =~= declaration_views(tokens@));
            let mut all: Vec<Declaration> = Vec::new();
            all.push(wrapped);
            assert(declaration_views(all@) =~= seq![wrapped@]);
            Ok(all)
        },
        None => Ok(tokens),
    }
}

/// Generates a suite whose tests take the contents of their files.
pub fn test_each_file(parsed: &TestEachArgs, root: &Entry) -> (result: Result<
    Vec<Declaration>,
    Error,
>)
    ensures
        match result {
            Ok(tokens) => expanded(parsed@, root@, Type::File) == Ok::<
                Seq<DeclarationView>,
                ErrorView,
            >(declaration_views(tokens@)),
            Err(e) => expanded(parsed@, root@, Type::File) == Err::<Seq<DeclarationView>, ErrorView>(
                e@,
            ),
        },
{
    test_each(parsed, root, &Type::File)
}

/// Generates a suite whose tests take the paths of their files.
pub fn test_each_path(parsed: &TestEachArgs, root: &Entry) -> (result: Result<
    Vec<Declaration>,
    Error,
>)
    ensures
        match result {
            Ok(tokens) => expanded(parsed@, root@, Type::Path) == Ok::<
                Seq<DeclarationView>,
                ErrorView,
            >(declaration_views(tokens@)),
            Err(e) => expanded(parsed@, root@, Type::Path) == Err::<Seq<DeclarationView>, ErrorView>(
                e@,
            ),
        },
{
    test_each(parsed, root, &Type::Path)
}

} // verus!
