//! What a whole scan comes to: which rules are collected.

use ignore::gitignore::{Gitignore, GitignoreBuilder};
use vstd::prelude::*;

use crate::filter::{allowed, rule_set};
use crate::rules::{
    builder_root, builder_rules, compiled_from, gitignore_root, gitignore_rules, rules_match,
    IgnoreRule,
};
use crate::scan::{
    clear_below, entry_path, excluded_directories_give_no_rules, exclude_file,
    exclude_file_lies_outside_excluded_directories, is_file_entry, outside_excluded,
    reached_files_are_clear, scan_run, spelled_from, walk_inputs, ScanInput, WalkItem,
};

verus! {

/// A directory tree: what a walk would come upon in it if nothing were left out by name, in
/// order, and what its files hold, where they can be read.
pub struct FileTree {
    pub items: Seq<WalkItem>,
    pub contents: spec_fn(Seq<u8>) -> Option<Seq<u8>>,
}

/// The rules that these files come to, one file after the other, given the rules that each
/// content comes to.
pub open spec fn rules_of_files(
    rules_in: spec_fn(Option<Seq<u8>>) -> Seq<IgnoreRule>,
    contents: spec_fn(Seq<u8>) -> Option<Seq<u8>>,
    files: Seq<Seq<u8>>,
) -> Seq<IgnoreRule>
    decreases files.len(),
{
    if files.len() == 0 {
        Seq::empty()
    } else {
        rules_of_files(rules_in, contents, files.drop_last()) + rules_in(contents(files.last()))
    }
}

/// The trees differ at most inside of excluded directories below the root, and in what files hold
/// that are called like one.
pub open spec fn same_outside_excluded(
    root: Seq<u8>,
    first: FileTree,
    second: FileTree,
) -> bool {
    &&& outside_excluded(first.items) == outside_excluded(second.items)
    &&& forall|path: Seq<u8>| #[trigger]
        clear_below(root, path) ==> (first.contents)(path) == (second.contents)(path)
}

/// The files that the scan of the tree adds, when after the walk it is told this.
pub open spec fn files_added(root: Seq<u8>, tree: FileTree, end: Seq<ScanInput>) -> Seq<Seq<u8>> {
    scan_run(root, walk_inputs(tree.items) + end).added
}

/// A file that a scan adds is one of its entries or the exclude file.
proof fn added_files_were_told_of(root: Seq<u8>, inputs: Seq<ScanInput>, file: int)
    requires
        0 <= file < scan_run(root, inputs).added.len(),
    ensures
        ({
            let path = scan_run(root, inputs).added[file];
            path == exclude_file(root) || exists|at: int|
                0 <= at < inputs.len() && is_file_entry(#[trigger] inputs[at]) && path
                    == entry_path(inputs[at])
        }),
    decreases inputs.len(),
{
    if inputs.len() > 0 {
        let front = inputs.drop_last();
        let path = scan_run(root, inputs).added[file];
        if file < scan_run(root, front).added.len() {
            added_files_were_told_of(root, front, file);
            if path != exclude_file(root) {
                let at = choose|at: int|
                    0 <= at < front.len() && is_file_entry(#[trigger] front[at]) && path
                        == entry_path(front[at]);
                assert(inputs[at] == front[at]);
            }
        } else {
            assert(inputs[inputs.len() - 1] == inputs.last());
        }
    }
}

/// Every file whose rules are collected lies under the root, with no excluded directory on the
/// way.
pub proof fn rules_come_from_outside_excluded_directories(
    root: Seq<u8>,
    tree: FileTree,
    end: Seq<ScanInput>,
    file: int,
)
    requires
        spelled_from(root, tree.items),
        forall|i: int| 0 <= i < end.len() ==> !((#[trigger] end[i]) is Entry),
        0 <= file < files_added(root, tree, end).len(),
    ensures
        clear_below(root, files_added(root, tree, end)[file]),
{
    let walked = walk_inputs(tree.items);
    let inputs = walked + end;
    let path = files_added(root, tree, end)[file];
    added_files_were_told_of(root, inputs, file);
    if path == exclude_file(root) {
        exclude_file_lies_outside_excluded_directories(root);
    } else {
        let at = choose|at: int|
            0 <= at < inputs.len() && is_file_entry(#[trigger] inputs[at]) && path == entry_path(
                inputs[at],
            );
        if at < walked.len() {
            assert(inputs[at] == walked[at]);
            reached_files_are_clear(root, tree.items, at);
        } else {
            assert(inputs[at] == end[at - walked.len()]);
        }
    }
}

proof fn same_contents_give_same_rules(
    rules_in: spec_fn(Option<Seq<u8>>) -> Seq<IgnoreRule>,
    first: spec_fn(Seq<u8>) -> Option<Seq<u8>>,
    second: spec_fn(Seq<u8>) -> Option<Seq<u8>>,
    files: Seq<Seq<u8>>,
)
    requires
        forall|i: int| 0 <= i < files.len() ==> first(#[trigger] files[i]) == second(files[i]),
    ensures
        rules_of_files(rules_in, first, files) == rules_of_files(rules_in, second, files),
    decreases files.len(),
{
    if files.len() > 0 {
        same_contents_give_same_rules(rules_in, first, second, files.drop_last());
        assert(first(files[files.len() - 1]) == second(files[files.len() - 1]));
    }
}

/// What lies in an excluded directory below the root changes no rule: of two trees that differ
/// only there, the scan comes out the same, the same rules are collected, and where both sets
/// compile they hold the same rules for the same directory, so that every path fares alike under
/// them and is passed on alike. Whether a set compiles is left open, for it depends on the
/// machine.
pub proof fn excluded_directories_do_not_change_the_rules(
    rules_in: spec_fn(Option<Seq<u8>>) -> Seq<IgnoreRule>,
    root: Seq<u8>,
    first: FileTree,
    second: FileTree,
    end: Seq<ScanInput>,
    first_builder: GitignoreBuilder,
    second_builder: GitignoreBuilder,
)
    requires
        same_outside_excluded(root, first, second),
        spelled_from(root, first.items),
        forall|i: int| 0 <= i < end.len() ==> !((#[trigger] end[i]) is Entry),
        builder_root(first_builder) == builder_root(second_builder),
        builder_rules(first_builder) == rules_of_files(
            rules_in,
            first.contents,
            files_added(root, first, end),
        ),
        builder_rules(second_builder) == rules_of_files(
            rules_in,
            second.contents,
            files_added(root, second, end),
        ),
    ensures
        scan_run(root, walk_inputs(first.items) + end) == scan_run(
            root,
            walk_inputs(second.items) + end,
        ),
        builder_rules(first_builder) == builder_rules(second_builder),
        forall|one: Gitignore, other: Gitignore| #[trigger]
            compiled_from(one, first_builder) && #[trigger] compiled_from(other, second_builder)
                ==> {
                &&& rule_set(one) == rule_set(other)
                &&& forall|path: Seq<u8>, is_dir: bool| #[trigger]
                    rules_match(gitignore_root(one), gitignore_rules(one), path, is_dir)
                        == rules_match(gitignore_root(other), gitignore_rules(other), path, is_dir)
                &&& forall|path: Seq<u8>, watched: Seq<u8>| #[trigger]
                    allowed(rule_set(one), path, watched) == allowed(rule_set(other), path, watched)
            },
{
    let files = files_added(root, first, end);
    excluded_directories_give_no_rules(root, first.items, second.items, end);
    assert forall|i: int| 0 <= i < files.len() implies (first.contents)(#[trigger] files[i]) == (
    second.contents)(files[i]) by {
        rules_come_from_outside_excluded_directories(root, first, end, i);
    }
    same_contents_give_same_rules(rules_in, first.contents, second.contents, files);
}

} // verus!
