//! Ignore rules: the patterns of gitignore files, and how a path fares under them.

use bstr::ByteSlice;
use ignore::gitignore::{Gitignore, GitignoreBuilder};
use ignore::Match;
use vstd::prelude::*;
use vstd::slice::slice_subrange;

use crate::error::FilesystemWatcherError;
use crate::path::{components, copy_bytes, has_separator, rooted, WatchPath, DOT, SLASH};

verus! {

/// A compiled set of ignore rules.
#[verifier::external_type_specification]
#[verifier::external_body]
pub struct ExGitignore(Gitignore);

/// A set of ignore rules that is still being collected.
#[verifier::external_type_specification]
#[verifier::external_body]
pub struct ExGitignoreBuilder(GitignoreBuilder);

/// One ignore rule: the pattern it is compiled from, and how the pattern is read.
pub struct IgnoreRule {
    pub glob: Seq<char>,
    pub whitelist: bool,
    pub only_dir: bool,
    pub case_insensitive: bool,
    pub allow_unclosed_class: bool,
}

/// How a path fares under a set of rules.
#[derive(Debug, Clone, Copy, PartialEq, Eq, Structural)]
pub enum RuleMatch {
    /// No rule speaks of the path.
    Unmatched,
    /// The path is to be ignored.
    Ignore,
    /// A rule exempts the path from being ignored.
    Whitelist,
}

impl RuleMatch {
    /// Whether the path is to be ignored.
    pub fn is_ignore(&self) -> (ignored: bool)
        ensures
            ignored == (*self == RuleMatch::Ignore),
    {
        matches!(self, RuleMatch::Ignore)
    }
}

/// The rules that a compiled set holds, in the order in which they were added.
pub uninterp spec fn gitignore_rules(gitignore: Gitignore) -> Seq<IgnoreRule>;

/// The spelling of the directory that a compiled set matches paths relative to.
pub uninterp spec fn gitignore_root(gitignore: Gitignore) -> Seq<u8>;

/// The rules that were collected so far, in the order in which they were added.
pub uninterp spec fn builder_rules(builder: GitignoreBuilder) -> Seq<IgnoreRule>;

/// The spelling of the directory that rules are collected for.
pub uninterp spec fn builder_root(builder: GitignoreBuilder) -> Seq<u8>;

/// How a path, or the nearest of its parents that a rule speaks of, fares under the rules of a
/// directory: what `Gitignore::matched_path_or_any_parents` finds out.
pub uninterp spec fn rules_match(
    root: Seq<u8>,
    rules: Seq<IgnoreRule>,
    path: Seq<u8>,
    is_dir: bool,
) -> RuleMatch;

/// The spelling without a leading `./`.
pub open spec fn without_dot_slash(bytes: Seq<u8>) -> Seq<u8> {
    if bytes.len() >= 2 && bytes[0] == DOT && bytes[1] == SLASH {
        bytes.skip(2)
    } else {
        bytes
    }
}

/// What is left of a path for the rules of a directory to look at: a leading `./` goes, and so
/// does the spelling of the directory in front of a path with a separator in it, together with
/// the separator behind it. A directory that is just `.` is not taken off. This is how it goes on
/// Unix, byte by byte.
pub open spec fn stripped(root: Seq<u8>, path: Seq<u8>) -> Seq<u8> {
    let path = without_dot_slash(path);
    if components(root) != seq![seq![DOT]] && path.contains(SLASH) && root.is_prefix_of(path) {
        let rest = path.skip(root.len() as int);
        if rooted(rest) {
            rest.skip(1)
        } else {
            rest
        }
    } else {
        path
    }
}

/// Whether a set of rules can be asked about a path: what is left of the path must not start at
/// the root. A set without rules can be asked about any.
pub open spec fn can_be_asked(root: Seq<u8>, rules: Seq<IgnoreRule>, path: Seq<u8>) -> bool {
    rules.len() == 0 || !rooted(stripped(root, path))
}

/// Calls `GitignoreBuilder::new`: the builder holds no rule yet, and its directory is spelled as
/// given, less a leading `./`. The bytes become a path by bstr's `to_path_lossy`, which on Unix
/// takes any bytes as they are.
#[verifier::external_body]
fn new_builder(root: &[u8]) -> (builder: GitignoreBuilder)
    ensures
        builder_rules(builder) == Seq::<IgnoreRule>::empty(),
        builder_root(builder) == without_dot_slash(root@),
{
    GitignoreBuilder::new(root.to_path_lossy())
}

/// Calls `GitignoreBuilder::build`: the compiled set holds the rules collected, for the
/// builder's directory. Without any rule it always succeeds, and the set has no directory.
/// With rules it may fail, where what they compile to takes up more memory than its limit; how
/// much that is depends on the machine, so it is left open when it fails and with which error.
#[verifier::external_body]
fn compile(builder: &GitignoreBuilder) -> (compiled: Result<Gitignore, ignore::Error>)
    ensures
        builder_rules(*builder).len() == 0 ==> compiled is Ok,
        compiled matches Ok(gitignore) ==> {
            &&& gitignore_rules(gitignore) == builder_rules(*builder)
            &&& gitignore_root(gitignore) == if builder_rules(*builder).len() == 0 {
                Seq::<u8>::empty()
            } else {
                builder_root(*builder)
            }
        },
{
    builder.build()
}

/// Calls `Gitignore::path`: the directory that the set belongs to.
#[verifier::external_body]
fn directory_of(gitignore: &Gitignore) -> (root: Vec<u8>)
    ensures
        root@ == gitignore_root(*gitignore),
{
    gitignore.path().as_os_str().as_encoded_bytes().to_vec()
}

/// Calls `Gitignore::is_empty`: whether the set has no rules.
#[verifier::external_body]
fn has_no_rules(gitignore: &Gitignore) -> (empty: bool)
    ensures
        empty == (gitignore_rules(*gitignore).len() == 0),
{
    gitignore.is_empty()
}

/// Calls `Gitignore::matched_path_or_any_parents`, which panics on a path that it cannot be asked
/// about: the outcome depends on the set's directory and rules, the path and whether it is taken
/// for a directory. A set without rules has nothing to say of any path. The bytes become a path by
/// bstr's `to_path_lossy`, which on Unix takes any bytes as they are.
#[verifier::external_body]
fn match_or_parents(gitignore: &Gitignore, path: &[u8], is_dir: bool) -> (found: RuleMatch)
    requires
        can_be_asked(gitignore_root(*gitignore), gitignore_rules(*gitignore), path@),
    ensures
        found == rules_match(gitignore_root(*gitignore), gitignore_rules(*gitignore), path@, is_dir),
        gitignore_rules(*gitignore).len() == 0 ==> found == RuleMatch::Unmatched,
{
    match gitignore.matched_path_or_any_parents(path.to_path_lossy(), is_dir) {
        Match::None => RuleMatch::Unmatched,
        Match::Ignore(_) => RuleMatch::Ignore,
        Match::Whitelist(_) => RuleMatch::Whitelist,
    }
}

/// Starts collecting rules for a directory.
pub fn start_gitignore_set(root: &WatchPath) -> (builder: GitignoreBuilder)
    ensures
        builder_rules(builder) == Seq::<IgnoreRule>::empty(),
        builder_root(builder) == without_dot_slash(root@),
{
    new_builder(root.bytes().as_slice())
}

/// Whether a compiled set is what compiling the rules collected gives: it holds them for the
/// builder's directory. Without any rule it has no directory.
pub open spec fn compiled_from(gitignore: Gitignore, builder: GitignoreBuilder) -> bool {
    &&& gitignore_rules(gitignore) == builder_rules(builder)
    &&& gitignore_root(gitignore) == if builder_rules(builder).len() == 0 {
        Seq::<u8>::empty()
    } else {
        builder_root(builder)
    }
}

/// What the caller gets for a compiled set of rules, or for the failure to compile them.
pub fn gitignore_outcome(compiled: Result<Gitignore, ignore::Error>) -> (set: Result<
    Gitignore,
    FilesystemWatcherError,
>)
    ensures
        set == match compiled {
            Ok(gitignore) => Ok(gitignore),
            Err(error) => Err(FilesystemWatcherError::Ignore(error)),
        },
{
    match compiled {
        Ok(gitignore) => Ok(gitignore),
        Err(error) => Err(FilesystemWatcherError::from(error)),
    }
}

/// Compiles the rules that were collected. Without any rule this succeeds.
pub fn build_gitignore_set(builder: &GitignoreBuilder) -> (set: Result<
    Gitignore,
    FilesystemWatcherError,
>)
    ensures
        builder_rules(*builder).len() == 0 ==> set is Ok,
        set matches Ok(gitignore) ==> compiled_from(gitignore, *builder),
        set matches Err(error) ==> error is Ignore,
{
    gitignore_outcome(compile(builder))
}

/// Whether the bytes start with these.
fn starts_with(bytes: &[u8], head: &[u8]) -> (found: bool)
    ensures
        found == head@.is_prefix_of(bytes@),
{
    if head.len() > bytes.len() {
        return false;
    }
    for i in 0..head.len()
        invariant
            head@.len() <= bytes@.len(),
            forall|j: int| 0 <= j < i ==> head@[j] == bytes@[j],
    {
        if head[i] != bytes[i] {
            return false;
        }
    }
    assert(head@.is_prefix_of(bytes@));
    true
}

/// Whether what is left of the path for the rules to look at starts at the root.
fn stripped_is_rooted(root: &Vec<u8>, path: &[u8]) -> (result: bool)
    ensures
        result == rooted(stripped(root@, path@)),
{
    let mut start: usize = 0;
    if path.len() >= 2 && path[0] == DOT && path[1] == SLASH {
        start = 2;
    }
    let ghost left = path@.skip(start as int);
    assert(left == without_dot_slash(path@));
    let tail = slice_subrange(path, start, path.len());
    assert(tail@ == left);
    let directory = WatchPath::new(copy_bytes(root.as_slice()));
    let mut is_dot = false;
    if directory.component_count() == 1 {
        let only = directory.component(0);
        is_dot = only.len() == 1 && only[0] == DOT;
        proof {
            if is_dot {
                assert(only@ =~= seq![DOT]);
            }
            assert(components(root@) =~= seq![only@]);
        }
    }
    assert(is_dot == (components(root@) == seq![seq![DOT]]));
    if !is_dot && has_separator(tail) && starts_with(tail, root.as_slice()) {
        start = start + root.len();
        assert(path@.skip(start as int) == left.skip(root@.len() as int));
        if start < path.len() && path[start] == SLASH {
            start = start + 1;
            assert(path@.skip(start as int) == left.skip(root@.len() as int).skip(1));
        }
    }
    assert(path@.skip(start as int) == stripped(root@, path@));
    start < path.len() && path[start] == SLASH
}

/// Asks the rules about a path, unless they cannot be asked about it.
pub fn ask_rules(gitignore: &Gitignore, path: &[u8], is_dir: bool) -> (found: Option<RuleMatch>)
    ensures
        found is Some <==> can_be_asked(
            gitignore_root(*gitignore),
            gitignore_rules(*gitignore),
            path@,
        ),
        found matches Some(found) ==> {
            &&& found == rules_match(
                gitignore_root(*gitignore),
                gitignore_rules(*gitignore),
                path@,
                is_dir,
            )
            &&& gitignore_rules(*gitignore).len() == 0 ==> found == RuleMatch::Unmatched
        },
{
    if has_no_rules(gitignore) || !stripped_is_rooted(&directory_of(gitignore), path) {
        Some(match_or_parents(gitignore, path, is_dir))
    } else {
        None
    }
}

/// A leading `./` is taken off a spelling, once, and nothing else is.
pub proof fn one_leading_dot_is_taken_off(bytes: Seq<u8>)
    ensures
        without_dot_slash(seq![DOT, SLASH] + bytes) == bytes,
        !seq![DOT, SLASH].is_prefix_of(bytes) ==> without_dot_slash(bytes) == bytes,
{
    assert((seq![DOT, SLASH] + bytes).skip(2) == bytes);
    if bytes.len() >= 2 && bytes[0] == DOT && bytes[1] == SLASH {
        assert(seq![DOT, SLASH].is_prefix_of(bytes));
    }
}

/// What the rules of a directory look at, once a leading `./` is off: a file name as it is; a path
/// in the directory without the directory; and any other path as it is.
pub proof fn rules_look_below_their_directory(root: Seq<u8>, path: Seq<u8>)
    requires
        !seq![DOT, SLASH].is_prefix_of(path),
    ensures
        stripped(root, seq![DOT, SLASH] + path) == stripped(root, path),
        !path.contains(SLASH) ==> stripped(root, path) == path,
        !root.is_prefix_of(path) ==> stripped(root, path) == path,
        components(root) == seq![seq![DOT]] ==> stripped(root, path) == path,
        forall|rest: Seq<u8>|
            components(root) != seq![seq![DOT]] && path == #[trigger] (root.push(SLASH) + rest)
                ==> stripped(root, path) == rest,
        forall|rest: Seq<u8>|
            components(root) != seq![seq![DOT]] && path.contains(SLASH) && path == #[trigger] (root
                + rest) && !rooted(rest) ==> stripped(root, path) == rest,
{
    one_leading_dot_is_taken_off(path);
    assert forall|rest: Seq<u8>|
        components(root) != seq![seq![DOT]] && path == #[trigger] (root.push(SLASH)
            + rest) implies stripped(root, path) == rest by {
        assert(path[root.len() as int] == SLASH);
        assert(root.is_prefix_of(path));
        assert(path.skip(root.len() as int).skip(1) == rest);
    }
    assert forall|rest: Seq<u8>|
        components(root) != seq![seq![DOT]] && path.contains(SLASH) && path == #[trigger] (root
            + rest) && !rooted(rest) implies stripped(root, path) == rest by {
        assert(root.is_prefix_of(path));
        assert(path.skip(root.len() as int) == rest);
    }
}

/// A set of rules can be asked about every path, unless it has rules and what they would look at
/// starts with a separator.
pub proof fn rules_can_be_asked_below_their_directory(
    root: Seq<u8>,
    rules: Seq<IgnoreRule>,
    path: Seq<u8>,
)
    ensures
        can_be_asked(root, rules, path) <==> rules.len() == 0 || stripped(root, path).len() == 0
            || stripped(root, path)[0] != SLASH,
{
}

/// Compiling keeps the rules that were collected, in their order; a set with rules belongs to the
/// directory that they were collected for.
pub proof fn compiling_keeps_the_rules(gitignore: Gitignore, builder: GitignoreBuilder)
    requires
        compiled_from(gitignore, builder),
    ensures
        gitignore_rules(gitignore) == builder_rules(builder),
        builder_rules(builder).len() > 0 ==> gitignore_root(gitignore) == builder_root(builder),
        builder_rules(builder).len() == 0 ==> gitignore_root(gitignore) == Seq::<u8>::empty(),
{
}

} // verus!
