//! Paths: how they are spelled, and what components the spelling has.
//!
//! Paths are split as on Unix: `/` alone separates components, and there are no drive letters or
//! other prefixes. Whoever takes a path from a system with other separators spells it with `/`
//! first.

use vstd::prelude::*;
use vstd::slice::slice_subrange;

verus! {

/// The separator between components, and the whole of the root component.
pub const SLASH: u8 = 0x2f;

/// The byte that sets an extension apart from the rest of a file name.
pub const DOT: u8 = 0x2e;

/// Whether the spelling starts with a separator.
pub open spec fn rooted(path: Seq<u8>) -> bool {
    path.len() > 0 && path[0] == SLASH
}

/// Whether the spelling starts with a component `.`.
pub open spec fn starts_with_dot(path: Seq<u8>) -> bool {
    path.len() > 0 && path[0] == DOT && (path.len() == 1 || path[1] == SLASH)
}

/// Where the run of bytes other than separators that starts at `from` ends.
pub open spec fn piece_end(path: Seq<u8>, from: int) -> int
    decreases path.len() - from,
{
    if 0 <= from < path.len() && path[from] != SLASH {
        piece_end(path, from + 1)
    } else {
        from
    }
}

/// Where the components from an index on start and end. Runs of separators count as one, and a
/// component `.` does not count.
pub open spec fn spans_from(path: Seq<u8>, from: int) -> Seq<(int, int)>
    decreases path.len() + 1 - from,
{
    if 0 <= from < path.len() {
        proof {
            piece_end_bounds(path, from);
        }
        let end = piece_end(path, from);
        if end == from || path.subrange(from, end) == seq![DOT] {
            spans_from(path, end + 1)
        } else {
            seq![(from, end)] + spans_from(path, end + 1)
        }
    } else {
        Seq::empty()
    }
}

/// Where the components of a path start and end. The root, or a leading `.`, is a component of
/// its own.
pub open spec fn spans(path: Seq<u8>) -> Seq<(int, int)> {
    if rooted(path) || starts_with_dot(path) {
        seq![(0int, 1int)] + spans_from(path, 1)
    } else {
        spans_from(path, 0)
    }
}

/// The components of a path. Two paths are equal if their components are.
pub open spec fn components(path: Seq<u8>) -> Seq<Seq<u8>> {
    spans(path).map_values(|span: (int, int)| path.subrange(span.0, span.1))
}

/// The path lies at `base` or below it.
pub open spec fn lies_under(path: Seq<u8>, base: Seq<u8>) -> bool {
    components(base).is_prefix_of(components(path))
}

/// The rest of a path that lies under `base`, spelled as it is in the path: from the start of the
/// first component below `base` to the end of the last one.
pub open spec fn below(path: Seq<u8>, base: Seq<u8>) -> Seq<u8> {
    let depth = components(base).len();
    if depth < spans(path).len() {
        path.subrange(spans(path)[depth as int].0, spans(path).last().1)
    } else {
        Seq::empty()
    }
}

/// Whether the file name at the end of the path has an extension: a dot that is not its first
/// byte. The parent component `..` is no file name.
pub open spec fn has_extension(path: Seq<u8>) -> bool {
    let names = components(path);
    &&& names.len() > 0
    &&& names.last() != seq![DOT, DOT]
    &&& exists|i: int| 1 <= i < names.last().len() && #[trigger] names.last()[i] == DOT
}

/// The name of an entry of a directory: not empty, without a separator in it, and not `.`.
pub open spec fn plain_name(name: Seq<u8>) -> bool {
    name.len() > 0 && !name.contains(SLASH) && name != seq![DOT]
}

/// The spelling of the entry `name` of a directory: a separator goes between, unless the
/// directory is spelled with one at its end or not at all.
pub open spec fn join(dir: Seq<u8>, name: Seq<u8>) -> Seq<u8> {
    if dir.len() == 0 || dir.last() == SLASH {
        dir + name
    } else {
        dir.push(SLASH) + name
    }
}

/// The spelling of what is reached from a directory through these entries.
pub open spec fn join_all(dir: Seq<u8>, names: Seq<Seq<u8>>) -> Seq<u8>
    decreases names.len(),
{
    if names.len() == 0 {
        dir
    } else {
        join(join_all(dir, names.drop_last()), names.last())
    }
}

/// The names of the vectors, as sequences of bytes.
pub open spec fn name_views(names: Seq<Vec<u8>>) -> Seq<Seq<u8>> {
    names.map_values(|name: Vec<u8>| name@)
}

/// The canonical form of a path, or the path itself where there is none.
pub open spec fn lossy(path: Seq<u8>, canonical: Option<Seq<u8>>) -> Seq<u8> {
    match canonical {
        Some(canonical) => canonical,
        None => path,
    }
}

/// A run of bytes other than separators ends where the next separator is, or the path.
pub proof fn piece_end_bounds(path: Seq<u8>, from: int)
    requires
        0 <= from <= path.len(),
    ensures
        from <= piece_end(path, from) <= path.len(),
        forall|i: int| from <= i < piece_end(path, from) ==> #[trigger] path[i] != SLASH,
        piece_end(path, from) < path.len() ==> path[piece_end(path, from)] == SLASH,
    decreases path.len() - from,
{
    if from < path.len() && path[from] != SLASH {
        piece_end_bounds(path, from + 1);
    }
}

/// What a span that is not the first one of a path is like.
pub open spec fn plain_span(path: Seq<u8>, span: (int, int)) -> bool {
    &&& 0 <= span.0 < span.1 <= path.len()
    &&& forall|i: int| span.0 <= i < span.1 ==> #[trigger] path[i] != SLASH
    &&& path.subrange(span.0, span.1) != seq![DOT]
    &&& span.1 < path.len() ==> path[span.1] == SLASH
}

proof fn spans_from_are_plain(path: Seq<u8>, from: int)
    requires
        0 <= from,
    ensures
        forall|i: int|
            0 <= i < spans_from(path, from).len() ==> plain_span(
                path,
                #[trigger] spans_from(path, from)[i],
            ) && from <= spans_from(path, from)[i].0,
        forall|i: int, j: int|
            0 <= i < j < spans_from(path, from).len() ==> (#[trigger] spans_from(path, from)[i]).1
                < (#[trigger] spans_from(path, from)[j]).0,
    decreases path.len() + 1 - from,
{
    if from < path.len() {
        piece_end_bounds(path, from);
        let end = piece_end(path, from);
        let rest = spans_from(path, end + 1);
        spans_from_are_plain(path, end + 1);
        let all = spans_from(path, from);
        if end == from || path.subrange(from, end) == seq![DOT] {
            assert(all == rest);
        } else {
            assert(plain_span(path, (from, end)));
            assert(all == seq![(from, end)] + rest);
            assert forall|i: int| 1 <= i < all.len() implies #[trigger] all[i] == rest[i - 1] by {}
        }
    }
}

/// Each component of a path is a run of bytes of its own, in order; none but the first is the
/// root or `.`.
pub proof fn spans_are_plain(path: Seq<u8>)
    ensures
        forall|i: int|
            0 <= i < spans(path).len() ==> 0 <= (#[trigger] spans(path)[i]).0 < spans(path)[i].1
                <= path.len(),
        forall|i: int| 1 <= i < spans(path).len() ==> plain_span(path, #[trigger] spans(path)[i]),
        forall|i: int, j: int|
            0 <= i < j < spans(path).len() ==> (#[trigger] spans(path)[i]).1 <= (
            #[trigger] spans(path)[j]).0,
{
    spans_from_are_plain(path, 0);
    spans_from_are_plain(path, 1);
    if rooted(path) || starts_with_dot(path) {
        assert forall|i: int| 1 <= i < spans(path).len() implies #[trigger] spans(path)[i]
            == spans_from(path, 1)[i - 1] by {}
    }
}

/// A path, held as it is spelled: the bytes that name it on disk. Where its components lie in
/// them is kept beside. A file name need not be UTF-8.
#[derive(Debug, PartialEq, Eq)]
pub struct WatchPath {
    bytes: Vec<u8>,
    spans: Vec<(usize, usize)>,
}

/// The ends of the spans as integers.
spec fn span_views(spans: Seq<(usize, usize)>) -> Seq<(int, int)> {
    spans.map_values(|span: (usize, usize)| (span.0 as int, span.1 as int))
}

impl View for WatchPath {
    type V = Seq<u8>;

    closed spec fn view(&self) -> Seq<u8> {
        self.bytes@
    }
}

/// Whether two byte strings are equal.
fn same_bytes(left: &[u8], right: &[u8]) -> (same: bool)
    ensures
        same == (left@ == right@),
{
    if left.len() != right.len() {
        return false;
    }
    for i in 0..left.len()
        invariant
            left@.len() == right@.len(),
            forall|j: int| 0 <= j < i ==> left@[j] == right@[j],
    {
        if left[i] != right[i] {
            return false;
        }
    }
    assert(left@ == right@);
    true
}

/// Adds the bytes at the end.
fn append_bytes(bytes: &mut Vec<u8>, tail: &[u8])
    ensures
        final(bytes)@ == old(bytes)@ + tail@,
{
    let ghost head = bytes@;
    for i in 0..tail.len()
        invariant
            bytes@ == head + tail@.take(i as int),
    {
        bytes.push(tail[i]);
        assert(tail@.take(i + 1) == tail@.take(i as int).push(tail@[i as int]));
    }
    assert(tail@.take(tail@.len() as int) == tail@);
}

/// A copy of a byte string.
pub fn copy_bytes(bytes: &[u8]) -> (copy: Vec<u8>)
    ensures
        copy@ == bytes@,
{
    let mut copy: Vec<u8> = Vec::new();
    append_bytes(&mut copy, bytes);
    copy
}

/// Whether the bytes hold a separator.
pub fn has_separator(bytes: &[u8]) -> (found: bool)
    ensures
        found == bytes@.contains(SLASH),
{
    for i in 0..bytes.len()
        invariant
            forall|j: int| 0 <= j < i ==> bytes@[j] != SLASH,
    {
        if bytes[i] == SLASH {
            return true;
        }
    }
    false
}

/// Whether the bytes can be the name of an entry of a directory.
pub fn is_plain_name(name: &[u8]) -> (plain: bool)
    ensures
        plain == plain_name(name@),
{
    let is_dot = name.len() == 1 && name[0] == DOT;
    assert(is_dot <==> name@ =~= seq![DOT]);
    name.len() > 0 && !has_separator(name) && !is_dot
}

/// Where the run of bytes other than separators ends.
fn find_piece_end(bytes: &Vec<u8>, from: usize) -> (end: usize)
    requires
        from <= bytes@.len(),
    ensures
        end == piece_end(bytes@, from as int),
        from <= end <= bytes@.len(),
{
    let mut end: usize = from;
    while end < bytes.len() && bytes[end] != SLASH
        invariant
            from <= end <= bytes@.len(),
            piece_end(bytes@, from as int) == piece_end(bytes@, end as int),
        decreases bytes@.len() - end,
    {
        end = end + 1;
    }
    end
}

/// Finds the components of a path.
fn find_spans(bytes: &Vec<u8>) -> (found: Vec<(usize, usize)>)
    ensures
        span_views(found@) == spans(bytes@),
{
    let mut found: Vec<(usize, usize)> = Vec::new();
    let mut from: usize = 0;
    if bytes.len() > 0 && (bytes[0] == SLASH || (bytes[0] == DOT && (bytes.len() == 1 || bytes[1]
        == SLASH))) {
        found.push((0, 1));
        from = 1;
    }
    assert(spans(bytes@) == span_views(found@) + spans_from(bytes@, from as int));
    while from < bytes.len()
        invariant
            spans(bytes@) == span_views(found@) + spans_from(bytes@, from as int),
        decreases bytes@.len() - from,
    {
        let end = find_piece_end(bytes, from);
        let is_dot = end - from == 1 && bytes[from] == DOT;
        let ghost piece = bytes@.subrange(from as int, end as int);
        proof {
            if is_dot {
                assert(piece =~= seq![DOT]);
            }
            if piece == seq![DOT] {
                assert(piece.len() == 1 && piece[0] == bytes@[from as int]);
            }
        }
        let ghost before = span_views(found@);
        if end > from && !is_dot {
            found.push((from, end));
            assert(span_views(found@) == before.push((from as int, end as int)));
        }
        if end == bytes.len() {
            assert(spans_from(bytes@, end + 1) == Seq::<(int, int)>::empty());
            assert(spans(bytes@) == span_views(found@));
            return found;
        }
        from = end + 1;
        assert(spans(bytes@) == span_views(found@) + spans_from(bytes@, from as int));
    }
    assert(spans_from(bytes@, from as int) == Seq::<(int, int)>::empty());
    found
}

impl WatchPath {
    #[verifier::type_invariant]
    spec fn well_formed(self) -> bool {
        span_views(self.spans@) == spans(self.bytes@)
    }

    /// The path that is spelled by these bytes.
    pub fn new(bytes: Vec<u8>) -> (path: WatchPath)
        ensures
            path@ == bytes@,
    {
        let spans = find_spans(&bytes);
        WatchPath { bytes, spans }
    }

    /// The bytes that spell the path.
    pub fn bytes(&self) -> (bytes: &Vec<u8>)
        ensures
            bytes@ == self@,
    {
        &self.bytes
    }

    /// The bytes that spell the path, for good.
    pub fn into_bytes(self) -> (bytes: Vec<u8>)
        ensures
            bytes@ == self@,
    {
        self.bytes
    }

    /// How many components the path has.
    pub fn component_count(&self) -> (count: usize)
        ensures
            count == components(self@).len(),
    {
        proof {
            use_type_invariant(self);
        }
        self.spans.len()
    }

    /// A component of the path.
    pub fn component(&self, index: usize) -> (component: &[u8])
        requires
            index < components(self@).len(),
        ensures
            component@ == components(self@)[index as int],
            component@.len() > 0,
    {
        proof {
            use_type_invariant(self);
            spans_are_plain(self@);
            assert(span_views(self.spans@)[index as int] == spans(self@)[index as int]);
        }
        let (start, end) = self.spans[index];
        slice_subrange(self.bytes.as_slice(), start, end)
    }

    /// The rest of the path below `base`, if the path lies under it.
    pub fn strip_prefix(&self, base: &WatchPath) -> (relative: Option<WatchPath>)
        ensures
            relative is Some <==> lies_under(self@, base@),
            relative matches Some(relative) ==> relative@ == below(self@, base@),
    {
        let depth = base.component_count();
        let count = self.component_count();
        if depth > count {
            return None;
        }
        for i in 0..depth
            invariant
                depth == components(base@).len(),
                depth <= components(self@).len(),
                forall|j: int| 0 <= j < i ==> components(base@)[j] == components(self@)[j],
        {
            if !same_bytes(base.component(i), self.component(i)) {
                return None;
            }
        }
        assert(lies_under(self@, base@));
        if depth == count {
            return Some(WatchPath::new(Vec::new()));
        }
        proof {
            use_type_invariant(self);
            spans_are_plain(self@);
            assert(span_views(self.spans@)[depth as int] == spans(self@)[depth as int]);
            assert(span_views(self.spans@)[count - 1] == spans(self@)[count - 1]);
        }
        let (start, _) = self.spans[depth];
        let (_, end) = self.spans[count - 1];
        Some(WatchPath::new(copy_bytes(slice_subrange(self.bytes.as_slice(), start, end))))
    }

    /// Whether the file name at the end of the path has an extension.
    pub fn has_extension(&self) -> (found: bool)
        ensures
            found == has_extension(self@),
    {
        let count = self.component_count();
        if count == 0 {
            return false;
        }
        let name = self.component(count - 1);
        let is_parent = name.len() == 2 && name[0] == DOT && name[1] == DOT;
        assert(is_parent <==> name@ =~= seq![DOT, DOT]);
        if is_parent {
            return false;
        }
        for i in 1..name.len()
            invariant
                components(self@).len() > 0,
                components(self@).last() == name@,
                name@ != seq![DOT, DOT],
                forall|j: int| 1 <= j < i ==> name@[j] != DOT,
        {
            if name[i] == DOT {
                assert(components(self@).last()[i as int] == DOT);
                return true;
            }
        }
        false
    }

    /// The path of the entry `name` of this directory.
    pub fn join(&self, name: &[u8]) -> (path: WatchPath)
        ensures
            path@ == join(self@, name@),
    {
        let mut bytes = copy_bytes(self.bytes.as_slice());
        if bytes.len() > 0 && bytes[bytes.len() - 1] != SLASH {
            bytes.push(SLASH);
        }
        append_bytes(&mut bytes, name);
        WatchPath::new(bytes)
    }

    /// The path of what is reached from this directory through these entries.
    pub fn join_all(&self, names: &Vec<Vec<u8>>) -> (path: WatchPath)
        ensures
            path@ == join_all(self@, name_views(names@)),
    {
        let mut path = self.clone();
        for i in 0..names.len()
            invariant
                path@ == join_all(self@, name_views(names@).take(i as int)),
        {
            let ghost next = name_views(names@).take(i + 1);
            assert(next.drop_last() == name_views(names@).take(i as int));
            assert(next.last() == names@[i as int]@);
            path = path.join(names[i].as_slice());
        }
        assert(name_views(names@).take(names@.len() as int) == name_views(names@));
        path
    }
}

impl Clone for WatchPath {
    fn clone(&self) -> (path: WatchPath)
        ensures
            path@ == self@,
    {
        WatchPath::new(copy_bytes(self.bytes.as_slice()))
    }
}

/// A path together with what came of resolving it on disk: its canonical form, or nothing where
/// it could not be resolved.
#[derive(Debug)]
pub struct ResolvedPath {
    pub path: WatchPath,
    pub canonical: Option<WatchPath>,
}

/// A path with what came of resolving it, by their spellings.
pub struct Resolution {
    pub path: Seq<u8>,
    pub canonical: Option<Seq<u8>>,
}

impl Resolution {
    /// The form of the path that counts.
    pub open spec fn form(self) -> Seq<u8> {
        lossy(self.path, self.canonical)
    }
}

impl View for ResolvedPath {
    type V = Resolution;

    open spec fn view(&self) -> Resolution {
        Resolution {
            path: self.path@,
            canonical: match self.canonical {
                Some(canonical) => Some(canonical@),
                None => None,
            },
        }
    }
}

/// The canonical form of the path, or the path as it is where it could not be resolved.
pub fn canonicalize_lossy(path: &ResolvedPath) -> (canonical: &WatchPath)
    ensures
        canonical@ == path@.form(),
        path.canonical matches Some(resolved) ==> *canonical == resolved,
        path.canonical is None ==> *canonical == path.path,
{
    match &path.canonical {
        Some(canonical) => canonical,
        None => &path.path,
    }
}

/// On a disk that stays as it is, where a canonical form resolves to itself, canonicalizing a
/// second time changes nothing.
pub proof fn canonicalizing_is_idempotent(
    resolve: spec_fn(Seq<u8>) -> Option<Seq<u8>>,
    path: Seq<u8>,
)
    requires
        forall|given: Seq<u8>| (#[trigger] resolve(given)) matches Some(canonical) ==> resolve(
            canonical,
        ) == Some(canonical),
    ensures
        ({
            let once = lossy(path, resolve(path));
            lossy(once, resolve(once)) == once
        }),
{
}

/// The components from an index on.
spec fn components_from(path: Seq<u8>, from: int) -> Seq<Seq<u8>> {
    spans_from(path, from).map_values(|span: (int, int)| path.subrange(span.0, span.1))
}

/// Where a run of bytes other than separators ends is settled by the bytes.
proof fn piece_ends_at(path: Seq<u8>, from: int, end: int)
    requires
        0 <= from <= end <= path.len(),
        forall|i: int| from <= i < end ==> #[trigger] path[i] != SLASH,
        end < path.len() ==> path[end] == SLASH,
    ensures
        piece_end(path, from) == end,
    decreases end - from,
{
    if from < end {
        piece_ends_at(path, from + 1, end);
    }
}

/// The components from an index on, one run of bytes at a time.
proof fn components_from_step(path: Seq<u8>, from: int)
    requires
        0 <= from < path.len(),
    ensures
        ({
            let end = piece_end(path, from);
            let piece = path.subrange(from, end);
            components_from(path, from) == if end == from || piece == seq![DOT] {
                components_from(path, end + 1)
            } else {
                seq![piece] + components_from(path, end + 1)
            }
        }),
{
    let end = piece_end(path, from);
    let piece = path.subrange(from, end);
    if !(end == from || piece == seq![DOT]) {
        assert(spans_from(path, from) == seq![(from, end)] + spans_from(path, end + 1));
        assert(components_from(path, from) == seq![piece] + components_from(path, end + 1));
    }
}

proof fn joined_components_from(dir: Seq<u8>, name: Seq<u8>, from: int)
    requires
        plain_name(name),
        0 <= from <= dir.len(),
    ensures
        components_from(join(dir, name), from) == components_from(dir, from).push(name),
    decreases dir.len() - from,
{
    let path = join(dir, name);
    let start = path.len() - name.len();
    assert(components_from(path, start) == seq![name]) by {
        assert forall|i: int| start <= i < path.len() implies #[trigger] path[i] != SLASH by {
            assert(name.contains(name[i - start]));
            assert(path[i] == name[i - start]);
        }
        piece_ends_at(path, start, path.len() as int);
        components_from_step(path, start);
        assert(path.subrange(start, path.len() as int) == name);
        assert(components_from(path, path.len() as int + 1) == Seq::<Seq<u8>>::empty());
        assert(seq![name] + Seq::<Seq<u8>>::empty() == seq![name]);
    }
    assert(forall|i: int| 0 <= i < dir.len() ==> #[trigger] path[i] == dir[i]);
    if from < dir.len() {
        let end = piece_end(dir, from);
        piece_end_bounds(dir, from);
        if end == dir.len() {
            assert(dir.last() != SLASH);
            assert(start == end + 1);
        }
        piece_ends_at(path, from, end);
        components_from_step(dir, from);
        components_from_step(path, from);
        assert(path.subrange(from, end) == dir.subrange(from, end));
        if end < dir.len() {
            joined_components_from(dir, name, end + 1);
        } else {
            assert(components_from(dir, end + 1) == Seq::<Seq<u8>>::empty());
        }
        let rest = components_from(dir, end + 1);
        assert(components_from(path, end + 1) == rest.push(name));
        let piece = dir.subrange(from, end);
        assert(seq![piece] + rest.push(name) == (seq![piece] + rest).push(name));
    } else {
        assert(components_from(dir, from) == Seq::<Seq<u8>>::empty());
        if start > from {
            piece_ends_at(path, from, from);
            components_from_step(path, from);
        }
        assert(components_from(path, from) == seq![name]);
    }
}

proof fn components_by_head(path: Seq<u8>)
    ensures
        components(path) == if rooted(path) || starts_with_dot(path) {
            seq![path.take(1)] + components_from(path, 1)
        } else {
            components_from(path, 0)
        },
{
    if rooted(path) || starts_with_dot(path) {
        assert(components(path) == seq![path.take(1)] + components_from(path, 1));
    }
}

/// The entry of a directory has the components of the directory, and its name as one more.
pub proof fn joining_adds_a_component(dir: Seq<u8>, name: Seq<u8>)
    requires
        plain_name(name),
    ensures
        components(join(dir, name)) == components(dir).push(name),
{
    let path = join(dir, name);
    components_by_head(dir);
    components_by_head(path);
    if dir.len() == 0 {
        assert(path == name);
        assert(name.contains(name[0]));
        if name.len() > 1 {
            assert(name.contains(name[1]));
        }
        assert(name.len() == 1 && name[0] == DOT ==> name =~= seq![DOT]);
        joined_components_from(dir, name, 0);
    } else {
        assert(path[0] == dir[0]);
        if dir.len() > 1 {
            assert(path[1] == dir[1]);
        } else {
            if dir[0] != SLASH {
                assert(path[1] == SLASH);
            }
        }
        joined_components_from(dir, name, 0);
        joined_components_from(dir, name, 1);
        assert(path.take(1) == dir.take(1));
        let head = seq![dir.take(1)];
        assert(head + components_from(dir, 1).push(name) == (head + components_from(dir, 1)).push(
            name,
        ));
    }
}

/// What is reached from a directory through entries has the components of the directory, and
/// the names of the entries as further ones.
pub proof fn joining_all_adds_components(dir: Seq<u8>, names: Seq<Seq<u8>>)
    requires
        forall|i: int| 0 <= i < names.len() ==> plain_name(#[trigger] names[i]),
    ensures
        components(join_all(dir, names)) == components(dir) + names,
    decreases names.len(),
{
    if names.len() > 0 {
        joining_all_adds_components(dir, names.drop_last());
        joining_adds_a_component(join_all(dir, names.drop_last()), names.last());
        assert(components(dir) + names == (components(dir) + names.drop_last()).push(names.last()));
    } else {
        assert(components(dir) + names == components(dir));
    }
}

/// From the start of a component on, there are the components from that one on.
proof fn spans_from_start(path: Seq<u8>, from: int, index: int)
    requires
        0 <= from,
        0 <= index < spans_from(path, from).len(),
    ensures
        spans_from(path, spans_from(path, from)[index].0) == spans_from(path, from).skip(index),
    decreases path.len() + 1 - from,
{
    piece_end_bounds(path, from);
    let end = piece_end(path, from);
    let all = spans_from(path, from);
    let rest = spans_from(path, end + 1);
    if end == from || path.subrange(from, end) == seq![DOT] {
        spans_from_start(path, end + 1, index);
    } else {
        assert(all == seq![(from, end)] + rest);
        if index == 0 {
            assert(all.skip(0) == all);
        } else {
            spans_from_start(path, end + 1, index - 1);
            assert(all.skip(index) == rest.skip(index - 1));
        }
    }
}

/// A part of a path that is cut off behind its last component has the components of the path
/// from there on.
proof fn components_of_part(path: Seq<u8>, start: int, end: int, from: int)
    requires
        0 <= start <= end <= path.len(),
        start <= from,
        end < path.len() ==> path[end] == SLASH,
        forall|i: int|
            0 <= i < spans_from(path, from).len() ==> (#[trigger] spans_from(path, from)[i]).1 <= end,
    ensures
        components_from(path.subrange(start, end), from - start) == components_from(path, from),
    decreases path.len() + 1 - from,
{
    let part = path.subrange(start, end);
    spans_from_are_plain(path, from);
    if from < end {
        piece_end_bounds(path, from);
        let stop = piece_end(path, from);
        assert(stop <= end);
        assert forall|i: int| from - start <= i < stop - start implies #[trigger] part[i] != SLASH by {
            assert(part[i] == path[i + start]);
        }
        if stop < end {
            assert(part[stop - start] == path[stop]);
        }
        piece_ends_at(part, from - start, stop - start);
        components_from_step(path, from);
        components_from_step(part, from - start);
        assert(part.subrange(from - start, stop - start) == path.subrange(from, stop));
        let all = spans_from(path, from);
        let rest = spans_from(path, stop + 1);
        assert forall|i: int| 0 <= i < rest.len() implies (#[trigger] rest[i]).1 <= end by {
            if stop == from || path.subrange(from, stop) == seq![DOT] {
                assert(all[i] == rest[i]);
            } else {
                assert(all[i + 1] == rest[i]);
            }
        }
        components_of_part(path, start, end, stop + 1);
    } else {
        if spans_from(path, from).len() > 0 {
            assert(plain_span(path, spans_from(path, from)[0]));
        }
        assert(components_from(path, from) == Seq::<Seq<u8>>::empty());
        assert(components_from(part, from - start) == Seq::<Seq<u8>>::empty());
    }
}

/// What is left of a path below one that it lies under has the components that follow those of
/// the other.
pub proof fn stripping_leaves_the_rest(path: Seq<u8>, base: Seq<u8>)
    requires
        lies_under(path, base),
    ensures
        components(below(path, base)) == components(path).skip(components(base).len() as int),
{
    let depth = components(base).len() as int;
    let all = spans(path);
    let rest = below(path, base);
    let headed = rooted(path) || starts_with_dot(path);
    spans_are_plain(path);
    spans_from_are_plain(path, 0);
    components_by_head(path);
    components_by_head(rest);
    if depth == all.len() {
        assert(components_from(rest, 0) == Seq::<Seq<u8>>::empty());
        assert(components(path).skip(depth) == Seq::<Seq<u8>>::empty());
    } else if headed && depth == 0 {
        let end = all.last().1;
        assert(all[0] == (0int, 1int));
        assert(components(path).skip(0) == components(path));
        if all.len() == 1 {
            assert(all == seq![(0int, 1int)]);
            assert(components_from(path, 1).len() == 0);
            assert(rest == path.take(1));
            assert(components_from(rest, 1) == components_from(path, 1));
            assert(rest.take(1) == path.take(1));
        } else {
            assert(plain_span(path, all[all.len() - 1]));
            assert(all[1].0 < end);
            assert(rest == path.subrange(0, end));
            assert(rest[0] == path[0] && rest[1] == path[1]);
            assert forall|i: int| 0 <= i < spans_from(path, 1).len() implies (#[trigger] spans_from(
                path,
                1,
            )[i]).1 <= end by {
                assert(all[i + 1] == spans_from(path, 1)[i]);
                assert(all[i + 1].1 <= all[all.len() - 1].1);
            }
            components_of_part(path, 0, end, 1);
            assert(rest.take(1) == path.take(1));
        }
    } else {
        let span = all[depth];
        let start = span.0;
        let end = all.last().1;
        assert(plain_span(path, span));
        assert(plain_span(path, all[all.len() - 1]));
        assert(spans_from(path, start) == all.skip(depth)) by {
            if headed {
                assert(spans_from(path, 1)[depth - 1] == span);
                spans_from_start(path, 1, depth - 1);
                assert(all.skip(depth) == spans_from(path, 1).skip(depth - 1));
            } else {
                spans_from_start(path, 0, depth);
            }
        }
        assert forall|i: int| 0 <= i < spans_from(path, start).len() implies (#[trigger] spans_from(
            path,
            start,
        )[i]).1 <= end by {
            assert(all[i + depth] == spans_from(path, start)[i]);
            assert(all[i + depth].1 <= all[all.len() - 1].1);
        }
        components_of_part(path, start, end, start);
        assert(rest[0] == path[start]);
        assert(span.1 <= end);
        if starts_with_dot(rest) {
            if rest.len() > 1 {
                assert(rest[1] == path[start + 1]);
            }
            assert(span.1 == start + 1);
            assert(path.subrange(span.0, span.1) =~= seq![DOT]);
        }
        assert(components_from(path, start) == components(path).skip(depth));
    }
}

/// Bytes at the end that hold no component of their own leave the components as they are.
proof fn components_from_with_tail(path: Seq<u8>, byte: u8, from: int)
    requires
        byte == SLASH || (byte == DOT && path.len() > 0 && path.last() == SLASH),
        0 <= from <= path.len(),
    ensures
        components_from(path.push(byte), from) == components_from(path, from),
    decreases path.len() - from,
{
    let longer = path.push(byte);
    let len = path.len() as int;
    assert(components_from(longer, len + 1) == Seq::<Seq<u8>>::empty());
    assert(components_from(path, len) == Seq::<Seq<u8>>::empty());
    assert(components_from(path, len + 1) == Seq::<Seq<u8>>::empty());
    if from < len {
        piece_end_bounds(path, from);
        let end = piece_end(path, from);
        assert forall|i: int| from <= i < end implies #[trigger] longer[i] != SLASH by {
            assert(longer[i] == path[i]);
        }
        piece_ends_at(longer, from, end);
        components_from_step(path, from);
        components_from_step(longer, from);
        assert(longer.subrange(from, end) == path.subrange(from, end));
        if end < len {
            components_from_with_tail(path, byte, end + 1);
        }
    } else if byte == SLASH {
        piece_ends_at(longer, len, len);
        components_from_step(longer, len);
    } else {
        piece_ends_at(longer, len, len + 1);
        components_from_step(longer, len);
        assert(longer.subrange(len, len + 1) == seq![DOT]);
    }
}

/// The empty path has no component; the root and `.` are each a component of their own.
pub proof fn shortest_paths_have_these_components()
    ensures
        components(Seq::<u8>::empty()) == Seq::<Seq<u8>>::empty(),
        components(seq![SLASH]) == seq![seq![SLASH]],
        components(seq![DOT]) == seq![seq![DOT]],
{
    let root = seq![SLASH];
    let dot = seq![DOT];
    components_by_head(Seq::<u8>::empty());
    components_by_head(root);
    components_by_head(dot);
    assert(components_from(Seq::<u8>::empty(), 0) == Seq::<Seq<u8>>::empty());
    assert(components_from(root, 1) == Seq::<Seq<u8>>::empty());
    assert(components_from(dot, 1) == Seq::<Seq<u8>>::empty());
    assert(root.take(1) == root);
    assert(dot.take(1) == dot);
    assert(components(root) == seq![root]);
    assert(components(dot) == seq![dot]);
}

/// A separator at the end of a path adds nothing to its components.
pub proof fn trailing_separators_do_not_count(path: Seq<u8>)
    requires
        path.len() > 0,
    ensures
        components(path.push(SLASH)) == components(path),
{
    let longer = path.push(SLASH);
    components_by_head(path);
    components_by_head(longer);
    components_from_with_tail(path, SLASH, 0);
    components_from_with_tail(path, SLASH, 1);
    assert(longer[0] == path[0]);
    if path.len() > 1 {
        assert(longer[1] == path[1]);
    }
    assert(longer.take(1) == path.take(1));
}

/// A component `.` behind a separator adds nothing to the components of a path.
pub proof fn inner_dots_do_not_count(path: Seq<u8>)
    requires
        path.len() > 0,
        path.last() == SLASH,
    ensures
        components(path.push(DOT)) == components(path),
{
    let longer = path.push(DOT);
    components_by_head(path);
    components_by_head(longer);
    components_from_with_tail(path, DOT, 0);
    components_from_with_tail(path, DOT, 1);
    assert(longer[0] == path[0]);
    if path.len() > 1 {
        assert(longer[1] == path[1]);
    }
    assert(longer.take(1) == path.take(1));
}

/// A path starts at the root if and only if its first component is the root.
pub proof fn rooted_paths_start_with_the_root(path: Seq<u8>)
    ensures
        rooted(path) <==> components(path).len() > 0 && components(path)[0] == seq![SLASH],
{
    components_by_head(path);
    spans_from_are_plain(path, 0);
    if rooted(path) {
        assert(path.take(1) =~= seq![SLASH]);
    } else if starts_with_dot(path) {
        assert(path.take(1)[0] == DOT);
    } else if components(path).len() > 0 {
        let span = spans_from(path, 0)[0];
        assert(plain_span(path, span));
        assert(components(path)[0][0] == path[span.0]);
        assert(seq![SLASH][0] == SLASH);
    }
}

/// The names that entries of a directory have are the paths of a single component, spelled as
/// that component, other than the root and `.`. Any bytes without a separator will do.
pub proof fn plain_names_are_single_components(name: Seq<u8>)
    ensures
        plain_name(name) <==> name.len() > 0 && name != seq![DOT] && forall|i: int|
            0 <= i < name.len() ==> #[trigger] name[i] != SLASH,
        plain_name(name) <==> components(name) == seq![name] && name != seq![SLASH] && name
            != seq![DOT],
{
    if plain_name(name) {
        joining_adds_a_component(Seq::empty(), name);
        shortest_paths_have_these_components();
        assert(join(Seq::empty(), name) == name);
        assert(Seq::<Seq<u8>>::empty().push(name) == seq![name]);
        if name == seq![SLASH] {
            assert(name[0] == SLASH);
        }
    }
    if components(name) == seq![name] && name != seq![SLASH] && name != seq![DOT] {
        spans_are_plain(name);
        spans_from_are_plain(name, 0);
        components_by_head(name);
        assert(components(name).len() == 1);
        assert(components(name)[0] == name);
        let span = spans(name)[0];
        assert(name.subrange(span.0, span.1) == name);
        assert(span.0 == 0 && span.1 == name.len());
        if rooted(name) || starts_with_dot(name) {
            assert(span == (0int, 1int));
            assert(name =~= seq![SLASH] || name =~= seq![DOT]);
        } else {
            assert(plain_span(name, span));
        }
    }
}

/// Joining keeps the spellings of both the directory and the entry, with nothing between them but
/// at most a separator; an entry of a directory that is spelled at all follows a separator.
pub proof fn joining_keeps_both_spellings(dir: Seq<u8>, name: Seq<u8>)
    ensures
        join(dir, name).take(dir.len() as int) == dir,
        join(dir, name).skip(join(dir, name).len() - name.len()) == name,
        join(dir, name).len() == dir.len() + name.len() || join(dir, name).len() == dir.len() + 1
            + name.len(),
        dir.len() > 0 ==> join(dir, name)[join(dir, name).len() - name.len() - 1] == SLASH,
        dir.len() == 0 || dir.last() == SLASH ==> join(dir, name).len() == dir.len() + name.len(),
{
}

/// What is reached through one entry more is that entry of what is reached through the others.
pub proof fn joining_goes_entry_by_entry(dir: Seq<u8>, names: Seq<Seq<u8>>, name: Seq<u8>)
    ensures
        join_all(dir, Seq::empty()) == dir,
        join_all(dir, names.push(name)) == join(join_all(dir, names), name),
{
    assert(names.push(name).drop_last() == names);
}

/// A path lies under another if and only if its components are those of the other with any number
/// of further ones behind them.
pub proof fn paths_lie_under_their_beginnings(path: Seq<u8>, base: Seq<u8>)
    ensures
        lies_under(path, base) <==> exists|rest: Seq<Seq<u8>>|
            components(path) == #[trigger] (components(base) + rest),
{
    if lies_under(path, base) {
        let rest = components(path).skip(components(base).len() as int);
        assert(components(path) == components(base) + rest);
    }
    if exists|rest: Seq<Seq<u8>>| components(path) == #[trigger] (components(base) + rest) {
        let rest = choose|rest: Seq<Seq<u8>>|
            components(path) == #[trigger] (components(base) + rest);
        assert(components(base).is_prefix_of(components(base) + rest));
    }
}

/// Behind the last component of a path there are only separators and `.`.
proof fn nothing_follows_the_last_span(path: Seq<u8>, from: int)
    requires
        0 <= from,
    ensures
        ({
            let all = spans_from(path, from);
            let end = if all.len() == 0 {
                from
            } else {
                all.last().1
            };
            forall|i: int| end <= i < path.len() ==> #[trigger] path[i] == SLASH || path[i] == DOT
        }),
    decreases path.len() + 1 - from,
{
    if from < path.len() {
        piece_end_bounds(path, from);
        let end = piece_end(path, from);
        let all = spans_from(path, from);
        let rest = spans_from(path, end + 1);
        nothing_follows_the_last_span(path, end + 1);
        if end == from || path.subrange(from, end) == seq![DOT] {
            if rest.len() == 0 {
                assert forall|i: int| from <= i < path.len() implies #[trigger] path[i] == SLASH
                    || path[i] == DOT by {
                    if i < end {
                        let piece = path.subrange(from, end);
                        assert(piece.len() == seq![DOT].len());
                        assert(piece[i - from] == path[i]);
                    }
                }
            }
        } else {
            assert(all == seq![(from, end)] + rest);
            if rest.len() == 0 {
                assert(all.last() == (from, end));
            } else {
                assert(all.last() == rest.last());
            }
        }
    }
}

/// What is left of a path below one that it lies under is spelled as in the path: it is a stretch
/// of it, from the start of one component to the end of the last, with only separators and `.`
/// behind it.
pub proof fn stripping_keeps_the_spelling(path: Seq<u8>, base: Seq<u8>)
    requires
        lies_under(path, base),
    ensures
        ({
            let depth = components(base).len() as int;
            let rest = below(path, base);
            &&& depth == components(path).len() ==> rest == Seq::<u8>::empty()
            &&& depth < components(path).len() ==> {
                &&& components(path)[depth].is_prefix_of(rest)
                &&& components(path).last().is_suffix_of(rest)
                &&& exists|start: int|
                    {
                        &&& 0 <= start <= start + rest.len() <= path.len()
                        &&& #[trigger] path.subrange(start, start + rest.len()) == rest
                        &&& forall|i: int|
                            start + rest.len() <= i < path.len() ==> #[trigger] path[i] == SLASH
                                || path[i] == DOT
                    }
            }
        }),
{
    let depth = components(base).len() as int;
    let rest = below(path, base);
    let all = spans(path);
    spans_are_plain(path);
    if depth < all.len() {
        let start = all[depth].0;
        let end = all.last().1;
        let last = all[all.len() - 1];
        assert(start < all[depth].1 <= end);
        assert(start <= last.0 < end);
        assert(rest == path.subrange(start, end));
        assert(components(path)[depth] == path.subrange(start, all[depth].1));
        assert(components(path)[depth].is_prefix_of(rest));
        assert(components(path).last() == path.subrange(last.0, end));
        assert(components(path).last().is_suffix_of(rest));
        nothing_follows_the_last_span(path, 0);
        nothing_follows_the_last_span(path, 1);
        if rooted(path) || starts_with_dot(path) {
            assert(all == seq![(0int, 1int)] + spans_from(path, 1));
            if spans_from(path, 1).len() > 0 {
                assert(all.last() == spans_from(path, 1).last());
            }
        }
        assert(path.subrange(start, start + rest.len()) == rest);
    }
}

/// A path has an extension if and only if its last component, other than `..`, is something, a
/// dot, and anything behind it.
pub proof fn extensions_follow_a_stem(path: Seq<u8>)
    ensures
        has_extension(path) <==> {
            &&& components(path).len() > 0
            &&& components(path).last() != seq![DOT, DOT]
            &&& exists|stem: Seq<u8>, extension: Seq<u8>|
                stem.len() > 0 && components(path).last() == #[trigger] (stem.push(DOT) + extension)
        },
{
    if components(path).len() > 0 {
        let name = components(path).last();
        if has_extension(path) {
            let i = choose|i: int| 1 <= i < name.len() && #[trigger] name[i] == DOT;
            assert(name == name.take(i).push(DOT) + name.skip(i + 1));
        }
        if exists|stem: Seq<u8>, extension: Seq<u8>|
            stem.len() > 0 && name == #[trigger] (stem.push(DOT) + extension) {
            let (stem, extension): (Seq<u8>, Seq<u8>) = choose|stem: Seq<u8>, extension: Seq<u8>|
                stem.len() > 0 && name == #[trigger] (stem.push(DOT) + extension);
            assert(name[stem.len() as int] == DOT);
        }
    }
}

/// Whether an entry of a directory has an extension is settled by its name.
pub proof fn extensions_belong_to_the_name(dir: Seq<u8>, name: Seq<u8>)
    requires
        plain_name(name),
    ensures
        has_extension(join(dir, name)) <==> has_extension(name),
{
    joining_adds_a_component(dir, name);
    plain_names_are_single_components(name);
    assert(components(join(dir, name)).last() == name);
    assert(seq![name].last() == name);
}

/// A path that was resolved goes by its canonical form, and one that was not by itself.
pub proof fn resolved_paths_go_by_their_canonical_form(path: Seq<u8>, canonical: Seq<u8>)
    ensures
        lossy(path, Some(canonical)) == canonical,
        lossy(path, None) == path,
        (Resolution { path, canonical: Some(canonical) }).form() == canonical,
        (Resolution { path, canonical: None }).form() == path,
{
}

/// A path is seen together with what came of resolving it.
pub proof fn resolutions_are_seen_as_they_are(given: ResolvedPath)
    ensures
        given@.path == given.path@,
        given.canonical matches Some(canonical) ==> given@.canonical == Some(canonical@),
        given.canonical is None ==> given@.canonical is None,
{
}

/// Names are seen one by one, each as it is.
pub proof fn names_are_seen_as_they_are(names: Seq<Vec<u8>>)
    ensures
        name_views(names).len() == names.len(),
        forall|i: int| 0 <= i < names.len() ==> #[trigger] name_views(names)[i] == names[i]@,
{
}

} // verus!
