//! Mirroring a directory tree into a destination without writing what is
//! already there.
//!
//! The program walks the source tree and looks at the destination; the
//! functions here decide, entry by entry, what is to be done, and whether
//! two files are the same.

use vstd::prelude::*;

verus! {

/// How a file that exists in the destination is judged to need no copy.
#[derive(Copy, Clone, PartialEq, Eq, Debug)]
pub enum SkipPolicy {
    /// The two files hold the same bytes.
    Contents,
    /// The two files have the same size, and the one in the destination
    /// was not modified before the source was.
    SizeAndTime,
}

/// What the file system says of a file.
#[derive(Copy, Clone, PartialEq, Eq, Debug)]
pub struct FileFacts {
    /// The size in bytes.
    pub len: u64,
    /// The time of the last modification, counted from a fixed instant.
    pub modified: u64,
}

/// Whether the bytes of the two files have to be compared to judge them:
/// under the policy of contents, when their sizes are equal.
pub open spec fn must_compare(policy: SkipPolicy, source: FileFacts, target: FileFacts) -> bool {
    policy == SkipPolicy::Contents && source.len == target.len
}

/// Whether the file in the destination stands for the source, so that no
/// copy is needed. `same_bytes` says whether the two hold the same bytes;
/// it counts only where `must_compare` asks for it.
pub open spec fn is_equivalent(
    policy: SkipPolicy,
    source: FileFacts,
    target: FileFacts,
    same_bytes: bool,
) -> bool {
    match policy {
        SkipPolicy::Contents => source.len == target.len && same_bytes,
        SkipPolicy::SizeAndTime => source.len == target.len && target.modified >= source.modified,
    }
}

/// Whether the bytes of the two files have to be compared to judge them.
pub fn needs_comparison(policy: SkipPolicy, source: &FileFacts, target: &FileFacts) -> (r: bool)
    ensures
        r == must_compare(policy, *source, *target),
{
    match policy {
        SkipPolicy::Contents => source.len == target.len,
        SkipPolicy::SizeAndTime => false,
    }
}

/// Whether the file in the destination stands for the source.
pub fn equivalent(
    policy: SkipPolicy,
    source: &FileFacts,
    target: &FileFacts,
    same_bytes: bool,
) -> (r: bool)
    ensures
        r == is_equivalent(policy, *source, *target, same_bytes),
{
    match policy {
        SkipPolicy::Contents => source.len == target.len && same_bytes,
        SkipPolicy::SizeAndTime => source.len == target.len && target.modified >= source.modified,
    }
}

/// What one comparison of two buffers, one read from each file, shows.
#[derive(Copy, Clone, PartialEq, Eq, Debug)]
pub enum ChunkVerdict {
    /// Both files are at their end: they are equal.
    Same,
    /// The files differ.
    Differ,
    /// The buffers agree on this many bytes, which are to be consumed
    /// from both files before the next comparison.
    Advance(usize),
}

/// The smaller of two lengths.
pub open spec fn shorter(a: int, b: int) -> int {
    if a <= b {
        a
    } else {
        b
    }
}

/// What the comparison of two buffers shows. Files are compared buffer by
/// buffer, so that no file is ever held in memory as a whole: when both
/// buffers are empty the files have ended together; when only one is
/// empty, one file has ended before the other; else the buffers are
/// compared over the length of the shorter one.
pub open spec fn chunk_verdict(a: Seq<u8>, b: Seq<u8>) -> ChunkVerdict {
    let n = shorter(a.len() as int, b.len() as int);
    if a.len() == 0 && b.len() == 0 {
        ChunkVerdict::Same
    } else if n == 0 || a.take(n) != b.take(n) {
        ChunkVerdict::Differ
    } else {
        ChunkVerdict::Advance(n as usize)
    }
}

/// Compares two buffers, one read from each of two files that are being
/// compared.
pub fn compare_chunks(a: &[u8], b: &[u8]) -> (r: ChunkVerdict)
    ensures
        r == chunk_verdict(a@, b@),
{
    let n: usize = if a.len() <= b.len() {
        a.len()
    } else {
        b.len()
    };
    if a.len() == 0 && b.len() == 0 {
        return ChunkVerdict::Same;
    }
    if n == 0 {
        return ChunkVerdict::Differ;
    }
    let mut i: usize = 0;
    while i < n
        invariant
            n <= a.len(),
            n <= b.len(),
            i <= n,
            forall|j: int| 0 <= j < i ==> a[j] == b[j],
        decreases n - i,
    {
        if a[i] != b[i] {
            assert(a@.take(n as int)[i as int] != b@.take(n as int)[i as int]);
            return ChunkVerdict::Differ;
        }
        i = i + 1;
    }
    assert(a@.take(n as int) =~= b@.take(n as int));
    ChunkVerdict::Advance(n)
}

/// Comparing by buffers decides whether two files are equal. Let `rest_a`
/// and `rest_b` be what is left of the two files, and `a` and `b` the
/// buffers read from them: each begins what is left of its file, and is
/// empty only when nothing is left; a buffer fits in memory. Then `Same` is answered only when what
/// is left is equal, `Differ` only when it is not, and after `Advance`
/// what is left is equal exactly when it is equal past the bytes consumed,
/// of which there is at least one.
pub proof fn law_chunks_decide(a: Seq<u8>, b: Seq<u8>, rest_a: Seq<u8>, rest_b: Seq<u8>)
    requires
        a.is_prefix_of(rest_a),
        b.is_prefix_of(rest_b),
        a.len() == 0 ==> rest_a.len() == 0,
        b.len() == 0 ==> rest_b.len() == 0,
        a.len() <= usize::MAX,
        b.len() <= usize::MAX,
    ensures
        match chunk_verdict(a, b) {
            ChunkVerdict::Same => rest_a == rest_b,
            ChunkVerdict::Differ => rest_a != rest_b,
            ChunkVerdict::Advance(n) => 0 < n <= a.len() && n <= b.len() && (rest_a == rest_b
                <==> rest_a.skip(n as int) == rest_b.skip(n as int)),
        },
{
    let n = shorter(a.len() as int, b.len() as int);
    if n > 0 {
        assert(a.take(n) =~= rest_a.take(n));
        assert(b.take(n) =~= rest_b.take(n));
        assert(rest_a =~= rest_a.take(n) + rest_a.skip(n));
        assert(rest_b =~= rest_b.take(n) + rest_b.skip(n));
    }
}

/// The buffer that a read of at most `size` bytes gives from what is left
/// of a file.
pub open spec fn buffer(rest: Seq<u8>, size: nat) -> Seq<u8> {
    rest.take(shorter(size as int, rest.len() as int))
}

/// What comparing by buffers finds of two files, `sizes(i)` being the
/// sizes of the two reads of step `i`: the files are read and compared step
/// by step, from `step` on, until a comparison decides.
pub open spec fn compared_equal(
    a: Seq<u8>,
    b: Seq<u8>,
    sizes: spec_fn(nat) -> (nat, nat),
    step: nat,
) -> bool
    decreases a.len(),
{
    match chunk_verdict(buffer(a, sizes(step).0), buffer(b, sizes(step).1)) {
        ChunkVerdict::Same => true,
        ChunkVerdict::Differ => false,
        ChunkVerdict::Advance(n) => if 0 < n <= a.len() {
            compared_equal(a.skip(n as int), b.skip(n as int), sizes, step + 1)
        } else {
            false
        },
    }
}

/// Comparing by buffers finds two files equal exactly when they hold the
/// same bytes, however long they are and whatever the sizes of the reads,
/// as long as each read asks for at least one byte and for no more than
/// fits in memory.
pub proof fn law_compared_by_chunks(
    a: Seq<u8>,
    b: Seq<u8>,
    sizes: spec_fn(nat) -> (nat, nat),
    step: nat,
)
    requires
        forall|i: nat|
            0 < (#[trigger] sizes(i)).0 <= usize::MAX && 0 < sizes(i).1 <= usize::MAX,
    ensures
        compared_equal(a, b, sizes, step) == (a == b),
    decreases a.len(),
{
    let x = buffer(a, sizes(step).0);
    let y = buffer(b, sizes(step).1);
    law_chunks_decide(x, y, a, b);
    match chunk_verdict(x, y) {
        ChunkVerdict::Advance(n) => {
            law_compared_by_chunks(a.skip(n as int), b.skip(n as int), sizes, step + 1);
        },
        _ => {},
    }
}

/// What an entry of the source tree is.
#[derive(Copy, Clone, PartialEq, Eq, Debug)]
pub enum EntryKind {
    Directory,
    File,
}

/// What stands in the destination where an entry of the source tree goes.
#[derive(Copy, Clone, PartialEq, Eq, Debug)]
pub enum Target {
    /// Nothing.
    Missing,
    /// Something, which does or does not stand for the source.
    Present { equivalent: bool },
}

/// What is to be done for an entry of the source tree.
#[derive(Copy, Clone, PartialEq, Eq, Debug)]
pub enum CopyAction {
    /// Create the directory in the destination, unless it exists.
    CreateDirectory,
    /// Copy the file into the destination, over what stands there.
    CopyFile,
    /// Leave the destination as it is.
    Skip,
}

/// What is to be done for an entry: a directory is created, also an empty
/// one; a file is copied when none is there and when the one there does
/// not stand for it. Nothing is ever removed.
pub open spec fn action_for(kind: EntryKind, target: Target) -> CopyAction {
    match kind {
        EntryKind::Directory => CopyAction::CreateDirectory,
        EntryKind::File => match target {
            Target::Missing => CopyAction::CopyFile,
            Target::Present { equivalent } => if equivalent {
                CopyAction::Skip
            } else {
                CopyAction::CopyFile
            },
        },
    }
}

/// What is to be done for an entry of the source tree.
pub fn copy_action(kind: EntryKind, target: Target) -> (r: CopyAction)
    ensures
        r == action_for(kind, target),
{
    match kind {
        EntryKind::Directory => CopyAction::CreateDirectory,
        EntryKind::File => match target {
            Target::Missing => CopyAction::CopyFile,
            Target::Present { equivalent } => if equivalent {
                CopyAction::Skip
            } else {
                CopyAction::CopyFile
            },
        },
    }
}

/// What stands in the destination once the action has been carried out: a
/// copied file stands for its source, a directory is there, and what was
/// skipped is as before.
pub open spec fn target_after(action: CopyAction, target: Target) -> Target {
    match action {
        CopyAction::CreateDirectory => Target::Present { equivalent: true },
        CopyAction::CopyFile => Target::Present { equivalent: true },
        CopyAction::Skip => target,
    }
}

/// Whether an action writes the bytes of a file.
pub open spec fn writes(action: CopyAction) -> bool {
    action == CopyAction::CopyFile
}

/// Copying again writes nothing: once the action for an entry has been
/// carried out, what stands in the destination stands for the source, and
/// the action for the same entry writes no byte and leaves it so.
pub proof fn law_second_copy_writes_nothing(kind: EntryKind, target: Target)
    ensures
        ({
            let first = action_for(kind, target);
            let then = target_after(first, target);
            let second = action_for(kind, then);
            &&& then == Target::Present { equivalent: true }
            &&& !writes(second)
            &&& target_after(second, then) == then
        }),
{
}

/// An entry of the source tree, as the walk of the tree gives it.
#[derive(Clone, Debug)]
pub struct TreeEntry {
    /// The path of the entry below the root of the source tree.
    pub path: String,
    pub kind: EntryKind,
    /// What stands at that path below the root of the destination.
    pub target: Target,
}

/// What is to be done at a path below the root of the destination.
#[derive(Clone, Debug)]
pub struct CopyStep {
    pub path: String,
    pub action: CopyAction,
}

/// Decides the copy of a tree: one step per entry of the source tree, in
/// the order of the walk, so that a directory comes before what it holds.
/// The root of the destination is to be created before the first step.
pub fn copy_dir_recursive(entries: &Vec<TreeEntry>) -> (r: Vec<CopyStep>)
    ensures
        r.len() == entries.len(),
        forall|i: int|
            0 <= i < r.len() ==> (#[trigger] r[i]).path@ == entries[i].path@ && r[i].action
                == action_for(entries[i].kind, entries[i].target),
{
    let n: usize = entries.len();
    let mut steps: Vec<CopyStep> = Vec::new();
    let mut i: usize = 0;
    while i < n
        invariant
            n == entries.len(),
            i <= n,
            steps.len() == i,
            forall|j: int|
                0 <= j < i ==> (#[trigger] steps[j]).path@ == entries[j].path@ && steps[j].action
                    == action_for(entries[j].kind, entries[j].target),
        decreases n - i,
    {
        let entry = &entries[i];
        steps.push(CopyStep { path: entry.path.clone(), action: copy_action(entry.kind, entry.target) });
        i = i + 1;
    }
    steps
}

} // verus!
