//! A model of the atomic-write protocol every generated file goes through:
//! the bytes are written to a sibling temporary path, possibly in several
//! steps, and one rename over the destination is the only mutation the
//! destination ever sees. Interrupting the protocol anywhere leaves the
//! destination either untouched or holding the complete new content.

use vstd::prelude::*;

verus! {

/// The two files an atomic write touches.
pub struct FileState {
    pub dest: Seq<u8>,
    pub tmp: Option<Seq<u8>>,
}

/// One step of the protocol: writing the temporary file sets its content;
/// the rename moves the temporary content over the destination.
pub enum WriteStep {
    WriteTmp(Seq<u8>),
    Rename,
}

/// How one step changes the two files.
pub open spec fn spec_step(s: FileState, st: WriteStep) -> FileState {
    match st {
        WriteStep::WriteTmp(b) => FileState { dest: s.dest, tmp: Some(b) },
        WriteStep::Rename => match s.tmp {
            Some(b) => FileState { dest: b, tmp: None },
            None => s,
        },
    }
}

/// Running a row of steps, in order.
pub open spec fn spec_run(s: FileState, steps: Seq<WriteStep>) -> FileState
    decreases steps.len(),
{
    if steps.len() == 0 {
        s
    } else {
        spec_step(spec_run(s, steps.drop_last()), steps.last())
    }
}

/// Writes to the temporary path never move the destination.
proof fn lemma_tmp_writes_keep_dest(s: FileState, steps: Seq<WriteStep>)
    requires
        forall|i: int| 0 <= i < steps.len() ==> (#[trigger] steps[i]) is WriteTmp,
    ensures
        spec_run(s, steps).dest == s.dest,
    decreases steps.len(),
{
    if steps.len() > 0 {
        assert(forall|i: int|
            0 <= i < steps.drop_last().len() ==> (#[trigger] steps.drop_last()[i]) is WriteTmp);
        lemma_tmp_writes_keep_dest(s, steps.drop_last());
        assert(steps[steps.len() - 1] is WriteTmp);
    }
}

/// Atomic write safety: under the protocol — temporary writes, the last of
/// them with the full new content, then one rename — an interruption after
/// any number of steps leaves the destination holding either its old content
/// or the complete new content, never a truncated in-between.
pub proof fn lemma_atomic_write_safety(
    s0: FileState,
    steps: Seq<WriteStep>,
    content: Seq<u8>,
    k: int,
)
    requires
        steps.len() >= 2,
        steps.last() is Rename,
        forall|i: int| 0 <= i < steps.len() - 1 ==> (#[trigger] steps[i]) is WriteTmp,
        steps[steps.len() - 2] == WriteStep::WriteTmp(content),
        0 <= k <= steps.len(),
    ensures
        spec_run(s0, steps.take(k)).dest == s0.dest || spec_run(s0, steps.take(k)).dest
            == content,
{
    if k < steps.len() {
        assert(forall|i: int|
            0 <= i < steps.take(k).len() ==> (#[trigger] steps.take(k)[i]) is WriteTmp);
        lemma_tmp_writes_keep_dest(s0, steps.take(k));
    } else {
        assert(steps.take(k) =~= steps);
        let before = steps.drop_last();
        assert(forall|i: int| 0 <= i < before.len() ==> (#[trigger] before[i]) is WriteTmp);
        lemma_tmp_writes_keep_dest(s0, before);
        assert(before.drop_last() == steps.take(steps.len() - 2));
        assert(before.last() == WriteStep::WriteTmp(content));
        assert(spec_run(s0, before).tmp == Some(content));
        assert(spec_run(s0, steps).dest == content);
    }
}

} // verus!
