//! Laws of a run of batches through a log writer.

use crate::message::Message;
use crate::write_run::{
    batch_sizes, bench_batch, platform_note, Durability, Phase, WriteRun, WriteStep,
};
use vstd::bytes::{lemma_auto_spec_u64_to_from_le_bytes, spec_u64_to_le_bytes};
use vstd::prelude::*;
use vstd::utf8::encode_utf8;

verus! {

/// The modes have these names.
pub proof fn law_labels(a: &'static str, b: &'static str)
    requires
        call_ensures(Durability::label, (Durability::SyncEnd,), a),
        call_ensures(Durability::label, (Durability::SyncPerBatch,), b),
    ensures
        a@ == "sync-end"@,
        b@ == "sync-per-batch"@,
{
}

/// The batch sizes start at one and grow eightfold.
pub proof fn law_batch_sizes(sizes: Vec<usize>, i: int)
    requires
        call_ensures(batch_sizes, (), sizes),
    ensures
        sizes@.len() == 5,
        sizes@[0] == 1,
        0 < i < 5 ==> sizes@[i] == 8 * sizes@[i - 1],
{
}

/// A benchmark's batch has as many messages as asked for, on one topic, unstamped,
/// and each carries its index, lowest byte first.
pub proof fn law_bench_batch(batch_size: usize, msgs: Vec<Message>, i: int, k: int)
    requires
        call_ensures(bench_batch, (batch_size,), msgs),
        0 <= i < batch_size,
    ensures
        msgs@.len() == batch_size,
        msgs@[i].timestamp_ns == 0,
        0 <= k < 32 ==> msgs@[i].topic@[k] == (if k < encode_utf8("persist.bench"@).len() {
            encode_utf8("persist.bench"@)[k]
        } else {
            0
        }),
        0 <= k < 8 ==> msgs@[i].payload@[k] == spec_u64_to_le_bytes(i as u64)[k],
        8 <= k < 24 ==> msgs@[i].payload@[k] == 0,
{
    lemma_auto_spec_u64_to_from_le_bytes();
}

/// A new run has written nothing.
pub proof fn law_new_run(msg_count: usize, durability: Durability, run: WriteRun)
    requires
        call_ensures(WriteRun::new, (msg_count, durability), run),
    ensures
        run.msg_count == msg_count,
        run.durability == durability,
        run.total == 0,
        run.phase == Phase::Batches,
{
}

/// What a run asks for next: a sync for a batch that is not on disk, else a batch
/// while messages are missing, else the last sync, and then nothing.
pub proof fn law_next(run: &WriteRun, step: WriteStep)
    requires
        call_ensures(WriteRun::next, (run,), step),
    ensures
        step is Done <==> run.phase == Phase::Finished,
        step is WriteBatch <==> run.phase == Phase::Batches && run.total < run.msg_count,
        run.phase == Phase::BatchWritten ==> step is Sync,
{
}

/// A batch adds the messages that went through, and is to be synced on its own
/// exactly in that mode.
pub proof fn law_wrote(run: &mut WriteRun, n: usize)
    requires
        old(run).phase == Phase::Batches,
        old(run).total < old(run).msg_count,
        old(run).total + n <= usize::MAX,
        call_ensures(WriteRun::wrote, (run, n), ()),
    ensures
        final(run).total == old(run).total + n,
        final(run).phase == Phase::BatchWritten <==> old(run).durability
            == Durability::SyncPerBatch,
        final(run).phase == Phase::Batches <==> old(run).durability == Durability::SyncEnd,
        final(run).msg_count == old(run).msg_count,
        final(run).durability == old(run).durability,
{
}

/// A sync after a batch leads back to the batches; the last one ends the run.
pub proof fn law_synced(run: &mut WriteRun)
    requires
        old(run).phase == Phase::BatchWritten || (old(run).phase == Phase::Batches && old(
            run,
        ).total >= old(run).msg_count),
        call_ensures(WriteRun::synced, (run,), ()),
    ensures
        old(run).phase == Phase::BatchWritten ==> final(run).phase == Phase::Batches,
        old(run).phase == Phase::Batches ==> final(run).phase == Phase::Finished,
        final(run).total == old(run).total,
        final(run).msg_count == old(run).msg_count,
        final(run).durability == old(run).durability,
{
}

/// The platform notes.
pub proof fn law_platform_note(on_linux: &'static str, elsewhere: &'static str)
    requires
        call_ensures(platform_note, (true,), on_linux),
        call_ensures(platform_note, (false,), elsewhere),
    ensures
        on_linux@ == "linux — io_uring available"@,
        elsewhere@ == "non-linux — io_uring not available; std baseline only"@,
{
}

} // verus!
