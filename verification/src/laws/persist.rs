//! Laws of the message log.

use crate::message::Message;
use crate::persist::{
    encode_batch, first_failure, law_log_length, law_record_index, numbered, total_bytes, AppendLog,
    Completion, LogWrite, Packing, WriteFailure, STD_BUF_CAP,
};
use vstd::prelude::*;

verus! {

/// The buffer holds the largest batch, 4096 records.
pub proof fn law_buffer()
    ensures
        STD_BUF_CAP >= 4096 * 64,
        STD_BUF_CAP == 524_288,
{
}

/// The bytes of a batch are the records of its messages one after another: that of
/// message `i` stands at `i * 64`.
pub proof fn law_encode_batch(
    msgs: &[Message],
    bytes: Vec<u8>,
    i: int,
    m: &Message,
    record: [u8; 64],
    k: int,
)
    requires
        call_ensures(encode_batch, (msgs,), bytes),
        0 <= i < msgs@.len(),
        *m == msgs@[i],
        call_ensures(Message::to_bytes, (m,), record),
        0 <= k < 64,
    ensures
        bytes@.len() == 64 * msgs@.len(),
        bytes@[64 * i + k] == record@[k],
{
    law_log_length(msgs@);
    law_record_index(msgs@, i);
    assert(bytes@.subrange(64 * i, 64 * i + 64)[k] == bytes@[64 * i + k]);
}

/// An empty batch has no bytes.
pub proof fn law_encode_nothing(msgs: &[Message], bytes: Vec<u8>)
    requires
        call_ensures(encode_batch, (msgs,), bytes),
    ensures
        bytes@.len() == 64 * msgs@.len(),
{
    law_log_length(msgs@);
}

/// A log starts where it is told to, with the chunks and the packing asked for.
pub proof fn law_new_log(offset: u64, chunk_msgs: usize, packing: Packing, log: AppendLog)
    requires
        chunk_msgs > 0,
        call_ensures(AppendLog::new, (offset, chunk_msgs, packing), log),
    ensures
        log.offset == offset,
        log.chunk_msgs == chunk_msgs,
        log.packing == packing,
{
}

/// The next chunk starts with the first message that is not written. It takes in
/// `n` messages, as many as are left, up to the size of a chunk; only where none is
/// left there is no chunk. Either each record is a write of its own, at 64 bytes
/// from the one before it, or all of them are one write; in both cases record `i`
/// of the chunk goes to `64 * i` behind the end of the log.
pub proof fn law_next_writes(
    log: &AppendLog,
    msgs: &[Message],
    written: usize,
    r: Option<Vec<LogWrite>>,
    n: int,
    i: int,
    m: &Message,
    record: [u8; 64],
)
    requires
        log.wf(),
        written <= msgs@.len(),
        log.offset + 64 * (msgs@.len() - written) <= u64::MAX,
        call_ensures(AppendLog::next_writes, (log, msgs, written), r),
        n == msgs@.len() - written || n == log.chunk_msgs,
        n <= msgs@.len() - written && n <= log.chunk_msgs,
        0 <= i < n,
        *m == msgs@[written + i],
        call_ensures(Message::to_bytes, (m,), record),
    ensures
        r matches Some(ops) && match log.packing {
            Packing::PerRecord => {
                &&& ops@.len() == n
                &&& ops@[i].offset == log.offset + 64 * i
                &&& ops@[i].bytes@ == record@
                &&& ops@[i].user_data == i
            },
            Packing::PerChunk => {
                &&& ops@.len() == 1
                &&& ops@[0].offset == log.offset
                &&& ops@[0].bytes@.len() == 64 * n
                &&& ops@[0].bytes@.subrange(64 * i, 64 * i + 64) == record@
                &&& ops@[0].user_data == 0
            },
        },
{
    let ops = r->0@;
    let chunk = msgs@.subrange(written as int, written + n);
    let all = ops.map_values(|op: LogWrite| op@);
    assert(chunk[i] == msgs@[written + i]);
    match log.packing {
        Packing::PerRecord => {
            assert(all.len() == n);
            assert(all[i] == ops[i]@);
        },
        Packing::PerChunk => {
            assert(all.len() == 1);
            assert(all[0] == ops[0]@);
            law_log_length(chunk);
            law_record_index(chunk, i);
        },
    }
}

/// There is a chunk exactly while messages are left.
pub proof fn law_chunks_end(log: &AppendLog, msgs: &[Message], written: usize, r: Option<Vec<LogWrite>>)
    requires
        log.wf(),
        written <= msgs@.len(),
        log.offset + 64 * (msgs@.len() - written) <= u64::MAX,
        call_ensures(AppendLog::next_writes, (log, msgs, written), r),
    ensures
        r is None <==> written == msgs@.len(),
{
}

/// That the write with this number was completed with this many bytes.
pub open spec fn reported(completions: Seq<Completion>, number: int, bytes: int) -> bool {
    exists|j: int|
        0 <= j < completions.len() && (#[trigger] completions[j]).user_data == number
            && completions[j].result == bytes
}

/// Whether and where a write failed first.
proof fn lemma_first_failure(completions: Seq<Completion>)
    ensures
        match first_failure(completions) {
            None => forall|j: int|
                0 <= j < completions.len() ==> (#[trigger] completions[j]).result >= 0,
            Some(e) => exists|j: int|
                {
                    &&& 0 <= j < completions.len()
                    &&& (#[trigger] completions[j]).result == -e
                    &&& e > 0
                    &&& forall|i: int| 0 <= i < j ==> (#[trigger] completions[i]).result >= 0
                },
        },
    decreases completions.len(),
{
    if completions.len() > 0 && completions.first().result >= 0 {
        let rest = completions.drop_first();
        lemma_first_failure(rest);
        match first_failure(rest) {
            None => {
                assert forall|j: int| 0 <= j < completions.len() implies (
                #[trigger] completions[j]).result >= 0 by {
                    if j > 0 {
                        assert(rest[j - 1] == completions[j]);
                    }
                }
            },
            Some(e) => {
                let j = choose|j: int|
                    {
                        &&& 0 <= j < rest.len()
                        &&& (#[trigger] rest[j]).result == -e
                        &&& e > 0
                        &&& forall|i: int| 0 <= i < j ==> (#[trigger] rest[i]).result >= 0
                    };
                assert(completions[j + 1] == rest[j]);
                assert forall|i: int| 0 <= i < j + 1 implies (#[trigger] completions[i]).result
                    >= 0 by {
                    if i > 0 {
                        assert(rest[i - 1] == completions[i]);
                    }
                }
            },
        }
    } else if completions.len() > 0 {
        assert(completions[0].result == -(-completions[0].result));
    }
}

/// A chunk whose writes were all written is in the log, however many bytes they
/// have and in whatever order they came to an end: where the writes are those of
/// `next_writes`, no completion is an error, and each write `i` has one, at `at[i]`,
/// with all of its bytes, the log moves past the `n` messages of the chunk and says so.
pub proof fn law_whole_chunk_counts(
    log: &mut AppendLog,
    before: &AppendLog,
    msgs: &[Message],
    written: usize,
    ops: Vec<LogWrite>,
    writes: &[LogWrite],
    completions: &[Completion],
    at: Seq<int>,
    n: int,
    r: Result<usize, WriteFailure>,
)
    requires
        before.wf(),
        *before == *old(log),
        written < msgs@.len(),
        before.offset + 64 * (msgs@.len() - written) <= u64::MAX,
        call_ensures(AppendLog::next_writes, (before, msgs, written), Some(ops)),
        writes@ == ops@,
        n == msgs@.len() - written || n == before.chunk_msgs,
        n <= msgs@.len() - written && n <= before.chunk_msgs,
        forall|j: int|
            0 <= j < completions@.len() ==> (#[trigger] completions@[j]).result >= 0,
        at.len() == writes@.len(),
        forall|i: int|
            0 <= i < writes@.len() ==> 0 <= #[trigger] at[i] < completions@.len()
                && completions@[at[i]].user_data == i && completions@[at[i]].result
                == writes@[i].bytes@.len(),
        call_ensures(AppendLog::completed, (log, writes, completions), r),
    ensures
        r is Ok && r->Ok_0 == n,
        final(log).offset == old(log).offset + 64 * n,
{
    lemma_first_failure(completions@);
    assert forall|i: int| 0 <= i < writes@.len() implies crate::persist::written_whole(
        #[trigger] writes@[i],
        completions@,
    ) by {
        assert(completions@[at[i]].user_data == writes@[i].user_data);
    }
}

/// A log is in order when a chunk has room for a record; writes are numbered when
/// each has its index; and their bytes add up write by write.
pub proof fn law_terms(log: AppendLog, writes: Seq<LogWrite>, more: LogWrite)
    ensures
        log.wf() <==> log.chunk_msgs > 0,
        numbered(writes) <==> forall|i: int|
            0 <= i < writes.len() ==> (#[trigger] writes[i]).user_data == i,
        total_bytes(writes.push(more)) == total_bytes(writes) + more.bytes@.len(),
        writes.len() == 0 ==> total_bytes(writes) == 0,
{
    assert(writes.push(more).drop_last() =~= writes);
}

/// Any writes, numbered from zero, that were all written whole are counted, with
/// whatever number of bytes each has: the log moves past all their bytes and counts
/// a record for every 64 of them.
pub proof fn law_whole_writes_count(
    log: &mut AppendLog,
    writes: &[LogWrite],
    completions: &[Completion],
    at: Seq<int>,
    r: Result<usize, WriteFailure>,
)
    requires
        old(log).wf(),
        call_ensures(AppendLog::completed, (log, writes, completions), r),
        forall|i: int| 0 <= i < writes@.len() ==> (#[trigger] writes@[i]).user_data == i,
        forall|j: int|
            0 <= j < completions@.len() ==> (#[trigger] completions@[j]).result >= 0,
        at.len() == writes@.len(),
        forall|i: int|
            0 <= i < writes@.len() ==> 0 <= #[trigger] at[i] < completions@.len()
                && completions@[at[i]].user_data == i && completions@[at[i]].result
                == writes@[i].bytes@.len(),
    ensures
        r is Ok && 64 * r->Ok_0 <= total_bytes(writes@) < 64 * r->Ok_0 + 64,
        final(log).offset == old(log).offset + total_bytes(writes@),
{
    lemma_first_failure(completions@);
    assert forall|i: int| 0 <= i < writes@.len() implies crate::persist::written_whole(
        #[trigger] writes@[i],
        completions@,
    ) by {
        assert(completions@[at[i]].user_data == writes@[i].user_data);
    }
}

/// What is counted was written: with success no completion is an error and each
/// write has one with all of its bytes. Without it the log stays where it is, and
/// the reason is true: the error number is that of the first completion that is an
/// error, and a short write is one without such a completion.
pub proof fn law_counted_was_written(
    log: &mut AppendLog,
    writes: &[LogWrite],
    completions: &[Completion],
    r: Result<usize, WriteFailure>,
    k: int,
)
    requires
        old(log).wf(),
        call_ensures(AppendLog::completed, (log, writes, completions), r),
        forall|i: int| 0 <= i < writes@.len() ==> (#[trigger] writes@[i]).user_data == i,
    ensures
        r is Ok ==> forall|j: int|
            0 <= j < completions@.len() ==> (#[trigger] completions@[j]).result >= 0,
        r is Ok && 0 <= k < writes@.len() ==> exists|j: int|
            0 <= j < completions@.len() && (#[trigger] completions@[j]).user_data == k
                && completions@[j].result == writes@[k].bytes@.len(),
        r is Err ==> final(log).offset == old(log).offset,
        r matches Err(WriteFailure::Os(e)) ==> exists|j: int|
            {
                &&& 0 <= j < completions@.len()
                &&& (#[trigger] completions@[j]).result == -e
                &&& e > 0
                &&& forall|i: int| 0 <= i < j ==> (#[trigger] completions@[i]).result >= 0
            },
        r matches Err(WriteFailure::Short) ==> {
            &&& forall|j: int|
                0 <= j < completions@.len() ==> (#[trigger] completions@[j]).result >= 0
            &&& exists|i: int|
                0 <= i < writes@.len() && !reported(
                    completions@,
                    i,
                    (#[trigger] writes@[i]).bytes@.len() as int,
                )
        },
        final(log).chunk_msgs == old(log).chunk_msgs,
        final(log).packing == old(log).packing,
{
    lemma_first_failure(completions@);
    if r is Ok && 0 <= k < writes@.len() {
        assert(crate::persist::written_whole(writes@[k], completions@));
    }
    if r matches Err(WriteFailure::Short) {
        let i = choose|i: int|
            0 <= i < writes@.len() && !crate::persist::written_whole(
                #[trigger] writes@[i],
                completions@,
            );
        assert(!reported(completions@, i, writes@[i].bytes@.len() as int));
    }
}

} // verus!
