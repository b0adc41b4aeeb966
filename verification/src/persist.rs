//! The message log: fixed-size records one after another, and the writes that
//! append a batch of them to a file.
//!
//! Each record takes 64 bytes, so there is no length prefix, and the record with
//! index `i` stands at `i * 64`.

use crate::message::{law_record_round_trip, Message, RECORD_BYTES};
use vstd::prelude::*;

verus! {

/// Buffer of a writer over plain files. It holds the largest measured batch, so
/// that one batch is one write.
pub const STD_BUF_CAP: usize = 512 * 1024;

#[verifier::external_type_specification]
#[verifier::external_body]
pub struct ExIoError(std::io::Error);

/// Something that appends messages to a log.
pub trait MessageWriter {
    /// Append `msgs` to the log. Returns number written or an error.
    fn write_batch(&mut self, msgs: &[Message]) -> std::io::Result<usize>;

    /// Ensure all data is on disk (fsync or equivalent).
    fn sync(&mut self) -> std::io::Result<()>;

    fn name(&self) -> &'static str;
}

/// The bytes of a log that holds `msgs`.
pub open spec fn log_bytes(msgs: Seq<Message>) -> Seq<u8>
    decreases msgs.len(),
{
    if msgs.len() == 0 {
        Seq::empty()
    } else {
        log_bytes(msgs.drop_last()) + msgs.last().record()
    }
}

/// A write of `bytes` at a position of a file.
#[derive(Debug)]
pub struct LogWrite {
    pub offset: u64,
    pub bytes: Vec<u8>,
    /// Tells the completions of the writes of one submission apart.
    pub user_data: u64,
}

/// What a [`LogWrite`] does.
pub struct WriteOp {
    pub offset: nat,
    pub bytes: Seq<u8>,
}

impl View for LogWrite {
    type V = WriteOp;

    open spec fn view(&self) -> WriteOp {
        WriteOp { offset: self.offset as nat, bytes: self.bytes@ }
    }
}

impl WriteOp {
    /// That the write covers position `p`.
    pub open spec fn covers(self, p: int) -> bool {
        self.offset <= p < self.offset + self.bytes.len()
    }
}

/// The file after a write. A gap before it reads as zeros.
pub open spec fn file_after(file: Seq<u8>, op: WriteOp) -> Seq<u8> {
    let end = op.offset + op.bytes.len();
    let len = if file.len() < end {
        end
    } else {
        file.len()
    };
    Seq::new(
        len,
        |p: int|
            if op.covers(p) {
                op.bytes[p - op.offset]
            } else if p < file.len() {
                file[p]
            } else {
                0
            },
    )
}

/// The file after all of `ops`, one after another.
pub open spec fn file_after_all(file: Seq<u8>, ops: Seq<WriteOp>) -> Seq<u8>
    decreases ops.len(),
{
    if ops.len() == 0 {
        file
    } else {
        file_after(file_after_all(file, ops.drop_last()), ops.last())
    }
}

/// How a chunk of a batch is written.
#[derive(Debug, Clone, Copy, PartialEq, Eq, Structural)]
pub enum Packing {
    /// One write for each record.
    PerRecord,
    /// One write for all records of the chunk.
    PerChunk,
}

/// The writes that append `chunk` at `offset`.
pub open spec fn chunk_ops(packing: Packing, offset: nat, chunk: Seq<Message>) -> Seq<WriteOp> {
    match packing {
        Packing::PerRecord => Seq::new(
            chunk.len(),
            |i: int| WriteOp { offset: (offset + 64 * i) as nat, bytes: chunk[i].record() },
        ),
        Packing::PerChunk => seq![WriteOp { offset, bytes: log_bytes(chunk) }],
    }
}

/// How many of the `left` messages that are still to be written go into the next
/// chunk.
pub open spec fn chunk_size(left: int, chunk_msgs: int) -> int {
    if left < chunk_msgs {
        left
    } else {
        chunk_msgs
    }
}

/// The file after a whole batch, appended at `offset` chunk by chunk.
pub open spec fn file_after_batch(
    file: Seq<u8>,
    packing: Packing,
    offset: nat,
    msgs: Seq<Message>,
    chunk_msgs: nat,
) -> Seq<u8>
    decreases msgs.len(),
{
    if msgs.len() == 0 || chunk_msgs == 0 {
        file
    } else {
        let n = chunk_size(msgs.len() as int, chunk_msgs as int);
        file_after_batch(
            file_after_all(file, chunk_ops(packing, offset, msgs.take(n))),
            packing,
            (offset + 64 * n) as nat,
            msgs.skip(n),
            chunk_msgs,
        )
    }
}

/// What the kernel reports of a write: which one it was, and the bytes that it
/// wrote, or a negated error number.
#[derive(Debug, Clone, Copy, PartialEq, Eq, Structural)]
pub struct Completion {
    pub user_data: u64,
    pub result: i32,
}

/// Why a chunk did not get into the log.
#[derive(Debug, Clone, Copy, PartialEq, Eq, Structural)]
pub enum WriteFailure {
    /// A write failed with this error number.
    Os(i32),
    /// A write came to an end before all of its bytes were written.
    Short,
}

/// The error number of the first write that failed.
pub open spec fn first_failure(completions: Seq<Completion>) -> Option<int>
    decreases completions.len(),
{
    if completions.len() == 0 {
        None
    } else if completions.first().result < 0 {
        Some(-completions.first().result)
    } else {
        first_failure(completions.drop_first())
    }
}

/// That a completion says of `write` that all of its bytes were written.
pub open spec fn written_whole(write: LogWrite, completions: Seq<Completion>) -> bool {
    exists|j: int|
        0 <= j < completions.len() && (#[trigger] completions[j]).user_data == write.user_data
            && completions[j].result == write.bytes@.len()
}

/// That all of `writes` were written whole.
pub open spec fn all_written(writes: Seq<LogWrite>, completions: Seq<Completion>) -> bool {
    forall|i: int| 0 <= i < writes.len() ==> written_whole(#[trigger] writes[i], completions)
}

/// The bytes of `writes` together.
pub open spec fn total_bytes(writes: Seq<LogWrite>) -> nat
    decreases writes.len(),
{
    if writes.len() == 0 {
        0
    } else {
        total_bytes(writes.drop_last()) + writes.last().bytes@.len()
    }
}

/// That the writes go by their index.
pub open spec fn numbered(writes: Seq<LogWrite>) -> bool {
    forall|i: int| 0 <= i < writes.len() ==> (#[trigger] writes[i]).user_data == i
}

/// The bytes that append `msgs` to a log.
pub fn encode_batch(msgs: &[Message]) -> (bytes: Vec<u8>)
    ensures
        bytes@ == log_bytes(msgs@),
{
    let mut bytes: Vec<u8> = Vec::new();
    let mut i: usize = 0;
    while i < msgs.len()
        invariant
            i <= msgs@.len(),
            bytes@ == log_bytes(msgs@.take(i as int)),
        decreases msgs@.len() - i,
    {
        assert(msgs@.take(i + 1).drop_last() =~= msgs@.take(i as int));
        push_record(&mut bytes, &msgs[i]);
        i += 1;
    }
    assert(msgs@.take(i as int) =~= msgs@);
    bytes
}

/// Appends the record of `msg` to `bytes`.
fn push_record(bytes: &mut Vec<u8>, msg: &Message)
    ensures
        final(bytes)@ == old(bytes)@ + msg.record(),
{
    let record = msg.to_bytes();
    let ghost before = bytes@;
    let mut i: usize = 0;
    assert(before + record@.take(0) =~= before);
    while i < RECORD_BYTES
        invariant
            i <= RECORD_BYTES,
            bytes@ == before + record@.take(i as int),
        decreases RECORD_BYTES - i,
    {
        assert(record@.take(i + 1) =~= record@.take(i as int).push(record@[i as int]));
        bytes.push(record[i]);
        assert(bytes@ =~= before + record@.take(i + 1));
        i += 1;
    }
    assert(record@.take(i as int) =~= record@);
}

/// The end of an append-only log in a file that is written at given positions,
/// `chunk_msgs` records at a time at most.
pub struct AppendLog {
    pub offset: u64,
    pub chunk_msgs: usize,
    pub packing: Packing,
}

impl AppendLog {
    /// That a chunk has room for a record.
    pub open spec fn wf(self) -> bool {
        self.chunk_msgs > 0
    }

    /// A log that ends at `offset`.
    pub fn new(offset: u64, chunk_msgs: usize, packing: Packing) -> (log: Self)
        requires
            chunk_msgs > 0,
        ensures
            log.wf(),
            log == (AppendLog { offset, chunk_msgs, packing }),
    {
        AppendLog { offset, chunk_msgs, packing }
    }

    /// The writes of the next chunk of a batch of which the first `written`
    /// messages are in the log; `None` where that is all of them.
    pub fn next_writes(&self, msgs: &[Message], written: usize) -> (r: Option<Vec<LogWrite>>)
        requires
            self.wf(),
            written <= msgs@.len(),
            self.offset + 64 * (msgs@.len() - written) <= u64::MAX,
        ensures
            r is None <==> written == msgs@.len(),
            r matches Some(ops) ==> {
                let n = chunk_size(msgs@.len() - written, self.chunk_msgs as int);
                &&& ops@.map_values(|op: LogWrite| op@) == chunk_ops(
                    self.packing,
                    self.offset as nat,
                    msgs@.subrange(written as int, written + n),
                )
                &&& numbered(ops@)
                &&& total_bytes(ops@) == 64 * n
            },
    {
        let left: usize = msgs.len() - written;
        if left == 0 {
            return None;
        }
        let n: usize = if left < self.chunk_msgs {
            left
        } else {
            self.chunk_msgs
        };
        let chunk = vstd::slice::slice_subrange(msgs, written, written + n);
        let mut ops: Vec<LogWrite> = Vec::new();
        match self.packing {
            Packing::PerRecord => {
                let mut i: usize = 0;
                while i < n
                    invariant
                        i <= n == chunk@.len(),
                        self.offset + 64 * n <= u64::MAX,
                        ops@.len() == i,
                        total_bytes(ops@) == 64 * i,
                        forall|j: int|
                            0 <= j < i ==> {
                                &&& (#[trigger] ops@[j])@ == (WriteOp {
                                    offset: (self.offset + 64 * j) as nat,
                                    bytes: chunk@[j].record(),
                                })
                                &&& ops@[j].user_data == j
                            },
                    decreases n - i,
                {
                    let mut bytes: Vec<u8> = Vec::new();
                    push_record(&mut bytes, &chunk[i]);
                    assert(bytes@ =~= chunk@[i as int].record());
                    let ghost before = ops@;
                    proof {
                        lemma_record_length(chunk@[i as int]);
                    }
                    ops.push(
                        LogWrite {
                            offset: self.offset + i as u64 * 64,
                            bytes,
                            user_data: i as u64,
                        },
                    );
                    assert(ops@.drop_last() =~= before);
                    i += 1;
                }
            },
            Packing::PerChunk => {
                proof {
                    law_log_length(chunk@);
                }
                ops.push(
                    LogWrite { offset: self.offset, bytes: encode_batch(chunk), user_data: 0 },
                );
                assert(ops@.drop_last() =~= Seq::empty());
                assert(total_bytes(ops@.drop_last()) == 0);
            },
        }
        assert(ops@.map_values(|op: LogWrite| op@) =~= chunk_ops(
            self.packing,
            self.offset as nat,
            chunk@,
        ));
        Some(ops)
    }

    /// Takes in the completions, in any order, of the writes of a chunk. Where one
    /// failed, or is missing, or came to an end early, the chunk is not in the log:
    /// says why, and stays where it is. Else moves past the chunk and gives the
    /// number of its records.
    pub fn completed(&mut self, writes: &[LogWrite], completions: &[Completion]) -> (r: Result<
        usize,
        WriteFailure,
    >)
        requires
            old(self).wf(),
            numbered(writes@),
            old(self).offset + total_bytes(writes@) <= u64::MAX,
            total_bytes(writes@) / 64 <= usize::MAX,
            forall|j: int|
                0 <= j < completions@.len() ==> (#[trigger] completions@[j]).result > i32::MIN,
        ensures
            final(self).wf(),
            final(self).chunk_msgs == old(self).chunk_msgs,
            final(self).packing == old(self).packing,
            first_failure(completions@) matches Some(errno) ==> (r matches Err(
                WriteFailure::Os(e),
            ) && e == errno),
            first_failure(completions@) is None && !all_written(writes@, completions@) ==> r == Err::<
                usize,
                WriteFailure,
            >(WriteFailure::Short),
            first_failure(completions@) is None && all_written(writes@, completions@) ==> (
            r matches Ok(n) && n == total_bytes(writes@) / 64),
            final(self).offset == old(self).offset + if r is Ok {
                total_bytes(writes@)
            } else {
                0
            },
    {
        let mut done: Vec<bool> = Vec::new();
        let mut bytes: u64 = 0;
        let mut i: usize = 0;
        while i < writes.len()
            invariant
                i <= writes@.len(),
                done@.len() == i,
                forall|k: int| 0 <= k < i ==> !#[trigger] done@[k],
                bytes == total_bytes(writes@.take(i as int)),
                total_bytes(writes@) <= u64::MAX,
            decreases writes@.len() - i,
        {
            proof {
                lemma_total_grows(writes@, i + 1);
                assert(writes@.take(i + 1).drop_last() =~= writes@.take(i as int));
            }
            done.push(false);
            bytes = bytes + writes[i].bytes.len() as u64;
            i += 1;
        }
        assert(writes@.take(i as int) =~= writes@);
        let mut j: usize = 0;
        assert(completions@.skip(0) =~= completions@);
        while j < completions.len()
            invariant
                j <= completions@.len(),
                *self == *old(self),
                self.wf(),
                numbered(writes@),
                done@.len() == writes@.len(),
                first_failure(completions@) == first_failure(completions@.skip(j as int)),
                forall|k: int|
                    0 <= k < completions@.len() ==> (#[trigger] completions@[k]).result > i32::MIN,
                forall|k: int|
                    0 <= k < writes@.len() ==> (#[trigger] done@[k] <==> written_whole(
                        writes@[k],
                        completions@.take(j as int),
                    )),
            decreases completions@.len() - j,
        {
            let c = &completions[j];
            assert(completions@.skip(j as int).first() == *c);
            assert(completions@.skip(j as int).drop_first() =~= completions@.skip(j + 1));
            if c.result < 0 {
                return Err(WriteFailure::Os(-c.result));
            }
            let ghost before = done@;
            let ghost seen = completions@.take(j as int);
            let ghost now = completions@.take(j + 1);
            if c.user_data < writes.len() as u64 {
                let k: usize = c.user_data as usize;
                if c.result as u64 == writes[k].bytes.len() as u64 {
                    done.set(k, true);
                }
            }
            proof {
                assert(now =~= seen.push(*c));
                assert(now[j as int] == *c);
                assert forall|k: int| 0 <= k < writes@.len() implies (#[trigger] done@[k]
                    <==> written_whole(writes@[k], now)) by {
                    assert(before[k] <==> written_whole(writes@[k], seen));
                    if written_whole(writes@[k], seen) {
                        let w = choose|w: int|
                            0 <= w < seen.len() && (#[trigger] seen[w]).user_data
                                == writes@[k].user_data && seen[w].result
                                == writes@[k].bytes@.len();
                        assert(now[w] == seen[w]);
                    }
                    if written_whole(writes@[k], now) && !written_whole(writes@[k], seen) {
                        let w = choose|w: int|
                            0 <= w < now.len() && (#[trigger] now[w]).user_data
                                == writes@[k].user_data && now[w].result == writes@[k].bytes@.len();
                        if w < j {
                            assert(seen[w] == now[w]);
                        }
                    }
                }
            }
            j += 1;
        }
        assert(completions@.take(j as int) =~= completions@);
        let mut i: usize = 0;
        while i < done.len()
            invariant
                i <= done@.len() == writes@.len(),
                *self == *old(self),
                self.wf(),
                first_failure(completions@) is None,
                forall|k: int|
                    0 <= k < writes@.len() ==> (#[trigger] done@[k] <==> written_whole(
                        writes@[k],
                        completions@,
                    )),
                forall|k: int| 0 <= k < i ==> written_whole(#[trigger] writes@[k], completions@),
            decreases done@.len() - i,
        {
            if !done[i] {
                assert(!written_whole(writes@[i as int], completions@));
                return Err(WriteFailure::Short);
            }
            assert(done@[i as int]);
            i += 1;
        }
        self.offset = self.offset + bytes;
        Ok((bytes / 64) as usize)
    }
}

/// The first of some writes have no more bytes than all of them.
proof fn lemma_total_grows(writes: Seq<LogWrite>, n: int)
    requires
        0 <= n <= writes.len(),
    ensures
        total_bytes(writes.take(n)) <= total_bytes(writes),
    decreases writes.len(),
{
    if n == writes.len() {
        assert(writes.take(n) =~= writes);
    } else {
        lemma_total_grows(writes.drop_last(), n);
        assert(writes.drop_last().take(n) =~= writes.take(n));
    }
}

/// A short write never counts: where some write has no completion with all of its
/// bytes, the chunk is not taken for written.
pub proof fn law_short_write_noticed(
    writes: Seq<LogWrite>,
    completions: Seq<Completion>,
    i: int,
)
    requires
        0 <= i < writes.len(),
        forall|j: int|
            0 <= j < completions.len() && (#[trigger] completions[j]).user_data
                == writes[i].user_data ==> completions[j].result < writes[i].bytes@.len(),
    ensures
        !all_written(writes, completions),
{
    assert(!written_whole(writes[i], completions));
}

/// A log takes 64 bytes for each of its messages.
pub proof fn law_log_length(msgs: Seq<Message>)
    ensures
        log_bytes(msgs).len() == 64 * msgs.len(),
    decreases msgs.len(),
{
    if msgs.len() > 0 {
        law_log_length(msgs.drop_last());
        lemma_record_length(msgs.last());
    }
}

/// Every record has 64 bytes.
proof fn lemma_record_length(m: Message)
    ensures
        m.record().len() == 64,
{
    vstd::bytes::lemma_auto_spec_u64_to_from_le_bytes();
}

/// Appending one batch after another makes the log of all their messages.
pub proof fn law_log_append(a: Seq<Message>, b: Seq<Message>)
    ensures
        log_bytes(a + b) == log_bytes(a) + log_bytes(b),
    decreases b.len(),
{
    if b.len() == 0 {
        assert(a + b =~= a);
        assert(log_bytes(a) + log_bytes(b) =~= log_bytes(a));
    } else {
        law_log_append(a, b.drop_last());
        assert((a + b).drop_last() =~= a + b.drop_last());
        assert((a + b).last() == b.last());
        assert(log_bytes(a) + (log_bytes(b.drop_last()) + b.last().record()) =~= (log_bytes(a)
            + log_bytes(b.drop_last())) + b.last().record());
    }
}

/// Random access by index: the record of message `i` is the 64 bytes at `i * 64`.
pub proof fn law_record_index(msgs: Seq<Message>, i: int)
    requires
        0 <= i < msgs.len(),
    ensures
        log_bytes(msgs).len() >= 64 * i + 64,
        log_bytes(msgs).subrange(64 * i, 64 * i + 64) == msgs[i].record(),
    decreases msgs.len(),
{
    law_log_length(msgs);
    law_log_length(msgs.drop_last());
    lemma_record_length(msgs.last());
    let log = log_bytes(msgs);
    if i == msgs.len() - 1 {
        assert(log.subrange(64 * i, 64 * i + 64) =~= msgs.last().record());
    } else {
        law_record_index(msgs.drop_last(), i);
        assert(log.subrange(64 * i, 64 * i + 64) =~= log_bytes(msgs.drop_last()).subrange(
            64 * i,
            64 * i + 64,
        ));
    }
}

/// What is read back from the log is what was written: a message whose record
/// stands at `i * 64` is message `i`.
pub proof fn law_read_back(msgs: Seq<Message>, i: int, back: Message)
    requires
        0 <= i < msgs.len(),
        back.record() == log_bytes(msgs).subrange(64 * i, 64 * i + 64),
    ensures
        back == msgs[i],
{
    law_record_index(msgs, i);
    law_record_round_trip(msgs[i], back);
}

/// Writes one after another, each where the one before it ends, append their
/// bytes.
proof fn lemma_records_append(file: Seq<u8>, chunk: Seq<Message>, ops: Seq<WriteOp>)
    requires
        ops == chunk_ops(Packing::PerRecord, file.len(), chunk),
    ensures
        file_after_all(file, ops) == file + log_bytes(chunk),
    decreases chunk.len(),
{
    if chunk.len() == 0 {
        assert(file + log_bytes(chunk) =~= file);
    } else {
        let before = ops.drop_last();
        assert(before =~= chunk_ops(Packing::PerRecord, file.len(), chunk.drop_last()));
        lemma_records_append(file, chunk.drop_last(), before);
        law_log_length(chunk.drop_last());
        assert(file_after(file + log_bytes(chunk.drop_last()), ops.last()) =~= file + log_bytes(
            chunk,
        ));
    }
}

/// The writes of a chunk at the end of a file append the chunk's log to it.
pub proof fn law_chunk_appends(file: Seq<u8>, packing: Packing, chunk: Seq<Message>)
    ensures
        file_after_all(file, chunk_ops(packing, file.len(), chunk)) == file + log_bytes(chunk),
{
    let ops = chunk_ops(packing, file.len(), chunk);
    match packing {
        Packing::PerRecord => {
            lemma_records_append(file, chunk, ops);
        },
        Packing::PerChunk => {
            assert(ops.drop_last() =~= Seq::<WriteOp>::empty());
            assert(file_after_all(file, ops.drop_last()) == file);
            assert(file_after(file, ops.last()) =~= file + log_bytes(chunk));
        },
    }
}

/// A batch in progress: where the first `written` messages are in the log, the
/// writes of a chunk of `n` more at the log's end leave it with `written + n`.
pub proof fn law_chunk_extends_batch(
    file: Seq<u8>,
    packing: Packing,
    msgs: Seq<Message>,
    written: int,
    n: int,
)
    requires
        0 <= written,
        0 <= n,
        written + n <= msgs.len(),
    ensures
        ({
            let now = file + log_bytes(msgs.take(written));
            &&& now.len() == file.len() + 64 * written
            &&& file_after_all(
                now,
                chunk_ops(packing, now.len(), msgs.subrange(written, written + n)),
            ) == file + log_bytes(msgs.take(written + n))
        }),
{
    let now = file + log_bytes(msgs.take(written));
    let chunk = msgs.subrange(written, written + n);
    law_log_length(msgs.take(written));
    law_chunk_appends(now, packing, chunk);
    law_log_append(msgs.take(written), chunk);
    assert(msgs.take(written) + chunk =~= msgs.take(written + n));
    assert(now + log_bytes(chunk) =~= file + (log_bytes(msgs.take(written)) + log_bytes(chunk)));
}

/// A batch of any size, chunk by chunk from the end of the file on, appends the
/// batch's log to it, however its chunks are packed.
#[verifier::spinoff_prover]
pub proof fn law_batch_appends(
    file: Seq<u8>,
    packing: Packing,
    msgs: Seq<Message>,
    chunk_msgs: nat,
)
    requires
        chunk_msgs > 0,
    ensures
        file_after_batch(file, packing, file.len(), msgs, chunk_msgs) == file + log_bytes(msgs),
    decreases msgs.len(),
{
    if msgs.len() == 0 {
        assert(file + log_bytes(msgs) =~= file);
    } else {
        let n = chunk_size(msgs.len() as int, chunk_msgs as int);
        let next = file + log_bytes(msgs.take(n));
        law_chunk_appends(file, packing, msgs.take(n));
        law_log_length(msgs.take(n));
        law_batch_appends(next, packing, msgs.skip(n), chunk_msgs);
        lemma_log_in_two(file, msgs, n);
    }
}

/// Appending the first `n` messages and then the others appends all of them.
proof fn lemma_log_in_two(file: Seq<u8>, msgs: Seq<Message>, n: int)
    requires
        0 <= n <= msgs.len(),
    ensures
        file + log_bytes(msgs.take(n)) + log_bytes(msgs.skip(n)) == file + log_bytes(msgs),
{
    let a = log_bytes(msgs.take(n));
    let b = log_bytes(msgs.skip(n));
    assert(a + b == log_bytes(msgs)) by {
        law_log_append(msgs.take(n), msgs.skip(n));
        assert(msgs.take(n) + msgs.skip(n) =~= msgs);
    }
    assert(file + a + b =~= file + (a + b));
}

/// That `order` names each of `n` writes exactly once.
pub open spec fn is_order(order: Seq<int>, n: nat) -> bool {
    &&& order.len() == n
    &&& forall|i: int| 0 <= i < n ==> 0 <= #[trigger] order[i] < n
    &&& forall|i: int, j: int| 0 <= i < j < n ==> #[trigger] order[i] != #[trigger] order[j]
    &&& forall|k: int| 0 <= k < n ==> #[trigger] order.contains(k)
}

/// That no two of `ops` cover the same position.
pub open spec fn disjoint(ops: Seq<WriteOp>) -> bool {
    forall|i: int, j: int, p: int|
        0 <= i < j < ops.len() && #[trigger] ops[i].covers(p) ==> !#[trigger] ops[j].covers(p)
}

/// What stands where after writes that do not overlap.
proof fn lemma_disjoint_writes(file: Seq<u8>, ops: Seq<WriteOp>)
    requires
        disjoint(ops),
    ensures
        ({
            let after = file_after_all(file, ops);
            &&& after.len() >= file.len()
            &&& forall|i: int, p: int|
                0 <= i < ops.len() && #[trigger] ops[i].covers(p) ==> p < after.len() && after[p]
                    == ops[i].bytes[p - ops[i].offset]
            &&& forall|i: int|
                0 <= i < ops.len() ==> (#[trigger] ops[i]).offset + ops[i].bytes.len()
                    <= after.len()
            &&& after.len() > file.len() ==> exists|i: int|
                0 <= i < ops.len() && (#[trigger] ops[i]).offset + ops[i].bytes.len()
                    == after.len()
            &&& forall|p: int|
                0 <= p < after.len() && (forall|i: int|
                    0 <= i < ops.len() ==> !#[trigger] ops[i].covers(p)) ==> #[trigger] after[p]
                    == (if p < file.len() {
                    file[p]
                } else {
                    0
                })
        }),
    decreases ops.len(),
{
    if ops.len() > 0 {
        let rest = ops.drop_last();
        assert(disjoint(rest)) by {
            assert forall|i: int, j: int, p: int|
                0 <= i < j < rest.len() && #[trigger] rest[i].covers(p) implies !#[trigger] rest[j].covers(
            p) by {
                assert(ops[i].covers(p));
                assert(!ops[j].covers(p));
            }
        }
        lemma_disjoint_writes(file, rest);
        let mid = file_after_all(file, rest);
        let after = file_after_all(file, ops);
        assert(after == file_after(mid, ops.last()));
        assert forall|i: int, p: int|
            0 <= i < ops.len() && #[trigger] ops[i].covers(p) implies p < after.len() && after[p]
            == ops[i].bytes[p - ops[i].offset] by {
            if i < rest.len() {
                assert(rest[i].covers(p));
                assert(!ops[ops.len() - 1].covers(p));
            }
        }
        assert forall|i: int| 0 <= i < ops.len() implies (#[trigger] ops[i]).offset
            + ops[i].bytes.len() <= after.len() by {
            if i < rest.len() {
                assert(rest[i] == ops[i]);
            }
        }
        if after.len() > file.len() {
            if after.len() == mid.len() {
                let i = choose|i: int|
                    0 <= i < rest.len() && (#[trigger] rest[i]).offset + rest[i].bytes.len()
                        == mid.len();
                assert(ops[i] == rest[i]);
            } else {
                assert(ops[ops.len() - 1].offset + ops[ops.len() - 1].bytes.len() == after.len());
            }
        }
        assert forall|p: int|
            0 <= p < after.len() && (forall|i: int|
                0 <= i < ops.len() ==> !#[trigger] ops[i].covers(p)) implies #[trigger] after[p]
            == (if p < file.len() {
            file[p]
        } else {
            0
        }) by {
            assert(!ops[ops.len() - 1].covers(p));
            if p < mid.len() {
                assert forall|i: int| 0 <= i < rest.len() implies !#[trigger] rest[i].covers(
                    p,
                ) by {
                    assert(!ops[i].covers(p));
                }
                assert(mid[p] == (if p < file.len() {
                    file[p]
                } else {
                    0
                }));
            }
        }
    }
}

/// The writes of one chunk may complete in any order: they do not overlap, and
/// the file is the same in the end.
pub proof fn law_any_completion_order(
    file: Seq<u8>,
    packing: Packing,
    offset: nat,
    chunk: Seq<Message>,
    order: Seq<int>,
)
    requires
        is_order(order, chunk_ops(packing, offset, chunk).len()),
    ensures
        ({
            let ops = chunk_ops(packing, offset, chunk);
            file_after_all(file, order.map_values(|k: int| ops[k])) == file_after_all(file, ops)
        }),
{
    let ops = chunk_ops(packing, offset, chunk);
    let other = order.map_values(|k: int| ops[k]);
    assert forall|i: int| 0 <= i < chunk.len() implies (#[trigger] chunk[i]).record().len()
        == 64 by {
        lemma_record_length(chunk[i]);
    }
    assert(disjoint(ops));
    assert(disjoint(other)) by {
        assert forall|i: int, j: int, p: int|
            0 <= i < j < other.len() && #[trigger] other[i].covers(p) implies !#[trigger] other[j].covers(
        p) by {
            assert(order[i] != order[j]);
            assert(other[i] == ops[order[i]]);
            assert(other[j] == ops[order[j]]);
        }
    }
    lemma_disjoint_writes(file, ops);
    lemma_disjoint_writes(file, other);
    let a = file_after_all(file, ops);
    let b = file_after_all(file, other);
    assert(a.len() == b.len()) by {
        if a.len() > file.len() {
            let k = choose|k: int|
                0 <= k < ops.len() && (#[trigger] ops[k]).offset + ops[k].bytes.len() == a.len();
            assert(order.contains(k));
            let i = choose|i: int| 0 <= i < order.len() && order[i] == k;
            assert(other[i] == ops[k]);
        }
        if b.len() > file.len() {
            let i = choose|i: int|
                0 <= i < other.len() && (#[trigger] other[i]).offset + other[i].bytes.len()
                    == b.len();
            assert(other[i] == ops[order[i]]);
        }
    }
    assert forall|p: int| 0 <= p < a.len() implies a[p] == b[p] by {
        if exists|k: int| 0 <= k < ops.len() && #[trigger] ops[k].covers(p) {
            let k = choose|k: int| 0 <= k < ops.len() && #[trigger] ops[k].covers(p);
            assert(order.contains(k));
            let i = choose|i: int| 0 <= i < order.len() && order[i] == k;
            assert(other[i] == ops[k]);
            assert(other[i].covers(p));
        } else {
            assert forall|i: int| 0 <= i < other.len() implies !#[trigger] other[i].covers(p) by {
                assert(other[i] == ops[order[i]]);
            }
        }
    }
    assert(a =~= b);
}

} // verus!
