//! A timed run of batches through a log writer: what is written, and when data
//! is forced to disk.

use crate::message::{fixed_field, Message, PAYLOAD_BYTES, TOPIC_BYTES};
use vstd::arithmetic::div_mod::{lemma_basic_div, lemma_div_plus_one};
use vstd::bytes::{spec_u64_to_le_bytes, u64_to_le_bytes};
use vstd::prelude::*;
use vstd::utf8::encode_utf8;

verus! {

/// When written data is forced to disk.
#[derive(Debug, Clone, Copy, PartialEq, Eq, Structural)]
pub enum Durability {
    /// Once, at the end.
    SyncEnd,
    /// After every batch.
    SyncPerBatch,
}

impl Durability {
    /// The mode's name in reports.
    pub fn label(self) -> (s: &'static str)
        ensures
            s@ == (match self {
                Durability::SyncEnd => "sync-end"@,
                Durability::SyncPerBatch => "sync-per-batch"@,
            }),
    {
        match self {
            Durability::SyncEnd => "sync-end",
            Durability::SyncPerBatch => "sync-per-batch",
        }
    }
}

/// The batch sizes to measure.
pub fn batch_sizes() -> (sizes: Vec<usize>)
    ensures
        sizes@ == seq![1usize, 8, 64, 512, 4096],
{
    let sizes: Vec<usize> = vec![1, 8, 64, 512, 4096];
    assert(sizes@ =~= seq![1usize, 8, 64, 512, 4096]);
    sizes
}

/// That `m` is the message with index `i` of a batch.
pub open spec fn is_batch_message(m: Message, i: int) -> bool {
    &&& m.timestamp_ns == 0
    &&& m.topic@ == fixed_field(encode_utf8("persist.bench"@), TOPIC_BYTES as nat)
    &&& m.payload@ == fixed_field(spec_u64_to_le_bytes(i as u64), PAYLOAD_BYTES as nat)
}

/// The batch that is written again and again: its messages carry their index.
pub fn bench_batch(batch_size: usize) -> (msgs: Vec<Message>)
    ensures
        msgs@.len() == batch_size,
        forall|i: int| 0 <= i < batch_size ==> is_batch_message(#[trigger] msgs@[i], i),
{
    let mut msgs: Vec<Message> = Vec::new();
    let mut i: usize = 0;
    while i < batch_size
        invariant
            i <= batch_size,
            msgs@.len() == i,
            forall|j: int| 0 <= j < i ==> is_batch_message(#[trigger] msgs@[j], j),
        decreases batch_size - i,
    {
        msgs.push(Message::new("persist.bench", u64_to_le_bytes(i as u64).as_slice()));
        i += 1;
    }
    msgs
}

/// What a run does next.
#[derive(Debug, Clone, Copy, PartialEq, Eq, Structural)]
pub enum WriteStep {
    /// Write the batch; report how many messages went through.
    WriteBatch,
    /// Force what was written to disk.
    Sync,
    /// Nothing: the run is over.
    Done,
}

/// Where a run stands.
#[derive(Debug, Clone, Copy, PartialEq, Eq, Structural)]
pub enum Phase {
    /// Between two batches.
    Batches,
    /// A batch was written and is not on disk yet.
    BatchWritten,
    /// Everything is on disk.
    Finished,
}

/// A run of batches until at least `msg_count` messages are written.
pub struct WriteRun {
    pub msg_count: usize,
    pub durability: Durability,
    pub total: usize,
    pub phase: Phase,
}

impl WriteRun {
    /// What the run does next.
    pub open spec fn next_step(self) -> WriteStep {
        match self.phase {
            Phase::Batches => if self.total < self.msg_count {
                WriteStep::WriteBatch
            } else {
                WriteStep::Sync
            },
            Phase::BatchWritten => WriteStep::Sync,
            Phase::Finished => WriteStep::Done,
        }
    }

    /// How many messages are still to be written.
    pub open spec fn missing(self) -> int {
        if self.total < self.msg_count {
            self.msg_count - self.total
        } else {
            0
        }
    }

    /// The run after a batch of which `n` messages went through.
    pub open spec fn after_batch(self, n: int) -> WriteRun {
        WriteRun {
            total: (self.total + n) as usize,
            phase: match self.durability {
                Durability::SyncEnd => Phase::Batches,
                Durability::SyncPerBatch => Phase::BatchWritten,
            },
            ..self
        }
    }

    /// The run after its data was forced to disk.
    pub open spec fn after_sync(self) -> WriteRun {
        WriteRun {
            phase: match self.phase {
                Phase::BatchWritten => Phase::Batches,
                _ => Phase::Finished,
            },
            ..self
        }
    }

    /// A run that has written nothing.
    pub fn new(msg_count: usize, durability: Durability) -> (run: Self)
        ensures
            run == (WriteRun { msg_count, durability, total: 0, phase: Phase::Batches }),
    {
        WriteRun { msg_count, durability, total: 0, phase: Phase::Batches }
    }

    /// What to do next.
    pub fn next(&self) -> (step: WriteStep)
        ensures
            step == self.next_step(),
    {
        match self.phase {
            Phase::Batches => if self.total < self.msg_count {
                WriteStep::WriteBatch
            } else {
                WriteStep::Sync
            },
            Phase::BatchWritten => WriteStep::Sync,
            Phase::Finished => WriteStep::Done,
        }
    }

    /// Takes in that the batch was written, `n` messages of it.
    pub fn wrote(&mut self, n: usize)
        requires
            old(self).next_step() is WriteBatch,
            old(self).total + n <= usize::MAX,
        ensures
            *final(self) == old(self).after_batch(n as int),
    {
        self.total = self.total + n;
        self.phase = match self.durability {
            Durability::SyncEnd => Phase::Batches,
            Durability::SyncPerBatch => Phase::BatchWritten,
        };
    }

    /// Takes in that everything written is on disk.
    pub fn synced(&mut self)
        requires
            old(self).next_step() is Sync,
        ensures
            *final(self) == old(self).after_sync(),
    {
        self.phase = match self.phase {
            Phase::BatchWritten => Phase::Batches,
            _ => Phase::Finished,
        };
    }

    /// What the run has still to do where every batch has `n` messages and all
    /// of them go through.
    pub open spec fn remaining(self, n: nat) -> Seq<WriteStep>
        decreases
                self.missing(),
                match self.phase {
                    Phase::Finished => 0int,
                    Phase::Batches => 1,
                    Phase::BatchWritten => 2,
                },
    {
        match self.next_step() {
            WriteStep::WriteBatch => if n > 0 && self.total + n <= usize::MAX {
                seq![WriteStep::WriteBatch] + self.after_batch(n as int).remaining(n)
            } else {
                seq![WriteStep::WriteBatch]
            },
            WriteStep::Sync => seq![WriteStep::Sync] + self.after_sync().remaining(n),
            WriteStep::Done => Seq::empty(),
        }
    }
}

/// How often `step` occurs among `steps`.
pub open spec fn occurrences(steps: Seq<WriteStep>, step: WriteStep) -> nat
    decreases steps.len(),
{
    if steps.len() == 0 {
        0
    } else {
        occurrences(steps.drop_first(), step) + if steps.first() == step {
            1nat
        } else {
            0
        }
    }
}

/// Batches of `n` messages that it takes to write `count` messages.
pub open spec fn batches_for(count: int, n: int) -> int {
    if count == 0 {
        0
    } else {
        (count - 1) / n + 1
    }
}

/// The steps that are left of a run.
proof fn lemma_remaining(run: WriteRun, n: nat)
    requires
        n > 0,
        run.msg_count + n <= usize::MAX,
        run.phase is BatchWritten ==> run.durability is SyncPerBatch,
    ensures
        ({
            let left = run.remaining(n);
            let batches = batches_for(run.missing(), n as int);
            &&& occurrences(left, WriteStep::WriteBatch) == if run.phase is Finished {
                0
            } else {
                batches
            }
            &&& occurrences(left, WriteStep::Sync) == (if run.phase is Finished {
                0
            } else {
                1 + (if run.durability is SyncPerBatch {
                    batches
                } else {
                    0
                }) + if run.phase is BatchWritten {
                    1int
                } else {
                    0
                }
            })
            &&& !(run.phase is Finished) ==> left.len() > 0 && left.last() is Sync
        }),
    decreases
            run.missing(),
            match run.phase {
                Phase::Finished => 0int,
                Phase::Batches => 1,
                Phase::BatchWritten => 2,
            },
{
    let left = run.remaining(n);
    match run.next_step() {
        WriteStep::WriteBatch => {
            let next = run.after_batch(n as int);
            lemma_remaining(next, n);
            assert(left.drop_first() =~= next.remaining(n));
            let count = run.missing();
            if count <= n {
                lemma_basic_div(count - 1, n as int);
            } else {
                lemma_div_plus_one(count - 1 - n, n as int);
            }
        },
        WriteStep::Sync => {
            let next = run.after_sync();
            lemma_remaining(next, n);
            assert(left.drop_first() =~= next.remaining(n));
        },
        WriteStep::Done => {},
    }
}

/// The durability contract: a run writes just enough batches, every one of them
/// is forced to disk on its own where that was asked for, and in both modes the
/// last thing that happens is that everything is forced to disk.
pub proof fn law_durability(msg_count: usize, durability: Durability, n: nat)
    requires
        n > 0,
        msg_count + n <= usize::MAX,
    ensures
        ({
            let run = WriteRun { msg_count, durability, total: 0, phase: Phase::Batches };
            let steps = run.remaining(n);
            let batches = batches_for(msg_count as int, n as int);
            &&& occurrences(steps, WriteStep::WriteBatch) == batches
            &&& occurrences(steps, WriteStep::Sync) == (match durability {
                Durability::SyncEnd => 1,
                Durability::SyncPerBatch => batches + 1,
            })
            &&& steps.len() > 0 && steps.last() is Sync
        }),
{
    lemma_remaining(WriteRun { msg_count, durability, total: 0, phase: Phase::Batches }, n);
}

/// With a sync per batch, no batch is written before the one before it is on
/// disk.
pub proof fn law_batch_synced_before_next(run: WriteRun, n: int)
    requires
        run.next_step() is WriteBatch,
        run.durability is SyncPerBatch,
    ensures
        run.after_batch(n).next_step() is Sync,
{
}

/// What a benchmark report says of the platform.
pub fn platform_note(linux: bool) -> (s: &'static str)
    ensures
        s@ == (if linux {
            "linux — io_uring available"@
        } else {
            "non-linux — io_uring not available; std baseline only"@
        }),
{
    if linux {
        "linux — io_uring available"
    } else {
        "non-linux — io_uring not available; std baseline only"
    }
}

} // verus!
