//! The comparison of log writers: which there are, how each is set up, and when
//! the claim about registered buffers holds.

use crate::text::same_text;
use crate::write_run::Durability;
use vstd::prelude::*;

verus! {

/// Messages that the registered buffer holds.
pub const MAX_BATCH: usize = 4096;

/// Most writes that are in flight at a time.
pub const MAX_RING_DEPTH: usize = 512;

/// Smallest batch at which the claim is made.
pub const CLAIM_BATCH: usize = 64;

/// What a report says of the platform.
pub fn platform_note(linux: bool) -> (s: &'static str)
    ensures
        s@ == (if linux {
            "linux — io_uring available"@
        } else {
            "non-linux — std baseline only"@
        }),
{
    if linux {
        "linux — io_uring available"
    } else {
        "non-linux — std baseline only"
    }
}

/// The names of the writers that the platform has, the baseline first.
pub open spec fn kinds_of(linux: bool) -> Seq<Seq<char>> {
    if linux {
        seq!["std-BufWriter"@, "io_uring-Write"@, "io_uring-WriteFixed"@]
    } else {
        seq!["std-BufWriter"@]
    }
}

/// The writers that the platform has, the baseline first.
pub fn writer_kinds(linux: bool) -> (kinds: Vec<&'static str>)
    ensures
        kinds@.map_values(|kind: &'static str| kind@) == kinds_of(linux),
        kinds@.len() == kinds_of(linux).len(),
        forall|i: int| 0 <= i < kinds@.len() ==> (#[trigger] kinds@[i])@ == kinds_of(linux)[i],
{
    let kinds: Vec<&'static str> = if linux {
        vec!["std-BufWriter", "io_uring-Write", "io_uring-WriteFixed"]
    } else {
        vec!["std-BufWriter"]
    };
    assert(kinds@.map_values(|kind: &'static str| kind@) =~= kinds_of(linux));
    kinds
}

/// A writer to be set up.
#[derive(Debug, Clone, Copy, PartialEq, Eq, Structural)]
pub enum WriterPlan {
    /// Buffered writes to a plain file.
    Std,
    /// One write for each record, up to `ring_depth` of them in flight.
    Uring { ring_depth: u32 },
    /// Writes from a registered buffer of `cap_msgs` records.
    UringFixed { cap_msgs: usize },
}

impl WriterPlan {
    /// The name of the writer's kind.
    pub open spec fn kind(self) -> Seq<char> {
        match self {
            WriterPlan::Std => "std-BufWriter"@,
            WriterPlan::Uring { .. } => "io_uring-Write"@,
            WriterPlan::UringFixed { .. } => "io_uring-WriteFixed"@,
        }
    }

    /// The name of the writer's kind.
    pub fn name(self) -> (s: &'static str)
        ensures
            s@ == self.kind(),
    {
        match self {
            WriterPlan::Std => "std-BufWriter",
            WriterPlan::Uring { .. } => "io_uring-Write",
            WriterPlan::UringFixed { .. } => "io_uring-WriteFixed",
        }
    }
}

/// What is done to the log file for a fresh writer.
#[derive(Debug, Clone, Copy, PartialEq, Eq, Structural)]
pub enum SetupStep {
    /// Remove the file, if it is there.
    Remove,
    /// Make an empty file, or make the one that is there empty.
    Create,
    /// Open the file to append to it, making it where it is not there.
    Open(WriterPlan),
}

/// The log file after a step; `None` is no file.
pub open spec fn log_after(log: Option<Seq<u8>>, step: SetupStep) -> Option<Seq<u8>> {
    match step {
        SetupStep::Remove => None,
        SetupStep::Create => Some(Seq::empty()),
        SetupStep::Open(_) => match log {
            Some(bytes) => Some(bytes),
            None => Some(Seq::empty()),
        },
    }
}

/// The log file after all of `steps`.
pub open spec fn log_after_all(log: Option<Seq<u8>>, steps: Seq<SetupStep>) -> Option<Seq<u8>>
    decreases steps.len(),
{
    if steps.len() == 0 {
        log
    } else {
        log_after(log_after_all(log, steps.drop_last()), steps.last())
    }
}

/// The steps for a fresh writer with `plan`, or for none.
pub open spec fn steps_for(plan: Option<WriterPlan>) -> Seq<SetupStep> {
    match plan {
        None => seq![SetupStep::Remove],
        Some(WriterPlan::Std) => seq![SetupStep::Remove, SetupStep::Open(WriterPlan::Std)],
        Some(plan) => seq![SetupStep::Remove, SetupStep::Create, SetupStep::Open(plan)],
    }
}

/// How many writes of a batch are in flight at a time.
pub open spec fn ring_depth_of(batch_size: usize) -> int {
    if batch_size > MAX_RING_DEPTH {
        MAX_RING_DEPTH as int
    } else if batch_size < 1 {
        1
    } else {
        batch_size as int
    }
}

/// The ring depth for a batch size.
pub fn ring_depth(batch_size: usize) -> (depth: u32)
    ensures
        depth == ring_depth_of(batch_size),
{
    if batch_size > MAX_RING_DEPTH {
        MAX_RING_DEPTH as u32
    } else if batch_size < 1 {
        1
    } else {
        batch_size as u32
    }
}

/// How a writer of `kind` is set up on a platform.
pub open spec fn plan_of(kind: Seq<char>, batch_size: usize, linux: bool) -> Option<WriterPlan> {
    if kind == "std-BufWriter"@ {
        Some(WriterPlan::Std)
    } else if linux && kind == "io_uring-Write"@ {
        Some(WriterPlan::Uring { ring_depth: ring_depth_of(batch_size) as u32 })
    } else if linux && kind == "io_uring-WriteFixed"@ {
        Some(WriterPlan::UringFixed { cap_msgs: MAX_BATCH })
    } else {
        None
    }
}

/// How to set up a fresh writer of `kind`. `None` for kinds that the platform
/// does not have.
pub fn plan_writer(kind: &str, batch_size: usize, linux: bool) -> (r: Option<WriterPlan>)
    ensures
        r == plan_of(kind@, batch_size, linux),
{
    if same_text(kind, "std-BufWriter") {
        Some(WriterPlan::Std)
    } else if linux && same_text(kind, "io_uring-Write") {
        Some(WriterPlan::Uring { ring_depth: ring_depth(batch_size) })
    } else if linux && same_text(kind, "io_uring-WriteFixed") {
        Some(WriterPlan::UringFixed { cap_msgs: MAX_BATCH })
    } else {
        None
    }
}

/// The steps to a fresh writer of `kind`, to be taken in order. For a kind that the
/// platform does not have they end without a writer, and an old log is removed all
/// the same.
pub fn setup_steps(kind: &str, batch_size: usize, linux: bool) -> (steps: Vec<SetupStep>)
    ensures
        steps@ == steps_for(plan_of(kind@, batch_size, linux)),
{
    let mut steps: Vec<SetupStep> = vec![SetupStep::Remove];
    if let Some(plan) = plan_writer(kind, batch_size, linux) {
        match plan {
            WriterPlan::Std => {},
            _ => {
                steps.push(SetupStep::Create);
            },
        }
        steps.push(SetupStep::Open(plan));
    }
    assert(steps@ =~= steps_for(plan_of(kind@, batch_size, linux)));
    steps
}

/// A fresh writer starts on an empty log, whatever an earlier trial left, and is of
/// the kind that was asked for; for a kind that the platform does not have there is
/// no writer, and no log either.
pub proof fn law_fresh_writer_has_empty_log(
    log: Option<Seq<u8>>,
    kind: Seq<char>,
    batch_size: usize,
    linux: bool,
)
    ensures
        ({
            let plan = plan_of(kind, batch_size, linux);
            let steps = steps_for(plan);
            &&& plan is Some <==> kinds_of(linux).contains(kind)
            &&& plan matches Some(p) ==> {
                &&& p.kind() == kind
                &&& steps.last() == SetupStep::Open(p)
                &&& log_after_all(log, steps) == Some(Seq::<u8>::empty())
            }
            &&& plan is None ==> {
                &&& forall|i: int| 0 <= i < steps.len() ==> !(#[trigger] steps[i] is Open)
                &&& log_after_all(log, steps) is None
            }
        }),
{
    law_kinds_available(kind, batch_size, linux);
    let steps = steps_for(plan_of(kind, batch_size, linux));
    let one = seq![SetupStep::Remove];
    let two = seq![SetupStep::Remove, SetupStep::Create];
    reveal_with_fuel(log_after_all, 4);
    assert(one.drop_last() =~= Seq::<SetupStep>::empty());
    assert(two.drop_last() =~= one);
    if steps.len() == 2 {
        assert(steps.drop_last() =~= one);
    } else if steps.len() == 3 {
        assert(steps.drop_last() =~= two);
    }
}

/// The writers that can be set up are those that the platform has.
pub proof fn law_kinds_available(kind: Seq<char>, batch_size: usize, linux: bool)
    ensures
        kinds_of(linux).contains(kind) <==> plan_of(kind, batch_size, linux) is Some,
{
    let kinds = kinds_of(linux);
    assert(kinds[0] == "std-BufWriter"@);
    if linux {
        assert(kinds[1] == "io_uring-Write"@);
        assert(kinds[2] == "io_uring-WriteFixed"@);
    }
}

/// Whether a cell meets the claim, given whether its throughput reaches one and a
/// half times the baseline's. Only the writer with the registered buffer is
/// judged.
pub fn cell_passes(kind: &str, batch_size: usize, ratio_reached: bool) -> (r: Option<bool>)
    ensures
        r == (if kind@ == "io_uring-WriteFixed"@ {
            Some(ratio_reached && batch_size >= CLAIM_BATCH)
        } else {
            None
        }),
{
    if same_text(kind, "io_uring-WriteFixed") {
        Some(ratio_reached && batch_size >= CLAIM_BATCH)
    } else {
        None
    }
}

/// The judgement on one cell.
#[derive(Debug, Clone, Copy, PartialEq, Eq, Structural)]
pub struct CellVerdict {
    pub durability: Durability,
    pub passes: Option<bool>,
}

/// What the cells say of the claim.
#[derive(Debug, Clone, Copy, PartialEq, Eq, Structural)]
pub enum ClaimVerdict {
    /// It holds with a sync per batch.
    Proven,
    /// It holds for buffered writes only, not for durable commits.
    BufferedOnly,
    /// It holds nowhere.
    Falsified,
}

/// That a cell of this mode meets the claim.
pub open spec fn passes_under(cells: Seq<CellVerdict>, durability: Durability) -> bool {
    exists|i: int|
        0 <= i < cells.len() && (#[trigger] cells[i]).durability == durability && cells[i].passes
            == Some(true)
}

/// Judges the claim. Durable commits lead: it is proven by a cell with a sync per
/// batch alone.
pub fn claim_verdict(cells: &[CellVerdict]) -> (v: ClaimVerdict)
    ensures
        v == (if passes_under(cells@, Durability::SyncPerBatch) {
            ClaimVerdict::Proven
        } else if passes_under(cells@, Durability::SyncEnd) {
            ClaimVerdict::BufferedOnly
        } else {
            ClaimVerdict::Falsified
        }),
{
    let mut buffered = false;
    let mut i: usize = 0;
    while i < cells.len()
        invariant
            i <= cells@.len(),
            forall|j: int|
                0 <= j < i ==> !((#[trigger] cells@[j]).durability == Durability::SyncPerBatch
                    && cells@[j].passes == Some(true)),
            buffered <==> exists|j: int|
                0 <= j < i && (#[trigger] cells@[j]).durability == Durability::SyncEnd
                    && cells@[j].passes == Some(true),
        decreases cells@.len() - i,
    {
        let cell = &cells[i];
        if let Some(true) = cell.passes {
            match cell.durability {
                Durability::SyncPerBatch => {
                    assert(cells@[i as int].durability == Durability::SyncPerBatch);
                    return ClaimVerdict::Proven;
                },
                Durability::SyncEnd => {
                    buffered = true;
                    assert(cells@[i as int].durability == Durability::SyncEnd);
                },
            }
        }
        i += 1;
    }
    if buffered {
        ClaimVerdict::BufferedOnly
    } else {
        ClaimVerdict::Falsified
    }
}

} // verus!
