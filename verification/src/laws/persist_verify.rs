//! Laws of the comparison of log writers.

use crate::persist_verify::{
    cell_passes, claim_verdict, plan_writer, platform_note, ring_depth, setup_steps, writer_kinds,
    CellVerdict, ClaimVerdict, SetupStep, WriterPlan, CLAIM_BATCH, MAX_BATCH, MAX_RING_DEPTH,
};
use crate::write_run::Durability;
use vstd::prelude::*;

verus! {

/// The sizes that the comparison goes by.
pub proof fn law_sizes()
    ensures
        MAX_BATCH == 4096,
        MAX_RING_DEPTH == 512,
        CLAIM_BATCH == 64,
{
}

/// The platform notes.
pub proof fn law_platform_note(on_linux: &'static str, elsewhere: &'static str)
    requires
        call_ensures(platform_note, (true,), on_linux),
        call_ensures(platform_note, (false,), elsewhere),
    ensures
        on_linux@ == "linux — io_uring available"@,
        elsewhere@ == "non-linux — std baseline only"@,
{
}

/// Linux has three writers, other platforms the baseline alone, which comes first.
pub proof fn law_writer_kinds(
    on_linux: Vec<&'static str>,
    elsewhere: Vec<&'static str>,
)
    requires
        call_ensures(writer_kinds, (true,), on_linux),
        call_ensures(writer_kinds, (false,), elsewhere),
    ensures
        on_linux@.len() == 3,
        on_linux@[0]@ == "std-BufWriter"@,
        on_linux@[1]@ == "io_uring-Write"@,
        on_linux@[2]@ == "io_uring-WriteFixed"@,
        elsewhere@.len() == 1,
        elsewhere@[0]@ == "std-BufWriter"@,
{
}

/// The names of the writers.
pub proof fn law_names(
    depth: u32,
    cap: usize,
    std: &'static str,
    uring: &'static str,
    fixed: &'static str,
)
    requires
        call_ensures(WriterPlan::name, (WriterPlan::Std,), std),
        call_ensures(WriterPlan::name, (WriterPlan::Uring { ring_depth: depth },), uring),
        call_ensures(WriterPlan::name, (WriterPlan::UringFixed { cap_msgs: cap },), fixed),
    ensures
        std@ == "std-BufWriter"@,
        uring@ == "io_uring-Write"@,
        fixed@ == "io_uring-WriteFixed"@,
{
}

/// As many writes are in flight as the batch has messages, but never more than 512
/// and never none.
pub proof fn law_ring_depth(batch_size: usize, depth: u32)
    requires
        call_ensures(ring_depth, (batch_size,), depth),
    ensures
        1 <= batch_size <= 512 ==> depth == batch_size,
        batch_size == 0 ==> depth == 1,
        batch_size > 512 ==> depth == 512,
{
}

/// A writer is planned by its name: the baseline anywhere, the other two on Linux
/// only, with the ring depth for the batch and with a buffer of 4096 records.
pub proof fn law_plan(kind: &str, batch_size: usize, linux: bool, r: Option<WriterPlan>, depth: u32)
    requires
        call_ensures(plan_writer, (kind, batch_size, linux), r),
        call_ensures(ring_depth, (batch_size,), depth),
    ensures
        r == Some(WriterPlan::Std) <==> kind@ == "std-BufWriter"@,
        kind@ != "std-BufWriter"@ ==> {
            &&& r is Some <==> linux && (kind@ == "io_uring-Write"@ || kind@
                == "io_uring-WriteFixed"@)
            &&& linux && kind@ == "io_uring-Write"@ ==> r == Some(
                WriterPlan::Uring { ring_depth: depth },
            )
            &&& linux && kind@ == "io_uring-WriteFixed"@ && kind@ != "io_uring-Write"@ ==> r
                == Some(WriterPlan::UringFixed { cap_msgs: 4096 })
        },
{
}

/// The set-up starts by removing the old log and, where there is a writer, ends by
/// opening it; nothing else opens one. What is not the baseline is opened on a log
/// made anew.
pub proof fn law_setup(
    kind: &str,
    batch_size: usize,
    linux: bool,
    plan: Option<WriterPlan>,
    steps: Vec<SetupStep>,
    i: int,
)
    requires
        call_ensures(plan_writer, (kind, batch_size, linux), plan),
        call_ensures(setup_steps, (kind, batch_size, linux), steps),
    ensures
        steps@.len() > 0 && steps@[0] is Remove,
        plan matches Some(p) ==> steps@.last() == SetupStep::Open(p),
        0 <= i < steps@.len() && steps@[i] is Open ==> plan is Some && i == steps@.len() - 1,
        plan is None ==> steps@.len() == 1,
        plan == Some(WriterPlan::Std) ==> steps@.len() == 2,
        plan is Some && plan != Some(WriterPlan::Std) ==> steps@.len() == 3 && steps@[1] is Create,
{
}

/// Only the writer with the registered buffer is judged; it passes when it reaches
/// the ratio with a batch of 64 or more.
pub proof fn law_cell(kind: &str, batch_size: usize, ratio_reached: bool, r: Option<bool>)
    requires
        call_ensures(cell_passes, (kind, batch_size, ratio_reached), r),
    ensures
        r is Some <==> kind@ == "io_uring-WriteFixed"@,
        r matches Some(passes) ==> (passes <==> ratio_reached && batch_size >= 64),
{
}

/// One durable cell that passes proves the claim, and nothing else does; one
/// buffered cell that passes keeps it from being falsified.
pub proof fn law_claim(cells: &[CellVerdict], v: ClaimVerdict, i: int)
    requires
        call_ensures(claim_verdict, (cells,), v),
        0 <= i < cells@.len(),
        cells@[i].passes == Some(true),
    ensures
        cells@[i].durability == Durability::SyncPerBatch ==> v == ClaimVerdict::Proven,
        v != ClaimVerdict::Falsified,
{
}

/// Where the claim is proven, a durable cell passed; where it holds for buffered
/// writes only, a buffered cell passed and no durable one; where it is falsified,
/// no cell passed.
pub proof fn law_claim_has_ground(cells: &[CellVerdict], v: ClaimVerdict)
    requires
        call_ensures(claim_verdict, (cells,), v),
    ensures
        v == ClaimVerdict::Proven ==> exists|i: int|
            0 <= i < cells@.len() && (#[trigger] cells@[i]).durability == Durability::SyncPerBatch
                && cells@[i].passes == Some(true),
        v == ClaimVerdict::BufferedOnly ==> exists|i: int|
            0 <= i < cells@.len() && (#[trigger] cells@[i]).durability == Durability::SyncEnd
                && cells@[i].passes == Some(true),
        v == ClaimVerdict::BufferedOnly ==> forall|i: int|
            0 <= i < cells@.len() && (#[trigger] cells@[i]).durability == Durability::SyncPerBatch
                ==> cells@[i].passes != Some(true),
        v == ClaimVerdict::Falsified ==> forall|i: int|
            0 <= i < cells@.len() ==> (#[trigger] cells@[i]).passes != Some(true),
{
    if v == ClaimVerdict::Falsified {
        assert forall|i: int| 0 <= i < cells@.len() implies (#[trigger] cells@[i]).passes != Some(
            true,
        ) by {
            if cells@[i].passes == Some(true) {
                law_claim(cells, v, i);
            }
        }
    }
}

} // verus!
