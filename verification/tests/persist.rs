use cadence::message::Message;
use cadence::persist::{
    encode_batch, AppendLog, Completion, LogWrite, Packing, WriteFailure, STD_BUF_CAP,
};
use cadence::persist_verify::{
    cell_passes, claim_verdict, plan_writer, ring_depth, setup_steps, writer_kinds, CellVerdict,
    ClaimVerdict, SetupStep, WriterPlan,
};
use cadence::write_run::{batch_sizes, bench_batch, Durability, WriteRun, WriteStep};

fn log_messages() -> Vec<Message> {
    (1u8..=8).map(|i| Message::new("log.test", &[i; 8])).collect()
}

fn perform(file: &mut Vec<u8>, op: &LogWrite) {
    let at = op.offset as usize;
    if file.len() < at + op.bytes.len() {
        file.resize(at + op.bytes.len(), 0);
    }
    file[at..at + op.bytes.len()].copy_from_slice(&op.bytes);
}

fn done(user_data: u64, result: i32) -> Completion {
    Completion { user_data, result }
}

/// Runs a whole batch; the writes of a chunk complete in reverse order.
fn append(log: &mut AppendLog, file: &mut Vec<u8>, msgs: &[Message]) -> usize {
    let mut written = 0;
    while let Some(ops) = log.next_writes(msgs, written) {
        let mut completions = Vec::new();
        for op in ops.iter().rev() {
            perform(file, op);
            completions.push(done(op.user_data, op.bytes.len() as i32));
        }
        written += log.completed(&ops, &completions).unwrap();
    }
    written
}

fn check_log(raw: &[u8]) {
    assert_eq!(raw.len(), 8 * 64);
    for (i, chunk) in raw.chunks(64).enumerate() {
        let decoded = Message::from_bytes(chunk.try_into().unwrap());
        assert_eq!(decoded.topic_str(), "log.test");
        assert_eq!(decoded.payload_bytes()[0], (i + 1) as u8);
    }
}

#[test]
fn encoded_batch_reads_back() {
    check_log(&encode_batch(&log_messages()));
    assert_eq!(encode_batch(&[]).len(), 0);
    assert_eq!(STD_BUF_CAP, 524_288);
}

#[test]
fn one_write_per_record_reads_back() {
    let mut file = Vec::new();
    let mut log = AppendLog::new(0, 16, Packing::PerRecord);
    assert_eq!(append(&mut log, &mut file, &log_messages()), 8);
    check_log(&file);
    assert_eq!(log.offset, 512);
}

#[test]
fn one_write_per_chunk_reads_back() {
    // Chunks of 4 take two writes for 8 messages.
    let mut file = Vec::new();
    let mut log = AppendLog::new(0, 4, Packing::PerChunk);
    assert_eq!(append(&mut log, &mut file, &log_messages()), 8);
    check_log(&file);
    assert_eq!(log.offset, 512);
}

#[test]
fn batches_follow_what_the_file_holds() {
    for packing in [Packing::PerRecord, Packing::PerChunk] {
        let msgs = log_messages();
        let mut file = encode_batch(&msgs[..2]);
        let mut log = AppendLog::new(128, 3, packing);
        append(&mut log, &mut file, &msgs[2..7]);
        append(&mut log, &mut file, &msgs[7..]);
        check_log(&file);
    }
}

#[test]
fn writes_have_their_place_and_their_number() {
    let msgs = log_messages();
    let log = AppendLog::new(1_000, 3, Packing::PerRecord);
    let ops = log.next_writes(&msgs, 6).unwrap();
    assert_eq!(ops.len(), 2);
    assert_eq!((ops[0].offset, ops[0].user_data), (1_000, 0));
    assert_eq!((ops[1].offset, ops[1].user_data), (1_064, 1));
    assert_eq!(ops[1].bytes, msgs[7].to_bytes());
    assert!(log.next_writes(&msgs, 8).is_none());
    let packed = AppendLog::new(1_000, 3, Packing::PerChunk).next_writes(&msgs, 0).unwrap();
    assert_eq!(packed.len(), 1);
    assert_eq!((packed[0].offset, packed[0].user_data), (1_000, 0));
    assert_eq!(packed[0].bytes, encode_batch(&msgs[..3]));
}

#[test]
fn first_failed_write_stops_the_batch() {
    let msgs = log_messages();
    let mut log = AppendLog::new(64, 4, Packing::PerRecord);
    let ops = log.next_writes(&msgs, 0).unwrap();
    let failed = [done(0, 64), done(3, -28), done(1, -5), done(2, 64)];
    assert_eq!(log.completed(&ops, &failed), Err(WriteFailure::Os(28)));
    assert_eq!(log.offset, 64);
    let whole = [done(3, 64), done(2, 64), done(0, 64), done(1, 64)];
    assert_eq!(log.completed(&ops, &whole), Ok(4));
    assert_eq!(log.offset, 320);
    assert_eq!(log.completed(&[], &[]), Ok(0));
    assert_eq!(log.offset, 320);
}

#[test]
fn short_write_is_not_taken_for_written() {
    let msgs = log_messages();
    let mut log = AppendLog::new(0, 1, Packing::PerRecord);
    let one = log.next_writes(&msgs, 0).unwrap();
    assert_eq!(log.completed(&one, &[done(0, 10)]), Err(WriteFailure::Short));
    assert_eq!(log.completed(&one, &[done(0, 0)]), Err(WriteFailure::Short));
    assert_eq!(log.completed(&one, &[]), Err(WriteFailure::Short));
    assert_eq!(log.completed(&one, &[done(7, 64)]), Err(WriteFailure::Short));
    assert_eq!(log.offset, 0);
    assert_eq!(log.completed(&one, &[done(0, 64)]), Ok(1));
    assert_eq!(log.offset, 64);
    let mut packed = AppendLog::new(0, 8, Packing::PerChunk);
    let all = packed.next_writes(&msgs, 0).unwrap();
    assert_eq!(packed.completed(&all, &[done(0, 511)]), Err(WriteFailure::Short));
    assert_eq!(packed.offset, 0);
    assert_eq!(packed.completed(&all, &[done(0, 512)]), Ok(8));
    assert_eq!(packed.offset, 512);
}

#[test]
fn fresh_writers_start_on_an_empty_log() {
    let std = WriterPlan::Std;
    let uring = WriterPlan::Uring { ring_depth: 8 };
    let fixed = WriterPlan::UringFixed { cap_msgs: 4096 };
    assert_eq!(
        setup_steps("std-BufWriter", 8, true),
        vec![SetupStep::Remove, SetupStep::Open(std)]
    );
    assert_eq!(
        setup_steps("io_uring-Write", 8, true),
        vec![SetupStep::Remove, SetupStep::Create, SetupStep::Open(uring)]
    );
    assert_eq!(
        setup_steps("io_uring-WriteFixed", 8, true),
        vec![SetupStep::Remove, SetupStep::Create, SetupStep::Open(fixed)]
    );
    assert_eq!(setup_steps("io_uring-Write", 8, false), vec![SetupStep::Remove]);
    assert_eq!(
        [std.name(), uring.name(), fixed.name()],
        ["std-BufWriter", "io_uring-Write", "io_uring-WriteFixed"]
    );
}

#[test]
fn benchmark_batch_carries_indices() {
    let msgs = bench_batch(3);
    assert_eq!(msgs.len(), 3);
    assert_eq!(msgs[0], Message::new("persist.bench", &[]));
    assert_eq!(msgs[2], Message::new("persist.bench", &2u64.to_le_bytes()));
    assert_eq!(bench_batch(0).len(), 0);
    assert_eq!(batch_sizes(), vec![1, 8, 64, 512, 4096]);
}

fn steps(msg_count: usize, durability: Durability, n: usize) -> (usize, Vec<WriteStep>) {
    let mut run = WriteRun::new(msg_count, durability);
    let mut steps = Vec::new();
    loop {
        let step = run.next();
        match step {
            WriteStep::WriteBatch => run.wrote(n),
            WriteStep::Sync => run.synced(),
            WriteStep::Done => return (run.total, steps),
        }
        steps.push(step);
    }
}

#[test]
fn run_syncs_once_at_the_end() {
    let (total, seen) = steps(10, Durability::SyncEnd, 4);
    assert_eq!(total, 12);
    assert_eq!(seen, vec![WriteStep::WriteBatch, WriteStep::WriteBatch, WriteStep::WriteBatch, WriteStep::Sync]);
    assert_eq!(steps(0, Durability::SyncEnd, 4), (0, vec![WriteStep::Sync]));
}

#[test]
fn run_syncs_every_batch() {
    let (total, seen) = steps(8, Durability::SyncPerBatch, 4);
    assert_eq!(total, 8);
    assert_eq!(seen, vec![
            WriteStep::WriteBatch,
            WriteStep::Sync,
            WriteStep::WriteBatch,
            WriteStep::Sync,
            WriteStep::Sync
        ]);
}

#[test]
fn labels_and_notes() {
    assert_eq!(Durability::SyncEnd.label(), "sync-end");
    assert_eq!(Durability::SyncPerBatch.label(), "sync-per-batch");
    assert_eq!(cadence::write_run::platform_note(true), "linux — io_uring available");
    assert_eq!(
        cadence::write_run::platform_note(false),
        "non-linux — io_uring not available; std baseline only"
    );
    assert_eq!(cadence::persist_verify::platform_note(true), "linux — io_uring available");
    assert_eq!(cadence::persist_verify::platform_note(false), "non-linux — std baseline only");
}

#[test]
fn writers_of_each_platform() {
    assert_eq!(
        writer_kinds(true),
        vec!["std-BufWriter", "io_uring-Write", "io_uring-WriteFixed"]
    );
    assert_eq!(writer_kinds(false), vec!["std-BufWriter"]);
    for linux in [true, false] {
        for kind in writer_kinds(linux) {
            assert!(plan_writer(kind, 1, linux).is_some());
        }
    }
}

#[test]
fn writer_plans() {
    assert_eq!(plan_writer("std-BufWriter", 64, false), Some(WriterPlan::Std));
    assert_eq!(
        plan_writer("io_uring-Write", 64, true),
        Some(WriterPlan::Uring { ring_depth: 64 })
    );
    assert_eq!(
        plan_writer("io_uring-Write", 4096, true),
        Some(WriterPlan::Uring { ring_depth: 512 })
    );
    assert_eq!(
        plan_writer("io_uring-WriteFixed", 8, true),
        Some(WriterPlan::UringFixed { cap_msgs: 4096 })
    );
    assert_eq!(plan_writer("io_uring-Write", 64, false), None);
    assert_eq!(plan_writer("io_uring-WriteFixed", 64, false), None);
    assert_eq!(plan_writer("other", 64, true), None);
    assert_eq!((ring_depth(0), ring_depth(1), ring_depth(513)), (1, 1, 512));
}

#[test]
fn claim_needs_a_durable_gain() {
    assert_eq!(cell_passes("io_uring-WriteFixed", 64, true), Some(true));
    assert_eq!(cell_passes("io_uring-WriteFixed", 8, true), Some(false));
    assert_eq!(cell_passes("io_uring-WriteFixed", 64, false), Some(false));
    assert_eq!(cell_passes("io_uring-Write", 64, true), None);
    let durable = CellVerdict { durability: Durability::SyncPerBatch, passes: Some(true) };
    let buffered = CellVerdict { durability: Durability::SyncEnd, passes: Some(true) };
    let failed = CellVerdict { durability: Durability::SyncPerBatch, passes: Some(false) };
    let unjudged = CellVerdict { durability: Durability::SyncPerBatch, passes: None };
    assert_eq!(claim_verdict(&[buffered, durable]), ClaimVerdict::Proven);
    assert_eq!(claim_verdict(&[failed, buffered, unjudged]), ClaimVerdict::BufferedOnly);
    assert_eq!(claim_verdict(&[failed, unjudged]), ClaimVerdict::Falsified);
    assert_eq!(claim_verdict(&[]), ClaimVerdict::Falsified);
}
