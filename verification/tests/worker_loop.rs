use fuzzing::emulator::ExecFault;
use fuzzing::harness::{classify, write_case_input, REJECT_EXIT_CODE};
use fuzzing::{MemError, Mmu, Outcome, ToolResult, Tracker, VirtAddr, Worker};

#[test]
fn classify_policy() {
    assert_eq!(classify(ToolResult::Exited(0)), Outcome::Benign);
    assert_eq!(classify(ToolResult::Exited(REJECT_EXIT_CODE)), Outcome::Benign);
    assert_eq!(classify(ToolResult::Exited(11)), Outcome::Interesting);
    assert_eq!(classify(ToolResult::Exited(-6)), Outcome::Interesting);
    assert_eq!(classify(ToolResult::Signaled), Outcome::Interesting);
    assert_eq!(classify(ToolResult::FailedToStart), Outcome::ToolError);
}

#[test]
fn tracker_monotonic() {
    let mut t = Tracker::new();
    assert_eq!(t.cases_processed(), 0);
    t.record_cases(5);
    assert_eq!(t.cases_processed(), 5);
    t.record_cases(3);
    assert_eq!(t.cases_processed(), 8);
}

#[test]
fn worker_round_robin() {
    let mut w = Worker::new(3);
    let mut t = Tracker::new();
    let mut picked = Vec::new();
    for _ in 0..7 {
        let idx = w.begin_case();
        picked.push(idx);
        let persist = w.finish_execution(Outcome::Benign);
        assert!(!persist);
        w.complete_reset(&mut t);
    }
    // A full sweep of the corpus, then round the robin goes.
    assert_eq!(picked, vec![0, 1, 2, 0, 1, 2, 0]);
    assert_eq!(t.cases_processed(), 7);
}

#[test]
fn worker_persists_interesting_cases_only() {
    let mut w = Worker::new(2);
    let mut t = Tracker::new();
    w.begin_case();
    assert!(w.finish_execution(Outcome::Interesting));
    w.complete_reset(&mut t);
    w.begin_case();
    assert!(!w.finish_execution(Outcome::ToolError));
    w.complete_reset(&mut t);
    assert_eq!(t.cases_processed(), 2);
}

#[test]
fn write_case_input_faults_are_classified() {
    let mut space = Mmu::new(1024 * 1024);
    // No input buffer allocated yet: delivery is a fault, not a panic.
    assert_eq!(
        write_case_input(&mut space, VirtAddr(0x500), b"seed"),
        Some(ExecFault::MemoryFault(MemError::PermissionDenied))
    );
    // With a buffer in place the same entry fits.
    let buf = space.allocate(64).unwrap();
    assert_eq!(write_case_input(&mut space, buf, b"seed"), None);
    let mut read_back = vec![0u8; 4];
    space.read_into(buf, &mut read_back).unwrap();
    assert_eq!(&read_back, b"seed");
    // An entry that cannot fit in the space at all is out of bounds.
    assert_eq!(
        write_case_input(&mut space, VirtAddr(usize::MAX - 1), b"seed"),
        Some(ExecFault::MemoryFault(MemError::OutOfBounds))
    );
}

#[test]
fn worker_phase_cycle() {
    let mut w = Worker::new(1);
    let mut t = Tracker::new();
    assert_eq!(w.begin_case(), 0);
    let _ = w.finish_execution(Outcome::Benign);
    w.complete_reset(&mut t);
    // Idle again: the next case can begin.
    assert_eq!(w.begin_case(), 0);
}
