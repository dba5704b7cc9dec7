use fib_search::search::{
    checkpoint_interval, chunk_end, improves, leave_chunk, lower_best, progress_percent,
    record_hit, run_state, run_worker, scan_chunk, should_replace, ChunkOutcome, RunState,
    WorkerExit,
};
use fib_search::{search_part, CalcStatus, Status, NOT_FOUND};
use ibig::IBig;
use std::sync::atomic::{AtomicBool, AtomicI64, Ordering};
use std::sync::Arc;

struct Shared {
    found: Arc<AtomicBool>,
    stop: Arc<AtomicBool>,
    cursor: Arc<AtomicI64>,
    best: Arc<AtomicI64>,
}

fn shared(start: i64) -> Shared {
    Shared {
        found: Arc::new(AtomicBool::new(false)),
        stop: Arc::new(AtomicBool::new(false)),
        cursor: Arc::new(AtomicI64::new(start)),
        best: Arc::new(AtomicI64::new(NOT_FOUND)),
    }
}

/// Runs `workers` workers one after another over shared state.
fn run_search(needle: &[u8], workers: usize, chunk: i64) -> (i64, Vec<Arc<Status>>) {
    let s = shared(0);
    let needle = Arc::new(needle.to_vec());
    let mut statuses = Vec::new();
    for _ in 0..workers {
        let st = Arc::new(Status::new());
        statuses.push(st.clone());
        search_part(
            st,
            s.found.clone(),
            s.stop.clone(),
            s.cursor.clone(),
            s.best.clone(),
            needle.clone(),
            chunk,
        );
    }
    (s.best.load(Ordering::Relaxed), statuses)
}

fn fib_decimal(n: usize) -> String {
    let mut a = IBig::from(0u32);
    let mut b = IBig::from(1u32);
    for _ in 0..n {
        let c = &a + &b;
        a = b;
        b = c;
    }
    a.to_string()
}

#[test]
fn intervals_and_percent() {
    assert_eq!(checkpoint_interval(10000), 100);
    assert_eq!(checkpoint_interval(100), 1);
    assert_eq!(checkpoint_interval(50), 1);
    assert_eq!(checkpoint_interval(1), 1);
    assert_eq!(progress_percent(0, 100), 0);
    assert_eq!(progress_percent(250, 100), 2);
    assert_eq!(progress_percent(9999, 100), 99);
    assert_eq!(progress_percent(198, 1), 100);
}

#[test]
fn leaving_rules() {
    assert!(leave_chunk(true, false, NOT_FOUND, 100));
    assert!(!leave_chunk(false, false, NOT_FOUND, 100));
    assert!(!leave_chunk(false, true, NOT_FOUND, 100));
    assert!(leave_chunk(false, true, 50, 100));
    assert!(!leave_chunk(false, true, 100, 100));
    assert!(!leave_chunk(false, true, 150, 100));
}

#[test]
fn replacement_rules() {
    assert!(should_replace(NOT_FOUND, 7));
    assert!(should_replace(9, 7));
    assert!(!should_replace(7, 7));
    assert!(!should_replace(3, 7));
    assert!(improves(5, NOT_FOUND));
    assert!(improves(4, 5));
    assert!(!improves(5, 5));
    assert!(!improves(NOT_FOUND, 5));
}

#[test]
fn chunk_bounds() {
    assert_eq!(chunk_end(-1, 0, 100), Some(100));
    assert_eq!(chunk_end(0, 100, 100), Some(200));
    assert_eq!(chunk_end(100, 100, 100), None);
    assert_eq!(chunk_end(-1, -5, 100), None);
    assert_eq!(chunk_end(-1, i64::MAX - 99, 100), None);
    assert_eq!(chunk_end(-1, i64::MAX - 100, 100), Some(i64::MAX));
}

#[test]
fn scan_finds_first_in_chunk() {
    let s = shared(0);
    let st = Status::new();
    let r = scan_chunk(&st, &s.found, &s.stop, &s.best, &b"317811".to_vec(), 20, 100);
    assert!(matches!(r, ChunkOutcome::Hit(28)));
    let r = scan_chunk(&st, &s.found, &s.stop, &s.best, &b"5".to_vec(), 0, 3);
    assert!(matches!(r, ChunkOutcome::Completed));
    let r = scan_chunk(&st, &s.found, &s.stop, &s.best, &b"5".to_vec(), 0, 30);
    assert!(matches!(r, ChunkOutcome::Hit(5)));
}

#[test]
fn scan_completes_without_hit() {
    let s = shared(0);
    let st = Status::new();
    let r = scan_chunk(&st, &s.found, &s.stop, &s.best, &b"317811".to_vec(), 29, 10);
    assert!(matches!(r, ChunkOutcome::Completed));
    assert_eq!(st.place.load(Ordering::Relaxed), 38);
}

#[test]
fn scan_leaves_on_stop() {
    let s = shared(0);
    s.stop.store(true, Ordering::Relaxed);
    let st = Status::new();
    let r = scan_chunk(&st, &s.found, &s.stop, &s.best, &b"x".to_vec(), 1000, 10000);
    assert!(matches!(r, ChunkOutcome::Left(1001)));
}

#[test]
fn scan_leaves_when_superseded() {
    let s = shared(0);
    s.found.store(true, Ordering::Relaxed);
    s.best.store(500, Ordering::Relaxed);
    let st = Status::new();
    let r = scan_chunk(&st, &s.found, &s.stop, &s.best, &b"x".to_vec(), 600, 200);
    assert!(matches!(r, ChunkOutcome::Left(601)));
}

#[test]
fn worker_reports_its_hit() {
    let s = shared(0);
    let st = Status::new();
    let r = run_worker(&st, &s.found, &s.stop, &s.cursor, &s.best, &b"317811".to_vec(), 10);
    assert!(matches!(r, WorkerExit::Found { beg: 20, at: 28 }));
    assert!(s.found.load(Ordering::Relaxed));
    assert_eq!(s.best.load(Ordering::Relaxed), 28);
    assert_eq!(st.place.load(Ordering::Relaxed), 28);
    let st2 = Status::new();
    let r = run_worker(&st2, &s.found, &s.stop, &s.cursor, &s.best, &b"317811".to_vec(), 10);
    assert!(matches!(r, WorkerExit::Halted));
}

#[test]
fn worker_reports_exhaustion() {
    let s = shared(i64::MAX - 5);
    let st = Arc::new(Status::new());
    search_part(st.clone(), s.found, s.stop, s.cursor, s.best.clone(), Arc::new(b"x".to_vec()), 10);
    assert!(st.exhausted.load(Ordering::Relaxed));
    assert!(st.is_finished.load(Ordering::Relaxed));
    assert_eq!(s.best.load(Ordering::Relaxed), NOT_FOUND);
}

#[test]
fn search_finds_first_index() {
    for chunk in [1i64, 3, 7, 10, 27] {
        for workers in [1usize, 2, 4] {
            let (best, statuses) = run_search(b"317811", workers, chunk);
            assert_eq!(best, 28);
            assert!(statuses.iter().all(|s| s.is_finished.load(Ordering::Relaxed)));
        }
    }
}

#[test]
fn search_finds_middle_digits_of_f500() {
    let digits = fib_decimal(500);
    assert_eq!(digits.len(), 105);
    let needle = &digits.as_bytes()[40..60];
    let (best, statuses) = run_search(needle, 4, 100);
    assert_eq!(best, 500);
    assert_eq!(statuses.len(), 4);
    assert!(statuses.iter().all(|s| s.is_finished.load(Ordering::Relaxed)));
}

#[test]
fn stop_request_finishes_workers() {
    let s = shared(0);
    let handle = CalcStatus { status: vec![Arc::new(Status::new()), Arc::new(Status::new())], is_stop: s.stop.clone(), ans: s.best.clone() };
    handle.request_stop();
    handle.request_stop();
    assert!(handle.is_stop.load(Ordering::Relaxed));
    assert_eq!(handle.finished_count(), 0);
    let needle = Arc::new(b"x".to_vec());
    for st in &handle.status {
        search_part(st.clone(), s.found.clone(), s.stop.clone(), s.cursor.clone(), s.best.clone(), needle.clone(), 10000);
        assert_eq!(st.place.load(Ordering::Relaxed), 0);
    }
    assert_eq!(handle.finished_count(), 2);
    assert_eq!(handle.best_found_index(), NOT_FOUND);
}

#[test]
fn smaller_of_two_hits_wins() {
    // Two workers on chunks injected through separate cursors, sharing the best index.
    let best = Arc::new(AtomicI64::new(NOT_FOUND));
    let needle = b"5".to_vec();
    let late = shared(100);
    let early = shared(10);
    let st = Status::new();
    let r = run_worker(&st, &late.found, &late.stop, &late.cursor, &best, &needle, 10);
    assert!(matches!(r, WorkerExit::Found { beg: 100, at: 100 }));
    assert_eq!(best.load(Ordering::Relaxed), 100);
    let r = run_worker(&st, &early.found, &early.stop, &early.cursor, &best, &needle, 10);
    assert!(matches!(r, WorkerExit::Found { beg: 10, at: 10 }));
    assert_eq!(best.load(Ordering::Relaxed), 10);
}

#[test]
fn hit_order_does_not_matter() {
    let s = shared(0);
    let st = Status::new();
    record_hit(&st, &s.found, &s.best, 28);
    record_hit(&st, &s.found, &s.best, 500);
    assert_eq!(s.best.load(Ordering::Relaxed), 28);
    let t = shared(0);
    record_hit(&st, &t.found, &t.best, 500);
    record_hit(&st, &t.found, &t.best, 28);
    assert_eq!(t.best.load(Ordering::Relaxed), 28);
    assert!(t.found.load(Ordering::Relaxed));
    lower_best(&t.best, 28);
    assert_eq!(t.best.load(Ordering::Relaxed), 28);
}

#[test]
fn run_states() {
    assert_eq!(run_state(0, 4), RunState::Started);
    assert_eq!(run_state(1, 4), RunState::Stopping);
    assert_eq!(run_state(3, 4), RunState::Stopping);
    assert_eq!(run_state(4, 4), RunState::Stop);
    let (_, statuses) = run_search(b"317811", 2, 10);
    let handle = CalcStatus {
        status: statuses,
        is_stop: Arc::new(AtomicBool::new(false)),
        ans: Arc::new(AtomicI64::new(28)),
    };
    assert_eq!(handle.run_state(), RunState::Stop);
    assert_eq!(handle.best_found_index(), 28);
}
