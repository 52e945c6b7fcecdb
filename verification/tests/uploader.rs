use std::collections::VecDeque;

use fastboot_client::uploader::Uploader;

/// Drives an upload the way a transport does: submitted chunks become
/// pending transfers, each resolving to the byte count it was given.
struct DriverHarness {
    uploader: Uploader,
    pending: VecDeque<usize>,
    max_seen_pending: usize,
}

impl DriverHarness {
    fn new() -> Self {
        DriverHarness { uploader: Uploader::new(), pending: VecDeque::new(), max_seen_pending: 0 }
    }

    fn retire_oldest(&mut self) {
        let bytes = self.pending.pop_front().unwrap();
        assert!(self.uploader.total().checked_add(bytes).is_some());
        self.uploader.retired(bytes);
    }

    fn submit_chunk(&mut self, bytes: usize) {
        if self.uploader.window_full() {
            self.retire_oldest();
        }
        self.pending.push_back(bytes);
        self.uploader.submitted();
        self.max_seen_pending = self.max_seen_pending.max(self.uploader.pending());
    }

    fn drain(&mut self) -> usize {
        while self.uploader.pending() > 0 {
            self.retire_oldest();
        }
        self.uploader.total()
    }
}

#[test]
fn five_chunks_total_and_window() {
    let mut driver = DriverHarness::new();
    for _ in 0..5 {
        driver.submit_chunk(512);
        assert!(driver.uploader.pending() <= 4);
    }
    let total = driver.drain();
    assert_eq!(total, 2560);
    assert!(driver.max_seen_pending <= 4);
}

#[test]
fn window_fills_at_four() {
    let mut uploader = Uploader::new();
    for _ in 0..4 {
        assert!(!uploader.window_full());
        uploader.submitted();
    }
    assert_eq!(uploader.pending(), 4);
    assert!(uploader.window_full());
    uploader.retired(100);
    assert!(!uploader.window_full());
    assert_eq!(uploader.pending(), 3);
    assert_eq!(uploader.total(), 100);
}

#[test]
fn totals_sum_in_retirement_order() {
    let mut driver = DriverHarness::new();
    for bytes in [10usize, 20, 30, 40, 50, 60] {
        driver.submit_chunk(bytes);
    }
    assert_eq!(driver.drain(), 210);
}

#[test]
fn empty_source_uploads_nothing() {
    let mut driver = DriverHarness::new();
    assert_eq!(driver.drain(), 0);
}

#[test]
fn many_chunks_window_stays_bounded() {
    let mut driver = DriverHarness::new();
    for _ in 0..100 {
        driver.submit_chunk(4096);
        assert!(driver.uploader.pending() <= 4);
    }
    assert_eq!(driver.drain(), 100 * 4096);
    assert_eq!(driver.max_seen_pending, 4);
}
