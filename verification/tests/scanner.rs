use creator_scan::chunker::{AdaptiveChunker, FetchOutcome, NextFetch, ScanRange};
use creator_scan::scanner::{ConcurrentScanner, Dispatch, UnitOutcome};

fn range(from_block: u64, to_block: u64) -> ScanRange {
    ScanRange { from_block, to_block }
}

fn assert_tiles(mut fetched: Vec<ScanRange>, start: u64, end: u64) {
    fetched.sort_by_key(|part| part.from_block);
    let mut expected_from = start;
    for part in &fetched {
        assert_eq!(part.from_block, expected_from);
        assert!(part.from_block <= part.to_block);
        expected_from = part.to_block + 1;
    }
    assert_eq!(expected_from, end + 1);
}

#[test]
fn there_is_no_scanner_without_a_chunk_size_or_a_limit() {
    assert!(ConcurrentScanner::new(0, 10, 0, 4).is_none());
    assert!(ConcurrentScanner::new(0, 10, 1000, 0).is_none());
    assert!(ConcurrentScanner::new(0, 10, 0, 0).is_none());
    assert!(ConcurrentScanner::new(0, 10, 1000, 1).is_some());
}

#[test]
fn an_empty_span_finishes_at_once() {
    let mut scanner = ConcurrentScanner::new(5, 4, 1000, 3).unwrap();
    assert_eq!(scanner.dispatch(), Dispatch::Finished);
    assert_eq!(scanner.dispatch(), Dispatch::Finished);
    assert_eq!(scanner.in_flight(), 0);
    assert_eq!(scanner.failure(), None);
}

#[test]
fn hands_out_ranges_in_order_up_to_the_limit() {
    let mut scanner = ConcurrentScanner::new(0, 9_999, 1000, 3).unwrap();
    assert_eq!(scanner.dispatch(), Dispatch::Fetch(range(0, 999)));
    assert_eq!(scanner.dispatch(), Dispatch::Fetch(range(1000, 1999)));
    assert_eq!(scanner.dispatch(), Dispatch::Fetch(range(2000, 2999)));
    assert_eq!(scanner.in_flight(), 3);
    assert_eq!(scanner.dispatch(), Dispatch::Wait);
    assert_eq!(scanner.dispatch(), Dispatch::Wait);
    assert_eq!(scanner.in_flight(), 3);
    assert!(scanner.complete(range(1000, 1999), UnitOutcome::Fetched));
    assert_eq!(scanner.in_flight(), 2);
    assert_eq!(scanner.dispatch(), Dispatch::Fetch(range(3000, 3999)));
    assert_eq!(scanner.dispatch(), Dispatch::Wait);
    assert_eq!(scanner.chunk_size(), 1000);
}

#[test]
fn a_report_for_a_range_not_in_flight_changes_nothing() {
    let mut scanner = ConcurrentScanner::new(0, 2_999, 1000, 2).unwrap();
    assert!(!scanner.complete(range(0, 999), UnitOutcome::Fetched));
    assert_eq!(scanner.dispatch(), Dispatch::Fetch(range(0, 999)));
    assert!(!scanner.complete(range(0, 998), UnitOutcome::Fatal));
    assert!(!scanner.complete(range(1000, 1999), UnitOutcome::Transient));
    assert_eq!(scanner.in_flight(), 1);
    assert_eq!(scanner.chunk_size(), 1000);
    assert_eq!(scanner.failure(), None);
    assert!(scanner.complete(range(0, 999), UnitOutcome::Fetched));
    assert!(!scanner.complete(range(0, 999), UnitOutcome::Fetched));
    assert_eq!(scanner.dispatch(), Dispatch::Fetch(range(1000, 1999)));
}

#[test]
fn finishes_only_when_everything_has_come_back() {
    let mut scanner = ConcurrentScanner::new(0, 1_499, 1000, 4).unwrap();
    assert_eq!(scanner.dispatch(), Dispatch::Fetch(range(0, 999)));
    assert_eq!(scanner.dispatch(), Dispatch::Fetch(range(1000, 1499)));
    assert_eq!(scanner.dispatch(), Dispatch::Wait);
    assert!(scanner.complete(range(1000, 1499), UnitOutcome::Fetched));
    assert_eq!(scanner.dispatch(), Dispatch::Wait);
    assert!(scanner.complete(range(0, 999), UnitOutcome::Fetched));
    assert_eq!(scanner.dispatch(), Dispatch::Finished);
}

#[test]
fn with_one_fetch_at_a_time_it_retries_the_same_block_at_half_the_size() {
    let mut scanner = ConcurrentScanner::new(5000, 5999, 1000, 1).unwrap();
    assert_eq!(scanner.dispatch(), Dispatch::Fetch(range(5000, 5999)));
    assert!(scanner.complete(range(5000, 5999), UnitOutcome::Transient));
    assert_eq!(scanner.chunk_size(), 500);
    assert_eq!(scanner.dispatch(), Dispatch::Fetch(range(5000, 5499)));
    assert!(scanner.complete(range(5000, 5499), UnitOutcome::Transient));
    assert_eq!(scanner.chunk_size(), 250);
    let mut fetched = Vec::new();
    loop {
        match scanner.dispatch() {
            Dispatch::Fetch(part) => {
                assert!(scanner.complete(part, UnitOutcome::Fetched));
                fetched.push(part);
            },
            other => {
                assert_eq!(other, Dispatch::Finished);
                break;
            },
        }
    }
    assert_eq!(
        fetched,
        vec![range(5000, 5249), range(5250, 5499), range(5500, 5749), range(5750, 5999)]
    );
    let total: u64 = fetched.iter().map(|part| part.to_block - part.from_block + 1).sum();
    assert_eq!(total, 1000);
}

#[test]
fn with_one_fetch_at_a_time_it_follows_the_chunker() {
    let mut scanner = ConcurrentScanner::new(100, 4_321, 700, 1).unwrap();
    let mut chunker = AdaptiveChunker::new(100, 4_321, 700).unwrap();
    let mut next = chunker.begin();
    let mut attempt = 0;
    loop {
        attempt += 1;
        let fails = attempt == 2 || attempt == 3;
        match (scanner.dispatch(), next) {
            (Dispatch::Fetch(part), NextFetch::Fetch(expected)) => {
                assert_eq!(part, expected);
                if fails {
                    assert!(scanner.complete(part, UnitOutcome::Transient));
                    next = chunker.resume(FetchOutcome::Failed);
                } else {
                    assert!(scanner.complete(part, UnitOutcome::Fetched));
                    next = chunker.resume(FetchOutcome::Fetched);
                }
            },
            (Dispatch::Finished, NextFetch::Finished) => break,
            (got, expected) => panic!("scanner says {:?}, chunker says {:?}", got, expected),
        }
    }
    assert_eq!(scanner.chunk_size(), chunker.chunk_size());
    assert_eq!(scanner.chunk_size(), 175);
}

#[test]
fn failures_of_ranges_cut_at_a_larger_size_halve_the_size_once() {
    let mut scanner = ConcurrentScanner::new(0, 9_999, 1000, 3).unwrap();
    assert_eq!(scanner.dispatch(), Dispatch::Fetch(range(0, 999)));
    assert_eq!(scanner.dispatch(), Dispatch::Fetch(range(1000, 1999)));
    assert_eq!(scanner.dispatch(), Dispatch::Fetch(range(2000, 2999)));
    assert!(scanner.complete(range(2000, 2999), UnitOutcome::Transient));
    assert_eq!(scanner.chunk_size(), 500);
    assert!(scanner.complete(range(0, 999), UnitOutcome::Transient));
    assert!(scanner.complete(range(1000, 1999), UnitOutcome::Transient));
    assert_eq!(scanner.chunk_size(), 500);
    assert_eq!(scanner.failure(), None);
    assert_eq!(scanner.dispatch(), Dispatch::Fetch(range(1000, 1499)));
    assert_eq!(scanner.dispatch(), Dispatch::Fetch(range(1500, 1999)));
    assert_eq!(scanner.dispatch(), Dispatch::Fetch(range(0, 499)));
    assert_eq!(scanner.dispatch(), Dispatch::Wait);
    assert!(scanner.complete(range(0, 499), UnitOutcome::Transient));
    assert_eq!(scanner.chunk_size(), 250);
    assert_eq!(scanner.dispatch(), Dispatch::Fetch(range(0, 249)));
}

#[test]
fn a_transient_failure_at_the_floor_gives_the_scan_up() {
    let mut scanner = ConcurrentScanner::new(0, 999, 100, 2).unwrap();
    assert_eq!(scanner.dispatch(), Dispatch::Fetch(range(0, 99)));
    assert_eq!(scanner.dispatch(), Dispatch::Fetch(range(100, 199)));
    assert!(scanner.complete(range(100, 199), UnitOutcome::Transient));
    assert_eq!(scanner.failure(), Some(range(100, 199)));
    assert_eq!(scanner.chunk_size(), 100);
    assert_eq!(scanner.dispatch(), Dispatch::Wait);
    assert!(scanner.complete(range(0, 99), UnitOutcome::Fetched));
    assert_eq!(scanner.dispatch(), Dispatch::Aborted(range(100, 199)));
    assert_eq!(scanner.dispatch(), Dispatch::Aborted(range(100, 199)));
}

#[test]
fn a_fatal_failure_stops_dispatch_and_lets_the_rest_drain() {
    let mut scanner = ConcurrentScanner::new(0, 9_999, 1000, 3).unwrap();
    assert_eq!(scanner.dispatch(), Dispatch::Fetch(range(0, 999)));
    assert_eq!(scanner.dispatch(), Dispatch::Fetch(range(1000, 1999)));
    assert_eq!(scanner.dispatch(), Dispatch::Fetch(range(2000, 2999)));
    assert!(scanner.complete(range(1000, 1999), UnitOutcome::Fatal));
    assert_eq!(scanner.failure(), Some(range(1000, 1999)));
    assert_eq!(scanner.chunk_size(), 1000);
    assert_eq!(scanner.dispatch(), Dispatch::Wait);
    assert!(scanner.complete(range(0, 999), UnitOutcome::Fatal));
    assert_eq!(scanner.failure(), Some(range(1000, 1999)));
    assert_eq!(scanner.dispatch(), Dispatch::Wait);
    assert!(scanner.complete(range(2000, 2999), UnitOutcome::Fetched));
    assert_eq!(scanner.in_flight(), 0);
    assert_eq!(scanner.dispatch(), Dispatch::Aborted(range(1000, 1999)));
}

#[test]
fn in_whatever_order_outcomes_arrive_the_fetched_ranges_tile_the_span() {
    let start = 3_992_891u64;
    let end = 4_003_000u64;
    for turn in 0..4u64 {
        let mut scanner = ConcurrentScanner::new(start, end, 1000, 5).unwrap();
        let mut flying: Vec<ScanRange> = Vec::new();
        let mut fetched: Vec<ScanRange> = Vec::new();
        let mut steps = 0u64;
        loop {
            steps += 1;
            match scanner.dispatch() {
                Dispatch::Fetch(part) => {
                    assert!(part.to_block - part.from_block < scanner.chunk_size());
                    flying.push(part);
                    assert!(flying.len() <= 5);
                    assert_eq!(scanner.in_flight(), flying.len());
                },
                Dispatch::Wait => {
                    let pick = ((steps * 7 + turn * 3) % flying.len() as u64) as usize;
                    let part = flying.remove(pick);
                    let too_large = part.to_block - part.from_block + 1 > 300;
                    if too_large && turn > 0 {
                        assert!(scanner.complete(part, UnitOutcome::Transient));
                    } else {
                        assert!(scanner.complete(part, UnitOutcome::Fetched));
                        fetched.push(part);
                    }
                },
                Dispatch::Finished => break,
                Dispatch::Aborted(part) => panic!("gave up at {:?}", part),
            }
        }
        assert!(flying.is_empty());
        let total: u64 = fetched.iter().map(|part| part.to_block - part.from_block + 1).sum();
        assert_eq!(total, end - start + 1);
        assert_tiles(fetched, start, end);
        assert_eq!(scanner.chunk_size(), if turn == 0 { 1000 } else { 250 });
    }
}

#[test]
fn scans_up_to_the_last_block_number() {
    let mut scanner = ConcurrentScanner::new(u64::MAX - 2, u64::MAX, 2, 4).unwrap();
    assert_eq!(scanner.dispatch(), Dispatch::Fetch(range(u64::MAX - 2, u64::MAX - 1)));
    assert_eq!(scanner.dispatch(), Dispatch::Fetch(range(u64::MAX, u64::MAX)));
    assert_eq!(scanner.dispatch(), Dispatch::Wait);
    assert!(scanner.complete(range(u64::MAX, u64::MAX), UnitOutcome::Fetched));
    assert!(scanner.complete(range(u64::MAX - 2, u64::MAX - 1), UnitOutcome::Fetched));
    assert_eq!(scanner.dispatch(), Dispatch::Finished);
}
