use port_checker::coordinator::run_scan;
use port_checker::partition::worker_candidates;
use port_checker::report::make_report;
use port_checker::target::{HostAddr, ScanTarget, CONNECT_TIMEOUT_MS};

fn loopback_target(workers: u16) -> ScanTarget {
    ScanTarget::new(HostAddr::V4(127, 0, 0, 1), workers).unwrap()
}

#[test]
fn target_rejects_zero_workers() {
    assert!(ScanTarget::new(HostAddr::V4(127, 0, 0, 1), 0).is_none());
}

#[test]
fn target_keeps_address_and_workers() {
    let t = ScanTarget::new(HostAddr::V6(0, 0, 0, 0, 0, 0, 0, 1), 4).unwrap();
    assert_eq!(t.addr, HostAddr::V6(0, 0, 0, 0, 0, 0, 0, 1));
    assert_eq!(t.workers, 4);
    assert_eq!(CONNECT_TIMEOUT_MS, 200);
}

#[test]
fn candidates_follow_the_stride() {
    let c = worker_candidates(0, 30000);
    assert_eq!(c, vec![1, 30001, 60001]);
}

#[test]
fn single_worker_walks_every_port_below_the_top() {
    let c = worker_candidates(0, 1);
    assert_eq!(c.len(), 65534);
    assert_eq!(c[0], 1);
    assert_eq!(c[65533], 65534);
}

#[test]
fn partition_covers_every_port_exactly_once() {
    let workers: u16 = 4;
    let mut counts = vec![0u32; 65536];
    for o in 0..workers {
        for p in worker_candidates(o, workers) {
            counts[p as usize] += 1;
        }
    }
    assert_eq!(counts[0], 0);
    for p in 1..=65534usize {
        assert_eq!(counts[p], 1);
    }
    assert_eq!(counts[65535], 0);
}

#[test]
fn report_sorts_unordered_arrivals() {
    let arrivals: Vec<u16> = vec![8080, 22, 443];
    assert_eq!(make_report(&arrivals), vec![22, 443, 8080]);
}

#[test]
fn report_never_holds_duplicates() {
    let arrivals: Vec<u16> = vec![5, 3, 5, 3];
    assert_eq!(make_report(&arrivals), vec![3, 5]);
}

#[test]
fn single_listener_found_by_four_workers() {
    let listeners: Vec<u16> = vec![8080];
    assert_eq!(run_scan(&loopback_target(4), &listeners), vec![8080]);
}

#[test]
fn single_worker_finds_both_listeners_in_order() {
    let listeners: Vec<u16> = vec![443, 22];
    assert_eq!(run_scan(&loopback_target(1), &listeners), vec![22, 443]);
}

#[test]
fn no_listeners_means_empty_report() {
    let listeners: Vec<u16> = vec![];
    assert_eq!(run_scan(&loopback_target(8), &listeners), Vec::<u16>::new());
}

#[test]
fn closed_ports_never_reach_the_report() {
    let listeners: Vec<u16> = vec![80];
    assert_eq!(run_scan(&loopback_target(3), &listeners), vec![80]);
}

#[test]
fn maximal_worker_count_gives_one_candidate_each() {
    assert_eq!(worker_candidates(0, 65535), vec![1]);
    assert_eq!(worker_candidates(1, 65535), vec![2]);
    assert_eq!(worker_candidates(65534, 65535), vec![65535]);
}

#[test]
fn maximal_worker_count_still_reports_correctly() {
    let listeners: Vec<u16> = vec![80, 65535, 22];
    assert_eq!(
        run_scan(&loopback_target(65535), &listeners),
        vec![22, 80, 65535]
    );
}

#[test]
fn top_port_is_outside_the_partition_for_small_counts() {
    let listeners: Vec<u16> = vec![65535];
    assert_eq!(run_scan(&loopback_target(4), &listeners), Vec::<u16>::new());
}
