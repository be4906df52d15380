use portscan::addresses::Target;
use portscan::ip::IpAddress;
use portscan::matrix::{JobMatrix, NoTargets, ScanJob};
use portscan::ports::{PortTable, ServiceName};
use portscan::report::{format_result, Reporter};
use portscan::scanner::{ScanAction, ScanError, ScanEvent, ScanResult, Scanner};
use portscan::utils::{
    adjust_batch_size, batch_size, clamp_batch_size, is_port_open, ConnectOutcome,
};

fn targets(n: u8) -> Vec<Target> {
    (0..n).map(|i| Target { ip: IpAddress::v4(10, 0, 0, i), label: format!("10.0.0.{}", i) }).collect()
}

fn matrix(n: u8, ports: Vec<u16>) -> JobMatrix {
    JobMatrix::new(targets(n), ports).unwrap()
}

fn names() -> PortTable {
    PortTable {
        top_ports: vec![80, 22],
        names: vec![
            ServiceName { port: 22, name: "ssh".to_string() },
            ServiceName { port: 80, name: "http".to_string() },
        ],
    }
}

fn finished(job: u128, outcome: ConnectOutcome) -> ScanEvent {
    ScanEvent::Finished { job, outcome }
}

#[test]
fn no_targets_is_an_error_of_its_own() {
    let refused = JobMatrix::new(vec![], vec![80, 443]);
    assert_eq!(refused, Err(NoTargets));
    assert_eq!(NoTargets.message(), "error: No IPs could be resolved, aborting scan.");
    assert!(JobMatrix::new(targets(1), vec![]).is_ok());
}

#[test]
fn matrix_pairs_every_target_with_every_port() {
    let m = matrix(2, vec![22, 80, 443]);
    assert_eq!(m.len(), 6);
    let jobs: Vec<ScanJob> = (0..6).map(|i| m.job(i).unwrap()).collect();
    let pairs: Vec<(String, u16)> = jobs.iter().map(|j| (j.label.clone(), j.port)).collect();
    assert_eq!(
        pairs,
        vec![
            ("10.0.0.0".to_string(), 22),
            ("10.0.0.0".to_string(), 80),
            ("10.0.0.0".to_string(), 443),
            ("10.0.0.1".to_string(), 22),
            ("10.0.0.1".to_string(), 80),
            ("10.0.0.1".to_string(), 443),
        ]
    );
    assert_eq!(jobs[4].index, 4);
    assert_eq!(jobs[4].ip, IpAddress::v4(10, 0, 0, 1));
    assert_eq!(m.job(6), None);
    assert_eq!(m.job(u128::MAX), None);
}

#[test]
fn matrix_without_ports_has_no_jobs() {
    let m = matrix(3, vec![]);
    assert_eq!(m.len(), 0);
    assert_eq!(m.job(0), None);
    assert_eq!(m.max_port_len(), 0);
    assert_eq!(m.max_addr_len(), 8);
}

#[test]
fn column_widths_are_the_widest_entries() {
    let m = JobMatrix::new(
        vec![
            Target { ip: IpAddress::v4(10, 0, 0, 1), label: "10.0.0.1".to_string() },
            Target { ip: IpAddress::v4(93, 184, 216, 34), label: "example.com".to_string() },
            Target { ip: IpAddress::v4(1, 1, 1, 1), label: "é.fr".to_string() },
        ],
        vec![80, 8080, 22],
    )
    .unwrap();
    assert_eq!(m.max_addr_len(), 11);
    assert_eq!(m.max_port_len(), 4);
    assert_eq!(matrix(1, vec![65535, 1]).max_port_len(), 5);
    assert_eq!(matrix(1, vec![7]).max_port_len(), 1);
}

#[test]
fn engine_without_concurrency_is_refused() {
    assert_eq!(Scanner::new(matrix(1, vec![80]), 1000, 0).err(), Some(ScanError::NoConcurrency));
}

#[test]
fn engine_starts_with_a_full_pool() {
    let mut scanner = Scanner::new(matrix(2, vec![22, 80, 443]), 1500, 4).unwrap();
    assert_eq!(scanner.timeout(), 1500);
    assert_eq!(scanner.concurrency(), 4);
    assert_eq!(scanner.total(), 6);
    assert_eq!(scanner.outstanding(), 0);
    assert!(!scanner.is_done());
    let action = scanner.run(ScanEvent::Start).unwrap();
    let launched: Vec<u128> = action.launch.iter().map(|j| j.index).collect();
    assert_eq!(launched, vec![0, 1, 2, 3]);
    assert_eq!(action.launch[3].port, 22);
    assert_eq!(action.launch[3].label, "10.0.0.1");
    assert_eq!(action.result, None);
    assert!(!action.done);
    assert_eq!(scanner.outstanding(), 4);
    assert_eq!(scanner.finished(), 0);
}

#[test]
fn engine_with_more_room_than_jobs_launches_them_all() {
    let mut scanner = Scanner::new(matrix(1, vec![22, 80]), 1000, 65535).unwrap();
    let action = scanner.run(ScanEvent::Start).unwrap();
    assert_eq!(action.launch.len(), 2);
    assert_eq!(scanner.outstanding(), 2);
    let action = scanner.run(finished(1, ConnectOutcome::Connected)).unwrap();
    assert!(action.launch.is_empty());
    assert!(!action.done);
    assert_eq!(scanner.outstanding(), 1);
    let action = scanner.run(finished(0, ConnectOutcome::TimedOut)).unwrap();
    assert!(action.launch.is_empty());
    assert!(action.done);
    assert!(scanner.is_done());
    assert_eq!(scanner.outstanding(), 0);
}

#[test]
fn engine_without_jobs_is_done_at_the_start() {
    let mut scanner = Scanner::new(matrix(2, vec![]), 1000, 8).unwrap();
    assert!(!scanner.is_done());
    let action = scanner.run(ScanEvent::Start).unwrap();
    assert_eq!(action, ScanAction { launch: vec![], result: None, done: true });
    assert!(scanner.is_done());
}

#[test]
fn engine_refuses_a_second_start() {
    let mut scanner = Scanner::new(matrix(1, vec![22, 80]), 1000, 1).unwrap();
    scanner.run(ScanEvent::Start).unwrap();
    assert_eq!(scanner.run(ScanEvent::Start), Err(ScanError::AlreadyStarted));
    assert_eq!(scanner.outstanding(), 1);
    assert_eq!(scanner.finished(), 0);
}

#[test]
fn engine_refuses_reports_for_jobs_not_in_flight() {
    let mut scanner = Scanner::new(matrix(1, vec![22, 80, 443]), 1000, 2).unwrap();
    assert_eq!(scanner.run(finished(0, ConnectOutcome::Connected)), Err(ScanError::NotInFlight));
    scanner.run(ScanEvent::Start).unwrap();
    assert_eq!(scanner.run(finished(2, ConnectOutcome::Connected)), Err(ScanError::NotInFlight));
    assert_eq!(scanner.run(finished(7, ConnectOutcome::Connected)), Err(ScanError::NotInFlight));
    assert!(scanner.run(finished(1, ConnectOutcome::Connected)).is_ok());
    assert_eq!(scanner.run(finished(1, ConnectOutcome::Connected)), Err(ScanError::NotInFlight));
    assert_eq!(scanner.finished(), 1);
    assert_eq!(scanner.outstanding(), 2);
}

#[test]
fn engine_admits_the_next_job_when_one_ends() {
    let mut scanner = Scanner::new(matrix(1, vec![22, 80, 443]), 1000, 2).unwrap();
    scanner.run(ScanEvent::Start).unwrap();
    let action = scanner.run(finished(1, ConnectOutcome::Refused)).unwrap();
    assert_eq!(
        action.launch,
        vec![ScanJob { index: 2, ip: IpAddress::v4(10, 0, 0, 0), port: 443, label: "10.0.0.0".to_string() }]
    );
    assert_eq!(
        action.result,
        Some(ScanResult { label: "10.0.0.0".to_string(), port: 80, open: false, service: None })
    );
    assert!(!action.done);
}

#[test]
fn engine_never_exceeds_its_cap_and_reports_every_job_once() {
    let jobs: u128 = 10;
    let cap: usize = 3;
    let mut scanner = Scanner::new(matrix(5, vec![22, 80]), 1000, cap).unwrap();
    let mut in_flight: Vec<u128> = Vec::new();
    let mut reported: Vec<(String, u16)> = Vec::new();
    let mut launched: Vec<u128> = Vec::new();
    let action = scanner.run(ScanEvent::Start).unwrap();
    for job in &action.launch {
        in_flight.push(job.index);
        launched.push(job.index);
    }
    assert_eq!(in_flight.len(), cap);
    let mut turn = 0;
    let mut done = action.done;
    while !in_flight.is_empty() {
        assert!(!done);
        assert!(scanner.outstanding() <= cap);
        assert_eq!(scanner.outstanding(), in_flight.len());
        let job = in_flight.remove((turn * 7 + 1) % in_flight.len());
        turn += 1;
        let action = scanner.run(finished(job, ConnectOutcome::Connected)).unwrap();
        let result = action.result.unwrap();
        reported.push((result.label, result.port));
        for job in &action.launch {
            in_flight.push(job.index);
            launched.push(job.index);
        }
        assert!(in_flight.len() <= cap);
        assert_eq!(in_flight.len() as u128, cap.min((jobs - scanner.finished()) as usize) as u128);
        done = action.done;
    }
    assert!(done);
    assert!(scanner.is_done());
    assert_eq!(scanner.finished(), jobs);
    assert_eq!(launched, (0..jobs).collect::<Vec<u128>>());
    assert_eq!(reported.len() as u128, jobs);
    let mut distinct = reported.clone();
    distinct.sort();
    distinct.dedup();
    assert_eq!(distinct.len() as u128, jobs);
}

#[test]
fn refused_and_timed_out_attempts_are_closed() {
    assert!(is_port_open(ConnectOutcome::Connected));
    assert!(!is_port_open(ConnectOutcome::TimedOut));
    assert!(!is_port_open(ConnectOutcome::Refused));
    let scanner = Scanner::new(matrix(1, vec![22, 80]), 1000, 2).unwrap();
    assert!(!scanner.scan_addr(0, ConnectOutcome::Refused).unwrap().open);
    assert!(!scanner.scan_addr(0, ConnectOutcome::TimedOut).unwrap().open);
    assert!(scanner.scan_addr(0, ConnectOutcome::Connected).unwrap().open);
    assert_eq!(scanner.scan_addr(2, ConnectOutcome::Connected), None);
}

#[test]
fn results_are_annotated_from_the_table() {
    let mut scanner = Scanner::new(matrix(1, vec![22, 8080]), 1000, 2).unwrap().annotated(names());
    assert_eq!(
        scanner.scan_addr(0, ConnectOutcome::Connected),
        Some(ScanResult {
            label: "10.0.0.0".to_string(),
            port: 22,
            open: true,
            service: Some("ssh".to_string())
        })
    );
    scanner.run(ScanEvent::Start).unwrap();
    let action = scanner.run(finished(1, ConnectOutcome::Connected)).unwrap();
    assert_eq!(
        action.result,
        Some(ScanResult {
            label: "10.0.0.0".to_string(),
            port: 8080,
            open: true,
            service: Some("unknown".to_string())
        })
    );
}

#[test]
fn open_port_line_is_aligned() {
    let result =
        ScanResult { label: "10.0.0.1".to_string(), port: 80, open: true, service: Some("http".to_string()) };
    assert_eq!(format_result(&result, 11, 5), Some("10.0.0.1    80    http".to_string()));
    assert_eq!(format_result(&result, 8, 2), Some("10.0.0.1 80 http".to_string()));
    assert_eq!(format_result(&result, 0, 0), Some("10.0.0.1 80 http".to_string()));
    assert_eq!(format!("{:11} {:<5} {}", "10.0.0.1", 80, "http"), "10.0.0.1    80    http");
}

#[test]
fn closed_port_gives_no_line() {
    let result =
        ScanResult { label: "10.0.0.1".to_string(), port: 80, open: false, service: Some("http".to_string()) };
    assert_eq!(format_result(&result, 11, 5), None);
}

#[test]
fn unannotated_line_is_the_label() {
    let result = ScanResult { label: "example.com".to_string(), port: 443, open: true, service: None };
    assert_eq!(format_result(&result, 20, 5), Some("example.com".to_string()));
}

#[test]
fn reporter_ends_with_the_last_result() {
    let open = ScanResult { label: "h".to_string(), port: 22, open: true, service: Some("ssh".to_string()) };
    let closed = ScanResult { label: "h".to_string(), port: 23, open: false, service: Some("telnet".to_string()) };
    let mut reporter = Reporter::new(3, 3, 2);
    assert!(!reporter.finished());
    assert_eq!(reporter.report(&closed), None);
    assert!(!reporter.finished());
    assert_eq!(reporter.report(&open), Some("h   22 ssh".to_string()));
    assert!(!reporter.finished());
    assert_eq!(reporter.report(&open), Some("h   22 ssh".to_string()));
    assert!(reporter.finished());
    assert_eq!(reporter.report(&open), None);
    assert!(reporter.finished());
    assert!(Reporter::new(0, 0, 0).finished());
}

#[test]
fn batch_is_never_larger_than_the_job_count() {
    assert_eq!(batch_size(10, 4096), 10);
    assert_eq!(batch_size(4096, 4096), 4096);
    assert_eq!(batch_size(100_000, 4096), 4096);
    assert_eq!(batch_size(0, 4096), 0);
    assert_eq!(batch_size(u128::MAX, usize::MAX), usize::MAX);
}

#[test]
fn batch_is_clamped_below_the_descriptor_limit() {
    assert_eq!(clamp_batch_size(4096, Some(1024)), 924);
    assert_eq!(clamp_batch_size(500, Some(1024)), 500);
    assert_eq!(clamp_batch_size(924, Some(1024)), 924);
    assert_eq!(clamp_batch_size(925, Some(1024)), 924);
    assert_eq!(clamp_batch_size(4096, None), 4096);
    assert_eq!(clamp_batch_size(4096, Some(100)), 0);
    assert_eq!(clamp_batch_size(4096, Some(99)), 4096);
    assert_eq!(clamp_batch_size(4096, Some(u64::MAX)), 4096);
}

#[test]
fn adjusted_batch_never_grows() {
    assert!(adjust_batch_size(65535) <= 65535);
    assert_eq!(adjust_batch_size(0), 0);
}
