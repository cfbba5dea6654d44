use smbscan::model::{Args, Credentials, ScanResult, DEFAULT_TIMEOUT_SECS, DEFAULT_WORKERS};
use smbscan::scan::{select_alive, Action, Dispatcher, ResultLog};

fn strings(v: &[&str]) -> Vec<String> {
    v.iter().map(|s| s.to_string()).collect()
}

fn record(share: &str) -> ScanResult {
    ScanResult {
        server: "h".to_string(),
        port: 445,
        hostname: "h".to_string(),
        share_name: share.to_string(),
        permissions: "--".to_string(),
        comment: String::new(),
    }
}

#[test]
fn closed_host_is_not_alive() {
    let hosts = strings(&["203.0.113.5"]);
    assert!(select_alive(&hosts, &vec![false]).is_empty());
    assert!(select_alive(&hosts, &vec![false]).is_empty());
}

#[test]
fn alive_hosts_are_those_that_answered() {
    let hosts = strings(&["a", "b", "c", "d"]);
    assert_eq!(select_alive(&hosts, &vec![true, false, true, false]), strings(&["a", "c"]));
    assert_eq!(select_alive(&hosts, &vec![true; 4]), hosts);
}

#[test]
fn dispatch_never_exceeds_limit() {
    let mut d = Dispatcher::new(5, 2);
    let mut started = Vec::new();
    loop {
        match d.next_action() {
            Action::Start(i) => started.push(i),
            Action::Wait => d.finished(),
            Action::Done => break,
        }
        assert!(d.running <= 2);
    }
    assert_eq!(started, vec![0, 1, 2, 3, 4]);
    assert!(d.is_done());
}

#[test]
fn dispatch_order_of_actions() {
    let mut d = Dispatcher::new(3, 2);
    assert_eq!(d.next_action(), Action::Start(0));
    assert_eq!(d.next_action(), Action::Start(1));
    assert_eq!(d.next_action(), Action::Wait);
    d.finished();
    assert_eq!(d.next_action(), Action::Start(2));
    assert_eq!(d.next_action(), Action::Wait);
    d.finished();
    d.finished();
    assert_eq!(d.next_action(), Action::Done);
}

#[test]
fn dispatch_of_nothing_is_done() {
    let mut d = Dispatcher::new(0, 128);
    assert!(d.is_done());
    assert_eq!(d.next_action(), Action::Done);
}

#[test]
fn log_appends_in_order() {
    let mut log = ResultLog::new();
    log.append(&vec![record("a"), record("b")]);
    log.append(&vec![]);
    log.append(&vec![record("c")]);
    let names: Vec<_> = log.results.iter().map(|r| r.share_name.clone()).collect();
    assert_eq!(names, strings(&["a", "b", "c"]));
}

#[test]
fn credentials_default_to_empty() {
    let args = Args {
        username: Some("alice".to_string()),
        password: None,
        domain: None,
        target: "10.0.0.1".to_string(),
        workers: DEFAULT_WORKERS,
        timeout: DEFAULT_TIMEOUT_SECS,
    };
    let c = Credentials::from_args(&args);
    assert_eq!(c.username, "alice");
    assert_eq!(c.password, "");
    assert_eq!(c.domain, "");
    assert_eq!(DEFAULT_WORKERS, 128);
    assert_eq!(DEFAULT_TIMEOUT_SECS, 2);
}
