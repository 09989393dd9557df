use admin_gluster::config::Args;
use admin_gluster::error::{CollectError, FailureScope};
use admin_gluster::matcher::StatsFileEntry;
use admin_gluster::scanner::{
    host_name, initialize_brick_scanner, BrickScanner, LoopAction, LoopEvent, LoopState,
};

fn no_args() -> Args {
    Args {
        influx_host: None,
        influx_port: None,
        influx_username: None,
        influx_password: None,
        influx_url: None,
        influx_database: None,
    }
}

fn scanner(interval: u64) -> BrickScanner {
    initialize_brick_scanner(no_args(), interval, "node1").unwrap()
}

fn entry(raw_name: &str) -> Option<StatsFileEntry> {
    Some(StatsFileEntry {
        path: format!("/var/lib/glusterd/stats/{}", raw_name),
        raw_name: raw_name.to_string(),
    })
}

fn known() -> Vec<String> {
    vec!["vol1".to_string(), "vol2".to_string()]
}

#[test]
fn a_new_scanner_is_idle_and_waits_for_the_scan_interval_first() {
    let s = scanner(10);
    assert_eq!(s.state, LoopState::Idle);
    assert_eq!(s.hostname, "node1");
    assert_eq!(s.warmup_secs, 10);
    assert_eq!(s.interval_secs, 10);
    assert_eq!(s.config.base_url, "http://localhost:8086");
    assert_eq!(s.config.database, "glusterfs");
    assert_eq!(s.start(), LoopAction::Wait(10));
}

#[test]
fn there_is_no_scanner_for_a_host_without_a_name() {
    assert!(initialize_brick_scanner(no_args(), 10, "").is_none());
    assert!(initialize_brick_scanner(no_args(), 10, "\n").is_none());
    assert!(initialize_brick_scanner(no_args(), 10, " \t\r\n").is_none());
}

#[test]
fn the_line_end_of_the_host_identity_file_is_no_part_of_the_host_name() {
    let s = initialize_brick_scanner(no_args(), 10, "node1\n").unwrap();
    assert_eq!(s.hostname, "node1");
    let cycle = match s.begin_cycle(Some(vec![entry("glusterfsd_vol1.dump")]), &known()) {
        Ok(cycle) => cycle,
        Err(_) => panic!("the directory was listed"),
    };
    let (aggr, inter) = match s.collect_file(&cycle, 0, Some("{\"op_r\": 5.0}\n{\"op_w\": 3.0}")) {
        Ok(pair) => pair,
        Err(e) => panic!("the dump is well formed: {:?}", e),
    };
    let first = s.config.write_request(&aggr).body;
    let second = s.config.write_request(&inter).body;
    let tags = "gluster_brick,storage_type=gluster,type=brick,hostname=node1,volume_name=vol1,brick_name=vol1";
    assert_eq!(first, format!("{} op_r=5i {}", tags, cycle.timestamp));
    assert_eq!(second, format!("{} op_w=3i {}", tags, cycle.timestamp));
}

#[test]
fn host_name_takes_the_blanks_off_both_ends_only() {
    assert_eq!(host_name("node1\n"), "node1");
    assert_eq!(host_name("node1"), "node1");
    assert_eq!(host_name("  node1.example.org \r\n"), "node1.example.org");
    assert_eq!(host_name("\t\u{b}\u{c}a b\n\n"), "a b");
    assert_eq!(host_name(""), "");
    assert_eq!(host_name(" \n "), "");
    assert_eq!(host_name("x"), "x");
    assert_eq!(host_name(" x"), "x");
    assert_eq!(host_name("x "), "x");
}

#[test]
fn the_warm_up_delay_can_differ_from_the_scan_interval() {
    let s = scanner(10).with_warmup(3);
    assert_eq!(s.start(), LoopAction::Wait(3));
    assert_eq!(s.interval_secs, 10);
    assert_eq!(s.hostname, "node1");
    let mut s = s;
    assert_eq!(s.step(LoopEvent::TimerFired), LoopAction::Scan);
    assert_eq!(s.step(LoopEvent::CycleFinished(None)), LoopAction::Wait(10));
}

#[test]
fn the_timer_starts_a_scan_and_the_end_of_the_scan_starts_the_next_wait() {
    let mut s = scanner(7);
    assert_eq!(s.step(LoopEvent::TimerFired), LoopAction::Scan);
    assert_eq!(s.state, LoopState::Scanning);
    assert_eq!(s.step(LoopEvent::CycleFinished(None)), LoopAction::Wait(7));
    assert_eq!(s.state, LoopState::Idle);
    assert_eq!(s.step(LoopEvent::TimerFired), LoopAction::Scan);
    assert_eq!(s.state, LoopState::Scanning);
}

#[test]
fn a_listing_failure_does_not_stop_the_loop() {
    let mut s = scanner(10);
    assert_eq!(s.step(LoopEvent::TimerFired), LoopAction::Scan);
    let cycle = s.begin_cycle(None, &known());
    let error = match cycle {
        Ok(_) => panic!("the directory was not listed"),
        Err(e) => e,
    };
    assert_eq!(error, CollectError::DirectoryUnavailable);
    assert_eq!(error.scope(), FailureScope::Cycle);
    assert_eq!(s.step(LoopEvent::CycleFinished(Some(error))), LoopAction::Wait(10));
    assert_eq!(s.state, LoopState::Idle);
    assert_eq!(s.step(LoopEvent::TimerFired), LoopAction::Scan);
    assert_eq!(s.state, LoopState::Scanning);
}

#[test]
fn a_cycle_ends_in_idle_whatever_went_wrong() {
    for error in [
        CollectError::DirectoryUnavailable,
        CollectError::IoError,
        CollectError::MalformedDump,
        CollectError::DeliveryFailure,
    ] {
        let mut s = scanner(5);
        s.step(LoopEvent::TimerFired);
        assert_eq!(s.step(LoopEvent::CycleFinished(Some(error))), LoopAction::Wait(5));
        assert_eq!(s.state, LoopState::Idle);
    }
}

#[test]
fn an_event_that_does_not_belong_to_the_state_is_ignored() {
    let mut s = scanner(5);
    assert_eq!(s.step(LoopEvent::CycleFinished(None)), LoopAction::Ignore);
    assert_eq!(s.state, LoopState::Idle);
    s.step(LoopEvent::TimerFired);
    assert_eq!(s.step(LoopEvent::TimerFired), LoopAction::Ignore);
    assert_eq!(s.state, LoopState::Scanning);
}

#[test]
fn each_failure_is_confined_to_its_scope() {
    assert_eq!(CollectError::DirectoryUnavailable.scope(), FailureScope::Cycle);
    assert_eq!(CollectError::IoError.scope(), FailureScope::File);
    assert_eq!(CollectError::MalformedDump.scope(), FailureScope::File);
    assert_eq!(CollectError::DeliveryFailure.scope(), FailureScope::Write);
}

#[test]
fn a_cycle_holds_the_dumps_of_the_known_bricks() {
    let s = scanner(10);
    let listing = vec![
        entry("glusterfsd_vol1.dump"),
        None,
        entry("glusterfsd_vol2.dump"),
        entry("unrelated.txt"),
        entry("glusterfsd_vol9.dump"),
    ];
    let cycle = match s.begin_cycle(Some(listing), &known()) {
        Ok(cycle) => cycle,
        Err(_) => panic!("the directory was listed"),
    };
    assert_eq!(cycle.files.len(), 2);
    assert_eq!(cycle.files[0].identity.brick_name, "vol1");
    assert_eq!(cycle.files[1].identity.brick_name, "vol2");
    assert!(cycle.timestamp > 1_000_000_000);
}

#[test]
fn both_measurements_of_a_file_carry_the_time_of_the_cycle() {
    let s = scanner(10);
    let cycle = match s.begin_cycle(Some(vec![entry("glusterfsd_vol1.dump")]), &known()) {
        Ok(cycle) => cycle,
        Err(_) => panic!("the directory was listed"),
    };
    let content = "{\"gluster.brick.vol1.aggr.op_r\": 5.0, \"gluster.brick.vol1.aggr.op_w\": 3.0}\n{\"gluster.brick.vol1.inter.op_r\": 1.5}";
    let (aggr, inter) = match s.collect_file(&cycle, 0, Some(content)) {
        Ok(pair) => pair,
        Err(e) => panic!("the dump is well formed: {:?}", e),
    };
    assert_eq!(aggr.timestamp, cycle.timestamp);
    assert_eq!(inter.timestamp, cycle.timestamp);
    assert_eq!(aggr.timestamp, inter.timestamp);
    assert_eq!(aggr.fields.len(), 2);
    assert_eq!(aggr.fields.get(&"op_r".to_string()), Some(5));
    assert_eq!(aggr.fields.get(&"op_w".to_string()), Some(3));
    assert_eq!(inter.fields.len(), 1);
    assert_eq!(inter.fields.get(&"op_r".to_string()), Some(1));
    for m in [&aggr, &inter] {
        assert_eq!(m.name, "gluster_brick");
        assert_eq!(m.tags.len(), 5);
        assert_eq!(m.tags[2].value, "node1");
        assert_eq!(m.tags[3].value, "vol1");
        assert_eq!(m.tags[4].value, "vol1");
    }
}

#[test]
fn a_file_that_fails_is_reported_and_the_next_one_still_works() {
    let s = scanner(10);
    let listing = vec![entry("glusterfsd_vol1.dump"), entry("glusterfsd_vol2.dump")];
    let cycle = match s.begin_cycle(Some(listing), &known()) {
        Ok(cycle) => cycle,
        Err(_) => panic!("the directory was listed"),
    };
    assert!(matches!(s.collect_file(&cycle, 0, None), Err(CollectError::IoError)));
    assert!(matches!(
        s.collect_file(&cycle, 0, Some("{\"a\": 1}")),
        Err(CollectError::MalformedDump)
    ));
    assert!(s.collect_file(&cycle, 1, Some("{\"a\": 1}\n{\"b\": 2}")).is_ok());
}

#[test]
fn the_entry_points_are_reachable_from_the_crate_root() {
    let args = admin_gluster::Args {
        influx_host: None,
        influx_port: None,
        influx_username: None,
        influx_password: None,
        influx_url: Some("http://influx:8086".to_string()),
        influx_database: None,
    };
    let s = admin_gluster::initialize_brick_scanner(args, 30, "node9").unwrap();
    assert_eq!(s.config.base_url, "http://influx:8086");
    assert_eq!(s.start(), LoopAction::Wait(30));
    let request = admin_gluster::record_measurement(
        &admin_gluster::counters::CounterSet::new(),
        "",
        "",
        "http://influx:8086",
        "glusterfs",
        "node9",
        "vol1",
        "vol1",
        5,
    );
    assert_eq!(request.url, "http://influx:8086/write?db=glusterfs&precision=s");
    assert_eq!(
        request.body,
        "gluster_brick,storage_type=gluster,type=brick,hostname=node9,volume_name=vol1,brick_name=vol1 5"
    );
}
