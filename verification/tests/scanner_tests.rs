use record_harvester::backoff::{decide, BackoffDecision, PACE_MS, STALL_MS};
use record_harvester::outcome::FetchOutcome;
use record_harvester::record::Record;
use record_harvester::scanner::{plan_scans, ScanAction, ScanDirection, ScanPhase, Scanner};
use record_harvester::sink::persist;

fn cs(s: &str) -> Vec<char> {
    s.chars().collect()
}

fn record_with_id(id: u64) -> Record {
    Record {
        id: Some(id),
        steam_id: Some(cs("STEAM_1:1:161178172")),
        player_name: Some(cs("player")),
        map_id: Some(200),
        map_name: Some(cs("kz_map")),
        stage: Some(0),
        mode: Some(cs("kz_timer")),
        time: Some(cs("12.34")),
        teleports: Some(3),
        server_id: Some(1),
        server_name: Some(cs("server")),
        points: Some(500),
        replay_id: Some(0),
        created_on: Some(cs("2022-01-01T00:00:00")),
        updated_on: Some(cs("2022-01-01T00:00:00")),
    }
}

#[test]
fn backoff_policy_by_outcome() {
    let found = FetchOutcome::Found(record_with_id(1));
    assert_eq!(decide(&found), BackoffDecision::Advance);
    let err = FetchOutcome::TransportError(cs("connection refused"));
    assert_eq!(decide(&err), BackoffDecision::Advance);
    assert_eq!(decide(&FetchOutcome::NotFound), BackoffDecision::StallAndRetry(STALL_MS));
}

#[test]
fn forward_scan_visits_increasing_ids() {
    let mut s = Scanner::forward(100);
    let mut visited: Vec<u32> = Vec::new();
    for k in 0..3u64 {
        assert!(!s.is_finished());
        visited.push(s.current_id());
        let act = s.on_outcome(FetchOutcome::Found(record_with_id(100 + k)));
        assert!(matches!(act, ScanAction::Persist(_, PACE_MS)));
    }
    assert_eq!(visited, vec![100, 101, 102]);
    assert!(!s.is_finished());
    assert_eq!(s.current_id(), 103);
}

#[test]
fn backward_scan_visits_down_to_zero_and_stops() {
    let mut s = Scanner::backward(5);
    let mut visited: Vec<u32> = Vec::new();
    while !s.is_finished() {
        visited.push(s.current_id());
        let act = s.on_outcome(FetchOutcome::Found(record_with_id(7)));
        assert!(matches!(act, ScanAction::Persist(_, _)));
    }
    assert_eq!(visited, vec![4, 3, 2, 1, 0]);
}

#[test]
fn backward_scan_from_zero_is_born_finished() {
    let s = Scanner::backward(0);
    assert!(s.is_finished());
}

#[test]
fn not_found_holds_the_position() {
    let mut s = Scanner::forward(42);
    let mut out: Vec<char> = Vec::new();
    for _ in 0..4 {
        assert_eq!(s.current_id(), 42);
        let act = s.on_outcome(FetchOutcome::NotFound);
        assert_eq!(act, ScanAction::Stall(STALL_MS));
        s.resume();
    }
    assert_eq!(s.current_id(), 42);
    match s.on_outcome(FetchOutcome::Found(record_with_id(42))) {
        ScanAction::Persist(r, _) => persist(&mut out, &r).expect("persists"),
        other => panic!("expected a persist action, got {:?}", other),
    };
    let text: String = out.iter().collect();
    assert_eq!(text.matches('\n').count(), 1);
    assert!(text.contains("\"id\":42,"));
    assert_eq!(s.current_id(), 43);
}

#[test]
fn transport_error_advances_without_output() {
    let mut s = Scanner::backward(10);
    assert_eq!(s.current_id(), 9);
    let act = s.on_outcome(FetchOutcome::TransportError(cs("timeout")));
    assert_eq!(act, ScanAction::Skip(cs("timeout"), PACE_MS));
    assert_eq!(s.current_id(), 8);
    assert!(!s.is_finished());
}

#[test]
fn forward_scan_ends_at_the_top_of_the_id_space() {
    let mut s = Scanner::forward(u32::MAX);
    let act = s.on_outcome(FetchOutcome::TransportError(cs("boom")));
    assert!(matches!(act, ScanAction::Skip(_, _)));
    assert!(s.is_finished());
}

#[test]
fn plan_scans_builds_both_directions() {
    let (fwd, bwd) = plan_scans(100, 5);
    assert_eq!(fwd.phase, ScanPhase::Running);
    assert_eq!(fwd.pos, 100);
    assert_eq!(fwd.dir, ScanDirection::Forward);
    assert_eq!(bwd.phase, ScanPhase::Running);
    assert_eq!(bwd.pos, 4);
    assert_eq!(bwd.dir, ScanDirection::Backward);
}

#[test]
fn interleaved_scans_share_one_output() {
    let (mut fwd, mut bwd) = plan_scans(10, 3);
    let mut out: Vec<char> = Vec::new();
    let mut expected: Vec<u64> = Vec::new();
    for _ in 0..3 {
        let fid = fwd.current_id() as u64;
        match fwd.on_outcome(FetchOutcome::Found(record_with_id(fid))) {
            ScanAction::Persist(r, _) => {
                persist(&mut out, &r).expect("persists");
                expected.push(fid);
            },
            other => panic!("expected a persist action, got {:?}", other),
        }
        let bid = bwd.current_id() as u64;
        match bwd.on_outcome(FetchOutcome::Found(record_with_id(bid))) {
            ScanAction::Persist(r, _) => {
                persist(&mut out, &r).expect("persists");
                expected.push(bid);
            },
            other => panic!("expected a persist action, got {:?}", other),
        }
    }
    assert!(bwd.is_finished());
    assert!(!fwd.is_finished());

    let text: String = out.iter().collect();
    let lines: Vec<&str> = text.split_terminator('\n').collect();
    assert_eq!(lines.len(), 6);
    let mut seen: Vec<u64> = Vec::new();
    for line in lines {
        let v: serde_json::Value = serde_json::from_str(line).expect("well-formed json line");
        seen.push(v["id"].as_u64().expect("id present"));
    }
    assert_eq!(seen, expected);
    assert_eq!(seen, vec![10, 2, 11, 1, 12, 0]);
}
