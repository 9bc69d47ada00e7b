use record_harvester::codec::decode_record;
use record_harvester::record::Record;
use record_harvester::sink::{persist, render_line, PersistError};

fn cs(s: &str) -> Vec<char> {
    s.chars().collect()
}

fn full_record() -> Record {
    Record {
        id: Some(16512337),
        steam_id: Some(cs("STEAM_1:1:161178172")),
        player_name: Some(cs("AlphaKeks")),
        map_id: Some(992),
        map_name: Some(cs("kz_lionharder")),
        stage: Some(0),
        mode: Some(cs("kz_simple")),
        time: Some(cs("1763.53")),
        teleports: Some(0),
        server_id: Some(1485),
        server_name: Some(cs("Church of Colton")),
        points: Some(1000),
        replay_id: Some(268794),
        created_on: Some(cs("2022-07-11T13:48:24")),
        updated_on: Some(cs("2022-07-11T13:48:24")),
    }
}

fn empty_record() -> Record {
    Record {
        id: None,
        steam_id: None,
        player_name: None,
        map_id: None,
        map_name: None,
        stage: None,
        mode: None,
        time: None,
        teleports: None,
        server_id: None,
        server_name: None,
        points: None,
        replay_id: None,
        created_on: None,
        updated_on: None,
    }
}

fn line_string(r: &Record) -> String {
    render_line(r).expect("serializable").iter().collect()
}

#[test]
fn full_record_renders_exactly() {
    let expected = "{\"id\":16512337,\"steam_id\":\"STEAM_1:1:161178172\",\"player_name\":\"AlphaKeks\",\"map_id\":992,\"map_name\":\"kz_lionharder\",\"stage\":0,\"mode\":\"kz_simple\",\"time\":1763.53,\"teleports\":0,\"server_id\":1485,\"server_name\":\"Church of Colton\",\"points\":1000,\"replay_id\":268794,\"created_on\":\"2022-07-11T13:48:24\",\"updated_on\":\"2022-07-11T13:48:24\"}\n";
    assert_eq!(line_string(&full_record()), expected);
}

#[test]
fn empty_record_renders_all_null() {
    let expected = "{\"id\":null,\"steam_id\":null,\"player_name\":null,\"map_id\":null,\"map_name\":null,\"stage\":null,\"mode\":null,\"time\":null,\"teleports\":null,\"server_id\":null,\"server_name\":null,\"points\":null,\"replay_id\":null,\"created_on\":null,\"updated_on\":null}\n";
    assert_eq!(line_string(&empty_record()), expected);
}

#[test]
fn full_record_round_trips() {
    let r = full_record();
    let line = render_line(&r).expect("serializable");
    let body: Vec<char> = line[..line.len() - 1].to_vec();
    let back = decode_record(&body).expect("decodes");
    assert_eq!(back, r);
}

#[test]
fn empty_record_round_trips() {
    let r = empty_record();
    let line = render_line(&r).expect("serializable");
    let body: Vec<char> = line[..line.len() - 1].to_vec();
    let back = decode_record(&body).expect("decodes");
    assert_eq!(back, r);
}

#[test]
fn escaped_text_round_trips() {
    let mut r = full_record();
    r.player_name = Some(cs("quote \" backslash \\ done"));
    r.server_name = Some(cs("\\\\\"\"tricky"));
    let line = render_line(&r).expect("serializable");
    let body: Vec<char> = line[..line.len() - 1].to_vec();
    let back = decode_record(&body).expect("decodes");
    assert_eq!(back, r);
}

#[test]
fn numeric_bounds_round_trip() {
    let mut r = empty_record();
    r.id = Some(u64::MAX);
    r.points = Some(0);
    let line = render_line(&r).expect("serializable");
    let body: Vec<char> = line[..line.len() - 1].to_vec();
    let back = decode_record(&body).expect("decodes");
    assert_eq!(back, r);
}

#[test]
fn oversized_number_is_rejected() {
    let line = "{\"id\":18446744073709551616,\"steam_id\":null,\"player_name\":null,\"map_id\":null,\"map_name\":null,\"stage\":null,\"mode\":null,\"time\":null,\"teleports\":null,\"server_id\":null,\"server_name\":null,\"points\":null,\"replay_id\":null,\"created_on\":null,\"updated_on\":null}";
    let body: Vec<char> = line.chars().collect();
    assert!(decode_record(&body).is_none());
}

#[test]
fn trailing_garbage_is_rejected() {
    let r = empty_record();
    let mut line = render_line(&r).expect("serializable");
    line.pop();
    line.push('x');
    assert!(decode_record(&line).is_none());
}

#[test]
fn rendered_line_is_valid_json() {
    let s = line_string(&full_record());
    let v: serde_json::Value = serde_json::from_str(s.trim_end()).expect("valid json");
    assert_eq!(v["id"], serde_json::Value::from(16512337u64));
    assert_eq!(v["player_name"], serde_json::Value::from("AlphaKeks"));
    assert_eq!(v["time"], serde_json::Value::from(1763.53f64));
    assert!(v["stage"].is_u64());
    let s2 = line_string(&empty_record());
    let v2: serde_json::Value = serde_json::from_str(s2.trim_end()).expect("valid json");
    assert!(v2["id"].is_null());
    assert!(v2["updated_on"].is_null());
}

#[test]
fn control_character_is_serialization_error() {
    let mut r = full_record();
    r.player_name = Some(cs("line\nbreak"));
    match render_line(&r) {
        Err(PersistError::Serialization) => {},
        other => panic!("expected a serialization error, got {:?}", other),
    }
}

#[test]
fn bad_time_text_is_serialization_error() {
    for bad in ["", "abc", "12.", ".5", "1.2.3", "null", "-", "--1", "1e5"] {
        let mut r = full_record();
        r.time = Some(cs(bad));
        assert!(
            render_line(&r).is_err(),
            "time text {:?} should not serialize",
            bad
        );
    }
    for good in ["0", "1763.53", "-1.5", "007", "12345"] {
        let mut r = full_record();
        r.time = Some(cs(good));
        assert!(render_line(&r).is_ok(), "time text {:?} should serialize", good);
    }
}

#[test]
fn persist_appends_exactly_one_line() {
    let mut out: Vec<char> = Vec::new();
    let r = full_record();
    persist(&mut out, &r).expect("persists");
    let s: String = out.iter().collect();
    assert_eq!(s.matches('\n').count(), 1);
    assert!(s.ends_with('\n'));

    let before = out.len();
    let mut bad = full_record();
    bad.mode = Some(cs("tab\there"));
    assert_eq!(persist(&mut out, &bad), Err(PersistError::Serialization));
    assert_eq!(out.len(), before);
}
