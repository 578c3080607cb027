use radio::player::Player;

fn sample_player() -> Player {
    let mut p = Player::default();
    p.add("A".to_string(), "http://x/a".to_string());
    p.add("B".to_string(), "http://x/b".to_string());
    p
}

#[test]
fn encode_has_exact_text() {
    let mut p = sample_player();
    p.play(2).expect("id 2 exists");
    assert_eq!(p.to_config_text(), "1;2;1,1:A,10:http://x/a;2,1:B,10:http://x/b;");
}

#[test]
fn encode_of_empty_store() {
    let p = Player::default();
    assert_eq!(p.to_config_text(), "0;0;");
}

#[test]
fn round_trip_reproduces_streams_and_cursor() {
    let mut p = sample_player();
    p.play(2).expect("id 2 exists");
    let text = p.to_config_text();
    let q = Player::from_config_text(&text).expect("own encoding parses");
    assert_eq!(q.cfg.current, p.cfg.current);
    assert_eq!(q.cfg.last_id, p.cfg.last_id);
    assert_eq!(q.get_playlist().len(), p.get_playlist().len());
    for (a, b) in p.get_playlist().iter().zip(q.get_playlist().iter()) {
        assert_eq!(a.id, b.id);
        assert_eq!(a.name, b.name);
        assert_eq!(a.url, b.url);
    }
}

#[test]
fn round_trip_keeps_unicode_names() {
    let mut p = Player::default();
    p.add("Véra: 100% Ωμέγα".to_string(), "http://x/ω?a=1&b=2".to_string());
    let text = p.to_config_text();
    let q = Player::from_config_text(&text).expect("own encoding parses");
    assert_eq!(q.get_playlist()[0].name, "Véra: 100% Ωμέγα");
    assert_eq!(q.get_playlist()[0].url, "http://x/ω?a=1&b=2");
}

#[test]
fn round_trip_keeps_delimiters_inside_strings() {
    let mut p = Player::default();
    p.add("a;b,c:d;2,3:".to_string(), "http://x/;".to_string());
    let text = p.to_config_text();
    let q = Player::from_config_text(&text).expect("own encoding parses");
    assert_eq!(q.get_playlist()[0].name, "a;b,c:d;2,3:");
    assert_eq!(q.get_playlist()[0].url, "http://x/;");
}

#[test]
fn load_recomputes_counter_as_largest_id() {
    let loaded = Player::from_config_text("0;2;7,1:A,1:u;3,1:B,1:v;").expect("record parses");
    assert_eq!(loaded.cfg.last_id, 7);
    assert_eq!(loaded.get_playlist()[0].id, 7);
    assert_eq!(loaded.get_playlist()[1].id, 3);
}

#[test]
fn load_of_empty_record() {
    let loaded = Player::from_config_text("0;0;").expect("record parses");
    assert_eq!(loaded.get_playlist().len(), 0);
    assert_eq!(loaded.cfg.current, 0);
    assert_eq!(loaded.cfg.last_id, 0);
}

#[test]
fn malformed_records_are_rejected() {
    assert!(Player::from_config_text("").is_none());
    assert!(Player::from_config_text("garbage").is_none());
    assert!(Player::from_config_text("1;2;").is_none());
    assert!(Player::from_config_text("1;1;1,1:A,3:ab;").is_none());
    assert!(Player::from_config_text("0;1;1,1:A,1:u; trailing").is_none());
    assert!(Player::from_config_text("0;1;1,1:A,1:u").is_none());
    assert!(Player::from_config_text(";0;").is_none());
}

#[test]
fn oversized_numbers_are_rejected() {
    assert!(Player::from_config_text("99999999999999999999999999;0;").is_none());
    assert!(Player::from_config_text("0;99999999999999999999999999;").is_none());
}

#[test]
fn duplicate_ids_are_rejected() {
    assert!(Player::from_config_text("0;2;1,1:A,1:u;1,1:B,1:v;").is_none());
}
