use radio::player::Player;
use radio::player::Stream;

fn sample_player() -> Player {
    let mut p = Player::default();
    p.add("A".to_string(), "http://x/a".to_string());
    p.add("B".to_string(), "http://x/b".to_string());
    p.add("C".to_string(), "http://x/c".to_string());
    p
}

#[test]
fn stream_new_packs_fields() {
    let s = Stream::new(7, "Arrow".to_string(), "http://stream/arrow".to_string());
    assert_eq!(s.id, 7);
    assert_eq!(s.name, "Arrow");
    assert_eq!(s.url, "http://stream/arrow");
}

#[test]
fn add_assigns_one_and_two() {
    let mut p = Player::default();
    let first_id = p.add("A".to_string(), "http://x/a".to_string()).id;
    let second_id = p.add("B".to_string(), "http://x/b".to_string()).id;
    assert_eq!(first_id, 1);
    assert_eq!(second_id, 2);
}

#[test]
fn ids_never_reused_across_deletions() {
    let mut p = Player::default();
    let a = p.add("A".to_string(), "http://x/a".to_string()).id;
    let b = p.add("B".to_string(), "http://x/b".to_string()).id;
    assert!(p.delete(b).is_some());
    let c = p.add("C".to_string(), "http://x/c".to_string()).id;
    assert!(a < b && b < c);
    assert_eq!(c, 3);
    assert!(p.get_playlist().iter().all(|s| s.id != b) || c != b);
}

#[test]
fn two_adds_keep_both_entries_with_distinct_ids() {
    let mut p = Player::default();
    let x = p.add("X".to_string(), "http://x/x".to_string()).id;
    let y = p.add("Y".to_string(), "http://x/y".to_string()).id;
    assert_ne!(x, y);
    let list = p.get_playlist();
    assert_eq!(list.len(), 2);
    assert_eq!(list[0].name, "X");
    assert_eq!(list[1].name, "Y");
}

#[test]
fn play_unknown_id_reports_not_found_and_changes_nothing() {
    let mut p = sample_player();
    let names_before: Vec<String> = p.get_playlist().iter().map(|s| s.name.clone()).collect();
    let current_before = p.cfg.current;
    let last_id_before = p.cfg.last_id;
    assert!(p.play(99).is_err());
    let names_after: Vec<String> = p.get_playlist().iter().map(|s| s.name.clone()).collect();
    assert_eq!(names_before, names_after);
    assert_eq!(p.cfg.current, current_before);
    assert_eq!(p.cfg.last_id, last_id_before);
}

#[test]
fn play_moves_cursor_to_position_of_id() {
    let mut p = sample_player();
    let played = p.play(3).expect("id 3 exists").name.clone();
    assert_eq!(played, "C");
    assert_eq!(p.cfg.current, 2);
    assert_eq!(p.get_current().expect("cursor valid").id, 3);
}

#[test]
fn delete_returns_removed_stream() {
    let mut p = sample_player();
    let removed = p.delete(2).expect("id 2 exists");
    assert_eq!(removed.name, "B");
    let list = p.get_playlist();
    assert_eq!(list.len(), 2);
    assert_eq!(list[0].id, 1);
    assert_eq!(list[1].id, 3);
}

#[test]
fn delete_unknown_id_returns_nothing() {
    let mut p = sample_player();
    assert!(p.delete(42).is_none());
    assert_eq!(p.get_playlist().len(), 3);
}

#[test]
fn advance_on_empty_playlist_is_noop() {
    let mut p = Player::default();
    assert!(p.next().is_none());
    assert!(p.prev().is_none());
    assert_eq!(p.cfg.current, 0);
    assert_eq!(p.cfg.last_id, 0);
}

#[test]
fn forward_full_cycle_returns_to_start() {
    let mut p = sample_player();
    p.play(2).expect("id 2 exists");
    let start = p.get_current().expect("cursor valid").id;
    for _ in 0..p.get_playlist().len() {
        p.next();
    }
    assert_eq!(p.get_current().expect("cursor valid").id, start);
}

#[test]
fn backward_inverts_forward_from_every_position() {
    for start in 0..3 {
        let mut p = sample_player();
        p.cfg.current = start;
        p.next();
        p.prev();
        assert_eq!(p.cfg.current, start);
        p.prev();
        p.next();
        assert_eq!(p.cfg.current, start);
    }
}

#[test]
fn backward_from_origin_wraps_to_end() {
    let mut p = sample_player();
    let last = p.prev().expect("playlist non-empty").id;
    assert_eq!(last, 3);
    assert_eq!(p.cfg.current, 2);
}

#[test]
fn get_current_is_empty_when_cursor_past_end() {
    let mut p = sample_player();
    p.cfg.current = 2;
    p.delete(3).expect("id 3 exists");
    assert!(p.get_current().is_none());
}

#[test]
fn scenario_add_skip_remove_wrap() {
    let mut p = Player::default();
    let a = p.add("A".to_string(), "http://x/a".to_string()).id;
    let b = p.add("B".to_string(), "http://x/b".to_string()).id;
    assert_eq!(a, 1);
    assert_eq!(b, 2);
    p.play(1).expect("id 1 exists");
    assert_eq!(p.get_current().expect("cursor valid").id, 1);
    let skipped = p.next().expect("playlist non-empty").id;
    assert_eq!(skipped, 2);
    let removed = p.delete(1).expect("id 1 exists");
    assert_eq!(removed.id, 1);
    let list = p.get_playlist();
    assert_eq!(list.len(), 1);
    assert_eq!(list[0].id, 2);
    p.next();
    assert_eq!(p.cfg.current, 0);
    assert_eq!(p.get_current().expect("cursor valid").id, 2);
}
