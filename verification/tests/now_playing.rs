use radio::bridge::apply_event;
use radio::engine::MpvEvent;

fn property_change(payload: &str) -> MpvEvent {
    MpvEvent::PropertyChange {
        name: "metadata".to_string(),
        change: payload.to_string(),
        reply_userdata: 0,
    }
}

#[test]
fn title_field_overwrites_now_playing() {
    let mut now = String::new();
    apply_event(&mut now, &property_change("{\"icy-title\": \"Song X\"}"));
    assert_eq!(now, "Song X");
}

#[test]
fn newer_title_wins() {
    let mut now = String::new();
    apply_event(&mut now, &property_change("{\"icy-title\": \"First\"}"));
    apply_event(&mut now, &property_change("{\"icy-title\": \"Second\"}"));
    assert_eq!(now, "Second");
}

#[test]
fn payload_without_title_keeps_now_playing() {
    let mut now = "Song X".to_string();
    apply_event(&mut now, &property_change("{\"icy-name\": \"Radio\"}"));
    assert_eq!(now, "Song X");
}

#[test]
fn malformed_payload_keeps_now_playing() {
    let mut now = "Song X".to_string();
    apply_event(&mut now, &property_change("not json at all"));
    assert_eq!(now, "Song X");
}

#[test]
fn non_string_title_keeps_now_playing() {
    let mut now = "Song X".to_string();
    apply_event(&mut now, &property_change("{\"icy-title\": 5}"));
    assert_eq!(now, "Song X");
}

#[test]
fn other_events_keep_now_playing() {
    let mut now = "Song X".to_string();
    apply_event(&mut now, &MpvEvent::Pause);
    apply_event(&mut now, &MpvEvent::FileLoaded);
    apply_event(&mut now, &MpvEvent::MetadataUpdate);
    assert_eq!(now, "Song X");
}
