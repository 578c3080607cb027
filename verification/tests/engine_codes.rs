use radio::engine::CMpvEventId;
use radio::engine::MpvError;
use radio::engine::MpvEvent;
use radio::engine::MpvFormat;

#[test]
fn error_codes_decode() {
    assert_eq!(MpvError::from_code(0), MpvError::Success);
    assert_eq!(MpvError::from_code(-12), MpvError::Command);
    assert_eq!(MpvError::from_code(-13), MpvError::LoadingFailed);
    assert_eq!(MpvError::from_code(-20), MpvError::Generic);
    assert_eq!(MpvError::from_code(-999), MpvError::Fatal);
    assert_eq!(MpvError::from_code(1), MpvError::Fatal);
}

#[test]
fn error_success_test() {
    assert!(MpvError::from_code(0).is_success());
    assert!(!MpvError::from_code(-13).is_success());
}

#[test]
fn format_codes_encode() {
    assert_eq!(MpvFormat::NoneFormat.code(), 0);
    assert_eq!(MpvFormat::String.code(), 1);
    assert_eq!(MpvFormat::ByteArray.code(), 9);
}

#[test]
fn event_ids_decode() {
    assert_eq!(CMpvEventId::from_code(0), CMpvEventId::NoneEvent);
    assert_eq!(CMpvEventId::from_code(1), CMpvEventId::Shutdown);
    assert_eq!(CMpvEventId::from_code(22), CMpvEventId::PropertyChange);
    assert_eq!(CMpvEventId::from_code(25), CMpvEventId::Hook);
    assert_eq!(CMpvEventId::from_code(26), CMpvEventId::NoneEvent);
    assert_eq!(CMpvEventId::from_code(-1), CMpvEventId::NoneEvent);
}

#[test]
fn property_change_event_carries_payload() {
    let e = CMpvEventId::PropertyChange.to_event(
        "metadata".to_string(),
        "{\"icy-title\": \"Song X\"}".to_string(),
        7,
    );
    assert_eq!(
        e,
        MpvEvent::PropertyChange {
            name: "metadata".to_string(),
            change: "{\"icy-title\": \"Song X\"}".to_string(),
            reply_userdata: 7,
        }
    );
}

#[test]
fn plain_event_ids_drop_payload() {
    let e = CMpvEventId::Pause.to_event("x".to_string(), "y".to_string(), 1);
    assert_eq!(e, MpvEvent::Pause);
    let e2 = CMpvEventId::NoneEvent.to_event(String::new(), String::new(), 0);
    assert_eq!(e2, MpvEvent::NoneEvent);
}
