use turtle_core::api::TurtleRequestError;
use turtle_core::registry::RobotRegistry;
use turtle_core::session::{
    decide_identity, get_os_label_payload, run_session, u128_simple_string, IdentityDecision,
    SocketEvent,
};

#[test]
fn session_fifo_with_scripted_robot() {
    // A scripted robot double answers each request in order; the i-th
    // submission must receive the i-th reply.
    let requests: Vec<String> = vec!["a".to_string(), "b".to_string(), "c".to_string()];
    let events = vec![
        SocketEvent::TextReply("ra".to_string()),
        SocketEvent::TextReply("rb".to_string()),
        SocketEvent::TextReply("rc".to_string()),
    ];
    let out = run_session(&requests, &events);
    assert_eq!(out.len(), 3);
    assert_eq!(out[0], Ok("ra".to_string()));
    assert_eq!(out[1], Ok("rb".to_string()));
    assert_eq!(out[2], Ok("rc".to_string()));
}

#[test]
fn session_closes_on_timeout() {
    let requests: Vec<String> = vec!["a".to_string(), "b".to_string(), "c".to_string()];
    let events = vec![
        SocketEvent::TextReply("ra".to_string()),
        SocketEvent::TimedOut,
        SocketEvent::TextReply("rc".to_string()),
    ];
    let out = run_session(&requests, &events);
    assert_eq!(out.len(), 3);
    assert_eq!(out[0], Ok("ra".to_string()));
    assert_eq!(out[1], Err(TurtleRequestError::TimeOut));
    assert_eq!(out[2], Err(TurtleRequestError::WsClosed));
}

#[test]
fn session_survives_non_text_frame() {
    let requests: Vec<String> = vec!["a".to_string(), "b".to_string()];
    let events = vec![
        SocketEvent::NonTextReply,
        SocketEvent::TextReply("rb".to_string()),
    ];
    let out = run_session(&requests, &events);
    assert_eq!(out[0], Err(TurtleRequestError::InvalidResponse));
    assert_eq!(out[1], Ok("rb".to_string()));
}

#[test]
fn session_close_frame_fails_current_and_later() {
    let requests: Vec<String> = vec!["a".to_string(), "b".to_string()];
    let events = vec![
        SocketEvent::CloseFrame,
        SocketEvent::TextReply("rb".to_string()),
    ];
    let out = run_session(&requests, &events);
    assert_eq!(out[0], Err(TurtleRequestError::WsClosed));
    assert_eq!(out[1], Err(TurtleRequestError::WsClosed));
}

#[test]
fn label_payload_text() {
    assert_eq!(
        get_os_label_payload(),
        "local ok, err = os.computerLabel() return ok"
    );
}

#[test]
fn simple_spelling_matches_uuid_crate() {
    let v: u128 = 0x0123456789abcdef0011223344556677;
    let ours = u128_simple_string(v);
    let theirs = uuid::Uuid::from_u128(v).simple().to_string();
    assert_eq!(ours, theirs);
    assert_eq!(ours.len(), 32);
}

#[test]
fn simple_label_spelling_is_adopted() {
    // a label in the simple spelling parses too, and no relabeling runs
    let v: u128 = 0xdeadbeefdeadbeefdeadbeefdeadbeef;
    let simple = uuid::Uuid::from_u128(v).simple().to_string();
    assert_eq!(
        decide_identity(simple.as_str(), 1),
        IdentityDecision::Adopt { id: v }
    );
}

#[test]
fn new_robot_gets_fresh_identity() {
    // Scenario: the robot answers "nil" to the label query.
    let fresh: u128 = 0x0123456789abcdef0011223344556677;
    match decide_identity("nil", fresh) {
        IdentityDecision::AssignNew {
            id,
            set_label_command,
        } => {
            assert_eq!(id, fresh);
            let expected = format!(
                "return os.setComputerLabel(\"{}\")",
                uuid::Uuid::from_u128(fresh).simple()
            );
            assert_eq!(set_label_command, expected);
        }
        other => panic!("expected a fresh identity, got {:?}", other),
    }
}

#[test]
fn known_robot_identity_is_adopted() {
    // Scenario: the robot answers with a valid UUID; no label is set.
    let v: u128 = 0xfeedfacefeedfacefeedfacefeedface;
    let label = uuid::Uuid::from_u128(v).to_string();
    let fresh: u128 = 1;
    assert_eq!(
        decide_identity(label.as_str(), fresh),
        IdentityDecision::Adopt { id: v }
    );
}

#[test]
fn garbled_label_gets_fresh_identity() {
    let fresh: u128 = 42;
    match decide_identity("os error 13", fresh) {
        IdentityDecision::AssignNew { id, .. } => assert_eq!(id, fresh),
        other => panic!("expected a fresh identity, got {:?}", other),
    }
}

#[test]
fn registry_refuses_second_session_for_identity() {
    let mut reg: RobotRegistry<&'static str> = RobotRegistry::new();
    assert!(reg.register(7, "first").is_ok());
    // One session per identity: the second registration is refused and
    // hands the new handle back.
    assert_eq!(reg.register(7, "second"), Err("second"));
    assert_eq!(reg.lookup(7), Some(&"first"));
    assert_eq!(reg.count(), 1);
}

#[test]
fn registry_register_lookup_remove() {
    let mut reg: RobotRegistry<u32> = RobotRegistry::new();
    assert_eq!(reg.lookup(1), None);
    reg.register(1, 10).unwrap();
    reg.register(2, 20).unwrap();
    assert_eq!(reg.count(), 2);
    assert_eq!(reg.lookup(1), Some(&10));
    assert_eq!(reg.lookup(2), Some(&20));
    assert_eq!(reg.id_at(0), 1);
    assert_eq!(*reg.handle_at(1), 20);
    assert_eq!(reg.remove(1), Some(10));
    assert_eq!(reg.lookup(1), None);
    assert_eq!(reg.lookup(2), Some(&20));
    assert_eq!(reg.remove(1), None);
    // the identity can come back after its session ended
    assert!(reg.register(1, 11).is_ok());
    assert_eq!(reg.lookup(1), Some(&11));
}

#[test]
fn simple_spelling_pads_with_zeros() {
    assert_eq!(u128_simple_string(0), "00000000000000000000000000000000");
    assert_eq!(u128_simple_string(0xff), "000000000000000000000000000000ff");
}
