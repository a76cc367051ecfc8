use ciphermq::acl::{AclManager, AuthResult, Role};

fn make_test_acl() -> AclManager {
    AclManager::new(
        vec!["sender_1".to_string()],
        vec!["receiver_1".to_string()],
        vec!["admin".to_string()],
    )
}

fn reason(result: AuthResult) -> String {
    match result {
        AuthResult::Allowed => "allowed".to_string(),
        AuthResult::Denied(reason) => reason.to_string(),
    }
}

#[test]
fn test_resolve_role() {
    let acl = make_test_acl();
    assert_eq!(acl.resolve_role("sender_1"), Role::Sender);
    assert_eq!(acl.resolve_role("receiver_1"), Role::Receiver);
    assert_eq!(acl.resolve_role("admin"), Role::Admin);
    assert_eq!(acl.resolve_role("unknown_cn"), Role::Unknown);
}

#[test]
fn test_sender_permissions() {
    let acl = make_test_acl();
    let role = Role::Sender;

    assert!(matches!(acl.check_command(&role, "publish"), AuthResult::Allowed));
    assert!(matches!(acl.check_command(&role, "publish_batch"), AuthResult::Allowed));
    assert!(matches!(acl.check_command(&role, "get_public_key"), AuthResult::Allowed));
    assert!(matches!(acl.check_command(&role, "resend"), AuthResult::Allowed));
    assert!(matches!(acl.check_command(&role, "ack"), AuthResult::Allowed));
    assert!(matches!(acl.check_command(&role, "declare_queue"), AuthResult::Denied(_)));
    assert!(matches!(acl.check_command(&role, "declare_exchange"), AuthResult::Denied(_)));
    assert!(matches!(acl.check_command(&role, "bind"), AuthResult::Denied(_)));
    assert!(matches!(acl.check_command(&role, "consume"), AuthResult::Denied(_)));
    assert!(matches!(acl.check_command(&role, "register_public_key"), AuthResult::Denied(_)));
}

#[test]
fn test_receiver_permissions() {
    let acl = make_test_acl();
    let role = Role::Receiver;

    assert!(matches!(acl.check_command(&role, "declare_queue"), AuthResult::Allowed));
    assert!(matches!(acl.check_command(&role, "declare_exchange"), AuthResult::Allowed));
    assert!(matches!(acl.check_command(&role, "bind"), AuthResult::Allowed));
    assert!(matches!(acl.check_command(&role, "consume"), AuthResult::Allowed));
    assert!(matches!(acl.check_command(&role, "ack"), AuthResult::Allowed));
    assert!(matches!(acl.check_command(&role, "register_public_key"), AuthResult::Allowed));
    assert!(matches!(acl.check_command(&role, "resend"), AuthResult::Allowed));
    assert!(matches!(acl.check_command(&role, "heartbeat"), AuthResult::Allowed));
    assert!(matches!(acl.check_command(&role, "publish"), AuthResult::Denied(_)));
    assert!(matches!(acl.check_command(&role, "publish_batch"), AuthResult::Denied(_)));
    assert!(matches!(acl.check_command(&role, "get_public_key"), AuthResult::Denied(_)));
}

#[test]
fn test_admin_permissions() {
    let acl = make_test_acl();
    let role = Role::Admin;

    // Admin can do everything
    for cmd in &[
        "declare_queue",
        "declare_exchange",
        "bind",
        "publish",
        "publish_batch",
        "consume",
        "ack",
        "register_public_key",
        "get_public_key",
        "resend",
        "heartbeat",
    ] {
        assert!(
            matches!(acl.check_command(&role, cmd), AuthResult::Allowed),
            "Admin should be allowed to use command: {}",
            cmd
        );
    }
}

#[test]
fn test_unknown_role_denied() {
    let acl = make_test_acl();
    let role = Role::Unknown;

    for cmd in &["publish", "declare_queue", "consume", "heartbeat"] {
        assert!(
            matches!(acl.check_command(&role, cmd), AuthResult::Denied(_)),
            "Unknown role should be denied command: {}",
            cmd
        );
    }
}

#[test]
fn test_receiver_resource_check() {
    let acl = make_test_acl();
    let role = Role::Receiver;

    assert!(matches!(
        acl.check_resource(&role, "receiver_1", "queue", "receiver_1_queue"),
        AuthResult::Allowed
    ));
    assert!(matches!(
        acl.check_resource(&role, "receiver_1", "routing_key", "receiver_1_key"),
        AuthResult::Allowed
    ));
    assert!(matches!(
        acl.check_resource(&role, "receiver_1", "exchange", "ciphermq_exchange"),
        AuthResult::Allowed
    ));
    // Cannot declare another receiver's queue
    assert!(matches!(
        acl.check_resource(&role, "receiver_1", "queue", "receiver_2_queue"),
        AuthResult::Denied(_)
    ));
}

#[test]
fn test_admin_resource_check() {
    let acl = make_test_acl();
    let role = Role::Admin;

    assert!(matches!(
        acl.check_resource(&role, "admin", "queue", "any_queue"),
        AuthResult::Allowed
    ));
    assert!(matches!(
        acl.check_resource(&role, "admin", "exchange", "any_exchange"),
        AuthResult::Allowed
    ));
}

#[test]
fn administrators_come_first() {
    let both = vec!["a".to_string(), "b".to_string()];
    let acl = AclManager::new(
        both,
        vec!["b".to_string(), "c".to_string()],
        vec!["a".to_string()],
    );
    assert_eq!(acl.resolve_role("a"), Role::Admin);
    assert_eq!(acl.resolve_role("b"), Role::Sender);
    assert_eq!(acl.resolve_role("c"), Role::Receiver);
    assert_eq!(acl.resolve_role(""), Role::Unknown);
}

#[test]
fn denials_give_their_reason() {
    let acl = make_test_acl();
    assert_eq!(
        reason(acl.check_command(&Role::Unknown, "publish")),
        "unknown role — access denied"
    );
    assert_eq!(
        reason(acl.check_command(&Role::Sender, "bind")),
        "command not permitted for this role"
    );
    assert_eq!(
        reason(acl.check_command(&Role::Receiver, "no_such_command")),
        "command not permitted for this role"
    );
    assert_eq!(reason(acl.check_command(&Role::Admin, "no_such_command")), "allowed");
    assert_eq!(
        reason(acl.check_resource(&Role::Receiver, "receiver_1", "queue", "receiver_1")),
        "resource access denied for this role"
    );
    assert_eq!(
        reason(acl.check_resource(&Role::Receiver, "receiver_1", "table", "receiver_1_x")),
        "resource access denied for this role"
    );
    assert_eq!(
        reason(acl.check_resource(&Role::Sender, "sender_1", "exchange", "x")),
        "resource access denied for this role"
    );
    assert_eq!(
        reason(acl.check_resource(&Role::Unknown, "x", "queue", "x_queue")),
        "unknown role — access denied"
    );
}

#[test]
fn receivers_own_what_begins_with_their_name() {
    let acl = make_test_acl();
    let role = Role::Receiver;
    assert_eq!(reason(acl.check_resource(&role, "r", "queue", "r_anything")), "allowed");
    assert_eq!(
        reason(acl.check_resource(&role, "r", "queue", "rr_queue")),
        "resource access denied for this role"
    );
    assert_eq!(reason(acl.check_resource(&role, "r", "routing_key", "rr_key")), "allowed");
    assert_eq!(
        reason(acl.check_resource(&role, "r", "routing_key", "x_key")),
        "resource access denied for this role"
    );
}

#[test]
fn roles_have_names() {
    assert_eq!(Role::Sender.as_str(), "sender");
    assert_eq!(Role::Receiver.as_str(), "receiver");
    assert_eq!(Role::Admin.as_str(), "admin");
    assert_eq!(Role::Unknown.as_str(), "unknown");
}
