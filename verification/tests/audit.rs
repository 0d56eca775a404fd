use docker_proxy::addresses::IpAddress;
use docker_proxy::audit::{current_timestamp, AuditEvent};

#[test]
fn test_event_serializes_to_json() {
    let mut ev = AuditEvent::new(
        "deny",
        IpAddress::V4(u32::from_be_bytes([127, 0, 0, 1])),
        "GET",
        "/secrets",
        "curl/8",
    );
    ev.rule_name = Some("block-secrets".into());
    ev.rule_action = Some("deny".into());
    ev.status = 403;
    let json = ev.to_line();
    assert!(json.contains("\"event\":\"deny\""));
    assert!(json.contains("\"rule_name\":\"block-secrets\""));
    assert!(json.contains("\"path\":\"/secrets\""));
}

#[test]
fn record_has_every_member_in_order() {
    let mut ev = AuditEvent::at(
        "2026-05-12T19:09:18Z".to_string(),
        "deny",
        IpAddress::V4(u32::from_be_bytes([10, 0, 0, 5])),
        "POST",
        "/containers/create",
        "docker/24.0",
    );
    ev.user_role = Some("readonly".into());
    ev.rule_name = Some("admin-only-create".into());
    ev.rule_action = Some("require_role".into());
    ev.status = 403;
    ev.message = Some("Admin role required to create containers".into());
    assert_eq!(
        ev.to_line(),
        "{\"timestamp\":\"2026-05-12T19:09:18Z\",\"event\":\"deny\",\"peer_ip\":\"10.0.0.5\",\"method\":\"POST\",\"path\":\"/containers/create\",\"user_agent\":\"docker/24.0\",\"user_role\":\"readonly\",\"identity\":null,\"rule_name\":\"admin-only-create\",\"rule_action\":\"require_role\",\"status\":403,\"dry_run\":false,\"message\":\"Admin role required to create containers\"}\n"
    );
}

#[test]
fn record_stays_on_one_line() {
    let mut ev = AuditEvent::at(
        "t".to_string(),
        "dry_run",
        IpAddress::V6(1),
        "GET",
        "/a\nb\"c",
        "\u{1}é",
    );
    ev.dry_run = true;
    let line = ev.to_line();
    assert_eq!(line.matches('\n').count(), 1);
    assert!(line.ends_with('\n'));
    assert!(line.contains("\"peer_ip\":\"::1\""));
    assert!(line.contains("\"path\":\"/a\\nb\\\"c\""));
    assert!(line.contains("\"user_agent\":\"\\u0001é\""));
    assert!(line.contains("\"dry_run\":true"));
}

#[test]
fn timestamp_is_utc_to_the_second() {
    let ev = AuditEvent::new("deny", IpAddress::V4(0), "GET", "/", "-");
    for t in [ev.timestamp, current_timestamp()] {
        let shape: String =
            t.chars().map(|c| if c.is_ascii_digit() { '0' } else { c }).collect();
        assert_eq!(shape, "0000-00-00T00:00:00Z");
        assert!(("01"..="12").contains(&&t[5..7]) && ("01"..="31").contains(&&t[8..10]));
        assert!(&t[11..13] <= "23" && &t[14..16] <= "59" && &t[17..19] <= "60");
    }
    assert_eq!(ev.peer_ip, "0.0.0.0");
}
