use codlet::os_broker::network::{
    authorized_url, check_body_chunk, check_content_length, check_fetch_headers, check_header_name,
    check_response_header, fetch_is_head,
};
use codlet::os_broker::process::{check_combined_output, check_process_args};

fn granted(origins: &[&str]) -> Vec<String> {
    origins.iter().map(|s| s.to_string()).collect()
}

#[test]
fn granted_origin_is_reached_with_its_serialised_url() {
    let g = granted(&["https://example.com"]);
    let (url, origin) = authorized_url("https://example.com/a?b=1", &g, false).unwrap();
    assert_eq!(url, "https://example.com/a?b=1");
    assert_eq!(origin, "https://example.com");
}

#[test]
fn explicit_port_is_part_of_the_origin() {
    let g = granted(&["http://127.0.0.1:8080"]);
    assert!(authorized_url("http://127.0.0.1:8080/x", &g, false).is_ok());
    let e = authorized_url("http://127.0.0.1:8081/x", &g, false).unwrap_err();
    assert_eq!(e.code, "policy_denied");
    assert_eq!(e.message, "URL origin was not explicitly granted");
}

#[test]
fn websocket_urls_are_checked_against_their_http_origin() {
    let g = granted(&["https://example.com"]);
    let (url, origin) = authorized_url("wss://example.com/socket", &g, true).unwrap();
    assert_eq!(url, "wss://example.com/socket");
    assert_eq!(origin, "https://example.com");
    let e = authorized_url("wss://example.com/socket", &g, false).unwrap_err();
    assert_eq!(e.code, "invalid_params");
}

#[test]
fn credentials_fragments_and_other_schemes_are_refused() {
    let g = granted(&["https://example.com"]);
    let message =
        "network URL must use HTTP(S) or an allowed WebSocket scheme, without credentials or fragment";
    for url in [
        "https://user@example.com/",
        "https://user:pw@example.com/",
        "https://example.com/#frag",
        "ftp://example.com/",
        "file:///etc/passwd",
    ] {
        let e = authorized_url(url, &g, true).unwrap_err();
        assert_eq!(e.code, "invalid_params");
        assert_eq!(e.message, message);
    }
    let e = authorized_url("not a url", &g, false).unwrap_err();
    assert_eq!(e.message, "network access requires an absolute HTTP(S) URL");
    let long = format!("https://example.com/{}", "a".repeat(8192));
    let e = authorized_url(&long, &g, false).unwrap_err();
    assert_eq!(e.message, "network URL exceeds 8192 bytes");
}

#[test]
fn fetch_method_defaults_to_get() {
    assert_eq!(fetch_is_head(None).unwrap(), false);
    assert_eq!(fetch_is_head(Some("GET")).unwrap(), false);
    assert_eq!(fetch_is_head(Some("HEAD")).unwrap(), true);
    let e = fetch_is_head(Some("POST")).unwrap_err();
    assert_eq!(e.message, "fetch supports GET or HEAD");
}

#[test]
fn fetch_headers_are_bounded() {
    let few: Vec<(String, String)> = (0..32).map(|i| (format!("x-h{i}"), "v".to_string())).collect();
    assert!(check_fetch_headers(&few).is_ok());
    let many: Vec<(String, String)> = (0..33).map(|i| (format!("x-h{i}"), "v".to_string())).collect();
    assert_eq!(check_fetch_headers(&many).unwrap_err().message, "fetch request headers exceed their bound");
    let big = vec![("x-a".to_string(), "v".repeat(16 * 1024 - 3))];
    assert!(check_fetch_headers(&big).is_ok());
    let too_big = vec![("x-a".to_string(), "v".repeat(16 * 1024 - 2))];
    assert!(check_fetch_headers(&too_big).is_err());
}

#[test]
fn routing_and_hop_by_hop_headers_are_refused_in_any_case() {
    for name in ["Host", "CONNECTION", "Proxy-Authorization", "proxy-connection", "Upgrade", "Transfer-Encoding", "content-length"] {
        let e = check_header_name(name).unwrap_err();
        assert_eq!(e.message, "fetch does not accept routing, proxy or hop-by-hop header overrides");
    }
    assert!(check_header_name("Accept").is_ok());
    assert!(check_header_name("x-host").is_ok());
}

#[test]
fn response_size_checks() {
    assert!(check_content_length(false, Some(10), 10).is_ok());
    assert_eq!(check_content_length(false, Some(11), 10).unwrap_err().code, "response_too_large");
    assert!(check_content_length(true, Some(11), 10).is_ok());
    assert!(check_content_length(false, None, 10).is_ok());
    assert!(check_response_header(63, 16 * 1024).is_ok());
    assert!(check_response_header(64, 10).is_err());
    assert!(check_response_header(0, 16 * 1024 + 1).is_err());
    assert!(check_body_chunk(6, 4, 10).is_ok());
    assert_eq!(
        check_body_chunk(6, 5, 10).unwrap_err().message,
        "HTTP response exceeds the requested byte limit"
    );
}

#[test]
fn process_arguments_are_bounded_and_free_of_nul() {
    let message = "process args must be at most 64 bounded strings without NUL";
    let ok: Vec<String> = (0..64).map(|_| "a".to_string()).collect();
    assert!(check_process_args(&ok).is_ok());
    let many: Vec<String> = (0..65).map(|_| "a".to_string()).collect();
    assert_eq!(check_process_args(&many).unwrap_err().message, message);
    assert!(check_process_args(&vec!["a\0b".to_string()]).is_err());
    assert!(check_process_args(&vec!["a".repeat(8192)]).is_ok());
    assert!(check_process_args(&vec!["a".repeat(8193)]).is_err());
    let eight: Vec<String> = (0..8).map(|_| "a".repeat(8192)).collect();
    assert!(check_process_args(&eight).is_ok());
    let nine: Vec<String> = (0..9).map(|_| "a".repeat(8192)).collect();
    let e = check_process_args(&nine).unwrap_err();
    assert_eq!(e.code, "invalid_params");
}

#[test]
fn combined_output_is_bounded() {
    assert!(check_combined_output(5, 5, 10).is_ok());
    let e = check_combined_output(6, 5, 10).unwrap_err();
    assert_eq!(e.code, "response_too_large");
    assert_eq!(e.message, "combined process output exceeds its byte limit");
}

use codlet::os_broker::authorization::{
    admit_request, check_current, check_offer, check_result_bytes, endpoint_permission, require_permission, AuthorizationTable, BrokerState,
    CurrentRegistration, HostOffer,
};
use codlet::platform::PathStyle;
use codlet::plugin_permissions::BrokerPolicy;
use codlet::plugins::{LocalPluginRegistration, Permission};

fn registration(path: &str, grants: Vec<Permission>) -> LocalPluginRegistration {
    LocalPluginRegistration {
        path: path.into(),
        grants,
        broker_policy: BrokerPolicy { read_roots: vec![], network_origins: vec![], executables: vec![] },
    }
}

fn offer(grants: Vec<Permission>) -> HostOffer {
    HostOffer { host_loaded: true, registration: Some(registration("/plugins/a", grants)), source_matches: true }
}

#[test]
fn an_offer_needs_a_recorded_matching_registration_covering_the_manifest() {
    let declared = vec![Permission::HostFs];
    let posix = PathStyle::Posix;
    assert!(check_offer(false, "dev.a", 1, &declared, offer(vec![Permission::HostFs]), posix).is_ok());
    assert_eq!(check_offer(true, "dev.a", 1, &declared, offer(vec![Permission::HostFs]), posix).unwrap_err().code, "broker_stopped");
    let e = check_offer(false, "dev.a", 0, &declared, offer(vec![Permission::HostFs]), posix).unwrap_err();
    assert_eq!(e.code, "invalid_owner");
    assert_eq!(e.message, "OS authorization requires a valid logical ID and positive safe generation");
    assert!(check_offer(false, "dev.a", 9_007_199_254_740_992, &declared, offer(vec![Permission::HostFs]), posix).is_err());
    assert!(check_offer(false, "Bad ID", 1, &declared, offer(vec![Permission::HostFs]), posix).is_err());
    let mut no_host = offer(vec![Permission::HostFs]);
    no_host.host_loaded = false;
    assert_eq!(
        check_offer(false, "dev.a", 1, &declared, no_host, posix).unwrap_err().message,
        "OS authorization requires a loaded Host entry"
    );
    let mut inspected = offer(vec![Permission::HostFs]);
    inspected.registration = None;
    assert_eq!(
        check_offer(false, "dev.a", 1, &declared, inspected, posix).unwrap_err().message,
        "inspection alone does not supply a recorded Host authorization"
    );
    let e = check_offer(false, "dev.a", 1, &declared, offer(vec![]), posix).unwrap_err();
    assert_eq!(e.code, "permission_denied");
    assert_eq!(e.message, "loaded Host source does not match its explicit registration and grants");
    let mut elsewhere = offer(vec![Permission::HostFs]);
    elsewhere.source_matches = false;
    assert_eq!(check_offer(false, "dev.a", 1, &declared, elsewhere, posix).unwrap_err().code, "permission_denied");
    let mut scoped = offer(vec![]);
    if let Some(r) = scoped.registration.as_mut() {
        r.broker_policy.read_roots = vec!["/data".into()];
    }
    assert_eq!(check_offer(false, "dev.a", 1, &vec![], scoped, posix).unwrap_err().code, "invalid_policy");
}

#[test]
fn endpoints_need_a_declared_and_granted_permission() {
    assert_eq!(endpoint_permission(true, "host.fs.stat").unwrap(), Permission::HostFs);
    assert_eq!(endpoint_permission(true, "host.unknown").unwrap_err().code, "method_not_found");
    assert_eq!(endpoint_permission(false, "host.fs.stat").unwrap_err().message, "authorization belongs to another broker");
    assert!(require_permission(&vec![Permission::HostFs], &vec![Permission::HostFs], Permission::HostFs).is_ok());
    let e = require_permission(&vec![Permission::HostFs], &vec![], Permission::HostFs).unwrap_err();
    assert_eq!(e.code, "permission_denied");
    assert_eq!(e.message, "host.fs must be declared and explicitly granted before using this endpoint");
    assert!(require_permission(&vec![], &vec![Permission::HostNetwork], Permission::HostNetwork).is_err());
}

#[test]
fn requests_are_admitted_within_deadline_size_and_capacity() {
    assert!(admit_request(1000, 0, 10, 0).is_ok());
    assert_eq!(admit_request(0, 0, 10, 0).unwrap_err().code, "deadline_exceeded");
    assert!(admit_request(15_000, 0, 10, 0).is_ok());
    assert_eq!(admit_request(15_001, 0, 10, 0).unwrap_err().code, "invalid_deadline");
    assert_eq!(admit_request(10, 0, 262_145, 0).unwrap_err().code, "request_too_large");
    assert_eq!(admit_request(10, 0, 10, 16).unwrap_err().code, "broker_busy");
    assert!(admit_request(10, 0, 262_144, 15).is_ok());
}

#[test]
fn current_registration_is_checked_before_each_use() {
    let recorded = registration("/plugins/a", vec![Permission::HostFs]);
    assert!(check_current(true, BrokerState::Open, &CurrentRegistration::Unchecked, &recorded).is_ok());
    let same = CurrentRegistration::Found(Some(registration("/plugins/a", vec![Permission::HostFs])));
    assert!(check_current(true, BrokerState::Open, &same, &recorded).is_ok());
    let (e, revoke) = check_current(false, BrokerState::Open, &same, &recorded).unwrap_err();
    assert_eq!((e.code.as_str(), revoke), ("permission_revoked", false));
    let (e, revoke) = check_current(true, BrokerState::Closing, &same, &recorded).unwrap_err();
    assert_eq!((e.code.as_str(), revoke), ("broker_stopped", true));
    let (e, revoke) = check_current(true, BrokerState::Gone, &same, &recorded).unwrap_err();
    assert_eq!((e.code.as_str(), revoke), ("broker_stopped", false));
    let (e, revoke) =
        check_current(true, BrokerState::Open, &CurrentRegistration::Unavailable("locked".into()), &recorded).unwrap_err();
    assert_eq!((e.code.as_str(), revoke), ("authorization_unavailable", true));
    assert_eq!(e.message, "cannot verify current registration: locked");
    let changed = CurrentRegistration::Found(Some(registration("/plugins/a", vec![])));
    let (e, revoke) = check_current(true, BrokerState::Open, &changed, &recorded).unwrap_err();
    assert_eq!((e.code.as_str(), revoke), ("permission_revoked", true));
    let (e, _) = check_current(true, BrokerState::Open, &CurrentRegistration::Found(None), &recorded).unwrap_err();
    assert_eq!(e.code, "permission_revoked");
}

#[test]
fn owner_generations_are_never_reused() {
    let mut table = AuthorizationTable::new();
    assert!(table.authorize("dev.a", 2, registration("/a", vec![])).is_ok());
    assert!(table.is_live("dev.a", 2));
    let e = table.authorize("dev.a", 2, registration("/a", vec![])).unwrap_err();
    assert_eq!(e.code, "stale_generation");
    assert_eq!(e.message, "OS authorization never reuses a previously allocated owner generation");
    assert!(table.authorize("dev.a", 1, registration("/a", vec![])).is_err());
    assert!(table.authorize("dev.a", 3, registration("/a", vec![])).is_ok());
    assert!(!table.is_live("dev.a", 2));
    assert!(table.is_live("dev.a", 3));
    assert_eq!(table.identities(), 1);
    assert!(!table.revoke_owner("dev.a", 2));
    assert!(table.revoke_owner("dev.a", 3));
    assert!(!table.is_live("dev.a", 3));
    table.release("dev.a", 3);
    assert!(!table.revoke_owner("dev.a", 3));
}

#[test]
fn the_identity_history_is_bounded() {
    let mut table = AuthorizationTable::new();
    for i in 0..4096 {
        assert!(table.authorize(&format!("p{i}"), 1, registration("/a", vec![])).is_ok());
    }
    let e = table.authorize("late", 1, registration("/a", vec![])).unwrap_err();
    assert_eq!(e.code, "identity_limit");
    assert_eq!(e.message, "OS authorization identity history is full");
    assert!(table.authorize("p7", 2, registration("/a", vec![])).is_ok());
    assert_eq!(table.identities(), 4096);
}

#[test]
fn changed_registrations_are_revoked_and_reported_once() {
    let mut table = AuthorizationTable::new();
    table.authorize("dev.a", 1, registration("/a", vec![Permission::HostFs])).unwrap();
    table.authorize("dev.b", 4, registration("/b", vec![])).unwrap();
    table.authorize("dev.c", 2, registration("/c", vec![])).unwrap();
    table.release("dev.c", 2);
    let registry = vec![
        ("dev.a".to_string(), registration("/a", vec![])),
        ("dev.b".to_string(), registration("/b", vec![])),
    ];
    let reported = table.revoke_changed(&registry);
    assert_eq!(reported, vec![("dev.a".to_string(), 1)]);
    assert!(!table.is_live("dev.a", 1));
    assert!(table.is_live("dev.b", 4));
    assert!(table.revoke_changed(&registry).is_empty());
    assert!(table.revoke_changed(&vec![]).contains(&("dev.b".to_string(), 4)));
}

#[test]
fn stopping_the_broker_revokes_every_authorization() {
    let mut table = AuthorizationTable::new();
    table.authorize("dev.a", 1, registration("/a", vec![])).unwrap();
    table.authorize("dev.b", 1, registration("/b", vec![])).unwrap();
    table.revoke_all();
    assert!(!table.is_live("dev.a", 1));
    assert!(!table.is_live("dev.b", 1));
    assert_eq!(table.identities(), 2);
    assert!(check_result_bytes(262_144).is_ok());
    let e = check_result_bytes(262_145).unwrap_err();
    assert_eq!(e.code, "response_too_large");
    assert_eq!(e.message, "OS result exceeds its serialized JSON limit");
}

use codlet::os_broker::operation::{confirmed, Delivery, OperationReceipt, Received};
use codlet::os_broker::OsBrokerError;

fn err(code: &str) -> OsBrokerError {
    OsBrokerError { code: code.into(), message: "m".into() }
}

#[test]
fn a_receipt_delivers_one_outcome() {
    let mut receipt = OperationReceipt::new();
    assert!(matches!(receipt.poll::<u32>(Ok(()), Received::Empty), Delivery::Pending));
    match receipt.poll::<u32>(Ok(()), Received::Answer(Ok(7))) {
        Delivery::ConfirmCurrent(r) => {
            assert_eq!(confirmed(Ok(()), r.clone()).unwrap(), 7);
            assert_eq!(confirmed(Err(err("permission_revoked")), r).unwrap_err().code, "permission_revoked");
        }
        _ => panic!("expected an answer to confirm"),
    }
    assert!(receipt.delivered);
    assert!(matches!(receipt.poll::<u32>(Ok(()), Received::Answer(Ok(8))), Delivery::Delivered));
}

#[test]
fn a_refusal_seen_while_waiting_wins_over_a_late_answer() {
    let mut receipt = OperationReceipt::new();
    assert!(matches!(receipt.poll::<u32>(Err(err("deadline_exceeded")), Received::Empty), Delivery::Pending));
    assert!(receipt.cancelled);
    assert!(matches!(receipt.poll::<u32>(Err(err("permission_revoked")), Received::Empty), Delivery::Pending));
    match receipt.poll::<u32>(Ok(()), Received::Answer(Ok(1))) {
        Delivery::Outcome(Err(e)) => assert_eq!(e.code, "deadline_exceeded"),
        _ => panic!("expected the first refusal"),
    }
    let mut dirty = OperationReceipt::new();
    dirty.cancel();
    match dirty.poll::<u32>(Err(err("cancelled")), Received::Answer(Err(err("cleanup_incomplete")))) {
        Delivery::Outcome(Err(e)) => assert_eq!(e.code, "cleanup_incomplete"),
        _ => panic!("expected incomplete cleanup"),
    }
    let mut gone = OperationReceipt::new();
    match gone.poll::<u32>(Ok(()), Received::Disconnected) {
        Delivery::Outcome(Err(e)) => {
            assert_eq!(e.code, "cleanup_incomplete");
            assert_eq!(e.message, "OS worker stopped without confirming operation resource cleanup");
        }
        _ => panic!("expected incomplete cleanup"),
    }
}
