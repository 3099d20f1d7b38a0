use wg_easy_rs::addr::parse_cidr;
use wg_easy_rs::engine::{
    apply_client_update, client_to_peer_entry, create_client, enabled_peer_entries,
    UpdateClientRequest,
};
use wg_easy_rs::error::AppError;
use wg_easy_rs::models::Client;

fn client(id: &str, key: &str, ip: &str, enabled: i64) -> Client {
    Client {
        id: id.to_string(),
        name: format!("peer {id}"),
        public_key: key.to_string(),
        preshared_key: "psk".to_string(),
        ipv4: ip.to_string(),
        ipv6: None,
        enabled,
        created_at: "2024-01-01T00:00:00Z".to_string(),
        expires_at: None,
        download_url: None,
        one_time_link: None,
    }
}

fn create(cidr: &str, used: Vec<&str>) -> Result<Client, AppError> {
    let cidr = parse_cidr(cidr).expect("valid cidr");
    let used: Vec<String> = used.into_iter().map(|s| s.to_string()).collect();
    create_client(
        &cidr,
        &used,
        "id-1".to_string(),
        "alice".to_string(),
        "pub".to_string(),
        "psk".to_string(),
        "2024-01-01T00:00:00Z".to_string(),
    )
}

#[test]
fn first_created_peer_receives_the_second_host() {
    let c = create("10.8.0.0/24", vec![]).expect("created");
    assert_eq!(c.ipv4, "10.8.0.2");
    assert_eq!(c.enabled, 1);
    assert_eq!(c.id, "id-1");
    assert_eq!(c.name, "alice");
    assert!(c.ipv6.is_none());
    assert!(c.expires_at.is_none());
}

#[test]
fn created_peer_after_two_receives_the_fourth_host() {
    let c = create("10.8.0.0/24", vec!["10.8.0.2", "10.8.0.3"]).expect("created");
    assert_eq!(c.ipv4, "10.8.0.4");
}

#[test]
fn creation_is_rejected_when_the_pool_is_exhausted() {
    let r = create("10.8.0.0/30", vec!["10.8.0.2"]);
    match r {
        Err(AppError::BadRequest(msg)) => assert_eq!(msg, "No available IP addresses"),
        other => panic!("expected a rejection, got {other:?}"),
    }
}

#[test]
fn update_merges_fields_and_normalizes_enabled() {
    let c = client("id-1", "pub", "10.8.0.2", 5);
    let req = UpdateClientRequest {
        name: Some("renamed".to_string()),
        enabled: None,
        expires_at: Some("2030-01-01T00:00:00Z".to_string()),
    };
    let r = apply_client_update(&c, &req);
    assert_eq!(r.name, "renamed");
    assert_eq!(r.enabled, 1, "a nonzero flag is kept enabled, normalized");
    assert_eq!(r.expires_at.as_deref(), Some("2030-01-01T00:00:00Z"));
    assert_eq!(r.public_key, c.public_key);
    assert_eq!(r.ipv4, c.ipv4);

    let req2 = UpdateClientRequest { name: None, enabled: Some(false), expires_at: None };
    let r2 = apply_client_update(&c, &req2);
    assert_eq!(r2.name, c.name);
    assert_eq!(r2.enabled, 0);
    assert!(r2.expires_at.is_none());
}

#[test]
fn a_peer_is_granted_exactly_its_own_address() {
    let c = client("id-1", "pub", "10.8.0.2", 1);
    let e = client_to_peer_entry(&c);
    assert_eq!(e.public_key, "pub");
    assert_eq!(e.allowed_ips, vec!["10.8.0.2/32".to_string()]);
}

#[test]
fn startup_list_holds_exactly_the_enabled_peers() {
    // Three enabled and two disabled peers persisted: after the startup
    // synchronization the kernel list holds exactly the three enabled keys.
    let roster = vec![
        client("1", "ka", "10.8.0.2", 1),
        client("2", "kb", "10.8.0.3", 0),
        client("3", "kc", "10.8.0.4", 1),
        client("4", "kd", "10.8.0.5", 0),
        client("5", "ke", "10.8.0.6", 1),
    ];
    let entries = enabled_peer_entries(&roster);
    let keys: Vec<&str> = entries.iter().map(|e| e.public_key.as_str()).collect();
    assert_eq!(keys, vec!["ka", "kc", "ke"]);
    assert_eq!(entries[0].allowed_ips, vec!["10.8.0.2/32".to_string()]);
}
