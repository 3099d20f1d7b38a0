use wg_easy_rs::keys::generate_keypair;
use wg_easy_rs::peers::{PeerEntry, PeerSync, PeerTable, SyncError};

fn entry(public_key: &str, ip: &str) -> PeerEntry {
    PeerEntry {
        public_key: public_key.to_string(),
        preshared_key: "AAAAAAAAAAAAAAAAAAAAAAAAAAAAAAAAAAAAAAAAAAA=".to_string(),
        allowed_ips: vec![format!("{ip}/32")],
    }
}

#[test]
fn add_or_update_twice_leaves_one_entry() {
    let (_, key) = generate_keypair();
    let mut table = PeerTable::new();
    table.upsert(entry(&key, "10.8.0.2"));
    table.upsert(entry(&key, "10.8.0.2"));
    assert_eq!(table.count(), 1);
    assert!(table.contains_key(&key));
}

#[test]
fn remove_of_absent_key_succeeds_and_changes_nothing() {
    let (_, there) = generate_keypair();
    let (_, absent) = generate_keypair();
    let mut table = PeerTable::new();
    table.upsert(entry(&there, "10.8.0.2"));
    table.remove(&absent);
    assert_eq!(table.count(), 1);
    assert!(table.contains_key(&there));
}

#[test]
fn replace_all_leaves_exactly_the_given_keys() {
    let (_, a) = generate_keypair();
    let (_, b) = generate_keypair();
    let (_, c) = generate_keypair();
    let mut table = PeerTable::new();
    table.upsert(entry(&a, "10.8.0.2"));
    let list = vec![entry(&b, "10.8.0.3"), entry(&c, "10.8.0.4")];
    table.replace_all(&list);
    assert_eq!(table.count(), 2);
    assert!(!table.contains_key(&a));
    assert!(table.contains_key(&b));
    assert!(table.contains_key(&c));
}

#[test]
fn disabling_removes_exactly_that_key() {
    let (_, a) = generate_keypair();
    let (_, b) = generate_keypair();
    let (_, c) = generate_keypair();
    let mut table = PeerTable::new();
    table.upsert(entry(&a, "10.8.0.2"));
    table.upsert(entry(&b, "10.8.0.3"));
    table.upsert(entry(&c, "10.8.0.4"));
    table.remove(&b);
    assert_eq!(table.count(), 2);
    assert!(table.contains_key(&a));
    assert!(!table.contains_key(&b));
    assert!(table.contains_key(&c));
}

#[test]
fn synchronizer_rejects_a_bad_interface_name() {
    assert!(matches!(
        PeerSync::new("".to_string()),
        Err(SyncError::InvalidInterfaceName)
    ));
    assert!(matches!(
        PeerSync::new("name-that-is-far-too-long".to_string()),
        Err(SyncError::InvalidInterfaceName)
    ));
    assert!(matches!(
        PeerSync::new("has space".to_string()),
        Err(SyncError::InvalidInterfaceName)
    ));
    assert!(PeerSync::new("wg0".to_string()).is_ok());
}

#[test]
fn synchronizer_rejects_malformed_key_material() {
    let mut sync = PeerSync::new("wg0".to_string()).expect("valid name");
    let mut bad = entry("not-base64", "10.8.0.2");
    assert!(matches!(
        sync.add_or_update(bad),
        Err(SyncError::InvalidPublicKey)
    ));
    let (_, key) = generate_keypair();
    bad = entry(&key, "10.8.0.2");
    bad.preshared_key = "bad".to_string();
    assert!(matches!(
        sync.add_or_update(bad),
        Err(SyncError::InvalidPresharedKey)
    ));
    let mut bad_ip = entry(&key, "10.8.0.2");
    bad_ip.allowed_ips = vec!["not-a-cidr".to_string()];
    assert!(matches!(
        sync.add_or_update(bad_ip),
        Err(SyncError::InvalidAllowedIp)
    ));
    assert!(matches!(
        sync.remove("not-base64"),
        Err(SyncError::InvalidPublicKey)
    ));
    assert!(matches!(
        sync.configure("not-base64", 51820),
        Err(SyncError::InvalidPrivateKey)
    ));
    assert_eq!(sync.peer_count(), 0);
}

#[test]
fn synchronizer_records_what_the_kernel_accepted() {
    let mut sync = PeerSync::new("wg0".to_string()).expect("valid name");
    let (_, key) = generate_keypair();
    match sync.add_or_update(entry(&key, "10.8.0.2")) {
        Ok(()) => {
            assert_eq!(sync.peer_count(), 1);
            assert!(sync.has_peer(&key));
        }
        Err(SyncError::Kernel(_)) => {
            // Without the device (or the privilege) the kernel refuses; the
            // record then stays untouched.
            assert_eq!(sync.peer_count(), 0);
            assert!(!sync.has_peer(&key));
        }
        Err(other) => panic!("unexpected validation error: {other:?}"),
    }
}
