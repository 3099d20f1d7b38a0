use wg_easy_rs::conf::build_client_conf;
use wg_easy_rs::config::{AppConfig, EnvValues};
use wg_easy_rs::error::AppError;
use wg_easy_rs::iface::{shutdown_advance, startup_advance, tolerates_failure, LinkStage,
    ShutdownStage};
use wg_easy_rs::models::{Client, Interface};
use wg_easy_rs::peers::SyncError;

#[test]
fn error_status_codes_and_messages() {
    assert_eq!(AppError::NotFound.status_code(), 404);
    assert_eq!(AppError::NotFound.client_message(), "Not found");
    assert_eq!(AppError::Unauthorized.status_code(), 401);
    assert_eq!(AppError::Unauthorized.client_message(), "Unauthorized");
    let bad = AppError::BadRequest("No available IP addresses".to_string());
    assert_eq!(bad.status_code(), 400);
    assert_eq!(bad.client_message(), "No available IP addresses");
    let internal = AppError::Internal("device busy: detail for the log".to_string());
    assert_eq!(internal.status_code(), 500);
    assert_eq!(internal.client_message(), "Internal server error",
        "no internal detail reaches the client");
}

#[test]
fn synchronizer_errors_map_to_the_right_kind() {
    assert!(matches!(
        AppError::from_sync(SyncError::InvalidPublicKey),
        AppError::BadRequest(_)
    ));
    assert!(matches!(
        AppError::from_sync(SyncError::Kernel("busy".to_string())),
        AppError::Internal(_)
    ));
}

#[test]
fn startup_runs_the_stages_in_order() {
    let order = [
        LinkStage::EnsureLink,
        LinkStage::Configure,
        LinkStage::ResolveIndex,
        LinkStage::AssignAddress,
        LinkStage::BringUp,
        LinkStage::AddRoute,
        LinkStage::SyncPeers,
        LinkStage::SetupNat,
        LinkStage::Ready,
    ];
    let mut stage = order[0];
    for expected in order.iter().skip(1) {
        stage = startup_advance(stage, true);
        assert_eq!(stage, *expected);
    }
    assert_eq!(startup_advance(LinkStage::Ready, true), LinkStage::Ready);
}

#[test]
fn tolerated_failures_do_not_stop_startup() {
    assert!(tolerates_failure(LinkStage::AssignAddress));
    assert!(tolerates_failure(LinkStage::AddRoute));
    assert!(tolerates_failure(LinkStage::SetupNat));
    assert_eq!(startup_advance(LinkStage::AssignAddress, false), LinkStage::BringUp);
    assert_eq!(startup_advance(LinkStage::AddRoute, false), LinkStage::SyncPeers);
    assert_eq!(startup_advance(LinkStage::SetupNat, false), LinkStage::Ready);
}

#[test]
fn required_failures_stop_startup() {
    for s in [
        LinkStage::EnsureLink,
        LinkStage::Configure,
        LinkStage::ResolveIndex,
        LinkStage::BringUp,
        LinkStage::SyncPeers,
    ] {
        assert!(!tolerates_failure(s));
        assert_eq!(startup_advance(s, false), LinkStage::Failed);
    }
    assert_eq!(startup_advance(LinkStage::Failed, true), LinkStage::Failed);
}

#[test]
fn shutdown_tears_nat_down_before_the_link() {
    let s = shutdown_advance(ShutdownStage::TeardownNat);
    assert_eq!(s, ShutdownStage::DeleteLink);
    assert_eq!(shutdown_advance(s), ShutdownStage::Done);
    assert_eq!(shutdown_advance(ShutdownStage::Done), ShutdownStage::Done);
}

#[test]
fn client_conf_is_rendered_exactly() {
    let client = Client {
        id: "id-1".to_string(),
        name: "alice".to_string(),
        public_key: "CLIENTPUB".to_string(),
        preshared_key: "PSK".to_string(),
        ipv4: "10.8.0.2".to_string(),
        ipv6: None,
        enabled: 1,
        created_at: "2024-01-01T00:00:00Z".to_string(),
        expires_at: None,
        download_url: None,
        one_time_link: None,
    };
    let iface = Interface {
        id: "iface-1".to_string(),
        name: "wg0".to_string(),
        private_key: "SERVERPRIV".to_string(),
        public_key: "SERVERPUB".to_string(),
        listen_port: 51820,
        ipv4_cidr: "10.8.0.0/24".to_string(),
        ipv6_cidr: None,
    };
    let cfg = AppConfig::from_env(EnvValues {
        wg_host: Some("vpn.example.org".to_string()),
        wg_port: None,
        wg_mtu: None,
        wg_default_address: None,
        wg_default_dns: None,
        wg_allowed_ips: None,
        wg_pre_up: None,
        wg_post_up: None,
        wg_pre_down: None,
        wg_post_down: None,
        port: None,
        insecure: Some("true".to_string()),
        password_hash: None,
        db_path: None,
        static_path: None,
    })
    .expect("valid");
    let conf = build_client_conf(&client, &iface, &cfg);
    let expected = "[Interface]\n\
        PrivateKey = [REPLACE_WITH_YOUR_PRIVATE_KEY]\n\
        Address = 10.8.0.2/32\n\
        DNS = 1.1.1.1\n\
        \n\
        [Peer]\n\
        PublicKey = SERVERPUB\n\
        PresharedKey = PSK\n\
        AllowedIPs = 0.0.0.0/0\n\
        Endpoint = vpn.example.org:51820\n";
    assert_eq!(conf, expected);
}
