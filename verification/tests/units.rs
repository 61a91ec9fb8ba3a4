//! Unit coverage for the chunking rule, the registry, trust, discovery,
//! synchronisation naming and pairing codes.

use proxishare::chunking::calculate_chunk_size;
use proxishare::discovery::{
    get_local_ips, merge_ips, probe_order, remove_stale, select_best_ip, upsert_device, Device,
    IpKind, NetworkInterface,
};
use proxishare::pairing::{format_pairing_code, request_pairing_code};
use proxishare::registry::{TransferRegistry, TransferStatus};
use proxishare::security::{SecurityService, TrustStore};
use proxishare::sync::{SyncManager, SyncState};

#[test]
fn chunk_size_follows_the_adaptive_rule() {
    assert_eq!(calculate_chunk_size(0), 65536);
    assert_eq!(calculate_chunk_size(800_000), 65536);
    assert_eq!(calculate_chunk_size(1024 * 1024 - 1), 65536);
    assert_eq!(calculate_chunk_size(1024 * 1024), 1024 * 1024);
    assert_eq!(calculate_chunk_size(50 * 1024 * 1024), 1024 * 1024);
    assert_eq!(calculate_chunk_size(100 * 1024 * 1024 - 1), 1024 * 1024);
    assert_eq!(calculate_chunk_size(100 * 1024 * 1024), 4 * 1024 * 1024);
    assert_eq!(calculate_chunk_size(400 * 1024 * 1024), 4 * 1024 * 1024);
}

#[test]
fn registry_controls_only_known_transfers() {
    let mut reg = TransferRegistry::new();
    assert!(!reg.pause_transfer(&"missing".to_string()));
    assert!(!reg.resume_transfer(&"missing".to_string()));
    assert!(!reg.cancel_transfer(&"missing".to_string()));
    reg.insert("t1".to_string(), TransferStatus::InProgress);
    assert_eq!(reg.get(&"t1".to_string()), Some(TransferStatus::InProgress));
    assert!(reg.pause_transfer(&"t1".to_string()));
    assert_eq!(reg.get(&"t1".to_string()), Some(TransferStatus::Paused));
    assert!(reg.resume_transfer(&"t1".to_string()));
    assert_eq!(reg.get(&"t1".to_string()), Some(TransferStatus::InProgress));
    assert!(reg.cancel_transfer(&"t1".to_string()));
    assert_eq!(reg.get(&"t1".to_string()), Some(TransferStatus::Cancelled));
    assert_eq!(reg.status_of(&"unknown".to_string()), TransferStatus::InProgress);
}

#[test]
fn trust_store_pairs_and_unpairs() {
    let store = TrustStore { trusted_devices: vec!["a".to_string()] };
    let mut sec = SecurityService::new(store);
    assert!(sec.is_trusted("a"));
    assert!(!sec.is_trusted("b"));
    sec.add_trusted("b".to_string());
    assert!(sec.is_trusted("b"));
    sec.add_trusted("b".to_string());
    assert!(sec.is_trusted("b"));
    sec.remove_trusted("a");
    assert!(!sec.is_trusted("a"));
    assert!(sec.is_trusted("b"));
}

#[test]
fn address_selection_prefers_private_v4() {
    let addrs = vec![
        IpKind::V6 { first_segment: 0x2001 },
        IpKind::V6 { first_segment: 0xfe80 },
        IpKind::V4 { a: 8, b: 8 },
        IpKind::V4 { a: 192, b: 168 },
        IpKind::V4 { a: 10, b: 0 },
    ];
    // The first private V4 entry wins.
    assert_eq!(select_best_ip(&addrs), Some(3));
    assert_eq!(select_best_ip(&vec![]), None);
    let v6_only = vec![
        IpKind::V6 { first_segment: 0x2001 },
        IpKind::V6 { first_segment: 0xfe81 },
    ];
    // fe81 is still within the link-local fe80::/10 block.
    assert_eq!(select_best_ip(&v6_only), Some(1));
    let v4_public = vec![IpKind::V4 { a: 8, b: 8 }, IpKind::V4 { a: 172, b: 16 }];
    assert_eq!(select_best_ip(&v4_public), Some(1));
}

#[test]
fn local_ips_skip_loopback() {
    let interfaces = vec![
        NetworkInterface { name: "lo".to_string(), ip: "127.0.0.1".to_string(), is_loopback: true },
        NetworkInterface {
            name: "eth0".to_string(),
            ip: "192.168.1.5".to_string(),
            is_loopback: false,
        },
        NetworkInterface {
            name: "wlan0".to_string(),
            ip: "10.0.0.9".to_string(),
            is_loopback: false,
        },
    ];
    let ips = get_local_ips(&interfaces);
    assert_eq!(ips, vec!["192.168.1.5".to_string(), "10.0.0.9".to_string()]);
}

#[test]
fn address_hints_merge_without_duplicates() {
    let primary = vec!["10.0.0.1".to_string(), "192.168.1.2".to_string()];
    let extra = vec![
        "192.168.1.2".to_string(),
        "172.16.0.3".to_string(),
        "172.16.0.3".to_string(),
    ];
    let merged = merge_ips(primary, &extra);
    assert_eq!(
        merged,
        vec!["10.0.0.1".to_string(), "192.168.1.2".to_string(), "172.16.0.3".to_string()]
    );
}

fn device(id: &str, ip: &str, last_seen: i64) -> Device {
    Device {
        id: id.to_string(),
        name: format!("name-{}", id),
        ip: ip.to_string(),
        all_ips: vec![ip.to_string(), "10.0.0.200".to_string()],
        port: 51731,
        last_seen,
    }
}

#[test]
fn device_table_updates_and_evicts() {
    let mut devices = Vec::new();
    upsert_device(&mut devices, device("a", "10.0.0.1", 1000));
    upsert_device(&mut devices, device("b", "10.0.0.2", 1100));
    upsert_device(&mut devices, device("a", "10.0.0.3", 1200));
    assert_eq!(devices.len(), 2);
    assert_eq!(devices[0].ip, "10.0.0.3");
    // Entry `a` was announced at 1200, entry `b` at 1100: at 1400+300-1
    // only `b` has gone stale.
    remove_stale(&mut devices, 1401);
    assert_eq!(devices.len(), 1);
    assert_eq!(devices[0].id, "a");
    remove_stale(&mut devices, 1200 + 300);
    assert!(devices.is_empty());
}

#[test]
fn probe_order_tries_the_preferred_address_first() {
    let d = device("a", "10.0.0.1", 0);
    let order = probe_order(&d);
    assert_eq!(order, vec!["10.0.0.1".to_string(), "10.0.0.200".to_string()]);
}

#[test]
fn conflict_and_backup_names() {
    let m = SyncManager::new("/shared".to_string());
    assert_eq!(m.backup_folder, "/shared/.proxishare/backups");
    assert_eq!(
        m.handle_rename_conflict(&"report".to_string(), &"pdf".to_string(), 1),
        "report.conflict.1.pdf"
    );
    assert_eq!(
        m.handle_rename_conflict(&"report".to_string(), &"".to_string(), 12),
        "report.conflict.12"
    );
    assert_eq!(m.backup_name(&"report.pdf".to_string(), 1700000000), "report.pdf.1700000000.bak");
}

#[test]
fn last_writer_wins() {
    let m = SyncManager::new("/shared".to_string());
    assert!(m.should_overwrite(None, 5));
    assert!(m.should_overwrite(Some(4), 5));
    assert!(!m.should_overwrite(Some(5), 5));
    assert!(!m.should_overwrite(Some(6), 5));
}

#[test]
fn sync_state_starts_empty() {
    let s = SyncState::new();
    assert!(s.shared_folder.is_none());
    assert!(s.manager.is_none());
}

#[test]
fn pairing_codes_are_six_digits() {
    assert_eq!(format_pairing_code(0), "000000");
    assert_eq!(format_pairing_code(7), "000007");
    assert_eq!(format_pairing_code(42751), "042751");
    assert_eq!(format_pairing_code(999999), "999999");
    let code = request_pairing_code();
    assert_eq!(code.len(), 6);
    assert!(code.chars().all(|c| c.is_ascii_digit()));
}
