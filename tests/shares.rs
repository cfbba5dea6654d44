use smbscan::model::{ScanResult, SMB_PORT};
use smbscan::shares::{
    format_permissions, is_navigation_entry, permissions_of, resolve_hostname, share_records,
    ShareEntry, UserMode,
};

fn entry(name: &str, comment: &str) -> ShareEntry {
    ShareEntry { name: name.to_string(), comment: comment.to_string() }
}

fn row(r: &ScanResult) -> (String, u16, String, String, String, String) {
    (
        r.server.clone(),
        r.port,
        r.hostname.clone(),
        r.share_name.clone(),
        r.permissions.clone(),
        r.comment.clone(),
    )
}

#[test]
fn navigation_entries() {
    assert!(is_navigation_entry("."));
    assert!(is_navigation_entry(".."));
    assert!(!is_navigation_entry("..."));
    assert!(!is_navigation_entry(".x"));
    assert!(!is_navigation_entry(""));
    assert!(!is_navigation_entry("public"));
}

#[test]
fn mode_texts() {
    assert_eq!(format_permissions(&UserMode { read: true, write: true }), "RW");
    assert_eq!(format_permissions(&UserMode { read: true, write: false }), "R-");
    assert_eq!(format_permissions(&UserMode { read: false, write: true }), "-W");
    assert_eq!(format_permissions(&UserMode { read: false, write: false }), "--");
}

#[test]
fn failed_lookup_text() {
    assert_eq!(permissions_of(&None), "--");
    assert_eq!(permissions_of(&Some(UserMode { read: true, write: false })), "R-");
}

#[test]
fn hostname_fallback() {
    assert_eq!(resolve_hostname(Some("FILES01".to_string()), "10.0.0.7"), "FILES01");
    assert_eq!(resolve_hostname(None, "10.0.0.7"), "10.0.0.7");
    assert_eq!(resolve_hostname(Some(String::new()), "10.0.0.7"), "10.0.0.7");
}

#[test]
fn readable_and_failed_shares_reported() {
    let entries = vec![
        entry(".", ""),
        entry("..", ""),
        entry("public", "Public files"),
        entry("backup", "Nightly backups"),
    ];
    let modes = vec![None, None, Some(UserMode { read: true, write: false }), None];
    let rows: Vec<_> = share_records("host", "NB-HOST", &entries, &modes).iter().map(row).collect();
    assert_eq!(
        rows,
        vec![
            (
                "host".to_string(),
                445,
                "NB-HOST".to_string(),
                "public".to_string(),
                "R-".to_string(),
                "Public files".to_string()
            ),
            (
                "host".to_string(),
                445,
                "NB-HOST".to_string(),
                "backup".to_string(),
                "--".to_string(),
                "Nightly backups".to_string()
            ),
        ]
    );
}

#[test]
fn navigation_entries_never_reported() {
    let entries = vec![entry("..", ""), entry("data", ""), entry(".", "")];
    let modes = vec![Some(UserMode { read: true, write: true }); 3];
    let out = share_records("10.0.0.1", "10.0.0.1", &entries, &modes);
    assert_eq!(out.len(), 1);
    assert_eq!(out[0].share_name, "data");
    assert_eq!(out[0].permissions, "RW");
    assert_eq!(out[0].port, SMB_PORT);
}

#[test]
fn empty_listing_gives_no_records() {
    assert!(share_records("h", "h", &vec![], &vec![]).is_empty());
}
