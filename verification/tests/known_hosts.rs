use tunnet_core::known_hosts::{known_hosts_body, known_hosts_line, upsert_known_hosts};
use tunnet_core::routing::types::PeerEntry;

fn peer(ip: u32, hostname: &str, key: Option<&str>) -> PeerEntry {
    PeerEntry {
        ip,
        endpoint_id: format!("id of {ip}"),
        hostname: hostname.to_string(),
        tags: vec![],
        ssh_host_key: key.map(|k| k.to_string()),
    }
}

#[test]
fn formats_known_hosts_line() {
    let line = known_hosts_line(
        &["10.21.0.1", "db"],
        "ssh-ed25519 AAAAC3NzaC1lZDI1NTE5AAAAIFake comment",
    )
    .unwrap();
    assert_eq!(line, "10.21.0.1,db ssh-ed25519 AAAAC3NzaC1lZDI1NTE5AAAAIFake");
}

#[test]
fn sync_writes_file() {
    let peers = vec![peer(
        0x0a15_0002,
        "db",
        Some("ssh-ed25519 AAAAC3NzaC1lZDI1NTE5AAAAITest"),
    )];
    let body = known_hosts_body(&peers, "tunnet");
    assert!(body.contains("10.21.0.2"));
    assert!(body.contains("db.tunnet"));
    assert!(body.contains("ssh-ed25519 AAAAC3NzaC1lZDI1NTE5AAAAITest"));
}

#[test]
fn lines_need_hosts_and_a_key() {
    assert_eq!(known_hosts_line(&[], "ssh-ed25519 AAAA"), None);
    assert_eq!(known_hosts_line(&["db"], ""), None);
    assert_eq!(known_hosts_line(&["db"], "ssh-ed25519"), None);
    assert_eq!(
        known_hosts_line(&["db"], "  ssh-ed25519   AAAA  x y ").unwrap(),
        "db ssh-ed25519 AAAA"
    );
}

#[test]
fn body_is_sorted_and_skips_peers_without_keys() {
    let peers = vec![
        peer(0x0a15_0009, "web", Some("ssh-ed25519 BBBB")),
        peer(0x0a15_0003, "nokey", None),
        peer(0x0a15_0001, "db", Some("ssh-ed25519 AAAA")),
    ];
    let body = known_hosts_body(&peers, ".mesh.");
    let lines: Vec<&str> = body.lines().collect();
    assert_eq!(lines.len(), 2);
    assert!(lines[0] < lines[1]);
    assert!(!body.contains("nokey"));
    assert!(body.ends_with('\n'));
    assert_eq!(known_hosts_body(&[], "mesh"), "");
}

#[test]
fn an_entry_replaces_those_of_its_hosts() {
    let existing = "# a comment\ndb,10.21.0.1 ssh-ed25519 OLD\nweb ssh-ed25519 KEEP\n";
    let body = upsert_known_hosts(existing, &["db"], "ssh-ed25519 NEW").unwrap();
    assert!(!body.contains("OLD"));
    assert!(body.contains("db ssh-ed25519 NEW\n"));
    assert!(body.contains("web ssh-ed25519 KEEP\n"));
    assert!(body.contains("# a comment\n"));
    assert_eq!(upsert_known_hosts(existing, &["db"], "bad"), None);
}

#[test]
fn an_entry_is_added_once() {
    let existing = "\n  web ssh-ed25519 KEEP  \n# a comment\ndb ssh-ed25519 OLD";
    let hosts = [" db ", "10.7.0.5"];
    let once = upsert_known_hosts(existing, &hosts, "ssh-ed25519 NEW me").unwrap();
    assert_eq!(
        once,
        "\n# a comment\ndb ssh-ed25519 OLD\ndb,10.7.0.5 ssh-ed25519 NEW\nweb ssh-ed25519 KEEP\n"
    );
    assert_eq!(upsert_known_hosts(&once, &hosts, "ssh-ed25519 NEW me").unwrap(), once);
}
