use blocky::blocklist::BlockedServers;
use sha1::{Digest, Sha1};

fn entry(name: &str) -> String {
    hex::encode(Sha1::digest(name.as_bytes()))
}

fn sample_list() -> BlockedServers {
    let text = format!(
        "  {}\n{}\n{}\n{}\n{}  ",
        entry("blocked.example"),
        entry("*.wild.example"),
        entry("10.11.12.13"),
        entry("192.168.*"),
        entry("1.2.3.04"),
    );
    BlockedServers::from_response_text(&text)
}

#[test]
fn test_from_response_text_trims_and_splits() {
    let list = BlockedServers::from_response_text("  aa\nbb\ncc  ");
    assert_eq!(list.hashes().len(), 3);
    assert_eq!(list.hashes()[0], "aa");
    assert_eq!(list.hashes()[1], "bb");
    assert_eq!(list.hashes()[2], "cc");
}

#[test]
fn test_contains_hashes_the_name() {
    let list = sample_list();
    assert!(list.contains("blocked.example"));
    assert!(!list.contains("clean.example"));
    // The stored entries are hex digests, not the names themselves.
    assert!(!list.contains(&entry("blocked.example")));
}

#[test]
fn test_domain_blocked_exact_and_case_folded() {
    let list = sample_list();
    assert!(list.is_domain_blocked("blocked.example"));
    assert!(list.is_domain_blocked("BLOCKED.Example"));
    assert!(!list.is_domain_blocked("fine.example"));
    assert!(!list.is_domain_blocked(""));
}

#[test]
fn test_domain_blocked_wildcard_suffixes() {
    let list = sample_list();
    assert!(list.is_domain_blocked("deep.nested.wild.example"));
    assert!(list.is_domain_blocked("sub.wild.example"));
    // The first candidate is the whole name behind a wildcard, so the
    // bare suffix matches too.
    assert!(list.is_domain_blocked("wild.example"));
    assert!(!list.is_domain_blocked("otherwild.example"));
    assert!(!list.is_domain_blocked("wild.example.org"));
}

#[test]
fn test_addr_blocked_exact_and_wildcards() {
    let list = sample_list();
    assert!(list.is_addr_blocked([10, 11, 12, 13]));
    assert!(!list.is_addr_blocked([10, 11, 12, 14]));
    assert!(list.is_addr_blocked([192, 168, 0, 1]));
    assert!(list.is_addr_blocked([192, 168, 255, 255]));
    assert!(!list.is_addr_blocked([192, 169, 0, 1]));
}

#[test]
fn test_is_blocked_dispatches_on_address_shape() {
    let list = sample_list();
    assert!(list.is_blocked("10.11.12.13"));
    assert!(list.is_blocked("192.168.7.7"));
    assert!(list.is_blocked("blocked.example"));
    assert!(!list.is_blocked("203.0.113.9"));
    // A leading zero keeps the text from being an address, so it goes
    // down the domain path, where its exact hash is listed.
    assert!(list.is_blocked("1.2.3.04"));
    // As a well-formed address the same octets are not listed.
    assert!(!list.is_blocked("1.2.3.4"));
}
