use smbscan::network::{network_addresses, IpNet};
use smbscan::targets::{expand_target, has_char, keep_target_line, target_lines, TargetSpecError};

fn strings(v: &[&str]) -> Vec<String> {
    v.iter().map(|s| s.to_string()).collect()
}

#[test]
fn file_lines_drop_comments_and_blanks() {
    let hosts = target_lines("host1\n# comment\n\nhost2\n");
    assert_eq!(hosts, strings(&["host1", "host2"]));
}

#[test]
fn file_lines_are_trimmed() {
    let hosts = target_lines("  alpha  \r\n\t# note\n   \n beta\t\n  #gamma");
    assert_eq!(hosts, strings(&["alpha", "beta"]));
}

#[test]
fn file_lines_of_empty_text() {
    assert!(target_lines("").is_empty());
}

#[test]
fn keep_line_rules() {
    assert!(keep_target_line("10.0.0.1"));
    assert!(!keep_target_line(""));
    assert!(!keep_target_line("#10.0.0.1"));
    assert!(keep_target_line("a#b"));
}

#[test]
fn single_host_stays_single() {
    assert_eq!(expand_target("203.0.113.5"), Ok(strings(&["203.0.113.5"])));
    assert_eq!(expand_target("fileserver"), Ok(strings(&["fileserver"])));
}

#[test]
fn slash_30_network_has_four_hosts() {
    assert_eq!(
        expand_target("10.0.0.0/30"),
        Ok(strings(&["10.0.0.0", "10.0.0.1", "10.0.0.2", "10.0.0.3"]))
    );
}

#[test]
fn network_starts_at_its_base() {
    assert_eq!(
        expand_target("192.168.1.6/30"),
        Ok(strings(&["192.168.1.4", "192.168.1.5", "192.168.1.6", "192.168.1.7"]))
    );
}

#[test]
fn slash_32_network_is_one_host() {
    assert_eq!(expand_target("172.16.0.9/32"), Ok(strings(&["172.16.0.9"])));
}

#[test]
fn slash_24_network_count_and_distinct() {
    let hosts = expand_target("10.1.2.0/24").unwrap();
    assert_eq!(hosts.len(), 256);
    let mut sorted = hosts.clone();
    sorted.sort();
    sorted.dedup();
    assert_eq!(sorted.len(), 256);
    assert_eq!(hosts[0], "10.1.2.0");
    assert_eq!(hosts[255], "10.1.2.255");
}

#[test]
fn ipv6_network_expands() {
    assert_eq!(
        expand_target("2001:db8::/126"),
        Ok(strings(&["2001:db8::", "2001:db8::1", "2001:db8::2", "2001:db8::3"]))
    );
}

#[test]
fn malformed_network_is_refused() {
    assert_eq!(expand_target("10.0.0.0/33"), Err(TargetSpecError::InvalidCidr));
    assert_eq!(expand_target("not/a-network"), Err(TargetSpecError::InvalidCidr));
    assert_eq!(expand_target("10.0.0/8x"), Err(TargetSpecError::InvalidCidr));
}

#[test]
fn oversized_network_is_refused() {
    assert_eq!(expand_target("::/0"), Err(TargetSpecError::NetworkTooLarge));
    assert_eq!(expand_target("2001:db8::/64"), Err(TargetSpecError::NetworkTooLarge));
}

#[test]
fn addresses_of_network() {
    let n = IpNet { v6: false, addr: 0x0a00_0005, prefix: 29 };
    let a = network_addresses(&n);
    assert_eq!(a, (0x0a00_0000u128..0x0a00_0008).collect::<Vec<u128>>());
}

#[test]
fn addresses_at_top_of_space() {
    let n = IpNet { v6: true, addr: u128::MAX, prefix: 126 };
    let a = network_addresses(&n);
    assert_eq!(a, vec![u128::MAX - 3, u128::MAX - 2, u128::MAX - 1, u128::MAX]);
}

#[test]
fn char_search() {
    assert!(has_char("a/b", '/'));
    assert!(!has_char("ab", '/'));
    assert!(!has_char("", '/'));
}
