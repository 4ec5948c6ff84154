use sak::linux::hook::sysctl_is_read;

fn a(parts: &[&str]) -> Vec<String> {
    parts.iter().map(|s| s.to_string()).collect()
}

#[test]
fn sysctl_reads_are_distinguished_from_writes() {
    // Reads
    assert!(sysctl_is_read(&a(&[])));
    assert!(sysctl_is_read(&a(&["-a"])));
    assert!(sysctl_is_read(&a(&["--all"])));
    assert!(sysctl_is_read(&a(&["net.ipv4.tcp_syncookies"])));
    assert!(sysctl_is_read(&a(&["-n", "kernel.hostname"])));
    // Writes: key=value form (with or without -w) and config-load flags.
    assert!(!sysctl_is_read(&a(&["-w", "net.ipv4.ip_forward=1"])));
    assert!(!sysctl_is_read(&a(&["net.ipv4.ip_forward=1"])));
    assert!(!sysctl_is_read(&a(&["-p"])));
    assert!(!sysctl_is_read(&a(&["-p", "/etc/sysctl.conf"])));
    assert!(!sysctl_is_read(&a(&["--system"])));
}
