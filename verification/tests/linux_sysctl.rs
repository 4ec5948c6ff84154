use sak::linux::sysctl::path_to_key;

#[test]
fn path_to_key_dots_the_relative_path() {
    let base = "/proc/sys";
    assert_eq!(
        path_to_key("/proc/sys/net/ipv4/tcp_syncookies", base).as_deref(),
        Some("net.ipv4.tcp_syncookies")
    );
    assert_eq!(
        path_to_key("/proc/sys/kernel/hostname", base).as_deref(),
        Some("kernel.hostname")
    );
}

#[test]
fn path_to_key_rejects_base_itself() {
    let base = "/proc/sys";
    assert_eq!(path_to_key("/proc/sys", base), None);
}

#[test]
fn path_to_key_rejects_path_outside_base() {
    let base = "/proc/sys";
    assert_eq!(path_to_key("/etc/passwd", base), None);
}
