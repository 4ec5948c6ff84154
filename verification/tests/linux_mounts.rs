use sak::linux::mounts::{mount_info_json, parse_mountinfo, parse_mounts, MountEntry};
use sak::value::Json;

const MOUNTINFO: &str = "\
21 28 0:20 / /sys rw,nosuid,nodev,noexec,relatime shared:7 - sysfs sysfs rw
24 28 0:5 / /dev rw,nosuid shared:2 - devtmpfs devtmpfs rw,size=8192k
26 24 0:23 / /dev/shm rw,nosuid,nodev shared:4 - tmpfs tmpfs rw
30 28 8:1 / / rw,relatime shared:1 - ext4 /dev/sda1 rw,errors=remount-ro
100 30 8:1 /srv/data /mnt/bind rw,relatime shared:1 - ext4 /dev/sda1 rw,errors=remount-ro
200 30 0:50 / /var/lib/docker/overlay2/abc/merged rw,relatime - overlay overlay rw,lowerdir=/a,upperdir=/b
";

const MOUNTS: &str = "\
/dev/sda1 / ext4 rw,relatime 0 0
tmpfs /dev/shm tmpfs rw,nosuid,nodev 0 0
overlay /var/lib/docker/overlay2/abc/merged overlay rw,relatime,lowerdir=/a 0 0
";

#[test]
fn parses_root_mount_fixed_fields() {
    let mounts = parse_mountinfo(MOUNTINFO);
    assert_eq!(mounts.len(), 6);
    let root = mounts.iter().find(|m| m.mount_id == "30").unwrap();
    assert_eq!(root.parent, "28");
    assert_eq!(root.device, "8:1");
    assert_eq!(root.root, "/");
    assert_eq!(root.mount_point, "/");
    assert_eq!(root.options, "rw,relatime");
    assert_eq!(root.fs_type, "ext4");
    assert_eq!(root.source, "/dev/sda1");
}

#[test]
fn bind_mount_has_non_root_subtree() {
    let mounts = parse_mountinfo(MOUNTINFO);
    let bind = mounts.iter().find(|m| m.mount_id == "100").unwrap();
    assert_eq!(bind.root, "/srv/data");
    assert_eq!(bind.mount_point, "/mnt/bind");
    assert_eq!(bind.fs_type, "ext4");
}

#[test]
fn overlay_mount_with_zero_optional_fields() {
    let mounts = parse_mountinfo(MOUNTINFO);
    let overlay = mounts.iter().find(|m| m.mount_id == "200").unwrap();
    // No optional fields: the `-` comes right after the mount options.
    assert_eq!(overlay.options, "rw,relatime");
    assert_eq!(overlay.fs_type, "overlay");
    assert_eq!(overlay.source, "overlay");
}

#[test]
fn skips_lines_without_separator() {
    let mounts = parse_mountinfo("30 28 8:1 / / rw,relatime ext4 /dev/sda1 rw\n");
    assert!(mounts.is_empty());
}

#[test]
fn parses_proc_mounts_fallback() {
    let entries = parse_mounts(MOUNTS);
    assert_eq!(entries.len(), 3);
    assert_eq!(
        entries[0],
        MountEntry {
            device: "/dev/sda1".to_string(),
            mount_point: "/".to_string(),
            fs_type: "ext4".to_string(),
            options: "rw,relatime".to_string(),
        }
    );
}

#[test]
fn mountinfo_json_has_full_column_set() {
    let mounts = parse_mountinfo(MOUNTINFO);
    let root = mounts.iter().find(|m| m.mount_id == "30").unwrap();
    let v = mount_info_json(root);
    assert_eq!(v.get("device").and_then(Json::as_str), Some("8:1"));
    assert_eq!(v.get("fs_type").and_then(Json::as_str), Some("ext4"));
    assert_eq!(v.get("source").and_then(Json::as_str), Some("/dev/sda1"));
}
