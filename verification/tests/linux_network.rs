use sak::linux::network::{decode_v4, decode_v6, parse_line, state_name, Conn};

const TCP4: &str = "\
  sl  local_address rem_address   st tx_queue rx_queue tr tm->when retrnsmt   uid  timeout inode
   0: 0100007F:0035 00000000:0000 0A 00000000:00000000 00:00000000 00000000     0        0 12345 1 0000000000000000 100 0 0 10 0
   1: 0100007F:1538 0100007F:8AE2 01 00000000:00000000 00:00000000 00000000  1000        0 67890 1 0000000000000000 20 0 0 10 0
";

const TCP6: &str = "\
  sl  local_address                         remote_address                        st tx_queue rx_queue tr tm->when retrnsmt   uid  timeout inode
   0: 00000000000000000000000000000000:1538 00000000000000000000000000000000:0000 0A 00000000:00000000 00:00000000 00000000     0        0 11111 1 0000000000000000 100 0 0 10 0
   1: 00000000000000000000000001000000:0050 00000000000000000000000001000000:CF24 01 00000000:00000000 00:00000000 00000000  1000        0 22222 1 0000000000000000 20 0 0 10 0
";

#[test]
fn decode_v4_reverses_byte_order() {
    assert_eq!(decode_v4("0100007F").as_deref(), Some("127.0.0.1"));
    assert_eq!(decode_v4("00000000").as_deref(), Some("0.0.0.0"));
    assert_eq!(decode_v4("0101A8C0").as_deref(), Some("192.168.1.1"));
}

#[test]
fn decode_v4_rejects_wrong_length() {
    assert_eq!(decode_v4("0100"), None);
}

#[test]
fn decode_v6_swaps_each_word() {
    assert_eq!(
        decode_v6("00000000000000000000000001000000").as_deref(),
        Some("::1")
    );
    assert_eq!(
        decode_v6("00000000000000000000000000000000").as_deref(),
        Some("::")
    );
}

#[test]
fn state_codes_map_to_names() {
    assert_eq!(state_name("0A"), "LISTEN");
    assert_eq!(state_name("01"), "ESTABLISHED");
    assert_eq!(state_name("06"), "TIME_WAIT");
    // Unknown code passes through.
    assert_eq!(state_name("FF"), "FF");
}

#[test]
fn parses_v4_line() {
    let lines: Vec<&str> = TCP4.lines().collect();
    let listen = parse_line("tcp", lines[1]).unwrap();
    assert_eq!(
        listen,
        Conn {
            proto: "tcp".into(),
            state: "LISTEN".into(),
            local: "127.0.0.1:53".into(),
            remote: "0.0.0.0:0".into(),
            uid: "0".into(),
            inode: "12345".into(),
        }
    );
    let est = parse_line("tcp", lines[2]).unwrap();
    assert_eq!(est.state, "ESTABLISHED");
    assert_eq!(est.local, "127.0.0.1:5432");
    assert_eq!(est.remote, "127.0.0.1:35554");
    assert_eq!(est.uid, "1000");
    assert_eq!(est.inode, "67890");
}

#[test]
fn parses_v6_line() {
    let lines: Vec<&str> = TCP6.lines().collect();
    let est = parse_line("tcp6", lines[2]).unwrap();
    assert_eq!(est.local, "[::1]:80");
    assert_eq!(est.remote, "[::1]:53028");
    assert_eq!(est.state, "ESTABLISHED");
}

#[test]
fn header_line_is_skipped() {
    let lines: Vec<&str> = TCP4.lines().collect();
    assert_eq!(parse_line("tcp", lines[0]), None);
}
