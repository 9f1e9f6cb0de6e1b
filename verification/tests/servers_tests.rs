use emerald_legacy::servers::launch_servers;
use emerald_legacy::servers::{dedupe_servers, encode_server_list, parse_server_list, server_list_bytes, McServer};

fn srv(name: &str, ip: &str, port: u16) -> McServer {
    McServer { name: name.to_string(), ip: ip.to_string(), port }
}

fn view(v: &[McServer]) -> Vec<(String, String, u16)> {
    v.iter().map(|s| (s.name.clone(), s.ip.clone(), s.port)).collect()
}

#[test]
fn server_list_encoding_is_exact() {
    let bytes = encode_server_list(&vec![srv("A", "h", 25565)]);
    let mut want = b"MCSV".to_vec();
    want.extend_from_slice(&1u32.to_le_bytes());
    want.extend_from_slice(&1u32.to_le_bytes());
    want.extend_from_slice(&[1, 0, b'h']);
    want.extend_from_slice(&25565u16.to_le_bytes());
    want.extend_from_slice(&[1, 0, b'A']);
    assert_eq!(bytes, want);
}

#[test]
fn server_list_roundtrip() {
    let s = vec![srv("Ünïcode", "play.example.org", 19132), srv("", "10.0.0.1", 0)];
    assert_eq!(view(&parse_server_list(&encode_server_list(&s))), view(&s));
}

#[test]
fn server_list_without_header_is_empty() {
    assert!(parse_server_list(b"XXXX\x01\0\0\0\x01\0\0\0").is_empty());
    assert!(parse_server_list(b"MCSV").is_empty());
}

#[test]
fn server_list_stops_at_a_cut_record() {
    let mut b = encode_server_list(&vec![srv("a", "b", 1), srv("c", "d", 2)]);
    b.truncate(b.len() - 1);
    assert_eq!(view(&parse_server_list(&b)), vec![("a".to_string(), "b".to_string(), 1)]);
}

#[test]
fn dedupe_keeps_first_of_each_endpoint() {
    let all = vec![srv("one", "h", 1), srv("two", "h", 2), srv("three", "h", 1), srv("four", "g", 1)];
    let d = dedupe_servers(all);
    assert_eq!(
        view(&d),
        vec![
            ("one".to_string(), "h".to_string(), 1),
            ("two".to_string(), "h".to_string(), 2),
            ("four".to_string(), "g".to_string(), 1)
        ]
    );
}

#[test]
fn merged_file_keeps_stored_servers_first() {
    let existing = encode_server_list(&vec![srv("old", "h", 1)]);
    let merged = server_list_bytes(Some(&existing), vec![srv("new", "h", 1), srv("other", "x", 2)]);
    assert_eq!(
        view(&parse_server_list(&merged)),
        vec![("old".to_string(), "h".to_string(), 1), ("other".to_string(), "x".to_string(), 2)]
    );
    let fresh = server_list_bytes(None, vec![srv("n", "h", 3)]);
    assert_eq!(fresh, encode_server_list(&vec![srv("n", "h", 3)]));
}

#[test]
fn launch_adds_online_and_saved_servers() {
    let got = launch_servers(vec![srv("x", "127.0.0.1", 61000)], &[srv("s", "h", 1), srv("t", "h", 1)]);
    assert_eq!(view(&got), vec![("x".to_string(), "127.0.0.1".to_string(), 61000), ("s".to_string(), "h".to_string(), 1)]);
    let got = launch_servers(vec![], &[]);
    assert_eq!(view(&got), vec![("LCEOnline Game".to_string(), "127.0.0.1".to_string(), 61000)]);
}
