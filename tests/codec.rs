use relay_hub::{
    ack_name_of, command_text, decimal_string, decode, encode, parse_params, pointer_command,
    split_pair, split_text, Params,
};

fn pairs(p: &Params) -> Vec<(String, String)> {
    p.entries.clone()
}

fn owned(v: &[(&str, &str)]) -> Vec<(String, String)> {
    v.iter().map(|(k, x)| (k.to_string(), x.to_string())).collect()
}

#[test]
fn decode_splits_pairs_in_order() {
    let d = decode("action=do;param=caps;value=toggle");
    assert_eq!(pairs(&d.params), owned(&[("action", "do"), ("param", "caps"), ("value", "toggle")]));
    assert!(d.malformed.is_empty());
}

#[test]
fn decode_reports_each_malformed_segment() {
    let d = decode("a=1;junk;b=2;;");
    assert_eq!(pairs(&d.params), owned(&[("a", "1"), ("b", "2")]));
    assert_eq!(d.malformed, vec!["junk".to_string(), String::new(), String::new()]);
}

#[test]
fn decode_empty_text_is_one_malformed_segment() {
    let d = decode("");
    assert!(d.params.entries.is_empty());
    assert_eq!(d.malformed, vec![String::new()]);
}

#[test]
fn decode_splits_at_first_equals() {
    let d = decode("url=http://x/?q=1");
    assert_eq!(pairs(&d.params), owned(&[("url", "http://x/?q=1")]));
}

#[test]
fn decode_repeated_key_keeps_first_position_and_last_value() {
    let d = decode("a=1;b=2;a=3");
    assert_eq!(pairs(&d.params), owned(&[("a", "3"), ("b", "2")]));
}

#[test]
fn encode_joins_without_trailing_separator() {
    let p = Params { entries: owned(&[("conns", "2"), ("alice", "50")]) };
    assert_eq!(encode(&p), "conns=2;alice=50");
    assert_eq!(encode(&Params { entries: Vec::new() }), "");
}

#[test]
fn round_trip_of_well_formed_text() {
    let s = "name=alice;pos=10,20;type=move";
    let first = decode(s);
    let again = decode(&encode(&first.params));
    assert_eq!(pairs(&again.params), pairs(&first.params));
    assert!(again.malformed.is_empty());
}

#[test]
fn round_trip_of_mapping() {
    let m = Params { entries: owned(&[("k", "v"), ("", "empty key"), ("x", "")]) };
    let d = decode(&encode(&m));
    assert_eq!(pairs(&d.params), pairs(&m));
    assert!(d.malformed.is_empty());
}

#[test]
fn parse_params_skips_malformed() {
    let p = parse_params("name=bob;oops".to_string());
    assert_eq!(pairs(&p), owned(&[("name", "bob")]));
    assert_eq!(p.get("name"), Some(&"bob".to_string()));
    assert_eq!(p.get("oops"), None);
}

#[test]
fn split_text_keeps_empty_pieces() {
    assert_eq!(split_text(";a;;b", ';'), vec!["", "a", "", "b"]);
    assert_eq!(split_text("", ';'), vec![""]);
}

#[test]
fn split_pair_cases() {
    assert_eq!(split_pair("k=v=w"), Some(("k".to_string(), "v=w".to_string())));
    assert_eq!(split_pair("=v"), Some((String::new(), "v".to_string())));
    assert_eq!(split_pair("kv"), None);
}

#[test]
fn decimal_string_values() {
    assert_eq!(decimal_string(0), "0");
    assert_eq!(decimal_string(7), "7");
    assert_eq!(decimal_string(50), "50");
    assert_eq!(decimal_string(1234567890), "1234567890");
    assert_eq!(decimal_string(u64::MAX), "18446744073709551615");
}

#[test]
fn command_text_builds_triple() {
    assert_eq!(command_text("do", "caps", "toggle"), "action=do;param=caps;value=toggle");
}

#[test]
fn pointer_command_relays_type_and_pos() {
    assert_eq!(pointer_command("pos=10,20;type=mouse"), Some("param=mouse;value=10,20".to_string()));
    assert_eq!(pointer_command("pos=10,20"), None);
    assert_eq!(pointer_command("type=ldown"), None);
}

#[test]
fn ack_name_of_reads_echoed_name() {
    assert_eq!(ack_name_of("username=alice"), Some("alice".to_string()));
    assert_eq!(ack_name_of("username="), Some(String::new()));
    assert_eq!(ack_name_of("name=alice"), None);
    assert_eq!(ack_name_of("user"), None);
}
