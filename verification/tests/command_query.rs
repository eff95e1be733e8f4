use ruroonga_client::command_query::CommandQuery;

/// Decodes one percent-escaped query component back to its text.
fn percent_decode(s: &str) -> String {
    let bytes = s.as_bytes();
    let mut out: Vec<u8> = Vec::new();
    let mut i = 0;
    while i < bytes.len() {
        if bytes[i] == b'%' {
            let hex = std::str::from_utf8(&bytes[i + 1..i + 3]).unwrap();
            out.push(u8::from_str_radix(hex, 16).unwrap());
            i += 3;
        } else {
            out.push(bytes[i]);
            i += 1;
        }
    }
    String::from_utf8(out).unwrap()
}

#[test]
fn encode_without_arguments_is_the_command_alone() {
    let q = CommandQuery::new("status".to_string());
    assert_eq!("status", q.encode());
}

#[test]
fn encode_joins_pairs_in_caller_order() {
    let mut q = CommandQuery::new("table_create".to_string());
    q.set_argument(vec![
        ("name".to_string(), "Sites".to_string()),
        ("flags".to_string(), "TABLE_HASH_KEY".to_string()),
        ("key_type".to_string(), "ShortText".to_string()),
    ]);
    assert_eq!(
        "table_create?name=Sites&flags=TABLE_HASH_KEY&key_type=ShortText",
        q.encode()
    );
}

#[test]
fn encode_escapes_reserved_characters() {
    let mut q = CommandQuery::new("select".to_string());
    q.set_argument(vec![
        ("a b".to_string(), "x&y".to_string()),
        ("k=".to_string(), "%".to_string()),
    ]);
    assert_eq!("select?a%20b=x%26y&k%3D=%25", q.encode());
}

#[test]
fn encode_escapes_multibyte_characters() {
    let mut q = CommandQuery::new("select".to_string());
    q.set_argument(vec![("query".to_string(), "caf\u{e9}".to_string())]);
    assert_eq!("select?query=caf%C3%A9", q.encode());
}

#[test]
fn round_trip_recovers_pairs_in_order() {
    let mut q = CommandQuery::new("select".to_string());
    q.set_argument(vec![("table".to_string(), "Sites".to_string())]);
    let encoded = q.encode();
    let (command, rest) = encoded.split_once('?').unwrap();
    assert_eq!("select", command);
    let pairs: Vec<(String, String)> = rest
        .split('&')
        .map(|kv| {
            let (k, v) = kv.split_once('=').unwrap();
            (percent_decode(k), percent_decode(v))
        })
        .collect();
    assert_eq!(vec![("table".to_string(), "Sites".to_string())], pairs);
}

#[test]
fn round_trip_recovers_escaped_pairs_in_order() {
    let mut q = CommandQuery::new("load".to_string());
    let args = vec![
        ("values".to_string(), "[{\"_key\":\"a b\"}]".to_string()),
        ("table".to_string(), "Site&s".to_string()),
    ];
    q.set_argument(args.clone());
    let encoded = q.encode();
    let (command, rest) = encoded.split_once('?').unwrap();
    assert_eq!("load", command);
    let pairs: Vec<(String, String)> = rest
        .split('&')
        .map(|kv| {
            let (k, v) = kv.split_once('=').unwrap();
            (percent_decode(k), percent_decode(v))
        })
        .collect();
    assert_eq!(args, pairs);
}
