use lexi_client::lexi_data::{LexiData, SimpleString};
use lexi_client::lexi_type::LexiType;
use lexi_client::multi::Multi;
use lexi_client::parser::decode;
use lexi_client::wire::DecodeError;

#[test]
fn set_command_has_exact_bytes() {
    let buf = Multi::new()
        .add_set("vince", LexiType::BulkString("is cool".to_string()))
        .build_cmd();
    assert_eq!(
        String::from_utf8(buf).unwrap(),
        "*3\r\n$3\r\nSET\r\n$5\r\nvince\r\n$7\r\nis cool\r\n"
    );
}

#[test]
fn pipeline_decodes_one_response_per_command() {
    let m = Multi::new().add_ping().add_get("vince");
    let request = m.build_cmd();
    assert_eq!(
        String::from_utf8(request).unwrap(),
        "+PING\r\n*2\r\n$3\r\nGET\r\n$5\r\nvince\r\n"
    );
    let responses = m.parse_responses(b"+PONG\r\n$7\r\nis cool\r\n").unwrap();
    assert_eq!(responses.len(), 2);
    assert!(matches!(
        responses[0],
        LexiData::Simple(SimpleString::Pong)
    ));
    assert!(matches!(&responses[1], LexiData::Bulk(b) if b == b"is cool"));
}

#[test]
fn pipeline_reports_short_responses() {
    let m = Multi::new().add_ping().add_get("vince");
    assert_eq!(
        m.parse_responses(b"+PONG\r\n").unwrap_err(),
        DecodeError::IncompleteFrame
    );
}

#[test]
fn command_shapes_decode_as_documented() {
    let cases: Vec<(Vec<u8>, Vec<&str>)> = vec![
        (
            Multi::new().add_get("k").build_cmd(),
            vec!["GET", "k"],
        ),
        (
            Multi::new().add_del("k").build_cmd(),
            vec!["DEL", "k"],
        ),
        (
            Multi::new()
                .add_push(LexiType::BulkString("v".to_string()))
                .build_cmd(),
            vec!["PUSH", "v"],
        ),
        (
            Multi::new()
                .add_enque(LexiType::BulkString("v".to_string()))
                .build_cmd(),
            vec!["ENQUE", "v"],
        ),
        (
            Multi::new().add_cluster_new("c").build_cmd(),
            vec!["CLUSTER.NEW", "c"],
        ),
        (
            Multi::new()
                .add_cluster_set("c", "k", LexiType::BulkString("v".to_string()))
                .build_cmd(),
            vec!["CLUSTER.SET", "c", "k", "v"],
        ),
        (
            Multi::new().add_cluster_get("c", "k").build_cmd(),
            vec!["CLUSTER.GET", "c", "k"],
        ),
        (
            Multi::new().add_cluster_del("c", "k").build_cmd(),
            vec!["CLUSTER.DEL", "c", "k"],
        ),
        (
            Multi::new()
                .add_cluster_push("c", LexiType::BulkString("v".to_string()))
                .build_cmd(),
            vec!["CLUSTER.PUSh", "c", "v"],
        ),
        (
            Multi::new().add_cluster_pop("c").build_cmd(),
            vec!["CLUSTER.POP", "c"],
        ),
        (
            Multi::new().add_cluster_keys("c").build_cmd(),
            vec!["CLUSTER.KEYS", "c"],
        ),
        (
            Multi::new().add_cluster_values("c").build_cmd(),
            vec!["CLUSTER.VALUES", "c"],
        ),
        (
            Multi::new().add_cluster_entries("c").build_cmd(),
            vec!["CLUSTER.ENTRIES", "c"],
        ),
        (
            Multi::new().add_cluster_drop("c").build_cmd(),
            vec!["CLUSTER.DROP", "c"],
        ),
    ];
    for (bytes, fields) in cases {
        match decode(&bytes).unwrap() {
            LexiData::Array(items) => {
                assert_eq!(items.len(), fields.len());
                for (item, field) in items.iter().zip(fields.iter()) {
                    assert!(matches!(item, LexiData::Bulk(b) if b == field.as_bytes()));
                }
            },
            other => panic!("expected an array frame, got {:?}", other),
        }
    }
}

#[test]
fn name_only_commands_are_single_bulk_frames() {
    let cases: Vec<(Vec<u8>, &str)> = vec![
        (Multi::new().add_pop().build_cmd(), "POP"),
        (Multi::new().add_deque().build_cmd(), "DEQUE"),
        (Multi::new().add_keys().build_cmd(), "KEYS"),
        (Multi::new().add_values().build_cmd(), "VALUES"),
        (Multi::new().add_entries().build_cmd(), "ENTRIES"),
    ];
    for (bytes, name) in cases {
        match decode(&bytes).unwrap() {
            LexiData::Bulk(b) => assert_eq!(b, name.as_bytes()),
            other => panic!("expected a bulk frame, got {:?}", other),
        }
    }
}

#[test]
fn int_valued_set_encodes_an_int_frame() {
    let buf = Multi::new().add_set("n", LexiType::Int(-7)).build_cmd();
    assert_eq!(String::from_utf8(buf).unwrap(), "*3\r\n$3\r\nSET\r\n$1\r\nn\r\n:-7\r\n");
}
