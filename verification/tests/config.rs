use nativeext::{config_response, decode_config_message, message_to_string, split_key_value};
use nativeext::{ErrorKind, Response};

#[test]
fn split_key_value_works() {
    assert_eq!(split_key_value("abc=def"), Some(("abc", "def")));
    assert_eq!(
        split_key_value("  abc  = def  ghi  \n "),
        Some(("  abc  ", " def  ghi  \n "))
    );
    assert_eq!(split_key_value("abc==def"), Some(("abc", "=def")));
    assert_eq!(split_key_value(""), None);
    assert_eq!(split_key_value("="), None);
    assert_eq!(split_key_value("abc="), None);
    assert_eq!(split_key_value("=def"), None);
    assert_eq!(split_key_value("=="), None);
    assert_eq!(split_key_value("==="), None);
}

#[test]
fn split_key_value_reassembles_non_ascii() {
    let input = "clé=värde=ü";
    let (key, value) = split_key_value(input).unwrap();
    assert_eq!(key, "clé");
    assert_eq!(value, "värde=ü");
    assert_eq!(format!("{}={}", key, value), input);
}

#[test]
fn message_to_string_needs_one_frame() {
    assert_eq!(message_to_string(vec![]), Err(ErrorKind::ConfigMessageSize));
    assert_eq!(
        message_to_string(vec![b"a=b".to_vec(), b"c=d".to_vec()]),
        Err(ErrorKind::ConfigMessageSize)
    );
}

#[test]
fn message_to_string_decodes_utf8() {
    assert_eq!(message_to_string(vec![b"foo=4".to_vec()]), Ok("foo=4".to_string()));
    assert_eq!(
        message_to_string(vec!["日本=語".as_bytes().to_vec()]),
        Ok("日本=語".to_string())
    );
    assert_eq!(
        message_to_string(vec![vec![0x66, 0xff, 0x3d, 0x31]]),
        Err(ErrorKind::ConfigMessageDeserialize)
    );
}

#[test]
fn decode_config_message_splits_pair() {
    assert_eq!(
        decode_config_message(vec![b"bar=\"something\"".to_vec()]),
        Ok(("bar".to_string(), "\"something\"".to_string()))
    );
    assert_eq!(
        decode_config_message(vec![b"no separator".to_vec()]),
        Err(ErrorKind::ConfigMessageDeserialize)
    );
    assert_eq!(
        decode_config_message(vec![b"=24".to_vec()]),
        Err(ErrorKind::ConfigMessageDeserialize)
    );
}

#[test]
fn config_response_for_each_outcome() {
    assert_eq!(
        config_response(Some(vec![b"baz=24".to_vec()])),
        Response::UpdateConfig {
            key: "baz".to_string(),
            value: "24".to_string(),
        }
    );
    assert_eq!(
        config_response(None),
        Response::Error {
            req_id: None,
            error: ErrorKind::ConfigReceive,
        }
    );
    assert_eq!(
        config_response(Some(vec![])),
        Response::Error {
            req_id: None,
            error: ErrorKind::ConfigMessageSize,
        }
    );
    assert_eq!(
        config_response(Some(vec![b"foo=".to_vec()])),
        Response::Error {
            req_id: None,
            error: ErrorKind::ConfigMessageDeserialize,
        }
    );
}
