use nativeext::{frame_response, request_length, write_ne_u32, ErrorKind, HeaderRead};
use nativeext::{MAX_REQUEST_LEN, MAX_RESPONSE_LEN};

#[test]
fn write_ne_u32_appends_native_bytes() {
    let mut buffer = vec![9u8];
    write_ne_u32(&mut buffer, 0x0102_0304);
    let mut expected = vec![9u8];
    expected.extend_from_slice(&0x0102_0304u32.to_ne_bytes());
    assert_eq!(buffer, expected);
    assert_ne!(&buffer[1..], &[0u8, 0, 0, 0][..]);
    assert_eq!(u32::from_ne_bytes([buffer[1], buffer[2], buffer[3], buffer[4]]), 0x0102_0304);
}

#[test]
fn frame_response_prefixes_length() {
    let payload = br#"{"type":"Pong","req_id":7}"#;
    let framed = frame_response(payload).unwrap();
    assert_eq!(framed.len(), 4 + payload.len());
    assert_eq!(&framed[..4], &(payload.len() as u32).to_ne_bytes()[..]);
    assert_eq!(&framed[4..], &payload[..]);
}

#[test]
fn frame_response_rejects_empty_payload() {
    assert_eq!(frame_response(&[]), Err(ErrorKind::ClientResponseSize));
}

#[test]
fn request_length_decides_from_header() {
    assert_eq!(request_length(HeaderRead::Eof), Ok(None));
    assert_eq!(request_length(HeaderRead::Failed), Err(ErrorKind::Stdin));
    assert_eq!(
        request_length(HeaderRead::Filled(0u32.to_ne_bytes())),
        Err(ErrorKind::ClientRequestSize)
    );
    assert_eq!(
        request_length(HeaderRead::Filled(1u32.to_ne_bytes())),
        Ok(Some(1))
    );
    assert_eq!(
        request_length(HeaderRead::Filled(MAX_REQUEST_LEN.to_ne_bytes())),
        Ok(Some(8192))
    );
    assert_eq!(
        request_length(HeaderRead::Filled((MAX_REQUEST_LEN + 1).to_ne_bytes())),
        Err(ErrorKind::ClientRequestSize)
    );
    assert_eq!(MAX_RESPONSE_LEN, 4_000_000_000);
}

#[test]
fn framed_request_is_read_back() {
    let payload = br#"{"type":"Ping","req_id":14}"#;
    let framed = frame_response(payload).unwrap();
    let header = [framed[0], framed[1], framed[2], framed[3]];
    assert_eq!(request_length(HeaderRead::Filled(header)), Ok(Some(payload.len())));
    assert_eq!(&framed[4..], &payload[..]);
}
