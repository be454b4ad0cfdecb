use ws_chat::handshake::{gen_key, upgrade_response};

#[test]
fn accept_token_rfc_vector() {
    let key = String::from("dGhlIHNhbXBsZSBub25jZQ==");
    assert_eq!(gen_key(&key), "s3pPLMBiTxaQ9kYGzzhZRbK+xOo=");
}

#[test]
fn accept_token_differs_for_other_keys() {
    let a = gen_key(&String::from("dGhlIHNhbXBsZSBub25jZQ=="));
    let b = gen_key(&String::from("AAAAAAAAAAAAAAAAAAAAAA=="));
    assert_ne!(a, b);
}

#[test]
fn accept_token_deterministic() {
    let key = String::from("x3JJHMbDL1EzLkh9GBhXDw==");
    assert_eq!(gen_key(&key), gen_key(&key));
    assert_eq!(gen_key(&key), "HSmrc0sMlYUkAGmm5OPpG2HaGWk=");
}

#[test]
fn upgrade_response_exact_bytes() {
    let key = String::from("dGhlIHNhbXBsZSBub25jZQ==");
    let response = upgrade_response(&key);
    let expected = "HTTP/1.1 101 Switching Protocols\r\nConnection: Upgrade\r\nSec-WebSocket-Accept: s3pPLMBiTxaQ9kYGzzhZRbK+xOo=\r\nUpgrade: websocket\r\n\r\n";
    assert_eq!(response, expected.as_bytes().to_vec());
}
