//! The handshake accept-token computation and the 101 Switching Protocols
//! response. The SHA-1 digest and the base64 rendering come from outside
//! crates behind trusted wrappers; everything around them is verified.
use vstd::prelude::*;
use vstd::string::StrSliceExecFns;
use vstd::utf8::encode_utf8;
use rustc_serialize::base64::{ToBase64, STANDARD};
use sha1::Digest;

verus! {

/// The SHA-1 digest of a byte string, named: it is a function of the bytes
/// alone, and no short statement gives its value.
pub uninterp spec fn sha1_of(bytes: Seq<u8>) -> Seq<u8>;

/// The standard (RFC 4648, padded, unwrapped) base64 rendering of a byte
/// string, named for the same reason.
pub uninterp spec fn base64_of(bytes: Seq<u8>) -> Seq<char>;

/// Relies on sha1::Sha1 (through digest::Digest::digest): the digest depends
/// on the input bytes alone and is 20 bytes long.
#[verifier::external_body]
fn sha1_digest(input: &Vec<u8>) -> (r: Vec<u8>)
    ensures
        r@ == sha1_of(input@),
        r@.len() == 20,
{
    let d = sha1::Sha1::digest(input.as_slice());
    d.to_vec()
}

/// Relies on rustc_serialize's ToBase64 for [u8] with the STANDARD config:
/// the rendering depends on the input bytes alone (no line wrapping).
#[verifier::external_body]
fn base64_encode(input: &Vec<u8>) -> (r: String)
    ensures
        r@ == base64_of(input@),
{
    input.as_slice().to_base64(STANDARD)
}

/// The GUID the handshake appends to the client's key before hashing.
pub open spec fn ws_guid() -> Seq<char> {
    "258EAFA5-E914-47DA-95CA-C5AB0DC85B11"@
}

/// The accept token owed for a client key: base64 of the SHA-1 digest of the
/// key's bytes followed by the GUID's bytes.
pub open spec fn accept_token_of(key: Seq<char>) -> Seq<char> {
    base64_of(sha1_of(encode_utf8(key) + encode_utf8(ws_guid())))
}

/// Computes the handshake accept token for a client-supplied key.
pub fn gen_key(key: &String) -> (r: String)
    ensures
        r@ == accept_token_of(key@),
{
    let mut data = key.as_str().as_bytes_vec();
    let guid: &str = "258EAFA5-E914-47DA-95CA-C5AB0DC85B11";
    let mut gb = guid.as_bytes_vec();
    data.append(&mut gb);
    let digest = sha1_digest(&data);
    base64_encode(&digest)
}

/// The 101 response up to the accept token.
pub open spec fn response_prefix() -> Seq<char> {
    "HTTP/1.1 101 Switching Protocols\r\nConnection: Upgrade\r\nSec-WebSocket-Accept: "@
}

/// The 101 response after the accept token.
pub open spec fn response_suffix() -> Seq<char> {
    "\r\nUpgrade: websocket\r\n\r\n"@
}

/// The full 101 Switching Protocols response owed for a client key.
pub open spec fn upgrade_response_bytes(key: Seq<char>) -> Seq<u8> {
    encode_utf8(response_prefix()) + encode_utf8(accept_token_of(key)) + encode_utf8(
        response_suffix(),
    )
}

/// Builds the 101 Switching Protocols response for a client key.
pub fn upgrade_response(key: &String) -> (r: Vec<u8>)
    ensures
        r@ == upgrade_response_bytes(key@),
{
    let token = gen_key(key);
    let mut r =
        "HTTP/1.1 101 Switching Protocols\r\nConnection: Upgrade\r\nSec-WebSocket-Accept: ".as_bytes_vec();
    let mut tb = token.as_str().as_bytes_vec();
    r.append(&mut tb);
    let mut sb = "\r\nUpgrade: websocket\r\n\r\n".as_bytes_vec();
    r.append(&mut sb);
    r
}

} // verus!
