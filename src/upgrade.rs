use vstd::prelude::*;
use crate::shared::LibError;

verus! {

/// The SHA-1 digest of a byte string.
pub uninterp spec fn sha1_of(data: Seq<u8>) -> Seq<u8>;

/// The standard, padded base64 text of a byte string, as ASCII bytes.
pub uninterp spec fn base64_of(data: Seq<u8>) -> Seq<u8>;

/// Relies on `sha1::Sha1` through `digest::Digest::digest`: the 20-byte SHA-1 digest
/// of `data`, which depends on `data` alone.
#[verifier::external_body]
fn sha1_digest(data: &[u8]) -> (r: Vec<u8>)
    ensures
        r@ == sha1_of(data@),
        r@.len() == 20,
{
    <sha1::Sha1 as sha1::Digest>::digest(data).to_vec()
}

/// Relies on `base64::Engine::encode` with the `STANDARD` engine (padded): the
/// base64 text of `data`, which depends on `data` alone. The engine panics when the
/// output length overflows `usize`, which the bound on `data` rules out.
#[verifier::external_body]
fn base64_encode(data: &[u8]) -> (r: Vec<u8>)
    requires
        data@.len() <= usize::MAX / 2,
    ensures
        r@ == base64_of(data@),
{
    base64::Engine::encode(&base64::engine::general_purpose::STANDARD, data).into_bytes()
}

/// Relies on `rand::fill` over a 16-byte array: sixteen bytes from the thread's
/// random generator.
#[verifier::external_body]
fn random_key_bytes() -> (r: Vec<u8>)
    ensures
        r@.len() == 16,
{
    let mut key = [0u8; 16];
    rand::fill(&mut key);
    key.to_vec()
}

/// The GUID that RFC 6455 appends to the client key.
pub open spec fn magic_spec() -> Seq<u8> {
    seq![50, 53, 56, 69, 65, 70, 65, 53, 45, 69, 57, 49, 52, 45, 52, 55, 68, 65, 45, 57, 53, 67, 65, 45, 67, 53, 65, 66, 48, 68, 67, 56, 53, 66, 49, 49]
}

pub fn magic() -> (r: Vec<u8>)
    ensures
        r@ == magic_spec(),
{
    let r: Vec<u8> = vec![50, 53, 56, 69, 65, 70, 65, 53, 45, 69, 57, 49, 52, 45, 52, 55, 68, 65, 45, 57, 53, 67, 65, 45, 67, 53, 65, 66, 48, 68, 67, 56, 53, 66, 49, 49];
    assert(r@ =~= magic_spec());
    r
}

/// The fixed response that accepts an upgrade to h2c.
pub open spec fn h2c_upgrade_spec() -> Seq<u8> {
    seq![72, 84, 84, 80, 47, 49, 46, 49, 32, 49, 48, 49, 32, 83, 119, 105, 116, 99, 104, 105, 110, 103, 32, 80, 114, 111, 116, 111, 99, 111, 108, 115, 13, 10, 67, 111, 110, 110, 101, 99, 116, 105, 111, 110, 58, 32, 85, 112, 103, 114, 97, 100, 101, 13, 10, 85, 112, 103, 114, 97, 100, 101, 58, 32, 104, 50, 99, 13, 10, 13, 10]
}

/// `HTTP/1.1 101 Switching Protocols` with `Connection: Upgrade` and `Upgrade: h2c`.
pub fn h2c_upgrade_response() -> (r: Vec<u8>)
    ensures
        r@ == h2c_upgrade_spec(),
{
    let r: Vec<u8> = vec![72, 84, 84, 80, 47, 49, 46, 49, 32, 49, 48, 49, 32, 83, 119, 105, 116, 99, 104, 105, 110, 103, 32, 80, 114, 111, 116, 111, 99, 111, 108, 115, 13, 10, 67, 111, 110, 110, 101, 99, 116, 105, 111, 110, 58, 32, 85, 112, 103, 114, 97, 100, 101, 13, 10, 85, 112, 103, 114, 97, 100, 101, 58, 32, 104, 50, 99, 13, 10, 13, 10];
    assert(r@ =~= h2c_upgrade_spec());
    r
}

/// The head of the response that accepts a WebSocket upgrade, up to the accept value.
pub open spec fn ws_upgrade_head_spec() -> Seq<u8> {
    seq![72, 84, 84, 80, 47, 49, 46, 49, 32, 49, 48, 49, 32, 83, 119, 105, 116, 99, 104, 105, 110, 103, 32, 80, 114, 111, 116, 111, 99, 111, 108, 115, 13, 10, 85, 112, 103, 114, 97, 100, 101, 58, 32, 119, 101, 98, 115, 111, 99, 107, 101, 116, 13, 10, 67, 111, 110, 110, 101, 99, 116, 105, 111, 110, 58, 32, 85, 112, 103, 114, 97, 100, 101, 13, 10, 83, 101, 99, 45, 87, 101, 98, 83, 111, 99, 107, 101, 116, 45, 65, 99, 99, 101, 112, 116, 58, 32]
}

/// The response that accepts a WebSocket upgrade with the given
/// `Sec-WebSocket-Accept` value.
pub fn websocket_upgrade_response(accept: &[u8]) -> (r: Vec<u8>)
    ensures
        r@ == ws_upgrade_head_spec() + accept@ + seq![13u8, 10, 13, 10],
{
    let mut r: Vec<u8> = vec![72, 84, 84, 80, 47, 49, 46, 49, 32, 49, 48, 49, 32, 83, 119, 105, 116, 99, 104, 105, 110, 103, 32, 80, 114, 111, 116, 111, 99, 111, 108, 115, 13, 10, 85, 112, 103, 114, 97, 100, 101, 58, 32, 119, 101, 98, 115, 111, 99, 107, 101, 116, 13, 10, 67, 111, 110, 110, 101, 99, 116, 105, 111, 110, 58, 32, 85, 112, 103, 114, 97, 100, 101, 13, 10, 83, 101, 99, 45, 87, 101, 98, 83, 111, 99, 107, 101, 116, 45, 65, 99, 99, 101, 112, 116, 58, 32];
    assert(r@ =~= ws_upgrade_head_spec());
    r.extend_from_slice(accept);
    r.extend_from_slice(&[13u8, 10, 13, 10]);
    assert(r@ =~= ws_upgrade_head_spec() + accept@ + seq![13u8, 10, 13, 10]);
    r
}

/// The accept value that answers a client key: base64 of the SHA-1 of the key
/// followed by the GUID.
pub fn accept_key(key: &[u8]) -> (r: Vec<u8>)
    ensures
        r@ == base64_of(sha1_of(key@ + magic_spec())),
{
    let mut data: Vec<u8> = Vec::new();
    data.extend_from_slice(key);
    let m = magic();
    data.extend_from_slice(m.as_slice());
    assert(data@ =~= key@ + magic_spec());
    let digest = sha1_digest(data.as_slice());
    base64_encode(digest.as_slice())
}

/// The response accepting a WebSocket upgrade for the given client key.
pub fn websocket_accept_response(key: &[u8]) -> (r: Vec<u8>)
    ensures
        r@ == ws_upgrade_head_spec() + base64_of(sha1_of(key@ + magic_spec())) + seq![13u8, 10, 13, 10],
{
    let accept = accept_key(key);
    websocket_upgrade_response(accept.as_slice())
}

/// Sixteen fresh random key bytes.
pub fn new_key_bytes() -> (r: Vec<u8>)
    ensures
        r@.len() == 16,
{
    random_key_bytes()
}

/// A fresh client key: base64 of sixteen random bytes.
pub fn websocket_key() -> (r: Vec<u8>)
    ensures
        exists|k: Seq<u8>| k.len() == 16 && r@ == base64_of(k),
{
    let raw = random_key_bytes();
    base64_encode(raw.as_slice())
}

/// The client's key in base64, for 16 key bytes; `Invalid` for any other length.
pub fn encode_key(key: &[u8]) -> (r: Result<Vec<u8>, LibError>)
    ensures
        key@.len() == 16 ==> (r matches Ok(k) && k@ == base64_of(key@)),
        key@.len() != 16 ==> r matches Err(LibError::Invalid),
{
    if key.len() != 16 {
        return Err(LibError::Invalid);
    }
    Ok(base64_encode(key))
}

/// How strictly a client checks the server's answer to a WebSocket upgrade.
#[derive(Debug, Clone, Copy, PartialEq, Eq, Structural)]
pub enum UpgradeCheck {
    /// Status 101 and the expected accept value.
    Strict,
    /// Status 101 only.
    Lazy,
    /// Nothing.
    Unchecked,
}

/// Judges the server's answer to a WebSocket upgrade: `NotAccepted` unless the
/// status is 101 (when checked), `InvalidUpgrade` when the strict check finds no
/// accept value equal to `expected`.
pub fn check_upgrade(mode: UpgradeCheck, code: u16, accept: Option<&[u8]>, expected: &[u8]) -> (r: Result<(), LibError>)
    ensures
        mode == UpgradeCheck::Unchecked ==> r is Ok,
        mode != UpgradeCheck::Unchecked && code != 101 ==> r matches Err(LibError::NotAccepted),
        mode == UpgradeCheck::Lazy && code == 101 ==> r is Ok,
        mode == UpgradeCheck::Strict && code == 101 ==> (r is Ok <==> (accept matches Some(a) && a@ == expected@)),
        mode == UpgradeCheck::Strict && code == 101 && r is Err ==> r matches Err(LibError::InvalidUpgrade),
{
    match mode {
        UpgradeCheck::Unchecked => Ok(()),
        UpgradeCheck::Lazy => if code != 101 {
            Err(LibError::NotAccepted)
        } else {
            Ok(())
        },
        UpgradeCheck::Strict => if code != 101 {
            Err(LibError::NotAccepted)
        } else {
            match accept {
                Some(a) => if crate::encoder::bytes_eq(a, expected) {
                    Ok(())
                } else {
                    Err(LibError::InvalidUpgrade)
                },
                None => Err(LibError::InvalidUpgrade),
            }
        },
    }
}

/// The accept value a client expects for its base64 key, and whether the server's
/// answer passes the check.
pub fn check_websocket_answer(mode: UpgradeCheck, key_b64: &[u8], code: u16, accept: Option<&[u8]>) -> (r: Result<(), LibError>)
    ensures
        mode == UpgradeCheck::Unchecked ==> r is Ok,
        mode != UpgradeCheck::Unchecked && code != 101 ==> r matches Err(LibError::NotAccepted),
        mode == UpgradeCheck::Lazy && code == 101 ==> r is Ok,
        mode == UpgradeCheck::Strict && code == 101 ==> (r is Ok <==> (accept matches Some(a) && a@ == base64_of(sha1_of(key_b64@ + magic_spec())))),
        mode == UpgradeCheck::Strict && code == 101 && r is Err ==> r matches Err(LibError::InvalidUpgrade),
{
    let expected = accept_key(key_b64);
    check_upgrade(mode, code, accept, expected.as_slice())
}

} // verus!
