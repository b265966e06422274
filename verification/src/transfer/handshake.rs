//! From an open socket to an encrypted channel.
//!
//! Both ends say hello, then run SPAKE2 over a password, then show each other a code that only the
//! holder of the same key can make. The password is the link secret of an earlier pairing, or, the
//! first time, the pairing code that the responder shows.

use vstd::prelude::*;

use crate::bytes;
use crate::bytes::{ct_eq, to_hex};
use crate::crypto::aead;
use crate::crypto::aead::{decrypt, encrypt};
use crate::crypto::kdf;
use crate::crypto::kdf::{derive_session_keys, split_keys};
use crate::crypto::mac;
use crate::crypto::mac::{hmac_code, sha256_digest};
use crate::crypto::pake;
use crate::crypto::pake::{normalize_pairing_code, start_initiator, start_responder, Initiator};
use crate::crypto::random::random_nonce;
use crate::error;
use crate::error::{CryptoError, CryptoResult, TransferError};
use crate::strmap::StrMap;
use crate::text;
use crate::text::{chars_of, concat, concat3, same, string_of_range};
use crate::transfer::websocket;
use crate::transfer::websocket::{MessageFrame, MessageType};

verus! {

/// What the confirmation code is bound to.
pub const VERIFY_CONTEXT: &'static str = "clipsync-verify-v1";

/// What the link secret is bound to.
pub const LINK_CONTEXT: &'static str = "clipsync-link-v1";

/// What the session keys are bound to.
pub const SESSION_INFO: &'static str = "clipsync-session-v1";

// ---------------------------------------------------------------------------
// Keys and codes
// ---------------------------------------------------------------------------

/// The session key of a shared secret.
pub open spec fn session_key(shared: Seq<u8>) -> Seq<u8> {
    kdf::hkdf_sha256(shared, text::utf8(SESSION_INFO@), 64).subrange(0, 32)
}

/// The code with which the device `id` shows that it holds `key`.
pub open spec fn verify_code(key: Seq<u8>, id: Seq<char>) -> Seq<u8> {
    mac::hmac_sha256(key, text::utf8(VERIFY_CONTEXT@) + text::utf8(id))
}

/// The secret with which two devices that once shared `key` reconnect.
pub open spec fn link_secret(key: Seq<u8>) -> Seq<char> {
    bytes::hex(mac::hmac_sha256(key, text::utf8(LINK_CONTEXT@)))
}

/// The session key of a shared secret.
pub fn derive_session_key(shared: &[u8; 32]) -> (r: CryptoResult<[u8; 32]>)
    ensures
        r matches Ok(k) && k@ == session_key(shared@),
{
    match derive_session_keys(shared, SESSION_INFO.as_bytes()) {
        Ok(okm) => Ok(split_keys(okm).0),
        Err(e) => Err(e),
    }
}

/// The code with which the device `device_id` shows that it holds `key`.
///
/// Each end sends the code of its own identifier and expects that of the other's.
pub fn verify_tag(key: &[u8; 32], device_id: &str) -> (r: Vec<u8>)
    ensures
        r@ == verify_code(key@, device_id@),
        r@.len() == 32,
{
    let message = bytes::concat(VERIFY_CONTEXT.as_bytes(), device_id.as_bytes());
    hmac_code(key, &message)
}

/// The secret with which two devices reconnect: 64 hexadecimal digits. Both ends derive the same
/// one, so it is never sent; the pairing code that a user typed is not kept.
pub fn derive_link_secret(key: &[u8; 32]) -> (r: String)
    ensures
        r@ == link_secret(key@),
        r@.len() == 64,
{
    let code = hmac_code(key, LINK_CONTEXT.as_bytes());
    to_hex(&code)
}

/// The SHA-256 digest in hexadecimal.
pub fn sha256_hex(data: &[u8]) -> (r: String)
    ensures
        r@ == bytes::hex(mac::sha256(data@)),
        r@.len() == 64,
{
    to_hex(&sha256_digest(data))
}

/// What is shown of a public key: half of its SHA-256 digest.
pub open spec fn key_fingerprint_spec(public_key: Seq<u8>) -> Seq<char> {
    bytes::hex(mac::sha256(public_key)).take(32)
}

/// What is shown of a public key.
pub fn key_fingerprint(public_key: &[u8]) -> (r: String)
    ensures
        r@ == key_fingerprint_spec(public_key@),
{
    let v = chars_of(sha256_hex(public_key).as_str());
    let r = string_of_range(&v, 0, 32);
    assert(r@ =~= v@.take(32));
    r
}

/// Two ends with the same session key accept each other's code and keep the same link secret.
pub proof fn law_equal_keys_confirm_each_other(
    key_a: Seq<u8>,
    key_b: Seq<u8>,
    id_a: Seq<char>,
    id_b: Seq<char>,
)
    requires
        key_a == key_b,
    ensures
        verify_code(key_a, id_a) == verify_code(key_b, id_a),
        verify_code(key_b, id_b) == verify_code(key_a, id_b),
        link_secret(key_a) == link_secret(key_b),
{
}

// ---------------------------------------------------------------------------
// Encrypted frames
// ---------------------------------------------------------------------------

/// The frame that carries `plaintext` under `key` and `nonce`.
pub open spec fn sealed_frame(
    key: Seq<u8>,
    nonce: Seq<u8>,
    t: MessageType,
    plaintext: Seq<u8>,
) -> Seq<u8> {
    websocket::encoded(t, nonce + aead::aes_gcm_sealed(key, nonce, plaintext))
}

/// Encrypts `plaintext` into a frame. Fails on more than 2^36 bytes only.
pub fn seal_frame_with(key: &[u8; 32], nonce: &[u8; 12], msg_type: MessageType, plaintext: &[u8]) -> (r:
    CryptoResult<Vec<u8>>)
    ensures
        r is Ok <==> plaintext@.len() <= aead::MAX_PLAINTEXT,
        r matches Ok(b) ==> b@ == sealed_frame(key@, nonce@, msg_type, plaintext@),
        r matches Ok(b) ==> (msg_type is Sync || msg_type is File) ==> frame_reading(key@, b@) == (
        FrameReading::Plain(msg_type, plaintext@)),
{
    match encrypt(key, nonce, plaintext) {
        Ok(c) => {
            let payload = bytes::concat(nonce, &c);
            let b = MessageFrame::new(msg_type, payload).encode();
            proof {
                assert(nonce@.len() == 12);
                lemma_reading(key@, nonce@, c@, msg_type, plaintext@);
            }
            Ok(b)
        },
        Err(e) => Err(e),
    }
}

/// Encrypts `plaintext` into a frame under a random nonce.
pub fn seal_frame(key: &[u8; 32], msg_type: MessageType, plaintext: &[u8]) -> (r: CryptoResult<
    Vec<u8>,
>)
    ensures
        r is Ok <==> plaintext@.len() <= aead::MAX_PLAINTEXT,
        r matches Ok(b) ==> exists|nonce: Seq<u8>|
            nonce.len() == 12 && b@ == #[trigger] sealed_frame(key@, nonce, msg_type, plaintext@),
        r matches Ok(b) ==> (msg_type is Sync || msg_type is File) ==> frame_reading(key@, b@) == (
        FrameReading::Plain(msg_type, plaintext@)),
{
    let nonce = random_nonce();
    let r = seal_frame_with(key, &nonce, msg_type, plaintext);
    assert(nonce@.len() == 12);
    r
}

/// What a binary message is to the holder of a key.
#[derive(Debug)]
pub enum Incoming {
    /// No frame at all.
    NotAFrame,
    /// A frame that carries nothing encrypted.
    Other,
    /// An encrypted frame that is shorter than a nonce.
    TooShort,
    /// An encrypted frame that the key does not open.
    Unreadable,
    /// A clipboard update.
    Sync(Vec<u8>),
    /// A file frame.
    File(Vec<u8>),
}

/// What a binary message is to the holder of a key.
pub enum FrameReading {
    NotAFrame,
    Other,
    TooShort,
    Unreadable,
    Plain(MessageType, Seq<u8>),
}

/// What the bytes `b` are to the holder of `key`.
pub open spec fn frame_reading(key: Seq<u8>, b: Seq<u8>) -> FrameReading {
    if !websocket::is_frame(b) {
        FrameReading::NotAFrame
    } else if b[0] != 5 && b[0] != 8 {
        FrameReading::Other
    } else if b.len() < 13 {
        FrameReading::TooShort
    } else {
        match aead::aes_gcm_opened(key, b.subrange(1, 13), b.skip(13)) {
            Some(p) => FrameReading::Plain(
                if b[0] == 5 {
                    MessageType::Sync
                } else {
                    MessageType::File
                },
                p,
            ),
            None => FrameReading::Unreadable,
        }
    }
}

proof fn lemma_reading(key: Seq<u8>, nonce: Seq<u8>, c: Seq<u8>, t: MessageType, p: Seq<u8>)
    requires
        nonce.len() == 12,
        aead::aes_gcm_opened(key, nonce, c) == Some(p),
    ensures
        t is Sync || t is File ==> frame_reading(key, websocket::encoded(t, nonce + c)) == (
        FrameReading::Plain(t, p)),
{
    let b = websocket::encoded(t, nonce + c);
    assert(b[0] == websocket::type_byte(t));
    assert(b.subrange(1, 13) =~= nonce);
    assert(b.skip(13) =~= c);
}

/// What was read is `spec`.
pub open spec fn reads_as(i: Incoming, spec: FrameReading) -> bool {
    match i {
        Incoming::NotAFrame => spec is NotAFrame,
        Incoming::Other => spec is Other,
        Incoming::TooShort => spec is TooShort,
        Incoming::Unreadable => spec is Unreadable,
        Incoming::Sync(p) => spec == FrameReading::Plain(MessageType::Sync, p@),
        Incoming::File(p) => spec == FrameReading::Plain(MessageType::File, p@),
    }
}

/// Reads a binary message with the session key.
pub fn open_frame(key: &[u8; 32], b: &[u8]) -> (r: Incoming)
    ensures
        reads_as(r, frame_reading(key@, b@)),
{
    let f = match MessageFrame::decode(b) {
        Ok(f) => f,
        Err(_) => {
            return Incoming::NotAFrame;
        },
    };
    assert(b@[0] == websocket::type_byte(f.msg_type));
    assert(b@.len() == f.payload@.len() + 1);
    match f.msg_type {
        MessageType::Sync | MessageType::File => {},
        _ => {
            return Incoming::Other;
        },
    }
    if f.payload.len() < 12 {
        return Incoming::TooShort;
    }
    let nonce = nonce_of(&f.payload);
    let c = bytes::range(&f.payload, 12, f.payload.len());
    assert(nonce@ =~= b@.subrange(1, 13));
    assert(c@ =~= b@.skip(13));
    match decrypt(key, &nonce, &c) {
        Ok(p) => {
            if f.msg_type == MessageType::Sync {
                Incoming::Sync(p)
            } else {
                Incoming::File(p)
            }
        },
        Err(_) => Incoming::Unreadable,
    }
}

/// The first 12 bytes.
pub fn nonce_of(b: &[u8]) -> (r: [u8; 12])
    requires
        b@.len() >= 12,
    ensures
        r@ == b@.take(12),
{
    let mut a = [0u8; 12];
    let mut i: usize = 0;
    while i < 12
        invariant
            i <= 12,
            b@.len() >= 12,
            forall|k: int| 0 <= k < i ==> a@[k] == b@[k],
        decreases 12 - i,
    {
        a[i] = b[i];
        i += 1;
    }
    assert(a@ =~= b@.take(12));
    a
}

/// What a socket hands out.
#[derive(Debug)]
pub enum SocketMessage {
    /// A binary message.
    Binary(Vec<u8>),
    /// The other end closed the connection, or it broke.
    Closed,
    /// Text, or a message of the protocol itself.
    Other,
}

/// What the next message means while the handshake runs.
#[derive(Debug)]
pub enum HandshakeInput {
    /// A part of the handshake.
    Frame(MessageFrame),
    /// Wait for the next message.
    Skip,
    /// The handshake is over, for this reason.
    Over(String),
}

/// What the next message means while the handshake runs. Only binary messages count; one that is no
/// frame ends the handshake, and so does a connection that closes.
pub fn handshake_input(message: SocketMessage) -> (r: HandshakeInput)
    ensures
        match message {
            SocketMessage::Binary(b) => if websocket::is_frame(b@) {
                r matches HandshakeInput::Frame(f) && b@ == websocket::encoded(f.msg_type, f.payload@)
            } else {
                r matches HandshakeInput::Over(m) && m@ == "decode frame: "@ + websocket::frame_fault(
                    b@,
                )
            },
            SocketMessage::Closed => r matches HandshakeInput::Over(m) && m@
                == "connection closed during handshake"@,
            SocketMessage::Other => r is Skip,
        },
{
    match message {
        SocketMessage::Binary(b) => match MessageFrame::decode(&b) {
            Ok(f) => HandshakeInput::Frame(f),
            Err(e) => {
                let TransferError::Handshake(m) = e;
                HandshakeInput::Over(concat("decode frame: ", m.as_str()))
            },
        },
        SocketMessage::Closed => HandshakeInput::Over(
            "connection closed during handshake".to_owned(),
        ),
        SocketMessage::Other => HandshakeInput::Skip,
    }
}

/// What the next message means once the channel stands.
#[derive(Debug)]
pub enum SessionInput {
    /// Something that the session key reads, or fails to read.
    Read(Incoming),
    /// Wait for the next message.
    Skip,
    /// The connection is over.
    Over,
}

/// What the next message means once the channel stands. A message that cannot be read does not end
/// the connection.
pub fn session_input(key: &[u8; 32], message: SocketMessage) -> (r: SessionInput)
    ensures
        match message {
            SocketMessage::Binary(b) => r matches SessionInput::Read(i) && reads_as(
                i,
                frame_reading(key@, b@),
            ),
            SocketMessage::Closed => r is Over,
            SocketMessage::Other => r is Skip,
        },
{
    match message {
        SocketMessage::Binary(b) => SessionInput::Read(open_frame(key, &b)),
        SocketMessage::Closed => SessionInput::Over,
        SocketMessage::Other => SessionInput::Skip,
    }
}

// ---------------------------------------------------------------------------
// The handshake
// ---------------------------------------------------------------------------

/// Which side of a connection this device is.
#[derive(Debug, Clone, Copy, PartialEq, Eq, Structural)]
pub enum Role {
    Initiator,
    Responder,
}

/// The first thing that each end says: who it is and where it listens.
#[derive(Debug)]
pub struct HelloPayload {
    pub device_id: String,
    pub device_name: String,
    /// The public key in Base64.
    pub public_key: String,
    /// The port on which the device can be dialled; 0 where it does not say.
    pub listen_port: u16,
}

impl Clone for HelloPayload {
    fn clone(&self) -> (r: Self)
        ensures
            r == *self,
    {
        HelloPayload {
            device_id: self.device_id.clone(),
            device_name: self.device_name.clone(),
            public_key: self.public_key.clone(),
            listen_port: self.listen_port,
        }
    }
}

/// Why a handshake failed.
#[derive(Debug)]
pub enum HandshakeError {
    /// The other end is this device.
    SelfConnection,
    /// The devices are not paired and no pairing code was given.
    NoCode,
    /// The key exchange failed.
    Exchange(CryptoError),
    /// The two ends used different passwords. Trying again does not help.
    CodeMismatch,
    /// The other end's public key cannot be read, for this reason.
    BadPublicKey(String),
    /// The other end spoke out of turn.
    OutOfTurn,
}

/// What a failed handshake is reported as.
pub open spec fn handshake_text(e: HandshakeError) -> Seq<char> {
    match e {
        HandshakeError::SelfConnection => "拒绝与自身建立连接"@,
        HandshakeError::NoCode => "未提供配对码（请在配对时输入对方显示的配对码）"@,
        HandshakeError::Exchange(c) => "spake2 finish: "@ + error::crypto_text(c),
        HandshakeError::CodeMismatch => "配对码不一致"@,
        HandshakeError::BadPublicKey(m) => "bad peer public key: "@ + m@,
        HandshakeError::OutOfTurn => "message out of turn"@,
    }
}

impl HandshakeError {
    /// What a failed handshake is reported as.
    pub fn text(&self) -> (r: String)
        ensures
            r@ == handshake_text(*self),
    {
        match self {
            HandshakeError::SelfConnection => "拒绝与自身建立连接".to_owned(),
            HandshakeError::NoCode => "未提供配对码（请在配对时输入对方显示的配对码）".to_owned(),
            HandshakeError::Exchange(c) => concat("spake2 finish: ", c.text()),
            HandshakeError::CodeMismatch => "配对码不一致".to_owned(),
            HandshakeError::BadPublicKey(m) => concat("bad peer public key: ", m.as_str()),
            HandshakeError::OutOfTurn => "message out of turn".to_owned(),
        }
    }
}

/// The password of a handshake, and whether it is the first one between the two devices.
pub enum PasswordChoice {
    SelfConnection,
    NoCode,
    Use(Seq<char>, bool),
}

/// The password of a handshake: the link secret of a paired device, else the normal form of the code
/// that the initiator was given or that the responder shows.
pub open spec fn password_spec(
    role: Role,
    my_id: Seq<char>,
    peer_id: Seq<char>,
    paired: Map<Seq<char>, String>,
    own_code: Seq<char>,
    given_code: Option<Seq<char>>,
) -> PasswordChoice {
    if peer_id == my_id {
        PasswordChoice::SelfConnection
    } else if paired.dom().contains(peer_id) {
        PasswordChoice::Use(paired[peer_id]@, false)
    } else {
        match role {
            Role::Initiator => match given_code {
                Some(c) => PasswordChoice::Use(pake::normalized_code(c), true),
                None => PasswordChoice::NoCode,
            },
            Role::Responder => PasswordChoice::Use(pake::normalized_code(own_code), true),
        }
    }
}

/// Chooses the password of a handshake. The flag says whether the devices pair for the first time.
pub fn choose_password(
    role: Role,
    my_id: &str,
    peer_id: &str,
    paired: &StrMap<String>,
    own_code: &str,
    given_code: &Option<String>,
) -> (r: Result<(String, bool), HandshakeError>)
    ensures
        match password_spec(role, my_id@, peer_id@, paired@, own_code@, text::opt_view(*given_code)) {
            PasswordChoice::SelfConnection => r == Err::<(String, bool), HandshakeError>(
                HandshakeError::SelfConnection,
            ),
            PasswordChoice::NoCode => r == Err::<(String, bool), HandshakeError>(
                HandshakeError::NoCode,
            ),
            PasswordChoice::Use(p, fresh) => r matches Ok(c) && c.0@ == p && c.1 == fresh,
        },
{
    if same(peer_id, my_id) {
        return Err(HandshakeError::SelfConnection);
    }
    match paired.get(peer_id) {
        Some(s) => Ok((s.clone(), false)),
        None => match role {
            Role::Initiator => match given_code {
                Some(c) => Ok((normalize_pairing_code(c.as_str()), true)),
                None => Err(HandshakeError::NoCode),
            },
            Role::Responder => Ok((normalize_pairing_code(own_code), true)),
        },
    }
}

/// How far a connection has come.
pub enum Phase {
    /// The other end has not said hello.
    AwaitHello,
    /// The key exchange runs. The initiator has sent its message, the responder waits for one.
    AwaitExchange { password: String, started: Option<Initiator> },
    /// The key is there; the other end has not shown its code.
    AwaitCode { key: [u8; 32] },
    /// The other end has shown its code.
    Confirmed { key: [u8; 32] },
    /// The handshake failed.
    Failed,
}

/// One connection and its handshake.
pub struct Connection {
    pub role: Role,
    pub my_id: String,
    pub peer_addr: String,
    pub given_code: Option<String>,
    pub peer: Option<HelloPayload>,
    pub fresh: bool,
    pub phase: Phase,
}

/// What a device sends once it has the other's part of the exchange.
pub struct ExchangeReply {
    /// The responder's own part, which goes first, whatever came of the exchange.
    pub message: Option<Vec<u8>>,
    /// The code that shows that this device holds the key; an error ends the connection.
    pub code: Result<Vec<u8>, HandshakeError>,
}

/// What came of an exchange: the key and the code that go with the shared secret, or the fault.
pub open spec fn exchange_ended(
    outcome: Result<Seq<u8>, pake::PakeFault>,
    my_id: Seq<char>,
    code: Result<Vec<u8>, HandshakeError>,
    phase: Phase,
) -> bool {
    match outcome {
        Ok(shared) => {
            &&& code matches Ok(c)
            &&& c@ == verify_code(session_key(shared), my_id)
            &&& phase matches Phase::AwaitCode { key }
            &&& key@ == session_key(shared)
        },
        Err(f) => {
            &&& code matches Err(HandshakeError::Exchange(CryptoError::InvalidKey(m)))
            &&& m@ == pake::fault_name(f)
            &&& phase is Failed
        },
    }
}

impl Connection {
    /// A connection on which nothing was said yet.
    pub fn new(role: Role, my_id: &str, peer_addr: &str, given_code: Option<String>) -> (r: Self)
        ensures
            r.role == role,
            r.my_id@ == my_id@,
            r.peer_addr@ == peer_addr@,
            r.given_code == given_code,
            r.peer is None,
            !r.fresh,
            r.phase is AwaitHello,
    {
        Connection {
            role,
            my_id: my_id.to_owned(),
            peer_addr: peer_addr.to_owned(),
            given_code,
            peer: None,
            fresh: false,
            phase: Phase::AwaitHello,
        }
    }

    /// What does not change in the course of a handshake.
    pub open spec fn same_ends(&self, o: &Connection) -> bool {
        &&& self.role == o.role
        &&& self.my_id == o.my_id
        &&& self.peer_addr == o.peer_addr
        &&& self.given_code == o.given_code
    }

    /// The other end said hello. The initiator gets the message that starts the key exchange; the
    /// responder waits for it.
    pub fn on_hello(&mut self, hello: HelloPayload, paired: &StrMap<String>, own_code: &str) -> (r:
        Result<Option<Vec<u8>>, HandshakeError>)
        requires
            old(self).phase is AwaitHello,
        ensures
            final(self).same_ends(old(self)),
            final(self).peer == Some(hello),
            match password_spec(
                old(self).role,
                old(self).my_id@,
                hello.device_id@,
                paired@,
                own_code@,
                text::opt_view(old(self).given_code),
            ) {
                PasswordChoice::SelfConnection => r == Err::<Option<Vec<u8>>, HandshakeError>(
                    HandshakeError::SelfConnection,
                ) && final(self).phase is Failed,
                PasswordChoice::NoCode => r == Err::<Option<Vec<u8>>, HandshakeError>(
                    HandshakeError::NoCode,
                ) && final(self).phase is Failed,
                PasswordChoice::Use(p, fresh) => {
                    &&& final(self).fresh == fresh
                    &&& final(self).phase matches Phase::AwaitExchange { password, started }
                    &&& password@ == p
                    &&& match old(self).role {
                        Role::Initiator => {
                            &&& started matches Some(i)
                            &&& i.password@ == p
                            &&& r matches Ok(Some(m))
                            &&& m@ == i.message@
                            &&& m@ == pake::spake2_message_a(
                                text::utf8(p),
                                pake::id_a_bytes(),
                                pake::id_b_bytes(),
                                i.seed@,
                            )
                        },
                        Role::Responder => started is None && (r matches Ok(m) && m is None),
                    }
                },
            },
    {
        let chosen = choose_password(
            self.role,
            self.my_id.as_str(),
            hello.device_id.as_str(),
            paired,
            own_code,
            &self.given_code,
        );
        self.peer = Some(hello);
        match chosen {
            Err(e) => {
                self.phase = Phase::Failed;
                Err(e)
            },
            Ok((password, fresh)) => {
                self.fresh = fresh;
                match self.role {
                    Role::Initiator => {
                        let i = start_initiator(password.as_str());
                        let m = i.message.clone();
                        assert(m@ =~= i.message@);
                        self.phase = Phase::AwaitExchange { password, started: Some(i) };
                        Ok(Some(m))
                    },
                    Role::Responder => {
                        self.phase = Phase::AwaitExchange { password, started: None };
                        Ok(None)
                    },
                }
            },
        }
    }

    /// The other end's part of the key exchange came in. What goes out is this device's part,
    /// where it has not been sent, and the code that shows that it holds the key.
    ///
    /// An initiator whose message met a responder with the same password holds the same key as the
    /// responder.
    pub fn on_exchange(&mut self, payload: &[u8]) -> (r: ExchangeReply)
        ensures
            final(self).same_ends(old(self)),
            final(self).peer == old(self).peer,
            final(self).fresh == old(self).fresh,
            old(self).phase !is AwaitExchange ==> {
                &&& r.message is None
                &&& r.code matches Err(HandshakeError::OutOfTurn)
                &&& final(self).phase is Failed
            },
            old(self).phase matches Phase::AwaitExchange { password, started: Some(i) } ==> {
                &&& r.message is None
                &&& exchange_ended(
                    pake::spake2_finish_a(
                        text::utf8(i.password@),
                        pake::id_a_bytes(),
                        pake::id_b_bytes(),
                        i.seed@,
                        payload@,
                    ),
                    old(self).my_id@,
                    r.code,
                    final(self).phase,
                )
            },
            old(self).phase matches Phase::AwaitExchange { password, started: None } ==> exists|
                seed: Seq<u8>,
            |
                {
                    &&& seed.len() == 32
                    &&& r.message matches Some(m)
                    &&& m@ == #[trigger] pake::spake2_message_b(
                        text::utf8(password@),
                        pake::id_a_bytes(),
                        pake::id_b_bytes(),
                        seed,
                    )
                    &&& exchange_ended(
                        pake::spake2_finish_b(
                            text::utf8(password@),
                            pake::id_a_bytes(),
                            pake::id_b_bytes(),
                            seed,
                            payload@,
                        ),
                        old(self).my_id@,
                        r.code,
                        final(self).phase,
                    )
                },
            old(self).phase matches Phase::AwaitExchange { password, started: Some(i) } ==> forall|
                other: Seq<u8>,
            |
                other.len() == 32 && payload@ == #[trigger] pake::spake2_message_b(
                    text::utf8(i.password@),
                    pake::id_a_bytes(),
                    pake::id_b_bytes(),
                    other,
                ) ==> {
                    &&& pake::spake2_finish_b(
                        text::utf8(i.password@),
                        pake::id_a_bytes(),
                        pake::id_b_bytes(),
                        other,
                        pake::spake2_message_a(
                            text::utf8(i.password@),
                            pake::id_a_bytes(),
                            pake::id_b_bytes(),
                            i.seed@,
                        ),
                    ) matches Ok(shared)
                    &&& final(self).phase matches Phase::AwaitCode { key }
                    &&& key@ == session_key(shared)
                },
    {
        let mut phase = Phase::Failed;
        std::mem::swap(&mut phase, &mut self.phase);
        match phase {
            Phase::AwaitExchange { password, started } => match started {
                Some(i) => {
                    let code = match i.finish(payload) {
                        Ok(shared) => Ok(self.keep_key(&shared)),
                        Err(e) => Err(HandshakeError::Exchange(e)),
                    };
                    ExchangeReply { message: None, code }
                },
                None => {
                    let resp = start_responder(password.as_str());
                    let m = resp.message.clone();
                    assert(m@ =~= resp.message@);
                    let ghost seed = resp.seed@;
                    let code = match resp.finish(payload) {
                        Ok(shared) => Ok(self.keep_key(&shared)),
                        Err(e) => Err(HandshakeError::Exchange(e)),
                    };
                    assert(m@ == pake::spake2_message_b(
                        text::utf8(password@),
                        pake::id_a_bytes(),
                        pake::id_b_bytes(),
                        seed,
                    ));
                    ExchangeReply { message: Some(m), code }
                },
            },
            _ => ExchangeReply { message: None, code: Err(HandshakeError::OutOfTurn) },
        }
    }

    fn keep_key(&mut self, shared: &[u8; 32]) -> (code: Vec<u8>)
        ensures
            final(self).same_ends(old(self)),
            final(self).peer == old(self).peer,
            final(self).fresh == old(self).fresh,
            final(self).phase matches Phase::AwaitCode { key } && key@ == session_key(shared@),
            code@ == verify_code(session_key(shared@), old(self).my_id@),
    {
        let key = match derive_session_key(shared) {
            Ok(k) => k,
            Err(_) => *shared,
        };
        let code = verify_tag(&key, self.my_id.as_str());
        self.phase = Phase::AwaitCode { key };
        code
    }

    /// The other end's code came in. It is accepted exactly where it is the code of the other's
    /// identifier under the same key.
    pub fn on_code(&mut self, code: &[u8]) -> (r: Result<(), HandshakeError>)
        ensures
            final(self).same_ends(old(self)),
            final(self).peer == old(self).peer,
            final(self).fresh == old(self).fresh,
            match (old(self).phase, old(self).peer) {
                (Phase::AwaitCode { key }, Some(p)) => if code@ == verify_code(
                    key@,
                    p.device_id@,
                ) {
                    r is Ok && final(self).phase == (Phase::Confirmed { key })
                } else {
                    r == Err::<(), HandshakeError>(HandshakeError::CodeMismatch) && final(
                        self).phase is Failed
                },
                _ => r == Err::<(), HandshakeError>(HandshakeError::OutOfTurn) && final(
                    self).phase is Failed,
            },
    {
        let mut phase = Phase::Failed;
        std::mem::swap(&mut phase, &mut self.phase);
        match (phase, &self.peer) {
            (Phase::AwaitCode { key }, Some(p)) => {
                let expected = verify_tag(&key, p.device_id.as_str());
                if ct_eq(code, &expected) {
                    self.phase = Phase::Confirmed { key };
                    Ok(())
                } else {
                    Err(HandshakeError::CodeMismatch)
                }
            },
            _ => Err(HandshakeError::OutOfTurn),
        }
    }
}

/// What the user is told where the codes did not match: only a responder that paired for the first
/// time tells it. A failed reconnection in the background is not the user's typing error.
pub open spec fn mismatch_notice_spec(role: Role, fresh: bool, peer_name: Seq<char>) -> Option<
    Seq<char>,
> {
    if role == Role::Responder && fresh {
        Some("与「"@ + peer_name + "」的配对码不一致"@)
    } else {
        None
    }
}

/// What the user is told where the codes did not match.
pub fn mismatch_notice(role: Role, fresh: bool, peer_name: &str) -> (r: Option<String>)
    ensures
        text::opt_view(r) == mismatch_notice_spec(role, fresh, peer_name@),
{
    if role == Role::Responder && fresh {
        Some(concat3("与「", peer_name, "」的配对码不一致"))
    } else {
        None
    }
}

/// What the keys, the codes and the secrets of a connection are made of.
pub proof fn law_keys_are_bound_to_their_use(shared: Seq<u8>, key: Seq<u8>, id: Seq<char>, pk: Seq<u8>)
    ensures
        session_key(shared) == kdf::hkdf_sha256(
            shared,
            vstd::utf8::encode_utf8("clipsync-session-v1"@),
            64,
        ).take(32),
        verify_code(key, id) == mac::hmac_sha256(
            key,
            vstd::utf8::encode_utf8("clipsync-verify-v1"@ + id),
        ),
        key_fingerprint_spec(pk) == bytes::hex(mac::sha256(pk)).take(32),
        link_secret(key) == bytes::hex(
            mac::hmac_sha256(key, vstd::utf8::encode_utf8("clipsync-link-v1"@)),
        ),
{
    text::lemma_utf8_concat("clipsync-verify-v1"@, id);
    let k = kdf::hkdf_sha256(shared, text::utf8(SESSION_INFO@), 64);
    assert(k.subrange(0, 32) =~= k.take(32));
}

/// A code that was typed pairs with the device that shows it, whatever separators and letters it was
/// typed with: both ends take the same password, and both pair for the first time.
pub proof fn law_a_typed_code_gives_the_password_of_the_shown_one(
    me: Seq<char>,
    other: Seq<char>,
    mine: Map<Seq<char>, String>,
    theirs: Map<Seq<char>, String>,
    my_own: Seq<char>,
    shown: Seq<char>,
    typed: Seq<char>,
    given: Option<Seq<char>>,
)
    requires
        me != other,
        !mine.dom().contains(other),
        !theirs.dom().contains(me),
        pake::normalized_code(typed) == pake::normalized_code(shown),
    ensures
        ({
            let a = password_spec(Role::Initiator, me, other, mine, my_own, Some(typed));
            let b = password_spec(Role::Responder, other, me, theirs, shown, given);
            a == b && a == PasswordChoice::Use(pake::normalized_code(shown), true)
        }),
{
}

/// Paired devices take the secret that they share, whatever codes they show or were given; a device
/// never connects to itself; and an initiator that is not paired needs a code.
pub proof fn law_paired_devices_take_their_secret(
    role: Role,
    me: Seq<char>,
    other: Seq<char>,
    paired: Map<Seq<char>, String>,
    own: Seq<char>,
    given: Option<Seq<char>>,
)
    ensures
        me == other ==> password_spec(role, me, other, paired, own, given)
            == PasswordChoice::SelfConnection,
        me != other && paired.dom().contains(other) ==> password_spec(
            role,
            me,
            other,
            paired,
            own,
            given,
        ) == PasswordChoice::Use(paired[other]@, false),
        me != other && !paired.dom().contains(other) && role == Role::Initiator && given is None
            ==> password_spec(role, me, other, paired, own, given) == PasswordChoice::NoCode,
{
}

/// An encrypted frame is the byte of its type, twelve bytes of nonce and the ciphertext, and is read as
/// such: as an update or a file frame with what the ciphertext opens to.
pub proof fn law_encrypted_frames_are_nonce_and_ciphertext(
    key: Seq<u8>,
    nonce: Seq<u8>,
    c: Seq<u8>,
    p: Seq<u8>,
)
    requires
        nonce.len() == 12,
    ensures
        sealed_frame(key, nonce, MessageType::Sync, p) == seq![5u8] + nonce + aead::aes_gcm_sealed(
            key,
            nonce,
            p,
        ),
        sealed_frame(key, nonce, MessageType::File, p) == seq![8u8] + nonce + aead::aes_gcm_sealed(
            key,
            nonce,
            p,
        ),
        aead::aes_gcm_opened(key, nonce, c) == Some(p) ==> frame_reading(key, seq![5u8] + nonce + c)
            == FrameReading::Plain(MessageType::Sync, p),
        aead::aes_gcm_opened(key, nonce, c) == Some(p) ==> frame_reading(key, seq![8u8] + nonce + c)
            == FrameReading::Plain(MessageType::File, p),
        aead::aes_gcm_opened(key, nonce, c) is None ==> frame_reading(key, seq![5u8] + nonce + c)
            is Unreadable,
{
    let s = aead::aes_gcm_sealed(key, nonce, p);
    assert(seq![5u8] + nonce + s =~= seq![5u8] + (nonce + s));
    assert(seq![8u8] + nonce + s =~= seq![8u8] + (nonce + s));
    let a = seq![5u8] + nonce + c;
    let b = seq![8u8] + nonce + c;
    assert(a.subrange(1, 13) =~= nonce);
    assert(a.skip(13) =~= c);
    assert(b.subrange(1, 13) =~= nonce);
    assert(b.skip(13) =~= c);
}

/// After an exchange that succeeded, an end shows the code of its own identifier under the key that both
/// share, and waits for the other's; after one that failed it shows none.
pub proof fn law_exchanges_lead_to_codes(
    outcome: Result<Seq<u8>, pake::PakeFault>,
    id: Seq<char>,
    code: Result<Vec<u8>, HandshakeError>,
    phase: Phase,
)
    requires
        exchange_ended(outcome, id, code, phase),
    ensures
        outcome is Ok ==> code is Ok && phase is AwaitCode && phase->AwaitCode_key@ == session_key(
            outcome->Ok_0,
        ) && code->Ok_0@ == verify_code(session_key(outcome->Ok_0), id),
        outcome is Err ==> code is Err && phase is Failed,
{
}

/// The user of the device that showed a code is told where another one was typed at a first pairing; no
/// one else is.
pub proof fn law_wrong_codes_are_told_where_they_were_shown(role: Role, fresh: bool, name: Seq<char>)
    ensures
        mismatch_notice_spec(role, fresh, name) is Some <==> role == Role::Responder && fresh,
        role == Role::Responder && fresh ==> mismatch_notice_spec(role, fresh, name)->0 == "与「"@ + name
            + "」的配对码不一致"@,
{
}

/// What is read of a message is what it is: an update or a file frame comes with what it opened to.
pub proof fn law_messages_are_read_as_what_they_are(i: Incoming, r: FrameReading)
    requires
        reads_as(i, r),
    ensures
        i matches Incoming::Sync(p) ==> r == FrameReading::Plain(MessageType::Sync, p@),
        i matches Incoming::File(p) ==> r == FrameReading::Plain(MessageType::File, p@),
        r matches FrameReading::Plain(t, p) ==> i is Sync || i is File,
        r is NotAFrame <==> i is NotAFrame,
        r is Other <==> i is Other,
        r is TooShort <==> i is TooShort,
        r is Unreadable <==> i is Unreadable,
{
}

} // verus!
