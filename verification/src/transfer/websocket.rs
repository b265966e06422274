//! The frames of a connection.
//!
//! One WebSocket carries everything. The first byte of a binary message says what the rest is.

use vstd::prelude::*;

use crate::bytes;
use crate::clipboard::types::FileMeta;
use crate::error::TransferError;
use crate::text;
use crate::text::{concat, to_dec};

verus! {

/// What the rest of a binary message is.
#[derive(Debug, Clone, Copy, PartialEq, Eq, Structural)]
pub enum MessageType {
    Signal,
    FileChunkRequest,
    FileChunkResponse,
    Heartbeat,
    /// An encrypted clipboard state: a nonce of 12 bytes, then the ciphertext.
    Sync,
    /// The first frame of a handshake: who is speaking.
    Hello,
    /// The code that confirms a pairing.
    Verify,
    /// An encrypted file frame: a nonce of 12 bytes, then the ciphertext.
    File,
}

/// The byte of a message type.
pub open spec fn type_byte(t: MessageType) -> u8 {
    match t {
        MessageType::Signal => 1,
        MessageType::FileChunkRequest => 2,
        MessageType::FileChunkResponse => 3,
        MessageType::Heartbeat => 4,
        MessageType::Sync => 5,
        MessageType::Hello => 6,
        MessageType::Verify => 7,
        MessageType::File => 8,
    }
}

impl MessageType {
    /// The type with the byte `v`; `None` where no type has it.
    pub fn from_u8(v: u8) -> (r: Option<Self>)
        ensures
            match r {
                Some(t) => type_byte(t) == v,
                None => forall|t: MessageType| #[trigger] type_byte(t) != v,
            },
    {
        match v {
            1 => Some(MessageType::Signal),
            2 => Some(MessageType::FileChunkRequest),
            3 => Some(MessageType::FileChunkResponse),
            4 => Some(MessageType::Heartbeat),
            5 => Some(MessageType::Sync),
            6 => Some(MessageType::Hello),
            7 => Some(MessageType::Verify),
            8 => Some(MessageType::File),
            _ => None,
        }
    }

    /// The byte of this type.
    pub fn to_u8(self) -> (r: u8)
        ensures
            r == type_byte(self),
    {
        match self {
            MessageType::Signal => 1,
            MessageType::FileChunkRequest => 2,
            MessageType::FileChunkResponse => 3,
            MessageType::Heartbeat => 4,
            MessageType::Sync => 5,
            MessageType::Hello => 6,
            MessageType::Verify => 7,
            MessageType::File => 8,
        }
    }
}

/// No two types share a byte.
pub proof fn law_type_bytes_differ(a: MessageType, b: MessageType)
    requires
        type_byte(a) == type_byte(b),
    ensures
        a == b,
{
}

/// What is said about files on a connection.
#[derive(Debug, Clone)]
pub enum FileFrame {
    /// The sender has these files to fetch. Its own paths are never in here.
    Offer {
        transfer_id: String,
        device_id: String,
        device_name: String,
        files: Vec<FileMeta>,
        top_names: Vec<String>,
        has_folder: bool,
    },
    /// The receiver wants the files with these positions in the offer.
    PullRequest { transfer_id: String, file_indices: Vec<usize> },
    /// Either side gives the transfer up.
    PullCancel { transfer_id: String },
    /// The sender has sent everything.
    Complete { transfer_id: String },
    /// A piece of a file.
    Chunk(FileChunkResponsePayload),
}

/// A piece of a file: where it belongs, and its bytes.
#[derive(Debug, Clone)]
pub struct FileChunkResponsePayload {
    pub transfer_id: String,
    pub file_index: usize,
    pub offset: u64,
    pub data: Vec<u8>,
}

/// A type and what goes with it.
#[derive(Debug, Clone, PartialEq, Eq)]
pub struct MessageFrame {
    pub msg_type: MessageType,
    pub payload: Vec<u8>,
}

/// The bytes of a frame: one for the type, then the payload.
pub open spec fn encoded(t: MessageType, payload: Seq<u8>) -> Seq<u8> {
    seq![type_byte(t)] + payload
}

/// `b` is the encoding of some frame.
pub open spec fn is_frame(b: Seq<u8>) -> bool {
    b.len() > 0 && 1 <= b[0] <= 8
}

/// Why `b` is no frame.
pub open spec fn frame_fault(b: Seq<u8>) -> Seq<char> {
    if b.len() == 0 {
        "empty frame"@
    } else {
        "unknown msg type "@ + text::dec(b[0] as nat)
    }
}

impl MessageFrame {
    /// The frame of a type and a payload.
    pub fn new(msg_type: MessageType, payload: Vec<u8>) -> (r: Self)
        ensures
            r.msg_type == msg_type,
            r.payload == payload,
    {
        MessageFrame { msg_type, payload }
    }

    /// The bytes of this frame.
    pub fn encode(&self) -> (r: Vec<u8>)
        ensures
            r@ == encoded(self.msg_type, self.payload@),
    {
        let mut b: Vec<u8> = Vec::new();
        b.push(self.msg_type.to_u8());
        let r = bytes::concat(&b, &self.payload);
        assert(b@ =~= seq![type_byte(self.msg_type)]);
        r
    }

    /// Reads a frame. Fails on no bytes and on an unknown type.
    pub fn decode(buf: &[u8]) -> (r: Result<Self, TransferError>)
        ensures
            match r {
                Ok(f) => is_frame(buf@) && buf@ == encoded(f.msg_type, f.payload@),
                Err(TransferError::Handshake(m)) => !is_frame(buf@) && m@ == frame_fault(buf@),
            },
    {
        if buf.len() == 0 {
            return Err(TransferError::Handshake("empty frame".to_owned()));
        }
        match MessageType::from_u8(buf[0]) {
            Some(t) => {
                let payload = bytes::range(buf, 1, buf.len());
                assert(buf@ =~= encoded(t, payload@));
                Ok(MessageFrame { msg_type: t, payload })
            },
            None => {
                proof {
                    assert(type_byte(MessageType::Signal) != buf@[0]);
                    assert(type_byte(MessageType::FileChunkRequest) != buf@[0]);
                    assert(type_byte(MessageType::FileChunkResponse) != buf@[0]);
                    assert(type_byte(MessageType::Heartbeat) != buf@[0]);
                    assert(type_byte(MessageType::Sync) != buf@[0]);
                    assert(type_byte(MessageType::Hello) != buf@[0]);
                    assert(type_byte(MessageType::Verify) != buf@[0]);
                    assert(type_byte(MessageType::File) != buf@[0]);
                }
                let b: u8 = buf[0];
                let n = to_dec(b as u64);
                Err(TransferError::Handshake(concat("unknown msg type ", n.as_str())))
            },
        }
    }

    /// A signal frame with the JSON text of a message, or the error of its serialisation.
    pub fn signal_json(json: Result<Vec<u8>, String>) -> (r: Result<Self, TransferError>)
        ensures
            match json {
                Ok(p) => r matches Ok(f) && f.msg_type == MessageType::Signal && f.payload == p,
                Err(e) => r matches Err(TransferError::Handshake(m)) && m == e,
            },
    {
        match json {
            Ok(p) => Ok(MessageFrame::new(MessageType::Signal, p)),
            Err(e) => Err(TransferError::Handshake(e)),
        }
    }
}

/// What was encoded is read back: every encoding is a frame, and a frame has one reading.
pub proof fn law_frames_read_back(t: MessageType, payload: Seq<u8>, u: MessageType, other: Seq<u8>)
    ensures
        is_frame(encoded(t, payload)),
        encoded(t, payload) == encoded(u, other) ==> t == u && payload == other,
{
    let a = encoded(t, payload);
    let b = encoded(u, other);
    assert(a[0] == type_byte(t));
    assert(b[0] == type_byte(u));
    assert(a.skip(1) =~= payload);
    assert(b.skip(1) =~= other);
}

/// A frame is one byte for its type, from 1 to 8, and the payload behind it, whole.
pub proof fn law_frames_are_a_type_and_a_payload(t: MessageType, payload: Seq<u8>, b: Seq<u8>)
    ensures
        encoded(t, payload).len() == payload.len() + 1,
        encoded(t, payload).skip(1) == payload,
        encoded(t, payload)[0] == match t {
            MessageType::Signal => 1u8,
            MessageType::FileChunkRequest => 2,
            MessageType::FileChunkResponse => 3,
            MessageType::Heartbeat => 4,
            MessageType::Sync => 5,
            MessageType::Hello => 6,
            MessageType::Verify => 7,
            MessageType::File => 8,
        },
        is_frame(b) <==> exists|u: MessageType, p: Seq<u8>| b == #[trigger] encoded(u, p),
{
    assert(encoded(t, payload).skip(1) =~= payload);
    if is_frame(b) {
        let p = b.skip(1);
        let u = if b[0] == 1 {
            MessageType::Signal
        } else if b[0] == 2 {
            MessageType::FileChunkRequest
        } else if b[0] == 3 {
            MessageType::FileChunkResponse
        } else if b[0] == 4 {
            MessageType::Heartbeat
        } else if b[0] == 5 {
            MessageType::Sync
        } else if b[0] == 6 {
            MessageType::Hello
        } else if b[0] == 7 {
            MessageType::Verify
        } else {
            MessageType::File
        };
        assert(b =~= encoded(u, p));
    }
    if exists|u: MessageType, p: Seq<u8>| b == #[trigger] encoded(u, p) {
        let (u, p) = choose|u: MessageType, p: Seq<u8>| b == #[trigger] encoded(u, p);
        law_frames_read_back(u, p, u, p);
    }
}

} // verus!
