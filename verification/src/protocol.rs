//! Versioned IPC protocol: version negotiation, message envelopes and the
//! length-prefixed framing of payloads. Sockets and JSON are handled by the
//! caller.

use vstd::prelude::*;

verus! {

/// Largest accepted frame payload, in bytes.
pub const MAX_FRAME_SIZE: usize = 1048576;

#[derive(Clone, Copy, Debug, PartialEq, Eq, Structural)]
pub struct ProtocolVersion {
    pub major: u16,
    pub minor: u16,
}

/// The protocol version this implementation speaks.
pub fn protocol_version() -> (r: ProtocolVersion)
    ensures
        r == (ProtocolVersion { major: 1, minor: 0 }),
{
    ProtocolVersion::new(1, 0)
}

#[derive(Debug)]
pub enum ProtocolError {
    OversizedFrame { actual: usize, max: usize },
    Io(String),
    InvalidPayload(String),
    IncompatibleVersion { local: ProtocolVersion, peer: ProtocolVersion },
    InsecureEndpointDirectory(String),
    UnsafeEndpointPath(String),
    EndpointInUse(String),
    InvalidEndpointPath(String),
}

impl ProtocolVersion {
    pub fn new(major: u16, minor: u16) -> (r: Self)
        ensures
            r == (ProtocolVersion { major, minor }),
    {
        ProtocolVersion { major, minor }
    }

    /// Negotiates additive minor revisions inside one major version; a
    /// different major version is refused.
    pub fn negotiate(self, peer: Self) -> (r: Result<Self, ProtocolError>)
        ensures
            self.major != peer.major ==> (r matches Err(e) && e == (ProtocolError::IncompatibleVersion {
                local: self,
                peer,
            })),
            self.major == peer.major ==> (r matches Ok(v) && v == (ProtocolVersion {
                major: self.major,
                minor: if self.minor < peer.minor {
                    self.minor
                } else {
                    peer.minor
                },
            })),
    {
        if self.major != peer.major {
            return Err(ProtocolError::IncompatibleVersion { local: self, peer });
        }
        let minor = if self.minor < peer.minor {
            self.minor
        } else {
            peer.minor
        };
        Ok(ProtocolVersion::new(self.major, minor))
    }
}

/// Negotiation is symmetric: both sides settle on the same version or both
/// refuse.
pub proof fn lemma_negotiation_symmetric(a: ProtocolVersion, b: ProtocolVersion)
    ensures
        (a.major == b.major) == (b.major == a.major),
        a.major == b.major ==> (if a.minor < b.minor {
            a.minor
        } else {
            b.minor
        }) == (if b.minor < a.minor {
            b.minor
        } else {
            a.minor
        }),
{
}

#[derive(Clone, Copy, Debug, PartialEq, Eq, Structural)]
pub enum MessageKind {
    Request,
    Response,
    Event,
    Error,
}

/// One protocol message around a payload.
#[derive(Clone, Debug, PartialEq, Eq)]
pub struct Message<T> {
    pub protocol: ProtocolVersion,
    pub request_id: u64,
    pub kind: MessageKind,
    pub payload: T,
}

/// The four big-endian bytes of a length.
pub open spec fn be_bytes(n: u32) -> Seq<u8> {
    seq![
        (n / 16777216) as u8,
        ((n / 65536) % 256) as u8,
        ((n / 256) % 256) as u8,
        (n % 256) as u8,
    ]
}

/// The length four big-endian bytes stand for.
pub open spec fn be_value(b: Seq<u8>) -> int {
    b[0] * 16777216 + b[1] * 65536 + b[2] * 256 + b[3]
}

/// Frames a payload: its length as four big-endian bytes, then the payload.
/// A payload over the size limit is refused.
pub fn frame_payload(payload: &[u8]) -> (r: Result<Vec<u8>, ProtocolError>)
    ensures
        payload@.len() > MAX_FRAME_SIZE ==> (r matches Err(e) && e == (ProtocolError::OversizedFrame {
            actual: payload@.len() as usize,
            max: MAX_FRAME_SIZE,
        })),
        payload@.len() <= MAX_FRAME_SIZE ==> (r matches Ok(f) && f@ == be_bytes(payload@.len() as u32)
            + payload@),
{
    let n = payload.len();
    if n > MAX_FRAME_SIZE {
        return Err(ProtocolError::OversizedFrame { actual: n, max: MAX_FRAME_SIZE });
    }
    let len = n as u32;
    let mut frame: Vec<u8> = Vec::new();
    frame.push((len / 16777216) as u8);
    frame.push(((len / 65536) % 256) as u8);
    frame.push(((len / 256) % 256) as u8);
    frame.push((len % 256) as u8);
    let mut i: usize = 0;
    while i < n
        invariant
            n == payload@.len(),
            n <= MAX_FRAME_SIZE,
            len == n as u32,
            i <= n,
            frame@ == be_bytes(len) + payload@.take(i as int),
        decreases n - i,
    {
        frame.push(payload[i]);
        proof {
            assert(payload@.take(i + 1) =~= payload@.take(i as int).push(payload@[i as int]));
        }
        i = i + 1;
    }
    proof {
        assert(payload@.take(n as int) =~= payload@);
    }
    Ok(frame)
}

/// Reads the declared payload length of a frame from its four-byte prefix,
/// refusing one over the size limit before anything is allocated.
pub fn frame_length(prefix: [u8; 4]) -> (r: Result<usize, ProtocolError>)
    ensures
        be_value(prefix@) > MAX_FRAME_SIZE ==> (r matches Err(e) && e matches ProtocolError::OversizedFrame {
            actual,
            max,
        } && actual == be_value(prefix@) && max == MAX_FRAME_SIZE),
        be_value(prefix@) <= MAX_FRAME_SIZE ==> r == Ok::<usize, ProtocolError>(be_value(prefix@) as usize),
{
    let value: u64 = (prefix[0] as u64) * 16777216 + (prefix[1] as u64) * 65536 + (prefix[2] as u64) * 256
        + (prefix[3] as u64);
    if value > MAX_FRAME_SIZE as u64 {
        return Err(ProtocolError::OversizedFrame { actual: value as usize, max: MAX_FRAME_SIZE });
    }
    Ok(value as usize)
}

/// A payload handed to decoding is refused when it is over the size limit.
pub fn check_payload_size(len: usize) -> (r: Result<(), ProtocolError>)
    ensures
        len <= MAX_FRAME_SIZE <==> r is Ok,
        r matches Err(e) ==> e == (ProtocolError::OversizedFrame { actual: len, max: MAX_FRAME_SIZE }),
{
    if len > MAX_FRAME_SIZE {
        return Err(ProtocolError::OversizedFrame { actual: len, max: MAX_FRAME_SIZE });
    }
    Ok(())
}

/// Reading back the prefix of a frame gives the length of its payload.
pub proof fn lemma_frame_round_trip(n: u32)
    ensures
        be_value(be_bytes(n)) == n,
{
    let a = n / 16777216;
    let b = (n / 65536) % 256;
    let c = (n / 256) % 256;
    let d = n % 256;
    assert(a < 256);
    assert(be_bytes(n)[0] == a);
    assert(be_bytes(n)[1] == b);
    assert(be_bytes(n)[2] == c);
    assert(be_bytes(n)[3] == d);
    assert(a * 16777216 + b * 65536 + c * 256 + d == n) by (nonlinear_arith)
        requires
            a == n / 16777216,
            b == (n / 65536) % 256,
            c == (n / 256) % 256,
            d == n % 256,
            0 <= n,
    ;
}

/// Whether a directory may hold a private endpoint: a real directory, owned
/// by the user, with no access for group or others.
pub open spec fn private_parent(is_symlink: bool, is_dir: bool, owner: u32, mode: u32, uid: u32) -> bool {
    !is_symlink && is_dir && owner == uid && (mode % 512) % 64 == 0
}

/// Refuses a directory that may not hold a private endpoint.
pub fn validate_private_parent(path: &str, is_symlink: bool, is_dir: bool, owner: u32, mode: u32, uid: u32) -> (r:
    Result<(), ProtocolError>)
    ensures
        private_parent(is_symlink, is_dir, owner, mode, uid) ==> r is Ok,
        !private_parent(is_symlink, is_dir, owner, mode, uid) ==> (r matches Err(
            ProtocolError::InsecureEndpointDirectory(p),
        ) && p@ == path@),
{
    let permissions = mode % 512;
    if is_symlink || !is_dir || owner != uid || permissions % 64 != 0 {
        return Err(ProtocolError::InsecureEndpointDirectory(path.to_owned()));
    }
    Ok(())
}

/// What an attempt to connect to an existing socket gave.
#[derive(Clone, Copy, Debug, PartialEq, Eq, Structural)]
pub enum ConnectOutcome {
    Connected,
    Refused,
    NotFound,
    Failed,
}

/// What an existing path at the endpoint location allows.
#[derive(Clone, Copy, Debug, PartialEq, Eq, Structural)]
pub enum ExistingSocket {
    /// Not a socket of this user: never touched.
    Unsafe,
    /// A socket with a listener: the endpoint is taken.
    InUse,
    /// A socket of this user with no listener: it may be replaced.
    Stale,
    /// The path went away meanwhile: nothing to remove.
    Vanished,
    /// The probe failed for another reason, which is reported.
    ProbeFailed,
}

/// Classifies an existing endpoint path from what was observed of it.
pub fn classify_existing(
    is_symlink: bool,
    is_socket: bool,
    owner: u32,
    uid: u32,
    probe: ConnectOutcome,
) -> (r: ExistingSocket)
    ensures
        r == if is_symlink || !is_socket || owner != uid {
            ExistingSocket::Unsafe
        } else {
            match probe {
                ConnectOutcome::Connected => ExistingSocket::InUse,
                ConnectOutcome::Refused => ExistingSocket::Stale,
                ConnectOutcome::NotFound => ExistingSocket::Vanished,
                ConnectOutcome::Failed => ExistingSocket::ProbeFailed,
            }
        },
{
    if is_symlink || !is_socket || owner != uid {
        ExistingSocket::Unsafe
    } else {
        match probe {
            ConnectOutcome::Connected => ExistingSocket::InUse,
            ConnectOutcome::Refused => ExistingSocket::Stale,
            ConnectOutcome::NotFound => ExistingSocket::Vanished,
            ConnectOutcome::Failed => ExistingSocket::ProbeFailed,
        }
    }
}

} // verus!
