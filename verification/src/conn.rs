//! The connection state machine: it owns the byte stream, the negotiated
//! parameters and the phase, allocates packet ids, frames and writes
//! outbound messages, reassembles inbound ones, and decodes them according
//! to the current phase.
//!
//! A connection's phase only ever moves forward through
//! `Initial -> PreloginPerformed -> Ready`, each step taken exactly once,
//! during the two-round-trip handshake run by `initialize`.

use vstd::prelude::*;
use vstd::slice::slice_to_vec;
use vstd::string::StringSliceAdditionalSpecFns;

use crate::bytesutil::{parse_decimal_u16, spec_parse_decimal};
use crate::errors::{ProtocolErrorKind, TdsError, TdsResult};
use crate::login::{EncryptionSetting, Login7, OptionTokenPair};
use crate::packets::{
    spec_packet_id, spec_split_bodies, PacketHeader, PacketKind, PacketStatus,
    HEADER_SIZE,
};
use crate::tokens::{
    spec_first_error, spec_first_packet_size_env, Token,
};

verus! {

/// The default maximum packet size used until the server confirms another.
pub const DEFAULT_PACKET_SIZE: u16 = 0x1000;

/// The protocol version declared during pre-login.
pub const PRELOGIN_VERSION: u32 = 0x09000000;

/// The protocol version declared in the login message.
pub const LOGIN_VERSION: u32 = 0x03000A73;

/// An upper bound on the size of one reassembled logical message; a peer
/// that streams more is refused with a protocol error.
pub const MAX_MESSAGE_BYTES: usize = 0x0100_0000;

/// The phase of a connection. It governs how an inbound message is decoded
/// and only ever moves forward.
#[derive(Clone, Copy, Debug, PartialEq, Eq, Structural)]
pub enum ClientState {
    /// Nothing negotiated yet.
    Initial,
    /// The pre-login exchange succeeded.
    PreloginPerformed,
    /// The handshake is complete; statements may run.
    Ready,
}

/// The position of a phase in the fixed forward order.
pub open spec fn spec_phase_rank(s: ClientState) -> int {
    match s {
        ClientState::Initial => 0,
        ClientState::PreloginPerformed => 1,
        ClientState::Ready => 2,
    }
}

/// Phase `a` comes no later than phase `b` in the fixed forward order.
pub open spec fn phase_le(a: ClientState, b: ClientState) -> bool {
    spec_phase_rank(a) <= spec_phase_rank(b)
}

/// The phase order is reflexive, transitive and antisymmetric: a phase
/// history in which every step respects `phase_le` never regresses and is a
/// prefix of `Initial, PreloginPerformed, Ready`.
pub proof fn lemma_phase_order(a: ClientState, b: ClientState, c: ClientState)
    ensures
        phase_le(a, a),
        phase_le(a, b) && phase_le(b, c) ==> phase_le(a, c),
        phase_le(a, b) && phase_le(b, a) ==> a == b,
{
}

/// The byte-stream a connection talks over. The crate never opens a socket
/// itself: callers hand it anything that can write bytes out and read an
/// exact number of bytes back, blocking until done.
///
/// An implementation must return from `read_exact` only with exactly the
/// requested number of bytes; anything shorter is a failed read.
pub trait TargetStream {
    /// Writes all of `data`, or fails.
    fn write_bytes(&mut self, data: &[u8]) -> (r: TdsResult<()>);

    /// Reads exactly `n` bytes, or fails.
    fn read_exact(&mut self, n: usize) -> (r: TdsResult<Vec<u8>>)
        ensures
            r matches Ok(v) ==> v@.len() == n,
    ;
}

/// An in-memory byte stream: everything written is recorded, and reads are
/// served from a pre-loaded buffer. It backs tests and doubles as the
/// reference implementation of [`TargetStream`].
pub struct MemoryStream {
    /// Everything written so far, in order.
    pub written: Vec<u8>,
    /// The bytes reads are served from.
    pub to_read: Vec<u8>,
    /// How much of `to_read` was consumed.
    pub read_pos: usize,
}

impl MemoryStream {
    /// A stream that will serve `to_read` and has seen no writes.
    pub fn new(to_read: Vec<u8>) -> (r: MemoryStream)
        ensures
            r.written@.len() == 0,
            r.to_read@ == to_read@,
            r.read_pos == 0,
    {
        MemoryStream { written: Vec::new(), to_read, read_pos: 0 }
    }
}

impl TargetStream for MemoryStream {
    fn write_bytes(&mut self, data: &[u8]) -> (r: TdsResult<()>)
        ensures
            final(self).written@ == old(self).written@ + data@,
            final(self).to_read == old(self).to_read,
            final(self).read_pos == old(self).read_pos,
            r is Ok,
    {
        crate::bytesutil::push_bytes(&mut self.written, data);
        Ok(())
    }

    fn read_exact(&mut self, n: usize) -> (r: TdsResult<Vec<u8>>)
        ensures
            r matches Ok(v) ==> v@.len() == n,
            final(self).written == old(self).written,
            final(self).to_read == old(self).to_read,
            r matches Ok(v) ==> old(self).read_pos + n <= old(self).to_read@.len() && v@ == old(
                self,
            ).to_read@.subrange(
                old(self).read_pos as int,
                old(self).read_pos + n,
            ) && final(self).read_pos == old(self).read_pos + n,
            r is Err ==> final(self).read_pos == old(self).read_pos,
    {
        if self.read_pos > self.to_read.len() || self.to_read.len() - self.read_pos < n {
            return Err(TdsError::Transport);
        }
        let v = crate::bytesutil::copy_range(&self.to_read, self.read_pos, n);
        self.read_pos = self.read_pos + n;
        Ok(v)
    }
}

/// How a connection authenticates.
#[derive(Clone, Debug)]
pub enum AuthenticationMethod {
    /// Username and password checked by the server itself.
    InternalSqlServerAuth(Vec<u8>, Vec<u8>),
}

impl AuthenticationMethod {
    /// Server-checked authentication with the given credentials.
    pub fn internal(username: &str, password: &str) -> (r: AuthenticationMethod)
        ensures
            r matches AuthenticationMethod::InternalSqlServerAuth(u, p) && u@
                == username.spec_bytes() && p@ == password.spec_bytes(),
    {
        AuthenticationMethod::InternalSqlServerAuth(
            slice_to_vec(username.as_bytes()),
            slice_to_vec(password.as_bytes()),
        )
    }
}

/// The username a method authenticates with.
pub open spec fn spec_auth_username(a: AuthenticationMethod) -> Seq<u8> {
    match a {
        AuthenticationMethod::InternalSqlServerAuth(u, _) => u@,
    }
}

/// The password a method authenticates with.
pub open spec fn spec_auth_password(a: AuthenticationMethod) -> Seq<u8> {
    match a {
        AuthenticationMethod::InternalSqlServerAuth(_, p) => p@,
    }
}

/// Everything a connection needs at birth: credentials, target database
/// and an established byte stream.
#[derive(Debug)]
pub struct ConnectionOptions<S: TargetStream> {
    pub auth: AuthenticationMethod,
    pub database: Vec<u8>,
    pub stream: S,
}

/// Builds [`ConnectionOptions`] step by step around a stream.
pub struct ConnectionOptBuilder<S: TargetStream> {
    auth: Option<AuthenticationMethod>,
    database: Option<Vec<u8>>,
    stream: S,
}

impl<S: TargetStream> ConnectionOptBuilder<S> {
    /// A builder with nothing but the stream set.
    pub fn new(stream: S) -> (r: ConnectionOptBuilder<S>)
        ensures
            r.spec_auth() is None,
            r.spec_database() is None,
    {
        ConnectionOptBuilder { auth: None, database: None, stream }
    }

    /// The authentication method chosen so far.
    pub closed spec fn spec_auth(&self) -> Option<AuthenticationMethod> {
        self.auth
    }

    /// The database chosen so far.
    pub closed spec fn spec_database(&self) -> Option<Vec<u8>> {
        self.database
    }

    /// Chooses the authentication method.
    pub fn auth(self, method: AuthenticationMethod) -> (r: ConnectionOptBuilder<S>)
        ensures
            r.spec_auth() == Some(method),
            r.spec_database() == self.spec_database(),
    {
        ConnectionOptBuilder { auth: Some(method), ..self }
    }

    /// Chooses the target database.
    pub fn db(self, database: &str) -> (r: ConnectionOptBuilder<S>)
        ensures
            r.spec_auth() == self.spec_auth(),
            r.spec_database() matches Some(d) && d@ == database.spec_bytes(),
    {
        ConnectionOptBuilder { database: Some(slice_to_vec(database.as_bytes())), ..self }
    }

    /// Finishes the options. Authentication and database must both have
    /// been chosen.
    pub fn build(self) -> (r: ConnectionOptions<S>)
        requires
            self.spec_auth() is Some,
            self.spec_database() is Some,
        ensures
            r.auth == self.spec_auth().unwrap(),
            r.database == self.spec_database().unwrap(),
    {
        let auth = match self.auth {
            Some(a) => a,
            None => {
                proof {
                    assert(false);
                }
                AuthenticationMethod::InternalSqlServerAuth(Vec::new(), Vec::new())
            },
        };
        let database = match self.database {
            Some(d) => d,
            None => {
                proof {
                    assert(false);
                }
                Vec::new()
            },
        };
        ConnectionOptions { auth, database, stream: self.stream }
    }
}

/// Anything that can yield finished connection options.
pub trait IntoConnectOpts<S: TargetStream> {
    /// Turns this value into connection options.
    fn into_connect_opts(self) -> (r: TdsResult<ConnectionOptions<S>>);
}

impl<S: TargetStream> IntoConnectOpts<S> for ConnectionOptions<S> {
    fn into_connect_opts(self) -> (r: TdsResult<ConnectionOptions<S>>) {
        Ok(self)
    }
}

/// The option list every pre-login message of this client carries, in
/// order: protocol version, encryption declared unsupported, empty
/// instance name, thread id zero, multiple-active-result-sets off.
pub open spec fn spec_handshake_options() -> Seq<crate::login::OptionTokenPairV> {
    seq![
        crate::login::OptionTokenPairV::Version(PRELOGIN_VERSION, 0),
        crate::login::OptionTokenPairV::Encryption(EncryptionSetting::NotSupported),
        crate::login::OptionTokenPairV::Instance(Seq::empty()),
        crate::login::OptionTokenPairV::ThreadId(0),
        crate::login::OptionTokenPairV::Mars(0),
    ]
}

/// The pre-login message the handshake sends, as a (kind, body) pair.
pub open spec fn spec_prelogin_message() -> (PacketKind, Seq<u8>) {
    (PacketKind::PreLogin, crate::login::spec_enc_prelogin(spec_handshake_options()))
}

/// The login message the handshake sends for the given configuration and
/// requested packet size, as a (kind, body) pair.
pub open spec fn spec_login_message(
    auth: AuthenticationMethod,
    database: Seq<u8>,
    packet_size: u16,
) -> (PacketKind, Seq<u8>) {
    (
        PacketKind::Login,
        crate::login::spec_login_body(
            LOGIN_VERSION,
            packet_size as u32,
            spec_auth_username(auth),
            spec_auth_password(auth),
            database,
        ),
    )
}

/// A logical inbound message, decoded according to the phase it arrived
/// in.
#[derive(Debug)]
pub enum Message {
    /// A pre-login reply: its option list.
    Prelogin(Vec<OptionTokenPair>),
    /// A generic response: its token stream.
    TokenStream(Vec<Token>),
}

/// The connection proper: phase, packet-id counter, negotiated maximum
/// packet size, and the configuration it was built from.
pub struct InternalConnection<S: TargetStream> {
    /// The current phase.
    pub state: ClientState,
    /// The id the next physical packet will carry; always below 255.
    pub last_packet_id: u8,
    /// The configuration and the stream.
    pub opts: ConnectionOptions<S>,
    /// The negotiated maximum packet size; always larger than a header.
    pub packet_size: u16,
    /// A ghost transcript of every logical message fully handed to the
    /// stream, in order, as (kind, body) pairs.
    pub sent: Ghost<Seq<(PacketKind, Seq<u8>)>>,
    /// A ghost transcript of every logical message reassembled from the
    /// stream, in order, as (kind, body) pairs.
    pub received: Ghost<Seq<(PacketKind, Seq<u8>)>>,
}

impl<S: TargetStream> InternalConnection<S> {
    /// The structural invariant: the id counter stays below the sentinel
    /// and the packet size always leaves room for a body.
    pub open spec fn wf(&self) -> bool {
        self.last_packet_id < 255 && self.packet_size > HEADER_SIZE
    }

    /// The id the next physical packet will carry.
    pub open spec fn spec_next_id(&self) -> u8 {
        self.last_packet_id
    }

    /// The negotiated maximum packet size.
    pub open spec fn spec_packet_size(&self) -> u16 {
        self.packet_size
    }

    /// Reads the negotiated maximum packet size.
    pub fn packet_size(&self) -> (r: u16)
        ensures
            r == self.spec_packet_size(),
    {
        self.packet_size
    }

    /// A fresh connection around the given options: phase `Initial`, id
    /// counter at zero, packet size at the default.
    pub fn new(opts: ConnectionOptions<S>) -> (r: InternalConnection<S>)
        ensures
            r.wf(),
            r.state == ClientState::Initial,
            r.spec_next_id() == 0,
            r.spec_packet_size() == DEFAULT_PACKET_SIZE,
            r.opts.auth == opts.auth,
            r.opts.database == opts.database,
            r.sent@ == Seq::<(PacketKind, Seq<u8>)>::empty(),
            r.received@ == Seq::<(PacketKind, Seq<u8>)>::empty(),
    {
        InternalConnection {
            state: ClientState::Initial,
            last_packet_id: 0,
            opts,
            packet_size: DEFAULT_PACKET_SIZE,
            sent: Ghost(Seq::empty()),
            received: Ghost(Seq::empty()),
        }
    }

    /// Frames a logical message into packets bounded by the negotiated
    /// maximum size and writes them out, allocating one fresh packet id per
    /// physical packet written.
    ///
    /// On success the id counter has advanced by exactly the number of
    /// physical packets of the message.
    pub fn send_packet(&mut self, kind: PacketKind, body: &Vec<u8>) -> (r: TdsResult<()>)
        requires
            old(self).wf(),
        ensures
            final(self).wf(),
            final(self).state == old(self).state,
            final(self).spec_packet_size() == old(self).spec_packet_size(),
            final(self).opts.auth == old(self).opts.auth,
            final(self).opts.database == old(self).opts.database,
            r is Ok ==> final(self).spec_next_id() == spec_packet_id(
                old(self).spec_next_id(),
                spec_split_bodies(
                    body@,
                    old(self).spec_packet_size() - HEADER_SIZE,
                ).len() as int,
            ),
            final(self).received == old(self).received,
            r is Ok ==> final(self).sent@ == old(self).sent@ + seq![(kind, body@)],
            r is Err ==> (r matches Err(e) && e is Transport) && final(self).sent@ == old(
                self,
            ).sent@,
    {
        let packets = crate::packets::frame_message(
            kind,
            body,
            self.packet_size,
            self.last_packet_id,
        );
        let ghost first_id = self.last_packet_id;
        let n = packets.len();
        let mut i: usize = 0;
        while i < n
            invariant
                n == packets@.len(),
                i <= n,
                self.wf(),
                self.state == old(self).state,
                self.packet_size == old(self).packet_size,
                self.opts.auth == old(self).opts.auth,
                self.opts.database == old(self).opts.database,
                first_id == old(self).last_packet_id,
                first_id < 255,
                self.last_packet_id == spec_packet_id(first_id, i as int),
                self.sent == old(self).sent,
                self.received == old(self).received,
            decreases n - i,
        {
            let wire = packets[i].to_wire();
            match self.opts.stream.write_bytes(wire.as_slice()) {
                Ok(()) => {},
                Err(_) => {
                    return Err(TdsError::Transport);
                },
            }
            proof {
                crate::packets::lemma_packet_ids_consecutive(first_id, i as int);
            }
            self.last_packet_id = (self.last_packet_id + 1) % 255;
            i = i + 1;
        }
        let ghost recorded = self.sent@ + seq![(kind, body@)];
        self.sent = Ghost(recorded);
        Ok(())
    }

    /// Reads physical packets until one marked end-of-message arrives,
    /// concatenating their bodies in arrival order; returns the logical
    /// kind of the first packet with the whole body.
    ///
    /// Fails with a transport error when the stream gives out, and with a
    /// protocol error on a malformed header, on an empty continuation
    /// packet, or when the message outgrows `MAX_MESSAGE_BYTES`.
    pub fn receive_message(&mut self) -> (r: TdsResult<(PacketKind, Vec<u8>)>)
        requires
            old(self).wf(),
        ensures
            final(self).wf(),
            final(self).state == old(self).state,
            final(self).spec_next_id() == old(self).spec_next_id(),
            final(self).spec_packet_size() == old(self).spec_packet_size(),
            final(self).opts.auth == old(self).opts.auth,
            final(self).opts.database == old(self).opts.database,
            final(self).sent == old(self).sent,
            r matches Err(e) ==> e is Transport || e matches TdsError::Protocol(
                ProtocolErrorKind::BadPacketHeader,
            ),
            r matches Err(e) ==> final(self).received == old(self).received,
            r matches Ok((k, b)) ==> final(self).received@ == old(self).received@ + seq![
                (k, b@),
            ],
    {
        let mut body: Vec<u8> = Vec::new();
        let mut kind: Option<PacketKind> = None;
        loop
            invariant
                self.wf(),
                self.state == old(self).state,
                self.last_packet_id == old(self).last_packet_id,
                self.packet_size == old(self).packet_size,
                self.opts.auth == old(self).opts.auth,
                self.opts.database == old(self).opts.database,
                self.sent == old(self).sent,
                self.received == old(self).received,
                body@.len() <= MAX_MESSAGE_BYTES,
            ensures
                self.wf(),
                self.state == old(self).state,
                self.last_packet_id == old(self).last_packet_id,
                self.packet_size == old(self).packet_size,
                self.opts.auth == old(self).opts.auth,
                self.opts.database == old(self).opts.database,
                self.sent == old(self).sent,
                self.received == old(self).received,
                kind is Some,
            decreases MAX_MESSAGE_BYTES - body@.len(),
        {
            let header_bytes = match self.opts.stream.read_exact(HEADER_SIZE) {
                Ok(v) => v,
                Err(_) => {
                    return Err(TdsError::Transport);
                },
            };
            let header = match PacketHeader::decode_at(&header_bytes, 0) {
                Some(h) => h,
                None => {
                    return Err(TdsError::Protocol(ProtocolErrorKind::BadPacketHeader));
                },
            };
            if (header.length as usize) < HEADER_SIZE {
                return Err(TdsError::Protocol(ProtocolErrorKind::BadPacketHeader));
            }
            let chunk_len = header.length as usize - HEADER_SIZE;
            if chunk_len == 0 && matches!(header.status, PacketStatus::NormalMessage) {
                return Err(TdsError::Protocol(ProtocolErrorKind::BadPacketHeader));
            }
            if MAX_MESSAGE_BYTES - body.len() < chunk_len {
                return Err(TdsError::Protocol(ProtocolErrorKind::BadPacketHeader));
            }
            let chunk = match self.opts.stream.read_exact(chunk_len) {
                Ok(v) => v,
                Err(_) => {
                    return Err(TdsError::Transport);
                },
            };
            crate::bytesutil::push_bytes(&mut body, chunk.as_slice());
            if matches!(kind, None) {
                kind = Some(header.kind);
            }
            match header.status {
                PacketStatus::EndOfMessage => {
                    break;
                },
                PacketStatus::NormalMessage => {},
            }
        }
        match kind {
            Some(k) => {
                let ghost logged = self.received@ + seq![(k, body@)];
                self.received = Ghost(logged);
                Ok((k, body))
            },
            None => Err(TdsError::Protocol(ProtocolErrorKind::BadPacketHeader)),
        }
    }

    /// Reads and decodes one inbound message according to the current
    /// phase: in `Initial` a pre-login reply (or a token stream, which a
    /// peer may use to report an early error); in `PreloginPerformed` a
    /// token stream. A connection in `Ready` must not use this low-level
    /// receive: callers there go through the execution engine.
    pub fn read_packet(&mut self) -> (r: TdsResult<Message>)
        requires
            old(self).wf(),
            old(self).state != ClientState::Ready,
        ensures
            final(self).wf(),
            final(self).state == old(self).state,
            final(self).spec_next_id() == old(self).spec_next_id(),
            final(self).spec_packet_size() == old(self).spec_packet_size(),
            final(self).opts.auth == old(self).opts.auth,
            final(self).opts.database == old(self).opts.database,
            final(self).sent == old(self).sent,
            r matches Ok(m) ==> (old(self).state == ClientState::PreloginPerformed ==> m
                is TokenStream),
            r matches Ok(m) ==> (old(self).state == ClientState::Initial ==> m is Prelogin || m
                is TokenStream),
            r matches Err(e) ==> e is Transport || e is Protocol,
    {
        let (kind, body) = match self.receive_message() {
            Ok(x) => x,
            Err(e) => {
                return Err(e);
            },
        };
        match self.state {
            ClientState::Initial => {
                match kind {
                    PacketKind::PreLogin => {
                        match crate::login::decode_prelogin(&body) {
                            Ok(options) => Ok(Message::Prelogin(options)),
                            Err(e) => Err(e),
                        }
                    },
                    PacketKind::TabularResult => {
                        match crate::tokens::decode_tokens(&body) {
                            Ok(tokens) => Ok(Message::TokenStream(tokens)),
                            Err(e) => Err(e),
                        }
                    },
                    _ => Err(TdsError::Protocol(ProtocolErrorKind::UnexpectedMessageType)),
                }
            },
            ClientState::PreloginPerformed => {
                match kind {
                    PacketKind::TabularResult => {
                        match crate::tokens::decode_tokens(&body) {
                            Ok(tokens) => Ok(Message::TokenStream(tokens)),
                            Err(e) => Err(e),
                        }
                    },
                    _ => Err(TdsError::Protocol(ProtocolErrorKind::UnexpectedMessageType)),
                }
            },
            ClientState::Ready => {
                proof {
                    assert(false);
                }
                Err(TdsError::Contract)
            },
        }
    }

    /// Sends a plain SQL batch. Only a `Ready` connection may execute
    /// statements.
    pub fn internal_exec(&mut self, sql: &str) -> (r: TdsResult<()>)
        requires
            old(self).wf(),
            old(self).state == ClientState::Ready,
        ensures
            final(self).wf(),
            final(self).state == old(self).state,
            final(self).spec_packet_size() == old(self).spec_packet_size(),
            final(self).opts.auth == old(self).opts.auth,
            final(self).opts.database == old(self).opts.database,
            r is Ok ==> final(self).spec_next_id() == spec_packet_id(
                old(self).spec_next_id(),
                spec_split_bodies(
                    sql.spec_bytes(),
                    old(self).spec_packet_size() - HEADER_SIZE,
                ).len() as int,
            ),
            r is Ok ==> final(self).sent@ == old(self).sent@ + seq![
                (PacketKind::SqlBatch, sql.spec_bytes()),
            ],
            r is Err ==> (r matches Err(e) && e is Transport) && final(self).sent@ == old(
                self,
            ).sent@,
    {
        let body = slice_to_vec(sql.as_bytes());
        self.send_packet(PacketKind::SqlBatch, &body)
    }

    /// Runs the two-step handshake: pre-login, then login.
    ///
    /// The phase moves forward only; on success it is `Ready` and the
    /// negotiated packet size is the one the server confirmed through an
    /// environment-change token. A failure in the first step leaves the
    /// phase `Initial`; a failure in the second leaves it
    /// `PreloginPerformed`; no failure yields a usable connection, because
    /// `connect` discards it.
    pub fn initialize(&mut self) -> (r: TdsResult<()>)
        requires
            old(self).wf(),
            old(self).state == ClientState::Initial,
        ensures
            final(self).wf(),
            final(self).opts.auth == old(self).opts.auth,
            final(self).opts.database == old(self).opts.database,
            phase_le(old(self).state, final(self).state),
            r is Ok ==> final(self).state == ClientState::Ready,
            r is Err ==> final(self).state == ClientState::Initial || final(self).state
                == ClientState::PreloginPerformed,
            r is Ok ==> final(self).sent@ == old(self).sent@ + seq![
                spec_prelogin_message(),
                spec_login_message(
                    old(self).opts.auth,
                    old(self).opts.database@,
                    old(self).spec_packet_size(),
                ),
            ],
            r is Err && final(self).state == ClientState::Initial ==> final(self).sent@ == old(
                self,
            ).sent@ || final(self).sent@ == old(self).sent@ + seq![spec_prelogin_message()],
            r matches Err(TdsError::Contract) ==> 32 + spec_auth_username(
                old(self).opts.auth,
            ).len() + spec_auth_password(old(self).opts.auth).len() + old(
                self,
            ).opts.database@.len() > u16::MAX,
    {
        let mut prelogin_options: Vec<OptionTokenPair> = Vec::new();
        prelogin_options.push(OptionTokenPair::Version(PRELOGIN_VERSION, 0));
        prelogin_options.push(OptionTokenPair::Encryption(EncryptionSetting::NotSupported));
        prelogin_options.push(OptionTokenPair::Instance(Vec::new()));
        prelogin_options.push(OptionTokenPair::ThreadId(0));
        prelogin_options.push(OptionTokenPair::Mars(0));
        assert(forall|i: int|
            0 <= i < prelogin_options@.len() ==> (#[trigger] prelogin_options@[i]).wf());
        proof {
            assert(prelogin_options@.map_values(|o: OptionTokenPair| o@)
                =~= spec_handshake_options());
        }
        let prelogin_body = crate::login::encode_prelogin(&prelogin_options);
        match self.send_packet(PacketKind::PreLogin, &prelogin_body) {
            Ok(()) => {},
            Err(e) => {
                return Err(e);
            },
        }
        let reply = match self.read_packet() {
            Ok(m) => m,
            Err(e) => {
                return Err(e);
            },
        };
        match reply {
            Message::Prelogin(_) => {},
            Message::TokenStream(tokens) => {
                match crate::tokens::catch_error(&tokens) {
                    Ok(()) => {},
                    Err(e) => {
                        return Err(e);
                    },
                }
            },
        }
        self.state = ClientState::PreloginPerformed;

        let mut login = Login7::new(LOGIN_VERSION);
        match &self.opts.auth {
            AuthenticationMethod::InternalSqlServerAuth(username, password) => {
                login.username = username.clone();
                login.password = password.clone();
            },
        }
        login.set_db(self.opts.database.clone());
        login.packet_size = self.packet_size as u32;
        let ul = login.username.len();
        let pl = login.password.len();
        let dl = login.database.len();
        if ul > 0xFFFF || pl > 0xFFFF || dl > 0xFFFF || 32 + ul + pl + dl > u16::MAX as usize {
            return Err(TdsError::Contract);
        }
        let login_body = login.encode();
        proof {
            assert(login_body@ =~= crate::login::spec_login_body(
                LOGIN_VERSION,
                old(self).spec_packet_size() as u32,
                spec_auth_username(old(self).opts.auth),
                spec_auth_password(old(self).opts.auth),
                old(self).opts.database@,
            ));
        }
        match self.send_packet(PacketKind::Login, &login_body) {
            Ok(()) => {},
            Err(e) => {
                return Err(e);
            },
        }
        let reply = match self.read_packet() {
            Ok(m) => m,
            Err(e) => {
                return Err(e);
            },
        };
        let tokens = match reply {
            Message::TokenStream(tokens) => tokens,
            Message::Prelogin(_) => {
                proof {
                    assert(false);
                }
                return Err(TdsError::Contract);
            },
        };
        let new_size = match negotiated_packet_size(&tokens) {
            Ok(sz) => sz,
            Err(e) => {
                return Err(e);
            },
        };
        self.packet_size = new_size;
        self.state = ClientState::Ready;
        proof {
            assert(self.sent@ =~= old(self).sent@ + seq![
                spec_prelogin_message(),
                spec_login_message(
                    old(self).opts.auth,
                    old(self).opts.database@,
                    old(self).spec_packet_size(),
                ),
            ]);
        }
        Ok(())
    }
}

/// The packet size a login response confirms.
///
/// An error token in the response takes precedence and surfaces as a
/// server error. Otherwise the first packet-size environment change is
/// consulted: absent, the handshake cannot establish a sending size and
/// fails; present, its new value must parse as a decimal number that fits
/// 16 bits and leaves room for a header.
pub fn negotiated_packet_size(tokens: &Vec<Token>) -> (r: TdsResult<u16>)
    ensures
        ({
            let g = tokens@.map_values(|t: Token| t@);
            match r {
                Ok(sz) => {
                    &&& spec_first_error(g) is None
                    &&& spec_first_packet_size_env(g) matches Some(v) && spec_parse_decimal(v)
                        == Some(sz as nat)
                    &&& sz > HEADER_SIZE
                },
                Err(e) => match e {
                    TdsError::Server { code, message } => spec_first_error(g) == Some(
                        (code, message@),
                    ),
                    TdsError::Protocol(k) => {
                        &&& spec_first_error(g) is None
                        &&& match k {
                            ProtocolErrorKind::MissingPacketSize => spec_first_packet_size_env(g)
                                is None,
                            ProtocolErrorKind::BadPacketSizeValue => {
                                &&& spec_first_packet_size_env(g) matches Some(v)
                                &&& (spec_parse_decimal(v) is None || spec_parse_decimal(
                                    v,
                                ).unwrap() > u16::MAX || spec_parse_decimal(v).unwrap()
                                    <= HEADER_SIZE)
                            },
                            _ => false,
                        }
                    },
                    _ => false,
                },
            }
        }),
{
    match crate::tokens::catch_error(tokens) {
        Ok(()) => {},
        Err(e) => {
            return Err(e);
        },
    }
    let raw = match crate::tokens::first_packet_size_env(tokens) {
        Some(v) => v,
        None => {
            return Err(TdsError::Protocol(ProtocolErrorKind::MissingPacketSize));
        },
    };
    match parse_decimal_u16(&raw) {
        Some(sz) => {
            if sz > HEADER_SIZE as u16 {
                Ok(sz)
            } else {
                Err(TdsError::Protocol(ProtocolErrorKind::BadPacketSizeValue))
            }
        },
        None => Err(TdsError::Protocol(ProtocolErrorKind::BadPacketSizeValue)),
    }
}


/// A ready connection to the server: the public face of the library.
///
/// `connect` is the only constructor, so every value of this type has
/// completed the handshake; no partially-initialized connection escapes.
pub struct Connection<S: TargetStream> {
    /// The state machine under the hood.
    pub inner: InternalConnection<S>,
}

impl<S: TargetStream> Connection<S> {
    /// A connection is usable when its machine is well formed and its
    /// phase is `Ready`.
    pub open spec fn wf(&self) -> bool {
        self.inner.wf() && self.inner.state == ClientState::Ready
    }

    /// Allocates a connection in phase `Initial`, runs the handshake and
    /// returns the connection in phase `Ready`. On any failure no
    /// connection is returned.
    pub fn connect(opts: ConnectionOptions<S>) -> (r: TdsResult<Connection<S>>)
        ensures
            r matches Ok(c) ==> c.wf() && c.inner.opts.auth == opts.auth
                && c.inner.opts.database == opts.database && c.inner.sent@ == seq![
                spec_prelogin_message(),
                spec_login_message(opts.auth, opts.database@, DEFAULT_PACKET_SIZE),
            ],
    {
        let mut conn = InternalConnection::new(opts);
        match conn.initialize() {
            Ok(()) => Ok(Connection { inner: conn }),
            Err(e) => Err(e),
        }
    }

    /// Executes the given query and returns the resulting rows.
    pub fn query(&mut self, sql: &str) -> (r: TdsResult<crate::stmt::QueryResult>)
        requires
            old(self).wf(),
        ensures
            final(self).wf(),
            final(self).inner.opts.auth == old(self).inner.opts.auth,
            final(self).inner.opts.database == old(self).inner.opts.database,
            r is Ok ==> final(self).inner.sent@ == old(self).inner.sent@ + seq![
                (PacketKind::SqlBatch, sql.spec_bytes()),
            ],
    {
        let stmt = crate::stmt::StatementInternal::new(sql);
        stmt.execute_into_query(&mut self.inner)
    }

    /// Executes a SQL statement and returns the number of affected rows.
    pub fn exec(&mut self, sql: &str) -> (r: TdsResult<usize>)
        requires
            old(self).wf(),
        ensures
            final(self).wf(),
            final(self).inner.opts.auth == old(self).inner.opts.auth,
            final(self).inner.opts.database == old(self).inner.opts.database,
            r is Ok ==> final(self).inner.sent@ == old(self).inner.sent@ + seq![
                (PacketKind::SqlBatch, sql.spec_bytes()),
            ],
    {
        let mut stmt = crate::stmt::StatementInternal::new(sql);
        stmt.execute(&mut self.inner)
    }

    /// Creates a prepared statement around this connection's server. The
    /// handle is requested lazily, on the statement's first execution.
    pub fn prepare(&self, sql: &str) -> (r: TdsResult<crate::stmt::PreparedStatement>)
        ensures
            r matches Ok(p) && p.sql@ == sql.spec_bytes() && p.stmt.handle is None
                && p.stmt.column_infos@.len() == 0 && p.prepare_calls@ == 0,
    {
        crate::stmt::PreparedStatement::new(sql)
    }

    /// Creates a parameterized statement executed through the
    /// execute-SQL-text procedure, without a server-side handle.
    pub fn parameterized(&self, sql: &str, parameter_meta: Option<&str>) -> (r: TdsResult<
        crate::stmt::ParameterizedStatement,
    >)
        ensures
            r matches Ok(p) && p.sql@ == sql.spec_bytes() && p.stmt.handle is None,
    {
        crate::stmt::ParameterizedStatement::new(sql, parameter_meta)
    }
}

} // verus!
