//! The two handshake messages: the pre-login negotiation message (ordered
//! option/value pairs closed by a terminator) and the credentialed login
//! message (a fixed header with offset/length references into a trailing
//! data region, the password obfuscated per protocol convention).

use vstd::prelude::*;

use crate::bytesutil::{
    push_bytes, push_u16_le, push_u32_le, spec_u16_le, spec_u32_le,
};
use crate::errors::{ProtocolErrorKind, TdsError, TdsResult};

verus! {

/// The encryption capability declared during pre-login.
#[derive(Clone, Copy, Debug, PartialEq, Eq, Structural)]
pub enum EncryptionSetting {
    /// Encryption available but off.
    Off,
    /// Encryption on.
    On,
    /// Encryption not supported by this client.
    NotSupported,
    /// Encryption required.
    Required,
}

impl EncryptionSetting {
    /// The wire byte of this setting.
    pub open spec fn spec_to_byte(self) -> u8 {
        match self {
            EncryptionSetting::Off => 0x00,
            EncryptionSetting::On => 0x01,
            EncryptionSetting::NotSupported => 0x02,
            EncryptionSetting::Required => 0x03,
        }
    }

    /// Encodes this setting as its wire byte.
    pub fn to_byte(self) -> (r: u8)
        ensures
            r == self.spec_to_byte(),
    {
        match self {
            EncryptionSetting::Off => 0x00,
            EncryptionSetting::On => 0x01,
            EncryptionSetting::NotSupported => 0x02,
            EncryptionSetting::Required => 0x03,
        }
    }

    /// The setting encoded by `b`, or nothing for an unassigned byte.
    pub open spec fn spec_from_byte(b: u8) -> Option<EncryptionSetting> {
        if b == 0x00 {
            Some(EncryptionSetting::Off)
        } else if b == 0x01 {
            Some(EncryptionSetting::On)
        } else if b == 0x02 {
            Some(EncryptionSetting::NotSupported)
        } else if b == 0x03 {
            Some(EncryptionSetting::Required)
        } else {
            None
        }
    }

    /// Decodes a wire byte back into a setting.
    pub fn from_byte(b: u8) -> (r: Option<EncryptionSetting>)
        ensures
            r == EncryptionSetting::spec_from_byte(b),
    {
        if b == 0x00 {
            Some(EncryptionSetting::Off)
        } else if b == 0x01 {
            Some(EncryptionSetting::On)
        } else if b == 0x02 {
            Some(EncryptionSetting::NotSupported)
        } else if b == 0x03 {
            Some(EncryptionSetting::Required)
        } else {
            None
        }
    }
}

/// One option/value pair of a pre-login message or reply.
#[derive(Clone, Debug)]
pub enum OptionTokenPair {
    /// Protocol version and sub-build number.
    Version(u32, u16),
    /// Encryption capability.
    Encryption(EncryptionSetting),
    /// Instance name.
    Instance(Vec<u8>),
    /// Client thread identifier.
    ThreadId(u32),
    /// Multiple-active-result-sets capability flag.
    Mars(u8),
}

/// The mathematical image of an [`OptionTokenPair`].
pub enum OptionTokenPairV {
    Version(u32, u16),
    Encryption(EncryptionSetting),
    Instance(Seq<u8>),
    ThreadId(u32),
    Mars(u8),
}

impl View for OptionTokenPair {
    type V = OptionTokenPairV;

    open spec fn view(&self) -> OptionTokenPairV {
        match self {
            OptionTokenPair::Version(v, sub) => OptionTokenPairV::Version(*v, *sub),
            OptionTokenPair::Encryption(e) => OptionTokenPairV::Encryption(*e),
            OptionTokenPair::Instance(name) => OptionTokenPairV::Instance(name@),
            OptionTokenPair::ThreadId(t) => OptionTokenPairV::ThreadId(*t),
            OptionTokenPair::Mars(m) => OptionTokenPairV::Mars(*m),
        }
    }
}

impl OptionTokenPair {
    /// An option fits the wire form when its byte string fits a 16-bit
    /// length.
    pub open spec fn wf(self) -> bool {
        match self {
            OptionTokenPair::Instance(name) => name@.len() <= u16::MAX,
            _ => true,
        }
    }
}

/// One option in wire form: its tag byte, then its payload.
pub open spec fn spec_enc_option(o: OptionTokenPairV) -> Seq<u8> {
    match o {
        OptionTokenPairV::Version(v, sub) => seq![0x00u8] + spec_u32_le(v) + spec_u16_le(sub),
        OptionTokenPairV::Encryption(e) => seq![0x01u8, e.spec_to_byte()],
        OptionTokenPairV::Instance(name) => seq![0x02u8] + spec_u16_le(name.len() as u16) + name,
        OptionTokenPairV::ThreadId(t) => seq![0x03u8] + spec_u32_le(t),
        OptionTokenPairV::Mars(m) => seq![0x04u8, m],
    }
}

/// A run of options in wire form, in order.
pub open spec fn spec_enc_options(os: Seq<OptionTokenPairV>) -> Seq<u8>
    decreases os.len(),
{
    if os.len() == 0 {
        Seq::empty()
    } else {
        spec_enc_option(os[0]) + spec_enc_options(os.drop_first())
    }
}

/// A whole pre-login body: the options back to back, closed by the
/// terminator byte.
pub open spec fn spec_enc_prelogin(os: Seq<OptionTokenPairV>) -> Seq<u8> {
    spec_enc_options(os) + seq![0xFFu8]
}

/// Appends one option in wire form to `out`.
fn encode_option_onto(out: &mut Vec<u8>, o: &OptionTokenPair)
    requires
        o.wf(),
    ensures
        final(out)@ == old(out)@ + spec_enc_option(o@),
{
    match o {
        OptionTokenPair::Version(v, sub) => {
            out.push(0x00);
            push_u32_le(out, *v);
            push_u16_le(out, *sub);
            assert(out@ =~= old(out)@ + spec_enc_option(o@));
        },
        OptionTokenPair::Encryption(e) => {
            out.push(0x01);
            out.push(e.to_byte());
            assert(out@ =~= old(out)@ + spec_enc_option(o@));
        },
        OptionTokenPair::Instance(name) => {
            out.push(0x02);
            push_u16_le(out, name.len() as u16);
            push_bytes(out, name.as_slice());
            assert(out@ =~= old(out)@ + spec_enc_option(o@));
        },
        OptionTokenPair::ThreadId(t) => {
            out.push(0x03);
            push_u32_le(out, *t);
            assert(out@ =~= old(out)@ + spec_enc_option(o@));
        },
        OptionTokenPair::Mars(m) => {
            out.push(0x04);
            out.push(*m);
            assert(out@ =~= old(out)@ + spec_enc_option(o@));
        },
    }
}

/// Encodes a whole pre-login body.
pub fn encode_prelogin(options: &Vec<OptionTokenPair>) -> (r: Vec<u8>)
    requires
        forall|i: int| 0 <= i < options@.len() ==> (#[trigger] options@[i]).wf(),
    ensures
        r@ == spec_enc_prelogin(options@.map_values(|o: OptionTokenPair| o@)),
{
    let ghost g = options@.map_values(|o: OptionTokenPair| o@);
    let mut out: Vec<u8> = Vec::new();
    let n = options.len();
    let mut i: usize = 0;
    proof {
        assert(g.skip(0) =~= g);
        assert(out@ + spec_enc_options(g) =~= spec_enc_options(g));
    }
    while i < n
        invariant
            n == options@.len(),
            i <= n,
            g == options@.map_values(|o: OptionTokenPair| o@),
            forall|j: int| 0 <= j < n ==> (#[trigger] options@[j]).wf(),
            out@ + spec_enc_options(g.skip(i as int)) == spec_enc_options(g),
        decreases n - i,
    {
        proof {
            assert(g.skip(i as int)[0] == g[i as int]);
            assert(g[i as int] == options@[i as int]@);
            assert(g.skip(i as int).drop_first() =~= g.skip(i + 1));
        }
        encode_option_onto(&mut out, &options[i]);
        i = i + 1;
    }
    proof {
        assert(g.skip(n as int) =~= Seq::<OptionTokenPairV>::empty());
        assert(out@ + spec_enc_options(g.skip(n as int)) =~= out@);
    }
    out.push(0xFF);
    assert(out@ =~= spec_enc_options(g) + seq![0xFFu8]);
    out
}

/// The option at `pos` and the position after it.
pub open spec fn sread_option(b: Seq<u8>, pos: int) -> Option<(OptionTokenPairV, int)> {
    if !(0 <= pos && pos + 1 <= b.len()) {
        None
    } else {
        let tag = b[pos];
        let p = pos + 1;
        if tag == 0x00 {
            if p + 6 <= b.len() {
                Some(
                    (
                        OptionTokenPairV::Version(
                            crate::bytesutil::spec_u32_from_le(b[p], b[p + 1], b[p + 2], b[p + 3]),
                            crate::bytesutil::spec_u16_from_le(b[p + 4], b[p + 5]),
                        ),
                        p + 6,
                    ),
                )
            } else {
                None
            }
        } else if tag == 0x01 {
            if p + 1 <= b.len() {
                match EncryptionSetting::spec_from_byte(b[p]) {
                    Some(e) => Some((OptionTokenPairV::Encryption(e), p + 1)),
                    None => None,
                }
            } else {
                None
            }
        } else if tag == 0x02 {
            match crate::tokens::sread_bytes(b, p) {
                Some((name, p2)) => Some((OptionTokenPairV::Instance(name), p2)),
                None => None,
            }
        } else if tag == 0x03 {
            if p + 4 <= b.len() {
                Some(
                    (
                        OptionTokenPairV::ThreadId(
                            crate::bytesutil::spec_u32_from_le(b[p], b[p + 1], b[p + 2], b[p + 3]),
                        ),
                        p + 4,
                    ),
                )
            } else {
                None
            }
        } else if tag == 0x04 {
            if p + 1 <= b.len() {
                Some((OptionTokenPairV::Mars(b[p]), p + 1))
            } else {
                None
            }
        } else {
            None
        }
    }
}

/// The options read from `pos` up to the terminator, which must close the
/// body exactly.
pub open spec fn sread_options_from(b: Seq<u8>, pos: int) -> Option<Seq<OptionTokenPairV>>
    decreases b.len() - pos,
{
    if !(0 <= pos && pos + 1 <= b.len()) {
        None
    } else if b[pos] == 0xFF {
        if pos + 1 == b.len() {
            Some(Seq::empty())
        } else {
            None
        }
    } else {
        match sread_option(b, pos) {
            None => None,
            Some((o, p)) => if pos < p <= b.len() {
                match sread_options_from(b, p) {
                    None => None,
                    Some(rest) => Some(seq![o] + rest),
                }
            } else {
                None
            },
        }
    }
}

/// The pre-login body decoded as its option list.
pub open spec fn spec_dec_prelogin(b: Seq<u8>) -> Option<Seq<OptionTokenPairV>> {
    sread_options_from(b, 0)
}

/// Reads the option at `pos`.
fn read_option_at(b: &Vec<u8>, pos: usize) -> (r: Option<(OptionTokenPair, usize)>)
    requires
        pos <= b@.len(),
    ensures
        match r {
            Some((o, p)) => sread_option(b@, pos as int) == Some((o@, p as int)) && pos < p
                <= b@.len(),
            None => sread_option(b@, pos as int) is None,
        },
{
    let len = b.len();
    if len - pos < 1 {
        return None;
    }
    let tag = b[pos];
    let p = pos + 1;
    if tag == 0x00 {
        if len - p < 6 {
            return None;
        }
        let v = crate::bytesutil::read_u32_le(b, p);
        let sub = crate::bytesutil::read_u16_le(b, p + 4);
        Some((OptionTokenPair::Version(v, sub), p + 6))
    } else if tag == 0x01 {
        if len - p < 1 {
            return None;
        }
        match EncryptionSetting::from_byte(b[p]) {
            Some(e) => Some((OptionTokenPair::Encryption(e), p + 1)),
            None => None,
        }
    } else if tag == 0x02 {
        match crate::tokens::read_bytes_at(b, p) {
            Some((name, p2)) => Some((OptionTokenPair::Instance(name), p2)),
            None => None,
        }
    } else if tag == 0x03 {
        if len - p < 4 {
            return None;
        }
        let t = crate::bytesutil::read_u32_le(b, p);
        Some((OptionTokenPair::ThreadId(t), p + 4))
    } else if tag == 0x04 {
        if len - p < 1 {
            return None;
        }
        Some((OptionTokenPair::Mars(b[p]), p + 1))
    } else {
        None
    }
}

/// Decodes a whole pre-login body into its option list.
///
/// Succeeds exactly when the body is a well-formed option list closed by
/// the terminator.
pub fn decode_prelogin(b: &Vec<u8>) -> (r: TdsResult<Vec<OptionTokenPair>>)
    ensures
        match r {
            Ok(os) => spec_dec_prelogin(b@) == Some(os@.map_values(|o: OptionTokenPair| o@)),
            Err(e) => spec_dec_prelogin(b@) is None && e matches TdsError::Protocol(
                ProtocolErrorKind::BadPrelogin,
            ),
        },
{
    let mut os: Vec<OptionTokenPair> = Vec::new();
    let mut pos: usize = 0;
    let len = b.len();
    loop
        invariant
            len == b@.len(),
            pos <= len,
            match sread_options_from(b@, pos as int) {
                Some(rest) => sread_options_from(b@, 0) == Some(
                    os@.map_values(|o: OptionTokenPair| o@) + rest,
                ),
                None => sread_options_from(b@, 0) is None,
            },
        ensures
            pos < len,
            b@[pos as int] == 0xFF,
            pos + 1 == len,
            sread_options_from(b@, pos as int) == Some(Seq::<OptionTokenPairV>::empty()),
        decreases len - pos,
    {
        if pos >= len {
            return Err(TdsError::Protocol(ProtocolErrorKind::BadPrelogin));
        }
        if b[pos] == 0xFF {
            if pos + 1 == len {
                break;
            }
            return Err(TdsError::Protocol(ProtocolErrorKind::BadPrelogin));
        }
        let ghost old_os = os@.map_values(|o: OptionTokenPair| o@);
        match read_option_at(b, pos) {
            None => {
                return Err(TdsError::Protocol(ProtocolErrorKind::BadPrelogin));
            },
            Some((o, p)) => {
                proof {
                    assert((old_os + seq![o@]).drop_last() =~= old_os);
                }
                os.push(o);
                pos = p;
                proof {
                    assert(os@.map_values(|x: OptionTokenPair| x@) =~= old_os + seq![o@]);
                    match sread_options_from(b@, pos as int) {
                        Some(rest) => {
                            assert(old_os + (seq![o@] + rest) =~= (old_os + seq![o@]) + rest);
                        },
                        None => {},
                    }
                }
            },
        }
    }
    proof {
        assert(os@.map_values(|o: OptionTokenPair| o@) + Seq::<OptionTokenPairV>::empty()
            =~= os@.map_values(|o: OptionTokenPair| o@));
    }
    Ok(os)
}

// ---------------------------------------------------------------------------
// Login message
// ---------------------------------------------------------------------------

/// A password byte in wire form: nibbles swapped, then XORed with 0xA5.
pub open spec fn spec_obfuscate_byte(b: u8) -> u8 {
    (((b % 16) * 16 + b / 16) as u8) ^ 0xA5
}

/// A whole password in wire form.
pub open spec fn spec_obfuscate(b: Seq<u8>) -> Seq<u8> {
    b.map_values(|x: u8| spec_obfuscate_byte(x))
}

/// Obfuscates a password for the wire.
pub fn obfuscate(b: &Vec<u8>) -> (r: Vec<u8>)
    ensures
        r@ == spec_obfuscate(b@),
{
    let n = b.len();
    let mut out: Vec<u8> = Vec::new();
    let mut i: usize = 0;
    while i < n
        invariant
            n == b@.len(),
            i <= n,
            out@ == b@.take(i as int).map_values(|x: u8| spec_obfuscate_byte(x)),
        decreases n - i,
    {
        let x = b[i];
        out.push(((x % 16) * 16 + x / 16) ^ 0xA5);
        i = i + 1;
        assert(out@ =~= b@.take(i as int).map_values(|x: u8| spec_obfuscate_byte(x)));
    }
    assert(b@.take(n as int) =~= b@);
    out
}

/// The wire form of a login message whose client, application and server
/// names are empty: version, requested packet size, the six offset/length
/// pairs, then username, obfuscated password and database.
pub open spec fn spec_login_body(
    version: u32,
    packet_size: u32,
    username: Seq<u8>,
    password: Seq<u8>,
    database: Seq<u8>,
) -> Seq<u8>
    recommends
        32 + username.len() + password.len() + database.len() <= u16::MAX,
{
    spec_u32_le(version) + spec_u32_le(packet_size) + spec_u16_le(32) + spec_u16_le(0)
        + spec_u16_le(32) + spec_u16_le(username.len() as u16) + spec_u16_le(
        (32 + username.len()) as u16,
    ) + spec_u16_le(password.len() as u16) + spec_u16_le(
        (32 + username.len() + password.len()) as u16,
    ) + spec_u16_le(0) + spec_u16_le((32 + username.len() + password.len()) as u16) + spec_u16_le(
        0,
    ) + spec_u16_le((32 + username.len() + password.len()) as u16) + spec_u16_le(
        database.len() as u16,
    ) + username + spec_obfuscate(password) + database
}

/// The credentialed login message: protocol version, requested packet size,
/// and the variable-length fields, each referenced by an offset/length pair
/// in the fixed header region.
#[derive(Clone, Debug)]
pub struct Login7 {
    pub version: u32,
    pub packet_size: u32,
    pub client_name: Vec<u8>,
    pub username: Vec<u8>,
    pub password: Vec<u8>,
    pub app_name: Vec<u8>,
    pub server_name: Vec<u8>,
    pub database: Vec<u8>,
}

impl Login7 {
    /// A fresh login message for the given protocol version, all fields
    /// empty and the packet size unset.
    pub fn new(version: u32) -> (r: Login7)
        ensures
            r.version == version,
            r.packet_size == 0,
            r.client_name@.len() == 0,
            r.username@.len() == 0,
            r.password@.len() == 0,
            r.app_name@.len() == 0,
            r.server_name@.len() == 0,
            r.database@.len() == 0,
    {
        Login7 {
            version,
            packet_size: 0,
            client_name: Vec::new(),
            username: Vec::new(),
            password: Vec::new(),
            app_name: Vec::new(),
            server_name: Vec::new(),
            database: Vec::new(),
        }
    }

    /// Sets the target database.
    pub fn set_db(&mut self, database: Vec<u8>)
        ensures
            *final(self) == (Login7 { database, ..*old(self) }),
    {
        self.database = database;
    }

    /// The total length of the six variable-length fields.
    pub open spec fn spec_data_len(self) -> int {
        self.client_name@.len() + self.username@.len() + self.password@.len()
            + self.app_name@.len() + self.server_name@.len() + self.database@.len() as int
    }

    /// A login message fits the wire form when its fixed header and all its
    /// fields fit 16-bit offsets.
    pub open spec fn wf(self) -> bool {
        32 + self.spec_data_len() <= u16::MAX
    }

    /// The wire form: version, packet size, six offset/length pairs
    /// (offsets from the start of the message), then the field data with
    /// the password obfuscated.
    pub open spec fn spec_encode(self) -> Seq<u8> {
        let o1: int = 32;
        let o2 = o1 + self.client_name@.len();
        let o3 = o2 + self.username@.len();
        let o4 = o3 + self.password@.len();
        let o5 = o4 + self.app_name@.len();
        let o6 = o5 + self.server_name@.len();
        spec_u32_le(self.version) + spec_u32_le(self.packet_size) + spec_u16_le(o1 as u16)
            + spec_u16_le(self.client_name@.len() as u16) + spec_u16_le(o2 as u16) + spec_u16_le(
            self.username@.len() as u16,
        ) + spec_u16_le(o3 as u16) + spec_u16_le(self.password@.len() as u16) + spec_u16_le(
            o4 as u16,
        ) + spec_u16_le(self.app_name@.len() as u16) + spec_u16_le(o5 as u16) + spec_u16_le(
            self.server_name@.len() as u16,
        ) + spec_u16_le(o6 as u16) + spec_u16_le(self.database@.len() as u16) + self.client_name@
            + self.username@ + spec_obfuscate(self.password@) + self.app_name@ + self.server_name@
            + self.database@
    }

    /// Encodes this login message into its wire form.
    pub fn encode(&self) -> (r: Vec<u8>)
        requires
            self.wf(),
        ensures
            r@ == self.spec_encode(),
    {
        let mut out: Vec<u8> = Vec::new();
        push_u32_le(&mut out, self.version);
        push_u32_le(&mut out, self.packet_size);
        let l1 = self.client_name.len() as u16;
        let l2 = self.username.len() as u16;
        let l3 = self.password.len() as u16;
        let l4 = self.app_name.len() as u16;
        let l5 = self.server_name.len() as u16;
        let l6 = self.database.len() as u16;
        let o1: u16 = 32;
        let o2: u16 = o1 + l1;
        let o3: u16 = o2 + l2;
        let o4: u16 = o3 + l3;
        let o5: u16 = o4 + l4;
        let o6: u16 = o5 + l5;
        push_u16_le(&mut out, o1);
        push_u16_le(&mut out, l1);
        push_u16_le(&mut out, o2);
        push_u16_le(&mut out, l2);
        push_u16_le(&mut out, o3);
        push_u16_le(&mut out, l3);
        push_u16_le(&mut out, o4);
        push_u16_le(&mut out, l4);
        push_u16_le(&mut out, o5);
        push_u16_le(&mut out, l5);
        push_u16_le(&mut out, o6);
        push_u16_le(&mut out, l6);
        push_bytes(&mut out, self.client_name.as_slice());
        push_bytes(&mut out, self.username.as_slice());
        let obf = obfuscate(&self.password);
        push_bytes(&mut out, obf.as_slice());
        push_bytes(&mut out, self.app_name.as_slice());
        push_bytes(&mut out, self.server_name.as_slice());
        push_bytes(&mut out, self.database.as_slice());
        assert(out@ =~= self.spec_encode());
        out
    }
}


// ---------------------------------------------------------------------------
// The pre-login codec round trip
// ---------------------------------------------------------------------------

/// An option placed at `pos` reads back as itself.
#[verifier::spinoff_prover]
proof fn lemma_dec_option_at(o: OptionTokenPairV, b: Seq<u8>, pos: int)
    requires
        0 <= pos,
        (match o {
            OptionTokenPairV::Instance(name) => name.len() <= u16::MAX,
            _ => true,
        }),
        pos + spec_enc_option(o).len() <= b.len(),
        b.subrange(pos, pos + spec_enc_option(o).len()) == spec_enc_option(o),
    ensures
        sread_option(b, pos) == Some((o, pos + spec_enc_option(o).len())),
{
    let enc = spec_enc_option(o);
    let whole = b.subrange(pos, pos + enc.len());
    assert(b[pos] == whole[0]);
    let p = pos + 1;
    match o {
        OptionTokenPairV::Version(v, sub) => {
            assert(b.subrange(p, p + 4) =~= crate::bytesutil::spec_u32_le(v)) by {
                assert forall|j: int| 0 <= j < 4 implies b.subrange(p, p + 4)[j]
                    == crate::bytesutil::spec_u32_le(v)[j] by {
                    assert(whole[1 + j] == b[p + j]);
                    assert(enc[1 + j] == crate::bytesutil::spec_u32_le(v)[j]);
                }
            }
            crate::tokens::lemma_dec_u32_at(v, b, p);
            assert(b.subrange(p + 4, p + 6) =~= crate::bytesutil::spec_u16_le(sub)) by {
                assert forall|j: int| 0 <= j < 2 implies b.subrange(p + 4, p + 6)[j]
                    == crate::bytesutil::spec_u16_le(sub)[j] by {
                    assert(whole[5 + j] == b[p + 4 + j]);
                    assert(enc[5 + j] == crate::bytesutil::spec_u16_le(sub)[j]);
                }
            }
            crate::tokens::lemma_dec_u16_at(sub, b, p + 4);
            assert(b[p] == b.subrange(p, p + 4)[0]);
            assert(b[p + 1] == b.subrange(p, p + 4)[1]);
            assert(b[p + 2] == b.subrange(p, p + 4)[2]);
            assert(b[p + 3] == b.subrange(p, p + 4)[3]);
            assert(b[p + 4] == b.subrange(p + 4, p + 6)[0]);
            assert(b[p + 5] == b.subrange(p + 4, p + 6)[1]);
            crate::bytesutil::lemma_u32_le_roundtrip(v);
            crate::bytesutil::lemma_u16_le_roundtrip(sub);
        },
        OptionTokenPairV::Encryption(e) => {
            assert(b[p] == e.spec_to_byte()) by {
                assert(whole[1] == b[p]);
            }
        },
        OptionTokenPairV::Instance(name) => {
            assert(b.subrange(p, p + 2 + name.len()) =~= crate::tokens::spec_enc_bytes(name)) by {
                assert forall|j: int| 0 <= j < 2 + name.len() implies b[p + j]
                    == crate::tokens::spec_enc_bytes(name)[j] by {
                    assert(whole[1 + j] == b[p + j]);
                    assert(enc[1 + j] == crate::tokens::spec_enc_bytes(name)[j]);
                }
            }
            crate::tokens::lemma_dec_bytes_at(name, b, p);
        },
        OptionTokenPairV::ThreadId(t) => {
            assert(b.subrange(p, p + 4) =~= crate::bytesutil::spec_u32_le(t)) by {
                assert forall|j: int| 0 <= j < 4 implies b.subrange(p, p + 4)[j]
                    == crate::bytesutil::spec_u32_le(t)[j] by {
                    assert(whole[1 + j] == b[p + j]);
                    assert(enc[1 + j] == crate::bytesutil::spec_u32_le(t)[j]);
                }
            }
            crate::tokens::lemma_dec_u32_at(t, b, p);
            assert(b[p] == b.subrange(p, p + 4)[0]);
            assert(b[p + 1] == b.subrange(p, p + 4)[1]);
            assert(b[p + 2] == b.subrange(p, p + 4)[2]);
            assert(b[p + 3] == b.subrange(p, p + 4)[3]);
            crate::bytesutil::lemma_u32_le_roundtrip(t);
        },
        OptionTokenPairV::Mars(m) => {
            assert(b[p] == m) by {
                assert(whole[1] == b[p]);
            }
        },
    }
}

/// An option run placed at `pos` and closed by the terminator at the very
/// end of the body reads back as itself.
#[verifier::spinoff_prover]
proof fn lemma_dec_options_from_enc(os: Seq<OptionTokenPairV>, b: Seq<u8>, pos: int)
    requires
        0 <= pos <= b.len(),
        forall|i: int|
            0 <= i < os.len() ==> (match #[trigger] os[i] {
                OptionTokenPairV::Instance(name) => name.len() <= u16::MAX,
                _ => true,
            }),
        b.len() - pos == spec_enc_options(os).len() + 1,
        b.subrange(pos, b.len() as int) == spec_enc_options(os) + seq![0xFFu8],
    ensures
        sread_options_from(b, pos) == Some(os),
    decreases os.len(),
{
    let whole = b.subrange(pos, b.len() as int);
    if os.len() == 0 {
        assert(b[pos] == whole[0]);
        assert(os =~= Seq::<OptionTokenPairV>::empty());
    } else {
        let enc = spec_enc_options(os) + seq![0xFFu8];
        let head = spec_enc_option(os[0]);
        let rest = os.drop_first();
        assert(spec_enc_options(os) == head + spec_enc_options(rest));
        assert(head.len() >= 1);
        assert(b[pos] == whole[0]);
        assert(b[pos] == head[0]);
        assert(head[0] != 0xFF) by {
            match os[0] {
                OptionTokenPairV::Version(..) => {},
                OptionTokenPairV::Encryption(_) => {},
                OptionTokenPairV::Instance(_) => {},
                OptionTokenPairV::ThreadId(_) => {},
                OptionTokenPairV::Mars(_) => {},
            }
        }
        assert(b.subrange(pos, pos + head.len()) =~= head) by {
            assert forall|j: int| 0 <= j < head.len() implies b[pos + j] == head[j] by {
                assert(whole[j] == b[pos + j]);
                assert(enc[j] == head[j]);
            }
        }
        lemma_dec_option_at(os[0], b, pos);
        let p2 = pos + head.len();
        assert(b.subrange(p2, b.len() as int) =~= spec_enc_options(rest) + seq![0xFFu8]) by {
            assert forall|j: int| 0 <= j < spec_enc_options(rest).len() + 1 implies b[p2 + j]
                == (spec_enc_options(rest) + seq![0xFFu8])[j] by {
                assert(whole[head.len() + j] == b[p2 + j]);
                assert(enc[head.len() + j] == (spec_enc_options(rest) + seq![0xFFu8])[j]);
            }
        }
        assert forall|i: int|
            0 <= i < rest.len() implies (match #[trigger] rest[i] {
            OptionTokenPairV::Instance(name) => name.len() <= u16::MAX,
            _ => true,
        }) by {
            assert(rest[i] == os[i + 1]);
        }
        lemma_dec_options_from_enc(rest, b, p2);
        assert(seq![os[0]] + rest =~= os);
    }
}

/// The pre-login codec loses nothing: encoding any well-formed option list
/// and decoding the body gives the list back exactly.
pub proof fn lemma_prelogin_roundtrip(os: Seq<OptionTokenPairV>)
    requires
        forall|i: int|
            0 <= i < os.len() ==> (match #[trigger] os[i] {
                OptionTokenPairV::Instance(name) => name.len() <= u16::MAX,
                _ => true,
            }),
    ensures
        spec_dec_prelogin(spec_enc_prelogin(os)) == Some(os),
{
    let b = spec_enc_prelogin(os);
    assert(b.subrange(0, b.len() as int) =~= b);
    lemma_dec_options_from_enc(os, b, 0);
}

} // verus!
