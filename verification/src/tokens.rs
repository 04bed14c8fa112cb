//! The token-based response format: a response body is an ordered sequence
//! of self-describing tokens (error, completion, row, return value,
//! environment change, column metadata), each a discriminant byte followed
//! by a kind-specific payload.
//!
//! Integers inside token payloads travel little endian; byte strings carry a
//! 16-bit length prefix. Order and multiplicity of tokens are significant: a
//! completion token ends a result segment, and an error token takes
//! precedence over everything else in the same response.

use vstd::prelude::*;

use crate::bytesutil::{
    push_bytes, push_u16_le, push_u32_le, spec_u16_le, spec_u16_from_le, spec_u32_le,
    spec_u32_from_le, spec_i32_as_u32, spec_u32_as_i32, i32_as_u32, u32_as_i32,
};
use crate::errors::{ProtocolErrorKind, TdsError, TdsResult};

verus! {

// ---------------------------------------------------------------------------
// Data carried by tokens
// ---------------------------------------------------------------------------

/// A column descriptor discovered from a column-metadata token: the column's
/// name and its wire type tag.
#[derive(Clone, Debug)]
pub struct ColumnData {
    pub col_name: Vec<u8>,
    pub wire_type: u8,
}

/// The mathematical image of a [`ColumnData`].
pub struct ColumnDataV {
    pub col_name: Seq<u8>,
    pub wire_type: u8,
}

impl View for ColumnData {
    type V = ColumnDataV;

    open spec fn view(&self) -> ColumnDataV {
        ColumnDataV { col_name: self.col_name@, wire_type: self.wire_type }
    }
}

/// A scalar value in wire form: the kinds of values the engine itself
/// understands.
#[derive(Clone, Debug)]
pub enum ColumnType {
    /// A 32-bit signed integer.
    I32(i32),
    /// A byte string.
    VarChar(Vec<u8>),
}

/// The mathematical image of a [`ColumnType`].
pub enum ColumnTypeV {
    I32(i32),
    VarChar(Seq<u8>),
}

impl View for ColumnType {
    type V = ColumnTypeV;

    open spec fn view(&self) -> ColumnTypeV {
        match self {
            ColumnType::I32(x) => ColumnTypeV::I32(*x),
            ColumnType::VarChar(b) => ColumnTypeV::VarChar(b@),
        }
    }
}

impl ColumnTypeV {
    /// A scalar fits the wire form when its byte string fits a 16-bit
    /// length.
    pub open spec fn wf(self) -> bool {
        match self {
            ColumnTypeV::I32(_) => true,
            ColumnTypeV::VarChar(b) => b.len() <= u16::MAX,
        }
    }
}

impl ColumnType {
    /// A value fits the wire form when its byte string fits a 16-bit length.
    pub open spec fn wf(self) -> bool {
        self@.wf()
    }

    /// The textual wire-type name of this value's type, as used in a
    /// parameter-signature string.
    pub fn column_type(&self) -> (r: &'static str)
        ensures
            self is I32 ==> r@ == "int"@,
            self is VarChar ==> r@ == "nvarchar(max)"@,
    {
        match self {
            ColumnType::I32(_) => "int",
            ColumnType::VarChar(_) => "nvarchar(max)",
        }
    }
}

/// A decoded column value: either a present scalar or the null value.
#[derive(Clone, Debug)]
pub enum ColumnValue {
    /// A present value.
    Val(ColumnType),
    /// The null value.
    Null,
}

/// The mathematical image of a [`ColumnValue`].
pub enum ColumnValueV {
    Val(ColumnTypeV),
    Null,
}

impl View for ColumnValue {
    type V = ColumnValueV;

    open spec fn view(&self) -> ColumnValueV {
        match self {
            ColumnValue::Val(t) => ColumnValueV::Val(t@),
            ColumnValue::Null => ColumnValueV::Null,
        }
    }
}

impl ColumnValueV {
    /// A value fits the wire form when its scalar does.
    pub open spec fn wf(self) -> bool {
        match self {
            ColumnValueV::Val(t) => t.wf(),
            ColumnValueV::Null => true,
        }
    }
}

impl ColumnValue {
    /// A value fits the wire form when its scalar does.
    pub open spec fn wf(self) -> bool {
        self@.wf()
    }
}

// ---------------------------------------------------------------------------
// Tokens
// ---------------------------------------------------------------------------

/// Status bit of a completion token saying that its row count is meaningful.
pub const DONE_STATUS_COUNT: u16 = 0x10;

/// Environment-change sub-kind reporting a new packet size.
pub const ENV_PACKET_SIZE: u8 = 0x04;

/// One decoded token of a response stream.
#[derive(Clone, Debug)]
pub enum Token {
    /// A server-reported error with its numeric code and message text.
    Error { code: u32, message: Vec<u8> },
    /// A completion token: status bits and an affected-row count.
    Done { status: u16, row_count: u32 },
    /// One result row: the decoded column values in column order.
    Row { values: Vec<ColumnValue> },
    /// A named return value of a remote-procedure call.
    ReturnValue { name: Vec<u8>, value: ColumnValue },
    /// A server-driven change of a session parameter; old and new values are
    /// carried as byte strings.
    EnvChange { kind: u8, new_value: Vec<u8>, old_value: Vec<u8> },
    /// Column descriptors for the rows that follow.
    ColMetaData { columns: Vec<ColumnData> },
}

/// The mathematical image of a [`Token`].
pub enum TokenV {
    Error { code: u32, message: Seq<u8> },
    Done { status: u16, row_count: u32 },
    Row { values: Seq<ColumnValueV> },
    ReturnValue { name: Seq<u8>, value: ColumnValueV },
    EnvChange { kind: u8, new_value: Seq<u8>, old_value: Seq<u8> },
    ColMetaData { columns: Seq<ColumnDataV> },
}

impl View for Token {
    type V = TokenV;

    open spec fn view(&self) -> TokenV {
        match self {
            Token::Error { code, message } => TokenV::Error { code: *code, message: message@ },
            Token::Done { status, row_count } => TokenV::Done {
                status: *status,
                row_count: *row_count,
            },
            Token::Row { values } => TokenV::Row {
                values: values@.map_values(|v: ColumnValue| v@),
            },
            Token::ReturnValue { name, value } => TokenV::ReturnValue {
                name: name@,
                value: value@,
            },
            Token::EnvChange { kind, new_value, old_value } => TokenV::EnvChange {
                kind: *kind,
                new_value: new_value@,
                old_value: old_value@,
            },
            Token::ColMetaData { columns } => TokenV::ColMetaData {
                columns: columns@.map_values(|c: ColumnData| c@),
            },
        }
    }
}

impl TokenV {
    /// A token fits the wire form when every byte string and every count
    /// in it fits a 16-bit length.
    pub open spec fn wf(self) -> bool {
        match self {
            TokenV::Error { message, .. } => message.len() <= u16::MAX,
            TokenV::Done { .. } => true,
            TokenV::Row { values } => values.len() <= u16::MAX && forall|i: int|
                0 <= i < values.len() ==> (#[trigger] values[i]).wf(),
            TokenV::ReturnValue { name, value } => name.len() <= u16::MAX && value.wf(),
            TokenV::EnvChange { new_value, old_value, .. } => new_value.len() <= u16::MAX
                && old_value.len() <= u16::MAX,
            TokenV::ColMetaData { columns } => columns.len() <= u16::MAX && forall|i: int|
                0 <= i < columns.len() ==> (#[trigger] columns[i]).col_name.len() <= u16::MAX,
        }
    }
}

impl Token {
    /// A token fits the wire form when every byte string and every count in
    /// it fits a 16-bit length.
    pub open spec fn wf(self) -> bool {
        self@.wf()
    }
}

// ---------------------------------------------------------------------------
// Encoding
// ---------------------------------------------------------------------------

/// A byte string in wire form: 16-bit length prefix, then the bytes.
pub open spec fn spec_enc_bytes(b: Seq<u8>) -> Seq<u8>
    recommends
        b.len() <= u16::MAX,
{
    spec_u16_le(b.len() as u16) + b
}

/// A column value in wire form: a tag byte, then the scalar.
pub open spec fn spec_enc_value(v: ColumnValueV) -> Seq<u8> {
    match v {
        ColumnValueV::Null => seq![0x00u8],
        ColumnValueV::Val(ColumnTypeV::I32(x)) => seq![0x01u8] + spec_u32_le(spec_i32_as_u32(x)),
        ColumnValueV::Val(ColumnTypeV::VarChar(b)) => seq![0x02u8] + spec_enc_bytes(b),
    }
}

/// A run of column values in wire form, in order.
pub open spec fn spec_enc_values(vs: Seq<ColumnValueV>) -> Seq<u8>
    decreases vs.len(),
{
    if vs.len() == 0 {
        Seq::empty()
    } else {
        spec_enc_value(vs[0]) + spec_enc_values(vs.drop_first())
    }
}

/// A run of column descriptors in wire form, in order.
pub open spec fn spec_enc_columns(cs: Seq<ColumnDataV>) -> Seq<u8>
    decreases cs.len(),
{
    if cs.len() == 0 {
        Seq::empty()
    } else {
        spec_enc_bytes(cs[0].col_name) + seq![cs[0].wire_type] + spec_enc_columns(cs.drop_first())
    }
}

/// A token in wire form: its discriminant byte, then its payload.
pub open spec fn spec_enc_token(t: TokenV) -> Seq<u8> {
    match t {
        TokenV::Error { code, message } => seq![0xAAu8] + spec_u32_le(code) + spec_enc_bytes(
            message,
        ),
        TokenV::Done { status, row_count } => seq![0xFDu8] + spec_u16_le(status) + spec_u32_le(
            row_count,
        ),
        TokenV::Row { values } => seq![0xD1u8] + spec_u16_le(values.len() as u16)
            + spec_enc_values(values),
        TokenV::ReturnValue { name, value } => seq![0xACu8] + spec_enc_bytes(name)
            + spec_enc_value(value),
        TokenV::EnvChange { kind, new_value, old_value } => seq![0xE3u8, kind] + spec_enc_bytes(
            new_value,
        ) + spec_enc_bytes(old_value),
        TokenV::ColMetaData { columns } => seq![0x81u8] + spec_u16_le(columns.len() as u16)
            + spec_enc_columns(columns),
    }
}

/// A token stream in wire form: the tokens back to back.
pub open spec fn spec_enc_tokens(ts: Seq<TokenV>) -> Seq<u8>
    decreases ts.len(),
{
    if ts.len() == 0 {
        Seq::empty()
    } else {
        spec_enc_token(ts[0]) + spec_enc_tokens(ts.drop_first())
    }
}

/// Appends a length-prefixed byte string to `out`.
fn encode_bytes_onto(out: &mut Vec<u8>, b: &Vec<u8>)
    requires
        b@.len() <= u16::MAX,
    ensures
        final(out)@ == old(out)@ + spec_enc_bytes(b@),
{
    let n: u16 = b.len() as u16;
    push_u16_le(out, n);
    push_bytes(out, b.as_slice());
    assert(out@ =~= old(out)@ + spec_enc_bytes(b@));
}

/// Appends a column value in wire form to `out`.
pub(crate) fn encode_value_onto(out: &mut Vec<u8>, v: &ColumnValue)
    requires
        v.wf(),
    ensures
        final(out)@ == old(out)@ + spec_enc_value(v@),
{
    match v {
        ColumnValue::Null => {
            out.push(0x00);
            assert(out@ =~= old(out)@ + spec_enc_value(v@));
        },
        ColumnValue::Val(ColumnType::I32(x)) => {
            out.push(0x01);
            push_u32_le(out, i32_as_u32(*x));
            assert(out@ =~= old(out)@ + spec_enc_value(v@));
        },
        ColumnValue::Val(ColumnType::VarChar(b)) => {
            out.push(0x02);
            encode_bytes_onto(out, b);
            assert(out@ =~= old(out)@ + spec_enc_value(v@));
        },
    }
}

/// Appends a token in wire form to `out`.
pub fn encode_token_onto(out: &mut Vec<u8>, t: &Token)
    requires
        t.wf(),
    ensures
        final(out)@ == old(out)@ + spec_enc_token(t@),
{
    match t {
        Token::Error { code, message } => {
            out.push(0xAA);
            push_u32_le(out, *code);
            encode_bytes_onto(out, message);
            assert(out@ =~= old(out)@ + spec_enc_token(t@));
        },
        Token::Done { status, row_count } => {
            out.push(0xFD);
            push_u16_le(out, *status);
            push_u32_le(out, *row_count);
            assert(out@ =~= old(out)@ + spec_enc_token(t@));
        },
        Token::Row { values } => {
            out.push(0xD1);
            push_u16_le(out, values.len() as u16);
            let ghost g_vals = values@.map_values(|v: ColumnValue| v@);
            let n = values.len();
            let mut i: usize = 0;
            proof {
                assert(g_vals.skip(0) =~= g_vals);
                assert(out@ + spec_enc_values(g_vals) =~= out@ + spec_enc_values(
                    g_vals.skip(0),
                ));
            }
            while i < n
                invariant
                    n == values@.len() <= u16::MAX,
                    i <= n,
                    g_vals == values@.map_values(|v: ColumnValue| v@),
                    forall|j: int| 0 <= j < n ==> (#[trigger] g_vals[j]).wf(),
                    out@ + spec_enc_values(g_vals.skip(i as int)) == old(out)@ + spec_enc_token(
                        t@,
                    ),
                decreases n - i,
            {
                proof {
                    assert(g_vals.skip(i as int)[0] == g_vals[i as int]);
                    assert(g_vals[i as int] == values@[i as int]@);
                    assert(g_vals.skip(i as int).drop_first() =~= g_vals.skip(i + 1));
                }
                encode_value_onto(out, &values[i]);
                i = i + 1;
            }
            proof {
                assert(g_vals.skip(n as int) =~= Seq::<ColumnValueV>::empty());
                assert(out@ + spec_enc_values(g_vals.skip(n as int)) =~= out@);
            }
        },
        Token::ReturnValue { name, value } => {
            out.push(0xAC);
            encode_bytes_onto(out, name);
            encode_value_onto(out, value);
            assert(out@ =~= old(out)@ + spec_enc_token(t@));
        },
        Token::EnvChange { kind, new_value, old_value } => {
            out.push(0xE3);
            out.push(*kind);
            encode_bytes_onto(out, new_value);
            encode_bytes_onto(out, old_value);
            assert(out@ =~= old(out)@ + spec_enc_token(t@));
        },
        Token::ColMetaData { columns } => {
            out.push(0x81);
            push_u16_le(out, columns.len() as u16);
            let ghost g_cols = columns@.map_values(|c: ColumnData| c@);
            let n = columns.len();
            let mut i: usize = 0;
            proof {
                assert(g_cols.skip(0) =~= g_cols);
                assert(out@ + spec_enc_columns(g_cols) =~= out@ + spec_enc_columns(
                    g_cols.skip(0),
                ));
            }
            while i < n
                invariant
                    n == columns@.len() <= u16::MAX,
                    i <= n,
                    g_cols == columns@.map_values(|c: ColumnData| c@),
                    forall|j: int|
                        0 <= j < n ==> (#[trigger] g_cols[j]).col_name.len() <= u16::MAX,
                    out@ + spec_enc_columns(g_cols.skip(i as int)) == old(out)@ + spec_enc_token(
                        t@,
                    ),
                decreases n - i,
            {
                proof {
                    assert(g_cols.skip(i as int)[0] == g_cols[i as int]);
                    assert(g_cols[i as int] == columns@[i as int]@);
                    assert(g_cols.skip(i as int).drop_first() =~= g_cols.skip(i + 1));
                }
                encode_bytes_onto(out, &columns[i].col_name);
                out.push(columns[i].wire_type);
                proof {
                    assert(out@ + spec_enc_columns(g_cols.skip(i + 1)) =~= old(out)@
                        + spec_enc_token(t@));
                }
                i = i + 1;
            }
            proof {
                assert(g_cols.skip(n as int) =~= Seq::<ColumnDataV>::empty());
                assert(out@ + spec_enc_columns(g_cols.skip(n as int)) =~= out@);
            }
        },
    }
}

/// Encodes a whole token stream into one body.
pub fn encode_tokens(tokens: &Vec<Token>) -> (r: Vec<u8>)
    requires
        forall|i: int| 0 <= i < tokens@.len() ==> (#[trigger] tokens@[i]).wf(),
    ensures
        r@ == spec_enc_tokens(tokens@.map_values(|t: Token| t@)),
{
    let ghost g_toks = tokens@.map_values(|t: Token| t@);
    let mut out: Vec<u8> = Vec::new();
    let n = tokens.len();
    let mut i: usize = 0;
    proof {
        assert(g_toks.skip(0) =~= g_toks);
        assert(out@ + spec_enc_tokens(g_toks) =~= spec_enc_tokens(g_toks));
    }
    while i < n
        invariant
            n == tokens@.len(),
            i <= n,
            g_toks == tokens@.map_values(|t: Token| t@),
            forall|j: int| 0 <= j < n ==> (#[trigger] tokens@[j]).wf(),
            out@ + spec_enc_tokens(g_toks.skip(i as int)) == spec_enc_tokens(g_toks),
        decreases n - i,
    {
        proof {
            assert(g_toks.skip(i as int)[0] == g_toks[i as int]);
            assert(g_toks[i as int] == tokens@[i as int]@);
            assert(g_toks.skip(i as int).drop_first() =~= g_toks.skip(i + 1));
        }
        encode_token_onto(&mut out, &tokens[i]);
        i = i + 1;
    }
    proof {
        assert(g_toks.skip(n as int) =~= Seq::<TokenV>::empty());
        assert(out@ + spec_enc_tokens(g_toks.skip(n as int)) =~= out@);
    }
    out
}


// ---------------------------------------------------------------------------
// Decoding
// ---------------------------------------------------------------------------

/// The byte at `pos` and the position after it, or nothing past the end.
pub open spec fn sread_u8(b: Seq<u8>, pos: int) -> Option<(u8, int)> {
    if 0 <= pos && pos + 1 <= b.len() {
        Some((b[pos], pos + 1))
    } else {
        None
    }
}

/// The little-endian 16-bit value at `pos` and the position after it.
pub open spec fn sread_u16(b: Seq<u8>, pos: int) -> Option<(u16, int)> {
    if 0 <= pos && pos + 2 <= b.len() {
        Some((spec_u16_from_le(b[pos], b[pos + 1]), pos + 2))
    } else {
        None
    }
}

/// The little-endian 32-bit value at `pos` and the position after it.
pub open spec fn sread_u32(b: Seq<u8>, pos: int) -> Option<(u32, int)> {
    if 0 <= pos && pos + 4 <= b.len() {
        Some((spec_u32_from_le(b[pos], b[pos + 1], b[pos + 2], b[pos + 3]), pos + 4))
    } else {
        None
    }
}

/// The length-prefixed byte string at `pos` and the position after it.
pub open spec fn sread_bytes(b: Seq<u8>, pos: int) -> Option<(Seq<u8>, int)> {
    match sread_u16(b, pos) {
        None => None,
        Some((n, p)) => if p + n <= b.len() {
            Some((b.subrange(p, p + n), p + n))
        } else {
            None
        },
    }
}

/// The column value at `pos` and the position after it.
pub open spec fn sread_value(b: Seq<u8>, pos: int) -> Option<(ColumnValueV, int)> {
    match sread_u8(b, pos) {
        None => None,
        Some((tag, p)) => if tag == 0x00 {
            Some((ColumnValueV::Null, p))
        } else if tag == 0x01 {
            match sread_u32(b, p) {
                None => None,
                Some((x, p2)) => Some((ColumnValueV::Val(ColumnTypeV::I32(spec_u32_as_i32(x))), p2)),
            }
        } else if tag == 0x02 {
            match sread_bytes(b, p) {
                None => None,
                Some((bs, p2)) => Some((ColumnValueV::Val(ColumnTypeV::VarChar(bs)), p2)),
            }
        } else {
            None
        },
    }
}

/// `count` column values starting at `pos`, and the position after them.
pub open spec fn sread_values(b: Seq<u8>, pos: int, count: int) -> Option<(Seq<ColumnValueV>, int)>
    decreases count,
{
    if count <= 0 {
        Some((Seq::empty(), pos))
    } else {
        match sread_value(b, pos) {
            None => None,
            Some((v, p)) => match sread_values(b, p, count - 1) {
                None => None,
                Some((vs, p2)) => Some((seq![v] + vs, p2)),
            },
        }
    }
}

/// `count` column descriptors starting at `pos`, and the position after
/// them.
pub open spec fn sread_columns(b: Seq<u8>, pos: int, count: int) -> Option<(Seq<ColumnDataV>, int)>
    decreases count,
{
    if count <= 0 {
        Some((Seq::empty(), pos))
    } else {
        match sread_bytes(b, pos) {
            None => None,
            Some((name, p)) => match sread_u8(b, p) {
                None => None,
                Some((ty, p2)) => match sread_columns(b, p2, count - 1) {
                    None => None,
                    Some((cs, p3)) => Some(
                        (seq![ColumnDataV { col_name: name, wire_type: ty }] + cs, p3),
                    ),
                },
            },
        }
    }
}

/// The token at `pos` and the position after it, or nothing when the
/// discriminant is unknown or a field runs past the end.
pub open spec fn sread_token(b: Seq<u8>, pos: int) -> Option<(TokenV, int)> {
    match sread_u8(b, pos) {
        None => None,
        Some((disc, p)) => if disc == 0xAA {
            match sread_u32(b, p) {
                None => None,
                Some((code, p2)) => match sread_bytes(b, p2) {
                    None => None,
                    Some((message, p3)) => Some((TokenV::Error { code, message }, p3)),
                },
            }
        } else if disc == 0xFD {
            match sread_u16(b, p) {
                None => None,
                Some((status, p2)) => match sread_u32(b, p2) {
                    None => None,
                    Some((row_count, p3)) => Some((TokenV::Done { status, row_count }, p3)),
                },
            }
        } else if disc == 0xD1 {
            match sread_u16(b, p) {
                None => None,
                Some((count, p2)) => match sread_values(b, p2, count as int) {
                    None => None,
                    Some((values, p3)) => Some((TokenV::Row { values }, p3)),
                },
            }
        } else if disc == 0xAC {
            match sread_bytes(b, p) {
                None => None,
                Some((name, p2)) => match sread_value(b, p2) {
                    None => None,
                    Some((value, p3)) => Some((TokenV::ReturnValue { name, value }, p3)),
                },
            }
        } else if disc == 0xE3 {
            match sread_u8(b, p) {
                None => None,
                Some((kind, p2)) => match sread_bytes(b, p2) {
                    None => None,
                    Some((new_value, p3)) => match sread_bytes(b, p3) {
                        None => None,
                        Some((old_value, p4)) => Some(
                            (TokenV::EnvChange { kind, new_value, old_value }, p4),
                        ),
                    },
                },
            }
        } else if disc == 0x81 {
            match sread_u16(b, p) {
                None => None,
                Some((count, p2)) => match sread_columns(b, p2, count as int) {
                    None => None,
                    Some((columns, p3)) => Some((TokenV::ColMetaData { columns }, p3)),
                },
            }
        } else {
            None
        },
    }
}

/// The token stream read from `pos` to the end of the body, or nothing if
/// any token fails to decode.
pub open spec fn sread_tokens_from(b: Seq<u8>, pos: int) -> Option<Seq<TokenV>>
    decreases b.len() - pos,
{
    if pos >= b.len() {
        Some(Seq::empty())
    } else {
        match sread_token(b, pos) {
            None => None,
            Some((t, p)) => if pos < p <= b.len() {
                match sread_tokens_from(b, p) {
                    None => None,
                    Some(rest) => Some(seq![t] + rest),
                }
            } else {
                None
            },
        }
    }
}

/// The token stream carried by a whole body.
pub open spec fn spec_dec_tokens(b: Seq<u8>) -> Option<Seq<TokenV>> {
    sread_tokens_from(b, 0)
}

/// Reads the length-prefixed byte string at `pos`.
pub(crate) fn read_bytes_at(b: &Vec<u8>, pos: usize) -> (r: Option<(Vec<u8>, usize)>)
    requires
        pos <= b@.len(),
    ensures
        match r {
            Some((v, p)) => sread_bytes(b@, pos as int) == Some((v@, p as int)) && pos <= p
                <= b@.len(),
            None => sread_bytes(b@, pos as int) is None,
        },
{
    let len = b.len();
    if len - pos < 2 {
        return None;
    }
    let n = crate::bytesutil::read_u16_le(b, pos) as usize;
    let p = pos + 2;
    if len - p < n {
        return None;
    }
    let v = crate::bytesutil::copy_range(b, p, n);
    Some((v, p + n))
}

/// Reads the column value at `pos`.
fn read_value_at(b: &Vec<u8>, pos: usize) -> (r: Option<(ColumnValue, usize)>)
    requires
        pos <= b@.len(),
    ensures
        match r {
            Some((v, p)) => sread_value(b@, pos as int) == Some((v@, p as int)) && pos <= p
                <= b@.len(),
            None => sread_value(b@, pos as int) is None,
        },
{
    let len = b.len();
    if len - pos < 1 {
        return None;
    }
    let tag = b[pos];
    let p = pos + 1;
    if tag == 0x00 {
        Some((ColumnValue::Null, p))
    } else if tag == 0x01 {
        if len - p < 4 {
            return None;
        }
        let x = crate::bytesutil::read_u32_le(b, p);
        Some((ColumnValue::Val(ColumnType::I32(u32_as_i32(x))), p + 4))
    } else if tag == 0x02 {
        match read_bytes_at(b, p) {
            None => None,
            Some((bs, p2)) => Some((ColumnValue::Val(ColumnType::VarChar(bs)), p2)),
        }
    } else {
        None
    }
}

/// Reads the token at `pos`.
fn read_token_at(b: &Vec<u8>, pos: usize) -> (r: Option<(Token, usize)>)
    requires
        pos <= b@.len(),
    ensures
        match r {
            Some((t, p)) => sread_token(b@, pos as int) == Some((t@, p as int)) && pos < p
                <= b@.len(),
            None => sread_token(b@, pos as int) is None,
        },
{
    let len = b.len();
    if len - pos < 1 {
        return None;
    }
    let disc = b[pos];
    let p = pos + 1;
    if disc == 0xAA {
        if len - p < 4 {
            return None;
        }
        let code = crate::bytesutil::read_u32_le(b, p);
        match read_bytes_at(b, p + 4) {
            None => None,
            Some((message, p3)) => Some((Token::Error { code, message }, p3)),
        }
    } else if disc == 0xFD {
        if len - p < 2 {
            return None;
        }
        let status = crate::bytesutil::read_u16_le(b, p);
        if len - (p + 2) < 4 {
            return None;
        }
        let row_count = crate::bytesutil::read_u32_le(b, p + 2);
        Some((Token::Done { status, row_count }, p + 6))
    } else if disc == 0xD1 {
        if len - p < 2 {
            return None;
        }
        let count = crate::bytesutil::read_u16_le(b, p);
        match read_values_at(b, p + 2, count) {
            None => None,
            Some((values, p3)) => Some((Token::Row { values }, p3)),
        }
    } else if disc == 0xAC {
        match read_bytes_at(b, p) {
            None => None,
            Some((name, p2)) => match read_value_at(b, p2) {
                None => None,
                Some((value, p3)) => Some((Token::ReturnValue { name, value }, p3)),
            },
        }
    } else if disc == 0xE3 {
        if len - p < 1 {
            return None;
        }
        let kind = b[p];
        match read_bytes_at(b, p + 1) {
            None => None,
            Some((new_value, p3)) => match read_bytes_at(b, p3) {
                None => None,
                Some((old_value, p4)) => Some(
                    (Token::EnvChange { kind, new_value, old_value }, p4),
                ),
            },
        }
    } else if disc == 0x81 {
        if len - p < 2 {
            return None;
        }
        let count = crate::bytesutil::read_u16_le(b, p);
        match read_columns_at(b, p + 2, count) {
            None => None,
            Some((columns, p3)) => Some((Token::ColMetaData { columns }, p3)),
        }
    } else {
        None
    }
}

/// Reads `count` column values starting at `pos`.
fn read_values_at(b: &Vec<u8>, pos: usize, count: u16) -> (r: Option<(Vec<ColumnValue>, usize)>)
    requires
        pos <= b@.len(),
    ensures
        match r {
            Some((vs, p)) => sread_values(b@, pos as int, count as int) == Some(
                (vs@.map_values(|v: ColumnValue| v@), p as int),
            ) && pos <= p <= b@.len(),
            None => sread_values(b@, pos as int, count as int) is None,
        },
{
    let mut vs: Vec<ColumnValue> = Vec::new();
    let mut p = pos;
    let mut left = count;
    loop
        invariant
            pos <= p <= b@.len(),
            left <= count,
            match sread_values(b@, p as int, left as int) {
                Some((rest, end)) => sread_values(b@, pos as int, count as int) == Some(
                    (vs@.map_values(|v: ColumnValue| v@) + rest, end),
                ),
                None => sread_values(b@, pos as int, count as int) is None,
            },
        ensures
            left == 0,
            sread_values(b@, p as int, 0) == Some((Seq::<ColumnValueV>::empty(), p as int)),
        decreases left,
    {
        if left == 0 {
            break;
        }
        let ghost old_vs = vs@.map_values(|v: ColumnValue| v@);
        match read_value_at(b, p) {
            None => {
                return None;
            },
            Some((v, p2)) => {
                proof {
                    assert((old_vs + seq![v@]).drop_last() =~= old_vs);
                }
                vs.push(v);
                p = p2;
                left = left - 1;
                proof {
                    assert(vs@.map_values(|x: ColumnValue| x@) =~= old_vs + seq![v@]);
                    match sread_values(b@, p as int, left as int) {
                        Some((rest, end)) => {
                            assert(old_vs + (seq![v@] + rest) =~= (old_vs + seq![v@]) + rest);
                        },
                        None => {},
                    }
                }
            },
        }
    }
    proof {
        assert(vs@.map_values(|v: ColumnValue| v@) + Seq::<ColumnValueV>::empty() =~= vs@.map_values(
            |v: ColumnValue| v@,
        ));
    }
    Some((vs, p))
}

/// Reads `count` column descriptors starting at `pos`.
fn read_columns_at(b: &Vec<u8>, pos: usize, count: u16) -> (r: Option<(Vec<ColumnData>, usize)>)
    requires
        pos <= b@.len(),
    ensures
        match r {
            Some((cs, p)) => sread_columns(b@, pos as int, count as int) == Some(
                (cs@.map_values(|c: ColumnData| c@), p as int),
            ) && pos <= p <= b@.len(),
            None => sread_columns(b@, pos as int, count as int) is None,
        },
{
    let mut cs: Vec<ColumnData> = Vec::new();
    let mut p = pos;
    let mut left = count;
    loop
        invariant
            pos <= p <= b@.len(),
            left <= count,
            match sread_columns(b@, p as int, left as int) {
                Some((rest, end)) => sread_columns(b@, pos as int, count as int) == Some(
                    (cs@.map_values(|c: ColumnData| c@) + rest, end),
                ),
                None => sread_columns(b@, pos as int, count as int) is None,
            },
        ensures
            left == 0,
            sread_columns(b@, p as int, 0) == Some((Seq::<ColumnDataV>::empty(), p as int)),
        decreases left,
    {
        if left == 0 {
            break;
        }
        let ghost old_cs = cs@.map_values(|c: ColumnData| c@);
        match read_bytes_at(b, p) {
            None => {
                return None;
            },
            Some((name, p2)) => {
                if b.len() - p2 < 1 {
                    return None;
                }
                let ty = b[p2];
                let col = ColumnData { col_name: name, wire_type: ty };
                proof {
                    assert((old_cs + seq![col@]).drop_last() =~= old_cs);
                }
                cs.push(col);
                p = p2 + 1;
                left = left - 1;
                proof {
                    assert(cs@.map_values(|x: ColumnData| x@) =~= old_cs + seq![
                        ColumnDataV { col_name: name@, wire_type: ty },
                    ]);
                    match sread_columns(b@, p as int, left as int) {
                        Some((rest, end)) => {
                            assert(old_cs + (seq![ColumnDataV { col_name: name@, wire_type: ty }]
                                + rest) =~= (old_cs + seq![
                                ColumnDataV { col_name: name@, wire_type: ty },
                            ]) + rest);
                        },
                        None => {},
                    }
                }
            },
        }
    }
    proof {
        assert(cs@.map_values(|c: ColumnData| c@) + Seq::<ColumnDataV>::empty() =~= cs@.map_values(
            |c: ColumnData| c@,
        ));
    }
    Some((cs, p))
}

/// Decodes a whole body into its token stream.
///
/// Succeeds exactly when the body is a well-formed token stream; a malformed
/// body is a protocol error, never a partial result.
pub fn decode_tokens(b: &Vec<u8>) -> (r: TdsResult<Vec<Token>>)
    ensures
        match r {
            Ok(ts) => spec_dec_tokens(b@) == Some(ts@.map_values(|t: Token| t@)),
            Err(e) => spec_dec_tokens(b@) is None && e matches TdsError::Protocol(
                ProtocolErrorKind::BadTokenStream,
            ),
        },
{
    let mut ts: Vec<Token> = Vec::new();
    let mut pos: usize = 0;
    let len = b.len();
    while pos < len
        invariant
            len == b@.len(),
            pos <= len,
            match sread_tokens_from(b@, pos as int) {
                Some(rest) => sread_tokens_from(b@, 0) == Some(
                    (ts@.map_values(|t: Token| t@) + rest),
                ),
                None => sread_tokens_from(b@, 0) is None,
            },
        decreases len - pos,
    {
        let ghost old_ts = ts@.map_values(|t: Token| t@);
        match read_token_at(b, pos) {
            None => {
                return Err(TdsError::Protocol(ProtocolErrorKind::BadTokenStream));
            },
            Some((t, p)) => {
                proof {
                    assert((old_ts + seq![t@]).drop_last() =~= old_ts);
                }
                ts.push(t);
                pos = p;
                proof {
                    assert(ts@.map_values(|x: Token| x@) =~= old_ts + seq![t@]);
                    match sread_tokens_from(b@, pos as int) {
                        Some(rest) => {
                            assert(old_ts + (seq![t@] + rest) =~= (old_ts + seq![t@]) + rest);
                        },
                        None => {},
                    }
                }
            },
        }
    }
    proof {
        assert(sread_tokens_from(b@, pos as int) == Some(Seq::<TokenV>::empty()));
        assert(ts@.map_values(|t: Token| t@) + Seq::<TokenV>::empty() =~= ts@.map_values(
            |t: Token| t@,
        ));
    }
    Ok(ts)
}


// ---------------------------------------------------------------------------
// Scans over a decoded token stream
// ---------------------------------------------------------------------------

/// The code and message of the first error token, if any: the error that
/// takes precedence over everything else in the response.
pub open spec fn spec_first_error(ts: Seq<TokenV>) -> Option<(u32, Seq<u8>)>
    decreases ts.len(),
{
    if ts.len() == 0 {
        None
    } else {
        match ts[0] {
            TokenV::Error { code, message } => Some((code, message)),
            _ => spec_first_error(ts.drop_first()),
        }
    }
}

/// Returns the first error token's code and message, if any.
pub fn first_error(tokens: &Vec<Token>) -> (r: Option<(u32, Vec<u8>)>)
    ensures
        match r {
            Some((code, message)) => spec_first_error(tokens@.map_values(|t: Token| t@)) == Some(
                (code, message@),
            ),
            None => spec_first_error(tokens@.map_values(|t: Token| t@)) is None,
        },
{
    let ghost g = tokens@.map_values(|t: Token| t@);
    let n = tokens.len();
    let mut i: usize = 0;
    proof {
        assert(g.skip(0) =~= g);
    }
    while i < n
        invariant
            n == tokens@.len(),
            i <= n,
            g == tokens@.map_values(|t: Token| t@),
            spec_first_error(g) == spec_first_error(g.skip(i as int)),
        decreases n - i,
    {
        proof {
            assert(g.skip(i as int)[0] == g[i as int]);
            assert(g.skip(i as int).drop_first() =~= g.skip(i + 1));
        }
        match &tokens[i] {
            Token::Error { code, message } => {
                return Some((*code, message.clone()));
            },
            _ => {},
        }
        i = i + 1;
    }
    proof {
        assert(g.skip(n as int) =~= Seq::<TokenV>::empty());
    }
    None
}

/// Turns a response's tokens into the error they carry, if any: the first
/// error token becomes a server error; a response without one passes.
pub fn catch_error(tokens: &Vec<Token>) -> (r: TdsResult<()>)
    ensures
        match r {
            Ok(()) => spec_first_error(tokens@.map_values(|t: Token| t@)) is None,
            Err(e) => {
                &&& e matches TdsError::Server { code, message } && spec_first_error(
                    tokens@.map_values(|t: Token| t@),
                ) == Some((code, message@))
            },
        },
{
    match first_error(tokens) {
        Some((code, message)) => Err(TdsError::Server { code, message }),
        None => Ok(()),
    }
}

/// The raw new-value bytes of the first environment-change token reporting
/// a packet size, if any.
pub open spec fn spec_first_packet_size_env(ts: Seq<TokenV>) -> Option<Seq<u8>>
    decreases ts.len(),
{
    if ts.len() == 0 {
        None
    } else {
        match ts[0] {
            TokenV::EnvChange { kind, new_value, .. } => if kind == ENV_PACKET_SIZE {
                Some(new_value)
            } else {
                spec_first_packet_size_env(ts.drop_first())
            },
            _ => spec_first_packet_size_env(ts.drop_first()),
        }
    }
}

/// Returns the new-value bytes of the first packet-size environment change.
pub fn first_packet_size_env(tokens: &Vec<Token>) -> (r: Option<Vec<u8>>)
    ensures
        match r {
            Some(v) => spec_first_packet_size_env(tokens@.map_values(|t: Token| t@)) == Some(v@),
            None => spec_first_packet_size_env(tokens@.map_values(|t: Token| t@)) is None,
        },
{
    let ghost g = tokens@.map_values(|t: Token| t@);
    let n = tokens.len();
    let mut i: usize = 0;
    proof {
        assert(g.skip(0) =~= g);
    }
    while i < n
        invariant
            n == tokens@.len(),
            i <= n,
            g == tokens@.map_values(|t: Token| t@),
            spec_first_packet_size_env(g) == spec_first_packet_size_env(g.skip(i as int)),
        decreases n - i,
    {
        proof {
            assert(g.skip(i as int)[0] == g[i as int]);
            assert(g.skip(i as int).drop_first() =~= g.skip(i + 1));
        }
        match &tokens[i] {
            Token::EnvChange { kind, new_value, .. } => {
                if *kind == ENV_PACKET_SIZE {
                    return Some(new_value.clone());
                }
            },
            _ => {},
        }
        i = i + 1;
    }
    proof {
        assert(g.skip(n as int) =~= Seq::<TokenV>::empty());
    }
    None
}

/// The value of the first return-value token carrying the given name, if
/// any.
pub open spec fn spec_first_return_value(ts: Seq<TokenV>, name: Seq<u8>) -> Option<ColumnValueV>
    decreases ts.len(),
{
    if ts.len() == 0 {
        None
    } else {
        match ts[0] {
            TokenV::ReturnValue { name: n, value } => if n == name {
                Some(value)
            } else {
                spec_first_return_value(ts.drop_first(), name)
            },
            _ => spec_first_return_value(ts.drop_first(), name),
        }
    }
}

/// Returns the value of the first return-value token named `name`.
pub fn first_return_value(tokens: &Vec<Token>, name: &Vec<u8>) -> (r: Option<ColumnValue>)
    ensures
        match r {
            Some(v) => spec_first_return_value(tokens@.map_values(|t: Token| t@), name@) == Some(
                v@,
            ),
            None => spec_first_return_value(tokens@.map_values(|t: Token| t@), name@) is None,
        },
{
    let ghost g = tokens@.map_values(|t: Token| t@);
    let n = tokens.len();
    let mut i: usize = 0;
    proof {
        assert(g.skip(0) =~= g);
    }
    while i < n
        invariant
            n == tokens@.len(),
            i <= n,
            g == tokens@.map_values(|t: Token| t@),
            spec_first_return_value(g, name@) == spec_first_return_value(g.skip(i as int), name@),
        decreases n - i,
    {
        proof {
            assert(g.skip(i as int)[0] == g[i as int]);
            assert(g.skip(i as int).drop_first() =~= g.skip(i + 1));
        }
        match &tokens[i] {
            Token::ReturnValue { name: tok_name, value } => {
                if crate::bytesutil::bytes_eq(tok_name.as_slice(), name.as_slice()) {
                    return Some(value.clone_value());
                }
            },
            _ => {},
        }
        i = i + 1;
    }
    proof {
        assert(g.skip(n as int) =~= Seq::<TokenV>::empty());
    }
    None
}

/// The values of the row tokens, in response order, everything else
/// skipped.
pub open spec fn spec_row_values(ts: Seq<TokenV>) -> Seq<Seq<ColumnValueV>>
    decreases ts.len(),
{
    if ts.len() == 0 {
        Seq::empty()
    } else {
        let rest = spec_row_values(ts.drop_first());
        match ts[0] {
            TokenV::Row { values } => seq![values] + rest,
            _ => rest,
        }
    }
}

/// The column descriptors announced by the column-metadata tokens, in
/// response order, concatenated.
pub open spec fn spec_announced_columns(ts: Seq<TokenV>) -> Seq<ColumnDataV>
    decreases ts.len(),
{
    if ts.len() == 0 {
        Seq::empty()
    } else {
        let rest = spec_announced_columns(ts.drop_first());
        match ts[0] {
            TokenV::ColMetaData { columns } => columns + rest,
            _ => rest,
        }
    }
}

impl ColumnValue {
    /// An explicit deep copy of the value.
    pub fn clone_value(&self) -> (r: ColumnValue)
        ensures
            r@ == self@,
    {
        match self {
            ColumnValue::Null => ColumnValue::Null,
            ColumnValue::Val(ColumnType::I32(x)) => ColumnValue::Val(ColumnType::I32(*x)),
            ColumnValue::Val(ColumnType::VarChar(b)) => ColumnValue::Val(
                ColumnType::VarChar(b.clone()),
            ),
        }
    }
}


// ---------------------------------------------------------------------------
// The codec round trip
// ---------------------------------------------------------------------------

/// A 16-bit encoding placed at `pos` reads back as the encoded value.
pub(crate) proof fn lemma_dec_u16_at(x: u16, b: Seq<u8>, pos: int)
    requires
        0 <= pos,
        pos + 2 <= b.len(),
        b.subrange(pos, pos + 2) == spec_u16_le(x),
    ensures
        sread_u16(b, pos) == Some((x, pos + 2)),
{
    assert(b[pos] == b.subrange(pos, pos + 2)[0]);
    assert(b[pos + 1] == b.subrange(pos, pos + 2)[1]);
    crate::bytesutil::lemma_u16_le_roundtrip(x);
}

/// A 32-bit encoding placed at `pos` reads back as the encoded value.
pub(crate) proof fn lemma_dec_u32_at(x: u32, b: Seq<u8>, pos: int)
    requires
        0 <= pos,
        pos + 4 <= b.len(),
        b.subrange(pos, pos + 4) == spec_u32_le(x),
    ensures
        sread_u32(b, pos) == Some((x, pos + 4)),
{
    assert(b[pos] == b.subrange(pos, pos + 4)[0]);
    assert(b[pos + 1] == b.subrange(pos, pos + 4)[1]);
    assert(b[pos + 2] == b.subrange(pos, pos + 4)[2]);
    assert(b[pos + 3] == b.subrange(pos, pos + 4)[3]);
    crate::bytesutil::lemma_u32_le_roundtrip(x);
}

/// A length-prefixed byte string placed at `pos` reads back as itself.
pub(crate) proof fn lemma_dec_bytes_at(sb: Seq<u8>, b: Seq<u8>, pos: int)
    requires
        0 <= pos,
        sb.len() <= u16::MAX,
        pos + 2 + sb.len() <= b.len(),
        b.subrange(pos, pos + 2 + sb.len()) == spec_enc_bytes(sb),
    ensures
        sread_bytes(b, pos) == Some((sb, pos + 2 + sb.len())),
{
    let lenv = sb.len() as u16;
    let whole = b.subrange(pos, pos + 2 + sb.len());
    assert(b.subrange(pos, pos + 2) =~= spec_u16_le(lenv)) by {
        assert(whole[0] == b[pos]);
        assert(whole[1] == b[pos + 1]);
    }
    lemma_dec_u16_at(lenv, b, pos);
    assert(b.subrange(pos + 2, pos + 2 + sb.len()) =~= sb) by {
        assert forall|j: int| 0 <= j < sb.len() implies b[pos + 2 + j] == sb[j] by {
            assert(whole[2 + j] == b[pos + 2 + j]);
            assert(spec_enc_bytes(sb)[2 + j] == sb[j]);
        }
    }
}

/// A column value placed at `pos` reads back as itself.
proof fn lemma_dec_value_at(v: ColumnValueV, b: Seq<u8>, pos: int)
    requires
        0 <= pos,
        v.wf(),
        pos + spec_enc_value(v).len() <= b.len(),
        b.subrange(pos, pos + spec_enc_value(v).len()) == spec_enc_value(v),
    ensures
        sread_value(b, pos) == Some((v, pos + spec_enc_value(v).len())),
{
    let enc = spec_enc_value(v);
    let whole = b.subrange(pos, pos + enc.len());
    assert(b[pos] == whole[0]);
    match v {
        ColumnValueV::Null => {},
        ColumnValueV::Val(ColumnTypeV::I32(x)) => {
            let carrier = crate::bytesutil::spec_i32_as_u32(x);
            assert(b.subrange(pos + 1, pos + 5) =~= spec_u32_le(carrier)) by {
                assert forall|j: int| 0 <= j < 4 implies b[pos + 1 + j] == spec_u32_le(carrier)[j]
                    by {
                    assert(whole[1 + j] == b[pos + 1 + j]);
                    assert(enc[1 + j] == spec_u32_le(carrier)[j]);
                }
            }
            lemma_dec_u32_at(carrier, b, pos + 1);
            crate::bytesutil::lemma_i32_u32_roundtrip(x);
        },
        ColumnValueV::Val(ColumnTypeV::VarChar(sb)) => {
            assert(b.subrange(pos + 1, pos + 1 + 2 + sb.len()) =~= spec_enc_bytes(sb)) by {
                assert forall|j: int| 0 <= j < 2 + sb.len() implies b[pos + 1 + j]
                    == spec_enc_bytes(sb)[j] by {
                    assert(whole[1 + j] == b[pos + 1 + j]);
                    assert(enc[1 + j] == spec_enc_bytes(sb)[j]);
                }
            }
            lemma_dec_bytes_at(sb, b, pos + 1);
        },
    }
}

/// A run of column values placed at `pos` reads back as itself.
proof fn lemma_dec_values_at(vs: Seq<ColumnValueV>, b: Seq<u8>, pos: int)
    requires
        0 <= pos,
        forall|i: int| 0 <= i < vs.len() ==> (#[trigger] vs[i]).wf(),
        pos + spec_enc_values(vs).len() <= b.len(),
        b.subrange(pos, pos + spec_enc_values(vs).len()) == spec_enc_values(vs),
    ensures
        sread_values(b, pos, vs.len() as int) == Some((vs, pos + spec_enc_values(vs).len())),
    decreases vs.len(),
{
    if vs.len() == 0 {
        assert(vs =~= Seq::<ColumnValueV>::empty());
    } else {
        let enc = spec_enc_values(vs);
        let whole = b.subrange(pos, pos + enc.len());
        let head = spec_enc_value(vs[0]);
        let rest = vs.drop_first();
        assert(enc == head + spec_enc_values(rest));
        assert(b.subrange(pos, pos + head.len()) =~= head) by {
            assert forall|j: int| 0 <= j < head.len() implies b[pos + j] == head[j] by {
                assert(whole[j] == b[pos + j]);
                assert(enc[j] == head[j]);
            }
        }
        lemma_dec_value_at(vs[0], b, pos);
        let p2 = pos + head.len();
        assert(b.subrange(p2, p2 + spec_enc_values(rest).len()) =~= spec_enc_values(rest)) by {
            assert forall|j: int| 0 <= j < spec_enc_values(rest).len() implies b[p2 + j]
                == spec_enc_values(rest)[j] by {
                assert(whole[head.len() + j] == b[p2 + j]);
                assert(enc[head.len() + j] == spec_enc_values(rest)[j]);
            }
        }
        assert forall|i: int| 0 <= i < rest.len() implies (#[trigger] rest[i]).wf() by {
            assert(rest[i] == vs[i + 1]);
        }
        lemma_dec_values_at(rest, b, p2);
        assert(seq![vs[0]] + rest =~= vs);
    }
}

/// A run of column descriptors placed at `pos` reads back as itself.
proof fn lemma_dec_columns_at(cs: Seq<ColumnDataV>, b: Seq<u8>, pos: int)
    requires
        0 <= pos,
        forall|i: int| 0 <= i < cs.len() ==> (#[trigger] cs[i]).col_name.len() <= u16::MAX,
        pos + spec_enc_columns(cs).len() <= b.len(),
        b.subrange(pos, pos + spec_enc_columns(cs).len()) == spec_enc_columns(cs),
    ensures
        sread_columns(b, pos, cs.len() as int) == Some((cs, pos + spec_enc_columns(cs).len())),
    decreases cs.len(),
{
    if cs.len() == 0 {
        assert(cs =~= Seq::<ColumnDataV>::empty());
    } else {
        let enc = spec_enc_columns(cs);
        let whole = b.subrange(pos, pos + enc.len());
        let name = cs[0].col_name;
        let head = spec_enc_bytes(name) + seq![cs[0].wire_type];
        let rest = cs.drop_first();
        assert(enc == head + spec_enc_columns(rest));
        assert(b.subrange(pos, pos + 2 + name.len()) =~= spec_enc_bytes(name)) by {
            assert forall|j: int| 0 <= j < 2 + name.len() implies b[pos + j] == spec_enc_bytes(
                name,
            )[j] by {
                assert(whole[j] == b[pos + j]);
                assert(enc[j] == head[j]);
                assert(head[j] == spec_enc_bytes(name)[j]);
            }
        }
        lemma_dec_bytes_at(name, b, pos);
        let p2 = pos + 2 + name.len();
        assert(b[p2] == cs[0].wire_type) by {
            assert(whole[(2 + name.len()) as int] == b[p2]);
            assert(enc[(2 + name.len()) as int] == head[(2 + name.len()) as int]);
        }
        let p3 = p2 + 1;
        assert(b.subrange(p3, p3 + spec_enc_columns(rest).len()) =~= spec_enc_columns(rest)) by {
            assert forall|j: int| 0 <= j < spec_enc_columns(rest).len() implies b[p3 + j]
                == spec_enc_columns(rest)[j] by {
                assert(whole[head.len() + j] == b[p3 + j]);
                assert(enc[head.len() + j] == spec_enc_columns(rest)[j]);
            }
        }
        assert forall|i: int| 0 <= i < rest.len() implies (#[trigger] rest[i]).col_name.len()
            <= u16::MAX by {
            assert(rest[i] == cs[i + 1]);
        }
        lemma_dec_columns_at(rest, b, p3);
        assert(seq![ColumnDataV { col_name: name, wire_type: cs[0].wire_type }] + rest =~= cs);
    }
}

/// An error token placed at `pos` reads back as itself.
#[verifier::spinoff_prover]
proof fn lemma_dec_token_error_at(code: u32, message: Seq<u8>, b: Seq<u8>, pos: int)
    requires
        0 <= pos,
        message.len() <= u16::MAX,
        pos + spec_enc_token((TokenV::Error { code, message })).len() <= b.len(),
        b.subrange(pos, pos + spec_enc_token((TokenV::Error { code, message })).len())
            == spec_enc_token((TokenV::Error { code, message })),
    ensures
        sread_token(b, pos) == Some(
            (
                (TokenV::Error { code, message }),
                pos + spec_enc_token((TokenV::Error { code, message })).len(),
            ),
        ),
{
    let enc = spec_enc_token((TokenV::Error { code, message }));
    let whole = b.subrange(pos, pos + enc.len());
    assert(b[pos] == whole[0]);
    let p = pos + 1;
    assert(b.subrange(p, p + 4) =~= spec_u32_le(code)) by {
        assert forall|j: int| 0 <= j < 4 implies b[p + j] == spec_u32_le(code)[j] by {
            assert(whole[1 + j] == b[p + j]);
            assert(enc[1 + j] == spec_u32_le(code)[j]);
        }
    }
    lemma_dec_u32_at(code, b, p);
    assert(b.subrange(p + 4, p + 4 + 2 + message.len()) =~= spec_enc_bytes(message)) by {
        assert forall|j: int| 0 <= j < 2 + message.len() implies b[p + 4 + j] == spec_enc_bytes(
            message,
        )[j] by {
            assert(whole[5 + j] == b[p + 4 + j]);
            assert(enc[5 + j] == spec_enc_bytes(message)[j]);
        }
    }
    lemma_dec_bytes_at(message, b, p + 4);
}

/// A completion token placed at `pos` reads back as itself.
#[verifier::spinoff_prover]
proof fn lemma_dec_token_done_at(status: u16, row_count: u32, b: Seq<u8>, pos: int)
    requires
        0 <= pos,
        pos + spec_enc_token((TokenV::Done { status, row_count })).len() <= b.len(),
        b.subrange(pos, pos + spec_enc_token((TokenV::Done { status, row_count })).len())
            == spec_enc_token((TokenV::Done { status, row_count })),
    ensures
        sread_token(b, pos) == Some(
            (
                (TokenV::Done { status, row_count }),
                pos + spec_enc_token((TokenV::Done { status, row_count })).len(),
            ),
        ),
{
    let enc = spec_enc_token((TokenV::Done { status, row_count }));
    let whole = b.subrange(pos, pos + enc.len());
    assert(b[pos] == whole[0]);
    let p = pos + 1;
    assert(b.subrange(p, p + 2) =~= spec_u16_le(status)) by {
        assert forall|j: int| 0 <= j < 2 implies b[p + j] == spec_u16_le(status)[j] by {
            assert(whole[1 + j] == b[p + j]);
            assert(enc[1 + j] == spec_u16_le(status)[j]);
        }
    }
    lemma_dec_u16_at(status, b, p);
    assert(b.subrange(p + 2, p + 6) =~= spec_u32_le(row_count)) by {
        assert forall|j: int| 0 <= j < 4 implies b[p + 2 + j] == spec_u32_le(row_count)[j] by {
            assert(whole[3 + j] == b[p + 2 + j]);
            assert(enc[3 + j] == spec_u32_le(row_count)[j]);
        }
    }
    lemma_dec_u32_at(row_count, b, p + 2);
}

/// A row token placed at `pos` reads back as itself.
#[verifier::spinoff_prover]
proof fn lemma_dec_token_row_at(values: Seq<ColumnValueV>, b: Seq<u8>, pos: int)
    requires
        0 <= pos,
        (TokenV::Row { values }).wf(),
        pos + spec_enc_token((TokenV::Row { values })).len() <= b.len(),
        b.subrange(pos, pos + spec_enc_token((TokenV::Row { values })).len()) == spec_enc_token(
            (TokenV::Row { values }),
        ),
    ensures
        sread_token(b, pos) == Some(
            (TokenV::Row { values }, pos + spec_enc_token((TokenV::Row { values })).len()),
        ),
{
    let enc = spec_enc_token((TokenV::Row { values }));
    let whole = b.subrange(pos, pos + enc.len());
    assert(b[pos] == whole[0]);
    let p = pos + 1;
    let countv = values.len() as u16;
    assert(b.subrange(p, p + 2) =~= spec_u16_le(countv)) by {
        assert forall|j: int| 0 <= j < 2 implies b[p + j] == spec_u16_le(countv)[j] by {
            assert(whole[1 + j] == b[p + j]);
            assert(enc[1 + j] == spec_u16_le(countv)[j]);
        }
    }
    lemma_dec_u16_at(countv, b, p);
    assert(b.subrange(p + 2, p + 2 + spec_enc_values(values).len()) =~= spec_enc_values(values))
        by {
        assert forall|j: int| 0 <= j < spec_enc_values(values).len() implies b[p + 2 + j]
            == spec_enc_values(values)[j] by {
            assert(whole[3 + j] == b[p + 2 + j]);
            assert(enc[3 + j] == spec_enc_values(values)[j]);
        }
    }
    lemma_dec_values_at(values, b, p + 2);
}

/// A return-value token placed at `pos` reads back as itself.
#[verifier::spinoff_prover]
proof fn lemma_dec_token_retval_at(name: Seq<u8>, value: ColumnValueV, b: Seq<u8>, pos: int)
    requires
        0 <= pos,
        (TokenV::ReturnValue { name, value }).wf(),
        pos + spec_enc_token((TokenV::ReturnValue { name, value })).len() <= b.len(),
        b.subrange(pos, pos + spec_enc_token((TokenV::ReturnValue { name, value })).len())
            == spec_enc_token((TokenV::ReturnValue { name, value })),
    ensures
        sread_token(b, pos) == Some(
            (
                (TokenV::ReturnValue { name, value }),
                pos + spec_enc_token((TokenV::ReturnValue { name, value })).len(),
            ),
        ),
{
    let enc = spec_enc_token((TokenV::ReturnValue { name, value }));
    let whole = b.subrange(pos, pos + enc.len());
    assert(b[pos] == whole[0]);
    let p = pos + 1;
    assert(b.subrange(p, p + 2 + name.len()) =~= spec_enc_bytes(name)) by {
        assert forall|j: int| 0 <= j < 2 + name.len() implies b[p + j] == spec_enc_bytes(name)[j]
            by {
            assert(whole[1 + j] == b[p + j]);
            assert(enc[1 + j] == spec_enc_bytes(name)[j]);
        }
    }
    lemma_dec_bytes_at(name, b, p);
    let p2 = p + 2 + name.len();
    assert(b.subrange(p2, p2 + spec_enc_value(value).len()) =~= spec_enc_value(value)) by {
        assert forall|j: int| 0 <= j < spec_enc_value(value).len() implies b[p2 + j]
            == spec_enc_value(value)[j] by {
            assert(whole[3 + name.len() + j] == b[p2 + j]);
            assert(enc[3 + name.len() + j] == spec_enc_value(value)[j]);
        }
    }
    lemma_dec_value_at(value, b, p2);
}

/// An environment-change token placed at `pos` reads back as itself.
#[verifier::spinoff_prover]
proof fn lemma_dec_token_env_at(
    kind: u8,
    new_value: Seq<u8>,
    old_value: Seq<u8>,
    b: Seq<u8>,
    pos: int,
)
    requires
        0 <= pos,
        new_value.len() <= u16::MAX,
        old_value.len() <= u16::MAX,
        pos + spec_enc_token((TokenV::EnvChange { kind, new_value, old_value })).len() <= b.len(),
        b.subrange(
            pos,
            pos + spec_enc_token((TokenV::EnvChange { kind, new_value, old_value })).len(),
        ) == spec_enc_token((TokenV::EnvChange { kind, new_value, old_value })),
    ensures
        sread_token(b, pos) == Some(
            (
                (TokenV::EnvChange { kind, new_value, old_value }),
                pos + spec_enc_token((TokenV::EnvChange { kind, new_value, old_value })).len(),
            ),
        ),
{
    let enc = spec_enc_token((TokenV::EnvChange { kind, new_value, old_value }));
    let whole = b.subrange(pos, pos + enc.len());
    assert(b[pos] == whole[0]);
    let p = pos + 1;
    assert(b[p] == kind) by {
        assert(whole[1] == b[p]);
    }
    assert(b.subrange(p + 1, p + 1 + 2 + new_value.len()) =~= spec_enc_bytes(new_value)) by {
        assert forall|j: int| 0 <= j < 2 + new_value.len() implies b[p + 1 + j] == spec_enc_bytes(
            new_value,
        )[j] by {
            assert(whole[2 + j] == b[p + 1 + j]);
            assert(enc[2 + j] == spec_enc_bytes(new_value)[j]);
        }
    }
    lemma_dec_bytes_at(new_value, b, p + 1);
    let p3 = p + 3 + new_value.len();
    assert(b.subrange(p3, p3 + 2 + old_value.len()) =~= spec_enc_bytes(old_value)) by {
        assert forall|j: int| 0 <= j < 2 + old_value.len() implies b[p3 + j] == spec_enc_bytes(
            old_value,
        )[j] by {
            assert(whole[4 + new_value.len() + j] == b[p3 + j]);
            assert(enc[4 + new_value.len() + j] == spec_enc_bytes(old_value)[j]);
        }
    }
    lemma_dec_bytes_at(old_value, b, p3);
}

/// A column-metadata token placed at `pos` reads back as itself.
#[verifier::spinoff_prover]
proof fn lemma_dec_token_cols_at(columns: Seq<ColumnDataV>, b: Seq<u8>, pos: int)
    requires
        0 <= pos,
        (TokenV::ColMetaData { columns }).wf(),
        pos + spec_enc_token((TokenV::ColMetaData { columns })).len() <= b.len(),
        b.subrange(pos, pos + spec_enc_token((TokenV::ColMetaData { columns })).len())
            == spec_enc_token((TokenV::ColMetaData { columns })),
    ensures
        sread_token(b, pos) == Some(
            (
                (TokenV::ColMetaData { columns }),
                pos + spec_enc_token((TokenV::ColMetaData { columns })).len(),
            ),
        ),
{
    let enc = spec_enc_token((TokenV::ColMetaData { columns }));
    let whole = b.subrange(pos, pos + enc.len());
    assert(b[pos] == whole[0]);
    let p = pos + 1;
    let countv = columns.len() as u16;
    assert(b.subrange(p, p + 2) =~= spec_u16_le(countv)) by {
        assert forall|j: int| 0 <= j < 2 implies b[p + j] == spec_u16_le(countv)[j] by {
            assert(whole[1 + j] == b[p + j]);
            assert(enc[1 + j] == spec_u16_le(countv)[j]);
        }
    }
    lemma_dec_u16_at(countv, b, p);
    assert(b.subrange(p + 2, p + 2 + spec_enc_columns(columns).len()) =~= spec_enc_columns(
        columns,
    )) by {
        assert forall|j: int| 0 <= j < spec_enc_columns(columns).len() implies b[p + 2 + j]
            == spec_enc_columns(columns)[j] by {
            assert(whole[3 + j] == b[p + 2 + j]);
            assert(enc[3 + j] == spec_enc_columns(columns)[j]);
        }
    }
    lemma_dec_columns_at(columns, b, p + 2);
}

/// A token placed at `pos` reads back as itself.
proof fn lemma_dec_token_at(t: TokenV, b: Seq<u8>, pos: int)
    requires
        0 <= pos,
        t.wf(),
        pos + spec_enc_token(t).len() <= b.len(),
        b.subrange(pos, pos + spec_enc_token(t).len()) == spec_enc_token(t),
    ensures
        sread_token(b, pos) == Some((t, pos + spec_enc_token(t).len())),
{
    match t {
        TokenV::Error { code, message } => {
            lemma_dec_token_error_at(code, message, b, pos);
        },
        TokenV::Done { status, row_count } => {
            lemma_dec_token_done_at(status, row_count, b, pos);
        },
        TokenV::Row { values } => {
            lemma_dec_token_row_at(values, b, pos);
        },
        TokenV::ReturnValue { name, value } => {
            lemma_dec_token_retval_at(name, value, b, pos);
        },
        TokenV::EnvChange { kind, new_value, old_value } => {
            lemma_dec_token_env_at(kind, new_value, old_value, b, pos);
        },
        TokenV::ColMetaData { columns } => {
            lemma_dec_token_cols_at(columns, b, pos);
        },
    }
}

/// A token stream placed at `pos` and running to the end of the body reads
/// back as itself.
#[verifier::spinoff_prover]
#[verifier::rlimit(80)]
proof fn lemma_dec_tokens_from_enc(ts: Seq<TokenV>, b: Seq<u8>, pos: int)
    requires
        0 <= pos <= b.len(),
        forall|i: int| 0 <= i < ts.len() ==> (#[trigger] ts[i]).wf(),
        b.len() - pos == spec_enc_tokens(ts).len(),
        b.subrange(pos, b.len() as int) == spec_enc_tokens(ts),
    ensures
        sread_tokens_from(b, pos) == Some(ts),
    decreases ts.len(),
{
    if ts.len() == 0 {
        assert(ts =~= Seq::<TokenV>::empty());
    } else {
        let enc = spec_enc_tokens(ts);
        let whole = b.subrange(pos, b.len() as int);
        let head = spec_enc_token(ts[0]);
        let rest = ts.drop_first();
        assert(enc == head + spec_enc_tokens(rest));
        assert(head.len() >= 1);
        assert(b.subrange(pos, pos + head.len()) =~= head) by {
            assert forall|j: int| 0 <= j < head.len() implies b[pos + j] == head[j] by {
                assert(whole[j] == b[pos + j]);
                assert(enc[j] == head[j]);
            }
        }
        lemma_dec_token_at(ts[0], b, pos);
        let p2 = pos + head.len();
        assert(b.subrange(p2, b.len() as int) =~= spec_enc_tokens(rest)) by {
            assert forall|j: int| 0 <= j < spec_enc_tokens(rest).len() implies b[p2 + j]
                == spec_enc_tokens(rest)[j] by {
                assert(whole[head.len() + j] == b[p2 + j]);
                assert(enc[head.len() + j] == spec_enc_tokens(rest)[j]);
            }
        }
        assert forall|i: int| 0 <= i < rest.len() implies (#[trigger] rest[i]).wf() by {
            assert(rest[i] == ts[i + 1]);
        }
        lemma_dec_tokens_from_enc(rest, b, p2);
        assert(seq![ts[0]] + rest =~= ts);
    }
}

/// The token codec loses nothing: encoding any well-formed token stream
/// and decoding the body gives the stream back exactly.
pub proof fn lemma_token_stream_roundtrip(ts: Seq<TokenV>)
    requires
        forall|i: int| 0 <= i < ts.len() ==> (#[trigger] ts[i]).wf(),
    ensures
        spec_dec_tokens(spec_enc_tokens(ts)) == Some(ts),
{
    let b = spec_enc_tokens(ts);
    assert(b.subrange(0, b.len() as int) =~= b);
    lemma_dec_tokens_from_enc(ts, b, 0);
}

} // verus!
