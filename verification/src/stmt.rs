//! The statement-execution engine and result materialization: one-shot
//! batches, server-side prepared statements with handle caching, ad-hoc
//! parameterized execution, and the rows they produce.
//!
//! All three strategies send one request message, receive exactly one
//! logical response, decode it as a token stream and interpret the tokens.
//! An error token in a response always takes precedence over completion or
//! row data.

use vstd::prelude::*;
use vstd::slice::slice_to_vec;
use vstd::string::StringSliceAdditionalSpecFns;

use crate::bytesutil::{format_decimal, spec_decimal};
use crate::conn::{ClientState, InternalConnection, TargetStream};
use crate::errors::{ProtocolErrorKind, TdsError, TdsResult};
use crate::packets::PacketKind;
use crate::bytesutil::{spec_u32_as_i32, lemma_decimal_len, spec_pow10};
use crate::rpc::{spec_enc_rpc_request, RpcParamData, RpcParamDataV, RpcProcId, RpcProcIdValue,
    RpcProcIdValueV, RpcRequestData, RpcRequestDataV, BY_REF_VALUE, NO_METADATA};
use crate::tokens::{
    spec_announced_columns, spec_dec_tokens, spec_first_error, spec_first_return_value,
    spec_row_values,
    ColumnData, ColumnDataV, ColumnType, ColumnTypeV, ColumnValue, ColumnValueV, Token, TokenV,
    DONE_STATUS_COUNT,
};

verus! {

// ---------------------------------------------------------------------------
// Well-known parameter and procedure names
// ---------------------------------------------------------------------------

/// The ASCII bytes of the handle parameter's name, `handle`.
pub open spec fn spec_handle_param_name() -> Seq<u8> {
    seq![104u8, 97u8, 110u8, 100u8, 108u8, 101u8]
}

/// The name of the output-bound handle parameter.
pub fn handle_param_name() -> (r: Vec<u8>)
    ensures
        r@ == spec_handle_param_name(),
{
    let mut v: Vec<u8> = Vec::new();
    v.push(104);
    v.push(97);
    v.push(110);
    v.push(100);
    v.push(108);
    v.push(101);
    assert(v@ =~= spec_handle_param_name());
    v
}

/// The ASCII bytes of the parameter-signature parameter's name, `params`.
pub open spec fn spec_params_param_name() -> Seq<u8> {
    seq![112u8, 97u8, 114u8, 97u8, 109u8, 115u8]
}

/// The name of the parameter-signature parameter.
pub fn params_param_name() -> (r: Vec<u8>)
    ensures
        r@ == spec_params_param_name(),
{
    let mut v: Vec<u8> = Vec::new();
    v.push(112);
    v.push(97);
    v.push(114);
    v.push(97);
    v.push(109);
    v.push(115);
    assert(v@ =~= spec_params_param_name());
    v
}

/// The ASCII bytes of the statement-text parameter's name, `stmt`.
pub open spec fn spec_stmt_param_name() -> Seq<u8> {
    seq![115u8, 116u8, 109u8, 116u8]
}

/// The name of the statement-text parameter.
pub fn stmt_param_name() -> (r: Vec<u8>)
    ensures
        r@ == spec_stmt_param_name(),
{
    let mut v: Vec<u8> = Vec::new();
    v.push(115);
    v.push(116);
    v.push(109);
    v.push(116);
    assert(v@ =~= spec_stmt_param_name());
    v
}

/// The ASCII bytes of the execute procedure's name, `sp_execute`.
pub open spec fn spec_sp_execute_name() -> Seq<u8> {
    seq![115u8, 112u8, 95u8, 101u8, 120u8, 101u8, 99u8, 117u8, 116u8, 101u8]
}

/// The name of the execute procedure.
pub fn sp_execute_name() -> (r: Vec<u8>)
    ensures
        r@ == spec_sp_execute_name(),
{
    let mut v: Vec<u8> = Vec::new();
    v.push(115);
    v.push(112);
    v.push(95);
    v.push(101);
    v.push(120);
    v.push(101);
    v.push(99);
    v.push(117);
    v.push(116);
    v.push(101);
    assert(v@ =~= spec_sp_execute_name());
    v
}

/// The ASCII bytes of the wire-type name of a value: `int` for integers,
/// `nvarchar(max)` for byte strings.
pub open spec fn spec_column_type_name(t: ColumnTypeV) -> Seq<u8> {
    match t {
        ColumnTypeV::I32(_) => seq![105u8, 110u8, 116u8],
        ColumnTypeV::VarChar(_) => seq![
            110u8,
            118u8,
            97u8,
            114u8,
            99u8,
            104u8,
            97u8,
            114u8,
            40u8,
            109u8,
            97u8,
            120u8,
            41u8,
        ],
    }
}

/// The wire-type name of a value's type.
pub fn column_type_name(t: &ColumnType) -> (r: Vec<u8>)
    ensures
        r@ == spec_column_type_name(t@),
{
    let mut v: Vec<u8> = Vec::new();
    match t {
        ColumnType::I32(_) => {
            v.push(105);
            v.push(110);
            v.push(116);
        },
        ColumnType::VarChar(_) => {
            v.push(110);
            v.push(118);
            v.push(97);
            v.push(114);
            v.push(99);
            v.push(104);
            v.push(97);
            v.push(114);
            v.push(40);
            v.push(109);
            v.push(97);
            v.push(120);
            v.push(41);
        },
    }
    assert(v@ =~= spec_column_type_name(t@));
    v
}

/// The positional parameter name `@P<i>`.
pub open spec fn spec_positional_name(i: nat) -> Seq<u8> {
    seq![64u8, 80u8] + spec_decimal(i)
}

/// Renders the positional parameter name `@P<i>`.
pub fn positional_name(i: u32) -> (r: Vec<u8>)
    ensures
        r@ == spec_positional_name(i as nat),
{
    let mut v: Vec<u8> = Vec::new();
    v.push(64);
    v.push(80);
    let digits = format_decimal(i);
    crate::bytesutil::push_bytes(&mut v, digits.as_slice());
    assert(v@ =~= spec_positional_name(i as nat));
    v
}

/// The textual parameter signature derived from the values' wire types in
/// declaration order, parameters numbered from `idx`: each entry is
/// `@P<n> <type>`, entries joined by commas.
pub open spec fn spec_param_signature_from(ts: Seq<ColumnTypeV>, idx: nat) -> Seq<u8>
    decreases ts.len(),
{
    if ts.len() == 0 {
        Seq::empty()
    } else {
        let head = spec_positional_name(idx) + seq![32u8] + spec_column_type_name(ts[0]);
        if ts.len() == 1 {
            head
        } else {
            head + seq![44u8] + spec_param_signature_from(ts.drop_first(), idx + 1)
        }
    }
}

/// The parameter signature of a whole parameter list, numbered from 1.
pub open spec fn spec_param_signature(ts: Seq<ColumnTypeV>) -> Seq<u8> {
    spec_param_signature_from(ts, 1)
}

/// Builds the textual parameter signature of the given values.
pub fn build_param_signature(params: &Vec<ColumnType>) -> (r: Vec<u8>)
    requires
        params@.len() < 0x1_0000_0000,
    ensures
        r@ == spec_param_signature(params@.map_values(|t: ColumnType| t@)),
{
    let ghost g = params@.map_values(|t: ColumnType| t@);
    let mut out: Vec<u8> = Vec::new();
    let n = params.len();
    let mut i: usize = 0;
    proof {
        assert(g.skip(0) =~= g);
        assert(out@ + spec_param_signature_from(g, 1) =~= spec_param_signature_from(g, 1));
    }
    while i < n
        invariant
            n == params@.len() < 0x1_0000_0000,
            i <= n,
            g == params@.map_values(|t: ColumnType| t@),
            out@ + spec_param_signature_from(g.skip(i as int), (i + 1) as nat)
                == spec_param_signature(g),
            i == n ==> out@ == spec_param_signature(g),
        decreases n - i,
    {
        proof {
            assert(g.skip(i as int)[0] == g[i as int]);
            assert(g[i as int] == params@[i as int]@);
            assert(g.skip(i as int).drop_first() =~= g.skip(i + 1));
        }
        let name = positional_name((i as u32) + 1);
        crate::bytesutil::push_bytes(&mut out, name.as_slice());
        out.push(32);
        let tyname = column_type_name(&params[i]);
        crate::bytesutil::push_bytes(&mut out, tyname.as_slice());
        if i + 1 < n {
            out.push(44);
        }
        i = i + 1;
        proof {
            if i < n {
                assert(out@ + spec_param_signature_from(g.skip(i as int), (i + 1) as nat)
                    =~= spec_param_signature(g));
            } else {
                assert(out@ =~= spec_param_signature(g));
            }
        }
    }
    proof {
        if n == 0 {
            assert(out@ =~= spec_param_signature(g));
        }
    }
    out
}

// ---------------------------------------------------------------------------
// Statement metadata, rows and results
// ---------------------------------------------------------------------------

/// What a statement learns from its responses: the ordered column
/// descriptors, and the server-assigned handle once a prepare step
/// succeeded.
#[derive(Debug)]
pub struct StatementInfo {
    /// Ordered column descriptors discovered from the response.
    pub column_infos: Vec<ColumnData>,
    /// The handle for prepared statements, assigned at most once.
    pub handle: Option<u32>,
}

impl StatementInfo {
    /// Fresh metadata: no columns known, no handle assigned.
    pub fn new() -> (r: StatementInfo)
        ensures
            r.column_infos@.len() == 0,
            r.handle is None,
    {
        StatementInfo { column_infos: Vec::new(), handle: None }
    }
}

/// Copies a column descriptor.
fn clone_column(c: &ColumnData) -> (r: ColumnData)
    ensures
        r@ == c@,
{
    ColumnData { col_name: c.col_name.clone(), wire_type: c.wire_type }
}

/// Copies a list of column descriptors.
fn clone_columns(cs: &Vec<ColumnData>) -> (r: Vec<ColumnData>)
    ensures
        r@.map_values(|c: ColumnData| c@) == cs@.map_values(|c: ColumnData| c@),
{
    let n = cs.len();
    let mut out: Vec<ColumnData> = Vec::new();
    let mut i: usize = 0;
    while i < n
        invariant
            n == cs@.len(),
            i <= n,
            out@.len() == i,
            forall|k: int| 0 <= k < i ==> (#[trigger] out@[k])@ == cs@[k]@,
        decreases n - i,
    {
        out.push(clone_column(&cs[i]));
        i = i + 1;
    }
    assert(out@.map_values(|c: ColumnData| c@) =~= cs@.map_values(|c: ColumnData| c@));
    out
}

/// Appends to the statement's metadata every column descriptor announced by
/// the column-metadata tokens of a response, in response order. The handle
/// is untouched.
pub fn apply_metadata(stmt: &mut StatementInfo, tokens: &Vec<Token>)
    ensures
        final(stmt).column_infos@.map_values(|c: ColumnData| c@) == old(
            stmt,
        ).column_infos@.map_values(|c: ColumnData| c@) + spec_announced_columns(
            tokens@.map_values(|t: Token| t@),
        ),
        final(stmt).handle == old(stmt).handle,
{
    let ghost g = tokens@.map_values(|t: Token| t@);
    let ghost base = old(stmt).column_infos@.map_values(|c: ColumnData| c@);
    let n = tokens.len();
    let mut i: usize = 0;
    proof {
        assert(g.skip(0) =~= g);
    }
    while i < n
        invariant
            n == tokens@.len(),
            i <= n,
            g == tokens@.map_values(|t: Token| t@),
            stmt.handle == old(stmt).handle,
            stmt.column_infos@.map_values(|c: ColumnData| c@) + spec_announced_columns(
                g.skip(i as int),
            ) == base + spec_announced_columns(g),
        decreases n - i,
    {
        proof {
            assert(g.skip(i as int)[0] == g[i as int]);
            assert(g.skip(i as int).drop_first() =~= g.skip(i + 1));
        }
        match &tokens[i] {
            Token::ColMetaData { columns } => {
                let ghost before = stmt.column_infos@.map_values(|c: ColumnData| c@);
                let ghost base_len = stmt.column_infos@.len();
                let m = columns.len();
                let mut j: usize = 0;
                while j < m
                    invariant
                        m == columns@.len(),
                        j <= m,
                        stmt.handle == old(stmt).handle,
                        stmt.column_infos@.len() == base_len + j,
                        before.len() == base_len,
                        before == stmt.column_infos@.take(base_len as int).map_values(
                            |c: ColumnData| c@,
                        ),
                        forall|k: int|
                            0 <= k < base_len ==> (#[trigger] stmt.column_infos@[k])@ == before[k],
                        forall|k: int|
                            base_len <= k < base_len + j ==> (#[trigger] stmt.column_infos@[k])@
                                == columns@[k - base_len]@,
                    decreases m - j,
                {
                    stmt.column_infos.push(clone_column(&columns[j]));
                    j = j + 1;
                }
                proof {
                    assert(stmt.column_infos@.map_values(|c: ColumnData| c@) =~= before
                        + columns@.map_values(|c: ColumnData| c@));
                    assert(g[i as int] matches TokenV::ColMetaData { columns: gc } && gc
                        == columns@.map_values(|c: ColumnData| c@));
                    assert(before + columns@.map_values(|c: ColumnData| c@)
                        + spec_announced_columns(g.skip(i + 1)) =~= before + (columns@.map_values(
                        |c: ColumnData| c@,
                    ) + spec_announced_columns(g.skip(i + 1))));
                }
            },
            _ => {},
        }
        i = i + 1;
    }
    proof {
        assert(g.skip(n as int) =~= Seq::<TokenV>::empty());
        assert(stmt.column_infos@.map_values(|c: ColumnData| c@) + Seq::<
            ColumnDataV,
        >::empty() =~= stmt.column_infos@.map_values(|c: ColumnData| c@));
        assert(base + spec_announced_columns(g.skip(n as int)) =~= base);
    }
}

/// One result row: the decoded column values in column order, together
/// with the column descriptors of its statement for name-based lookup.
/// Immutable after construction.
#[derive(Debug)]
pub struct Row {
    /// The decoded values, one per column.
    pub values: Vec<ColumnValue>,
    /// The statement's column descriptors.
    pub columns: Vec<ColumnData>,
}

/// The mathematical image of a [`Row`].
pub struct RowV {
    pub values: Seq<ColumnValueV>,
    pub columns: Seq<ColumnDataV>,
}

impl View for Row {
    type V = RowV;

    open spec fn view(&self) -> RowV {
        RowV {
            values: self.values@.map_values(|v: ColumnValue| v@),
            columns: self.columns@.map_values(|c: ColumnData| c@),
        }
    }
}

/// How a column of a row is addressed: by ordinal position or by name.
#[derive(Clone, Debug)]
pub enum RowIndex {
    /// By ordinal position, counted from zero.
    ByPosition(usize),
    /// By column name, resolved against the statement's metadata by a
    /// linear scan, first exact match winning.
    ByName(Vec<u8>),
}

/// The position of the first column of `columns` named `name`, if any.
pub open spec fn spec_col_index(columns: Seq<ColumnDataV>, name: Seq<u8>) -> Option<int>
    decreases columns.len(),
{
    if columns.len() == 0 {
        None
    } else if columns[0].col_name == name {
        Some(0)
    } else {
        match spec_col_index(columns.drop_first(), name) {
            None => None,
            Some(i) => Some(i + 1),
        }
    }
}

/// The position a row index resolves to against a row: a position stands
/// for itself, a name for the first matching column.
pub open spec fn spec_resolve_index(idx: RowIndex, row: RowV) -> Option<int> {
    match idx {
        RowIndex::ByPosition(i) => Some(i as int),
        RowIndex::ByName(name) => spec_col_index(row.columns, name@),
    }
}

impl RowIndex {
    /// Resolves this index against a row. A position resolves to itself; a
    /// name resolves to the first column of the statement's metadata with
    /// exactly that name, or to nothing.
    pub fn get_index(&self, row: &Row) -> (r: Option<usize>)
        ensures
            match r {
                Some(i) => spec_resolve_index(*self, row@) == Some(i as int),
                None => spec_resolve_index(*self, row@) is None,
            },
    {
        match self {
            RowIndex::ByPosition(i) => Some(*i),
            RowIndex::ByName(name) => {
                let ghost cols = row@.columns;
                let n = row.columns.len();
                let mut i: usize = 0;
                proof {
                    assert(cols.skip(0) =~= cols);
                }
                while i < n
                    invariant
                        n == row.columns@.len(),
                        i <= n,
                        cols == row@.columns,
                        *self matches RowIndex::ByName(nm) && nm@ == name@,
                        match spec_col_index(cols.skip(i as int), name@) {
                            None => spec_col_index(cols, name@) is None,
                            Some(k) => spec_col_index(cols, name@) == Some(k + i),
                        },
                    decreases n - i,
                {
                    proof {
                        assert(cols.skip(i as int)[0] == cols[i as int]);
                        assert(cols.skip(i as int).drop_first() =~= cols.skip(i + 1));
                    }
                    proof {
                        assert(cols[i as int] == row.columns@[i as int]@);
                    }
                    if crate::bytesutil::bytes_eq(
                        row.columns[i].col_name.as_slice(),
                        name.as_slice(),
                    ) {
                        assert(spec_col_index(cols.skip(i as int), name@) == Some(0int));
                        assert(spec_col_index(cols, name@) == Some(i as int));
                        assert(spec_resolve_index(*self, row@) == spec_col_index(
                            row@.columns,
                            name@,
                        ));
                        return Some(i);
                    }
                    i = i + 1;
                }
                proof {
                    assert(cols.skip(n as int) =~= Seq::<ColumnDataV>::empty());
                }
                None
            },
        }
    }
}

impl Row {
    /// The value at the given index.
    ///
    /// An index that resolves to no column, or to a position at or past the
    /// row's width, is caller misuse and comes back as a contract
    /// violation, never as a silently wrong value.
    pub fn get(&self, idx: &RowIndex) -> (r: TdsResult<ColumnValue>)
        ensures
            match r {
                Ok(v) => spec_resolve_index(*idx, self@) matches Some(i) && 0 <= i
                    < self@.values.len() && v@ == self@.values[i],
                Err(e) => e is Contract && match spec_resolve_index(*idx, self@) {
                    None => true,
                    Some(i) => !(0 <= i < self@.values.len()),
                },
            },
    {
        let i = match idx.get_index(self) {
            Some(i) => i,
            None => {
                return Err(TdsError::Contract);
            },
        };
        if i >= self.values.len() {
            return Err(TdsError::Contract);
        }
        Ok(self.values[i].clone_value())
    }

    /// The integer value at the given index.
    ///
    /// On top of the lookup contract of `get`, a value that is not a
    /// present 32-bit integer is a type mismatch and comes back as a
    /// contract violation.
    pub fn get_i32(&self, idx: &RowIndex) -> (r: TdsResult<i32>)
        ensures
            match r {
                Ok(x) => spec_resolve_index(*idx, self@) matches Some(i) && 0 <= i
                    < self@.values.len() && self@.values[i] == ColumnValueV::Val(
                    ColumnTypeV::I32(x),
                ),
                Err(e) => e is Contract,
            },
    {
        match self.get(idx) {
            Ok(ColumnValue::Val(ColumnType::I32(x))) => Ok(x),
            Ok(_) => Err(TdsError::Contract),
            Err(e) => Err(e),
        }
    }
}

/// The result of a query: an ordered, fully materialized sequence of rows.
/// The explicit empty state (`rows` absent) is distinct from an empty row
/// list.
#[derive(Debug)]
pub struct QueryResult {
    /// The rows, or nothing when no result segment was present.
    pub rows: Option<Vec<Row>>,
}

impl QueryResult {
    /// The rows this result holds; the explicit empty state holds none.
    pub open spec fn spec_rows(&self) -> Seq<RowV> {
        match self.rows {
            Some(rows) => rows@.map_values(|r: Row| r@),
            None => Seq::empty(),
        }
    }

    /// The number of contained rows.
    pub fn len(&self) -> (r: usize)
        ensures
            r == self.spec_rows().len(),
    {
        match &self.rows {
            None => 0,
            Some(rows) => rows.len(),
        }
    }

    /// The row at `idx`. A position at or past `len` is caller misuse and
    /// comes back as a contract violation.
    pub fn get(&self, idx: usize) -> (r: TdsResult<&Row>)
        ensures
            match r {
                Ok(row) => idx < self.spec_rows().len() && row@ == self.spec_rows()[idx as int],
                Err(e) => e is Contract && idx >= self.spec_rows().len(),
            },
    {
        match &self.rows {
            None => Err(TdsError::Contract),
            Some(rows) => {
                if idx < rows.len() {
                    Ok(&rows[idx])
                } else {
                    Err(TdsError::Contract)
                }
            },
        }
    }

    /// Drains the result into its rows, in order; the explicit empty state
    /// yields no rows.
    pub fn into_rows(self) -> (r: Vec<Row>)
        ensures
            r@.map_values(|row: Row| row@) == self.spec_rows(),
    {
        match self.rows {
            Some(rows) => rows,
            None => {
                let empty: Vec<Row> = Vec::new();
                proof {
                    assert(empty@.map_values(|row: Row| row@) =~= Seq::<RowV>::empty());
                }
                empty
            },
        }
    }
}

// ---------------------------------------------------------------------------
// Interpreting responses
// ---------------------------------------------------------------------------

/// The affected-row count of a completion-only response.
///
/// An error token takes precedence and surfaces as the server's error.
/// Otherwise the response must be exactly one completion token whose
/// status carries a row count; a completion without a count, and any other
/// shape, is a protocol error.
pub fn handle_execute_packet(tokens: &Vec<Token>) -> (r: TdsResult<usize>)
    ensures
        ({
            let g = tokens@.map_values(|t: Token| t@);
            match r {
                Ok(n) => {
                    &&& spec_first_error(g) is None
                    &&& g.len() == 1
                    &&& g[0] matches TokenV::Done { status, row_count } && status
                        == DONE_STATUS_COUNT && n == row_count
                },
                Err(e) => match e {
                    TdsError::Server { code, message } => spec_first_error(g) == Some(
                        (code, message@),
                    ),
                    TdsError::Protocol(k) => {
                        &&& spec_first_error(g) is None
                        &&& match k {
                            ProtocolErrorKind::DoneWithoutCount => g.len() == 1 && (g[0] matches
                                TokenV::Done { status, .. } && status != DONE_STATUS_COUNT),
                            ProtocolErrorKind::UnexpectedToken => !(g.len() == 1 && g[0]
                                is Done),
                            _ => false,
                        }
                    },
                    _ => false,
                },
            }
        }),
{
    match crate::tokens::catch_error(tokens) {
        Ok(()) => {},
        Err(e) => {
            return Err(e);
        },
    }
    if tokens.len() != 1 {
        return Err(TdsError::Protocol(ProtocolErrorKind::UnexpectedToken));
    }
    match &tokens[0] {
        Token::Done { status, row_count } => {
            if *status == DONE_STATUS_COUNT {
                Ok(*row_count as usize)
            } else {
                Err(TdsError::Protocol(ProtocolErrorKind::DoneWithoutCount))
            }
        },
        _ => {
            proof {
                let g = tokens@.map_values(|t: Token| t@);
                assert(g[0] == tokens@[0]@);
            }
            Err(TdsError::Protocol(ProtocolErrorKind::UnexpectedToken))
        },
    }
}

/// The rows of a row-bearing response, materialized in response order,
/// each row sharing the statement's column descriptors.
///
/// An error token takes precedence and surfaces as the server's error,
/// with no row data. Completion and metadata bookkeeping tokens are
/// skipped.
pub fn handle_query_packet(tokens: &Vec<Token>, columns: &Vec<ColumnData>) -> (r: TdsResult<
    QueryResult,
>)
    ensures
        ({
            let g = tokens@.map_values(|t: Token| t@);
            match r {
                Ok(q) => {
                    &&& spec_first_error(g) is None
                    &&& q.rows is Some
                    &&& q.spec_rows().map_values(|row: RowV| row.values) == spec_row_values(g)
                    &&& forall|i: int|
                        0 <= i < q.spec_rows().len() ==> (#[trigger] q.spec_rows()[i]).columns
                            == columns@.map_values(|c: ColumnData| c@)
                },
                Err(e) => e matches TdsError::Server { code, message } && spec_first_error(g)
                    == Some((code, message@)),
            }
        }),
{
    match crate::tokens::catch_error(tokens) {
        Ok(()) => {},
        Err(e) => {
            return Err(e);
        },
    }
    let ghost g = tokens@.map_values(|t: Token| t@);
    let mut rows: Vec<Row> = Vec::new();
    let n = tokens.len();
    let mut i: usize = 0;
    proof {
        assert(g.skip(0) =~= g);
        assert(rows@.map_values(|r: Row| r@).map_values(|row: RowV| row.values) + spec_row_values(
            g,
        ) =~= spec_row_values(g));
    }
    while i < n
        invariant
            n == tokens@.len(),
            i <= n,
            g == tokens@.map_values(|t: Token| t@),
            rows@.map_values(|r: Row| r@).map_values(|row: RowV| row.values) + spec_row_values(
                g.skip(i as int),
            ) == spec_row_values(g),
            forall|k: int|
                0 <= k < rows@.len() ==> (#[trigger] rows@[k])@.columns == columns@.map_values(
                    |c: ColumnData| c@,
                ),
        decreases n - i,
    {
        proof {
            assert(g.skip(i as int)[0] == g[i as int]);
            assert(g[i as int] == tokens@[i as int]@);
            assert(g.skip(i as int).drop_first() =~= g.skip(i + 1));
        }
        match &tokens[i] {
            Token::Row { values } => {
                let ghost before = rows@.map_values(|r: Row| r@).map_values(
                    |row: RowV| row.values,
                );
                let row = Row {
                    values: clone_values(values),
                    columns: clone_columns(columns),
                };
                rows.push(row);
                proof {
                    assert(rows@.map_values(|r: Row| r@).map_values(|row: RowV| row.values)
                        =~= before + seq![tokens@[i as int]@->Row_values]);
                    assert(before + (seq![tokens@[i as int]@->Row_values] + spec_row_values(
                        g.skip(i + 1),
                    )) =~= (before + seq![tokens@[i as int]@->Row_values]) + spec_row_values(
                        g.skip(i + 1),
                    ));
                }
            },
            _ => {},
        }
        i = i + 1;
    }
    proof {
        assert(g.skip(n as int) =~= Seq::<TokenV>::empty());
        assert(rows@.map_values(|r: Row| r@).map_values(|row: RowV| row.values) + Seq::<
            Seq<ColumnValueV>,
        >::empty() =~= rows@.map_values(|r: Row| r@).map_values(|row: RowV| row.values));
    }
    Ok(QueryResult { rows: Some(rows) })
}

/// Copies a list of column values.
fn clone_values(vs: &Vec<ColumnValue>) -> (r: Vec<ColumnValue>)
    ensures
        r@.map_values(|v: ColumnValue| v@) == vs@.map_values(|v: ColumnValue| v@),
{
    let n = vs.len();
    let mut out: Vec<ColumnValue> = Vec::new();
    let mut i: usize = 0;
    while i < n
        invariant
            n == vs@.len(),
            i <= n,
            out@.len() == i,
            forall|k: int| 0 <= k < i ==> (#[trigger] out@[k])@ == vs@[k]@,
        decreases n - i,
    {
        out.push(vs[i].clone_value());
        i = i + 1;
    }
    assert(out@.map_values(|v: ColumnValue| v@) =~= vs@.map_values(|v: ColumnValue| v@));
    out
}


// ---------------------------------------------------------------------------
// Statements
// ---------------------------------------------------------------------------

/// Receives one logical response for a statement and decodes it as a token
/// stream. Only tabular-result messages are acceptable here.
pub fn read_statement_tokens<S: TargetStream>(conn: &mut InternalConnection<S>) -> (r: TdsResult<
    Vec<Token>,
>)
    requires
        old(conn).wf(),
    ensures
        final(conn).wf(),
        final(conn).state == old(conn).state,
        final(conn).spec_next_id() == old(conn).spec_next_id(),
        final(conn).spec_packet_size() == old(conn).spec_packet_size(),
        final(conn).opts.auth == old(conn).opts.auth,
        final(conn).opts.database == old(conn).opts.database,
        final(conn).sent == old(conn).sent,
        r matches Err(e) ==> e is Transport || e is Protocol,
        r matches Ok(ts) ==> ({
            &&& final(conn).received@.len() == old(conn).received@.len() + 1
            &&& final(conn).received@.drop_last() == old(conn).received@
            &&& final(conn).received@.last().0 == PacketKind::TabularResult
            &&& spec_dec_tokens(final(conn).received@.last().1) == Some(
                ts@.map_values(|t: Token| t@),
            )
        }),
{
    let (kind, body) = match conn.receive_message() {
        Ok(x) => x,
        Err(e) => {
            return Err(e);
        },
    };
    proof {
        assert(conn.received@.drop_last() =~= old(conn).received@);
        assert(conn.received@.last() == (kind, body@));
    }
    match kind {
        PacketKind::TabularResult => crate::tokens::decode_tokens(&body),
        _ => Err(TdsError::Protocol(ProtocolErrorKind::UnexpectedMessageType)),
    }
}

/// The server-assigned statement handle carried by a prepare response.
///
/// An error token takes precedence and surfaces as the server's error.
/// Otherwise the first return-value token named `handle` must carry a
/// present 32-bit integer, whose two's-complement carrier is the handle;
/// a response without such a token, or with a differently-shaped value,
/// is a protocol error.
pub fn handle_from_tokens(tokens: &Vec<Token>) -> (r: TdsResult<u32>)
    ensures
        ({
            let g = tokens@.map_values(|t: Token| t@);
            match r {
                Ok(h) => {
                    &&& spec_first_error(g) is None
                    &&& spec_first_return_value(g, spec_handle_param_name()) == Some(
                        ColumnValueV::Val(ColumnTypeV::I32(spec_u32_as_i32(h))),
                    )
                },
                Err(e) => match e {
                    TdsError::Server { code, message } => spec_first_error(g) == Some(
                        (code, message@),
                    ),
                    TdsError::Protocol(k) => {
                        &&& k == ProtocolErrorKind::MissingHandle
                        &&& spec_first_error(g) is None
                        &&& match spec_first_return_value(g, spec_handle_param_name()) {
                            None => true,
                            Some(v) => !(v matches ColumnValueV::Val(ColumnTypeV::I32(_))),
                        }
                    },
                    _ => false,
                },
            }
        }),
{
    match crate::tokens::catch_error(tokens) {
        Ok(()) => {},
        Err(e) => {
            return Err(e);
        },
    }
    let wanted = handle_param_name();
    match crate::tokens::first_return_value(tokens, &wanted) {
        Some(ColumnValue::Val(ColumnType::I32(h))) => {
            proof {
                crate::bytesutil::lemma_i32_u32_roundtrip(h);
            }
            Ok(crate::bytesutil::i32_as_u32(h))
        },
        _ => Err(TdsError::Protocol(ProtocolErrorKind::MissingHandle)),
    }
}

/// A parameter list fits an execute request when it leaves room for the
/// bookkeeping parameters in the 16-bit count and every value fits the
/// wire form.
pub open spec fn spec_params_fit(ts: Seq<ColumnTypeV>) -> bool {
    ts.len() < 0xFFFD && (forall|i: int| 0 <= i < ts.len() ==> (#[trigger] ts[i]).wf())
}

/// Checks that a parameter list fits an execute request.
fn params_fit(params: &Vec<ColumnType>) -> (r: bool)
    ensures
        r <==> spec_params_fit(params@.map_values(|t: ColumnType| t@)),
{
    let ghost g = params@.map_values(|t: ColumnType| t@);
    let n = params.len();
    if n >= 0xFFFD {
        return false;
    }
    let mut i: usize = 0;
    while i < n
        invariant
            n == params@.len() < 0xFFFD,
            i <= n,
            g == params@.map_values(|t: ColumnType| t@),
            forall|k: int| 0 <= k < i ==> (#[trigger] g[k]).wf(),
        decreases n - i,
    {
        proof {
            assert(g[i as int] == params@[i as int]@);
        }
        let fits = match &params[i] {
            ColumnType::VarChar(b) => b.len() <= 0xFFFF,
            ColumnType::I32(_) => true,
        };
        if !fits {
            return false;
        }
        i = i + 1;
    }
    true
}

/// The positional parameters `@P1`, `@P2`, ... carrying the given values
/// in call order.
pub open spec fn spec_positional_params(ts: Seq<ColumnTypeV>) -> Seq<RpcParamDataV> {
    Seq::new(
        ts.len(),
        |i: int|
            RpcParamDataV {
                name: spec_positional_name((i + 1) as nat),
                status_flags: 0,
                value: ts[i],
            },
    )
}

/// The prepare request for a statement: the prepare procedure by number,
/// no flags, and the output-bound handle placeholder, the textual
/// parameter signature and the statement text, in that order.
pub open spec fn spec_prepare_request(sql: Seq<u8>, ts: Seq<ColumnTypeV>) -> RpcRequestDataV {
    RpcRequestDataV {
        proc_id: RpcProcIdValueV::Id(RpcProcId::SpPrepare),
        flags: 0,
        params: seq![
            RpcParamDataV {
                name: spec_handle_param_name(),
                status_flags: BY_REF_VALUE,
                value: ColumnTypeV::I32(0),
            },
            RpcParamDataV {
                name: spec_params_param_name(),
                status_flags: 0,
                value: ColumnTypeV::VarChar(spec_param_signature(ts)),
            },
            RpcParamDataV {
                name: spec_stmt_param_name(),
                status_flags: 0,
                value: ColumnTypeV::VarChar(sql),
            },
        ],
    }
}

/// The execute request for a prepared statement: the execute procedure by
/// name, metadata suppressed, the cached handle by reference, then the
/// arguments under their positional names.
pub open spec fn spec_execute_request(handle: u32, ts: Seq<ColumnTypeV>) -> RpcRequestDataV {
    RpcRequestDataV {
        proc_id: RpcProcIdValueV::Name(spec_sp_execute_name()),
        flags: NO_METADATA,
        params: seq![
            RpcParamDataV {
                name: spec_handle_param_name(),
                status_flags: BY_REF_VALUE,
                value: ColumnTypeV::I32(spec_u32_as_i32(handle)),
            },
        ] + spec_positional_params(ts),
    }
}

/// The ad-hoc execute request: the execute-SQL-text procedure by number,
/// no flags, the statement text and the explicit signature string, then
/// the arguments under their positional names. No handle is ever sent.
pub open spec fn spec_execute_sql_request(
    sql: Seq<u8>,
    meta: Seq<u8>,
    ts: Seq<ColumnTypeV>,
) -> RpcRequestDataV {
    RpcRequestDataV {
        proc_id: RpcProcIdValueV::Id(RpcProcId::SpExecuteSql),
        flags: 0,
        params: seq![
            RpcParamDataV {
                name: spec_stmt_param_name(),
                status_flags: 0,
                value: ColumnTypeV::VarChar(sql),
            },
            RpcParamDataV {
                name: spec_params_param_name(),
                status_flags: 0,
                value: ColumnTypeV::VarChar(meta),
            },
        ] + spec_positional_params(ts),
    }
}

/// A positional name is never longer than seven bytes: `@P` and at most
/// five digits for an index below the parameter-count bound.
proof fn lemma_positional_name_len(i: nat)
    requires
        i < 100000,
    ensures
        spec_positional_name(i).len() <= 7,
{
    reveal_with_fuel(spec_pow10, 6);
    assert(spec_pow10(5nat) == 100000);
    lemma_decimal_len(i, 5);
}

/// A one-shot statement: SQL text sent as a plain batch, metadata gathered
/// from its own response.
pub struct StatementInternal {
    /// The SQL text.
    pub query: Vec<u8>,
    /// The metadata discovered from the response.
    pub stmt: StatementInfo,
}

impl StatementInternal {
    /// A fresh one-shot statement around the given SQL text.
    pub fn new(query: &str) -> (r: StatementInternal)
        ensures
            r.query@ == query.spec_bytes(),
            r.stmt.handle is None,
            r.stmt.column_infos@.len() == 0,
    {
        StatementInternal {
            query: slice_to_vec(query.as_bytes()),
            stmt: StatementInfo::new(),
        }
    }

    /// Executes the statement and materializes the row-bearing result.
    pub fn execute_into_query<S: TargetStream>(self, conn: &mut InternalConnection<S>) -> (r:
        TdsResult<QueryResult>)
        requires
            old(conn).wf(),
            old(conn).state == ClientState::Ready,
        ensures
            final(conn).wf(),
            final(conn).state == ClientState::Ready,
            final(conn).spec_packet_size() == old(conn).spec_packet_size(),
            final(conn).opts.auth == old(conn).opts.auth,
            final(conn).opts.database == old(conn).opts.database,
            r is Ok ==> final(conn).sent@ == old(conn).sent@ + seq![
                (PacketKind::SqlBatch, self.query@),
            ],
    {
        let mut this = self;
        match conn.send_packet(PacketKind::SqlBatch, &this.query) {
            Ok(()) => {},
            Err(e) => {
                return Err(e);
            },
        }
        let tokens = match read_statement_tokens(conn) {
            Ok(ts) => ts,
            Err(e) => {
                return Err(e);
            },
        };
        apply_metadata(&mut this.stmt, &tokens);
        handle_query_packet(&tokens, &this.stmt.column_infos)
    }

    /// Executes the statement and returns the affected-row count of its
    /// completion-only response.
    pub fn execute<S: TargetStream>(&mut self, conn: &mut InternalConnection<S>) -> (r: TdsResult<
        usize,
    >)
        requires
            old(conn).wf(),
            old(conn).state == ClientState::Ready,
        ensures
            final(conn).wf(),
            final(conn).state == ClientState::Ready,
            final(conn).spec_packet_size() == old(conn).spec_packet_size(),
            final(conn).opts.auth == old(conn).opts.auth,
            final(conn).opts.database == old(conn).opts.database,
            r is Ok ==> final(conn).sent@ == old(conn).sent@ + seq![
                (PacketKind::SqlBatch, old(self).query@),
            ],
    {
        match conn.send_packet(PacketKind::SqlBatch, &self.query) {
            Ok(()) => {},
            Err(e) => {
                return Err(e);
            },
        }
        let tokens = match read_statement_tokens(conn) {
            Ok(ts) => ts,
            Err(e) => {
                return Err(e);
            },
        };
        handle_execute_packet(&tokens)
    }
}

/// The effect of one successful execution of a prepared statement on its
/// handle and its count of prepare requests: a statement without a handle
/// prepares exactly once and gains one; a statement with a handle keeps it
/// and prepares nothing.
pub open spec fn spec_prepared_step(
    pre_handle: Option<u32>,
    pre_count: nat,
    post_handle: Option<u32>,
    post_count: nat,
) -> bool {
    &&& post_count == pre_count + (if pre_handle is Some {
        0int
    } else {
        1int
    })
    &&& (pre_handle is Some ==> post_handle == pre_handle)
    &&& post_handle is Some
}

/// Handle reuse: across any run of N successful executions of one prepared
/// statement (N >= 1) starting without a handle, exactly one prepare
/// request is ever issued, and every execution after the first sees the
/// same cached handle value.
///
/// `states` holds the statement's (handle, prepare-request count) before
/// the first execution and after each one; consecutive entries are related
/// by `spec_prepared_step`, which `query` guarantees on success.
pub proof fn lemma_prepare_once(states: Seq<(Option<u32>, nat)>)
    requires
        states.len() >= 2,
        states[0].0 is None,
        forall|j: int|
            1 <= j < states.len() ==> spec_prepared_step(
                states[j - 1].0,
                states[j - 1].1,
                (#[trigger] states[j]).0,
                states[j].1,
            ),
    ensures
        forall|i: int| 1 <= i < states.len() ==> (#[trigger] states[i]).1 == states[0].1 + 1,
        forall|i: int|
            1 <= i < states.len() ==> (#[trigger] states[i]).0 == states[1].0 && states[i].0
                is Some,
{
    assert forall|i: int|
        1 <= i < states.len() implies (#[trigger] states[i]).1 == states[0].1 + 1 && states[i].0
        == states[1].0 && states[i].0 is Some by {
        lemma_prepare_once_at(states, i);
    }
}

/// One point of the handle-reuse law, by induction on the run's length.
proof fn lemma_prepare_once_at(states: Seq<(Option<u32>, nat)>, i: int)
    requires
        states.len() >= 2,
        states[0].0 is None,
        1 <= i < states.len(),
        forall|j: int|
            1 <= j < states.len() ==> spec_prepared_step(
                states[j - 1].0,
                states[j - 1].1,
                (#[trigger] states[j]).0,
                states[j].1,
            ),
    ensures
        states[i].1 == states[0].1 + 1,
        states[i].0 == states[1].0,
        states[i].0 is Some,
    decreases i,
{
    if i == 1 {
        assert(spec_prepared_step(states[0].0, states[0].1, states[1].0, states[1].1));
    } else {
        lemma_prepare_once_at(states, i - 1);
        assert(spec_prepared_step(states[i - 1].0, states[i - 1].1, states[i].0, states[i].1));
    }
}

/// A statement prepared on the server and executed through a cached
/// handle. The prepare step runs lazily, at most once per statement
/// lifetime.
pub struct PreparedStatement {
    /// The SQL text.
    pub sql: Vec<u8>,
    /// The metadata and, once prepared, the server-assigned handle.
    pub stmt: StatementInfo,
    /// How many prepare requests this statement has issued.
    pub prepare_calls: Ghost<nat>,
}

impl PreparedStatement {
    /// A fresh prepared statement around the given SQL text: no handle
    /// yet, no column metadata, no prepare request issued.
    pub fn new(sql: &str) -> (r: TdsResult<PreparedStatement>)
        ensures
            r matches Ok(p) && p.sql@ == sql.spec_bytes() && p.stmt.handle is None
                && p.stmt.column_infos@.len() == 0 && p.prepare_calls@ == 0,
    {
        Ok(
            PreparedStatement {
                sql: slice_to_vec(sql.as_bytes()),
                stmt: StatementInfo::new(),
                prepare_calls: Ghost(0nat),
            },
        )
    }

    /// The prepare step: sends exactly one prepare request — the prepare
    /// procedure by number with the output-bound handle placeholder, the
    /// textual parameter signature and the statement text — and caches the
    /// handle the response returns by name.
    ///
    /// On success the cached handle is exactly the integer carried by the
    /// response's `handle` return value; on failure the handle is left
    /// untouched.
    fn do_prepare<S: TargetStream>(
        &mut self,
        conn: &mut InternalConnection<S>,
        params: &Vec<ColumnType>,
    ) -> (r: TdsResult<()>)
        requires
            old(conn).wf(),
            old(conn).state == ClientState::Ready,
            params@.len() < 0x1_0000_0000,
        ensures
            final(conn).wf(),
            final(conn).state == ClientState::Ready,
            final(conn).spec_packet_size() == old(conn).spec_packet_size(),
            final(conn).opts.auth == old(conn).opts.auth,
            final(conn).opts.database == old(conn).opts.database,
            final(self).sql == old(self).sql,
            final(self).prepare_calls@ == old(self).prepare_calls@ + 1,
            r is Ok ==> final(conn).sent@ == old(conn).sent@ + seq![
                (
                    PacketKind::RpcRequest,
                    spec_enc_rpc_request(
                        spec_prepare_request(
                            old(self).sql@,
                            params@.map_values(|t: ColumnType| t@),
                        ),
                    ),
                ),
            ],
            r is Err ==> final(conn).sent@ == old(conn).sent@ || final(conn).sent@ == old(
                conn,
            ).sent@ + seq![
                (
                    PacketKind::RpcRequest,
                    spec_enc_rpc_request(
                        spec_prepare_request(
                            old(self).sql@,
                            params@.map_values(|t: ColumnType| t@),
                        ),
                    ),
                ),
            ],
            r matches Err(TdsError::Contract) <==> (spec_param_signature(
                params@.map_values(|t: ColumnType| t@),
            ).len() > 0xFFFF || old(self).sql@.len() > 0xFFFF),
            r is Err ==> final(self).stmt.handle == old(self).stmt.handle,
            r is Ok ==> ({
                &&& final(self).stmt.handle matches Some(h)
                &&& final(conn).received@.len() == old(conn).received@.len() + 1
                &&& final(conn).received@.drop_last() == old(conn).received@
                &&& spec_dec_tokens(final(conn).received@.last().1) matches Some(g)
                    && spec_first_error(g) is None && spec_first_return_value(
                    g,
                    spec_handle_param_name(),
                ) == Some(ColumnValueV::Val(ColumnTypeV::I32(spec_u32_as_i32(h))))
            }),
    {
        let ghost bumped = self.prepare_calls@ + 1;
        self.prepare_calls = Ghost(bumped);
        let ghost g_params = params@.map_values(|t: ColumnType| t@);
        let param_sig = build_param_signature(params);
        if param_sig.len() > 0xFFFF || self.sql.len() > 0xFFFF {
            return Err(TdsError::Contract);
        }
        let mut params_meta: Vec<RpcParamData> = Vec::new();
        params_meta.push(
            RpcParamData {
                name: handle_param_name(),
                status_flags: BY_REF_VALUE,
                value: ColumnType::I32(0),
            },
        );
        params_meta.push(
            RpcParamData {
                name: params_param_name(),
                status_flags: 0,
                value: ColumnType::VarChar(param_sig),
            },
        );
        params_meta.push(
            RpcParamData {
                name: stmt_param_name(),
                status_flags: 0,
                value: ColumnType::VarChar(self.sql.clone()),
            },
        );
        let rpc_req = RpcRequestData {
            proc_id: RpcProcIdValue::Id(RpcProcId::SpPrepare),
            flags: 0,
            params: params_meta,
        };
        assert(rpc_req.wf());
        proof {
            assert(rpc_req@.params =~= spec_prepare_request(old(self).sql@, g_params).params);
            assert(rpc_req@ == spec_prepare_request(old(self).sql@, g_params));
        }
        let body = rpc_req.encode();
        match conn.send_packet(PacketKind::RpcRequest, &body) {
            Ok(()) => {},
            Err(e) => {
                return Err(e);
            },
        }
        let tokens = match read_statement_tokens(conn) {
            Ok(ts) => ts,
            Err(e) => {
                return Err(e);
            },
        };
        apply_metadata(&mut self.stmt, &tokens);
        match handle_from_tokens(&tokens) {
            Ok(h) => {
                self.stmt.handle = Some(h);
                Ok(())
            },
            Err(e) => Err(e),
        }
    }

    /// The execute step: sends exactly one execute request — the execute
    /// procedure by name, metadata suppressed, the cached handle by
    /// reference, then each argument under its positional name.
    fn do_internal_exec<S: TargetStream>(
        &self,
        conn: &mut InternalConnection<S>,
        params: &Vec<ColumnType>,
    ) -> (r: TdsResult<()>)
        requires
            old(conn).wf(),
            old(conn).state == ClientState::Ready,
            self.stmt.handle is Some,
        ensures
            final(conn).wf(),
            final(conn).state == ClientState::Ready,
            final(conn).spec_packet_size() == old(conn).spec_packet_size(),
            final(conn).opts.auth == old(conn).opts.auth,
            final(conn).opts.database == old(conn).opts.database,
            final(conn).received == old(conn).received,
            r matches Err(e) ==> (e is Transport || e is Contract) && final(conn).sent@ == old(
                conn,
            ).sent@,
            r matches Err(TdsError::Contract) <==> !spec_params_fit(
                params@.map_values(|t: ColumnType| t@),
            ),
            r is Ok ==> (self.stmt.handle matches Some(h) && final(conn).sent@ == old(
                conn,
            ).sent@ + seq![
                (
                    PacketKind::RpcRequest,
                    spec_enc_rpc_request(
                        spec_execute_request(h, params@.map_values(|t: ColumnType| t@)),
                    ),
                ),
            ]),
    {
        let ghost g_params = params@.map_values(|t: ColumnType| t@);
        if !params_fit(params) {
            return Err(TdsError::Contract);
        }
        let handle = match self.stmt.handle {
            Some(h) => h,
            None => {
                proof {
                    assert(false);
                }
                return Err(TdsError::Transport);
            },
        };
        let params_meta = build_positional_params(handle, params);
        let rpc_req = RpcRequestData {
            proc_id: RpcProcIdValue::Name(sp_execute_name()),
            flags: NO_METADATA,
            params: params_meta,
        };
        assert(rpc_req.wf());
        proof {
            assert(rpc_req@.params =~= spec_execute_request(handle, g_params).params);
            assert(rpc_req@ == spec_execute_request(handle, g_params));
        }
        let body = rpc_req.encode();
        match conn.send_packet(PacketKind::RpcRequest, &body) {
            Ok(()) => {},
            Err(e) => {
                return Err(e);
            },
        }
        Ok(())
    }

    /// Prepares lazily, then executes and materializes the result rows.
    ///
    /// On success the statement's handle and prepare count take one
    /// `spec_prepared_step` — the handle is requested at most once per
    /// statement lifetime, later executions reusing the cached value — and
    /// the connection has sent the prepare request (first execution only)
    /// followed by the execute request carrying the cached handle.
    pub fn query<S: TargetStream>(
        &mut self,
        conn: &mut InternalConnection<S>,
        params: &Vec<ColumnType>,
    ) -> (r: TdsResult<QueryResult>)
        requires
            old(conn).wf(),
            old(conn).state == ClientState::Ready,
            params@.len() < 0x1_0000_0000,
        ensures
            final(conn).wf(),
            final(conn).state == ClientState::Ready,
            final(conn).spec_packet_size() == old(conn).spec_packet_size(),
            final(conn).opts.auth == old(conn).opts.auth,
            final(conn).opts.database == old(conn).opts.database,
            final(self).sql == old(self).sql,
            r is Ok ==> spec_prepared_step(
                old(self).stmt.handle,
                old(self).prepare_calls@,
                final(self).stmt.handle,
                final(self).prepare_calls@,
            ),
            old(self).stmt.handle is Some ==> final(self).stmt.handle == old(self).stmt.handle
                && final(self).prepare_calls@ == old(self).prepare_calls@,
            old(self).prepare_calls@ <= final(self).prepare_calls@ <= old(self).prepare_calls@
                + 1,
            r matches Err(TdsError::Contract) ==> (spec_param_signature(
                params@.map_values(|t: ColumnType| t@),
            ).len() > 0xFFFF || old(self).sql@.len() > 0xFFFF || !spec_params_fit(
                params@.map_values(|t: ColumnType| t@),
            )),
            r is Ok ==> (final(self).stmt.handle matches Some(h) && final(conn).sent@ == old(
                conn,
            ).sent@ + (if old(self).stmt.handle is Some {
                Seq::<(PacketKind, Seq<u8>)>::empty()
            } else {
                seq![
                    (
                        PacketKind::RpcRequest,
                        spec_enc_rpc_request(
                            spec_prepare_request(
                                old(self).sql@,
                                params@.map_values(|t: ColumnType| t@),
                            ),
                        ),
                    ),
                ]
            }) + seq![
                (
                    PacketKind::RpcRequest,
                    spec_enc_rpc_request(
                        spec_execute_request(h, params@.map_values(|t: ColumnType| t@)),
                    ),
                ),
            ]),
    {
        let ghost g_params = params@.map_values(|t: ColumnType| t@);
        let need_prepare = match self.stmt.handle {
            Some(_) => false,
            None => true,
        };
        if need_prepare {
            match self.do_prepare(conn, params) {
                Ok(()) => {},
                Err(e) => {
                    return Err(e);
                },
            }
        }
        match self.do_internal_exec(conn, params) {
            Ok(()) => {},
            Err(e) => {
                return Err(e);
            },
        }
        proof {
            if need_prepare {
                assert(conn.sent@ =~= old(conn).sent@ + seq![
                    (
                        PacketKind::RpcRequest,
                        spec_enc_rpc_request(spec_prepare_request(old(self).sql@, g_params)),
                    ),
                ] + seq![
                    (
                        PacketKind::RpcRequest,
                        spec_enc_rpc_request(
                            spec_execute_request(self.stmt.handle.unwrap(), g_params),
                        ),
                    ),
                ]);
            } else {
                assert(conn.sent@ =~= old(conn).sent@ + Seq::<(PacketKind, Seq<u8>)>::empty()
                    + seq![
                    (
                        PacketKind::RpcRequest,
                        spec_enc_rpc_request(
                            spec_execute_request(self.stmt.handle.unwrap(), g_params),
                        ),
                    ),
                ]);
            }
        }
        let tokens = match read_statement_tokens(conn) {
            Ok(ts) => ts,
            Err(e) => {
                return Err(e);
            },
        };
        apply_metadata(&mut self.stmt, &tokens);
        handle_query_packet(&tokens, &self.stmt.column_infos)
    }
}

/// Builds the parameter list of an execute request: the handle passed by
/// reference, then each argument under its positional name `@P<n>`.
fn build_positional_params(handle: u32, params: &Vec<ColumnType>) -> (r: Vec<RpcParamData>)
    requires
        spec_params_fit(params@.map_values(|t: ColumnType| t@)),
    ensures
        r@.map_values(|p: RpcParamData| p@) == seq![
            RpcParamDataV {
                name: spec_handle_param_name(),
                status_flags: BY_REF_VALUE,
                value: ColumnTypeV::I32(spec_u32_as_i32(handle)),
            },
        ] + spec_positional_params(params@.map_values(|t: ColumnType| t@)),
        r@.len() == params@.len() + 1,
        forall|k: int| 0 <= k < r@.len() ==> (#[trigger] r@[k]).wf(),
{
    let ghost g = params@.map_values(|t: ColumnType| t@);
    let mut out: Vec<RpcParamData> = Vec::new();
    out.push(
        RpcParamData {
            name: handle_param_name(),
            status_flags: BY_REF_VALUE,
            value: ColumnType::I32(crate::bytesutil::u32_as_i32(handle)),
        },
    );
    let n = params.len();
    let mut i: usize = 0;
    while i < n
        invariant
            n == params@.len(),
            i <= n,
            g == params@.map_values(|t: ColumnType| t@),
            spec_params_fit(g),
            out@.len() == i + 1,
            out@[0]@ == (RpcParamDataV {
                name: spec_handle_param_name(),
                status_flags: BY_REF_VALUE,
                value: ColumnTypeV::I32(spec_u32_as_i32(handle)),
            }),
            forall|k: int| 1 <= k <= i ==> (#[trigger] out@[k])@ == spec_positional_params(g)[k
                - 1],
            forall|k: int| 0 <= k < out@.len() ==> (#[trigger] out@[k]).wf(),
        decreases n - i,
    {
        let name = positional_name((i as u32) + 1);
        proof {
            lemma_positional_name_len((i + 1) as nat);
            assert(g[i as int] == params@[i as int]@);
        }
        let value = params[i].clone_type();
        out.push(RpcParamData { name, status_flags: 0, value });
        i = i + 1;
        proof {
            assert(out@[i as int]@ == spec_positional_params(g)[i - 1]);
        }
    }
    proof {
        assert(out@.map_values(|p: RpcParamData| p@) =~= seq![
            RpcParamDataV {
                name: spec_handle_param_name(),
                status_flags: BY_REF_VALUE,
                value: ColumnTypeV::I32(spec_u32_as_i32(handle)),
            },
        ] + spec_positional_params(g));
    }
    out
}

/// An ad-hoc parameterized statement executed through the execute-SQL-text
/// procedure: no server-side handle, no caching.
pub struct ParameterizedStatement {
    /// The SQL text.
    pub sql: Vec<u8>,
    /// An optional pre-computed parameter-signature string.
    pub parameter_meta: Option<Vec<u8>>,
    /// The metadata discovered from responses.
    pub stmt: StatementInfo,
}

impl ParameterizedStatement {
    /// A fresh parameterized statement around the given SQL text: no
    /// handle, no column metadata. This statement kind never acquires a
    /// server-side handle.
    pub fn new(sql: &str, parameter_meta: Option<&str>) -> (r: TdsResult<ParameterizedStatement>)
        ensures
            r matches Ok(p) && p.sql@ == sql.spec_bytes() && p.stmt.handle is None
                && p.stmt.column_infos@.len() == 0 && match (p.parameter_meta, parameter_meta) {
                (Some(m), Some(given)) => m@ == given.spec_bytes(),
                (None, None) => true,
                _ => false,
            },
    {
        let meta = match parameter_meta {
            Some(m) => Some(slice_to_vec(m.as_bytes())),
            None => None,
        };
        Ok(
            ParameterizedStatement {
                sql: slice_to_vec(sql.as_bytes()),
                parameter_meta: meta,
                stmt: StatementInfo::new(),
            },
        )
    }

    /// Sends exactly one execute-SQL-text request: the procedure by
    /// number, the statement text, the explicit parameter-signature
    /// string, then each argument under its positional name. No handle
    /// parameter is ever sent.
    fn do_internal_exec<S: TargetStream>(
        &self,
        conn: &mut InternalConnection<S>,
        param_meta: &str,
        params: &Vec<ColumnType>,
    ) -> (r: TdsResult<()>)
        requires
            old(conn).wf(),
            old(conn).state == ClientState::Ready,
        ensures
            final(conn).wf(),
            final(conn).state == ClientState::Ready,
            final(conn).spec_packet_size() == old(conn).spec_packet_size(),
            final(conn).opts.auth == old(conn).opts.auth,
            final(conn).opts.database == old(conn).opts.database,
            final(conn).received == old(conn).received,
            r matches Err(e) ==> (e is Transport || e is Contract) && final(conn).sent@ == old(
                conn,
            ).sent@,
            r matches Err(TdsError::Contract) <==> (self.sql@.len() > 0xFFFF
                || param_meta.spec_bytes().len() > 0xFFFF || !spec_params_fit(
                params@.map_values(|t: ColumnType| t@),
            )),
            r is Ok ==> final(conn).sent@ == old(conn).sent@ + seq![
                (
                    PacketKind::RpcRequest,
                    spec_enc_rpc_request(
                        spec_execute_sql_request(
                            self.sql@,
                            param_meta.spec_bytes(),
                            params@.map_values(|t: ColumnType| t@),
                        ),
                    ),
                ),
            ],
    {
        let ghost g = params@.map_values(|t: ColumnType| t@);
        let meta_bytes = slice_to_vec(param_meta.as_bytes());
        if self.sql.len() > 0xFFFF || meta_bytes.len() > 0xFFFF || !params_fit(params) {
            return Err(TdsError::Contract);
        }
        let mut params_meta: Vec<RpcParamData> = Vec::new();
        params_meta.push(
            RpcParamData {
                name: stmt_param_name(),
                status_flags: 0,
                value: ColumnType::VarChar(self.sql.clone()),
            },
        );
        params_meta.push(
            RpcParamData {
                name: params_param_name(),
                status_flags: 0,
                value: ColumnType::VarChar(meta_bytes),
            },
        );
        let n = params.len();
        let mut i: usize = 0;
        while i < n
            invariant
                n == params@.len(),
                i <= n,
                g == params@.map_values(|t: ColumnType| t@),
                spec_params_fit(g),
                params_meta@.len() == i + 2,
                params_meta@[0]@ == (RpcParamDataV {
                    name: spec_stmt_param_name(),
                    status_flags: 0,
                    value: ColumnTypeV::VarChar(self.sql@),
                }),
                params_meta@[1]@ == (RpcParamDataV {
                    name: spec_params_param_name(),
                    status_flags: 0,
                    value: ColumnTypeV::VarChar(param_meta.spec_bytes()),
                }),
                forall|k: int| 2 <= k < i + 2 ==> (#[trigger] params_meta@[k])@
                    == spec_positional_params(g)[k - 2],
                forall|k: int| 0 <= k < params_meta@.len() ==> (#[trigger] params_meta@[k]).wf(),
            decreases n - i,
        {
            let name = positional_name((i as u32) + 1);
            proof {
                lemma_positional_name_len((i + 1) as nat);
                assert(g[i as int] == params@[i as int]@);
            }
            let value = params[i].clone_type();
            params_meta.push(RpcParamData { name, status_flags: 0, value });
            i = i + 1;
            proof {
                assert(params_meta@[i + 1]@ == spec_positional_params(g)[i - 1]);
            }
        }
        let rpc_req = RpcRequestData {
            proc_id: RpcProcIdValue::Id(RpcProcId::SpExecuteSql),
            flags: 0,
            params: params_meta,
        };
        assert(rpc_req.wf());
        proof {
            assert(rpc_req@.params =~= spec_execute_sql_request(
                self.sql@,
                param_meta.spec_bytes(),
                g,
            ).params);
            assert(rpc_req@ == spec_execute_sql_request(self.sql@, param_meta.spec_bytes(), g));
        }
        let body = rpc_req.encode();
        match conn.send_packet(PacketKind::RpcRequest, &body) {
            Ok(()) => {},
            Err(e) => {
                return Err(e);
            },
        }
        Ok(())
    }

    /// Executes ad hoc and materializes the result rows, decoding the
    /// response exactly as the prepared-execute path does. The statement
    /// never gains a handle.
    pub fn query<S: TargetStream>(
        &mut self,
        conn: &mut InternalConnection<S>,
        param_meta: &str,
        params: &Vec<ColumnType>,
    ) -> (r: TdsResult<QueryResult>)
        requires
            old(conn).wf(),
            old(conn).state == ClientState::Ready,
        ensures
            final(conn).wf(),
            final(conn).state == ClientState::Ready,
            final(conn).spec_packet_size() == old(conn).spec_packet_size(),
            final(conn).opts.auth == old(conn).opts.auth,
            final(conn).opts.database == old(conn).opts.database,
            final(self).stmt.handle == old(self).stmt.handle,
            final(self).sql == old(self).sql,
            r matches Err(TdsError::Contract) ==> (old(self).sql@.len() > 0xFFFF
                || param_meta.spec_bytes().len() > 0xFFFF || !spec_params_fit(
                params@.map_values(|t: ColumnType| t@),
            )),
            r is Ok ==> final(conn).sent@ == old(conn).sent@ + seq![
                (
                    PacketKind::RpcRequest,
                    spec_enc_rpc_request(
                        spec_execute_sql_request(
                            old(self).sql@,
                            param_meta.spec_bytes(),
                            params@.map_values(|t: ColumnType| t@),
                        ),
                    ),
                ),
            ],
    {
        match self.do_internal_exec(conn, param_meta, params) {
            Ok(()) => {},
            Err(e) => {
                return Err(e);
            },
        }
        let tokens = match read_statement_tokens(conn) {
            Ok(ts) => ts,
            Err(e) => {
                return Err(e);
            },
        };
        apply_metadata(&mut self.stmt, &tokens);
        handle_query_packet(&tokens, &self.stmt.column_infos)
    }
}

} // verus!
