//! Remote-procedure-call requests: a procedure identified by number or
//! name, request flags, and ordered named parameters, each carrying a name,
//! status flags and an encoded value.

use vstd::prelude::*;

use crate::bytesutil::{push_bytes, push_u16_le, spec_u16_le};
use crate::tokens::{spec_enc_value, ColumnType, ColumnTypeV, ColumnValue, ColumnValueV};

verus! {

/// Parameter status flag: the parameter is passed by reference, its value
/// bound for output.
pub const BY_REF_VALUE: u8 = 0x01;

/// Request flag: suppress metadata in the response, types being already
/// established.
pub const NO_METADATA: u16 = 0x02;

/// The well-known procedures invoked by number.
#[derive(Clone, Copy, Debug, PartialEq, Eq, Structural)]
pub enum RpcProcId {
    /// Ad-hoc parameterized execution of SQL text.
    SpExecuteSql,
    /// Assigns a reusable handle to a parameterized statement.
    SpPrepare,
}

impl RpcProcId {
    /// The wire number of this procedure.
    pub open spec fn spec_to_u16(self) -> u16 {
        match self {
            RpcProcId::SpExecuteSql => 10,
            RpcProcId::SpPrepare => 11,
        }
    }

    /// Encodes this procedure as its wire number.
    pub fn to_u16(self) -> (r: u16)
        ensures
            r == self.spec_to_u16(),
    {
        match self {
            RpcProcId::SpExecuteSql => 10,
            RpcProcId::SpPrepare => 11,
        }
    }
}

/// The procedure a request invokes: a well-known number or a name.
#[derive(Clone, Debug)]
pub enum RpcProcIdValue {
    /// A well-known procedure number.
    Id(RpcProcId),
    /// A procedure name.
    Name(Vec<u8>),
}

/// The mathematical image of an [`RpcProcIdValue`].
pub enum RpcProcIdValueV {
    Id(RpcProcId),
    Name(Seq<u8>),
}

impl View for RpcProcIdValue {
    type V = RpcProcIdValueV;

    open spec fn view(&self) -> RpcProcIdValueV {
        match self {
            RpcProcIdValue::Id(id) => RpcProcIdValueV::Id(*id),
            RpcProcIdValue::Name(n) => RpcProcIdValueV::Name(n@),
        }
    }
}

/// One named parameter of a remote-procedure call.
#[derive(Clone, Debug)]
pub struct RpcParamData {
    pub name: Vec<u8>,
    pub status_flags: u8,
    pub value: ColumnType,
}

/// The mathematical image of an [`RpcParamData`].
pub struct RpcParamDataV {
    pub name: Seq<u8>,
    pub status_flags: u8,
    pub value: ColumnTypeV,
}

impl View for RpcParamData {
    type V = RpcParamDataV;

    open spec fn view(&self) -> RpcParamDataV {
        RpcParamDataV {
            name: self.name@,
            status_flags: self.status_flags,
            value: self.value@,
        }
    }
}

/// A whole remote-procedure-call request.
#[derive(Clone, Debug)]
pub struct RpcRequestData {
    pub proc_id: RpcProcIdValue,
    pub flags: u16,
    pub params: Vec<RpcParamData>,
}

/// The mathematical image of an [`RpcRequestData`].
pub struct RpcRequestDataV {
    pub proc_id: RpcProcIdValueV,
    pub flags: u16,
    pub params: Seq<RpcParamDataV>,
}

impl View for RpcRequestData {
    type V = RpcRequestDataV;

    open spec fn view(&self) -> RpcRequestDataV {
        RpcRequestDataV {
            proc_id: self.proc_id@,
            flags: self.flags,
            params: self.params@.map_values(|p: RpcParamData| p@),
        }
    }
}

/// The procedure identifier in wire form: a tag byte, then the number or
/// the length-prefixed name.
pub open spec fn spec_enc_proc_id(p: RpcProcIdValueV) -> Seq<u8> {
    match p {
        RpcProcIdValueV::Id(id) => seq![0x00u8] + spec_u16_le(id.spec_to_u16()),
        RpcProcIdValueV::Name(n) => seq![0x01u8] + spec_u16_le(n.len() as u16) + n,
    }
}

/// One parameter in wire form: length-prefixed name, status flags, value.
pub open spec fn spec_enc_param(p: RpcParamDataV) -> Seq<u8> {
    spec_u16_le(p.name.len() as u16) + p.name + seq![p.status_flags] + spec_enc_value(
        ColumnValueV::Val(p.value),
    )
}

/// A run of parameters in wire form, in order.
pub open spec fn spec_enc_params(ps: Seq<RpcParamDataV>) -> Seq<u8>
    decreases ps.len(),
{
    if ps.len() == 0 {
        Seq::empty()
    } else {
        spec_enc_param(ps[0]) + spec_enc_params(ps.drop_first())
    }
}

/// A whole request in wire form: procedure identifier, flags, parameter
/// count, then the parameters.
pub open spec fn spec_enc_rpc_request(r: RpcRequestDataV) -> Seq<u8> {
    spec_enc_proc_id(r.proc_id) + spec_u16_le(r.flags) + spec_u16_le(r.params.len() as u16)
        + spec_enc_params(r.params)
}

impl RpcParamData {
    /// A parameter fits the wire form when its name and value do.
    pub open spec fn wf(self) -> bool {
        self.name@.len() <= u16::MAX && self.value.wf()
    }
}

impl RpcRequestData {
    /// A request fits the wire form when its name, count and parameters do.
    pub open spec fn wf(self) -> bool {
        &&& match self.proc_id {
            RpcProcIdValue::Name(n) => n@.len() <= u16::MAX,
            _ => true,
        }
        &&& self.params@.len() <= u16::MAX
        &&& forall|i: int| 0 <= i < self.params@.len() ==> (#[trigger] self.params@[i]).wf()
    }

    /// Encodes this request into its wire form.
    pub fn encode(&self) -> (r: Vec<u8>)
        requires
            self.wf(),
        ensures
            r@ == spec_enc_rpc_request(self@),
    {
        let mut out: Vec<u8> = Vec::new();
        match &self.proc_id {
            RpcProcIdValue::Id(id) => {
                out.push(0x00);
                push_u16_le(&mut out, id.to_u16());
            },
            RpcProcIdValue::Name(n) => {
                out.push(0x01);
                push_u16_le(&mut out, n.len() as u16);
                push_bytes(&mut out, n.as_slice());
            },
        }
        assert(out@ =~= spec_enc_proc_id(self.proc_id@));
        push_u16_le(&mut out, self.flags);
        push_u16_le(&mut out, self.params.len() as u16);
        let ghost g = self.params@.map_values(|p: RpcParamData| p@);
        let ghost prefix = out@;
        let n = self.params.len();
        let mut i: usize = 0;
        proof {
            assert(g.skip(0) =~= g);
            assert(out@ + spec_enc_params(g) =~= prefix + spec_enc_params(g));
        }
        while i < n
            invariant
                n == self.params@.len(),
                i <= n,
                g == self.params@.map_values(|p: RpcParamData| p@),
                forall|j: int| 0 <= j < n ==> (#[trigger] self.params@[j]).wf(),
                out@ + spec_enc_params(g.skip(i as int)) == prefix + spec_enc_params(g),
            decreases n - i,
        {
            proof {
                assert(g.skip(i as int)[0] == g[i as int]);
                assert(g[i as int] == self.params@[i as int]@);
                assert(g.skip(i as int).drop_first() =~= g.skip(i + 1));
            }
            let p = &self.params[i];
            push_u16_le(&mut out, p.name.len() as u16);
            push_bytes(&mut out, p.name.as_slice());
            out.push(p.status_flags);
            let wrapped = ColumnValue::Val(p.value.clone_type());
            crate::tokens::encode_value_onto(&mut out, &wrapped);
            proof {
                assert(out@ + spec_enc_params(g.skip(i + 1)) =~= prefix + spec_enc_params(g));
            }
            i = i + 1;
        }
        proof {
            assert(g.skip(n as int) =~= Seq::<RpcParamDataV>::empty());
            assert(out@ + spec_enc_params(g.skip(n as int)) =~= out@);
            assert(out@ =~= spec_enc_rpc_request(self@));
        }
        out
    }
}

impl ColumnType {
    /// An explicit deep copy of the scalar.
    pub fn clone_type(&self) -> (r: ColumnType)
        ensures
            r@ == self@,
            r.wf() == self.wf(),
    {
        match self {
            ColumnType::I32(x) => ColumnType::I32(*x),
            ColumnType::VarChar(b) => ColumnType::VarChar(b.clone()),
        }
    }
}

} // verus!
