//! Whether a coder can write a record.
use crate::coders::nested::{
    can_encode, can_encode_list, can_encode_primitive, can_encode_tuple,
};
use crate::coders::primitives::TupleCoder;
use crate::coders::StandardBeamCoders;
use crate::store::record::{
    primitives_model, record_model, records_model, BeamRecord, PrimitiveValue, RecordV,
};
use vstd::prelude::*;

verus! {

/// Whether the coder writes this primitive value by itself.
pub fn is_primitive_writable(c: &StandardBeamCoders, p: &PrimitiveValue) -> (r: bool)
    ensures
        r == can_encode_primitive(*c, p.model()),
{
    match (c, p) {
        (StandardBeamCoders::StringUtf8(_), PrimitiveValue::String(_)) => true,
        (StandardBeamCoders::Bytes(_), PrimitiveValue::Bytes(_)) => true,
        (StandardBeamCoders::VarInt(_), PrimitiveValue::Int64(_)) => true,
        (StandardBeamCoders::VarInt32(_), PrimitiveValue::Int64(v)) => i32::MIN as i64 <= *v && *v
            <= i32::MAX as i64,
        (StandardBeamCoders::Bool(_), PrimitiveValue::Bool(_)) => true,
        (StandardBeamCoders::Double(_), PrimitiveValue::Float64(_)) => true,
        (StandardBeamCoders::Void(_), PrimitiveValue::Void) => true,
        (StandardBeamCoders::Pickle(_), PrimitiveValue::Bytes(_)) => true,
        (StandardBeamCoders::LengthPrefix(_), PrimitiveValue::Bytes(_)) => true,
        _ => false,
    }
}

/// Whether the coder writes a record of this primitive value.
pub fn is_value_writable(c: &StandardBeamCoders, p: &PrimitiveValue) -> (r: bool)
    ensures
        r == can_encode(*c, RecordV::Primitive(p.model())),
    decreases c,
{
    match c {
        StandardBeamCoders::Iterable(_) => false,
        StandardBeamCoders::Tuple(_) => false,
        StandardBeamCoders::Kv(_, _) => false,
        StandardBeamCoders::Gbk(_, _) => false,
        StandardBeamCoders::Nullable(nc) => match p {
            PrimitiveValue::Void => true,
            _ => is_value_writable(&nc.value_coder, p),
        },
        _ => is_primitive_writable(c, p),
    }
}

/// Whether the coder writes this record.
pub fn is_writable(c: &StandardBeamCoders, record: &BeamRecord) -> (r: bool)
    ensures
        r == can_encode(*c, record_model(*record)),
    decreases c, 0nat,
{
    match c {
        StandardBeamCoders::Iterable(ic) => match record {
            BeamRecord::ITERABLE(s) => is_list_writable(&ic.element_coder, &s.list),
            _ => false,
        },
        StandardBeamCoders::Tuple(tc) => match record {
            BeamRecord::TUPLE(t) => is_tuple_writable(tc, &t.values),
            _ => false,
        },
        StandardBeamCoders::Nullable(nc) => match record {
            BeamRecord::PRIMITIVE(PrimitiveValue::Void) => true,
            _ => is_writable(&nc.value_coder, record),
        },
        StandardBeamCoders::Kv(kc, vc) => match record {
            BeamRecord::KV(kv) => {
                assert(record_model(*record) == RecordV::Kv(
                    kv.key.model(),
                    Box::new(record_model(*kv.value)),
                ));
                is_primitive_writable(kc, &kv.key) && is_writable(vc, &kv.value)
            },
            _ => false,
        },
        StandardBeamCoders::Gbk(kc, ic) => match record {
            BeamRecord::GBK(g) => is_primitive_writable(kc, &g.key) && is_list_writable(
                &ic.element_coder,
                &g.value.list,
            ),
            _ => false,
        },
        _ => match record {
            BeamRecord::PRIMITIVE(p) => is_primitive_writable(c, p),
            _ => false,
        },
    }
}

/// Whether a list of these records can be written, each with the coder `e`.
pub fn is_list_writable(e: &StandardBeamCoders, list: &Vec<BeamRecord>) -> (r: bool)
    ensures
        r == can_encode_list(*e, records_model(list@)),
    decreases e, 1nat,
{
    let n: usize = list.len();
    let ghost all = records_model(list@);
    if n > i32::MAX as usize {
        return false;
    }
    let mut i: usize = 0;
    while i < n
        invariant
            n == list@.len(),
            all == records_model(list@),
            i <= n,
            forall|k: int| 0 <= k < i ==> can_encode(*e, #[trigger] all[k]),
        decreases n - i,
    {
        assert(all[i as int] == record_model(list@[i as int]));
        if !is_writable(e, &list[i]) {
            return false;
        }
        i = i + 1;
    }
    true
}

/// Whether each component can be written with its coder.
pub fn is_tuple_writable(tc: &TupleCoder, values: &Vec<PrimitiveValue>) -> (r: bool)
    ensures
        r == (values@.len() == tc.component_coders@.len() && can_encode_tuple(
            *tc,
            primitives_model(values@),
            0,
        )),
{
    let n: usize = values.len();
    if n != tc.component_coders.len() {
        return false;
    }
    let ghost ps = primitives_model(values@);
    let mut i: usize = 0;
    while i < n
        invariant
            n == values@.len(),
            n == tc.component_coders@.len(),
            ps == primitives_model(values@),
            i <= n,
            can_encode_tuple(*tc, ps, 0) == can_encode_tuple(*tc, ps, i as nat),
        decreases n - i,
    {
        assert(ps[i as int] == values@[i as int].model());
        if !is_value_writable(&tc.component_coders[i], &values[i]) {
            return false;
        }
        i = i + 1;
    }
    true
}

} // verus!
