//! What a physics script may change: after a script ran on a device's
//! fields, only fields the device already had are written back, and only
//! with a value of the kind the field already holds.
use vstd::prelude::*;
use crate::data::{DataType, DataTypeView};
use crate::strmap::StrMap;

verus! {

/// A value a physics script left in its `state` map: a float (as its bit
/// pattern), a boolean, a string, or something else.
#[derive(Clone, Debug)]
pub enum ScriptValue {
    Float(u64),
    Bool(bool),
    Str(String),
    Other,
}

/// The field value a script value gives a field that holds `existing`: a
/// value of the same kind, or nothing.
pub open spec fn written_value(existing: DataTypeView, v: ScriptValue) -> Option<DataTypeView> {
    match (existing, v) {
        (DataTypeView::Float(_), ScriptValue::Float(b)) => Some(DataTypeView::Float(b)),
        (DataTypeView::Boolean(_), ScriptValue::Bool(b)) => Some(DataTypeView::Boolean(b)),
        (DataTypeView::Str(_), ScriptValue::Str(s)) => Some(DataTypeView::Str(s@)),
        _ => None,
    }
}

/// The fields after writing back the first `k` script entries: an entry
/// whose field exists and whose value has the field's kind replaces it;
/// every other entry is dropped.
pub open spec fn written_back(state: Map<Seq<char>, DataTypeView>, out: Seq<(String, ScriptValue)>, k: int) -> Map<Seq<char>, DataTypeView>
    decreases k,
{
    if k <= 0 {
        state
    } else {
        let m = written_back(state, out, k - 1);
        let (key, v) = out[k - 1];
        if m.contains_key(key@) {
            match written_value(m[key@], v) {
                Some(nv) => m.insert(key@, nv),
                None => m,
            }
        } else {
            m
        }
    }
}

/// Writing back never adds a field.
pub proof fn write_back_keeps_fields(state: Map<Seq<char>, DataTypeView>, out: Seq<(String, ScriptValue)>, k: int)
    requires
        0 <= k <= out.len(),
    ensures
        written_back(state, out, k).dom() == state.dom(),
    decreases k,
{
    if k > 0 {
        write_back_keeps_fields(state, out, k - 1);
        let m = written_back(state, out, k - 1);
        let (key, v) = out[k - 1];
        if m.contains_key(key@) {
            if let Some(nv) = written_value(m[key@], v) {
                assert(m.insert(key@, nv).dom() =~= m.dom());
            }
        }
    }
}

/// Write a script's output back into a device's fields (see `written_back`).
pub fn apply_script_output(state: &mut StrMap<DataType>, out: &Vec<(String, ScriptValue)>)
    ensures
        final(state)@ == written_back(old(state)@, out@, out.len() as int),
{
    let ghost start = state@;
    let mut k: usize = 0;
    while k < out.len()
        invariant
            k <= out.len(),
            state@ == written_back(start, out@, k as int),
        decreases out.len() - k,
    {
        let key = &out[k].0;
        let v = &out[k].1;
        let new_val = match state.get(key.as_str()) {
            None => None,
            Some(existing) => match (existing, v) {
                (DataType::Float(_), ScriptValue::Float(b)) => Some(DataType::Float(*b)),
                (DataType::Boolean(_), ScriptValue::Bool(b)) => Some(DataType::Boolean(*b)),
                (DataType::Str(_), ScriptValue::Str(s)) => Some(DataType::Str(s.clone())),
                _ => None,
            },
        };
        match new_val {
            Some(nv) => {
                state.insert(key.clone(), nv);
            },
            None => {},
        }
        k = k + 1;
    }
}

} // verus!
