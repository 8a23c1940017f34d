//! Field values and the small enums of the plant model.
use vstd::prelude::*;

verus! {

/// A value that can be copied into an equal value (equal by its view).
pub trait DeepCopy: View + Sized {
    fn deep_copy(&self) -> (r: Self)
        ensures
            r@ == self@,
    ;
}

/// The view of every element of a vector, in order.
pub open spec fn views<T: View>(v: Seq<T>) -> Seq<T::V> {
    v.map_values(|x: T| x@)
}

/// A copy of a vector whose elements are copied one by one.
pub fn copy_vec<T: DeepCopy>(v: &Vec<T>) -> (r: Vec<T>)
    ensures
        views(r@) == views(v@),
{
    let mut r: Vec<T> = Vec::new();
    let mut i: usize = 0;
    while i < v.len()
        invariant
            i <= v.len(),
            views(r@) == views(v@.take(i as int)),
        decreases v.len() - i,
    {
        let x = v[i].deep_copy();
        r.push(x);
        assert(views(v@.take(i + 1)) =~= views(v@.take(i as int)).push(v@[i as int]@));
        assert(views(r@) =~= views(v@.take(i as int)).push(v@[i as int]@));
        i = i + 1;
    }
    assert(v@.take(v.len() as int) =~= v@);
    r
}

impl DeepCopy for String {
    fn deep_copy(&self) -> (r: String) {
        self.clone()
    }
}

/// A copy of an optional string.
pub fn copy_opt_string(s: &Option<String>) -> (r: Option<String>)
    ensures
        opt_view(r) == opt_view(*s),
{
    match s {
        Some(x) => Some(x.clone()),
        None => None,
    }
}

/// The view of an optional string.
pub open spec fn opt_view(s: Option<String>) -> Option<Seq<char>> {
    match s {
        Some(x) => Some(x@),
        None => None,
    }
}

/// A field's value. Floating-point values are carried as their IEEE-754 bit
/// pattern (`f64::to_bits`), so the library moves them without doing
/// arithmetic on them.
#[derive(Clone, Debug)]
pub enum DataType {
    Float(u64),
    Str(String),
    Boolean(bool),
}

/// The mathematical view of a `DataType`.
pub enum DataTypeView {
    Float(u64),
    Str(Seq<char>),
    Boolean(bool),
}

impl View for DataType {
    type V = DataTypeView;

    open spec fn view(&self) -> DataTypeView {
        match self {
            DataType::Float(b) => DataTypeView::Float(*b),
            DataType::Str(s) => DataTypeView::Str(s@),
            DataType::Boolean(b) => DataTypeView::Boolean(*b),
        }
    }
}

impl DeepCopy for DataType {
    fn deep_copy(&self) -> (r: DataType) {
        match self {
            DataType::Float(b) => DataType::Float(*b),
            DataType::Str(s) => DataType::Str(s.clone()),
            DataType::Boolean(b) => DataType::Boolean(*b),
        }
    }
}

/// Bit pattern of the floating-point zero `0.0`.
pub const FLOAT_ZERO_BITS: u64 = 0u64;

/// The zero value of the same kind as `v`: `0.0`, the empty string or `false`.
pub open spec fn zero_like(v: DataTypeView) -> DataTypeView {
    match v {
        DataTypeView::Float(_) => DataTypeView::Float(FLOAT_ZERO_BITS),
        DataTypeView::Str(_) => DataTypeView::Str(Seq::empty()),
        DataTypeView::Boolean(_) => DataTypeView::Boolean(false),
    }
}

impl DataType {
    /// The zero value of the same kind as `self`.
    pub fn zero_like(&self) -> (r: DataType)
        ensures
            r@ == zero_like(self@),
    {
        match self {
            DataType::Float(_) => DataType::Float(FLOAT_ZERO_BITS),
            DataType::Str(_) => DataType::Str(String::new()),
            DataType::Boolean(_) => DataType::Boolean(false),
        }
    }
}

/// A scalar as it appears in a JSON document; numbers are carried as the
/// bit pattern of their `f64` value.
#[derive(Clone, Debug)]
pub enum JsonScalar {
    Number(u64),
    Bool(bool),
    Text(String),
    Other,
}

/// How a JSON scalar reads as a `DataType`: a number is a float, a boolean a
/// boolean; the strings `"Float"`, `"Str"` and `"Boolean"` are type markers
/// that read as the zero value of that kind; any other string is a string
/// value. Nulls, arrays and objects are rejected.
pub open spec fn spec_data_type_from_json(j: JsonScalar) -> Option<DataTypeView> {
    match j {
        JsonScalar::Number(b) => Some(DataTypeView::Float(b)),
        JsonScalar::Bool(b) => Some(DataTypeView::Boolean(b)),
        JsonScalar::Text(s) => if s@ == "Float"@ {
            Some(DataTypeView::Float(FLOAT_ZERO_BITS))
        } else if s@ == "Str"@ {
            Some(DataTypeView::Str(Seq::empty()))
        } else if s@ == "Boolean"@ {
            Some(DataTypeView::Boolean(false))
        } else {
            Some(DataTypeView::Str(s@))
        },
        JsonScalar::Other => None,
    }
}

/// Read a JSON scalar as a `DataType` (see `spec_data_type_from_json`).
pub fn data_type_from_json(j: &JsonScalar) -> (r: Option<DataType>)
    ensures
        match r {
            Some(v) => spec_data_type_from_json(*j) == Some(v@),
            None => spec_data_type_from_json(*j) is None,
        },
{
    match j {
        JsonScalar::Number(b) => Some(DataType::Float(*b)),
        JsonScalar::Bool(b) => Some(DataType::Boolean(*b)),
        JsonScalar::Text(s) => {
            if crate::text::same_text(s.as_str(), "Float") {
                Some(DataType::Float(FLOAT_ZERO_BITS))
            } else if crate::text::same_text(s.as_str(), "Str") {
                Some(DataType::Str(String::new()))
            } else if crate::text::same_text(s.as_str(), "Boolean") {
                Some(DataType::Boolean(false))
            } else {
                Some(DataType::Str(s.clone()))
            }
        },
        JsonScalar::Other => None,
    }
}

/// Whether a device type runs a physics simulation or mirrors a real PLC.
#[derive(Clone, Copy, Debug, PartialEq, Eq, Structural)]
pub enum PhysicsMode {
    Simulation,
    Live,
}

/// A control function a device exposes. Amounts are `f64` bit patterns.
#[derive(Clone, Debug)]
pub enum FunctionKind {
    SetField { field: String, value: DataType },
    SetFieldFromArg { field: String, arg_index: usize },
    IncrementField { field: String, amount: u64 },
}

/// The mathematical view of a `FunctionKind`.
pub enum FunctionKindView {
    SetField { field: Seq<char>, value: DataTypeView },
    SetFieldFromArg { field: Seq<char>, arg_index: usize },
    IncrementField { field: Seq<char>, amount: u64 },
}

impl View for FunctionKind {
    type V = FunctionKindView;

    open spec fn view(&self) -> FunctionKindView {
        match self {
            FunctionKind::SetField { field, value } => FunctionKindView::SetField { field: field@, value: value@ },
            FunctionKind::SetFieldFromArg { field, arg_index } => FunctionKindView::SetFieldFromArg { field: field@, arg_index: *arg_index },
            FunctionKind::IncrementField { field, amount } => FunctionKindView::IncrementField { field: field@, amount: *amount },
        }
    }
}

impl DeepCopy for FunctionKind {
    fn deep_copy(&self) -> (r: FunctionKind) {
        match self {
            FunctionKind::SetField { field, value } => FunctionKind::SetField { field: field.clone(), value: value.deep_copy() },
            FunctionKind::SetFieldFromArg { field, arg_index } => FunctionKind::SetFieldFromArg { field: field.clone(), arg_index: *arg_index },
            FunctionKind::IncrementField { field, amount } => FunctionKind::IncrementField { field: field.clone(), amount: *amount },
        }
    }
}

} // verus!
