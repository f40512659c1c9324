//! The dynamic value model that the codec traverses.
//!
//! A value is either a scalar or an object of one of a closed set of kinds
//! (array store, typed vector store, date, XML node, byte buffer, class
//! instance, function, display-object-backed value).  Number-valued leaves
//! carry the IEEE-754 bit pattern of the scripting engine's float as a `u64`,
//! so the codec itself never performs floating-point arithmetic.

use vstd::prelude::*;

verus! {

/// A dynamic scripting value.
pub enum ScriptValue {
    Undefined,
    Null,
    Bool(bool),
    /// IEEE-754 bit pattern of the float value.
    Number(u64),
    Integer(i32),
    String(String),
    Object(ObjKind),
}

/// The closed set of object kinds, matched exhaustively by the codec.
pub enum ObjKind {
    /// An executable (function) object; omitted entirely on serialization.
    Function { props: Vec<(String, ScriptValue)> },
    /// A display-object-backed value; serializes to Undefined.
    Display,
    /// An array store: own properties in enumeration order, plus the
    /// array's reported length.
    Array { length: u32, props: Vec<(String, ScriptValue)> },
    VectorInt { values: Vec<i32>, fixed: bool },
    VectorUInt { values: Vec<u32>, fixed: bool },
    /// Elements are IEEE-754 bit patterns.
    VectorDouble { values: Vec<u64>, fixed: bool },
    /// `class` indexes the class registry the codec is handed.
    VectorObject { values: Vec<ScriptValue>, class: usize, fixed: bool },
    /// Timestamp in milliseconds, as an IEEE-754 bit pattern.
    Date { millis: u64 },
    Xml { text: String },
    ByteArray { bytes: Vec<u8> },
    /// A class instance: fixed-slot public members plus dynamically added
    /// own properties in enumeration order.
    Instance { class: usize, members: Vec<Member>, props: Vec<(String, ScriptValue)> },
}

/// One fixed-slot public property of a class instance.  A member is
/// serialized only when it is accessible in both directions.
pub struct Member {
    pub name: String,
    pub value: ScriptValue,
    pub has_getter: bool,
    pub has_setter: bool,
}

/// Mathematical model of a `ScriptValue`.
pub enum ValModel {
    Undefined,
    Null,
    Bool(bool),
    Num(u64),
    Int(i32),
    Str(Seq<char>),
    Obj(ObjModel),
}

/// Mathematical model of an `ObjKind`.
pub enum ObjModel {
    Function { props: Seq<(Seq<char>, ValModel)> },
    Display,
    Array { length: u32, props: Seq<(Seq<char>, ValModel)> },
    VectorInt { values: Seq<i32>, fixed: bool },
    VectorUInt { values: Seq<u32>, fixed: bool },
    VectorDouble { values: Seq<u64>, fixed: bool },
    VectorObject { values: Seq<ValModel>, class: int, fixed: bool },
    Date { millis: u64 },
    Xml { text: Seq<char> },
    ByteArray { bytes: Seq<u8> },
    Instance { class: int, members: Seq<MemberModel>, props: Seq<(Seq<char>, ValModel)> },
}

/// Mathematical model of a `Member`.
pub struct MemberModel {
    pub name: Seq<char>,
    pub value: ValModel,
    pub has_getter: bool,
    pub has_setter: bool,
}

/// Model of a value.
pub open spec fn vm(v: ScriptValue) -> ValModel
    decreases v,
{
    match v {
        ScriptValue::Undefined => ValModel::Undefined,
        ScriptValue::Null => ValModel::Null,
        ScriptValue::Bool(b) => ValModel::Bool(b),
        ScriptValue::Number(bits) => ValModel::Num(bits),
        ScriptValue::Integer(i) => ValModel::Int(i),
        ScriptValue::String(s) => ValModel::Str(s@),
        ScriptValue::Object(k) => ValModel::Obj(om(k)),
    }
}

/// Model of an object kind.
pub open spec fn om(k: ObjKind) -> ObjModel
    decreases k,
{
    match k {
        ObjKind::Function { props } => ObjModel::Function { props: pm(props@) },
        ObjKind::Display => ObjModel::Display,
        ObjKind::Array { length, props } => ObjModel::Array { length, props: pm(props@) },
        ObjKind::VectorInt { values, fixed } => ObjModel::VectorInt { values: values@, fixed },
        ObjKind::VectorUInt { values, fixed } => ObjModel::VectorUInt { values: values@, fixed },
        ObjKind::VectorDouble { values, fixed } => ObjModel::VectorDouble {
            values: values@,
            fixed,
        },
        ObjKind::VectorObject { values, class, fixed } => ObjModel::VectorObject {
            values: vsm(values@),
            class: class as int,
            fixed,
        },
        ObjKind::Date { millis } => ObjModel::Date { millis },
        ObjKind::Xml { text } => ObjModel::Xml { text: text@ },
        ObjKind::ByteArray { bytes } => ObjModel::ByteArray { bytes: bytes@ },
        ObjKind::Instance { class, members, props } => ObjModel::Instance {
            class: class as int,
            members: mm(members@),
            props: pm(props@),
        },
    }
}

/// Model of a property list, pointwise.
pub open spec fn pm(s: Seq<(String, ScriptValue)>) -> Seq<(Seq<char>, ValModel)>
    decreases s,
{
    if s.len() == 0 {
        Seq::empty()
    } else {
        pm(s.drop_last()).push((s.last().0@, vm(s.last().1)))
    }
}

/// Model of a value list, pointwise.
pub open spec fn vsm(s: Seq<ScriptValue>) -> Seq<ValModel>
    decreases s,
{
    if s.len() == 0 {
        Seq::empty()
    } else {
        vsm(s.drop_last()).push(vm(s.last()))
    }
}

/// Model of a member list, pointwise.
pub open spec fn mm(s: Seq<Member>) -> Seq<MemberModel>
    decreases s,
{
    if s.len() == 0 {
        Seq::empty()
    } else {
        mm(s.drop_last()).push(
            MemberModel {
                name: s.last().name@,
                value: vm(s.last().value),
                has_getter: s.last().has_getter,
                has_setter: s.last().has_setter,
            },
        )
    }
}

/// `pm` maps its sequence pointwise.
pub proof fn lemma_pm(s: Seq<(String, ScriptValue)>)
    ensures
        pm(s).len() == s.len(),
        forall|i: int|
            0 <= i < s.len() ==> pm(s)[i] == (s[i].0@, vm(s[i].1)),
    decreases s,
{
    if s.len() > 0 {
        lemma_pm(s.drop_last());
    }
}

/// `vsm` maps its sequence pointwise.
pub proof fn lemma_vsm(s: Seq<ScriptValue>)
    ensures
        vsm(s).len() == s.len(),
        forall|i: int| 0 <= i < s.len() ==> vsm(s)[i] == vm(s[i]),
    decreases s,
{
    if s.len() > 0 {
        lemma_vsm(s.drop_last());
    }
}

/// `mm` maps its sequence pointwise.
pub proof fn lemma_mm(s: Seq<Member>)
    ensures
        mm(s).len() == s.len(),
        forall|i: int|
            0 <= i < s.len() ==> mm(s)[i] == (MemberModel {
                name: s[i].name@,
                value: vm(s[i].value),
                has_getter: s[i].has_getter,
                has_setter: s[i].has_setter,
            }),
    decreases s,
{
    if s.len() > 0 {
        lemma_mm(s.drop_last());
    }
}

} // verus!
