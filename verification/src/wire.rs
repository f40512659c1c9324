//! The wire value model: an ordered tree of named elements in the shape the
//! external byte-level AMF reader/writer produces and consumes.
//!
//! Floating-point wire fields (Number, Date timestamps, double vectors) carry
//! IEEE-754 bit patterns as `u64`; the byte boundary converts them.

use vstd::prelude::*;

verus! {

/// The AMF version a value is being encoded for.
#[derive(Clone, Copy, PartialEq, Eq, Structural)]
pub enum AmfVersion {
    Amf0,
    Amf3,
}

/// A class descriptor attached to an AMF3 object.
pub struct ClassDefinition {
    /// The wire alias of the class; empty when unregistered.
    pub name: String,
    /// Whether instances may carry ad-hoc properties beyond the fixed slots.
    pub is_dynamic: bool,
    /// The names of the fixed-slot properties, in the order they were
    /// serialized.
    pub static_properties: Vec<String>,
}

/// A named wire element; order is significant.
pub struct Element {
    pub name: String,
    pub value: AmfValue,
}

/// A wire value.
pub enum AmfValue {
    Undefined,
    Null,
    Bool(bool),
    /// IEEE-754 bit pattern of the wire float.
    Number(u64),
    /// AMF3 only; always within [-2^28, 2^28).
    Integer(i32),
    String(String),
    ByteArray(Vec<u8>),
    /// Timestamp in milliseconds (IEEE-754 bit pattern) and an optional
    /// timezone.
    Date { millis: u64, timezone: Option<u16> },
    Xml { content: String, is_string: bool },
    StrictArray(Vec<AmfValue>),
    ECMAArray { dense: Vec<AmfValue>, assoc: Vec<Element>, length: u32 },
    VectorInt { values: Vec<i32>, fixed: bool },
    VectorUInt { values: Vec<u32>, fixed: bool },
    /// Elements are IEEE-754 bit patterns.
    VectorDouble { values: Vec<u64>, fixed: bool },
    VectorObject { values: Vec<AmfValue>, element_type: String, fixed: bool },
    Object { elements: Vec<Element>, class_definition: Option<ClassDefinition> },
    /// Recognized on decode but never reconstructed.
    Dictionary { entries: Vec<(AmfValue, AmfValue)>, weak_keys: bool },
    /// Recognized on decode but never reconstructed.
    Custom { elements: Vec<Element>, dynamic_elements: Vec<Element>, name: String },
    /// A wire-level back-reference; never reconstructed.
    Reference(u16),
    /// An AMF3 value embedded in an AMF0 stream.
    Amf3(Box<AmfValue>),
    Unsupported,
}

/// Mathematical model of a `ClassDefinition`.
pub struct ClassDefModel {
    pub name: Seq<char>,
    pub is_dynamic: bool,
    pub static_properties: Seq<Seq<char>>,
}

/// Mathematical model of an `AmfValue`.
pub enum AmfModel {
    Undefined,
    Null,
    Bool(bool),
    Num(u64),
    Int(i32),
    Str(Seq<char>),
    Bytes(Seq<u8>),
    Date { millis: u64, timezone: Option<u16> },
    Xml { content: Seq<char>, is_string: bool },
    Strict(Seq<AmfModel>),
    Ecma { dense: Seq<AmfModel>, assoc: Seq<(Seq<char>, AmfModel)>, length: u32 },
    VectorInt { values: Seq<i32>, fixed: bool },
    VectorUInt { values: Seq<u32>, fixed: bool },
    VectorDouble { values: Seq<u64>, fixed: bool },
    VectorObject { values: Seq<AmfModel>, element_type: Seq<char>, fixed: bool },
    Object { elements: Seq<(Seq<char>, AmfModel)>, class_definition: Option<ClassDefModel> },
    Dictionary { entries: Seq<(AmfModel, AmfModel)>, weak_keys: bool },
    Custom {
        elements: Seq<(Seq<char>, AmfModel)>,
        dynamic_elements: Seq<(Seq<char>, AmfModel)>,
        name: Seq<char>,
    },
    Reference(u16),
    Amf3(Box<AmfModel>),
    Unsupported,
}

/// Model of a class definition.
pub open spec fn cdm(cd: ClassDefinition) -> ClassDefModel {
    ClassDefModel {
        name: cd.name@,
        is_dynamic: cd.is_dynamic,
        static_properties: ssm(cd.static_properties@),
    }
}

/// Model of a list of strings, pointwise.
pub open spec fn ssm(s: Seq<String>) -> Seq<Seq<char>>
    decreases s,
{
    if s.len() == 0 {
        Seq::empty()
    } else {
        ssm(s.drop_last()).push(s.last()@)
    }
}

/// Model of a wire value.
pub open spec fn am(a: AmfValue) -> AmfModel
    decreases a,
{
    match a {
        AmfValue::Undefined => AmfModel::Undefined,
        AmfValue::Null => AmfModel::Null,
        AmfValue::Bool(b) => AmfModel::Bool(b),
        AmfValue::Number(bits) => AmfModel::Num(bits),
        AmfValue::Integer(i) => AmfModel::Int(i),
        AmfValue::String(s) => AmfModel::Str(s@),
        AmfValue::ByteArray(b) => AmfModel::Bytes(b@),
        AmfValue::Date { millis, timezone } => AmfModel::Date { millis, timezone },
        AmfValue::Xml { content, is_string } => AmfModel::Xml { content: content@, is_string },
        AmfValue::StrictArray(values) => AmfModel::Strict(wsm(values@)),
        AmfValue::ECMAArray { dense, assoc, length } => AmfModel::Ecma {
            dense: wsm(dense@),
            assoc: esm(assoc@),
            length,
        },
        AmfValue::VectorInt { values, fixed } => AmfModel::VectorInt { values: values@, fixed },
        AmfValue::VectorUInt { values, fixed } => AmfModel::VectorUInt { values: values@, fixed },
        AmfValue::VectorDouble { values, fixed } => AmfModel::VectorDouble {
            values: values@,
            fixed,
        },
        AmfValue::VectorObject { values, element_type, fixed } => AmfModel::VectorObject {
            values: wsm(values@),
            element_type: element_type@,
            fixed,
        },
        AmfValue::Object { elements, class_definition } => AmfModel::Object {
            elements: esm(elements@),
            class_definition: match class_definition {
                Some(cd) => Some(cdm(cd)),
                None => None,
            },
        },
        AmfValue::Dictionary { entries, weak_keys } => AmfModel::Dictionary {
            entries: dsm(entries@),
            weak_keys,
        },
        AmfValue::Custom { elements, dynamic_elements, name } => AmfModel::Custom {
            elements: esm(elements@),
            dynamic_elements: esm(dynamic_elements@),
            name: name@,
        },
        AmfValue::Reference(r) => AmfModel::Reference(r),
        AmfValue::Amf3(inner) => AmfModel::Amf3(Box::new(am(*inner))),
        AmfValue::Unsupported => AmfModel::Unsupported,
    }
}

/// Model of a wire value list, pointwise.
pub open spec fn wsm(s: Seq<AmfValue>) -> Seq<AmfModel>
    decreases s,
{
    if s.len() == 0 {
        Seq::empty()
    } else {
        wsm(s.drop_last()).push(am(s.last()))
    }
}

/// Model of an element list, pointwise.
pub open spec fn esm(s: Seq<Element>) -> Seq<(Seq<char>, AmfModel)>
    decreases s,
{
    if s.len() == 0 {
        Seq::empty()
    } else {
        esm(s.drop_last()).push((s.last().name@, am(s.last().value)))
    }
}

/// Model of a dictionary entry list, pointwise.
pub open spec fn dsm(s: Seq<(AmfValue, AmfValue)>) -> Seq<(AmfModel, AmfModel)>
    decreases s,
{
    if s.len() == 0 {
        Seq::empty()
    } else {
        dsm(s.drop_last()).push((am(s.last().0), am(s.last().1)))
    }
}

/// `ssm` maps its sequence pointwise.
pub proof fn lemma_ssm(s: Seq<String>)
    ensures
        ssm(s).len() == s.len(),
        forall|i: int| 0 <= i < s.len() ==> ssm(s)[i] == s[i]@,
    decreases s,
{
    if s.len() > 0 {
        lemma_ssm(s.drop_last());
    }
}

/// `wsm` maps its sequence pointwise.
pub proof fn lemma_wsm(s: Seq<AmfValue>)
    ensures
        wsm(s).len() == s.len(),
        forall|i: int| 0 <= i < s.len() ==> wsm(s)[i] == am(s[i]),
    decreases s,
{
    if s.len() > 0 {
        lemma_wsm(s.drop_last());
    }
}

/// `esm` maps its sequence pointwise.
pub proof fn lemma_esm(s: Seq<Element>)
    ensures
        esm(s).len() == s.len(),
        forall|i: int| 0 <= i < s.len() ==> esm(s)[i] == (s[i].name@, am(s[i].value)),
    decreases s,
{
    if s.len() > 0 {
        lemma_esm(s.drop_last());
    }
}

// ------------------------------------------------------------------
// How the external AMF0 byte codec reshapes a tree across a write
// followed by a parse.  The byte writer flattens an ECMA array's dense
// portion into named pairs, fixes a missing Date timezone to zero,
// marks every XML value as a string, keeps only a class name of a
// descriptor, and writes AMF3-only values as the Unsupported marker.
// ------------------------------------------------------------------

/// The trees the byte writer represents faithfully enough to reread:
/// element and class names of bounded length, no embedded AMF3 stream.
pub open spec fn amf0_wire_ok(a: AmfModel) -> bool
    decreases a, 1int,
{
    match a {
        AmfModel::Str(s) => s.len() <= 0x3fff_ffff,
        AmfModel::Xml { content, is_string } => content.len() <= 0x3fff_ffff,
        AmfModel::Strict(values) => values.len() <= 0xffff_ffff && amf0_wire_ok_list(values),
        AmfModel::Ecma { dense, assoc, length } => amf0_wire_ok_list(dense) && amf0_wire_ok_elems(
            assoc,
        ),
        AmfModel::Object { elements, class_definition } => amf0_wire_ok_elems(elements) && match
            class_definition {
            Some(cd) => cd.name.len() <= 16383,
            None => true,
        },
        AmfModel::Amf3(inner) => false,
        AmfModel::Reference(r) => false,
        _ => true,
    }
}

/// Every element of a list is faithfully representable.
pub open spec fn amf0_wire_ok_list(values: Seq<AmfModel>) -> bool
    decreases values, 0int,
{
    if values.len() == 0 {
        true
    } else {
        amf0_wire_ok(values.first()) && amf0_wire_ok_list(values.drop_first())
    }
}

/// Every named element has a name of bounded length and a faithfully
/// representable value.
pub open spec fn amf0_wire_ok_elems(elems: Seq<(Seq<char>, AmfModel)>) -> bool
    decreases elems, 0int,
{
    if elems.len() == 0 {
        true
    } else {
        elems.first().0.len() <= 16383 && amf0_wire_ok(elems.first().1) && amf0_wire_ok_elems(
            elems.drop_first(),
        )
    }
}

/// What a tree looks like after the byte writer has written it as AMF0
/// and the byte reader has read it back.
pub open spec fn amf0_normalize(a: AmfModel) -> AmfModel
    decreases a, 1int,
{
    match a {
        AmfModel::Undefined => a,
        AmfModel::Null => a,
        AmfModel::Bool(b) => a,
        AmfModel::Num(bits) => a,
        AmfModel::Str(s) => a,
        AmfModel::Date { millis, timezone } => AmfModel::Date {
            millis,
            timezone: match timezone {
                Some(tz) => Some(tz),
                None => Some(0),
            },
        },
        AmfModel::Xml { content, is_string } => AmfModel::Xml { content, is_string: true },
        AmfModel::Strict(values) => AmfModel::Strict(amf0_normalize_list(values)),
        AmfModel::Ecma { dense, assoc, length } => AmfModel::Ecma {
            dense: Seq::empty(),
            assoc: amf0_dense_elems(dense) + amf0_normalize_elems(assoc),
            length,
        },
        AmfModel::Object { elements, class_definition } => AmfModel::Object {
            elements: amf0_normalize_elems(elements),
            class_definition: match class_definition {
                Some(cd) => Some(
                    ClassDefModel {
                        name: cd.name,
                        is_dynamic: false,
                        static_properties: Seq::empty(),
                    },
                ),
                None => None,
            },
        },
        AmfModel::Unsupported => a,
        _ => AmfModel::Unsupported,
    }
}

/// A list of wire values after a write and reread.
pub open spec fn amf0_normalize_list(values: Seq<AmfModel>) -> Seq<AmfModel>
    decreases values, 0int,
{
    if values.len() == 0 {
        Seq::empty()
    } else {
        seq![amf0_normalize(values.first())] + amf0_normalize_list(values.drop_first())
    }
}

/// Named elements after a write and reread.
pub open spec fn amf0_normalize_elems(elems: Seq<(Seq<char>, AmfModel)>) -> Seq<
    (Seq<char>, AmfModel),
>
    decreases elems, 0int,
{
    if elems.len() == 0 {
        Seq::empty()
    } else {
        seq![(elems.first().0, amf0_normalize(elems.first().1))] + amf0_normalize_elems(
            elems.drop_first(),
        )
    }
}

/// The named pairs the writer emits for an ECMA array's dense portion:
/// element `i` under the canonical decimal rendering of `i`.
pub open spec fn amf0_dense_elems(dense: Seq<AmfModel>) -> Seq<(Seq<char>, AmfModel)>
    decreases dense, 0int,
{
    if dense.len() == 0 {
        Seq::empty()
    } else {
        amf0_dense_elems(dense.drop_last()).push(
            (
                crate::strutil::spec_dec((dense.len() - 1) as nat),
                amf0_normalize(dense.last()),
            ),
        )
    }
}


/// Normalized named elements, pointwise.
pub proof fn lemma_normalize_elems_pointwise(elems: Seq<(Seq<char>, AmfModel)>)
    ensures
        amf0_normalize_elems(elems).len() == elems.len(),
        forall|i: int|
            0 <= i < elems.len() ==> #[trigger] amf0_normalize_elems(elems)[i] == (
                elems[i].0,
                amf0_normalize(elems[i].1),
            ),
    decreases elems.len(),
{
    if elems.len() > 0 {
        lemma_normalize_elems_pointwise(elems.drop_first());
        let r = amf0_normalize_elems(elems);
        assert forall|i: int| 0 <= i < elems.len() implies #[trigger] r[i] == (
            elems[i].0,
            amf0_normalize(elems[i].1),
        ) by {
            if i > 0 {
                assert(r[i] == amf0_normalize_elems(elems.drop_first())[i - 1]);
                assert(elems.drop_first()[i - 1] == elems[i]);
            }
        }
    }
}

} // verus!
