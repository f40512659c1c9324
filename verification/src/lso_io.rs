//! The boundary to the external byte-level AMF reader and writer.
//!
//! The library works on parsed element trees; raw AMF0 bytes are produced
//! and consumed by the `flash-lso` crate.  `lso_encoded` names the byte
//! image of a store container, `lso_parsed` what the reader makes of a
//! byte string, and the write wrapper is trusted to produce bytes that
//! reread as the written body reshaped by `amf0_normalize`.  The small
//! functions below only convert between the library's wire trees and the
//! `flash-lso` form, one variant group each; wire fields carrying IEEE-754
//! bit patterns are bit-cast with `bytemuck::cast` at this boundary only.

use crate::wire::{amf0_normalize_elems, amf0_wire_ok_elems, esm, AmfModel, AmfValue, Element};
use flash_lso::types::ClassDefinition as FlvClassDefinition;
use flash_lso::types::Element as FlvElement;
use flash_lso::types::CustomObjectValue as FlvCustom;
use flash_lso::types::DictionaryEntry as FlvDictEntry;
use flash_lso::types::DictionaryObjectValue as FlvDict;
use flash_lso::types::ECMAArrayObjectValue as FlvEcma;
use flash_lso::types::ObjectId;
use flash_lso::types::ObjectValue as FlvObject;
use flash_lso::types::VectorObjectValue as FlvVecObj;
use flash_lso::types::VectorPrimitiveValue as FlvVecPrim;
use flash_lso::types::Value as FlvValue;
use vstd::prelude::*;

verus! {

#[verifier::external_type_specification]
#[verifier::external_body]
pub struct ExFlvValue(FlvValue);

#[verifier::external_type_specification]
#[verifier::external_body]
pub struct ExFlvElement(FlvElement);

#[verifier::external_type_specification]
#[verifier::external_body]
pub struct ExFlvClassDefinition(FlvClassDefinition);

/// The bytes the external AMF0 writer produces for a store container with
/// the given name and body.
pub uninterp spec fn lso_encoded(name: Seq<char>, body: Seq<(Seq<char>, AmfModel)>) -> Seq<u8>;

/// What the external AMF0 reader makes of a byte string: the container
/// name and body on success, nothing when the bytes are not a well-formed
/// container.
pub uninterp spec fn lso_parsed(bytes: Seq<u8>) -> Option<
    (Seq<char>, Seq<(Seq<char>, AmfModel)>),
>;

/// The model of a parse wrapper result.
pub open spec fn parse_model(r: Option<(String, Vec<Element>)>) -> Option<
    (Seq<char>, Seq<(Seq<char>, AmfModel)>),
> {
    match r {
        Some(p) => Some((p.0@, esm(p.1@))),
        None => None,
    }
}

/// Converts a scalar wire value to its `flash-lso` form.
#[verifier::external_body]
fn ext_of_value(v: &AmfValue) -> (r: FlvValue) {
    match v {
        AmfValue::Undefined => FlvValue::Undefined,
        AmfValue::Null => FlvValue::Null,
        AmfValue::Bool(b) => FlvValue::Bool(*b),
        AmfValue::Number(bits) => FlvValue::Number(bytemuck::cast(*bits)),
        AmfValue::Integer(n) => FlvValue::Integer(*n),
        AmfValue::String(s) => FlvValue::String(s.clone()),
        AmfValue::ByteArray(b) => FlvValue::ByteArray(b.clone()),
        other => ext_of_compound(other),
    }
}

/// Converts a date, XML node, array or primitive vector.
#[verifier::external_body]
fn ext_of_compound(v: &AmfValue) -> (r: FlvValue) {
    match v {
        AmfValue::Date { millis, timezone } => FlvValue::Date { time: bytemuck::cast(*millis), timezone_or_utc: *timezone },
        AmfValue::Xml { content, is_string } => FlvValue::XML { value: content.clone(), is_string: *is_string },
        AmfValue::StrictArray(values) => FlvValue::StrictArray { id: ObjectId::INVALID, values: ext_of_list(values) },
        AmfValue::VectorInt { values, fixed } => FlvValue::VectorInt(FlvVecPrim { values: values.clone(), fixed_length: *fixed }),
        AmfValue::VectorUInt { values, fixed } => FlvValue::VectorUInt(FlvVecPrim { values: values.clone(), fixed_length: *fixed }),
        AmfValue::VectorDouble { values, fixed } => FlvValue::VectorDouble(FlvVecPrim { values: values.iter().map(|b| bytemuck::cast(*b)).collect(), fixed_length: *fixed }),
        other => ext_of_structured(other),
    }
}

/// Converts an associative array, object vector or object.
#[verifier::external_body]
fn ext_of_structured(v: &AmfValue) -> (r: FlvValue) {
    match v {
        AmfValue::ECMAArray { dense, assoc, length } => FlvValue::ECMAArray { id: ObjectId::INVALID, data: FlvEcma { dense: ext_of_list(dense), elements: ext_of_elems(assoc), length: *length } },
        AmfValue::VectorObject { values, element_type, fixed } => FlvValue::VectorObject { id: ObjectId::INVALID, data: FlvVecObj { values: ext_of_list(values), object_type_name: element_type.clone(), fixed_length: *fixed } },
        AmfValue::Object { elements, class_definition } => FlvValue::Object { id: ObjectId::INVALID, data: FlvObject { elements: ext_of_elems(elements), class_definition: class_definition.as_ref().map(ext_of_class) } },
        other => ext_of_special(other),
    }
}

/// Converts the wire values the decoder recognizes but never rebuilds.
#[verifier::external_body]
fn ext_of_special(v: &AmfValue) -> (r: FlvValue) {
    match v {
        AmfValue::Dictionary { entries, weak_keys } => FlvValue::Dictionary { id: ObjectId::INVALID, data: FlvDict { elements: entries.iter().map(|(k, w)| FlvDictEntry { key: ext_of_value(k), value: ext_of_value(w) }).collect(), weak_keys: *weak_keys } },
        AmfValue::Custom { elements, dynamic_elements, name } => FlvValue::Custom(FlvCustom { elements: ext_of_elems(elements), dynamic_elements: ext_of_elems(dynamic_elements), class_definition: FlvClassDefinition::default_with_name(name.clone()) }),
        AmfValue::Amf3(inner) => FlvValue::AMF3(Box::new(ext_of_value(inner))),
        _ => FlvValue::Unsupported,
    }
}

/// Converts a wire value list to its `flash-lso` form.
#[verifier::external_body]
fn ext_of_list(values: &Vec<AmfValue>) -> (r: Vec<FlvValue>) {
    values.iter().map(ext_of_value).collect()
}

/// Converts named elements to their `flash-lso` form.
#[verifier::external_body]
fn ext_of_elems(elems: &Vec<Element>) -> (r: Vec<FlvElement>) {
    elems.iter().map(|e| FlvElement { name: e.name.clone(), value: ext_of_value(&e.value) }).collect()
}

/// Converts a class descriptor to its `flash-lso` form.
#[verifier::external_body]
fn ext_of_class(cd: &crate::wire::ClassDefinition) -> (r: FlvClassDefinition) {
    let mut out = FlvClassDefinition::default_with_name(cd.name.clone());
    if cd.is_dynamic {
        out.attributes.insert(flash_lso::types::Attribute::Dynamic);
    }
    out.static_properties = cd.static_properties.clone();
    out
}

/// Rebuilds a scalar wire value from its `flash-lso` form.
#[verifier::external_body]
fn value_of_ext(v: &FlvValue) -> (r: AmfValue) {
    match v {
        FlvValue::Undefined => AmfValue::Undefined,
        FlvValue::Null => AmfValue::Null,
        FlvValue::Bool(b) => AmfValue::Bool(*b),
        FlvValue::Number(f) => AmfValue::Number(f.to_bits()),
        FlvValue::Integer(n) => AmfValue::Integer(*n),
        FlvValue::String(s) => AmfValue::String(s.clone()),
        FlvValue::ByteArray(b) => AmfValue::ByteArray(b.clone()),
        other => compound_of_ext(other),
    }
}

/// Rebuilds a date, XML node, array or primitive vector.
#[verifier::external_body]
fn compound_of_ext(v: &FlvValue) -> (r: AmfValue) {
    match v {
        FlvValue::Date { time, timezone_or_utc } => AmfValue::Date { millis: time.to_bits(), timezone: *timezone_or_utc },
        FlvValue::XML { value, is_string } => AmfValue::Xml { content: value.clone(), is_string: *is_string },
        FlvValue::StrictArray { id: _, values } => AmfValue::StrictArray(list_of_ext(values)),
        FlvValue::VectorInt(d) => AmfValue::VectorInt { values: d.values.clone(), fixed: d.fixed_length },
        FlvValue::VectorUInt(d) => AmfValue::VectorUInt { values: d.values.clone(), fixed: d.fixed_length },
        FlvValue::VectorDouble(d) => AmfValue::VectorDouble { values: d.values.iter().map(|f| f.to_bits()).collect(), fixed: d.fixed_length },
        other => structured_of_ext(other),
    }
}

/// Rebuilds an associative array, object vector or object.
#[verifier::external_body]
fn structured_of_ext(v: &FlvValue) -> (r: AmfValue) {
    match v {
        FlvValue::ECMAArray { id: _, data } => AmfValue::ECMAArray { dense: list_of_ext(&data.dense), assoc: elems_of_ext(&data.elements), length: data.length },
        FlvValue::VectorObject { id: _, data } => AmfValue::VectorObject { values: list_of_ext(&data.values), element_type: data.object_type_name.clone(), fixed: data.fixed_length },
        FlvValue::Object { id: _, data } => AmfValue::Object { elements: elems_of_ext(&data.elements), class_definition: data.class_definition.as_ref().map(class_of_ext) },
        other => special_of_ext(other),
    }
}

/// Rebuilds the wire values the decoder recognizes but never
/// reconstructs; back-references lose their index, which the decoder
/// ignores anyway.
#[verifier::external_body]
fn special_of_ext(v: &FlvValue) -> (r: AmfValue) {
    match v {
        FlvValue::Dictionary { id: _, data } => AmfValue::Dictionary { entries: data.elements.iter().map(|e| (value_of_ext(&e.key), value_of_ext(&e.value))).collect(), weak_keys: data.weak_keys },
        FlvValue::Custom(data) => AmfValue::Custom { elements: elems_of_ext(&data.elements), dynamic_elements: elems_of_ext(&data.dynamic_elements), name: data.class_definition.name.clone() },
        FlvValue::AMF3(inner) => AmfValue::Amf3(Box::new(value_of_ext(inner))),
        _ => AmfValue::Unsupported,
    }
}

/// Rebuilds a wire value list from its `flash-lso` form.
#[verifier::external_body]
fn list_of_ext(values: &Vec<FlvValue>) -> (r: Vec<AmfValue>) {
    values.iter().map(value_of_ext).collect()
}

/// Rebuilds named elements from their `flash-lso` form.
#[verifier::external_body]
fn elems_of_ext(elems: &Vec<FlvElement>) -> (r: Vec<Element>) {
    elems.iter().map(|e| Element { name: e.name.clone(), value: value_of_ext(&e.value) }).collect()
}

/// Rebuilds a class descriptor from its `flash-lso` form.
#[verifier::external_body]
fn class_of_ext(cd: &FlvClassDefinition) -> (r: crate::wire::ClassDefinition) {
    crate::wire::ClassDefinition {
        name: cd.name.clone(),
        is_dynamic: cd.attributes.contains(flash_lso::types::Attribute::Dynamic),
        static_properties: cd.static_properties.clone(),
    }
}

/// Relies on `flash_lso::write::write_to_bytes` and
/// `flash_lso::read::Reader::parse`: writing an AMF0 store container with
/// this name and body is deterministic, writing to an in-memory buffer
/// does not fail, and rereading the written bytes of a faithfully
/// representable body (`amf0_wire_ok_elems`, container name of bounded
/// length) succeeds and yields that body reshaped by
/// `amf0_normalize_elems`.
#[verifier::external_body]
pub fn lso_write_bytes(name: &str, body: &Vec<Element>) -> (r: Vec<u8>)
    ensures
        r@ == lso_encoded(name@, esm(body@)),
        name@.len() <= 16383 && amf0_wire_ok_elems(esm(body@)) ==> lso_parsed(r@) == Some(
            (name@, amf0_normalize_elems(esm(body@))),
        ),
{
    let elements: Vec<FlvElement> = ext_of_elems(body);
    let mut lso = flash_lso::types::Lso::new(elements, name, flash_lso::types::AMFVersion::AMF0);
    flash_lso::write::write_to_bytes(&mut lso).unwrap_or_default()
}

/// Relies on `flash_lso::read::Reader::parse`: what a byte string parses
/// to depends on the bytes alone; bytes that are not a well-formed
/// container yield `None`.
#[verifier::external_body]
pub fn lso_parse_bytes(bytes: &Vec<u8>) -> (r: Option<(String, Vec<Element>)>)
    ensures
        parse_model(r) == lso_parsed(bytes@),
{
    match flash_lso::read::Reader::default().parse(bytes) {
        Ok(lso) => Some((lso.header.name, elems_of_ext(&lso.body))),
        Err(_) => None,
    }
}

} // verus!
