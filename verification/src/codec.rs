//! The bidirectional codec between dynamic values and wire values.
//!
//! The executable encoder and decoder are verified against the spec-level
//! codec defined here: `spec_serialize` walks a value model and produces a
//! wire model, `spec_deserialize` reconstructs a value model from a wire
//! model.  Property order is significant in both directions.

use crate::numbits::{f64_bits_of_i32, lemma_f64_bits_of_int_range, spec_f64_bits_of_int};
use crate::registry::{
    alias_to_class, class_to_alias, rm, spec_alias_of, spec_dynamic_of, spec_resolve_class,
    ClassRegistry,
};
use crate::strutil::{spec_dec, str_le, str_le_exec, str_eq, u64_to_decimal};
use crate::value::{
    lemma_mm, lemma_pm, lemma_vsm, mm, om, pm, vm, vsm, Member, MemberModel, ObjKind, ObjModel,
    ValModel, ScriptValue,
};
use crate::wire::{
    am, cdm, esm, lemma_esm, lemma_wsm, ssm, wsm, AmfModel, AmfValue, AmfVersion,
    ClassDefModel, ClassDefinition, Element,
};
use vstd::prelude::*;

verus! {

/// The direction in which an object's own properties are enumerated.
/// Flushing a local object store entry uses the legacy reverse order to
/// match the reference player's historical byte ordering.
#[derive(Clone, Copy, PartialEq, Eq, Structural)]
pub enum EnumOrder {
    Forward,
    Reverse,
}

// ------------------------------------------------------------------
// Static-member ordering: fixed-slot properties are serialized sorted
// deterministically by name (ties broken by slot position).
// ------------------------------------------------------------------

/// Whether member `a` sorts at or before member `b`, by name and then by
/// slot position.
pub open spec fn key_le(names: Seq<Seq<char>>, a: int, b: int) -> bool {
    if names[a] == names[b] {
        a <= b
    } else {
        str_le(names[a], names[b])
    }
}

/// Inserts index `x` into an already-sorted index sequence.
pub open spec fn spec_insert_ord(ord: Seq<int>, x: int, names: Seq<Seq<char>>) -> Seq<int>
    decreases ord.len(),
{
    if ord.len() == 0 {
        seq![x]
    } else if key_le(names, ord.last(), x) {
        ord.push(x)
    } else {
        spec_insert_ord(ord.drop_last(), x, names).push(ord.last())
    }
}

/// The sorted order of the first `k` member indices.
pub open spec fn spec_order_upto(names: Seq<Seq<char>>, k: nat) -> Seq<int>
    decreases k,
{
    if k == 0 {
        Seq::empty()
    } else {
        spec_insert_ord(spec_order_upto(names, (k - 1) as nat), k - 1, names)
    }
}

/// The order in which fixed-slot members are serialized: their indices
/// sorted by name.
pub open spec fn spec_member_order(names: Seq<Seq<char>>) -> Seq<int> {
    spec_order_upto(names, names.len())
}

pub proof fn lemma_insert_ord_shape(ord: Seq<int>, x: int, names: Seq<Seq<char>>, n: int)
    requires
        forall|j: int| 0 <= j < ord.len() ==> 0 <= #[trigger] ord[j] < n,
        0 <= x < n,
    ensures
        spec_insert_ord(ord, x, names).len() == ord.len() + 1,
        forall|j: int|
            0 <= j < spec_insert_ord(ord, x, names).len() ==> 0 <= #[trigger] spec_insert_ord(
                ord,
                x,
                names,
            )[j] < n,
    decreases ord.len(),
{
    if ord.len() != 0 && !key_le(names, ord.last(), x) {
        lemma_insert_ord_shape(ord.drop_last(), x, names, n);
    }
}

pub proof fn lemma_order_upto_shape(names: Seq<Seq<char>>, k: nat, n: int)
    requires
        k <= n,
    ensures
        spec_order_upto(names, k).len() == k,
        forall|j: int|
            0 <= j < k ==> 0 <= #[trigger] spec_order_upto(names, k)[j] < n,
    decreases k,
{
    if k > 0 {
        lemma_order_upto_shape(names, (k - 1) as nat, n);
        lemma_insert_ord_shape(spec_order_upto(names, (k - 1) as nat), k - 1, names, n);
    }
}

/// `key_le` is total.
proof fn lemma_key_le_total(names: Seq<Seq<char>>, a: int, b: int)
    ensures
        key_le(names, a, b) || key_le(names, b, a),
{
    if names[a] != names[b] {
        crate::strutil::lemma_str_le_total(names[a], names[b]);
    }
}

/// `key_le` is transitive.
proof fn lemma_key_le_trans(names: Seq<Seq<char>>, a: int, b: int, c: int)
    requires
        key_le(names, a, b),
        key_le(names, b, c),
    ensures
        key_le(names, a, c),
{
    if names[a] != names[b] && names[b] != names[c] {
        crate::strutil::lemma_str_le_trans(names[a], names[b], names[c]);
        if names[a] == names[c] {
            crate::strutil::lemma_str_le_antisym(names[a], names[b]);
        }
    }
}

/// An index sequence visits members in sorted order.
pub open spec fn ord_sorted(names: Seq<Seq<char>>, ord: Seq<int>) -> bool {
    forall|i: int, j: int| 0 <= i < j < ord.len() ==> key_le(names, #[trigger] ord[i], #[trigger] ord[j])
}

proof fn lemma_insert_ord_multiset(ord: Seq<int>, x: int, names: Seq<Seq<char>>)
    ensures
        spec_insert_ord(ord, x, names).to_multiset() == ord.to_multiset().insert(x),
    decreases ord.len(),
{
    broadcast use vstd::seq_lib::group_to_multiset_ensures;

    if ord.len() == 0 {
        assert(seq![x] =~= Seq::<int>::empty().push(x));
        assert(Seq::<int>::empty().push(x).to_multiset() =~= Seq::<
            int,
        >::empty().to_multiset().insert(x));
    } else if key_le(names, ord.last(), x) {
    } else {
        lemma_insert_ord_multiset(ord.drop_last(), x, names);
        let sub = spec_insert_ord(ord.drop_last(), x, names);
        assert(sub.push(ord.last()).to_multiset() =~= sub.to_multiset().insert(ord.last()));
        assert(ord.drop_last().push(ord.last()) =~= ord);
        assert(ord.drop_last().push(ord.last()).to_multiset()
            =~= ord.drop_last().to_multiset().insert(ord.last()));
        assert(spec_insert_ord(ord, x, names).to_multiset() =~= ord.to_multiset().insert(x));
    }
}

proof fn lemma_insert_ord_sorted(ord: Seq<int>, x: int, names: Seq<Seq<char>>)
    requires
        ord_sorted(names, ord),
    ensures
        ord_sorted(names, spec_insert_ord(ord, x, names)),
    decreases ord.len(),
{
    broadcast use vstd::seq_lib::group_to_multiset_ensures;

    if ord.len() == 0 {
    } else if key_le(names, ord.last(), x) {
        let r = ord.push(x);
        assert forall|i: int, j: int| 0 <= i < j < r.len() implies key_le(
            names,
            #[trigger] r[i],
            #[trigger] r[j],
        ) by {
            if j == r.len() - 1 {
                if i < ord.len() - 1 {
                    assert(key_le(names, ord[i], ord[ord.len() - 1]));
                    lemma_key_le_trans(names, ord[i], ord[ord.len() - 1], x);
                }
            }
        }
    } else {
        assert(ord_sorted(names, ord.drop_last())) by {
            assert forall|i: int, j: int| 0 <= i < j < ord.drop_last().len() implies key_le(
                names,
                #[trigger] ord.drop_last()[i],
                #[trigger] ord.drop_last()[j],
            ) by {
                assert(ord.drop_last()[i] == ord[i]);
                assert(ord.drop_last()[j] == ord[j]);
            }
        }
        lemma_insert_ord_sorted(ord.drop_last(), x, names);
        lemma_insert_ord_multiset(ord.drop_last(), x, names);
        let sub = spec_insert_ord(ord.drop_last(), x, names);
        lemma_key_le_total(names, ord.last(), x);
        assert forall|i: int| 0 <= i < sub.len() implies key_le(
            names,
            #[trigger] sub[i],
            ord.last(),
        ) by {
            assert(sub.to_multiset().count(sub[i]) > 0);
            if sub[i] == x {
                assert(key_le(names, x, ord.last()));
            } else {
                assert(ord.drop_last().to_multiset().count(sub[i]) > 0);
                assert(ord.drop_last().contains(sub[i]));
                let m = choose|m: int|
                    0 <= m < ord.drop_last().len() && ord.drop_last()[m] == sub[i];
                assert(ord[m] == sub[i]);
                assert(key_le(names, ord[m], ord[ord.len() - 1]));
            }
        }
        let r = sub.push(ord.last());
        assert forall|i: int, j: int| 0 <= i < j < r.len() implies key_le(
            names,
            #[trigger] r[i],
            #[trigger] r[j],
        ) by {
            if j < r.len() - 1 {
                assert(r[i] == sub[i]);
                assert(r[j] == sub[j]);
            } else {
                assert(r[i] == sub[i]);
            }
        }
    }
}

/// The member serialization order is exactly the member indices, visited
/// sorted by name (ties keep slot order).
pub proof fn lemma_member_order_sorted(names: Seq<Seq<char>>)
    ensures
        spec_member_order(names).len() == names.len(),
        ord_sorted(names, spec_member_order(names)),
        spec_member_order(names).to_multiset() == Seq::new(
            names.len(),
            |i: int| i,
        ).to_multiset(),
{
    lemma_order_upto_sorted(names, names.len());
    lemma_order_upto_shape(names, names.len(), names.len() as int);
}

proof fn lemma_order_upto_sorted(names: Seq<Seq<char>>, k: nat)
    ensures
        ord_sorted(names, spec_order_upto(names, k)),
        spec_order_upto(names, k).to_multiset() == Seq::new(k, |i: int| i).to_multiset(),
    decreases k,
{
    broadcast use vstd::seq_lib::group_to_multiset_ensures;

    if k == 0 {
        assert(spec_order_upto(names, 0) =~= Seq::<int>::empty());
        assert(Seq::new(0, |i: int| i) =~= Seq::<int>::empty());
    } else {
        lemma_order_upto_sorted(names, (k - 1) as nat);
        lemma_insert_ord_sorted(spec_order_upto(names, (k - 1) as nat), k - 1, names);
        lemma_insert_ord_multiset(spec_order_upto(names, (k - 1) as nat), k - 1, names);
        let idx = Seq::new(k, |i: int| i);
        assert(idx.drop_last() =~= Seq::new((k - 1) as nat, |i: int| i));
        assert(idx.drop_last().push(k - 1) =~= idx);
        assert(idx.drop_last().push(k - 1).to_multiset() =~= idx.drop_last().to_multiset().insert(
            k - 1,
        ));
    }
}

/// The names of a member list, in slot order.
pub open spec fn names_of(members: Seq<MemberModel>) -> Seq<Seq<char>> {
    Seq::new(members.len(), |i: int| members[i].name)
}

// ------------------------------------------------------------------
// Encoding well-formedness: typed object vectors never hold an element
// that serializes to nothing (an executable).  Upstream type tracking
// guarantees this; a violation would be an internal invariant break.
// ------------------------------------------------------------------

/// Whether a value may be handed to the encoder.
pub open spec fn wf_encode(v: ValModel) -> bool
    decreases v, 1int,
{
    match v {
        ValModel::Obj(k) => wf_encode_obj(k),
        _ => true,
    }
}

/// Whether an object may be handed to the encoder.
pub open spec fn wf_encode_obj(k: ObjModel) -> bool
    decreases k, 3int,
{
    match k {
        ObjModel::Function { props } => true,
        ObjModel::Display => true,
        ObjModel::Array { length, props } => wf_encode_props(props),
        ObjModel::VectorInt { values, fixed } => true,
        ObjModel::VectorUInt { values, fixed } => true,
        ObjModel::VectorDouble { values, fixed } => true,
        ObjModel::VectorObject { values, class, fixed } => wf_encode_vals(values) && forall|
            i: int,
        |
            0 <= i < values.len() ==> !(#[trigger] values[i] matches ValModel::Obj(
                ObjModel::Function { .. },
            )),
        ObjModel::Date { millis } => true,
        ObjModel::Xml { text } => true,
        ObjModel::ByteArray { bytes } => true,
        ObjModel::Instance { class, members, props } => wf_encode_members(members)
            && wf_encode_props(props),
    }
}

/// Whether every property value may be handed to the encoder.
pub open spec fn wf_encode_props(props: Seq<(Seq<char>, ValModel)>) -> bool
    decreases props, 0int,
{
    if props.len() == 0 {
        true
    } else {
        wf_encode(props.first().1) && wf_encode_props(props.drop_first())
    }
}

/// Whether every element may be handed to the encoder.
pub open spec fn wf_encode_vals(values: Seq<ValModel>) -> bool
    decreases values, 0int,
{
    if values.len() == 0 {
        true
    } else {
        wf_encode(values.first()) && wf_encode_vals(values.drop_first())
    }
}

/// Whether every member value may be handed to the encoder.
pub open spec fn wf_encode_members(members: Seq<MemberModel>) -> bool
    decreases members, 0int,
{
    if members.len() == 0 {
        true
    } else {
        wf_encode(members.first().value) && wf_encode_members(members.drop_first())
    }
}

pub proof fn lemma_wf_encode_props_at(props: Seq<(Seq<char>, ValModel)>, i: int)
    requires
        wf_encode_props(props),
        0 <= i < props.len(),
    ensures
        wf_encode(props[i].1),
    decreases i,
{
    if i > 0 {
        lemma_wf_encode_props_at(props.drop_first(), i - 1);
    }
}

pub proof fn lemma_wf_encode_vals_at(values: Seq<ValModel>, i: int)
    requires
        wf_encode_vals(values),
        0 <= i < values.len(),
    ensures
        wf_encode(values[i]),
    decreases i,
{
    if i > 0 {
        lemma_wf_encode_vals_at(values.drop_first(), i - 1);
    }
}

pub proof fn lemma_wf_encode_members_at(members: Seq<MemberModel>, i: int)
    requires
        wf_encode_members(members),
        0 <= i < members.len(),
    ensures
        wf_encode(members[i].value),
    decreases i,
{
    if i > 0 {
        lemma_wf_encode_members_at(members.drop_first(), i - 1);
    }
}

// ------------------------------------------------------------------
// The spec-level encoder.
// ------------------------------------------------------------------

/// The AMF3 small-integer bound: integers in `[-2^28, 2^28)` are encoded
/// as Integer under AMF3; anything else widens to Number.
pub open spec fn int_in_amf3_range(n: i32) -> bool {
    -0x1000_0000 <= n < 0x1000_0000
}

/// What the encoder produces for a value, or `None` when the value is
/// omitted entirely (executables).
pub open spec fn spec_serialize(
    v: ValModel,
    ver: AmfVersion,
    order: EnumOrder,
    reg: Seq<(Seq<char>, bool)>,
) -> Option<AmfModel>
    decreases v, 0int,
{
    match v {
        ValModel::Undefined => Some(AmfModel::Undefined),
        ValModel::Null => Some(AmfModel::Null),
        ValModel::Bool(b) => Some(AmfModel::Bool(b)),
        ValModel::Num(bits) => Some(AmfModel::Num(bits)),
        ValModel::Int(n) => if ver == AmfVersion::Amf0 || !int_in_amf3_range(n) {
            Some(AmfModel::Num(spec_f64_bits_of_int(n as int) as u64))
        } else {
            Some(AmfModel::Int(n))
        },
        ValModel::Str(s) => Some(AmfModel::Str(s)),
        ValModel::Obj(k) => spec_serialize_obj(k, ver, order, reg),
    }
}

/// What the encoder produces for an object, by capability.
pub open spec fn spec_serialize_obj(
    k: ObjModel,
    ver: AmfVersion,
    order: EnumOrder,
    reg: Seq<(Seq<char>, bool)>,
) -> Option<AmfModel>
    decreases k, 4int,
{
    match k {
        ObjModel::Function { props } => None,
        ObjModel::Display => Some(AmfModel::Undefined),
        ObjModel::Array { length, props } => {
            let elems = spec_ser_props(props, ver, order, reg);
            let split = spec_split_dense(elems, 0);
            if split.1.len() == 0 {
                Some(AmfModel::Strict(split.0))
            } else {
                Some(
                    AmfModel::Ecma {
                        dense: split.0,
                        assoc: split.1,
                        length: split.1.len() as u32,
                    },
                )
            }
        },
        ObjModel::VectorInt { values, fixed } => Some(AmfModel::VectorInt { values, fixed }),
        ObjModel::VectorUInt { values, fixed } => Some(AmfModel::VectorUInt { values, fixed }),
        ObjModel::VectorDouble { values, fixed } => Some(AmfModel::VectorDouble { values, fixed }),
        ObjModel::VectorObject { values, class, fixed } => Some(
            AmfModel::VectorObject {
                values: spec_ser_list(values, ver, order, reg),
                element_type: spec_alias_of(reg, class),
                fixed,
            },
        ),
        ObjModel::Date { millis } => Some(AmfModel::Date { millis, timezone: None }),
        ObjModel::Xml { text } => Some(AmfModel::Xml { content: text, is_string: true }),
        ObjModel::ByteArray { bytes } => Some(AmfModel::Bytes(bytes)),
        ObjModel::Instance { class, members, props } => {
            let ord = spec_member_order(names_of(members));
            let st = spec_static_elems(members, ord, ver, order, reg);
            let dyns = spec_ser_props(props, ver, order, reg);
            let cd = if ver == AmfVersion::Amf3 {
                Some(
                    ClassDefModel {
                        name: spec_alias_of(reg, class),
                        is_dynamic: spec_dynamic_of(reg, class),
                        static_properties: st.1,
                    },
                )
            } else {
                None
            };
            Some(AmfModel::Object { elements: st.0 + dyns, class_definition: cd })
        },
    }
}

/// The elements an object's own properties serialize to, in enumeration
/// order (forward or legacy reverse); omitted values leave no element.
pub open spec fn spec_ser_props(
    props: Seq<(Seq<char>, ValModel)>,
    ver: AmfVersion,
    order: EnumOrder,
    reg: Seq<(Seq<char>, bool)>,
) -> Seq<(Seq<char>, AmfModel)>
    decreases props, 1int,
{
    if props.len() == 0 {
        Seq::empty()
    } else {
        let p = if order == EnumOrder::Forward {
            props.first()
        } else {
            props.last()
        };
        let rest = if order == EnumOrder::Forward {
            props.drop_first()
        } else {
            props.drop_last()
        };
        let head: Seq<(Seq<char>, AmfModel)> = match spec_serialize(p.1, ver, order, reg) {
            Some(a) => seq![(p.0, a)],
            None => Seq::empty(),
        };
        head + spec_ser_props(rest, ver, order, reg)
    }
}

/// The wire values a typed object vector's elements serialize to.
pub open spec fn spec_ser_list(
    values: Seq<ValModel>,
    ver: AmfVersion,
    order: EnumOrder,
    reg: Seq<(Seq<char>, bool)>,
) -> Seq<AmfModel>
    decreases values, 1int,
{
    if values.len() == 0 {
        Seq::empty()
    } else {
        let head = match spec_serialize(values.first(), ver, order, reg) {
            Some(a) => a,
            None => AmfModel::Undefined,
        };
        seq![head] + spec_ser_list(values.drop_first(), ver, order, reg)
    }
}

/// The elements and static-property names the fixed-slot members produce,
/// visited in sorted order; members lacking a getter or a setter, and
/// members whose value is omitted, contribute nothing.
pub open spec fn spec_static_elems(
    members: Seq<MemberModel>,
    ord: Seq<int>,
    ver: AmfVersion,
    order: EnumOrder,
    reg: Seq<(Seq<char>, bool)>,
) -> (Seq<(Seq<char>, AmfModel)>, Seq<Seq<char>>)
    decreases members, ord.len(),
{
    if ord.len() == 0 {
        (Seq::empty(), Seq::empty())
    } else {
        let rest = spec_static_elems(members, ord.drop_first(), ver, order, reg);
        let i = ord.first();
        if 0 <= i < members.len() {
            let m = members[i];
            if m.has_getter && m.has_setter {
                match spec_serialize(m.value, ver, order, reg) {
                    Some(a) => (seq![(m.name, a)] + rest.0, seq![m.name] + rest.1),
                    None => rest,
                }
            } else {
                rest
            }
        } else {
            rest
        }
    }
}

/// Splits already-serialized array elements into the dense prefix and the
/// sparse remainder: the element at position `i` is dense exactly when its
/// name is the canonical decimal rendering of `i`.
pub open spec fn spec_split_dense(elems: Seq<(Seq<char>, AmfModel)>, i: nat) -> (
    Seq<AmfModel>,
    Seq<(Seq<char>, AmfModel)>,
)
    decreases elems.len(),
{
    if elems.len() == 0 {
        (Seq::empty(), Seq::empty())
    } else {
        let rest = spec_split_dense(elems.drop_first(), i + 1);
        if elems.first().0 == spec_dec(i) {
            (seq![elems.first().1] + rest.0, rest.1)
        } else {
            (rest.0, seq![elems.first()] + rest.1)
        }
    }
}

// ------------------------------------------------------------------
// The spec-level decoder: total over wire models.
// ------------------------------------------------------------------

/// Assigning one named property: replaces the first property of that name,
/// or appends a new one.
pub open spec fn spec_set_prop(
    props: Seq<(Seq<char>, ValModel)>,
    name: Seq<char>,
    v: ValModel,
) -> Seq<(Seq<char>, ValModel)>
    decreases props.len(),
{
    if props.len() == 0 {
        seq![(name, v)]
    } else if props.first().0 == name {
        seq![(name, v)] + props.drop_first()
    } else {
        seq![props.first()] + spec_set_prop(props.drop_first(), name, v)
    }
}

/// Assigns each pair as a named property, in listed order.
pub open spec fn spec_apply_props(
    props: Seq<(Seq<char>, ValModel)>,
    elems: Seq<(Seq<char>, ValModel)>,
) -> Seq<(Seq<char>, ValModel)>
    decreases elems.len(),
{
    if elems.len() == 0 {
        props
    } else {
        spec_apply_props(
            spec_set_prop(props, elems.first().0, elems.first().1),
            elems.drop_first(),
        )
    }
}

/// What the decoder reconstructs from a wire value.
pub open spec fn spec_deserialize(a: AmfModel, reg: Seq<(Seq<char>, bool)>) -> ValModel
    decreases a, 1int,
{
    match a {
        AmfModel::Undefined => ValModel::Undefined,
        AmfModel::Null => ValModel::Null,
        AmfModel::Bool(b) => ValModel::Bool(b),
        AmfModel::Num(bits) => ValModel::Num(bits),
        AmfModel::Int(n) => ValModel::Int(n),
        AmfModel::Str(s) => ValModel::Str(s),
        AmfModel::Bytes(bytes) => ValModel::Obj(ObjModel::ByteArray { bytes }),
        AmfModel::Date { millis, timezone } => ValModel::Obj(ObjModel::Date { millis }),
        AmfModel::Xml { content, is_string } => ValModel::Obj(ObjModel::Xml { text: content }),
        AmfModel::Strict(values) => ValModel::Obj(
            ObjModel::Array {
                length: values.len() as u32,
                props: spec_dense_props(values, reg),
            },
        ),
        AmfModel::Ecma { dense, assoc, length } => {
            let reported = if dense.len() as u32 > length {
                dense.len() as u32
            } else {
                length
            };
            ValModel::Obj(
                ObjModel::Array {
                    length: reported,
                    props: spec_apply_props(
                        spec_dense_props(dense, reg),
                        spec_deser_elems(assoc, reg),
                    ),
                },
            )
        },
        AmfModel::VectorInt { values, fixed } => ValModel::Obj(
            ObjModel::VectorInt { values, fixed },
        ),
        AmfModel::VectorUInt { values, fixed } => ValModel::Obj(
            ObjModel::VectorUInt { values, fixed },
        ),
        AmfModel::VectorDouble { values, fixed } => ValModel::Obj(
            ObjModel::VectorDouble { values, fixed },
        ),
        AmfModel::VectorObject { values, element_type, fixed } => ValModel::Obj(
            ObjModel::VectorObject {
                values: spec_deser_list(values, reg),
                class: spec_resolve_class(reg, element_type),
                fixed,
            },
        ),
        AmfModel::Object { elements, class_definition } => {
            let class = match class_definition {
                Some(cd) => spec_resolve_class(reg, cd.name),
                None => 0,
            };
            ValModel::Obj(
                ObjModel::Instance {
                    class,
                    members: Seq::empty(),
                    props: spec_apply_props(Seq::empty(), spec_deser_elems(elements, reg)),
                },
            )
        },
        AmfModel::Dictionary { entries, weak_keys } => ValModel::Undefined,
        AmfModel::Custom { elements, dynamic_elements, name } => ValModel::Undefined,
        AmfModel::Reference(r) => ValModel::Undefined,
        AmfModel::Amf3(inner) => spec_deserialize(*inner, reg),
        AmfModel::Unsupported => ValModel::Undefined,
    }
}

/// Decodes a wire value list pointwise.
pub open spec fn spec_deser_list(s: Seq<AmfModel>, reg: Seq<(Seq<char>, bool)>) -> Seq<ValModel>
    decreases s, 2int,
{
    if s.len() == 0 {
        Seq::empty()
    } else {
        seq![spec_deserialize(s.first(), reg)] + spec_deser_list(s.drop_first(), reg)
    }
}

/// Decodes named elements pointwise, keeping their order.
pub open spec fn spec_deser_elems(
    s: Seq<(Seq<char>, AmfModel)>,
    reg: Seq<(Seq<char>, bool)>,
) -> Seq<(Seq<char>, ValModel)>
    decreases s, 2int,
{
    if s.len() == 0 {
        Seq::empty()
    } else {
        seq![(s.first().0, spec_deserialize(s.first().1, reg))] + spec_deser_elems(
            s.drop_first(),
            reg,
        )
    }
}

/// The dense portion of a decoded array: element `i` stored under the
/// canonical decimal rendering of `i`.
pub open spec fn spec_dense_props(
    dense: Seq<AmfModel>,
    reg: Seq<(Seq<char>, bool)>,
) -> Seq<(Seq<char>, ValModel)>
    decreases dense, 2int,
{
    if dense.len() == 0 {
        Seq::empty()
    } else {
        spec_dense_props(dense.drop_last(), reg).push(
            (spec_dec((dense.len() - 1) as nat), spec_deserialize(dense.last(), reg)),
        )
    }
}

/// What an entire parsed store container decodes to: a fresh generic
/// object holding each element as a property, assigned in listed order.
pub open spec fn spec_deserialize_lso(
    body: Seq<(Seq<char>, AmfModel)>,
    reg: Seq<(Seq<char>, bool)>,
) -> ValModel {
    ValModel::Obj(
        ObjModel::Instance {
            class: 0,
            members: Seq::empty(),
            props: spec_apply_props(Seq::empty(), spec_deser_elems(body, reg)),
        },
    )
}


// ------------------------------------------------------------------
// The executable encoder.
// ------------------------------------------------------------------

/// An index sequence as mathematical integers.
pub open spec fn ord_model(s: Seq<usize>) -> Seq<int> {
    Seq::new(s.len(), |i: int| s[i] as int)
}

/// Whether member `a` sorts at or before member `b`.
fn key_le_exec(members: &Vec<Member>, a: usize, b: usize) -> (r: bool)
    requires
        a < members@.len(),
        b < members@.len(),
    ensures
        r == key_le(names_of(mm(members@)), a as int, b as int),
{
    proof {
        lemma_mm(members@);
    }
    if str_eq(members[a].name.as_str(), members[b].name.as_str()) {
        a <= b
    } else {
        str_le_exec(members[a].name.as_str(), members[b].name.as_str())
    }
}

/// Where `x` belongs in the sorted index list.
fn find_insert_pos(members: &Vec<Member>, ord: &Vec<usize>, x: usize) -> (pos: usize)
    requires
        x < members@.len(),
        forall|j: int| 0 <= j < ord@.len() ==> #[trigger] ord@[j] < members@.len(),
    ensures
        pos <= ord@.len(),
        forall|j: int|
            pos <= j < ord@.len() ==> !key_le(
                names_of(mm(members@)),
                ord@[j] as int,
                x as int,
            ),
        pos > 0 ==> key_le(names_of(mm(members@)), ord@[pos - 1] as int, x as int),
{
    let mut pos: usize = ord.len();
    while pos > 0
        invariant
            pos <= ord@.len(),
            x < members@.len(),
            forall|j: int| 0 <= j < ord@.len() ==> #[trigger] ord@[j] < members@.len(),
            forall|j: int|
                pos <= j < ord@.len() ==> !key_le(
                    names_of(mm(members@)),
                    ord@[j] as int,
                    x as int,
                ),
        decreases pos,
    {
        if key_le_exec(members, ord[pos - 1], x) {
            return pos;
        }
        pos = pos - 1;
    }
    0
}

/// Inserting at the found position is what `spec_insert_ord` does.
proof fn lemma_insert_ord_at(ord: Seq<int>, x: int, names: Seq<Seq<char>>, pos: int)
    requires
        0 <= pos <= ord.len(),
        forall|j: int| pos <= j < ord.len() ==> !key_le(names, #[trigger] ord[j], x),
        pos > 0 ==> key_le(names, ord[pos - 1], x),
    ensures
        spec_insert_ord(ord, x, names) =~= ord.insert(pos, x),
    decreases ord.len(),
{
    if ord.len() == 0 {
    } else if key_le(names, ord.last(), x) {
        assert(pos == ord.len());
    } else {
        assert(pos < ord.len());
        lemma_insert_ord_at(ord.drop_last(), x, names, pos);
        assert(spec_insert_ord(ord, x, names) =~= ord.insert(pos, x));
    }
}

/// Computes the order in which fixed-slot members are serialized: their
/// indices, sorted by name (ties keep slot order).
pub fn member_sort_order(members: &Vec<Member>) -> (ord: Vec<usize>)
    ensures
        ord_model(ord@) == spec_member_order(names_of(mm(members@))),
        ord@.len() == members@.len(),
        forall|j: int| 0 <= j < ord@.len() ==> #[trigger] ord@[j] < members@.len(),
{
    let ghost names = names_of(mm(members@));
    proof {
        lemma_mm(members@);
    }
    let n = members.len();
    let mut ord: Vec<usize> = Vec::new();
    let mut k: usize = 0;
    while k < n
        invariant
            k <= n,
            n == members@.len(),
            names == names_of(mm(members@)),
            ord_model(ord@) =~= spec_order_upto(names, k as nat),
            ord@.len() == k,
            forall|j: int| 0 <= j < ord@.len() ==> #[trigger] ord@[j] < members@.len(),
        decreases n - k,
    {
        let pos = find_insert_pos(members, &ord, k);
        let ghost before = ord@;
        ord.insert(pos, k);
        proof {
            assert forall|j: int| 0 <= j < ord@.len() implies ord_model(ord@)[j] == ord_model(
                before,
            ).insert(pos as int, k as int)[j] by {
                if j < pos {
                    assert(ord@[j] == before[j]);
                } else if j == pos {
                    assert(ord@[j] == k);
                } else {
                    assert(ord@[j] == before[j - 1]);
                }
            }
            assert(ord_model(ord@) =~= ord_model(before).insert(pos as int, k as int));
            lemma_insert_ord_at(ord_model(before), k as int, names, pos as int);
            assert(spec_order_upto(names, (k + 1) as nat) == spec_insert_ord(
                spec_order_upto(names, k as nat),
                k as int,
                names,
            ));
            assert(ord_model(ord@) =~= spec_order_upto(names, (k + 1) as nat));
        }
        k = k + 1;
    }
    ord
}


/// The model of an optional wire value.
pub open spec fn opt_am(r: Option<AmfValue>) -> Option<AmfModel> {
    match r {
        Some(a) => Some(am(a)),
        None => None,
    }
}

/// Duplicates a vector of plain copyable values.
pub fn vec_dup<T: Copy>(values: &Vec<T>) -> (r: Vec<T>)
    ensures
        r@ =~= values@,
{
    let mut out: Vec<T> = Vec::new();
    let mut i: usize = 0;
    while i < values.len()
        invariant
            i <= values@.len(),
            out@ =~= values@.subrange(0, i as int),
        decreases values@.len() - i,
    {
        out.push(values[i]);
        i = i + 1;
    }
    out
}

/// Serializes an object's own properties into wire elements, visiting them
/// in the requested enumeration order; omitted values leave no element.
pub fn serialize_props(
    props: &Vec<(String, ScriptValue)>,
    amf_version: AmfVersion,
    order: EnumOrder,
    registry: &ClassRegistry,
) -> (r: Vec<Element>)
    requires
        wf_encode_props(pm(props@)),
    ensures
        esm(r@) == spec_ser_props(pm(props@), amf_version, order, rm(*registry)),
    decreases props, 0int,
{
    proof {
        lemma_pm(props@);
    }
    let ghost full = pm(props@);
    let ghost regm = rm(*registry);
    let mut out: Vec<Element> = Vec::new();
    let n = props.len();
    if order == EnumOrder::Forward {
        proof {
            assert(full.skip(0) =~= full);
            assert(esm(Seq::<Element>::empty()) + spec_ser_props(full, amf_version, order, regm)
                =~= spec_ser_props(full, amf_version, order, regm));
        }
        let mut i: usize = 0;
        while i < n
            invariant
                i <= n,
                n == props@.len(),
                full == pm(props@),
                full.len() == n,
                forall|j: int| 0 <= j < n ==> full[j] == (props@[j].0@, vm(props@[j].1)),
                wf_encode_props(full),
                regm == rm(*registry),
                spec_ser_props(full, amf_version, order, regm) == esm(out@) + spec_ser_props(
                    full.skip(i as int),
                    amf_version,
                    order,
                    regm,
                ),
                order == EnumOrder::Forward,
            decreases n - i,
        {
            proof {
                lemma_wf_encode_props_at(full, i as int);
                assert(full.skip(i as int).first() == full[i as int]);
                assert(full.skip(i as int).drop_first() =~= full.skip(i as int + 1));
            }
            let ghost out_before = out@;
            let enc = serialize_value(&props[i].1, amf_version, order, registry);
            match enc {
                Some(a) => {
                    let el = Element { name: props[i].0.clone(), value: a };
                    out.push(el);
                    proof {
                        assert(out@.drop_last() =~= out_before);
                        assert(esm(out@) =~= esm(out_before).push((el.name@, am(el.value))));
                        assert(esm(out@) + spec_ser_props(
                            full.skip(i as int + 1),
                            amf_version,
                            order,
                            regm,
                        ) =~= esm(out_before) + spec_ser_props(
                            full.skip(i as int),
                            amf_version,
                            order,
                            regm,
                        ));
                    }
                },
                None => {},
            }
            i = i + 1;
        }
        proof {
            assert(full.skip(n as int) =~= Seq::empty());
        }
    } else {
        proof {
            assert(full.take(n as int) =~= full);
            assert(esm(Seq::<Element>::empty()) + spec_ser_props(full, amf_version, order, regm)
                =~= spec_ser_props(full, amf_version, order, regm));
        }
        let mut i: usize = n;
        while i > 0
            invariant
                i <= n,
                n == props@.len(),
                full == pm(props@),
                full.len() == n,
                forall|j: int| 0 <= j < n ==> full[j] == (props@[j].0@, vm(props@[j].1)),
                wf_encode_props(full),
                regm == rm(*registry),
                spec_ser_props(full, amf_version, order, regm) == esm(out@) + spec_ser_props(
                    full.take(i as int),
                    amf_version,
                    order,
                    regm,
                ),
                order == EnumOrder::Reverse,
            decreases i,
        {
            i = i - 1;
            proof {
                lemma_wf_encode_props_at(full, i as int);
                assert(full.take(i as int + 1).last() == full[i as int]);
                assert(full.take(i as int + 1).drop_last() =~= full.take(i as int));
            }
            let ghost out_before = out@;
            let enc = serialize_value(&props[i].1, amf_version, order, registry);
            match enc {
                Some(a) => {
                    let el = Element { name: props[i].0.clone(), value: a };
                    out.push(el);
                    proof {
                        assert(out@.drop_last() =~= out_before);
                        assert(esm(out@) =~= esm(out_before).push((el.name@, am(el.value))));
                        assert(esm(out@) + spec_ser_props(
                            full.take(i as int),
                            amf_version,
                            order,
                            regm,
                        ) =~= esm(out_before) + spec_ser_props(
                            full.take(i as int + 1),
                            amf_version,
                            order,
                            regm,
                        ));
                    }
                },
                None => {},
            }
        }
        proof {
            assert(full.take(0) =~= Seq::empty());
        }
    }
    proof {
        assert(esm(out@) + Seq::<(Seq<char>, AmfModel)>::empty() =~= esm(out@));
    }
    out
}

/// Serializes the fixed-slot members in sorted order, returning the
/// elements and the static-property-name list.
pub fn serialize_statics(
    members: &Vec<Member>,
    amf_version: AmfVersion,
    order: EnumOrder,
    registry: &ClassRegistry,
) -> (r: (Vec<Element>, Vec<String>))
    requires
        wf_encode_members(mm(members@)),
    ensures
        (esm(r.0@), ssm(r.1@)) == spec_static_elems(
            mm(members@),
            spec_member_order(names_of(mm(members@))),
            amf_version,
            order,
            rm(*registry),
        ),
    decreases members, 0int,
{
    proof {
        lemma_mm(members@);
    }
    let ghost memm = mm(members@);
    let ghost names = names_of(memm);
    let ghost regm = rm(*registry);
    let ord = member_sort_order(members);
    let ghost ordm = ord_model(ord@);
    proof {
        lemma_order_upto_shape(names, names.len(), names.len() as int);
    }
    let mut elems: Vec<Element> = Vec::new();
    let mut statics: Vec<String> = Vec::new();
    let nord = ord.len();
    proof {
        let whole = spec_static_elems(memm, ordm, amf_version, order, regm);
        assert(ordm.skip(0) =~= ordm);
        assert(esm(Seq::<Element>::empty()) + whole.0 =~= whole.0);
        assert(ssm(Seq::<String>::empty()) + whole.1 =~= whole.1);
    }
    let mut j: usize = 0;
    while j < nord
        invariant
            j <= nord,
            nord == ord@.len(),
            memm == mm(members@),
            memm.len() == members@.len(),
            forall|i: int|
                0 <= i < memm.len() ==> memm[i] == (MemberModel {
                    name: members@[i].name@,
                    value: vm(members@[i].value),
                    has_getter: members@[i].has_getter,
                    has_setter: members@[i].has_setter,
                }),
            wf_encode_members(memm),
            names == names_of(memm),
            regm == rm(*registry),
            ordm == ord_model(ord@),
            forall|i: int| 0 <= i < ord@.len() ==> #[trigger] ord@[i] < members@.len(),
            spec_static_elems(memm, ordm, amf_version, order, regm) == {
                let rest = spec_static_elems(
                    memm,
                    ordm.skip(j as int),
                    amf_version,
                    order,
                    regm,
                );
                (esm(elems@) + rest.0, ssm(statics@) + rest.1)
            },
        decreases nord - j,
    {
        let idx = ord[j];
        proof {
            assert(ordm.skip(j as int).first() == ordm[j as int]);
            assert(ordm.skip(j as int).drop_first() =~= ordm.skip(j as int + 1));
            lemma_wf_encode_members_at(memm, idx as int);
        }
        let ghost elems_before = elems@;
        let ghost statics_before = statics@;
        if members[idx].has_getter && members[idx].has_setter {
            let enc = serialize_value(&members[idx].value, amf_version, order, registry);
            match enc {
                Some(a) => {
                    let el = Element { name: members[idx].name.clone(), value: a };
                    elems.push(el);
                    statics.push(members[idx].name.clone());
                    proof {
                        assert(elems@.drop_last() =~= elems_before);
                        assert(esm(elems@) =~= esm(elems_before).push((el.name@, am(el.value))));
                        assert(statics@.drop_last() =~= statics_before);
                        assert(ssm(statics@) =~= ssm(statics_before).push(
                            members@[idx as int].name@,
                        ));
                        let rest_next = spec_static_elems(
                            memm,
                            ordm.skip(j as int + 1),
                            amf_version,
                            order,
                            regm,
                        );
                        assert(esm(elems@) + rest_next.0 =~= esm(elems_before) + (seq![
                            (memm[idx as int].name, am(el.value)),
                        ] + rest_next.0));
                        assert(ssm(statics@) + rest_next.1 =~= ssm(statics_before) + (seq![
                            memm[idx as int].name,
                        ] + rest_next.1));
                    }
                },
                None => {},
            }
        }
        j = j + 1;
    }
    proof {
        assert(ordm.skip(nord as int) =~= Seq::empty());
        assert(esm(elems@) + Seq::<(Seq<char>, AmfModel)>::empty() =~= esm(elems@));
        assert(ssm(statics@) + Seq::<Seq<char>>::empty() =~= ssm(statics@));
    }
    (elems, statics)
}

/// Splits serialized array elements into the dense prefix and the sparse
/// remainder, by position.
fn split_dense(elems: Vec<Element>) -> (r: (Vec<AmfValue>, Vec<Element>))
    ensures
        (wsm(r.0@), esm(r.1@)) == spec_split_dense(esm(elems@), 0),
{
    let ghost full = esm(elems@);
    let mut rem = elems;
    let n0 = rem.len();
    let mut dense: Vec<AmfValue> = Vec::new();
    let mut sparse: Vec<Element> = Vec::new();
    proof {
        lemma_esm(rem@);
        let whole = spec_split_dense(full, 0);
        assert(wsm(Seq::<AmfValue>::empty()) + whole.0 =~= whole.0);
        assert(esm(Seq::<Element>::empty()) + whole.1 =~= whole.1);
    }
    let mut i: usize = 0;
    while rem.len() > 0
        invariant
            i + rem@.len() == n0,
            spec_split_dense(full, 0) == {
                let rest = spec_split_dense(esm(rem@), i as nat);
                (wsm(dense@) + rest.0, esm(sparse@) + rest.1)
            },
        decreases rem@.len(),
    {
        let ghost rem_before = rem@;
        let e = rem.remove(0);
        proof {
            lemma_esm(rem_before);
            lemma_esm(rem@);
            assert(esm(rem@) =~= esm(rem_before).drop_first());
            assert(esm(rem_before).first() == (e.name@, am(e.value)));
        }
        let dec = u64_to_decimal(i as u64);
        let is_dense = str_eq(e.name.as_str(), dec.as_str());
        let Element { name, value } = e;
        let ghost dense_before = dense@;
        let ghost sparse_before = sparse@;
        if is_dense {
            dense.push(value);
            proof {
                assert(dense@.drop_last() =~= dense_before);
                assert(wsm(dense@) =~= wsm(dense_before).push(am(value)));
                let rest_next = spec_split_dense(esm(rem@), i as nat + 1);
                assert(wsm(dense@) + rest_next.0 =~= wsm(dense_before) + (seq![am(value)]
                    + rest_next.0));
            }
        } else {
            let el = Element { name, value };
            sparse.push(el);
            proof {
                assert(sparse@.drop_last() =~= sparse_before);
                assert(esm(sparse@) =~= esm(sparse_before).push((el.name@, am(el.value))));
                let rest_next = spec_split_dense(esm(rem@), i as nat + 1);
                assert(esm(sparse@) + rest_next.1 =~= esm(sparse_before) + (seq![
                    (el.name@, am(el.value)),
                ] + rest_next.1));
            }
        }
        i = i + 1;
    }
    proof {
        assert(esm(rem@) =~= Seq::empty());
        assert(wsm(dense@) + Seq::<AmfModel>::empty() =~= wsm(dense@));
        assert(esm(sparse@) + Seq::<(Seq<char>, AmfModel)>::empty() =~= esm(sparse@));
    }
    (dense, sparse)
}

/// Serializes each element of a typed object vector.
fn serialize_list(
    values: &Vec<ScriptValue>,
    amf_version: AmfVersion,
    order: EnumOrder,
    registry: &ClassRegistry,
) -> (r: Vec<AmfValue>)
    requires
        wf_encode_vals(vsm(values@)),
    ensures
        wsm(r@) == spec_ser_list(vsm(values@), amf_version, order, rm(*registry)),
    decreases values, 0int,
{
    proof {
        lemma_vsm(values@);
    }
    let ghost valm = vsm(values@);
    let ghost regm = rm(*registry);
    let mut out: Vec<AmfValue> = Vec::new();
    let n = values.len();
    proof {
        assert(valm.skip(0) =~= valm);
        assert(wsm(Seq::<AmfValue>::empty()) + spec_ser_list(valm, amf_version, order, regm)
            =~= spec_ser_list(valm, amf_version, order, regm));
    }
    let mut i: usize = 0;
    while i < n
        invariant
            i <= n,
            n == values@.len(),
            valm == vsm(values@),
            valm.len() == n,
            forall|j: int| 0 <= j < n ==> valm[j] == vm(values@[j]),
            wf_encode_vals(valm),
            regm == rm(*registry),
            spec_ser_list(valm, amf_version, order, regm) == wsm(out@) + spec_ser_list(
                valm.skip(i as int),
                amf_version,
                order,
                regm,
            ),
        decreases n - i,
    {
        proof {
            lemma_wf_encode_vals_at(valm, i as int);
            assert(valm.skip(i as int).first() == valm[i as int]);
            assert(valm.skip(i as int).drop_first() =~= valm.skip(i as int + 1));
        }
        let ghost out_before = out@;
        let enc = serialize_value(&values[i], amf_version, order, registry);
        let a = match enc {
            Some(a) => a,
            None => AmfValue::Undefined,
        };
        out.push(a);
        proof {
            assert(out@.drop_last() =~= out_before);
            assert(wsm(out@) =~= wsm(out_before).push(am(a)));
            assert(wsm(out@) + spec_ser_list(valm.skip(i as int + 1), amf_version, order, regm)
                =~= wsm(out_before) + spec_ser_list(valm.skip(i as int), amf_version, order, regm));
        }
        i = i + 1;
    }
    proof {
        assert(valm.skip(n as int) =~= Seq::empty());
        assert(wsm(out@) + Seq::<AmfModel>::empty() =~= wsm(out@));
    }
    out
}

/// Serializes a value for the given AMF version, or returns `None` when the
/// value is omitted entirely (executables).  Display-object-backed values
/// become Undefined; array stores split into dense and sparse portions;
/// typed vectors keep their element type; class instances carry a class
/// descriptor under AMF3.
pub fn serialize_value(
    v: &ScriptValue,
    amf_version: AmfVersion,
    order: EnumOrder,
    registry: &ClassRegistry,
) -> (r: Option<AmfValue>)
    requires
        wf_encode(vm(*v)),
    ensures
        opt_am(r) == spec_serialize(vm(*v), amf_version, order, rm(*registry)),
    decreases v, 1int,
{
    match v {
        ScriptValue::Undefined => Some(AmfValue::Undefined),
        ScriptValue::Null => Some(AmfValue::Null),
        ScriptValue::Bool(b) => Some(AmfValue::Bool(*b)),
        ScriptValue::Number(bits) => Some(AmfValue::Number(*bits)),
        ScriptValue::Integer(n) => {
            if amf_version == AmfVersion::Amf0 || *n >= 0x1000_0000 || *n < -0x1000_0000 {
                proof {
                    lemma_f64_bits_of_int_range(*n as int);
                }
                Some(AmfValue::Number(f64_bits_of_i32(*n)))
            } else {
                Some(AmfValue::Integer(*n))
            }
        },
        ScriptValue::String(s) => Some(AmfValue::String(s.clone())),
        ScriptValue::Object(k) => match k {
            ObjKind::Function { props } => None,
            ObjKind::Display => Some(AmfValue::Undefined),
            ObjKind::Array { length, props } => {
                let elems = serialize_props(props, amf_version, order, registry);
                let (dense, sparse) = split_dense(elems);
                if sparse.len() == 0 {
                    proof {
                        assert(esm(sparse@) =~= Seq::empty());
                    }
                    Some(AmfValue::StrictArray(dense))
                } else {
                    proof {
                        lemma_esm(sparse@);
                    }
                    let len = #[verifier::truncate] (sparse.len() as u32);
                    Some(AmfValue::ECMAArray { dense, assoc: sparse, length: len })
                }
            },
            ObjKind::VectorInt { values, fixed } => Some(
                AmfValue::VectorInt { values: vec_dup(values), fixed: *fixed },
            ),
            ObjKind::VectorUInt { values, fixed } => Some(
                AmfValue::VectorUInt { values: vec_dup(values), fixed: *fixed },
            ),
            ObjKind::VectorDouble { values, fixed } => Some(
                AmfValue::VectorDouble { values: vec_dup(values), fixed: *fixed },
            ),
            ObjKind::VectorObject { values, class, fixed } => {
                let out = serialize_list(values, amf_version, order, registry);
                let element_type = class_to_alias(registry, *class);
                Some(AmfValue::VectorObject { values: out, element_type, fixed: *fixed })
            },
            ObjKind::Date { millis } => Some(
                AmfValue::Date { millis: *millis, timezone: None },
            ),
            ObjKind::Xml { text } => Some(
                AmfValue::Xml { content: text.clone(), is_string: true },
            ),
            ObjKind::ByteArray { bytes } => Some(AmfValue::ByteArray(vec_dup(bytes))),
            ObjKind::Instance { class, members, props } => {
                let st = serialize_statics(members, amf_version, order, registry);
                let (mut elements, statics) = st;
                let mut dyns = serialize_props(props, amf_version, order, registry);
                let ghost st_elems = elements@;
                let ghost dyn_elems = dyns@;
                elements.append(&mut dyns);
                proof {
                    lemma_esm(st_elems);
                    lemma_esm(dyn_elems);
                    lemma_esm(elements@);
                    assert(esm(elements@) =~= esm(st_elems) + esm(dyn_elems));
                }
                let class_definition = if amf_version == AmfVersion::Amf3 {
                    Some(
                        ClassDefinition {
                            name: class_to_alias(registry, *class),
                            is_dynamic: crate::registry::class_dynamic(registry, *class),
                            static_properties: statics,
                        },
                    )
                } else {
                    None
                };
                Some(AmfValue::Object { elements, class_definition })
            },
        },
    }
}

/// Serializes an object's fixed-slot members (when a class descriptor is
/// wanted) followed by its own dynamic properties, as one element list plus
/// the static-property-name list.
pub fn recursive_serialize(
    members: &Vec<Member>,
    props: &Vec<(String, ScriptValue)>,
    want_statics: bool,
    amf_version: AmfVersion,
    order: EnumOrder,
    registry: &ClassRegistry,
) -> (r: (Vec<Element>, Vec<String>))
    requires
        wf_encode_members(mm(members@)),
        wf_encode_props(pm(props@)),
    ensures
        ({
            let st = spec_static_elems(
                mm(members@),
                spec_member_order(names_of(mm(members@))),
                amf_version,
                order,
                rm(*registry),
            );
            let dyns = spec_ser_props(pm(props@), amf_version, order, rm(*registry));
            if want_statics {
                esm(r.0@) == st.0 + dyns && ssm(r.1@) == st.1
            } else {
                esm(r.0@) == dyns && ssm(r.1@) == Seq::<Seq<char>>::empty()
            }
        }),
{
    if want_statics {
        let st = serialize_statics(members, amf_version, order, registry);
        let (mut elements, statics) = st;
        let mut dyns = serialize_props(props, amf_version, order, registry);
        let ghost st_elems = elements@;
        let ghost dyn_elems = dyns@;
        elements.append(&mut dyns);
        proof {
            lemma_esm(st_elems);
            lemma_esm(dyn_elems);
            lemma_esm(elements@);
            assert(esm(elements@) =~= esm(st_elems) + esm(dyn_elems));
        }
        (elements, statics)
    } else {
        let elements = serialize_props(props, amf_version, order, registry);
        (elements, Vec::new())
    }
}


// ------------------------------------------------------------------
// The executable decoder.
// ------------------------------------------------------------------

/// Replacing the first property of a name is `spec_set_prop` when a match
/// exists.
proof fn lemma_set_prop_found(
    props: Seq<(Seq<char>, ValModel)>,
    name: Seq<char>,
    v: ValModel,
    j: int,
)
    requires
        0 <= j < props.len(),
        props[j].0 == name,
        forall|i: int| 0 <= i < j ==> props[i].0 != name,
    ensures
        spec_set_prop(props, name, v) =~= props.update(j, (name, v)),
    decreases j,
{
    if j == 0 {
    } else {
        lemma_set_prop_found(props.drop_first(), name, v, j - 1);
        assert(spec_set_prop(props, name, v) =~= props.update(j, (name, v)));
    }
}

/// Appending is `spec_set_prop` when no property has the name.
proof fn lemma_set_prop_missing(props: Seq<(Seq<char>, ValModel)>, name: Seq<char>, v: ValModel)
    requires
        forall|i: int| 0 <= i < props.len() ==> props[i].0 != name,
    ensures
        spec_set_prop(props, name, v) =~= props.push((name, v)),
    decreases props.len(),
{
    if props.len() > 0 {
        lemma_set_prop_missing(props.drop_first(), name, v);
        assert(spec_set_prop(props, name, v) =~= props.push((name, v)));
    }
}

/// Assigns one named property: replaces the first property of that name in
/// place, or appends a new one.
pub fn set_prop(props: &mut Vec<(String, ScriptValue)>, name: String, value: ScriptValue)
    ensures
        pm(final(props)@) == spec_set_prop(pm(old(props)@), name@, vm(value)),
{
    proof {
        lemma_pm(old(props)@);
    }
    let ghost before = props@;
    let n = props.len();
    let mut j: usize = 0;
    while j < n
        invariant
            j <= n,
            n == props@.len(),
            props@ == before,
            before == old(props)@,
            forall|i: int| 0 <= i < j ==> pm(before)[i].0 != name@,
            pm(before).len() == n,
            forall|i: int| 0 <= i < n ==> pm(before)[i] == (before[i].0@, vm(before[i].1)),
        decreases n - j,
    {
        if crate::strutil::str_eq(props[j].0.as_str(), name.as_str()) {
            let _ = props.remove(j);
            let ghost removed = props@;
            props.insert(j, (name, value));
            proof {
                assert(props@ =~= before.update(j as int, (name, value)));
                lemma_pm(props@);
                assert(pm(props@) =~= pm(before).update(j as int, (name@, vm(value))));
                lemma_set_prop_found(pm(before), name@, vm(value), j as int);
                assert(pm(props@) =~= spec_set_prop(pm(before), name@, vm(value)));
            }
            return ;
        }
        j = j + 1;
    }
    props.push((name, value));
    proof {
        assert(props@.drop_last() =~= before);
        assert(pm(props@) =~= pm(before).push((name@, vm(value))));
        lemma_set_prop_missing(pm(before), name@, vm(value));
    }
}

/// Assigns each already-decoded pair as a named property, in listed order.
fn apply_elems(props: Vec<(String, ScriptValue)>, elems: Vec<(String, ScriptValue)>) -> (r: Vec<
    (String, ScriptValue),
>)
    ensures
        pm(r@) == spec_apply_props(pm(props@), pm(elems@)),
{
    let ghost elems_full = pm(elems@);
    let mut out = props;
    let mut rem = elems;
    proof {
        lemma_pm(rem@);
    }
    while rem.len() > 0
        invariant
            spec_apply_props(pm(out@), pm(rem@)) == spec_apply_props(pm(props@), elems_full),
        decreases rem@.len(),
    {
        let ghost rem_before = rem@;
        let (name, value) = rem.remove(0);
        proof {
            lemma_pm(rem_before);
            lemma_pm(rem@);
            assert(pm(rem@) =~= pm(rem_before).drop_first());
            assert(pm(rem_before).first() == (name@, vm(value)));
        }
        set_prop(&mut out, name, value);
    }
    proof {
        assert(pm(rem@) =~= Seq::<(Seq<char>, ValModel)>::empty());
    }
    out
}

/// Decodes each element of a wire value list.
fn deserialize_list(values: &Vec<AmfValue>, registry: &ClassRegistry) -> (r: Vec<ScriptValue>)
    ensures
        vsm(r@) == spec_deser_list(wsm(values@), rm(*registry)),
    decreases values, 0int,
{
    proof {
        lemma_wsm(values@);
    }
    let ghost full = wsm(values@);
    let ghost regm = rm(*registry);
    let mut out: Vec<ScriptValue> = Vec::new();
    let n = values.len();
    proof {
        assert(full.skip(0) =~= full);
        assert(vsm(Seq::<ScriptValue>::empty()) + spec_deser_list(full, regm) =~= spec_deser_list(
            full,
            regm,
        ));
    }
    let mut i: usize = 0;
    while i < n
        invariant
            i <= n,
            n == values@.len(),
            full == wsm(values@),
            full.len() == n,
            forall|j: int| 0 <= j < n ==> full[j] == am(values@[j]),
            regm == rm(*registry),
            spec_deser_list(full, regm) == vsm(out@) + spec_deser_list(
                full.skip(i as int),
                regm,
            ),
        decreases n - i,
    {
        proof {
            assert(full.skip(i as int).first() == full[i as int]);
            assert(full.skip(i as int).drop_first() =~= full.skip(i as int + 1));
        }
        let ghost out_before = out@;
        let d = deserialize_value(&values[i], registry);
        out.push(d);
        proof {
            assert(out@.drop_last() =~= out_before);
            assert(vsm(out@) =~= vsm(out_before).push(vm(d)));
            assert(vsm(out@) + spec_deser_list(full.skip(i as int + 1), regm) =~= vsm(out_before)
                + spec_deser_list(full.skip(i as int), regm));
        }
        i = i + 1;
    }
    proof {
        assert(full.skip(n as int) =~= Seq::empty());
        assert(vsm(out@) + Seq::<ValModel>::empty() =~= vsm(out@));
    }
    out
}

/// Decodes named wire elements pointwise, keeping their order.
fn deserialize_elems(elems: &Vec<Element>, registry: &ClassRegistry) -> (r: Vec<(String, ScriptValue)>)
    ensures
        pm(r@) == spec_deser_elems(esm(elems@), rm(*registry)),
    decreases elems, 0int,
{
    proof {
        lemma_esm(elems@);
    }
    let ghost full = esm(elems@);
    let ghost regm = rm(*registry);
    let mut out: Vec<(String, ScriptValue)> = Vec::new();
    let n = elems.len();
    proof {
        assert(full.skip(0) =~= full);
        assert(pm(Seq::<(String, ScriptValue)>::empty()) + spec_deser_elems(full, regm)
            =~= spec_deser_elems(full, regm));
    }
    let mut i: usize = 0;
    while i < n
        invariant
            i <= n,
            n == elems@.len(),
            full == esm(elems@),
            full.len() == n,
            forall|j: int| 0 <= j < n ==> full[j] == (elems@[j].name@, am(elems@[j].value)),
            regm == rm(*registry),
            spec_deser_elems(full, regm) == pm(out@) + spec_deser_elems(
                full.skip(i as int),
                regm,
            ),
        decreases n - i,
    {
        proof {
            assert(full.skip(i as int).first() == full[i as int]);
            assert(full.skip(i as int).drop_first() =~= full.skip(i as int + 1));
        }
        let ghost out_before = out@;
        let d = deserialize_value(&elems[i].value, registry);
        let pair = (elems[i].name.clone(), d);
        out.push(pair);
        proof {
            assert(out@.drop_last() =~= out_before);
            assert(pm(out@) =~= pm(out_before).push((elems@[i as int].name@, vm(d))));
            assert(pm(out@) + spec_deser_elems(full.skip(i as int + 1), regm) =~= pm(out_before)
                + spec_deser_elems(full.skip(i as int), regm));
        }
        i = i + 1;
    }
    proof {
        assert(full.skip(n as int) =~= Seq::empty());
        assert(pm(out@) + Seq::<(Seq<char>, ValModel)>::empty() =~= pm(out@));
    }
    out
}

/// Builds the dense portion of a decoded array: element `i` under the
/// canonical decimal rendering of `i`.
fn dense_to_props(values: &Vec<AmfValue>, registry: &ClassRegistry) -> (r: Vec<(String, ScriptValue)>)
    ensures
        pm(r@) == spec_dense_props(wsm(values@), rm(*registry)),
    decreases values, 0int,
{
    proof {
        lemma_wsm(values@);
    }
    let ghost full = wsm(values@);
    let ghost regm = rm(*registry);
    let mut out: Vec<(String, ScriptValue)> = Vec::new();
    let n = values.len();
    proof {
        assert(full.take(0) =~= Seq::empty());
    }
    let mut i: usize = 0;
    while i < n
        invariant
            i <= n,
            n == values@.len(),
            full == wsm(values@),
            full.len() == n,
            forall|j: int| 0 <= j < n ==> full[j] == am(values@[j]),
            regm == rm(*registry),
            pm(out@) == spec_dense_props(full.take(i as int), regm),
        decreases n - i,
    {
        proof {
            assert(full.take(i as int + 1).drop_last() =~= full.take(i as int));
            assert(full.take(i as int + 1).last() == full[i as int]);
        }
        let ghost out_before = out@;
        let name = u64_to_decimal(i as u64);
        let d = deserialize_value(&values[i], registry);
        out.push((name, d));
        proof {
            assert(out@.drop_last() =~= out_before);
            assert(pm(out@) =~= pm(out_before).push((name@, vm(d))));
        }
        i = i + 1;
    }
    proof {
        assert(full.take(n as int) =~= full);
    }
    out
}

/// Reconstructs a value from a wire value.  Scalars map directly; arrays
/// are rebuilt from the dense list and then assigned each sparse element in
/// listed order; objects resolve their class descriptor through the
/// registry and assign each element in listed order; Dictionary, Custom and
/// Reference wire values are recognized but not reconstructed and decode to
/// Undefined.
pub fn deserialize_value(a: &AmfValue, registry: &ClassRegistry) -> (r: ScriptValue)
    ensures
        vm(r) == spec_deserialize(am(*a), rm(*registry)),
    decreases a, 3int,
{
    match a {
        AmfValue::Undefined => ScriptValue::Undefined,
        AmfValue::Null => ScriptValue::Null,
        AmfValue::Bool(b) => ScriptValue::Bool(*b),
        AmfValue::Number(bits) => ScriptValue::Number(*bits),
        AmfValue::Integer(n) => ScriptValue::Integer(*n),
        AmfValue::String(s) => ScriptValue::String(s.clone()),
        AmfValue::ByteArray(bytes) => ScriptValue::Object(
            ObjKind::ByteArray { bytes: vec_dup(bytes) },
        ),
        AmfValue::Date { millis, timezone } => ScriptValue::Object(ObjKind::Date { millis: *millis }),
        AmfValue::Xml { content, is_string } => ScriptValue::Object(
            ObjKind::Xml { text: content.clone() },
        ),
        AmfValue::StrictArray(values) => {
            proof {
                lemma_wsm(values@);
            }
            let props = dense_to_props(values, registry);
            let length = #[verifier::truncate] (values.len() as u32);
            ScriptValue::Object(ObjKind::Array { length, props })
        },
        AmfValue::ECMAArray { dense, assoc, length } => {
            proof {
                lemma_wsm(dense@);
            }
            let dp = dense_to_props(dense, registry);
            let el = deserialize_elems(assoc, registry);
            let props = apply_elems(dp, el);
            let dl = #[verifier::truncate] (dense.len() as u32);
            let reported = if dl > *length {
                dl
            } else {
                *length
            };
            ScriptValue::Object(ObjKind::Array { length: reported, props })
        },
        AmfValue::VectorInt { values, fixed } => ScriptValue::Object(
            ObjKind::VectorInt { values: vec_dup(values), fixed: *fixed },
        ),
        AmfValue::VectorUInt { values, fixed } => ScriptValue::Object(
            ObjKind::VectorUInt { values: vec_dup(values), fixed: *fixed },
        ),
        AmfValue::VectorDouble { values, fixed } => ScriptValue::Object(
            ObjKind::VectorDouble { values: vec_dup(values), fixed: *fixed },
        ),
        AmfValue::VectorObject { values, element_type, fixed } => {
            let vals = deserialize_list(values, registry);
            let class = alias_to_class(registry, element_type.as_str());
            ScriptValue::Object(ObjKind::VectorObject { values: vals, class, fixed: *fixed })
        },
        AmfValue::Object { elements, class_definition } => {
            let class = match class_definition {
                Some(cd) => alias_to_class(registry, cd.name.as_str()),
                None => 0usize,
            };
            let el = deserialize_elems(elements, registry);
            let props = apply_elems(Vec::new(), el);
            proof {
                assert(pm(Seq::<(String, ScriptValue)>::empty()) =~= Seq::<
                    (Seq<char>, ValModel),
                >::empty());
            }
            ScriptValue::Object(ObjKind::Instance { class, members: Vec::new(), props })
        },
        AmfValue::Dictionary { entries, weak_keys } => ScriptValue::Undefined,
        AmfValue::Custom { elements, dynamic_elements, name } => ScriptValue::Undefined,
        AmfValue::Reference(r) => ScriptValue::Undefined,
        AmfValue::Amf3(inner) => deserialize_value(&*inner, registry),
        AmfValue::Unsupported => ScriptValue::Undefined,
    }
}

/// Reconstructs a store container's body as a fresh generic object holding
/// each element as a property, assigned in listed order.
pub fn deserialize_lso(body: &Vec<Element>, registry: &ClassRegistry) -> (r: ScriptValue)
    ensures
        vm(r) == spec_deserialize_lso(esm(body@), rm(*registry)),
{
    let el = deserialize_elems(body, registry);
    let props = apply_elems(Vec::new(), el);
    proof {
        assert(pm(Seq::<(String, ScriptValue)>::empty()) =~= Seq::<(Seq<char>, ValModel)>::empty());
    }
    ScriptValue::Object(ObjKind::Instance { class: 0, members: Vec::new(), props })
}


// ------------------------------------------------------------------
// Round trip: decoding an encoded value gives the value back, for
// scalars, dense arrays, and class-less objects.
// ------------------------------------------------------------------

/// A registry whose generic base class sits at index 0 under the empty
/// alias, as `ClassRegistry::new` establishes.
pub open spec fn wf_registry(reg: Seq<(Seq<char>, bool)>) -> bool {
    reg.len() > 0 && reg[0].0 == Seq::<char>::empty()
}

/// The values the round-trip law speaks of: scalars, AMF3 small integers,
/// dense arrays with canonical index keys, and class-less instances with
/// distinct property names; nested values must qualify too.
pub open spec fn rt_simple(v: ValModel, ver: AmfVersion) -> bool
    decreases v,
{
    match v {
        ValModel::Undefined => true,
        ValModel::Null => true,
        ValModel::Bool(b) => true,
        ValModel::Num(bits) => true,
        ValModel::Int(n) => ver == AmfVersion::Amf3 && int_in_amf3_range(n),
        ValModel::Str(s) => true,
        ValModel::Obj(k) => match k {
            ObjModel::Array { length, props } => length as nat == props.len() && rt_simple_props(
                props,
                ver,
            ) && forall|i: int| 0 <= i < props.len() ==> #[trigger] props[i].0 == spec_dec(i as nat),
            ObjModel::Instance { class, members, props } => class == 0 && members.len() == 0
                && rt_simple_props(props, ver) && forall|i: int, j: int|
                0 <= i < j < props.len() ==> #[trigger] props[i].0 != #[trigger] props[j].0,
            _ => false,
        },
    }
}

/// Every property value qualifies for the round-trip law.
pub open spec fn rt_simple_props(props: Seq<(Seq<char>, ValModel)>, ver: AmfVersion) -> bool
    decreases props,
{
    if props.len() == 0 {
        true
    } else {
        rt_simple(props.first().1, ver) && rt_simple_props(props.drop_first(), ver)
    }
}

proof fn lemma_rt_simple_props_at(props: Seq<(Seq<char>, ValModel)>, ver: AmfVersion, i: int)
    requires
        rt_simple_props(props, ver),
        0 <= i < props.len(),
    ensures
        rt_simple(props[i].1, ver),
    decreases i,
{
    if i > 0 {
        lemma_rt_simple_props_at(props.drop_first(), ver, i - 1);
    }
}

/// `rt_simple` values are well-formed for encoding.
pub proof fn lemma_rt_simple_wf(v: ValModel, ver: AmfVersion)
    requires
        rt_simple(v, ver),
    ensures
        wf_encode(v),
    decreases v, 1int,
{
    match v {
        ValModel::Obj(k) => match k {
            ObjModel::Array { length, props } => {
                lemma_rt_simple_wf_props(props, ver);
            },
            ObjModel::Instance { class, members, props } => {
                lemma_rt_simple_wf_props(props, ver);
            },
            _ => {},
        },
        _ => {},
    }
}

proof fn lemma_rt_simple_wf_props(props: Seq<(Seq<char>, ValModel)>, ver: AmfVersion)
    requires
        rt_simple_props(props, ver),
    ensures
        wf_encode_props(props),
    decreases props, 0int,
{
    if props.len() > 0 {
        lemma_rt_simple_wf(props.first().1, ver);
        lemma_rt_simple_wf_props(props.drop_first(), ver);
    }
}

/// Elements named by consecutive canonical indices split as all dense.
proof fn lemma_split_all_dense(elems: Seq<(Seq<char>, AmfModel)>, i: nat)
    requires
        forall|j: int| 0 <= j < elems.len() ==> #[trigger] elems[j].0 == spec_dec((i + j) as nat),
    ensures
        spec_split_dense(elems, i).0.len() == elems.len(),
        forall|j: int|
            0 <= j < elems.len() ==> #[trigger] spec_split_dense(elems, i).0[j] == elems[j].1,
        spec_split_dense(elems, i).1.len() == 0,
    decreases elems.len(),
{
    if elems.len() > 0 {
        assert(elems.first().0 == spec_dec((i + 0) as nat));
        assert forall|j: int| 0 <= j < elems.drop_first().len() implies #[trigger] elems.drop_first()[j].0
            == spec_dec((i + 1 + j) as nat) by {
            assert(elems.drop_first()[j] == elems[j + 1]);
        }
        lemma_split_all_dense(elems.drop_first(), i + 1);
    }
}

/// The dense portion of a decoded array, pointwise.
proof fn lemma_dense_props_pointwise(dense: Seq<AmfModel>, reg: Seq<(Seq<char>, bool)>)
    ensures
        spec_dense_props(dense, reg).len() == dense.len(),
        forall|i: int|
            0 <= i < dense.len() ==> #[trigger] spec_dense_props(dense, reg)[i] == (
                spec_dec(i as nat),
                spec_deserialize(dense[i], reg),
            ),
    decreases dense,
{
    if dense.len() > 0 {
        lemma_dense_props_pointwise(dense.drop_last(), reg);
    }
}

/// Assigning fresh, pairwise-distinct properties appends them in order.
pub proof fn lemma_apply_fresh(
    props: Seq<(Seq<char>, ValModel)>,
    elems: Seq<(Seq<char>, ValModel)>,
)
    requires
        forall|i: int, j: int|
            0 <= i < j < elems.len() ==> #[trigger] elems[i].0 != #[trigger] elems[j].0,
        forall|i: int, j: int|
            0 <= i < props.len() && 0 <= j < elems.len() ==> #[trigger] props[i].0
                != #[trigger] elems[j].0,
    ensures
        spec_apply_props(props, elems) == props + elems,
    decreases elems.len(),
{
    if elems.len() == 0 {
        assert(props + elems =~= props);
    } else {
        let e = elems.first();
        assert(forall|i: int|
            0 <= i < props.len() ==> #[trigger] props[i].0 != e.0);
        lemma_set_prop_missing(props, e.0, e.1);
        let props2 = props.push(e);
        assert forall|i: int, j: int|
            0 <= i < props2.len() && 0 <= j < elems.drop_first().len() implies #[trigger] props2[i].0
            != #[trigger] elems.drop_first()[j].0 by {
            assert(elems.drop_first()[j] == elems[j + 1]);
            if i < props.len() {
            } else {
                assert(props2[i] == e);
            }
        }
        lemma_apply_fresh(props2, elems.drop_first());
        assert(props.push(e) + elems.drop_first() =~= props + elems);
    }
}

/// Serialized simple properties, pointwise: names are kept, every value
/// encodes, and decoding gives the value back.
proof fn lemma_rt_props(
    props: Seq<(Seq<char>, ValModel)>,
    ver: AmfVersion,
    reg: Seq<(Seq<char>, bool)>,
)
    requires
        rt_simple_props(props, ver),
        wf_registry(reg),
    ensures
        ({
            let ser = spec_ser_props(props, ver, EnumOrder::Forward, reg);
            ser.len() == props.len() && forall|i: int|
                0 <= i < props.len() ==> (#[trigger] ser[i]).0 == props[i].0 && spec_serialize(
                    props[i].1,
                    ver,
                    EnumOrder::Forward,
                    reg,
                ) == Some(ser[i].1) && spec_deserialize(ser[i].1, reg) == props[i].1
        }),
    decreases props, 0int,
{
    if props.len() > 0 {
        lemma_round_trip_model(props.first().1, ver, reg);
        lemma_rt_props(props.drop_first(), ver, reg);
        let ser = spec_ser_props(props, ver, EnumOrder::Forward, reg);
        let sub = spec_ser_props(props.drop_first(), ver, EnumOrder::Forward, reg);
        assert forall|i: int| 0 <= i < props.len() implies (#[trigger] ser[i]).0 == props[i].0
            && spec_serialize(props[i].1, ver, EnumOrder::Forward, reg) == Some(ser[i].1)
            && spec_deserialize(ser[i].1, reg) == props[i].1 by {
            if i > 0 {
                assert(ser[i] == sub[i - 1]);
                assert(props.drop_first()[i - 1] == props[i]);
            }
        }
    }
}

/// Round trip at the model level: a simple value encodes to a wire value
/// that decodes to the same value again.
pub proof fn lemma_round_trip_model(v: ValModel, ver: AmfVersion, reg: Seq<(Seq<char>, bool)>)
    requires
        rt_simple(v, ver),
        wf_registry(reg),
    ensures
        spec_serialize(v, ver, EnumOrder::Forward, reg) matches Some(a) && spec_deserialize(
            a,
            reg,
        ) == v,
    decreases v, 1int,
{
    match v {
        ValModel::Obj(k) => match k {
            ObjModel::Array { length, props } => {
                lemma_rt_props(props, ver, reg);
                let ser = spec_ser_props(props, ver, EnumOrder::Forward, reg);
                assert forall|j: int| 0 <= j < ser.len() implies #[trigger] ser[j].0 == spec_dec(
                    (0 + j) as nat,
                ) by {
                    assert(ser[j].0 == props[j].0);
                    assert(props[j].0 == spec_dec(j as nat));
                }
                lemma_split_all_dense(ser, 0);
                let split = spec_split_dense(ser, 0);
                assert(split.1 =~= Seq::<(Seq<char>, AmfModel)>::empty());
                lemma_dense_props_pointwise(split.0, reg);
                let back = spec_dense_props(split.0, reg);
                assert(back.len() == props.len());
                assert forall|i: int| 0 <= i < props.len() implies back[i] == props[i] by {
                    assert(split.0[i] == ser[i].1);
                    assert(ser[i].0 == props[i].0);
                    assert(props[i].0 == spec_dec(i as nat));
                    assert(spec_deserialize(ser[i].1, reg) == props[i].1);
                }
                assert(back =~= props);
                assert(split.0.len() as u32 == length);
                assert(spec_serialize(v, ver, EnumOrder::Forward, reg) == Some(
                    AmfModel::Strict(split.0),
                ));
                assert(spec_deserialize(AmfModel::Strict(split.0), reg) == v);
            },
            ObjModel::Instance { class, members, props } => {
                lemma_rt_props(props, ver, reg);
                let dyns = spec_ser_props(props, ver, EnumOrder::Forward, reg);
                assert(names_of(members) =~= Seq::<Seq<char>>::empty());
                let st = spec_static_elems(
                    members,
                    spec_member_order(names_of(members)),
                    ver,
                    EnumOrder::Forward,
                    reg,
                );
                assert(st.0 =~= Seq::<(Seq<char>, AmfModel)>::empty());
                assert(st.1 =~= Seq::<Seq<char>>::empty());
                let elements = st.0 + dyns;
                assert(elements =~= dyns);
                let decoded = spec_deser_elems(elements, reg);
                lemma_deser_elems_pointwise(elements, reg);
                assert(decoded =~= props) by {
                    assert(decoded.len() == props.len());
                    assert forall|i: int| 0 <= i < props.len() implies decoded[i] == props[i] by {
                        assert(decoded[i] == (elements[i].0, spec_deserialize(elements[i].1, reg)));
                    }
                }
                lemma_apply_fresh(Seq::empty(), decoded);
                assert(Seq::<(Seq<char>, ValModel)>::empty() + decoded =~= decoded);
                assert(members =~= Seq::<MemberModel>::empty());
                if ver == AmfVersion::Amf3 {
                    assert(spec_alias_of(reg, 0) == Seq::<char>::empty());
                    assert(spec_resolve_class(reg, Seq::<char>::empty()) == 0);
                }
                assert(spec_serialize(v, ver, EnumOrder::Forward, reg) matches Some(aa)
                    && spec_deserialize(aa, reg) == v);
            },
            _ => {
                assert(false);
            },
        },
        _ => {},
    }
}

/// Decoded named elements, pointwise.
pub proof fn lemma_deser_elems_pointwise(
    s: Seq<(Seq<char>, AmfModel)>,
    reg: Seq<(Seq<char>, bool)>,
)
    ensures
        spec_deser_elems(s, reg).len() == s.len(),
        forall|i: int|
            0 <= i < s.len() ==> #[trigger] spec_deser_elems(s, reg)[i] == (
                s[i].0,
                spec_deserialize(s[i].1, reg),
            ),
    decreases s,
{
    if s.len() > 0 {
        lemma_deser_elems_pointwise(s.drop_first(), reg);
        assert forall|i: int| 0 <= i < s.len() implies #[trigger] spec_deser_elems(s, reg)[i] == (
            s[i].0,
            spec_deserialize(s[i].1, reg),
        ) by {
            if i > 0 {
                assert(spec_deser_elems(s, reg)[i] == spec_deser_elems(s.drop_first(), reg)[i - 1]);
                assert(s.drop_first()[i - 1] == s[i]);
            }
        }
    }
}

/// Round trip for the codec's executable functions: decoding what
/// `serialize_value` produced gives a value with the same model, for
/// scalars, AMF3 small integers, dense arrays with canonical index keys,
/// and class-less objects with distinct property names.
pub proof fn lemma_round_trip(
    v: ValModel,
    ver: AmfVersion,
    reg: Seq<(Seq<char>, bool)>,
    a: AmfModel,
)
    requires
        rt_simple(v, ver),
        wf_registry(reg),
        spec_serialize(v, ver, EnumOrder::Forward, reg) == Some(a),
    ensures
        spec_deserialize(a, reg) == v,
{
    lemma_round_trip_model(v, ver, reg);
}


// ------------------------------------------------------------------
// What the decoder produces is always fit for re-encoding: it never
// reconstructs executables, so decoded object vectors stay serializable.
// ------------------------------------------------------------------

/// Whether a value is not an executable object.
pub open spec fn not_function(v: ValModel) -> bool {
    !(v matches ValModel::Obj(ObjModel::Function { .. }))
}

/// Assigning a well-formed value keeps a property list fit for encoding.
pub proof fn lemma_set_prop_keeps_wf_pub(
    props: Seq<(Seq<char>, ValModel)>,
    name: Seq<char>,
    v: ValModel,
)
    requires
        wf_encode_props(props),
        wf_encode(v),
    ensures
        wf_encode_props(spec_set_prop(props, name, v)),
    decreases props.len(),
{
    if props.len() == 0 {
        let r = spec_set_prop(props, name, v);
        assert(r.first() == (name, v));
        assert(r.drop_first() =~= Seq::<(Seq<char>, ValModel)>::empty());
        assert(wf_encode_props(Seq::<(Seq<char>, ValModel)>::empty()));
    } else if props.first().0 == name {
        let r = seq![(name, v)] + props.drop_first();
        assert(r.drop_first() =~= props.drop_first());
        assert(r.first() == (name, v));
    } else {
        lemma_set_prop_keeps_wf_pub(props.drop_first(), name, v);
        let r = seq![props.first()] + spec_set_prop(props.drop_first(), name, v);
        assert(r.drop_first() =~= spec_set_prop(props.drop_first(), name, v));
        assert(r.first() == props.first());
    }
}

proof fn lemma_apply_keeps_wf(
    props: Seq<(Seq<char>, ValModel)>,
    elems: Seq<(Seq<char>, ValModel)>,
)
    requires
        wf_encode_props(props),
        forall|i: int| 0 <= i < elems.len() ==> wf_encode(#[trigger] elems[i].1),
    ensures
        wf_encode_props(spec_apply_props(props, elems)),
    decreases elems.len(),
{
    if elems.len() > 0 {
        lemma_set_prop_keeps_wf_pub(props, elems.first().0, elems.first().1);
        assert forall|i: int| 0 <= i < elems.drop_first().len() implies wf_encode(
            #[trigger] elems.drop_first()[i].1,
        ) by {
            assert(elems.drop_first()[i] == elems[i + 1]);
        }
        lemma_apply_keeps_wf(spec_set_prop(props, elems.first().0, elems.first().1),
            elems.drop_first());
    }
}

/// Pointwise well-formedness gives recursive well-formedness.
pub proof fn lemma_wf_props_intro(props: Seq<(Seq<char>, ValModel)>)
    requires
        forall|i: int| 0 <= i < props.len() ==> wf_encode(#[trigger] props[i].1),
    ensures
        wf_encode_props(props),
    decreases props.len(),
{
    if props.len() > 0 {
        assert forall|i: int| 0 <= i < props.drop_first().len() implies wf_encode(
            #[trigger] props.drop_first()[i].1,
        ) by {
            assert(props.drop_first()[i] == props[i + 1]);
        }
        lemma_wf_props_intro(props.drop_first());
    }
}

proof fn lemma_wf_vals_intro(values: Seq<ValModel>)
    requires
        forall|i: int| 0 <= i < values.len() ==> wf_encode(#[trigger] values[i]),
    ensures
        wf_encode_vals(values),
    decreases values.len(),
{
    if values.len() > 0 {
        assert forall|i: int| 0 <= i < values.drop_first().len() implies wf_encode(
            #[trigger] values.drop_first()[i],
        ) by {
            assert(values.drop_first()[i] == values[i + 1]);
        }
        lemma_wf_vals_intro(values.drop_first());
    }
}

/// Decoded values are fit for encoding and never executables.
pub proof fn lemma_deserialize_wf(a: AmfModel, reg: Seq<(Seq<char>, bool)>)
    ensures
        wf_encode(spec_deserialize(a, reg)),
        not_function(spec_deserialize(a, reg)),
    decreases a, 3int,
{
    match a {
        AmfModel::Strict(values) => {
            lemma_dense_props_wf(values, reg);
        },
        AmfModel::Ecma { dense, assoc, length } => {
            lemma_dense_props_wf(dense, reg);
            lemma_deser_elems_wf(assoc, reg);
            lemma_apply_keeps_wf(spec_dense_props(dense, reg), spec_deser_elems(assoc, reg));
        },
        AmfModel::VectorObject { values, element_type, fixed } => {
            lemma_deser_list_wf(values, reg);
        },
        AmfModel::Object { elements, class_definition } => {
            lemma_deser_elems_wf(elements, reg);
            lemma_apply_keeps_wf(Seq::empty(), spec_deser_elems(elements, reg));
        },
        AmfModel::Amf3(inner) => {
            lemma_deserialize_wf(*inner, reg);
        },
        _ => {},
    }
}

proof fn lemma_deser_list_wf(s: Seq<AmfModel>, reg: Seq<(Seq<char>, bool)>)
    ensures
        wf_encode_vals(spec_deser_list(s, reg)),
        forall|i: int|
            0 <= i < spec_deser_list(s, reg).len() ==> not_function(
                #[trigger] spec_deser_list(s, reg)[i],
            ),
    decreases s, 4int,
{
    if s.len() > 0 {
        lemma_deserialize_wf(s.first(), reg);
        lemma_deser_list_wf(s.drop_first(), reg);
        let r = spec_deser_list(s, reg);
        assert(r.drop_first() =~= spec_deser_list(s.drop_first(), reg));
        assert(r.first() == spec_deserialize(s.first(), reg));
    }
}

proof fn lemma_deser_elems_wf(s: Seq<(Seq<char>, AmfModel)>, reg: Seq<(Seq<char>, bool)>)
    ensures
        forall|i: int|
            0 <= i < spec_deser_elems(s, reg).len() ==> wf_encode(
                (#[trigger] spec_deser_elems(s, reg)[i]).1,
            ),
    decreases s, 4int,
{
    if s.len() > 0 {
        lemma_deserialize_wf(s.first().1, reg);
        lemma_deser_elems_wf(s.drop_first(), reg);
        let r = spec_deser_elems(s, reg);
        assert(r.drop_first() =~= spec_deser_elems(s.drop_first(), reg));
        assert forall|i: int| 0 <= i < r.len() implies wf_encode((#[trigger] r[i]).1) by {
            if i > 0 {
                assert(r[i] == r.drop_first()[i - 1]);
            }
        }
    }
}

proof fn lemma_dense_props_wf(dense: Seq<AmfModel>, reg: Seq<(Seq<char>, bool)>)
    ensures
        wf_encode_props(spec_dense_props(dense, reg)),
    decreases dense, 4int,
{
    lemma_dense_props_pointwise(dense, reg);
    assert forall|i: int| 0 <= i < spec_dense_props(dense, reg).len() implies wf_encode(
        (#[trigger] spec_dense_props(dense, reg)[i]).1,
    ) by {
        lemma_deser_wf_at(dense, reg, i);
    }
    lemma_wf_props_intro(spec_dense_props(dense, reg));
}

proof fn lemma_deser_wf_at(dense: Seq<AmfModel>, reg: Seq<(Seq<char>, bool)>, i: int)
    requires
        0 <= i < dense.len(),
    ensures
        wf_encode(spec_deserialize(dense[i], reg)),
    decreases dense, 3int,
{
    lemma_deserialize_wf(dense[i], reg);
}

/// A decoded store container is a class-less data object whose properties
/// are fit for re-encoding.
pub proof fn lemma_deserialize_lso_wf(
    body: Seq<(Seq<char>, AmfModel)>,
    reg: Seq<(Seq<char>, bool)>,
)
    ensures
        spec_deserialize_lso(body, reg) matches ValModel::Obj(
            ObjModel::Instance { class, members, props },
        ) && class == 0 && members.len() == 0 && wf_encode_props(props),
{
    lemma_deser_elems_wf(body, reg);
    lemma_apply_keeps_wf(Seq::empty(), spec_deser_elems(body, reg));
}


// ------------------------------------------------------------------
// Scalar properties survive a reverse-order AMF0 flush: serializing
// them reversed yields scalar elements the byte layer represents
// faithfully, and decoding gives each value back.
// ------------------------------------------------------------------

/// The property values a store round trip reproduces exactly: scalars,
/// dates and XML nodes.  Containers come back with their nested property
/// order reversed (the legacy reverse enumeration), and AMF3 small
/// integers widen to Numbers under AMF0.
pub open spec fn plain_value(v: ValModel) -> bool {
    match v {
        ValModel::Undefined => true,
        ValModel::Null => true,
        ValModel::Bool(b) => true,
        ValModel::Num(bits) => true,
        ValModel::Str(s) => true,
        ValModel::Obj(k) => match k {
            ObjModel::Date { millis } => true,
            ObjModel::Xml { text } => true,
            _ => false,
        },
        _ => false,
    }
}

/// Every property value is plain, under a name the byte layer can carry.
pub open spec fn plain_props(props: Seq<(Seq<char>, ValModel)>) -> bool {
    forall|i: int|
        0 <= i < props.len() ==> plain_value((#[trigger] props[i]).1) && props[i].0.len() <= 16383
            && (props[i].1 matches ValModel::Str(s) ==> s.len() <= 0x3fff_ffff) && (props[i].1
            matches ValModel::Obj(ObjModel::Xml { text }) ==> text.len() <= 0x3fff_ffff)
}

/// What a plain value serializes to, under any version and order.
pub open spec fn plain_enc(v: ValModel) -> AmfModel {
    match v {
        ValModel::Undefined => AmfModel::Undefined,
        ValModel::Null => AmfModel::Null,
        ValModel::Bool(b) => AmfModel::Bool(b),
        ValModel::Num(bits) => AmfModel::Num(bits),
        ValModel::Str(s) => AmfModel::Str(s),
        ValModel::Obj(k) => match k {
            ObjModel::Date { millis } => AmfModel::Date { millis, timezone: None },
            ObjModel::Xml { text } => AmfModel::Xml { content: text, is_string: true },
            _ => AmfModel::Unsupported,
        },
        _ => AmfModel::Unsupported,
    }
}

/// Serializing plain properties in reverse enumeration order yields one
/// element per property, reversed, each carrying the plain encoding.
pub proof fn lemma_ser_props_reverse_plain(
    props: Seq<(Seq<char>, ValModel)>,
    ver: AmfVersion,
    reg: Seq<(Seq<char>, bool)>,
)
    requires
        plain_props(props),
    ensures
        ({
            let ser = spec_ser_props(props, ver, EnumOrder::Reverse, reg);
            ser.len() == props.len() && forall|i: int|
                0 <= i < props.len() ==> #[trigger] ser[i] == (
                    props[props.len() - 1 - i].0,
                    plain_enc(props[props.len() - 1 - i].1),
                )
        }),
    decreases props.len(),
{
    if props.len() > 0 {
        assert(plain_props(props.drop_last())) by {
            assert forall|i: int| 0 <= i < props.drop_last().len() implies plain_value(
                (#[trigger] props.drop_last()[i]).1,
            ) && props.drop_last()[i].0.len() <= 16383 && (props.drop_last()[i].1
                matches ValModel::Str(s) ==> s.len() <= 0x3fff_ffff) && (props.drop_last()[i].1
                matches ValModel::Obj(ObjModel::Xml { text }) ==> text.len() <= 0x3fff_ffff) by {
                assert(props.drop_last()[i] == props[i]);
            }
        }
        lemma_ser_props_reverse_plain(props.drop_last(), ver, reg);
        let ser = spec_ser_props(props, ver, EnumOrder::Reverse, reg);
        let sub = spec_ser_props(props.drop_last(), ver, EnumOrder::Reverse, reg);
        assert(plain_value(props.last().1));
        assert(spec_serialize(props.last().1, ver, EnumOrder::Reverse, reg) == Some(
            plain_enc(props.last().1),
        ));
        assert(ser =~= seq![(props.last().0, plain_enc(props.last().1))] + sub);
        assert forall|i: int| 0 <= i < props.len() implies #[trigger] ser[i] == (
            props[props.len() - 1 - i].0,
            plain_enc(props[props.len() - 1 - i].1),
        ) by {
            if i > 0 {
                assert(ser[i] == sub[i - 1]);
                assert(props.drop_last()[props.len() - 1 - i] == props[props.len() - 1 - i]);
            }
        }
    }
}

/// A plain encoding decodes back to the value, even after the byte
/// layer's reshaping (which only fixes a missing Date timezone the
/// decoder drops anyway).
pub proof fn lemma_plain_enc_round(v: ValModel, reg: Seq<(Seq<char>, bool)>)
    requires
        plain_value(v),
    ensures
        spec_deserialize(crate::wire::amf0_normalize(plain_enc(v)), reg) == v,
{
}

} // verus!
