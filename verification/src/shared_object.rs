//! The local object store: sandboxed storage keys, a session-wide cache of
//! one live data object per key, and persistence of that object's
//! properties through the byte-oriented storage backend.
//!
//! A lookup derives the storage key, returns the cached entry when one
//! exists (shared-instance semantics: repeated lookups with an equivalent
//! key return the same handle), and otherwise loads and decodes the stored
//! bytes — or starts from an empty data object.  Flushing serializes the
//! data object's own properties in the legacy reverse enumeration order as
//! AMF0 and writes the bytes back; clearing empties the data object and
//! removes the stored entry while the live handle stays usable.

use crate::codec::{
    deserialize_lso, serialize_props, spec_deserialize_lso, spec_ser_props, wf_encode_props,
    EnumOrder,
};
use crate::lso_io::{lso_encoded, lso_parse_bytes, lso_parsed, lso_write_bytes};
use crate::registry::{rm, ClassRegistry};
use crate::so_key::{resolve_so_key, spec_so_key};
use crate::strutil::{last_segment, last_segment_exec, str_eq};
use crate::url_info::{parse_document_url, url_parts};
use crate::value::{pm, vm, ObjKind, ScriptValue, ValModel};
use crate::wire::{AmfModel, AmfVersion};
use vstd::prelude::*;

verus! {

/// One live store entry: its full storage key and the data object's own
/// properties in enumeration order.
pub struct SoEntry {
    pub name: String,
    pub data: Vec<(String, ScriptValue)>,
}

/// A session's local object store state: the per-key cache of live data
/// objects and the byte-oriented storage backend's contents.
pub struct SoSession {
    pub entries: Vec<SoEntry>,
    pub storage: Vec<(String, Vec<u8>)>,
}

/// Model of the cache: each entry's key and property list.
pub open spec fn sem(entries: Seq<SoEntry>) -> Seq<(Seq<char>, Seq<(Seq<char>, ValModel)>)> {
    Seq::new(entries.len(), |i: int| (entries[i].name@, pm(entries[i].data@)))
}

/// Model of the storage backend: each stored key and its bytes.
pub open spec fn stm(storage: Seq<(String, Vec<u8>)>) -> Seq<(Seq<char>, Seq<u8>)> {
    Seq::new(storage.len(), |i: int| (storage[i].0@, storage[i].1@))
}

/// The bytes stored under a key.
pub open spec fn st_get(st: Seq<(Seq<char>, Seq<u8>)>, k: Seq<char>) -> Option<Seq<u8>>
    decreases st.len(),
{
    if st.len() == 0 {
        None
    } else if st.first().0 == k {
        Some(st.first().1)
    } else {
        st_get(st.drop_first(), k)
    }
}

/// The storage contents after writing `b` under `k`.
pub open spec fn spec_st_put(st: Seq<(Seq<char>, Seq<u8>)>, k: Seq<char>, b: Seq<u8>) -> Seq<
    (Seq<char>, Seq<u8>),
>
    decreases st.len(),
{
    if st.len() == 0 {
        seq![(k, b)]
    } else if st.first().0 == k {
        seq![(k, b)] + st.drop_first()
    } else {
        seq![st.first()] + spec_st_put(st.drop_first(), k, b)
    }
}

/// The storage contents after removing `k`.
pub open spec fn spec_st_remove(st: Seq<(Seq<char>, Seq<u8>)>, k: Seq<char>) -> Seq<
    (Seq<char>, Seq<u8>),
>
    decreases st.len(),
{
    if st.len() == 0 {
        st
    } else if st.first().0 == k {
        st.drop_first()
    } else {
        seq![st.first()] + spec_st_remove(st.drop_first(), k)
    }
}

/// The cache slot holding `k`, searching from `i`.
pub open spec fn cache_find_from(
    es: Seq<(Seq<char>, Seq<(Seq<char>, ValModel)>)>,
    k: Seq<char>,
    i: int,
) -> Option<int>
    decreases es.len() - i,
{
    if i < 0 || i >= es.len() {
        None
    } else if es[i].0 == k {
        Some(i)
    } else {
        cache_find_from(es, k, i + 1)
    }
}

/// The cache slot holding `k`.
pub open spec fn cache_find(
    es: Seq<(Seq<char>, Seq<(Seq<char>, ValModel)>)>,
    k: Seq<char>,
) -> Option<int> {
    cache_find_from(es, k, 0)
}

/// The storage key a lookup resolves to, given the hosting document's URL.
pub open spec fn effective_key(
    doc_url: Seq<char>,
    name: Seq<char>,
    local_path: Option<Seq<char>>,
    secure: bool,
) -> Option<Seq<char>> {
    match url_parts(doc_url) {
        None => None,
        Some(parts) => spec_so_key(parts.0, parts.1, parts.2, name, local_path, secure),
    }
}

/// The own properties of a decoded data object.
pub open spec fn instance_props(v: ValModel) -> Seq<(Seq<char>, ValModel)> {
    match v {
        ValModel::Obj(crate::value::ObjModel::Instance { class, members, props }) => props,
        _ => Seq::empty(),
    }
}

/// The data-object properties a fresh lookup for `k` starts from: the
/// decoded stored bytes, or nothing when the key is absent or its bytes do
/// not parse.
pub open spec fn spec_loaded_props(
    st: Seq<(Seq<char>, Seq<u8>)>,
    k: Seq<char>,
    reg: Seq<(Seq<char>, bool)>,
) -> Seq<(Seq<char>, ValModel)> {
    match st_get(st, k) {
        None => Seq::empty(),
        Some(bytes) => match lso_parsed(bytes) {
            None => Seq::empty(),
            Some(parsed) => instance_props(spec_deserialize_lso(parsed.1, reg)),
        },
    }
}

/// Session well-formedness: cache keys and storage keys are unique, and
/// every live data object is fit for encoding.
pub open spec fn so_wf(s: SoSession) -> bool {
    (forall|i: int, j: int|
        0 <= i < j < s.entries@.len() ==> #[trigger] sem(s.entries@)[i].0 != #[trigger] sem(
            s.entries@,
        )[j].0) && (forall|i: int, j: int|
        0 <= i < j < s.storage@.len() ==> #[trigger] stm(s.storage@)[i].0 != #[trigger] stm(
            s.storage@,
        )[j].0) && (forall|i: int|
        0 <= i < s.entries@.len() ==> wf_encode_props(#[trigger] sem(s.entries@)[i].1))
}

impl SoSession {
    /// A session with an empty cache and empty storage.
    pub fn new() -> (r: SoSession)
        ensures
            sem(r.entries@) =~= Seq::<(Seq<char>, Seq<(Seq<char>, ValModel)>)>::empty(),
            stm(r.storage@) =~= Seq::<(Seq<char>, Seq<u8>)>::empty(),
            so_wf(r),
    {
        SoSession { entries: Vec::new(), storage: Vec::new() }
    }

    /// Reads the bytes stored under a key.
    pub fn storage_get(&self, key: &str) -> (r: Option<Vec<u8>>)
        ensures
            match r {
                Some(b) => st_get(stm(self.storage@), key@) == Some(b@),
                None => st_get(stm(self.storage@), key@) is None,
            },
    {
        let n = self.storage.len();
        proof {
            lemma_st_get_is_from(stm(self.storage@), key@, 0);
            assert(stm(self.storage@).skip(0) =~= stm(self.storage@));
        }
        let mut i: usize = 0;
        while i < n
            invariant
                0 <= i <= n,
                n == self.storage@.len(),
                st_get(stm(self.storage@), key@) == st_get_from(stm(self.storage@), key@, i as int),
            decreases n - i,
        {
            proof {
                reveal_st_get_from(stm(self.storage@), key@, i as int);
            }
            if str_eq(self.storage[i].0.as_str(), key) {
                let b = crate::codec::vec_dup(&self.storage[i].1);
                return Some(b);
            }
            i = i + 1;
        }
        None
    }

    /// Writes bytes under a key; the in-memory backend always succeeds.
    pub fn storage_put(&mut self, key: &str, bytes: Vec<u8>) -> (r: bool)
        ensures
            r == true,
            stm(final(self).storage@) == spec_st_put(stm(old(self).storage@), key@, bytes@),
            final(self).entries@ == old(self).entries@,
    {
        let ghost before = self.storage@;
        let n = self.storage.len();
        let mut i: usize = 0;
        while i < n
            invariant
                0 <= i <= n,
                self.storage@ == before,
                self.entries@ == old(self).entries@,
                before == old(self).storage@,
                n == before.len(),
                forall|j: int| 0 <= j < i ==> #[trigger] stm(before)[j].0 != key@,
            decreases n - i,
        {
            if str_eq(self.storage[i].0.as_str(), key) {
                let _ = self.storage.remove(i);
                self.storage.insert(i, (key.to_owned(), bytes));
                proof {
                    assert(self.storage@ =~= before.update(
                        i as int,
                        (self.storage@[i as int].0, self.storage@[i as int].1),
                    ));
                    lemma_st_put_found(stm(before), key@, bytes@, i as int);
                    assert(stm(self.storage@) =~= stm(before).update(i as int, (key@, bytes@)));
                }
                return true;
            }
            i = i + 1;
        }
        self.storage.push((key.to_owned(), bytes));
        proof {
            assert(self.storage@.drop_last() =~= before);
            lemma_st_put_missing(stm(before), key@, bytes@);
            assert(stm(self.storage@) =~= stm(before).push((key@, bytes@)));
        }
        true
    }

    /// Removes the entry stored under a key, if any.
    pub fn storage_remove_key(&mut self, key: &str)
        ensures
            stm(final(self).storage@) == spec_st_remove(stm(old(self).storage@), key@),
            final(self).entries@ == old(self).entries@,
    {
        let ghost before = self.storage@;
        let n = self.storage.len();
        let mut i: usize = 0;
        while i < n
            invariant
                0 <= i <= n,
                self.storage@ == before,
                self.entries@ == old(self).entries@,
                before == old(self).storage@,
                n == before.len(),
                forall|j: int| 0 <= j < i ==> #[trigger] stm(before)[j].0 != key@,
            decreases n - i,
        {
            if str_eq(self.storage[i].0.as_str(), key) {
                let _ = self.storage.remove(i);
                proof {
                    lemma_st_remove_found(stm(before), key@, i as int);
                    assert(stm(self.storage@) =~= stm(before).remove(i as int));
                }
                return ;
            }
            i = i + 1;
        }
        proof {
            lemma_st_remove_missing(stm(before), key@);
        }
    }
}

/// Searching the storage list from position `i` on.
pub open spec fn st_get_from(st: Seq<(Seq<char>, Seq<u8>)>, k: Seq<char>, i: int) -> Option<
    Seq<u8>,
>
    decreases st.len() - i,
{
    if i < 0 || i >= st.len() {
        None
    } else if st[i].0 == k {
        Some(st[i].1)
    } else {
        st_get_from(st, k, i + 1)
    }
}

/// `st_get` is the search from the front.
pub proof fn lemma_st_get_is_from(st: Seq<(Seq<char>, Seq<u8>)>, k: Seq<char>, i: int)
    requires
        0 <= i <= st.len(),
    ensures
        st_get_from(st, k, i) == st_get(st.skip(i), k),
    decreases st.len() - i,
{
    if i < st.len() {
        lemma_st_get_is_from(st, k, i + 1);
        assert(st.skip(i).first() == st[i]);
        assert(st.skip(i).drop_first() =~= st.skip(i + 1));
    } else {
        assert(st.skip(i) =~= Seq::empty());
    }
}

/// One search step.
pub proof fn reveal_st_get_from(st: Seq<(Seq<char>, Seq<u8>)>, k: Seq<char>, i: int)
    requires
        0 <= i < st.len(),
    ensures
        st_get_from(st, k, i) == if st[i].0 == k {
            Some(st[i].1)
        } else {
            st_get_from(st, k, i + 1)
        },
{
}

proof fn lemma_st_put_found(st: Seq<(Seq<char>, Seq<u8>)>, k: Seq<char>, b: Seq<u8>, i: int)
    requires
        0 <= i < st.len(),
        st[i].0 == k,
        forall|j: int| 0 <= j < i ==> #[trigger] st[j].0 != k,
    ensures
        spec_st_put(st, k, b) =~= st.update(i, (k, b)),
    decreases i,
{
    if i == 0 {
    } else {
        lemma_st_put_found(st.drop_first(), k, b, i - 1);
        assert(spec_st_put(st, k, b) =~= st.update(i, (k, b)));
    }
}

proof fn lemma_st_put_missing(st: Seq<(Seq<char>, Seq<u8>)>, k: Seq<char>, b: Seq<u8>)
    requires
        forall|j: int| 0 <= j < st.len() ==> #[trigger] st[j].0 != k,
    ensures
        spec_st_put(st, k, b) =~= st.push((k, b)),
    decreases st.len(),
{
    if st.len() > 0 {
        lemma_st_put_missing(st.drop_first(), k, b);
        assert(spec_st_put(st, k, b) =~= st.push((k, b)));
    }
}

proof fn lemma_st_remove_found(st: Seq<(Seq<char>, Seq<u8>)>, k: Seq<char>, i: int)
    requires
        0 <= i < st.len(),
        st[i].0 == k,
        forall|j: int| 0 <= j < i ==> #[trigger] st[j].0 != k,
    ensures
        spec_st_remove(st, k) =~= st.remove(i),
    decreases i,
{
    if i == 0 {
        assert(st.remove(0) =~= st.drop_first());
    } else {
        lemma_st_remove_found(st.drop_first(), k, i - 1);
        assert(spec_st_remove(st, k) =~= st.remove(i));
    }
}

proof fn lemma_st_remove_missing(st: Seq<(Seq<char>, Seq<u8>)>, k: Seq<char>)
    requires
        forall|j: int| 0 <= j < st.len() ==> #[trigger] st[j].0 != k,
    ensures
        spec_st_remove(st, k) =~= st,
    decreases st.len(),
{
    if st.len() > 0 {
        lemma_st_remove_missing(st.drop_first(), k);
        assert(spec_st_remove(st, k) =~= st);
    }
}


/// No cache slot from `i` on holds `k` when the search from `i` fails.
pub proof fn lemma_cache_find_none(
    es: Seq<(Seq<char>, Seq<(Seq<char>, ValModel)>)>,
    k: Seq<char>,
    i: int,
)
    requires
        cache_find_from(es, k, i) is None,
        0 <= i,
    ensures
        forall|j: int| i <= j < es.len() ==> (#[trigger] es[j]).0 != k,
    decreases es.len() - i,
{
    if i < es.len() {
        lemma_cache_find_none(es, k, i + 1);
    }
}

/// Looking a key up right after its entry was installed at the end of the
/// cache finds exactly that entry.
pub proof fn lemma_cache_find_push(
    es: Seq<(Seq<char>, Seq<(Seq<char>, ValModel)>)>,
    k: Seq<char>,
    v: Seq<(Seq<char>, ValModel)>,
    i: int,
)
    requires
        0 <= i <= es.len(),
        forall|j: int| i <= j < es.len() ==> (#[trigger] es[j]).0 != k,
    ensures
        cache_find_from(es.push((k, v)), k, i) == Some(es.len() as int),
    decreases es.len() - i,
{
    if i < es.len() {
        assert(es.push((k, v))[i] == es[i]);
        lemma_cache_find_push(es, k, v, i + 1);
    } else {
        assert(es.push((k, v))[i] == (k, v));
    }
}

/// Cache sharing: whatever handle a lookup for key `k` returns — the hit
/// slot of an unchanged cache, or the slot a miss installs at the end —
/// the cache afterwards maps `k` to exactly that handle, so a repeated
/// lookup with the same effective key returns the same handle and
/// mutations through one handle are visible through the other.
pub proof fn lemma_cache_sharing(
    es: Seq<(Seq<char>, Seq<(Seq<char>, ValModel)>)>,
    k: Seq<char>,
    loaded: Seq<(Seq<char>, ValModel)>,
)
    ensures
        ({
            let first = match cache_find(es, k) {
                Some(i) => (i, es),
                None => (es.len() as int, es.push((k, loaded))),
            };
            cache_find(first.1, k) == Some(first.0)
        }),
{
    if cache_find(es, k) is None {
        lemma_cache_find_none(es, k, 0);
        lemma_cache_find_push(es, k, loaded, 0);
    }
}

/// Nothing is stored under a key that no slot holds.
proof fn lemma_st_get_absent(st: Seq<(Seq<char>, Seq<u8>)>, k: Seq<char>)
    requires
        forall|j: int| 0 <= j < st.len() ==> (#[trigger] st[j]).0 != k,
    ensures
        st_get(st, k) is None,
    decreases st.len(),
{
    if st.len() > 0 {
        assert forall|j: int| 0 <= j < st.drop_first().len() implies (#[trigger] st.drop_first()[
            j
        ]).0 != k by {
            assert(st.drop_first()[j] == st[j + 1]);
        }
        lemma_st_get_absent(st.drop_first(), k);
    }
}

/// Removing a key from a storage list with unique keys leaves nothing
/// stored under it.
pub proof fn lemma_removed_key_absent(st: Seq<(Seq<char>, Seq<u8>)>, k: Seq<char>)
    requires
        forall|i: int, j: int| 0 <= i < j < st.len() ==> (#[trigger] st[i]).0 != (
        #[trigger] st[j]).0,
    ensures
        st_get(spec_st_remove(st, k), k) is None,
    decreases st.len(),
{
    if st.len() > 0 {
        if st.first().0 == k {
            assert forall|j: int| 0 <= j < st.drop_first().len() implies (
            #[trigger] st.drop_first()[j]).0 != k by {
                assert(st.drop_first()[j] == st[j + 1]);
            }
            lemma_st_get_absent(st.drop_first(), k);
        } else {
            assert forall|i: int, j: int|
                0 <= i < j < st.drop_first().len() implies (#[trigger] st.drop_first()[i]).0 != (
            #[trigger] st.drop_first()[j]).0 by {
                assert(st.drop_first()[i] == st[i + 1]);
                assert(st.drop_first()[j] == st[j + 1]);
            }
            lemma_removed_key_absent(st.drop_first(), k);
            let r = spec_st_remove(st, k);
            assert(r.drop_first() =~= spec_st_remove(st.drop_first(), k));
            assert(r.first() == st.first());
        }
    }
}

/// What a put stored is what a later read of the key returns.
pub proof fn lemma_put_key_present(st: Seq<(Seq<char>, Seq<u8>)>, k: Seq<char>, b: Seq<u8>)
    ensures
        st_get(spec_st_put(st, k, b), k) == Some(b),
    decreases st.len(),
{
    if st.len() == 0 {
    } else if st.first().0 == k {
        let r = spec_st_put(st, k, b);
        assert(r.first() == (k, b));
    } else {
        lemma_put_key_present(st.drop_first(), k, b);
        let r = spec_st_put(st, k, b);
        assert(r.first() == st.first());
        assert(r.drop_first() =~= spec_st_put(st.drop_first(), k, b));
    }
}

/// Every key after a put is the written key or one that was already
/// present, and unique keys stay unique.
proof fn lemma_st_put_keys(st: Seq<(Seq<char>, Seq<u8>)>, k: Seq<char>, b: Seq<u8>)
    requires
        forall|i: int, j: int| 0 <= i < j < st.len() ==> (#[trigger] st[i]).0 != (
        #[trigger] st[j]).0,
    ensures
        forall|i: int, j: int|
            0 <= i < j < spec_st_put(st, k, b).len() ==> (#[trigger] spec_st_put(st, k, b)[i]).0
                != (#[trigger] spec_st_put(st, k, b)[j]).0,
    decreases st.len(),
{
    if exists|m: int| 0 <= m < st.len() && (#[trigger] st[m]).0 == k {
        let first_m = first_key_slot(st, k);
        lemma_first_key_slot(st, k);
        lemma_st_put_found_pub(st, k, b, first_m);
        assert(spec_st_put(st, k, b) =~= st.update(first_m, (k, b)));
        assert forall|i: int, j: int|
            0 <= i < j < spec_st_put(st, k, b).len() implies (#[trigger] spec_st_put(
            st,
            k,
            b,
        )[i]).0 != (#[trigger] spec_st_put(st, k, b)[j]).0 by {
            assert(st[first_m].0 == k);
        }
    } else {
        assert forall|j: int| 0 <= j < st.len() implies (#[trigger] st[j]).0 != k by {}
        lemma_st_put_missing(st, k, b);
        assert(spec_st_put(st, k, b) =~= st.push((k, b)));
    }
}

/// The first storage slot holding `k`, when one exists.
spec fn first_key_slot(st: Seq<(Seq<char>, Seq<u8>)>, k: Seq<char>) -> int
    decreases st.len(),
{
    if st.len() == 0 {
        0
    } else if st.first().0 == k {
        0
    } else {
        1 + first_key_slot(st.drop_first(), k)
    }
}

proof fn lemma_first_key_slot(st: Seq<(Seq<char>, Seq<u8>)>, k: Seq<char>)
    requires
        exists|m: int| 0 <= m < st.len() && (#[trigger] st[m]).0 == k,
    ensures
        0 <= first_key_slot(st, k) < st.len(),
        st[first_key_slot(st, k)].0 == k,
        forall|j: int| 0 <= j < first_key_slot(st, k) ==> (#[trigger] st[j]).0 != k,
    decreases st.len(),
{
    if st.first().0 == k {
    } else {
        let m = choose|m: int| 0 <= m < st.len() && (#[trigger] st[m]).0 == k;
        assert(st.drop_first()[m - 1] == st[m]);
        lemma_first_key_slot(st.drop_first(), k);
        assert forall|j: int| 0 <= j < first_key_slot(st, k) implies (#[trigger] st[j]).0
            != k by {
            if j > 0 {
                assert(st[j] == st.drop_first()[j - 1]);
            }
        }
    }
}

proof fn lemma_st_put_found_pub(st: Seq<(Seq<char>, Seq<u8>)>, k: Seq<char>, b: Seq<u8>, i: int)
    requires
        0 <= i < st.len(),
        st[i].0 == k,
        forall|j: int| 0 <= j < i ==> (#[trigger] st[j]).0 != k,
    ensures
        spec_st_put(st, k, b) =~= st.update(i, (k, b)),
    decreases i,
{
    if i == 0 {
    } else {
        assert forall|j: int| 0 <= j < i - 1 implies (#[trigger] st.drop_first()[j]).0 != k by {
            assert(st.drop_first()[j] == st[j + 1]);
        }
        assert(st.drop_first()[i - 1] == st[i]);
        lemma_st_put_found_pub(st.drop_first(), k, b, i - 1);
        assert(spec_st_put(st, k, b) =~= st.update(i, (k, b)));
    }
}

/// Unique keys stay unique when one is removed.
proof fn lemma_st_remove_keys(st: Seq<(Seq<char>, Seq<u8>)>, k: Seq<char>)
    requires
        forall|i: int, j: int| 0 <= i < j < st.len() ==> (#[trigger] st[i]).0 != (
        #[trigger] st[j]).0,
    ensures
        forall|i: int, j: int|
            0 <= i < j < spec_st_remove(st, k).len() ==> (#[trigger] spec_st_remove(st, k)[i]).0
                != (#[trigger] spec_st_remove(st, k)[j]).0,
    decreases st.len(),
{
    if st.len() > 0 {
        if st.first().0 == k {
            assert forall|i: int, j: int|
                0 <= i < j < st.drop_first().len() implies (#[trigger] st.drop_first()[i]).0 != (
            #[trigger] st.drop_first()[j]).0 by {
                assert(st.drop_first()[i] == st[i + 1]);
                assert(st.drop_first()[j] == st[j + 1]);
            }
        } else {
            assert forall|i: int, j: int|
                0 <= i < j < st.drop_first().len() implies (#[trigger] st.drop_first()[i]).0 != (
            #[trigger] st.drop_first()[j]).0 by {
                assert(st.drop_first()[i] == st[i + 1]);
                assert(st.drop_first()[j] == st[j + 1]);
            }
            lemma_st_remove_keys(st.drop_first(), k);
            let r = spec_st_remove(st, k);
            assert(r.drop_first() =~= spec_st_remove(st.drop_first(), k));
            assert(r.first() == st.first());
            assert forall|i: int, j: int|
                0 <= i < j < r.len() implies (#[trigger] r[i]).0 != (#[trigger] r[j]).0 by {
                if i == 0 {
                    lemma_remove_keys_subset(st.drop_first(), k, j - 1);
                } else {
                    assert(r[i] == r.drop_first()[i - 1]);
                    assert(r[j] == r.drop_first()[j - 1]);
                }
            }
        }
    }
}

/// Every key left after a removal was present before it.
proof fn lemma_remove_keys_subset(st: Seq<(Seq<char>, Seq<u8>)>, k: Seq<char>, j: int)
    requires
        0 <= j < spec_st_remove(st, k).len(),
    ensures
        exists|m: int|
            0 <= m < st.len() && (#[trigger] st[m]).0 == spec_st_remove(st, k)[j].0,
    decreases st.len(),
{
    if st.first().0 == k {
        assert(spec_st_remove(st, k) =~= st.drop_first());
        assert(st[j + 1] == st.drop_first()[j]);
    } else {
        let r = spec_st_remove(st, k);
        assert(r.first() == st.first());
        assert(r.drop_first() =~= spec_st_remove(st.drop_first(), k));
        if j == 0 {
            assert(st[0].0 == r[0].0);
        } else {
            lemma_remove_keys_subset(st.drop_first(), k, j - 1);
            let m = choose|m: int|
                0 <= m < st.drop_first().len() && (#[trigger] st.drop_first()[m]).0
                    == spec_st_remove(st.drop_first(), k)[j - 1].0;
            assert(st[m + 1] == st.drop_first()[m]);
            assert(r[j] == r.drop_first()[j - 1]);
        }
    }
}


/// Looks a logical name up in the local object store.  The storage key is
/// derived from the hosting document's URL; any rejection returns the
/// null sentinel (`None`).  A cached entry for the key is returned
/// unchanged, so independent handles observe each other's mutations;
/// otherwise the stored bytes are loaded and decoded (an absent or
/// unparseable entry yields a fresh empty data object) and the new entry
/// is installed in the cache.
pub fn get_local(
    session: &mut SoSession,
    registry: &ClassRegistry,
    name: &str,
    doc_url: &str,
    local_path: Option<&str>,
    secure: bool,
) -> (r: Option<usize>)
    requires
        so_wf(*old(session)),
    ensures
        so_wf(*final(session)),
        ({
            let lp = match local_path {
                Some(l) => Some(l@),
                None => None,
            };
            match effective_key(doc_url@, name@, lp, secure) {
                None => r is None && *final(session) == *old(session),
                Some(k) => match cache_find(sem(old(session).entries@), k) {
                    Some(i) => r matches Some(h) && h as int == i && *final(session) == *old(
                        session,
                    ),
                    None => r matches Some(h) && h as int == sem(old(session).entries@).len()
                        && sem(final(session).entries@) =~= sem(old(session).entries@).push(
                        (
                            k,
                            spec_loaded_props(
                                stm(old(session).storage@),
                                k,
                                rm(*registry),
                            ),
                        ),
                    ) && stm(final(session).storage@) == stm(old(session).storage@),
                },
            }
        }),
{
    let parts = match parse_document_url(doc_url) {
        Some(p) => p,
        None => {
            return None;
        },
    };
    let key = match resolve_so_key(
        parts.scheme.as_str(),
        parts.host.as_str(),
        parts.path.as_str(),
        name,
        local_path,
        secure,
    ) {
        Some(k) => k,
        None => {
            return None;
        },
    };
    let ghost lpm: Option<Seq<char>> = match local_path {
        Some(l) => Some(l@),
        None => None,
    };
    proof {
        assert(effective_key(doc_url@, name@, lpm, secure) == Some(key@));
    }
    let n = session.entries.len();
    proof {
        assert(sem(session.entries@).len() == n);
    }
    let mut i: usize = 0;
    while i < n
        invariant
            0 <= i <= n,
            n == session.entries@.len(),
            *session == *old(session),
            so_wf(*session),
            effective_key(doc_url@, name@, lpm, secure) == Some(key@),
            lpm == (match local_path {
                Some(l) => Some(l@),
                None => None,
            }),
            cache_find(sem(session.entries@), key@) == cache_find_from(
                sem(session.entries@),
                key@,
                i as int,
            ),
        decreases n - i,
    {
        if str_eq(session.entries[i].name.as_str(), key.as_str()) {
            proof {
                assert(sem(session.entries@)[i as int].0 == key@);
                assert(cache_find_from(sem(session.entries@), key@, i as int) == Some(i as int));
            }
            return Some(i);
        }
        proof {
            assert(sem(session.entries@)[i as int].0 != key@);
        }
        i = i + 1;
    }
    let ghost regm = rm(*registry);
    let mut loaded: Vec<(String, ScriptValue)> = Vec::new();
    proof {
        assert(pm(Seq::<(String, ScriptValue)>::empty()) =~= Seq::<(Seq<char>, ValModel)>::empty());
    }
    match session.storage_get(key.as_str()) {
        Some(bytes) => {
            match lso_parse_bytes(&bytes) {
                Some(parsed) => {
                    let val = deserialize_lso(&parsed.1, registry);
                    proof {
                        crate::codec::lemma_deserialize_lso_wf(crate::wire::esm(parsed.1@), regm);
                    }
                    // A decoded store container is always a class-less
                    // data object; the other arms cannot be reached.
                    match val {
                        ScriptValue::Object(kind) => match kind {
                            ObjKind::Instance { class, members, props } => {
                                loaded = props;
                            },
                            _ => {
                                proof {
                                    assert(false);
                                }
                            },
                        },
                        _ => {
                            proof {
                                assert(false);
                            }
                        },
                    }
                },
                None => {},
            }
        },
        None => {},
    }
    proof {
        assert(pm(loaded@) == spec_loaded_props(stm(session.storage@), key@, regm));
        assert(wf_encode_props(pm(loaded@)));
    }
    let ghost entries_before = session.entries@;
    let ghost key_view = key@;
    let ghost loaded_model = pm(loaded@);
    let handle = session.entries.len();
    session.entries.push(SoEntry { name: key, data: loaded });
    proof {
        assert forall|j: int| 0 <= j < sem(session.entries@).len() implies #[trigger] sem(
            session.entries@,
        )[j] == sem(entries_before).push((key_view, loaded_model))[j] by {
            if j < entries_before.len() {
                assert(session.entries@[j] == entries_before[j]);
            } else {
                assert(session.entries@[j].name@ == key_view);
            }
        }
        assert(sem(session.entries@) =~= sem(entries_before).push((key_view, loaded_model)));
        lemma_cache_find_none(sem(entries_before), key_view, 0);
    }
    Some(handle)
}

/// Serializes the entry's data object (legacy reverse enumeration order,
/// AMF0) into a container named by the trailing segment of its key, and
/// writes the bytes to the storage backend; the in-memory backend always
/// reports success.
pub fn flush(session: &mut SoSession, registry: &ClassRegistry, handle: usize) -> (r: bool)
    requires
        so_wf(*old(session)),
        handle < old(session).entries@.len(),
    ensures
        r == true,
        so_wf(*final(session)),
        final(session).entries@ == old(session).entries@,
        stm(final(session).storage@) == spec_st_put(
            stm(old(session).storage@),
            sem(old(session).entries@)[handle as int].0,
            lso_encoded(
                last_segment(sem(old(session).entries@)[handle as int].0),
                spec_ser_props(
                    sem(old(session).entries@)[handle as int].1,
                    AmfVersion::Amf0,
                    EnumOrder::Reverse,
                    rm(*registry),
                ),
            ),
        ),
{
    let key = session.entries[handle].name.clone();
    let root = last_segment_exec(key.as_str());
    proof {
        assert(sem(session.entries@)[handle as int].1 == pm(session.entries@[handle as int].data@));
    }
    let elements = serialize_props(
        &session.entries[handle].data,
        AmfVersion::Amf0,
        EnumOrder::Reverse,
        registry,
    );
    let bytes = lso_write_bytes(root, &elements);
    let ok = session.storage_put(key.as_str(), bytes);
    proof {
        lemma_st_put_keys(stm(old(session).storage@), key@, bytes@);
    }
    ok
}

/// Deletes every own property of the entry's data object and removes the
/// backing storage entry; the cache entry itself stays, so the live
/// handle remains usable with empty data.
pub fn clear(session: &mut SoSession, handle: usize)
    requires
        so_wf(*old(session)),
        handle < old(session).entries@.len(),
    ensures
        so_wf(*final(session)),
        sem(final(session).entries@).len() == sem(old(session).entries@).len(),
        forall|i: int|
            0 <= i < sem(old(session).entries@).len() && i != handle as int ==> #[trigger] sem(
                final(session).entries@,
            )[i] == sem(old(session).entries@)[i],
        sem(final(session).entries@)[handle as int].0 == sem(old(session).entries@)[
            handle as int
        ].0,
        sem(final(session).entries@)[handle as int].1 =~= Seq::<(Seq<char>, ValModel)>::empty(),
        stm(final(session).storage@) == spec_st_remove(
            stm(old(session).storage@),
            sem(old(session).entries@)[handle as int].0,
        ),
{
    let ghost entries_before = session.entries@;
    let mut e = session.entries.remove(handle);
    let key = e.name.clone();
    e.data = Vec::new();
    session.entries.insert(handle, e);
    proof {
        assert forall|i: int| 0 <= i < sem(session.entries@).len() && i != handle as int
            implies #[trigger] sem(session.entries@)[i] == sem(entries_before)[i] by {
            if i < handle as int {
                assert(session.entries@[i] == entries_before[i]);
            } else {
                assert(session.entries@[i] == entries_before[i]);
            }
        }
        assert(sem(session.entries@)[handle as int].0 == sem(entries_before)[handle as int].0);
        assert(pm(session.entries@[handle as int].data@) =~= Seq::<
            (Seq<char>, ValModel),
        >::empty());
        crate::codec::lemma_wf_props_intro(Seq::<(Seq<char>, ValModel)>::empty());
    }
    session.storage_remove_key(key.as_str());
    proof {
        lemma_st_remove_keys(stm(old(session).storage@), key@);
    }
}

/// Assigns one property of an entry's data object through its handle:
/// replaces the first property of that name, or appends a new one.
pub fn set_data_prop(session: &mut SoSession, handle: usize, name: String, value: ScriptValue)
    requires
        so_wf(*old(session)),
        handle < old(session).entries@.len(),
        crate::codec::wf_encode(vm(value)),
    ensures
        so_wf(*final(session)),
        sem(final(session).entries@).len() == sem(old(session).entries@).len(),
        forall|i: int|
            0 <= i < sem(old(session).entries@).len() && i != handle as int ==> #[trigger] sem(
                final(session).entries@,
            )[i] == sem(old(session).entries@)[i],
        sem(final(session).entries@)[handle as int].0 == sem(old(session).entries@)[
            handle as int
        ].0,
        sem(final(session).entries@)[handle as int].1 == crate::codec::spec_set_prop(
            sem(old(session).entries@)[handle as int].1,
            name@,
            vm(value),
        ),
        final(session).storage@ == old(session).storage@,
{
    let ghost entries_before = session.entries@;
    let mut e = session.entries.remove(handle);
    crate::codec::set_prop(&mut e.data, name, value);
    session.entries.insert(handle, e);
    proof {
        assert forall|i: int| 0 <= i < sem(session.entries@).len() && i != handle as int
            implies #[trigger] sem(session.entries@)[i] == sem(entries_before)[i] by {
            if i < handle as int {
                assert(session.entries@[i] == entries_before[i]);
            } else {
                assert(session.entries@[i] == entries_before[i]);
            }
        }
        assert(sem(session.entries@)[handle as int].0 == sem(entries_before)[handle as int].0);
        crate::codec::lemma_set_prop_keeps_wf_pub(
            sem(entries_before)[handle as int].1,
            name@,
            vm(value),
        );
    }
}

/// The number of live cache entries.
pub fn entry_count(session: &SoSession) -> (r: usize)
    ensures
        r == sem(session.entries@).len(),
{
    session.entries.len()
}

/// The full storage key of a live entry.
pub fn entry_name(session: &SoSession, handle: usize) -> (r: &String)
    requires
        handle < session.entries@.len(),
    ensures
        r@ == sem(session.entries@)[handle as int].0,
{
    &session.entries[handle].name
}

/// The data object of a live entry: its own properties in enumeration
/// order.
pub fn entry_data(session: &SoSession, handle: usize) -> (r: &Vec<(String, ScriptValue)>)
    requires
        handle < session.entries@.len(),
    ensures
        pm(r@) == sem(session.entries@)[handle as int].1,
{
    &session.entries[handle].data
}


/// The model of a plain function object.
pub open spec fn fn_val() -> ValModel {
    ValModel::Obj(crate::value::ObjModel::Function { props: Seq::empty() })
}

/// The methods the store prototype object carries.
pub open spec fn proto_props() -> Seq<(Seq<char>, ValModel)> {
    seq![
        ("clear"@, fn_val()),
        ("close"@, fn_val()),
        ("connect"@, fn_val()),
        ("flush"@, fn_val()),
        ("getSize"@, fn_val()),
        ("send"@, fn_val()),
        ("setFps"@, fn_val()),
        ("onStatus"@, fn_val()),
        ("onSync"@, fn_val()),
    ]
}

/// The methods the store constructor object carries.
pub open spec fn constructor_props() -> Seq<(Seq<char>, ValModel)> {
    seq![
        ("deleteAll"@, fn_val()),
        ("getDiskUsage"@, fn_val()),
        ("getLocal"@, fn_val()),
        ("getRemote"@, fn_val()),
        ("getMaxSize"@, fn_val()),
        ("addListener"@, fn_val()),
        ("removeListener"@, fn_val()),
    ]
}

/// A fresh function-object property.
fn make_fn_prop(name: &str) -> (r: (String, ScriptValue))
    ensures
        r.0@ == name@,
        vm(r.1) == fn_val(),
{
    proof {
        assert(pm(Seq::<(String, ScriptValue)>::empty()) =~= Seq::<(Seq<char>, ValModel)>::empty());
    }
    (name.to_owned(), ScriptValue::Object(ObjKind::Function { props: Vec::new() }))
}

/// Builds the store prototype: a plain object carrying the instance
/// methods.
pub fn create_proto() -> (r: ScriptValue)
    ensures
        vm(r) == ValModel::Obj(
            crate::value::ObjModel::Instance {
                class: 0,
                members: Seq::empty(),
                props: proto_props(),
            },
        ),
{
    let mut props: Vec<(String, ScriptValue)> = Vec::new();
    props.push(make_fn_prop("clear"));
    props.push(make_fn_prop("close"));
    props.push(make_fn_prop("connect"));
    props.push(make_fn_prop("flush"));
    props.push(make_fn_prop("getSize"));
    props.push(make_fn_prop("send"));
    props.push(make_fn_prop("setFps"));
    props.push(make_fn_prop("onStatus"));
    props.push(make_fn_prop("onSync"));
    proof {
        crate::value::lemma_pm(props@);
        assert(crate::value::mm(Seq::<crate::value::Member>::empty()) =~= Seq::<
            crate::value::MemberModel,
        >::empty());
        assert(pm(props@) =~= proto_props());
    }
    ScriptValue::Object(ObjKind::Instance { class: 0, members: Vec::new(), props })
}

/// Builds the store constructor object: a function object carrying the
/// static lookup methods.
pub fn create_shared_object_object() -> (r: ScriptValue)
    ensures
        vm(r) == ValModel::Obj(
            crate::value::ObjModel::Function { props: constructor_props() },
        ),
{
    let mut props: Vec<(String, ScriptValue)> = Vec::new();
    props.push(make_fn_prop("deleteAll"));
    props.push(make_fn_prop("getDiskUsage"));
    props.push(make_fn_prop("getLocal"));
    props.push(make_fn_prop("getRemote"));
    props.push(make_fn_prop("getMaxSize"));
    props.push(make_fn_prop("addListener"));
    props.push(make_fn_prop("removeListener"));
    proof {
        crate::value::lemma_pm(props@);
        assert(pm(props@) =~= constructor_props());
    }
    ScriptValue::Object(ObjKind::Function { props })
}

/// The constructor body: returns the instance under construction.
pub fn constructor(this: ScriptValue) -> (r: ScriptValue)
    ensures
        r == this,
{
    this
}

/// Bulk deletion is not supported; the call reports nothing done.
pub fn delete_all() -> (r: ScriptValue)
    ensures
        r == ScriptValue::Undefined,
{
    ScriptValue::Undefined
}

/// Disk-usage reporting is not supported; the call reports nothing.
pub fn get_disk_usage() -> (r: ScriptValue)
    ensures
        r == ScriptValue::Undefined,
{
    ScriptValue::Undefined
}

/// Remote stores are not supported; the call reports nothing.
pub fn get_remote() -> (r: ScriptValue)
    ensures
        r == ScriptValue::Undefined,
{
    ScriptValue::Undefined
}

/// Size limits are not supported; the call reports nothing.
pub fn get_max_size() -> (r: ScriptValue)
    ensures
        r == ScriptValue::Undefined,
{
    ScriptValue::Undefined
}

/// Change listeners are not supported; the call reports nothing.
pub fn add_listener() -> (r: ScriptValue)
    ensures
        r == ScriptValue::Undefined,
{
    ScriptValue::Undefined
}

/// Change listeners are not supported; the call reports nothing.
pub fn remove_listener() -> (r: ScriptValue)
    ensures
        r == ScriptValue::Undefined,
{
    ScriptValue::Undefined
}

/// Closing a connection is not supported; the call reports nothing.
pub fn close() -> (r: ScriptValue)
    ensures
        r == ScriptValue::Undefined,
{
    ScriptValue::Undefined
}

/// Remote connections are not supported; the call reports nothing.
pub fn connect() -> (r: ScriptValue)
    ensures
        r == ScriptValue::Undefined,
{
    ScriptValue::Undefined
}

/// Size reporting is not supported; the call reports nothing.
pub fn get_size() -> (r: ScriptValue)
    ensures
        r == ScriptValue::Undefined,
{
    ScriptValue::Undefined
}

/// Sending to a remote store is not supported; the call reports nothing.
pub fn send() -> (r: ScriptValue)
    ensures
        r == ScriptValue::Undefined,
{
    ScriptValue::Undefined
}

/// Synchronization rates are not supported; the call reports nothing.
pub fn set_fps() -> (r: ScriptValue)
    ensures
        r == ScriptValue::Undefined,
{
    ScriptValue::Undefined
}

/// The default status handler does nothing.
pub fn on_status() -> (r: ScriptValue)
    ensures
        r == ScriptValue::Undefined,
{
    ScriptValue::Undefined
}

/// The default synchronization handler does nothing.
pub fn on_sync() -> (r: ScriptValue)
    ensures
        r == ScriptValue::Undefined,
{
    ScriptValue::Undefined
}


/// The property map of a data object: each own property name to its
/// value (a later assignment wins).
pub open spec fn props_map(props: Seq<(Seq<char>, ValModel)>) -> Map<Seq<char>, ValModel>
    decreases props.len(),
{
    if props.len() == 0 {
        Map::empty()
    } else {
        props_map(props.drop_last()).insert(props.last().0, props.last().1)
    }
}

/// With pairwise-distinct names, the property map holds exactly the
/// listed properties.
pub proof fn lemma_props_map_distinct(props: Seq<(Seq<char>, ValModel)>)
    requires
        forall|i: int, j: int|
            0 <= i < j < props.len() ==> (#[trigger] props[i]).0 != (#[trigger] props[j]).0,
    ensures
        forall|i: int|
            0 <= i < props.len() ==> props_map(props).dom().contains(
                (#[trigger] props[i]).0,
            ) && props_map(props)[props[i].0] == props[i].1,
        forall|nm: Seq<char>|
            props_map(props).dom().contains(nm) ==> exists|i: int|
                0 <= i < props.len() && (#[trigger] props[i]).0 == nm,
    decreases props.len(),
{
    if props.len() > 0 {
        assert forall|i: int, j: int|
            0 <= i < j < props.drop_last().len() implies (#[trigger] props.drop_last()[i]).0 != (
        #[trigger] props.drop_last()[j]).0 by {
            assert(props.drop_last()[i] == props[i]);
            assert(props.drop_last()[j] == props[j]);
        }
        lemma_props_map_distinct(props.drop_last());
        assert forall|i: int| 0 <= i < props.len() implies props_map(props).dom().contains(
            (#[trigger] props[i]).0,
        ) && props_map(props)[props[i].0] == props[i].1 by {
            if i < props.len() - 1 {
                assert(props.drop_last()[i] == props[i]);
                assert(props[i].0 != props.last().0);
            }
        }
        assert forall|nm: Seq<char>| props_map(props).dom().contains(nm) implies exists|i: int|
            0 <= i < props.len() && (#[trigger] props[i]).0 == nm by {
            if nm != props.last().0 {
                assert(props_map(props.drop_last()).dom().contains(nm));
                let i = choose|i: int|
                    0 <= i < props.drop_last().len() && (#[trigger] props.drop_last()[i]).0 == nm;
                assert(props.drop_last()[i] == props[i]);
                assert(props[i].0 == nm);
            } else {
                assert(props[props.len() - 1].0 == nm);
            }
        }
    }
}

/// Faithful representability from pointwise bounds.
proof fn lemma_wire_ok_intro(elems: Seq<(Seq<char>, AmfModel)>)
    requires
        forall|i: int|
            0 <= i < elems.len() ==> (#[trigger] elems[i]).0.len() <= 16383
                && crate::wire::amf0_wire_ok(elems[i].1),
    ensures
        crate::wire::amf0_wire_ok_elems(elems),
    decreases elems.len(),
{
    if elems.len() > 0 {
        assert forall|i: int| 0 <= i < elems.drop_first().len() implies (
        #[trigger] elems.drop_first()[i]).0.len() <= 16383 && crate::wire::amf0_wire_ok(
            elems.drop_first()[i].1,
        ) by {
            assert(elems.drop_first()[i] == elems[i + 1]);
        }
        lemma_wire_ok_intro(elems.drop_first());
    }
}

/// Flush-then-reload: serializing a data object's plain-valued
/// properties in the legacy reverse order as AMF0, passing them through
/// the byte layer's reshaping, and decoding the result as a fresh lookup
/// does, reconstructs a data object with the same own-property set and
/// values.  Together with `flush`'s contract (the stored bytes are the
/// encoding of exactly this serialization), `lso_write_bytes`'s contract
/// (those bytes reread as the reshaped body) and `get_local`'s contract
/// (a fresh lookup decodes the reread body), this is the store's
/// persistence round trip.
pub proof fn lemma_flush_reload(
    props: Seq<(Seq<char>, ValModel)>,
    reg: Seq<(Seq<char>, bool)>,
)
    requires
        crate::codec::plain_props(props),
        forall|i: int, j: int|
            0 <= i < j < props.len() ==> (#[trigger] props[i]).0 != (#[trigger] props[j]).0,
    ensures
        ({
            let ser = spec_ser_props(props, AmfVersion::Amf0, EnumOrder::Reverse, reg);
            crate::wire::amf0_wire_ok_elems(ser) && props_map(
                instance_props(
                    spec_deserialize_lso(crate::wire::amf0_normalize_elems(ser), reg),
                ),
            ) =~= props_map(props)
        }),
{
    let n = props.len() as int;
    let ser = spec_ser_props(props, AmfVersion::Amf0, EnumOrder::Reverse, reg);
    crate::codec::lemma_ser_props_reverse_plain(props, AmfVersion::Amf0, reg);
    assert forall|i: int| 0 <= i < ser.len() implies (#[trigger] ser[i]).0.len() <= 16383
        && crate::wire::amf0_wire_ok(ser[i].1) by {
        assert(ser[i] == (props[n - 1 - i].0, crate::codec::plain_enc(props[n - 1 - i].1)));
        assert(crate::codec::plain_value(props[n - 1 - i].1));
    }
    lemma_wire_ok_intro(ser);
    let normalized = crate::wire::amf0_normalize_elems(ser);
    crate::wire::lemma_normalize_elems_pointwise(ser);
    let decoded = crate::codec::spec_deser_elems(normalized, reg);
    crate::codec::lemma_deser_elems_pointwise(normalized, reg);
    assert forall|i: int| 0 <= i < n implies #[trigger] decoded[i] == props[n - 1 - i] by {
        assert(ser[i] == (props[n - 1 - i].0, crate::codec::plain_enc(props[n - 1 - i].1)));
        crate::codec::lemma_plain_enc_round(props[n - 1 - i].1, reg);
    }
    assert forall|i: int, j: int| 0 <= i < j < decoded.len() implies (#[trigger] decoded[i]).0
        != (#[trigger] decoded[j]).0 by {
        assert(decoded[i] == props[n - 1 - i]);
        assert(decoded[j] == props[n - 1 - j]);
    }
    crate::codec::lemma_apply_fresh(Seq::empty(), decoded);
    assert(Seq::<(Seq<char>, ValModel)>::empty() + decoded =~= decoded);
    let reloaded = instance_props(spec_deserialize_lso(normalized, reg));
    assert(reloaded == decoded);
    lemma_props_map_distinct(props);
    lemma_props_map_distinct(decoded);
    let m1 = props_map(reloaded);
    let m2 = props_map(props);
    assert forall|nm: Seq<char>| m1.dom().contains(nm) implies m2.dom().contains(nm)
        && m1[nm] == m2[nm] by {
        let i = choose|i: int| 0 <= i < decoded.len() && (#[trigger] decoded[i]).0 == nm;
        assert(decoded[i] == props[n - 1 - i]);
        assert(props[n - 1 - i].0 == nm);
    }
    assert forall|nm: Seq<char>| m2.dom().contains(nm) implies m1.dom().contains(nm) by {
        let i = choose|i: int| 0 <= i < props.len() && (#[trigger] props[i]).0 == nm;
        assert(decoded[n - 1 - i] == props[i]);
    }
    assert(m1 =~= m2);
}


/// The persistence round trip, end to end at the model level: after a
/// flush stored the reverse-order AMF0 serialization of a plain-valued
/// data object under its key (`flush`'s contract), and given that the
/// byte reader inverts the writer on that body (`lso_write_bytes`'s
/// contract), a fresh lookup for the key loads a data object with the
/// same own-property set and values.
pub proof fn lemma_persisted_reload(
    st: Seq<(Seq<char>, Seq<u8>)>,
    key: Seq<char>,
    props: Seq<(Seq<char>, ValModel)>,
    reg: Seq<(Seq<char>, bool)>,
)
    requires
        crate::codec::plain_props(props),
        forall|i: int, j: int|
            0 <= i < j < props.len() ==> (#[trigger] props[i]).0 != (#[trigger] props[j]).0,
        lso_parsed(
            lso_encoded(
                last_segment(key),
                spec_ser_props(props, AmfVersion::Amf0, EnumOrder::Reverse, reg),
            ),
        ) == Some(
            (
                last_segment(key),
                crate::wire::amf0_normalize_elems(
                    spec_ser_props(props, AmfVersion::Amf0, EnumOrder::Reverse, reg),
                ),
            ),
        ),
    ensures
        props_map(
            spec_loaded_props(
                spec_st_put(
                    st,
                    key,
                    lso_encoded(
                        last_segment(key),
                        spec_ser_props(props, AmfVersion::Amf0, EnumOrder::Reverse, reg),
                    ),
                ),
                key,
                reg,
            ),
        ) =~= props_map(props),
{
    let ser = spec_ser_props(props, AmfVersion::Amf0, EnumOrder::Reverse, reg);
    let bytes = lso_encoded(last_segment(key), ser);
    lemma_put_key_present(st, key, bytes);
    lemma_flush_reload(props, reg);
}

} // verus!
