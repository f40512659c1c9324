//! The class alias registry: resolves a wire class-name string to a
//! constructible class and back.  The codec receives it as an injected
//! service; class index 0 is always the generic dynamic base object class.

use vstd::prelude::*;

verus! {

/// One registered class: its wire alias (empty when unregistered) and
/// whether instances may carry ad-hoc properties.
pub struct ClassDef {
    pub alias: String,
    pub is_dynamic: bool,
}

/// The registry of constructible classes, indexed by class reference.
pub struct ClassRegistry {
    pub classes: Vec<ClassDef>,
}

/// Model of a registry: the alias and dynamic flag of each class.
pub open spec fn rm(reg: ClassRegistry) -> Seq<(Seq<char>, bool)> {
    Seq::new(reg.classes@.len(), |i: int| (reg.classes@[i].alias@, reg.classes@[i].is_dynamic))
}

/// The wire alias of a class; empty for an unknown class reference.
pub open spec fn spec_alias_of(reg: Seq<(Seq<char>, bool)>, class: int) -> Seq<char> {
    if 0 <= class < reg.len() {
        reg[class].0
    } else {
        Seq::empty()
    }
}

/// Whether a class permits ad-hoc properties; an unknown class reference
/// behaves as the generic dynamic class.
pub open spec fn spec_dynamic_of(reg: Seq<(Seq<char>, bool)>, class: int) -> bool {
    if 0 <= class < reg.len() {
        reg[class].1
    } else {
        true
    }
}

/// The first class whose alias is `alias`, searching from `i`; the generic
/// class 0 when none matches.
pub open spec fn spec_find_alias(reg: Seq<(Seq<char>, bool)>, alias: Seq<char>, i: int) -> int
    decreases reg.len() - i,
{
    if i < 0 || i >= reg.len() {
        0
    } else if reg[i].0 == alias {
        i
    } else {
        spec_find_alias(reg, alias, i + 1)
    }
}

/// The class a wire alias resolves to: the generic class 0 when the alias
/// is empty or unregistered, else the first class registered under it.
pub open spec fn spec_resolve_class(reg: Seq<(Seq<char>, bool)>, alias: Seq<char>) -> int {
    if alias.len() == 0 {
        0
    } else {
        spec_find_alias(reg, alias, 1)
    }
}

/// The resolved class is always a valid index into a non-empty registry.
pub proof fn lemma_find_alias_in_range(reg: Seq<(Seq<char>, bool)>, alias: Seq<char>, i: int)
    requires
        reg.len() > 0,
    ensures
        0 <= spec_find_alias(reg, alias, i) < reg.len(),
    decreases reg.len() - i,
{
    if 0 <= i < reg.len() && reg[i].0 != alias {
        lemma_find_alias_in_range(reg, alias, i + 1);
    }
}

impl ClassRegistry {
    /// A registry holding only the generic dynamic base object class.
    pub fn new() -> (r: ClassRegistry)
        ensures
            rm(r) =~= seq![(Seq::<char>::empty(), true)],
    {
        let mut classes: Vec<ClassDef> = Vec::new();
        classes.push(ClassDef { alias: String::new(), is_dynamic: true });
        ClassRegistry { classes }
    }

    /// Registers a class under a wire alias and returns its class reference.
    pub fn register(&mut self, alias: String, is_dynamic: bool) -> (r: usize)
        ensures
            rm(*final(self)) =~= rm(*old(self)).push((alias@, is_dynamic)),
            r == rm(*old(self)).len(),
    {
        let r = self.classes.len();
        self.classes.push(ClassDef { alias, is_dynamic });
        r
    }

    /// How many classes the registry holds.
    pub fn len(&self) -> (r: usize)
        ensures
            r == rm(*self).len(),
    {
        self.classes.len()
    }
}

/// Resolves a wire alias to a constructible class: the generic base object
/// class when the alias is unregistered or empty.
pub fn alias_to_class(registry: &ClassRegistry, alias: &str) -> (r: usize)
    ensures
        r == spec_resolve_class(rm(*registry), alias@),
{
    if alias.unicode_len() == 0 {
        return 0usize;
    }
    let n = registry.classes.len();
    if n == 0 {
        return 0usize;
    }
    let mut i: usize = 1;
    while i < n
        invariant
            1 <= i <= n,
            n == rm(*registry).len(),
            alias@.len() != 0,
            spec_find_alias(rm(*registry), alias@, 1) == spec_find_alias(rm(*registry), alias@, i as int),
        decreases n - i,
    {
        if crate::strutil::str_eq(registry.classes[i].alias.as_str(), alias) {
            assert(rm(*registry)[i as int].0 == alias@);
            return i;
        }
        assert(rm(*registry)[i as int].0 != alias@);
        i = i + 1;
    }
    0usize
}

/// Whether a class permits ad-hoc properties beyond its fixed slots; an
/// unknown class reference behaves as the generic dynamic class.
pub fn class_dynamic(registry: &ClassRegistry, class: usize) -> (r: bool)
    ensures
        r == spec_dynamic_of(rm(*registry), class as int),
{
    if class < registry.classes.len() {
        registry.classes[class].is_dynamic
    } else {
        true
    }
}

/// Returns the registered wire alias for a class, or the empty string when
/// it is unregistered or unknown.
pub fn class_to_alias(registry: &ClassRegistry, class: usize) -> (r: String)
    ensures
        r@ == spec_alias_of(rm(*registry), class as int),
{
    if class < registry.classes.len() {
        registry.classes[class].alias.clone()
    } else {
        String::new()
    }
}

} // verus!
