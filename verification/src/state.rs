//! The run-wide instrumentation state: the set of enum types seen so far,
//! the variant registry, and the location allocator.
//!
//! The state is threaded through the whole run, across every file, so that
//! location ids never repeat and each `Enum::Variant` key keeps one state id.

use vstd::prelude::*;
use vstd::string::StringExecFns;

verus! {

/// Mathematical model of the instrumentation state.
#[verifier::ext_equal]
pub struct StateView {
    /// The names of the enum declarations visited so far.
    pub enum_types: Set<Seq<char>>,
    /// The registered `Enum::Variant` keys; a key's index is its state id.
    pub variants: Seq<Seq<char>>,
    /// The location id the next injected call will receive.
    pub next_location: int,
}

/// The `Enum::Variant` key under which a variant is registered.
pub open spec fn variant_key(enum_name: Seq<char>, variant_name: Seq<char>) -> Seq<char> {
    enum_name + "::"@ + variant_name
}

/// The classifier: a path names a variant of an already-declared enum if and
/// only if it has at least two segments and the second-to-last one is a
/// declared enum type.  Earlier segments are ignored.
pub open spec fn classify_path(types: Set<Seq<char>>, segments: Seq<Seq<char>>) -> Option<
    (Seq<char>, Seq<char>),
> {
    if segments.len() >= 2 && types.contains(segments[segments.len() - 2]) {
        Some((segments[segments.len() - 2], segments[segments.len() - 1]))
    } else {
        None
    }
}

/// The first index at which `key` stands in `s`, or `s.len()` if it is absent.
pub open spec fn first_index_of(s: Seq<Seq<char>>, key: Seq<char>) -> int
    decreases s,
{
    if s.len() == 0 {
        0
    } else if s[0] == key {
        0
    } else {
        1 + first_index_of(s.drop_first(), key)
    }
}

/// Registry lookup: an existing key keeps its id; a new key is appended and
/// gets the old length as its id.
pub open spec fn registry_insert(variants: Seq<Seq<char>>, key: Seq<char>) -> (Seq<Seq<char>>, int) {
    if variants.contains(key) {
        (variants, first_index_of(variants, key))
    } else {
        (variants.push(key), variants.len() as int)
    }
}

/// The state invariant: locations start at 1, and the registry can have
/// grown only alongside location allocations, so it is always shorter than
/// the location counter.
pub open spec fn state_wf(st: StateView) -> bool {
    &&& 1 <= st.next_location
    &&& st.variants.len() <= st.next_location - 1
}

/// What `first_index_of` returns: a position no later than any occurrence,
/// holding the key when the key is present at all.
pub proof fn lemma_first_index_of(s: Seq<Seq<char>>, key: Seq<char>)
    ensures
        0 <= first_index_of(s, key) <= s.len(),
        s.contains(key) <==> first_index_of(s, key) < s.len(),
        first_index_of(s, key) < s.len() ==> s[first_index_of(s, key)] == key,
        forall|j: int| 0 <= j < first_index_of(s, key) ==> s[j] != key,
    decreases s,
{
    if s.len() > 0 && s[0] != key {
        lemma_first_index_of(s.drop_first(), key);
        assert forall|j: int| 0 <= j < first_index_of(s, key) implies s[j] != key by {
            if j > 0 {
                assert(s.drop_first()[j - 1] == s[j]);
            }
        }
        if s.contains(key) {
            let w = choose|w: int| 0 <= w < s.len() && s[w] == key;
            assert(s.drop_first()[w - 1] == key);
            assert(s.drop_first().contains(key));
        }
        if s.drop_first().contains(key) {
            let w = choose|w: int| 0 <= w < s.drop_first().len() && s.drop_first()[w] == key;
            assert(s[w + 1] == key);
            assert(s.contains(key));
        }
    }
}

/// The instrumentation state: the enum type set, the variant registry and
/// the location counter, shared by every file of one run.
pub struct EnumInstrumenter {
    /// Names of the enum declarations visited so far.
    pub enum_types: Vec<String>,
    /// Registered `Enum::Variant` keys; a key's index is its state id.
    pub enum_variants: Vec<String>,
    /// The location id of the next injected call.
    pub location_counter: u32,
}

impl View for EnumInstrumenter {
    type V = StateView;

    open spec fn view(&self) -> StateView {
        StateView {
            enum_types: self.enum_types.deep_view().to_set(),
            variants: self.enum_variants.deep_view(),
            next_location: self.location_counter as int,
        }
    }
}

impl EnumInstrumenter {
    /// A fresh state: no enums, no variants, locations starting at 1.
    pub fn new() -> (r: Self)
        ensures
            r@.enum_types == Set::<Seq<char>>::empty(),
            r@.variants == Seq::<Seq<char>>::empty(),
            r@.next_location == 1,
            state_wf(r@),
    {
        let r = EnumInstrumenter {
            enum_types: Vec::new(),
            enum_variants: Vec::new(),
            location_counter: 1,
        };
        proof {
            assert(r@.variants =~= Seq::<Seq<char>>::empty());
            assert(r@.enum_types =~= Set::<Seq<char>>::empty());
        }
        r
    }

    /// Allocates the next location id; never returns the same id twice.
    pub fn next_location(&mut self) -> (loc: u32)
        requires
            old(self)@.next_location < u32::MAX,
        ensures
            loc == old(self)@.next_location,
            final(self)@ == (StateView { next_location: old(self)@.next_location + 1, ..old(self)@ }),
    {
        let loc = self.location_counter;
        self.location_counter = self.location_counter + 1;
        loc
    }

    /// Looks `name` up in the set of declared enum types.
    fn knows_enum_type(&self, name: &String) -> (r: bool)
        ensures
            r == self@.enum_types.contains(name@),
    {
        let mut i: usize = 0;
        while i < self.enum_types.len()
            invariant
                0 <= i <= self.enum_types.len(),
                forall|j: int| 0 <= j < i ==> self.enum_types.deep_view()[j] != name@,
            decreases self.enum_types.len() - i,
        {
            if self.enum_types[i].eq(name) {
                assert(self.enum_types.deep_view()[i as int] == name@);
                assert(self@.enum_types.contains(name@));
                return true;
            }
            i = i + 1;
        }
        proof {
            assert(!self.enum_types.deep_view().contains(name@));
        }
        false
    }

    /// The registry: returns the state id of `key`, registering it with the
    /// next free id (the registry's size) if it is new.
    pub fn variant_id(&mut self, key: String) -> (id: u32)
        requires
            old(self)@.variants.len() < u32::MAX,
        ensures
            final(self)@.variants == registry_insert(old(self)@.variants, key@).0,
            id == registry_insert(old(self)@.variants, key@).1,
            final(self)@.enum_types == old(self)@.enum_types,
            final(self)@.next_location == old(self)@.next_location,
            old(self)@.variants.len() <= final(self)@.variants.len() <= old(self)@.variants.len()
                + 1,
    {
        let ghost vars0 = self@.variants;
        let mut i: usize = 0;
        while i < self.enum_variants.len()
            invariant
                0 <= i <= self.enum_variants.len(),
                forall|j: int| 0 <= j < i ==> self.enum_variants.deep_view()[j] != key@,
                self.enum_variants.deep_view() == vars0,
                self@.variants.len() < u32::MAX,
            decreases self.enum_variants.len() - i,
        {
            if self.enum_variants[i].eq(&key) {
                proof {
                    assert(vars0[i as int] == key@);
                    assert(vars0.contains(key@));
                    lemma_first_index_of(vars0, key@);
                    assert(first_index_of(vars0, key@) == i as int);
                }
                return i as u32;
            }
            i = i + 1;
        }
        proof {
            assert(!vars0.contains(key@));
            lemma_first_index_of(vars0, key@);
        }
        let id = self.enum_variants.len() as u32;
        self.enum_variants.push(key);
        proof {
            assert(self.enum_variants.deep_view() =~= vars0.push(key@));
        }
        id
    }

    /// The classifier over a path's segments: `Some((enum, variant))` when
    /// the second-to-last segment names a declared enum type, else `None`.
    pub fn extract_enum_info(&self, segments: &Vec<String>) -> (r: Option<(String, String)>)
        ensures
            match r {
                Some((e, v)) => classify_path(self@.enum_types, segments.deep_view()) == Some(
                    (e@, v@),
                ),
                None => classify_path(self@.enum_types, segments.deep_view()) is None,
            },
    {
        if segments.len() >= 2 {
            let enum_name = &segments[segments.len() - 2];
            if self.knows_enum_type(enum_name) {
                let variant_name = &segments[segments.len() - 1];
                return Some((enum_name.clone(), variant_name.clone()));
            }
        }
        None
    }

    /// Records the name of a visited enum declaration.
    pub fn record_enum_type(&mut self, name: &String)
        ensures
            final(self)@ == (StateView {
                enum_types: old(self)@.enum_types.insert(name@),
                ..old(self)@
            }),
    {
        let known = self.knows_enum_type(name);
        if !known {
            let ghost types0 = self.enum_types.deep_view();
            self.enum_types.push(name.clone());
            proof {
                assert(self.enum_types.deep_view() =~= types0.push(name@));
                assert forall|a: Seq<char>|
                    types0.push(name@).contains(a) <==> (types0.contains(a) || a == name@) by {
                    if types0.push(name@).contains(a) {
                        let w = choose|w: int|
                            0 <= w < types0.push(name@).len() && types0.push(name@)[w] == a;
                        if w < types0.len() {
                            assert(types0[w] == a);
                        }
                    }
                    if types0.contains(a) {
                        let w = choose|w: int| 0 <= w < types0.len() && types0[w] == a;
                        assert(types0.push(name@)[w] == a);
                    }
                    if a == name@ {
                        assert(types0.push(name@)[types0.len() as int] == a);
                    }
                }
                assert(self.enum_types.deep_view().to_set() =~= types0.to_set().insert(name@));
            }
        } else {
            proof {
                assert(old(self)@.enum_types =~= old(self)@.enum_types.insert(name@));
            }
        }
    }
}

/// Builds the registry key `Enum::Variant` for a classified usage.
pub fn make_variant_key(enum_name: &String, variant_name: &String) -> (k: String)
    ensures
        k@ == variant_key(enum_name@, variant_name@),
{
    let mut k = enum_name.clone();
    k.append("::");
    k.append(variant_name.as_str());
    proof {
        assert(k@ =~= variant_key(enum_name@, variant_name@));
    }
    k
}

} // verus!
