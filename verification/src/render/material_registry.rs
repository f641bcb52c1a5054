//! Material instances by `MaterialId`, and by the names that meshes give them.

use super::material_id::{material_id_error, MaterialId};
use crate::names::lemma_first_colon;
use crate::table::{as_map, distinct_keys, is_put, lemma_as_map, Table, TableKey};
use crate::text::chars_of;
use vstd::prelude::*;

verus! {

/// The text in lower case, as std has it.
pub uninterp spec fn lower_case(text: Seq<char>) -> Seq<char>;

/// The letter in lower case if it is one of `A` to `Z`.
pub open spec fn ascii_lower(c: char) -> char {
    if 'A' <= c && c <= 'Z' {
        ((c as u32 + 32) as u32) as char
    } else {
        c
    }
}

/// The text with `A` to `Z` in lower case.
pub open spec fn ascii_lowered(text: Seq<char>) -> Seq<char> {
    text.map_values(|c: char| ascii_lower(c))
}

/// All characters are ASCII.
pub open spec fn is_ascii_text(text: Seq<char>) -> bool {
    forall|i: int| 0 <= i < text.len() ==> (#[trigger] text[i] as u32) < 128
}

/// `str::to_lowercase` of std: the text in lower case, by the rules of Unicode.
/// In a text of ASCII characters `A` to `Z` change to `a` to `z` and the others
/// stay; the rest of the rules is not spelled out.
#[verifier::external_body]
fn to_lowercase(text: &str) -> (r: String)
    ensures
        r@ == lower_case(text@),
        is_ascii_text(text@) ==> r@ == ascii_lowered(text@),
{
    text.to_lowercase()
}

/// The id that a material's name in a mesh stands for: a name with a colon is
/// one; another, lowered, is one of the namespace `gltf`.
pub open spec fn id_of_slot(raw: Seq<char>, lowered: Seq<char>) -> Seq<char> {
    if raw.contains(':') {
        raw
    } else {
        "gltf:"@ + lowered
    }
}

/// Material instances by id, oldest id first.
pub struct MaterialRegistry<I> {
    instances: Table<MaterialId, I>,
}

impl<I> MaterialRegistry<I> {
    /// The instances by id.
    pub open spec fn view(&self) -> Map<Seq<char>, I> {
        as_map(self.entries())
    }

    /// The instances with their ids, oldest id first.
    pub closed spec fn entries(&self) -> Seq<(MaterialId, I)> {
        self.instances.entries()
    }

    /// What is found under an id as written.
    pub open spec fn spec_lookup(&self, id: Seq<char>) -> Option<I> {
        if material_id_error(id) is None && self@.contains_key(id) {
            Some(self@[id])
        } else {
            None
        }
    }

    /// A registry without instances.
    pub fn new() -> (r: Self)
        ensures
            r@ == Map::<Seq<char>, I>::empty(),
            r.entries() == Seq::<(MaterialId, I)>::empty(),
    {
        MaterialRegistry { instances: Table::new() }
    }

    /// Puts `instance` under `id`, in place of what stood there. Another id comes
    /// behind those that are there.
    pub fn register(&mut self, id: MaterialId, instance: I)
        ensures
            final(self)@ == old(self)@.insert(id@, instance),
            is_put(old(self).entries(), final(self).entries(), id, instance),
            final(self)@.dom().finite(),
            final(self)@.len() == old(self)@.len() + (if old(self)@.contains_key(id@) {
                0int
            } else {
                1
            }),
    {
        self.instances.insert(id, instance);
    }

    /// The instance under `id`, if there is one.
    pub fn get(&self, id: &MaterialId) -> (r: Option<&I>)
        ensures
            match r {
                Some(instance) => self@.contains_key(id@) && *instance == self@[id@],
                None => !self@.contains_key(id@),
            },
    {
        self.instances.get(id)
    }

    /// The instance under `id`, to be changed.
    pub fn get_mut(&mut self, id: &MaterialId) -> (r: Option<&mut I>)
        ensures
            match r {
                Some(instance) => {
                    &&& old(self)@.contains_key(id@)
                    &&& *instance == old(self)@[id@]
                    &&& final(self)@ == old(self)@.insert(id@, *final(instance))
                },
                None => !old(self)@.contains_key(id@) && final(self)@ == old(self)@,
            },
    {
        self.instances.get_mut(id)
    }

    /// The instance for a material's name in a mesh. A name with a colon is
    /// looked up as it stands; another, in lower case, under `gltf`. Nothing is
    /// found under a name that is no id.
    pub fn get_by_name(&self, raw: &str) -> (r: Option<&I>)
        ensures
            match r {
                Some(instance) => self.spec_lookup(id_of_slot(raw@, lower_case(raw@))) == Some(
                    *instance,
                ),
                None => self.spec_lookup(id_of_slot(raw@, lower_case(raw@))) is None,
            },
            is_ascii_text(raw@) ==> match r {
                Some(instance) => self.spec_lookup(id_of_slot(raw@, ascii_lowered(raw@))) == Some(
                    *instance,
                ),
                None => self.spec_lookup(id_of_slot(raw@, ascii_lowered(raw@))) is None,
            },
    {
        if has_colon(raw) {
            self.get_by_slot(raw, raw)
        } else {
            let lowered = to_lowercase(raw);
            self.get_by_slot(raw, lowered.as_str())
        }
    }

    /// The instance for a material's name in a mesh, given the name in lower
    /// case.
    pub fn get_by_slot(&self, raw: &str, lowered: &str) -> (r: Option<&I>)
        ensures
            match r {
                Some(instance) => self.spec_lookup(id_of_slot(raw@, lowered@)) == Some(*instance),
                None => self.spec_lookup(id_of_slot(raw@, lowered@)) is None,
            },
    {
        let parsed = if has_colon(raw) {
            MaterialId::new(raw)
        } else {
            let id = "gltf:".to_owned().concat(lowered);
            MaterialId::new(id.as_str())
        };
        match parsed {
            Ok(id) => self.instances.get(&id),
            Err(_) => None,
        }
    }

    /// How many instances there are.
    pub fn len(&self) -> (r: usize)
        ensures
            r == self@.len(),
            r == self.entries().len(),
            self@.dom().finite(),
    {
        self.instances.len()
    }

    /// Whether there are none.
    pub fn is_empty(&self) -> (r: bool)
        ensures
            r == (self@.len() == 0),
            r == (self@ == Map::<Seq<char>, I>::empty()),
    {
        proof {
            if self@.dom().finite() && self@.len() == 0 {
                assert(self@ =~= Map::<Seq<char>, I>::empty());
            }
        }
        self.instances.len() == 0
    }

    /// The instances with their ids, each once, oldest id first.
    pub fn iter(&self) -> (r: Vec<(&MaterialId, &I)>)
        ensures
            r@.len() == self@.len(),
            r@.len() == self.entries().len(),
            forall|i: int|
                #![trigger r@[i]]
                0 <= i < r@.len() ==> {
                    &&& (*r@[i].0, *r@[i].1) == self.entries()[i]
                    &&& self@.contains_key(r@[i].0@)
                    &&& self@[r@[i].0@] == *r@[i].1
                },
            forall|i: int, j: int|
                0 <= i < j < r@.len() ==> (#[trigger] r@[i]).0@ != (#[trigger] r@[j]).0@,
            forall|id: Seq<char>| #[trigger]
                self@.contains_key(id) ==> exists|i: int|
                    0 <= i < r@.len() && (#[trigger] r@[i]).0@ == id,
    {
        let n = self.instances.len();
        let mut out: Vec<(&MaterialId, &I)> = Vec::new();
        let mut i: usize = 0;
        while i < n
            invariant
                i <= n,
                n == self.entries().len(),
                distinct_keys(self.entries()),
                out@.len() == i,
                forall|j: int|
                    #![trigger out@[j]]
                    0 <= j < i ==> {
                        &&& (*out@[j].0, *out@[j].1) == self.entries()[j]
                        &&& self@.contains_key(out@[j].0@)
                        &&& self@[out@[j].0@] == *out@[j].1
                    },
            decreases n - i,
        {
            out.push(self.instances.entry(i));
            i += 1;
        }
        proof {
            lemma_as_map(self.entries());
            assert forall|i: int, j: int| 0 <= i < j < out@.len() implies (
            #[trigger] out@[i]).0@ != (#[trigger] out@[j]).0@ by {
                assert(self.entries()[i].0.key() != self.entries()[j].0.key());
            }
            assert forall|id: Seq<char>| #[trigger] self@.contains_key(id) implies exists|i: int|
                0 <= i < out@.len() && (#[trigger] out@[i]).0@ == id by {
                let i = choose|i: int|
                    0 <= i < self.entries().len() && (#[trigger] self.entries()[i]).0.key() == id;
                assert(out@[i].0@ == id);
            }
        }
        out
    }

    /// Puts in place of each instance what `change` makes of it.
    pub fn iter_mut<F: Fn(&MaterialId, &I) -> I>(&mut self, change: F)
        requires
            forall|id: &MaterialId, instance: &I| #[trigger]
                call_requires(change, (id, instance)),
        ensures
            final(self).entries().len() == old(self).entries().len(),
            forall|i: int|
                #![trigger final(self).entries()[i]]
                0 <= i < final(self).entries().len() ==> {
                    &&& final(self).entries()[i].0 == old(self).entries()[i].0
                    &&& call_ensures(
                        change,
                        (&old(self).entries()[i].0, &old(self).entries()[i].1),
                        final(self).entries()[i].1,
                    )
                },
    {
        let ghost before = self.entries();
        let n = self.instances.len();
        let mut i: usize = 0;
        while i < n
            invariant
                i <= n == before.len(),
                self.entries().len() == before.len(),
                forall|id: &MaterialId, instance: &I| #[trigger]
                    call_requires(change, (id, instance)),
                forall|j: int|
                    #![trigger self.entries()[j]]
                    0 <= j < i ==> {
                        &&& self.entries()[j].0 == before[j].0
                        &&& call_ensures(
                            change,
                            (&before[j].0, &before[j].1),
                            self.entries()[j].1,
                        )
                    },
                forall|j: int| i <= j < n ==> #[trigger] self.entries()[j] == before[j],
            decreases n - i,
        {
            let (id, instance) = self.instances.entry(i);
            let changed = change(id, instance);
            self.instances.replace(i, changed);
            i += 1;
        }
    }
}

impl<I> Default for MaterialRegistry<I> {
    fn default() -> (r: Self)
        ensures
            r@ == Map::<Seq<char>, I>::empty(),
    {
        MaterialRegistry::new()
    }
}

fn has_colon(text: &str) -> (r: bool)
    ensures
        r == text@.contains(':'),
{
    let chars = chars_of(text);
    let mut i: usize = 0;
    while i < chars.len()
        invariant
            i <= chars@.len(),
            chars@ == text@,
            forall|j: int| 0 <= j < i ==> chars@[j] != ':',
        decreases chars@.len() - i,
    {
        if chars[i] == ':' {
            assert(text@[i as int] == ':');
            return true;
        }
        i += 1;
    }
    false
}

/// Names in a mesh that differ only in the case of their letters stand for the
/// same material, unless they have a colon.
pub proof fn law_bare_names_ignore_case(a: Seq<char>, b: Seq<char>)
    requires
        a.len() == b.len(),
        !a.contains(':'),
        !b.contains(':'),
        forall|i: int|
            #![trigger a[i], b[i]]
            0 <= i < a.len() ==> ascii_lower(a[i]) == ascii_lower(b[i]),
    ensures
        id_of_slot(a, ascii_lowered(a)) == id_of_slot(b, ascii_lowered(b)),
{
    let low_a = ascii_lowered(a);
    let low_b = ascii_lowered(b);
    assert forall|i: int| 0 <= i < a.len() implies low_a[i] == low_b[i] by {
        assert(ascii_lower(a[i]) == ascii_lower(b[i]));
    }
    assert(low_a =~= low_b);
}

/// An instance is found by its id as written, whatever the id in lower case.
pub proof fn law_ids_are_found_as_written<I>(
    registry: MaterialRegistry<I>,
    id: Seq<char>,
    lowered: Seq<char>,
)
    requires
        material_id_error(id) is None,
        registry@.contains_key(id),
    ensures
        registry.spec_lookup(id_of_slot(id, lowered)) == Some(registry@[id]),
{
    if !id.contains(':') {
        assert forall|k: int| 0 <= k < id.len() implies id[k] != ':' by {
            assert(id.contains(id[k]));
        }
        lemma_first_colon(id, id.len() as int);
    }
}

proof fn lemma_same_char(a: char, b: char)
    requires
        a as u32 == b as u32,
    ensures
        a == b,
{
}

/// A bare name of ASCII characters finds what stands under `gltf:` and the name
/// in lower case: each letter from `A` to `Z` is 32 places further on, and the
/// other characters stay. A name with a colon finds what stands under it as it
/// is.
pub proof fn law_names_find_their_instance<I>(
    registry: MaterialRegistry<I>,
    raw: &str,
    id: Seq<char>,
    found: Option<&I>,
)
    requires
        call_ensures(MaterialRegistry::<I>::get_by_name, (&registry, raw), found),
        !raw@.contains(':') ==> {
            &&& is_ascii_text(raw@)
            &&& id.len() == raw@.len() + 5
            &&& id.take(5) == seq!['g', 'l', 't', 'f', ':']
            &&& forall|i: int|
                #![trigger raw@[i]]
                0 <= i < raw@.len() ==> {
                    if 'A' <= raw@[i] <= 'Z' {
                        id[i + 5] as u32 == raw@[i] as u32 + 32
                    } else {
                        id[i + 5] == raw@[i]
                    }
                }
        },
        raw@.contains(':') ==> id == raw@,
    ensures
        found matches Some(instance) ==> registry@.contains_key(id) && *instance == registry@[id],
        found is None ==> material_id_error(id) is Some || !registry@.contains_key(id),
{
    if !raw@.contains(':') {
        reveal_strlit("gltf:");
        let low = ascii_lowered(raw@);
        assert(id =~= "gltf:"@ + low) by {
            assert forall|i: int| 0 <= i < id.len() implies id[i] == ("gltf:"@ + low)[i] by {
                if i < 5 {
                    assert(id.take(5)[i] == id[i]);
                } else {
                    let c = raw@[i - 5];
                    assert(low[i - 5] == ascii_lower(c));
                    assert(id[i - 5 + 5] == id[i]);
                    if 'A' <= c <= 'Z' {
                        assert(id[i] as u32 == c as u32 + 32);
                        assert(ascii_lower(c) as u32 == c as u32 + 32);
                        lemma_same_char(id[i], ascii_lower(c));
                    } else {
                        assert(id[i] == c);
                    }
                }
            }
        }
    }
}

} // verus!
