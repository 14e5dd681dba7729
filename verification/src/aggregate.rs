//! The campaign aggregate: a named owner of game elements, keyed by their
//! labels in insertion order with no label held twice.

use vstd::prelude::*;
use vstd::string::StringExecFns;
use crate::entities::{Attribute, Counter, Skill, Story};
use crate::errors::EngineError;
use crate::table::Table;

verus! {

/// One game element of any kind, tagged by kind.
#[derive(Clone, Debug)]
pub enum Elements {
    Story(Story),
    Attribute(Attribute),
    Skill(Skill),
    Counter(Counter),
    Table(Table),
}

/// The label an element is keyed by.
pub open spec fn spec_element_label(e: Elements) -> Seq<char> {
    match e {
        Elements::Story(s) => s.label@,
        Elements::Attribute(a) => a.label@,
        Elements::Skill(sk) => sk.label@,
        Elements::Counter(c) => c.label@,
        Elements::Table(t) => t.label@,
    }
}

/// The index of the first entry keyed by `key`, if any.
pub open spec fn spec_key_index(m: Seq<(String, Elements)>, key: Seq<char>) -> Option<int>
    decreases m.len(),
{
    if m.len() == 0 {
        None
    } else if m[0].0@ == key {
        Some(0int)
    } else {
        match spec_key_index(m.drop_first(), key) {
            Some(i) => Some(i + 1),
            None => None,
        }
    }
}

/// What `spec_key_index` finds: the first entry with the key, or the absence
/// of any.
pub proof fn lemma_key_index(m: Seq<(String, Elements)>, key: Seq<char>)
    ensures
        match spec_key_index(m, key) {
            Some(i) => {
                &&& 0 <= i < m.len()
                &&& m[i].0@ == key
                &&& forall|j: int| 0 <= j < i ==> m[j].0@ != key
            },
            None => forall|j: int| 0 <= j < m.len() ==> m[j].0@ != key,
        },
    decreases m.len(),
{
    if m.len() > 0 && m[0].0@ != key {
        lemma_key_index(m.drop_first(), key);
        assert forall|j: int| 1 <= j < m.len() implies m.drop_first()[j - 1] == m[j] by {}
    }
}

/// Whether no two entries share a label.
pub open spec fn spec_keys_unique(m: Seq<(String, Elements)>) -> bool {
    forall|i: int, j: int| 0 <= i < j < m.len() ==> (#[trigger] m[i].0@) != (#[trigger] m[j].0@)
}

/// A character or campaign aggregate: every element it owns, keyed by label.
///
/// The platform-specific path a database name turns into is the persistence
/// collaborator's business; the aggregate holds only the plain name.
#[derive(Clone, Debug)]
pub struct TtrpgEntity {
    pub active: bool,
    pub edit: bool,
    pub id: String,
    pub name: String,
    pub database: String,
    pub elements: Vec<(String, Elements)>,
}

impl TtrpgEntity {
    /// Builds an empty aggregate; a missing id or database name becomes the
    /// empty string.
    pub fn new(active: bool, edit: bool, id: Option<String>, name: String, database: Option<
        &str,
    >) -> (t: TtrpgEntity)
        ensures
            t.active == active,
            t.edit == edit,
            t.id@ == match id {
                Some(s) => s@,
                None => Seq::<char>::empty(),
            },
            t.name == name,
            t.database@ == match database {
                Some(s) => s@,
                None => Seq::<char>::empty(),
            },
            t.elements@ == Seq::<(String, Elements)>::empty(),
    {
        let id_string = match id {
            Some(s) => s,
            None => String::new(),
        };
        let db_string = match database {
            Some(s) => String::from_str(s),
            None => String::new(),
        };
        TtrpgEntity {
            active,
            edit,
            id: id_string,
            name,
            database: db_string,
            elements: Vec::new(),
        }
    }

    /// Inserts an element under its label.  An element already keyed by that
    /// label is replaced and handed back; otherwise the new element is
    /// appended and `None` comes back.  Unique labels stay unique.
    pub fn add_element(&mut self, element: Elements) -> (r: Option<Elements>)
        ensures
            match spec_key_index(old(self).elements@, spec_element_label(element)) {
                Some(i) => {
                    &&& final(self).elements@ == old(self).elements@.update(
                        i,
                        (old(self).elements@[i].0, element),
                    )
                    &&& r == Some(old(self).elements@[i].1)
                },
                None => {
                    &&& final(self).elements@.drop_last() == old(self).elements@
                    &&& final(self).elements@.len() == old(self).elements@.len() + 1
                    &&& final(self).elements@.last().0@ == spec_element_label(element)
                    &&& final(self).elements@.last().1 == element
                    &&& r is None
                },
            },
            spec_keys_unique(old(self).elements@) ==> spec_keys_unique(final(self).elements@),
            final(self).active == old(self).active,
            final(self).edit == old(self).edit,
            final(self).id == old(self).id,
            final(self).name == old(self).name,
            final(self).database == old(self).database,
    {
        let key: String = match &element {
            Elements::Story(s) => s.label.clone(),
            Elements::Attribute(a) => a.label.clone(),
            Elements::Skill(sk) => sk.label.clone(),
            Elements::Counter(c) => c.label.clone(),
            Elements::Table(t) => t.label.clone(),
        };
        assert(key@ == spec_element_label(element));
        proof {
            lemma_key_index(self.elements@, key@);
        }
        let ghost m0 = self.elements@;
        let mut i: usize = 0;
        while i < self.elements.len()
            invariant
                i <= self.elements@.len(),
                *self == *old(self),
                self.elements@ == m0,
                key@ == spec_element_label(element),
                forall|j: int| 0 <= j < i ==> m0[j].0@ != key@,
            decreases self.elements@.len() - i,
        {
            if self.elements[i].0 == key {
                proof {
                    lemma_key_index(m0, key@);
                    let k = spec_key_index(m0, key@).unwrap();
                    assert(!(i < k));
                    assert(!(k < i));
                }
                let old_pair = self.elements.remove(i);
                self.elements.insert(i, (old_pair.0, element));
                proof {
                    assert(self.elements@ =~= m0.update(i as int, (m0[i as int].0, element)));
                    if spec_keys_unique(m0) {
                        assert forall|a: int, b: int|
                            0 <= a < b < self.elements@.len() implies (
                        #[trigger] self.elements@[a].0@) != (#[trigger] self.elements@[b].0@) by {
                            assert(self.elements@[a].0@ == m0[a].0@);
                            assert(self.elements@[b].0@ == m0[b].0@);
                        }
                    }
                }
                return Some(old_pair.1);
            }
            i = i + 1;
        }
        proof {
            lemma_key_index(m0, key@);
            if spec_key_index(m0, key@) is Some {
                let k = spec_key_index(m0, key@).unwrap();
                assert(m0[k].0@ == key@);
            }
        }
        self.elements.push((key, element));
        proof {
            assert(self.elements@.drop_last() =~= m0);
            if spec_keys_unique(m0) {
                assert forall|a: int, b: int| 0 <= a < b < self.elements@.len() implies (
                #[trigger] self.elements@[a].0@) != (#[trigger] self.elements@[b].0@) by {
                    if b < self.elements@.len() - 1 {
                        assert(self.elements@[a].0@ == m0[a].0@);
                        assert(self.elements@[b].0@ == m0[b].0@);
                    } else {
                        assert(self.elements@[a].0@ == m0[a].0@);
                        assert(m0[a].0@ != key@);
                    }
                }
            }
        }
        None
    }

    /// Hands back every element's label, in insertion order.
    pub fn retrieve_all_element_ids(&self) -> (r: Vec<String>)
        ensures
            r@.len() == self.elements@.len(),
            forall|i: int| 0 <= i < r@.len() ==> (#[trigger] r@[i])@ == self.elements@[i].0@,
    {
        let mut hash_ids: Vec<String> = Vec::new();
        let mut i: usize = 0;
        while i < self.elements.len()
            invariant
                i <= self.elements@.len(),
                hash_ids@.len() == i,
                forall|j: int| 0 <= j < i ==> (#[trigger] hash_ids@[j])@ == self.elements@[j].0@,
            decreases self.elements@.len() - i,
        {
            hash_ids.push(self.elements[i].0.clone());
            i = i + 1;
        }
        hash_ids
    }

    /// Removes the element keyed by the label, when one is there; the rest
    /// keep their order.  Always succeeds.
    pub fn delete_element(&mut self, entity_label: &str) -> (r: Result<(), EngineError>)
        ensures
            r is Ok,
            match spec_key_index(old(self).elements@, entity_label@) {
                Some(i) => final(self).elements@ == old(self).elements@.remove(i),
                None => final(self).elements@ == old(self).elements@,
            },
            final(self).active == old(self).active,
            final(self).edit == old(self).edit,
            final(self).id == old(self).id,
            final(self).name == old(self).name,
            final(self).database == old(self).database,
    {
        let ghost m0 = self.elements@;
        let mut i: usize = 0;
        while i < self.elements.len()
            invariant
                i <= self.elements@.len(),
                *self == *old(self),
                self.elements@ == m0,
                forall|j: int| 0 <= j < i ==> m0[j].0@ != entity_label@,
            decreases self.elements@.len() - i,
        {
            let label_string = String::from_str(entity_label);
            if self.elements[i].0 == label_string {
                proof {
                    lemma_key_index(m0, entity_label@);
                    let k = spec_key_index(m0, entity_label@).unwrap();
                    assert(!(i < k));
                    assert(!(k < i));
                }
                self.elements.remove(i);
                return Ok(());
            }
            i = i + 1;
        }
        proof {
            lemma_key_index(m0, entity_label@);
            if spec_key_index(m0, entity_label@) is Some {
                let k = spec_key_index(m0, entity_label@).unwrap();
                assert(m0[k].0@ == entity_label@);
            }
        }
        Ok(())
    }
}

} // verus!
