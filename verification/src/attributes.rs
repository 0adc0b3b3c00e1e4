//! The attributes of a tag: a mapping from names to literals in which each
//! name occurs once and a later assignment replaces an earlier one.

use vstd::prelude::*;

verus! {

/// A bare value: the value of an attribute, or a literal that stands in the
/// document as content.
///
/// A number is held as the bit pattern of its IEEE 754 binary64 value.
#[derive(Debug)]
pub enum AstLiteral {
    Str(String),
    Float(u64),
    Bool(bool),
}

/// A literal, with a string as a sequence of characters.
pub enum LiteralView {
    Str(Seq<char>),
    Float(u64),
    Bool(bool),
}

impl View for AstLiteral {
    type V = LiteralView;

    open spec fn view(&self) -> LiteralView {
        match *self {
            AstLiteral::Str(s) => LiteralView::Str(s@),
            AstLiteral::Float(bits) => LiteralView::Float(bits),
            AstLiteral::Bool(b) => LiteralView::Bool(b),
        }
    }
}

impl Clone for AstLiteral {
    fn clone(&self) -> (copy: AstLiteral)
        ensures
            copy@ == self@,
    {
        match self {
            AstLiteral::Str(s) => AstLiteral::Str(s.clone()),
            AstLiteral::Float(bits) => AstLiteral::Float(*bits),
            AstLiteral::Bool(b) => AstLiteral::Bool(*b),
        }
    }
}

/// One attribute: a name and the literal assigned to it.
#[derive(Debug)]
pub struct Attribute {
    pub name: String,
    pub value: AstLiteral,
}

impl Clone for Attribute {
    fn clone(&self) -> (copy: Attribute)
        ensures
            copy.name@ == self.name@,
            copy.value@ == self.value@,
    {
        Attribute { name: self.name.clone(), value: self.value.clone() }
    }
}

/// Whether no two entries have the same name.
pub open spec fn distinct_names(entries: Seq<Attribute>) -> bool {
    forall|i: int, j: int|
        0 <= i < entries.len() && 0 <= j < entries.len() && entries[i].name@ == entries[j].name@
            ==> i == j
}

/// Whether some entry is named `name`.
pub open spec fn has_name(entries: Seq<Attribute>, name: Seq<char>) -> bool {
    exists|i: int| 0 <= i < entries.len() && #[trigger] entries[i].name@ == name
}

/// The index of an entry named `name`.
pub open spec fn index_of(entries: Seq<Attribute>, name: Seq<char>) -> int {
    choose|i: int| 0 <= i < entries.len() && #[trigger] entries[i].name@ == name
}

/// The mapping that a sequence of entries stands for.
pub open spec fn entries_map(entries: Seq<Attribute>) -> Map<Seq<char>, LiteralView> {
    Map::new(
        |name: Seq<char>| has_name(entries, name),
        |name: Seq<char>| entries[index_of(entries, name)].value@,
    )
}

/// With distinct names, the mapping holds each entry's value under its name.
pub proof fn lemma_entry_in_map(entries: Seq<Attribute>, i: int)
    requires
        distinct_names(entries),
        0 <= i < entries.len(),
    ensures
        entries_map(entries).dom().contains(entries[i].name@),
        entries_map(entries)[entries[i].name@] == entries[i].value@,
{
    let name = entries[i].name@;
    assert(has_name(entries, name));
    let j = index_of(entries, name);
    assert(0 <= j < entries.len() && entries[j].name@ == name);
}

/// The attributes of one tag, in the order in which their names first
/// appeared.
#[derive(Debug)]
pub struct Attributes {
    entries: Vec<Attribute>,
}

impl View for Attributes {
    type V = Map<Seq<char>, LiteralView>;

    closed spec fn view(&self) -> Map<Seq<char>, LiteralView> {
        entries_map(self.entries@)
    }
}

impl Attributes {
    #[verifier::type_invariant]
    spec fn names_are_distinct(&self) -> bool {
        distinct_names(self.entries@)
    }

    /// The entries, in order.
    pub closed spec fn entries(&self) -> Seq<Attribute> {
        self.entries@
    }

    /// No attributes.
    pub fn new() -> (attributes: Attributes)
        ensures
            attributes@ == Map::<Seq<char>, LiteralView>::empty(),
            attributes.entries().len() == 0,
    {
        let attributes = Attributes { entries: Vec::new() };
        assert(attributes@ =~= Map::<Seq<char>, LiteralView>::empty());
        attributes
    }

    /// How many attributes there are: as many as there are names, because
    /// no name occurs twice among the entries.
    pub fn len(&self) -> (n: usize)
        ensures
            n == self@.len(),
            n == self.entries().len(),
            self@.dom().finite(),
            distinct_names(self.entries()),
            self@ == entries_map(self.entries()),
    {
        proof {
            use_type_invariant(self);
            lemma_map_size(self.entries@);
        }
        self.entries.len()
    }

    /// Whether there is no attribute.
    pub fn is_empty(&self) -> (empty: bool)
        ensures
            empty == (self@.len() == 0),
    {
        self.len() == 0
    }

    /// The position of the attribute named `name`.
    fn position(&self, name: &String) -> (found: Option<usize>)
        ensures
            match found {
                Some(i) => i < self.entries@.len() && self.entries@[i as int].name@ == name@,
                None => !has_name(self.entries@, name@),
            },
    {
        let mut i: usize = 0;
        while i < self.entries.len()
            invariant
                i <= self.entries@.len(),
                forall|j: int| 0 <= j < i ==> self.entries@[j].name@ != name@,
            decreases self.entries@.len() - i,
        {
            if self.entries[i].name == *name {
                return Some(i);
            }
            i = i + 1;
        }
        None
    }

    /// The value assigned to `name`, if there is one.
    pub fn get(&self, name: &str) -> (value: Option<&AstLiteral>)
        ensures
            match value {
                Some(v) => self@.dom().contains(name@) && self@[name@] == v@,
                None => !self@.dom().contains(name@),
            },
    {
        proof {
            use_type_invariant(self);
        }
        let key = String::from_str(name);
        match self.position(&key) {
            Some(i) => {
                proof {
                    lemma_entry_in_map(self.entries@, i as int);
                }
                Some(&self.entries[i].value)
            },
            None => None,
        }
    }

    /// The attribute at position `i`, counting from the first name assigned.
    pub fn entry(&self, i: usize) -> (attribute: &Attribute)
        requires
            i < self.entries().len(),
        ensures
            *attribute == self.entries()[i as int],
            self@.dom().contains(attribute.name@),
            self@[attribute.name@] == attribute.value@,
    {
        proof {
            use_type_invariant(self);
            lemma_entry_in_map(self.entries@, i as int);
        }
        &self.entries[i]
    }

    /// Assigns `value` to `name`. A value assigned to that name before is
    /// replaced, in the place where it stands; a new name goes to the end.
    /// Every other attribute stays as it is.
    pub fn insert(&mut self, name: String, value: AstLiteral)
        ensures
            final(self)@ == old(self)@.insert(name@, value@),
            final(self).entries() == if has_name(old(self).entries(), name@) {
                old(self).entries().update(
                    index_of(old(self).entries(), name@),
                    Attribute { name, value },
                )
            } else {
                old(self).entries().push(Attribute { name, value })
            },
    {
        proof {
            use_type_invariant(&*self);
        }
        let ghost before = self.entries@;
        let found = self.position(&name);
        let mut entries: Vec<Attribute> = Vec::new();
        std::mem::swap(&mut self.entries, &mut entries);
        match found {
            Some(i) => {
                let ghost key = name@;
                let ghost val = value@;
                entries.set(i, Attribute { name, value });
                proof {
                    let after = entries@;
                    assert(distinct_names(after)) by {
                        assert forall|a: int, b: int|
                            0 <= a < after.len() && 0 <= b < after.len() && after[a].name@
                                == after[b].name@ implies a == b by {
                            assert(after[a].name@ == before[a].name@);
                            assert(after[b].name@ == before[b].name@);
                        }
                    }
                    assert forall|k: Seq<char>| has_name(after, k) == has_name(before, k) by {
                        if has_name(after, k) {
                            let a = index_of(after, k);
                            assert(before[a].name@ == k);
                        }
                        if has_name(before, k) {
                            let a = index_of(before, k);
                            assert(after[a].name@ == k);
                        }
                    }
                    assert(has_name(before, key)) by {
                        assert(before[i as int].name@ == key);
                    }
                    assert forall|k: Seq<char>| has_name(after, k) implies #[trigger] entries_map(
                        after,
                    )[k] == entries_map(before).insert(key, val)[k] by {
                        let a = index_of(after, k);
                        lemma_entry_in_map(after, a);
                        if k != key {
                            assert(a != i);
                            lemma_entry_in_map(before, a);
                        } else {
                            assert(a == i);
                        }
                    }
                    assert(entries_map(after) =~= entries_map(before).insert(key, val));
                }
            },
            None => {
                let ghost key = name@;
                let ghost val = value@;
                entries.push(Attribute { name, value });
                proof {
                    let after = entries@;
                    let last = before.len() as int;
                    assert(distinct_names(after)) by {
                        assert forall|a: int, b: int|
                            0 <= a < after.len() && 0 <= b < after.len() && after[a].name@
                                == after[b].name@ implies a == b by {
                            if a < last {
                                assert(before[a].name@ == after[a].name@);
                            }
                            if b < last {
                                assert(before[b].name@ == after[b].name@);
                            }
                        }
                    }
                    assert forall|k: Seq<char>|
                        has_name(after, k) == (k == key || has_name(before, k)) by {
                        if has_name(after, k) {
                            let a = index_of(after, k);
                            if a < last {
                                assert(before[a].name@ == k);
                            }
                        }
                        if has_name(before, k) {
                            let a = index_of(before, k);
                            assert(after[a].name@ == k);
                        }
                        if k == key {
                            assert(after[last].name@ == k);
                        }
                    }
                    assert forall|k: Seq<char>| has_name(after, k) implies #[trigger] entries_map(
                        after,
                    )[k] == entries_map(before).insert(key, val)[k] by {
                        let a = index_of(after, k);
                        lemma_entry_in_map(after, a);
                        if k != key {
                            assert(a < last);
                            lemma_entry_in_map(before, a);
                        } else {
                            assert(after[last].name@ == key);
                            assert(a == last);
                        }
                    }
                    assert(entries_map(after) =~= entries_map(before).insert(key, val));
                }
            },
        }
        self.entries = entries;
    }
}

impl Clone for Attributes {
    fn clone(&self) -> (copy: Attributes)
        ensures
            copy@ == self@,
            copy.entries().len() == self.entries().len(),
            forall|i: int|
                0 <= i < self.entries().len() ==> copy.entries()[i].name@ == self.entries()[i].name@
                    && copy.entries()[i].value@ == self.entries()[i].value@,
    {
        proof {
            use_type_invariant(self);
        }
        let mut entries: Vec<Attribute> = Vec::new();
        let mut i: usize = 0;
        while i < self.entries.len()
            invariant
                i <= self.entries@.len(),
                entries@.len() == i,
                forall|j: int|
                    0 <= j < i ==> entries@[j].name@ == self.entries@[j].name@ && entries@[j].value@
                        == self.entries@[j].value@,
            decreases self.entries@.len() - i,
        {
            entries.push(self.entries[i].clone());
            i = i + 1;
        }
        proof {
            lemma_same_entries(self.entries@, entries@);
        }
        Attributes { entries }
    }
}

/// Entries that agree name by name and value by value stand for one mapping.
pub proof fn lemma_same_entries(a: Seq<Attribute>, b: Seq<Attribute>)
    requires
        a.len() == b.len(),
        forall|j: int| 0 <= j < a.len() ==> a[j].name@ == b[j].name@ && a[j].value@ == b[j].value@,
        distinct_names(a),
    ensures
        distinct_names(b),
        entries_map(a) == entries_map(b),
{
    assert(distinct_names(b)) by {
        assert forall|i: int, j: int|
            0 <= i < b.len() && 0 <= j < b.len() && b[i].name@ == b[j].name@ implies i == j by {
            assert(a[i].name@ == a[j].name@);
        }
    }
    assert forall|k: Seq<char>| has_name(a, k) == has_name(b, k) by {
        if has_name(a, k) {
            let i = index_of(a, k);
            assert(b[i].name@ == k);
        }
        if has_name(b, k) {
            let i = index_of(b, k);
            assert(a[i].name@ == k);
        }
    }
    assert forall|k: Seq<char>| has_name(a, k) implies #[trigger] entries_map(a)[k] == entries_map(
        b,
    )[k] by {
        let i = index_of(a, k);
        lemma_entry_in_map(a, i);
        lemma_entry_in_map(b, i);
    }
    assert(entries_map(a) =~= entries_map(b));
}

/// With distinct names there are as many names in the mapping as entries.
pub proof fn lemma_map_size(entries: Seq<Attribute>)
    requires
        distinct_names(entries),
    ensures
        entries_map(entries).dom().finite(),
        entries_map(entries).len() == entries.len(),
    decreases entries.len(),
{
    if entries.len() == 0 {
        assert(entries_map(entries).dom() =~= Set::<Seq<char>>::empty());
    } else {
        let front = entries.drop_last();
        let last = entries.last();
        let n = front.len() as int;
        assert(distinct_names(front)) by {
            assert forall|i: int, j: int|
                0 <= i < front.len() && 0 <= j < front.len() && front[i].name@
                    == front[j].name@ implies i == j by {
                assert(entries[i].name@ == entries[j].name@);
            }
        }
        lemma_map_size(front);
        assert(!has_name(front, last.name@)) by {
            if has_name(front, last.name@) {
                let i = index_of(front, last.name@);
                assert(entries[i].name@ == entries[n].name@);
            }
        }
        assert forall|k: Seq<char>|
            has_name(entries, k) == (k == last.name@ || has_name(front, k)) by {
            if has_name(entries, k) {
                let i = index_of(entries, k);
                if i < n {
                    assert(front[i].name@ == k);
                }
            }
            if has_name(front, k) {
                let i = index_of(front, k);
                assert(entries[i].name@ == k);
            }
            if k == last.name@ {
                assert(entries[n].name@ == k);
            }
        }
        assert(entries_map(entries).dom() =~= entries_map(front).dom().insert(last.name@));
    }
}

} // verus!
