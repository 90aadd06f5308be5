//! The macro registry: names and the raw bodies defined for them.

use vstd::prelude::*;
use crate::ast::{clone_tokens, models, SpecToken, Token};
use crate::text::same_text;

verus! {

/// What a registry holds, as a map from a name to the tokens of its body.
pub type Defs = Map<Seq<char>, Seq<SpecToken>>;

/// One definition.
#[derive(Debug)]
struct Entry {
    name: String,
    body: Vec<Token>,
}

/// The macro definitions of a session. A body is stored as it was written,
/// not expanded.
#[derive(Debug)]
pub struct MacroRegistry {
    entries: Vec<Entry>,
}

/// The map that a list of definitions stands for: of two entries with one
/// name the earlier counts.
spec fn defs_of(entries: Seq<Entry>) -> Defs
    decreases entries.len(),
{
    if entries.len() == 0 {
        Map::empty()
    } else {
        defs_of(entries.drop_first()).insert(entries[0].name@, models(entries[0].body@))
    }
}

/// The first `upto` entries have another name than `name`.
spec fn absent_before(entries: Seq<Entry>, name: Seq<char>, upto: int) -> bool {
    forall|k: int| 0 <= k < upto ==> (#[trigger] entries[k]).name@ != name
}

proof fn lemma_absent(entries: Seq<Entry>, name: Seq<char>)
    requires
        absent_before(entries, name, entries.len() as int),
    ensures
        !defs_of(entries).contains_key(name),
    decreases entries.len(),
{
    if entries.len() > 0 {
        assert(entries[0].name@ != name);
        assert forall|k: int| 0 <= k < entries.drop_first().len() implies (
        #[trigger] entries.drop_first()[k]).name@ != name by {
            assert(entries.drop_first()[k] == entries[k + 1]);
        }
        lemma_absent(entries.drop_first(), name);
    }
}

proof fn lemma_first_match(entries: Seq<Entry>, name: Seq<char>, at: int)
    requires
        0 <= at < entries.len(),
        absent_before(entries, name, at),
        entries[at].name@ == name,
    ensures
        defs_of(entries).contains_key(name),
        defs_of(entries)[name] == models(entries[at].body@),
    decreases entries.len(),
{
    if at > 0 {
        assert(entries[0].name@ != name);
        assert forall|k: int| 0 <= k < at - 1 implies (#[trigger] entries.drop_first()[k]).name@
            != name by {
            assert(entries.drop_first()[k] == entries[k + 1]);
        }
        lemma_first_match(entries.drop_first(), name, at - 1);
    }
}

proof fn lemma_replace(entries: Seq<Entry>, at: int, entry: Entry)
    requires
        0 <= at < entries.len(),
        absent_before(entries, entry.name@, at),
        entries[at].name@ == entry.name@,
    ensures
        defs_of(entries.update(at, entry)) == defs_of(entries).insert(
            entry.name@,
            models(entry.body@),
        ),
    decreases entries.len(),
{
    let after = entries.update(at, entry);
    if at == 0 {
        assert(after.drop_first() =~= entries.drop_first());
        assert(defs_of(after) =~= defs_of(entries).insert(entry.name@, models(entry.body@)));
    } else {
        assert(entries[0].name@ != entry.name@);
        assert forall|k: int| 0 <= k < at - 1 implies (#[trigger] entries.drop_first()[k]).name@
            != entry.name@ by {
            assert(entries.drop_first()[k] == entries[k + 1]);
        }
        lemma_replace(entries.drop_first(), at - 1, entry);
        assert(after.drop_first() =~= entries.drop_first().update(at - 1, entry));
        assert(defs_of(after) =~= defs_of(entries).insert(entry.name@, models(entry.body@)));
    }
}

proof fn lemma_append(entries: Seq<Entry>, entry: Entry)
    requires
        absent_before(entries, entry.name@, entries.len() as int),
    ensures
        defs_of(entries.push(entry)) == defs_of(entries).insert(entry.name@, models(entry.body@)),
    decreases entries.len(),
{
    let after = entries.push(entry);
    if entries.len() == 0 {
        assert(after.drop_first() =~= entries);
        assert(after[0] == entry);
        assert(defs_of(after) =~= defs_of(entries).insert(entry.name@, models(entry.body@)));
    } else {
        assert(entries[0].name@ != entry.name@);
        assert forall|k: int| 0 <= k < entries.drop_first().len() implies (
        #[trigger] entries.drop_first()[k]).name@ != entry.name@ by {
            assert(entries.drop_first()[k] == entries[k + 1]);
        }
        lemma_append(entries.drop_first(), entry);
        assert(after.drop_first() =~= entries.drop_first().push(entry));
        assert(defs_of(after) =~= defs_of(entries).insert(entry.name@, models(entry.body@)));
    }
}

impl View for MacroRegistry {
    type V = Defs;

    closed spec fn view(&self) -> Defs {
        defs_of(self.entries@)
    }
}

impl MacroRegistry {
    /// A registry without definitions.
    pub fn new() -> (r: Self)
        ensures
            r@ == Map::<Seq<char>, Seq<SpecToken>>::empty(),
    {
        MacroRegistry { entries: Vec::new() }
    }

    /// Where the definition of `name` stands, if it has one.
    fn find(&self, name: &str) -> (r: Option<usize>)
        ensures
            match r {
                Some(at) => at < self.entries@.len() && self.entries@[at as int].name@ == name@
                    && absent_before(self.entries@, name@, at as int),
                None => absent_before(self.entries@, name@, self.entries@.len() as int),
            },
    {
        let mut i: usize = 0;
        while i < self.entries.len()
            invariant
                i <= self.entries@.len(),
                absent_before(self.entries@, name@, i as int),
            decreases self.entries@.len() - i,
        {
            if same_text(self.entries[i].name.as_str(), name) {
                return Some(i);
            }
            i += 1;
        }
        None
    }

    /// Defines `name` as `body`, in place of what it was defined as before.
    pub fn define(&mut self, name: String, body: Vec<Token>)
        ensures
            final(self)@ == old(self)@.insert(name@, models(body@)),
    {
        let found = self.find(name.as_str());
        let entry = Entry { name, body };
        match found {
            Some(at) => {
                proof {
                    lemma_replace(self.entries@, at as int, entry);
                }
                self.entries.set(at, entry);
            },
            None => {
                proof {
                    lemma_append(self.entries@, entry);
                }
                self.entries.push(entry);
            },
        }
    }

    /// The body that `name` is defined as, if it is defined.
    pub fn get(&self, name: &str) -> (r: Option<&Vec<Token>>)
        ensures
            match r {
                Some(body) => self@.contains_key(name@) && models(body@) == self@[name@],
                None => !self@.contains_key(name@),
            },
    {
        match self.find(name) {
            Some(at) => {
                proof {
                    lemma_first_match(self.entries@, name@, at as int);
                }
                Some(&self.entries[at].body)
            },
            None => {
                proof {
                    lemma_absent(self.entries@, name@);
                }
                None
            },
        }
    }

    /// Whether `name` is defined.
    pub fn is_defined(&self, name: &str) -> (r: bool)
        ensures
            r == self@.contains_key(name@),
    {
        self.get(name).is_some()
    }
}

impl Clone for MacroRegistry {
    fn clone(&self) -> (r: Self)
        ensures
            r@ == self@,
    {
        let mut entries: Vec<Entry> = Vec::new();
        let mut i: usize = 0;
        while i < self.entries.len()
            invariant
                i <= self.entries@.len(),
                entries@.len() == i,
                forall|k: int|
                    0 <= k < i ==> (#[trigger] entries@[k]).name@ == self.entries@[k].name@
                        && models(entries@[k].body@) == models(self.entries@[k].body@),
            decreases self.entries@.len() - i,
        {
            let entry = &self.entries[i];
            entries.push(Entry { name: entry.name.clone(), body: clone_tokens(&entry.body) });
            i += 1;
        }
        proof {
            lemma_same_defs(entries@, self.entries@);
        }
        MacroRegistry { entries }
    }
}

proof fn lemma_same_defs(a: Seq<Entry>, b: Seq<Entry>)
    requires
        a.len() == b.len(),
        forall|k: int|
            0 <= k < a.len() ==> (#[trigger] a[k]).name@ == b[k].name@ && models(a[k].body@)
                == models(b[k].body@),
    ensures
        defs_of(a) == defs_of(b),
    decreases a.len(),
{
    if a.len() > 0 {
        assert(a[0].name@ == b[0].name@ && models(a[0].body@) == models(b[0].body@));
        assert forall|k: int| 0 <= k < a.drop_first().len() implies (#[trigger] a.drop_first()[k]).name@
            == b.drop_first()[k].name@ && models(a.drop_first()[k].body@) == models(
            b.drop_first()[k].body@,
        ) by {
            assert(a.drop_first()[k] == a[k + 1]);
            assert(b.drop_first()[k] == b[k + 1]);
            assert(a[k + 1].name@ == b[k + 1].name@);
        }
        lemma_same_defs(a.drop_first(), b.drop_first());
    }
}

impl Default for MacroRegistry {
    fn default() -> (r: Self)
        ensures
            r@ == Map::<Seq<char>, Seq<SpecToken>>::empty(),
    {
        MacroRegistry::new()
    }
}

} // verus!
