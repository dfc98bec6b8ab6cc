use crate::symbol::Symbol;
use vstd::prelude::*;

verus! {

/// One line of a tally: a name and the count that stands against it.
#[derive(Debug)]
pub struct Entry {
    pub name: Symbol,
    pub count: u32,
}

/// The first position of a list of entries at which a name stands, or the
/// length of the list if it stands nowhere.
pub open spec fn first_at(list: Seq<Entry>, name: Seq<char>) -> int
    decreases list.len(),
{
    if list.len() == 0 {
        0
    } else if list[0].name@ == name {
        0
    } else {
        1 + first_at(list.skip(1), name)
    }
}

/// What a list of entries says: each name that occurs in it stands against
/// the count of its first occurrence.
pub open spec fn counts_of(list: Seq<Entry>) -> Map<Seq<char>, nat> {
    Map::new(
        |name: Seq<char>| first_at(list, name) < list.len(),
        |name: Seq<char>| list[first_at(list, name)].count as nat,
    )
}

/// `first_at` gives the first position at which the name stands.
pub proof fn lemma_first_at(list: Seq<Entry>, name: Seq<char>)
    ensures
        0 <= first_at(list, name) <= list.len(),
        first_at(list, name) < list.len() ==> list[first_at(list, name)].name@ == name,
        forall|j: int| 0 <= j < first_at(list, name) ==> (#[trigger] list[j]).name@ != name,
    decreases list.len(),
{
    if list.len() > 0 && list[0].name@ != name {
        let rest = list.skip(1);
        lemma_first_at(rest, name);
        assert forall|j: int| 0 <= j < first_at(list, name) implies (#[trigger] list[j]).name@
            != name by {
            if j > 0 {
                assert(list[j] == rest[j - 1]);
            }
        }
    }
}

/// A position at which the name stands, with none before it, is the first.
pub proof fn lemma_first_at_is(list: Seq<Entry>, name: Seq<char>, at: int)
    requires
        0 <= at <= list.len(),
        at < list.len() ==> list[at].name@ == name,
        forall|j: int| 0 <= j < at ==> (#[trigger] list[j]).name@ != name,
    ensures
        first_at(list, name) == at,
{
    lemma_first_at(list, name);
    let f = first_at(list, name);
    if f < at {
        assert(list[f].name@ != name);
    } else if at < f {
        assert(list[at].name@ != name);
    }
}

/// A tally: counts that stand against names, each name at most once.
#[derive(Debug)]
pub struct Tally {
    entries: Vec<Entry>,
}

impl View for Tally {
    type V = Map<Seq<char>, nat>;

    closed spec fn view(&self) -> Map<Seq<char>, nat> {
        counts_of(self.entries@)
    }
}

impl Tally {
    /// The position of a name among the entries, if it is there.
    fn find(&self, name: &Symbol) -> (at: usize)
        ensures
            at == first_at(self.entries@, name@),
    {
        let mut i: usize = 0;
        while i < self.entries.len()
            invariant
                i <= self.entries.len(),
                forall|j: int| 0 <= j < i ==> (#[trigger] self.entries@[j]).name@ != name@,
            decreases self.entries.len() - i,
        {
            if self.entries[i].name == *name {
                proof {
                    lemma_first_at_is(self.entries@, name@, i as int);
                }
                return i;
            }
            i += 1;
        }
        proof {
            lemma_first_at_is(self.entries@, name@, i as int);
        }
        i
    }

    /// The empty tally.
    pub fn new() -> (tally: Tally)
        ensures
            tally@ == Map::<Seq<char>, nat>::empty(),
    {
        let tally = Tally { entries: Vec::new() };
        assert(tally@ =~= Map::<Seq<char>, nat>::empty());
        tally
    }

    /// The count that stands against a name, if any does.
    pub fn get(&self, name: &Symbol) -> (count: Option<u32>)
        ensures
            match count {
                Some(n) => self@.contains_key(name@) && self@[name@] == n,
                None => !self@.contains_key(name@),
            },
    {
        let at = self.find(name);
        if at < self.entries.len() {
            Some(self.entries[at].count)
        } else {
            None
        }
    }

    /// Puts a count against a name, in place of the one that stood there.
    pub fn set(&mut self, name: Symbol, count: u32)
        ensures
            final(self)@ == old(self)@.insert(name@, count as nat),
    {
        let at = self.find(&name);
        let ghost before = self.entries@;
        let ghost key = name@;
        if at < self.entries.len() {
            self.entries.set(at, Entry { name, count });
        } else {
            self.entries.push(Entry { name, count });
        }
        proof {
            let after = self.entries@;
            lemma_first_at(before, key);
            assert(after.len() >= before.len());
            assert(forall|j: int| 0 <= j < before.len() ==> (#[trigger] after[j]).name@ == before[j].name@);
            assert(after[at as int].name@ == key && after[at as int].count == count);
            assert(forall|j: int| 0 <= j < before.len() && j != at ==> #[trigger] after[j] == before[j]);
            lemma_first_at_is(after, key, at as int);
            assert forall|other: Seq<char>| other != key implies ((first_at(after, other)
                < after.len()) <==> (first_at(before, other) < before.len())) && (first_at(
                before,
                other,
            ) < before.len() ==> after[first_at(after, other)].count == before[first_at(
                before,
                other,
            )].count) by {
                lemma_first_at(before, other);
                let f = first_at(before, other);
                if f < before.len() {
                    lemma_first_at_is(after, other, f);
                } else {
                    lemma_first_at_is(after, other, after.len() as int);
                }
            }
            assert(counts_of(after) =~= counts_of(before).insert(key, count as nat));
        }
    }

}

} // verus!
