use vstd::prelude::*;

verus! {

/// A short name, such as that of a candidate. Two symbols are the same
/// exactly when their names are the same text.
#[derive(Debug)]
pub struct Symbol {
    name: String,
}

impl View for Symbol {
    type V = Seq<char>;

    closed spec fn view(&self) -> Seq<char> {
        self.name@
    }
}

impl Symbol {
    /// The symbol with the given name.
    pub fn new(name: &str) -> (s: Symbol)
        ensures
            s@ == name@,
    {
        Symbol { name: name.to_owned() }
    }

    /// The name of this symbol.
    pub fn as_str(&self) -> (name: &str)
        ensures
            name@ == self@,
    {
        self.name.as_str()
    }
}

impl Clone for Symbol {
    fn clone(&self) -> (s: Symbol)
        ensures
            s == *self,
    {
        Symbol { name: self.name.clone() }
    }
}

impl PartialEq for Symbol {
    fn eq(&self, other: &Symbol) -> (same: bool) {
        self.name == other.name
    }
}

impl vstd::std_specs::cmp::PartialEqSpecImpl for Symbol {
    open spec fn obeys_eq_spec() -> bool {
        true
    }

    open spec fn eq_spec(&self, other: &Symbol) -> bool {
        self@ == other@
    }
}

impl Eq for Symbol {}

/// The names of a list of symbols, in the order of the list.
pub open spec fn names(list: Seq<Symbol>) -> Seq<Seq<char>> {
    list.map_values(|s: Symbol| s@)
}

/// Whether a symbol stands in a list.
pub fn contains(list: &Vec<Symbol>, s: &Symbol) -> (found: bool)
    ensures
        found == names(list@).contains(s@),
{
    let mut i: usize = 0;
    while i < list.len()
        invariant
            i <= list.len(),
            forall|j: int| 0 <= j < i ==> #[trigger] list[j]@ != s@,
        decreases list.len() - i,
    {
        if list[i] == *s {
            assert(names(list@)[i as int] == s@);
            return true;
        }
        i += 1;
    }
    assert(forall|j: int| 0 <= j < list.len() ==> #[trigger] names(list@)[j] == list[j]@);
    false
}

/// Whether no symbol stands twice in a list.
pub fn distinct(list: &Vec<Symbol>) -> (ok: bool)
    ensures
        ok == names(list@).no_duplicates(),
{
    let mut i: usize = 0;
    while i < list.len()
        invariant
            i <= list.len(),
            forall|a: int, b: int| 0 <= a < b < i ==> list[a]@ != list[b]@,
        decreases list.len() - i,
    {
        let mut j: usize = 0;
        while j < i
            invariant
                j <= i < list.len(),
                forall|a: int| 0 <= a < j ==> list[a]@ != list[i as int]@,
            decreases i - j,
        {
            if list[j] == list[i] {
                assert(names(list@)[j as int] == names(list@)[i as int]);
                return false;
            }
            j += 1;
        }
        i += 1;
    }
    assert forall|a: int, b: int|
        0 <= a < names(list@).len() && 0 <= b < names(list@).len() && a != b implies names(
        list@,
    )[a] != names(list@)[b] by {
        if a < b {
            assert(list[a]@ != list[b]@);
        } else {
            assert(list[b]@ != list[a]@);
        }
    }
    true
}

/// A copy of a list of symbols.
pub fn copy_list(list: &Vec<Symbol>) -> (copy: Vec<Symbol>)
    ensures
        copy@ == list@,
{
    let mut copy: Vec<Symbol> = Vec::new();
    let mut i: usize = 0;
    while i < list.len()
        invariant
            i <= list.len(),
            copy@ == list@.take(i as int),
        decreases list.len() - i,
    {
        copy.push(list[i].clone());
        assert(list@.take(i + 1) == list@.take(i as int).push(list[i as int]));
        i += 1;
    }
    assert(list@.take(list.len() as int) == list@);
    copy
}

} // verus!
