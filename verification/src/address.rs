use vstd::prelude::*;

verus! {

/// The identity of a participant: the textual key under which the ledger
/// knows an account. Two addresses denote the same participant exactly when
/// their keys are the same text.
#[derive(Debug)]
pub struct Address {
    key: String,
}

impl View for Address {
    type V = Seq<char>;

    closed spec fn view(&self) -> Seq<char> {
        self.key@
    }
}

impl Address {
    /// The address with the given key.
    pub fn new(key: &str) -> (a: Address)
        ensures
            a@ == key@,
    {
        Address { key: key.to_owned() }
    }

    /// The key of this address.
    pub fn as_str(&self) -> (key: &str)
        ensures
            key@ == self@,
    {
        self.key.as_str()
    }
}

impl Clone for Address {
    fn clone(&self) -> (a: Address)
        ensures
            a == *self,
    {
        Address { key: self.key.clone() }
    }
}

impl PartialEq for Address {
    fn eq(&self, other: &Address) -> (same: bool) {
        self.key == other.key
    }
}

impl vstd::std_specs::cmp::PartialEqSpecImpl for Address {
    open spec fn obeys_eq_spec() -> bool {
        true
    }

    open spec fn eq_spec(&self, other: &Address) -> bool {
        self@ == other@
    }
}

impl Eq for Address {}

/// The keys of a list of addresses, in the order of the list.
pub open spec fn keys(list: Seq<Address>) -> Seq<Seq<char>> {
    list.map_values(|a: Address| a@)
}

/// The first position of a list at which an address stands, if it stands there
/// at all.
pub fn position(list: &Vec<Address>, a: &Address) -> (at: Option<usize>)
    ensures
        match at {
            Some(i) => i < list.len() && list[i as int]@ == a@ && !keys(list@).take(
                i as int,
            ).contains(a@),
            None => !keys(list@).contains(a@),
        },
{
    let mut i: usize = 0;
    while i < list.len()
        invariant
            i <= list.len(),
            forall|j: int| 0 <= j < i ==> #[trigger] list[j]@ != a@,
        decreases list.len() - i,
    {
        if list[i] == *a {
            assert(forall|j: int| 0 <= j < i ==> #[trigger] keys(list@).take(i as int)[j] == list[j]@);
            return Some(i);
        }
        i += 1;
    }
    assert(forall|j: int| 0 <= j < list.len() ==> #[trigger] keys(list@)[j] == list[j]@);
    None
}

/// Whether an address stands in a list.
pub fn contains(list: &Vec<Address>, a: &Address) -> (found: bool)
    ensures
        found == keys(list@).contains(a@),
{
    match position(list, a) {
        Some(i) => {
            assert(keys(list@)[i as int] == a@);
            true
        },
        None => false,
    }
}

/// Whether no address stands twice in a list.
pub fn distinct(list: &Vec<Address>) -> (ok: bool)
    ensures
        ok == keys(list@).no_duplicates(),
{
    let mut i: usize = 0;
    while i < list.len()
        invariant
            i <= list.len(),
            forall|a: int, b: int| 0 <= a < b < i ==> list[a]@ != list[b]@,
        decreases list.len() - i,
    {
        let mut j: usize = 0;
        while j < i
            invariant
                j <= i < list.len(),
                forall|a: int| 0 <= a < j ==> list[a]@ != list[i as int]@,
            decreases i - j,
        {
            if list[j] == list[i] {
                assert(keys(list@)[j as int] == keys(list@)[i as int]);
                return false;
            }
            j += 1;
        }
        i += 1;
    }
    assert forall|a: int, b: int|
        0 <= a < keys(list@).len() && 0 <= b < keys(list@).len() && a != b implies keys(list@)[a]
        != keys(list@)[b] by {
        if a < b {
            assert(list[a]@ != list[b]@);
        } else {
            assert(list[b]@ != list[a]@);
        }
    }
    true
}

/// A copy of a list of addresses.
pub fn copy_list(list: &Vec<Address>) -> (copy: Vec<Address>)
    ensures
        copy@ == list@,
{
    let mut copy: Vec<Address> = Vec::new();
    let mut i: usize = 0;
    while i < list.len()
        invariant
            i <= list.len(),
            copy@ == list@.take(i as int),
        decreases list.len() - i,
    {
        copy.push(list[i].clone());
        assert(list@.take(i + 1) == list@.take(i as int).push(list[i as int]));
        i += 1;
    }
    assert(list@.take(list.len() as int) == list@);
    copy
}

} // verus!
