use crate::address::{copy_list as copy_addresses, keys, Address};
use crate::symbol::{contains, copy_list as copy_symbols, names, Symbol};
use crate::tally::Tally;
use vstd::prelude::*;

verus! {

/// The voting window: votes and delegations are accepted from `from` to `to`,
/// both in seconds since the Unix epoch. A zero on either side means that no
/// window is set.
#[derive(Clone, Copy, Debug, PartialEq, Eq, Structural)]
pub struct Config {
    pub from: u64,
    pub to: u64,
}

impl Default for Config {
    /// No window.
    fn default() -> (cfg: Config)
        ensures
            cfg == (Config { from: 0, to: 0 }),
    {
        Config { from: 0, to: 0 }
    }
}

/// The key under which the count of a candidate is kept.
#[derive(Debug)]
pub enum VCounter {
    Counter(Symbol),
}

impl View for VCounter {
    type V = Seq<char>;

    open spec fn view(&self) -> Seq<char> {
        match self {
            VCounter::Counter(candidate) => candidate@,
        }
    }
}

/// The mathematical model of what a ballot keeps: its configuration, the
/// voters in the order in which they voted, the candidates in the order in
/// which they were first named, and the count of each.
#[verifier::ext_equal]
pub struct BallotState {
    pub config: Option<Config>,
    pub token: Option<Seq<char>>,
    pub votes: Seq<Seq<char>>,
    pub candidates: Seq<Seq<char>>,
    pub counts: Map<Seq<char>, nat>,
}

impl BallotState {
    /// A ballot that has been neither configured nor used.
    pub open spec fn empty() -> BallotState {
        BallotState {
            config: None,
            token: None,
            votes: Seq::empty(),
            candidates: Seq::empty(),
            counts: Map::empty(),
        }
    }

    /// The voting window, or none if the ballot has not been configured.
    pub open spec fn window(self) -> Config {
        match self.config {
            Some(cfg) => cfg,
            None => Config { from: 0, to: 0 },
        }
    }

    /// The count that stands against a candidate: zero if there is none.
    pub open spec fn tally(self, candidate: Seq<char>) -> nat {
        if self.counts.contains_key(candidate) {
            self.counts[candidate]
        } else {
            0
        }
    }
}

/// What a ballot keeps from one call to the next.
pub struct Storage {
    votes: Vec<Address>,
    parties: Vec<Symbol>,
    config: Option<Config>,
    token: Option<Address>,
    counters: Tally,
}

impl View for Storage {
    type V = BallotState;

    closed spec fn view(&self) -> BallotState {
        BallotState {
            config: self.config,
            token: match self.token {
                Some(a) => Some(a@),
                None => None,
            },
            votes: keys(self.votes@),
            candidates: names(self.parties@),
            counts: self.counters@,
        }
    }
}

impl Storage {
    /// A storage in which nothing is kept yet.
    pub fn new() -> (store: Storage)
        ensures
            store@ == BallotState::empty(),
    {
        let store = Storage {
            votes: Vec::new(),
            parties: Vec::new(),
            config: None,
            token: None,
            counters: Tally::new(),
        };
        assert(keys(store.votes@) =~= Seq::<Seq<char>>::empty());
        assert(names(store.parties@) =~= Seq::<Seq<char>>::empty());
        store
    }
}

/// The candidates named so far, in the order in which they were first named.
pub fn get_candidates(store: &Storage) -> (pts: Vec<Symbol>)
    ensures
        names(pts@) == store@.candidates,
{
    let pts: Vec<Symbol> = copy_symbols(&store.parties);
    pts
}

/// Puts a candidate on record unless it is there already, and says whether
/// it was new.
pub fn store_party(store: &mut Storage, p: &Symbol) -> (added: bool)
    ensures
        added == !old(store)@.candidates.contains(p@),
        final(store)@ == (BallotState {
            candidates: if added {
                old(store)@.candidates.push(p@)
            } else {
                old(store)@.candidates
            },
            ..old(store)@
        }),
{
    if !contains(&store.parties, p) {
        assert(names(store.parties@.push(*p)) =~= names(store.parties@).push(p@));
        store.parties.push(p.clone());
        return true;
    }
    false
}

/// The addresses that have voted, in the order in which they voted.
pub fn get_votes(store: &Storage) -> (vts: Vec<Address>)
    ensures
        keys(vts@) == store@.votes,
{
    let vts: Vec<Address> = copy_addresses(&store.votes);
    vts
}

/// The count kept under a key: zero if none is kept.
pub fn get_candidate_votes_count(store: &Storage, candidate: &VCounter) -> (total_votes: u32)
    ensures
        total_votes == store@.tally(candidate@),
{
    let total_votes = match candidate {
        VCounter::Counter(name) => store.counters.get(name),
    };
    match total_votes {
        Some(n) => n,
        None => 0,
    }
}

/// Puts a count under a key, in place of the one kept there.
pub fn update_candidate_count(store: &mut Storage, candidate: VCounter, count: u32)
    ensures
        final(store)@ == (BallotState {
            counts: old(store)@.counts.insert(candidate@, count as nat),
            ..old(store)@
        }),
{
    match candidate {
        VCounter::Counter(name) => store.counters.set(name, count),
    }
}

/// Puts a list of voters in place of the one kept.
pub fn update_votes(store: &mut Storage, votes: Vec<Address>)
    ensures
        final(store)@ == (BallotState { votes: keys(votes@), ..old(store)@ }),
{
    store.votes = votes;
}

/// Puts the voting window and the address of the token ledger on record.
pub fn store_config(store: &mut Storage, ts_start: u64, ts_end: u64, token: Address)
    ensures
        final(store)@ == (BallotState {
            config: Some(Config { from: ts_start, to: ts_end }),
            token: Some(token@),
            ..old(store)@
        }),
{
    let cfg = Config { from: ts_start, to: ts_end };
    store.config = Some(cfg);
    store.token = Some(token);
}

/// The voting window on record, or no window if none is.
pub fn get_config(store: &Storage) -> (cfg: Config)
    ensures
        cfg == store@.window(),
{
    match store.config {
        Some(cfg) => cfg,
        None => Config::default(),
    }
}

/// The address of the token ledger, which must be on record.
pub fn get_token(store: &Storage) -> (token: Address)
    requires
        store@.token is Some,
    ensures
        Some(token@) == store@.token,
{
    match &store.token {
        Some(a) => a.clone(),
        None => vstd::pervasive::unreached(),
    }
}

} // verus!
