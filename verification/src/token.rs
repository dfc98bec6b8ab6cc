use crate::address::{contains, copy_list, distinct, keys, position, Address};
use crate::ledger::Ledger;
use crate::seqs::{lemma_push_fresh, lemma_remove_unique};
use vstd::prelude::*;

verus! {

/// The number of ledgers that close in one day.
pub const DAY_IN_LEDGERS: u32 = 17280;

/// How long, in ledgers, the token's own record is kept alive when it is used.
pub const INSTANCE_BUMP_AMOUNT: u32 = 7 * DAY_IN_LEDGERS;

/// The remaining lifetime below which the token's own record is renewed.
pub const INSTANCE_LIFETIME_THRESHOLD: u32 = INSTANCE_BUMP_AMOUNT - DAY_IN_LEDGERS;

/// How long, in ledgers, a balance is kept alive when it is read.
pub const BALANCE_BUMP_AMOUNT: u32 = 30 * DAY_IN_LEDGERS;

/// The remaining lifetime below which a balance is renewed.
pub const BALANCE_LIFETIME_THRESHOLD: u32 = BALANCE_BUMP_AMOUNT - DAY_IN_LEDGERS;

/// Why the token ledger refuses an operation.
#[derive(Copy, Clone, Debug, Eq, PartialEq, Structural)]
pub enum Error {
    TokenAlreadyInitialized,
    AddressAlreadyHoldsToken,
    AddressDoesNotHoldToken,
    AddressAlreadyHasAllowance,
    ExpirationLedgerLessThanCurrentLedger,
}

impl Error {
    /// The number under which callers know this kind of refusal.
    pub open spec fn spec_code(self) -> u32 {
        match self {
            Error::TokenAlreadyInitialized => 1,
            Error::AddressAlreadyHoldsToken => 2,
            Error::AddressDoesNotHoldToken => 3,
            Error::AddressAlreadyHasAllowance => 4,
            Error::ExpirationLedgerLessThanCurrentLedger => 5,
        }
    }

    #[verifier::when_used_as_spec(spec_code)]
    pub fn code(self) -> (code: u32)
        ensures
            code == self.spec_code(),
    {
        match self {
            Error::TokenAlreadyInitialized => 1,
            Error::AddressAlreadyHoldsToken => 2,
            Error::AddressDoesNotHoldToken => 3,
            Error::AddressAlreadyHasAllowance => 4,
            Error::ExpirationLedgerLessThanCurrentLedger => 5,
        }
    }
}

/// One delegation as the mathematical model sees it: `origin` has handed its
/// right to `target`, and the hand-over counts up to and including the ledger
/// with sequence number `expires_at`.
pub struct Grant {
    pub origin: Seq<char>,
    pub target: Seq<char>,
    pub expires_at: nat,
}

impl Grant {
    /// Whether the delegation still counts at the ledger with this sequence
    /// number.
    pub open spec fn live(self, sequence: nat) -> bool {
        sequence <= self.expires_at
    }

    /// Whether the delegation neither comes from `origin` nor goes to
    /// `target`.
    pub open spec fn apart(self, origin: Seq<char>, target: Seq<char>) -> bool {
        self.origin != origin && self.target != target
    }
}

/// The mathematical model of the token ledger: who administers it, who holds
/// a token, and which delegations are on record.
#[verifier::ext_equal]
pub struct TokenState {
    pub admin: Option<Seq<char>>,
    pub holders: Set<Seq<char>>,
    pub grants: Set<Grant>,
}

impl TokenState {
    /// The ledger before anything has happened to it.
    pub open spec fn empty() -> TokenState {
        TokenState { admin: None, holders: Set::empty(), grants: Set::empty() }
    }

    /// Finitely many addresses hold a token, and no address is the origin of
    /// two recorded delegations or the target of two.
    pub open spec fn wf(self) -> bool {
        &&& self.holders.finite()
        &&& forall|g: Grant, h: Grant|
            #![trigger self.grants.contains(g), self.grants.contains(h)]
            self.grants.contains(g) && self.grants.contains(h) && (g.origin == h.origin || g.target
                == h.target) ==> g == h
    }

    /// The number of tokens an address holds: one or none.
    pub open spec fn balance(self, addr: Seq<char>) -> nat {
        if self.holders.contains(addr) {
            1
        } else {
            0
        }
    }

    /// The number of tokens in existence.
    pub open spec fn supply(self) -> nat {
        self.holders.len()
    }

    /// Whether an address has delegated its right away and the delegation
    /// still counts at the given sequence number.
    pub open spec fn blocking(self, addr: Seq<char>, sequence: nat) -> bool {
        exists|g: Grant| #[trigger] self.grants.contains(g) && g.origin == addr && g.live(sequence)
    }

    /// Whether an address holds a right delegated to it that still counts at
    /// the given sequence number.
    pub open spec fn allowance(self, addr: Seq<char>, sequence: nat) -> bool {
        exists|g: Grant| #[trigger] self.grants.contains(g) && g.target == addr && g.live(sequence)
    }

    /// Recording the administrator: refused once one is on record.
    pub open spec fn initialize(self, admin: Seq<char>) -> Result<TokenState, Error> {
        if self.admin is Some {
            Err(Error::TokenAlreadyInitialized)
        } else {
            Ok(TokenState { admin: Some(admin), ..self })
        }
    }

    /// Issuing a token to an address: refused if it holds one already.
    pub open spec fn mint(self, addr: Seq<char>) -> Result<TokenState, Error> {
        if self.balance(addr) > 0 {
            Err(Error::AddressAlreadyHoldsToken)
        } else {
            Ok(TokenState { holders: self.holders.insert(addr), ..self })
        }
    }

    /// Moving the token of `from` to `to`: refused if `from` holds none, and
    /// then if `to` holds one already.
    pub open spec fn transfer(self, from: Seq<char>, to: Seq<char>) -> Result<TokenState, Error> {
        if self.balance(from) == 0 {
            Err(Error::AddressDoesNotHoldToken)
        } else if self.balance(to) > 0 {
            Err(Error::AddressAlreadyHoldsToken)
        } else {
            Ok(TokenState { holders: self.holders.remove(from).insert(to), ..self })
        }
    }

    /// Taking the token of an address out of existence, if it holds one.
    pub open spec fn burn(self, addr: Seq<char>) -> TokenState {
        TokenState { holders: self.holders.remove(addr), ..self }
    }

    /// Why a delegation by `from` to `spender` until `expiration` is refused
    /// at the ledger with the given sequence number, if it is. The checks come
    /// in this order, and the first that fails names the refusal.
    pub open spec fn approve_refusal(
        self,
        sequence: nat,
        from: Seq<char>,
        spender: Seq<char>,
        expiration: nat,
    ) -> Option<Error> {
        if expiration < sequence {
            Some(Error::ExpirationLedgerLessThanCurrentLedger)
        } else if self.blocking(from, sequence) {
            Some(Error::AddressAlreadyHasAllowance)
        } else if self.allowance(spender, sequence) {
            Some(Error::AddressAlreadyHasAllowance)
        } else if self.balance(from) < 1 {
            Some(Error::AddressDoesNotHoldToken)
        } else if self.balance(spender) < 1 {
            Some(Error::AddressDoesNotHoldToken)
        } else {
            None
        }
    }

    /// The ledger once the delegation by `from` to `spender` until
    /// `expiration` is on record. The new record takes the place of what
    /// `from` had delegated and of what `spender` had received before.
    pub open spec fn approved(
        self,
        from: Seq<char>,
        spender: Seq<char>,
        expiration: nat,
    ) -> TokenState {
        TokenState {
            grants: self.grants.filter(|g: Grant| g.apart(from, spender)).insert(
                Grant { origin: from, target: spender, expires_at: expiration },
            ),
            ..self
        }
    }

    /// Recording, at the ledger with the given sequence number, that `from`
    /// delegates to `spender` until `expiration`.
    pub open spec fn approve(
        self,
        sequence: nat,
        from: Seq<char>,
        spender: Seq<char>,
        expiration: nat,
    ) -> Result<TokenState, Error> {
        match self.approve_refusal(sequence, from, spender, expiration) {
            Some(e) => Err(e),
            None => Ok(self.approved(from, spender, expiration)),
        }
    }

    /// What the ledger reports of one address at the given sequence number.
    pub open spec fn standing(self, addr: Seq<char>, sequence: nat) -> Standing {
        Standing {
            balance: self.balance(addr) as u32,
            blocking: self.blocking(addr, sequence),
            allowance: self.allowance(addr, sequence),
        }
    }
}

/// What the token ledger reports of one address at one ledger: its balance,
/// whether it has delegated its right away, and whether it holds a right
/// delegated to it.
#[derive(Copy, Clone, Debug, Eq, PartialEq, Structural)]
pub struct Standing {
    pub balance: u32,
    pub blocking: bool,
    pub allowance: bool,
}

/// One delegation on record: `origin` has handed its right to `target` up to
/// and including the ledger with sequence number `expires_at`.
#[derive(Debug)]
pub struct Delegation {
    pub origin: Address,
    pub target: Address,
    pub expires_at: u32,
}

impl View for Delegation {
    type V = Grant;

    open spec fn view(&self) -> Grant {
        Grant { origin: self.origin@, target: self.target@, expires_at: self.expires_at as nat }
    }
}

impl Clone for Delegation {
    fn clone(&self) -> (d: Delegation)
        ensures
            d == *self,
    {
        Delegation {
            origin: self.origin.clone(),
            target: self.target.clone(),
            expires_at: self.expires_at,
        }
    }
}

/// The delegations of a list, as the model sees them.
pub open spec fn grants(list: Seq<Delegation>) -> Seq<Grant> {
    list.map_values(|d: Delegation| d@)
}

/// No two delegations of the list share an origin or share a target.
pub open spec fn one_each(list: Seq<Delegation>) -> bool {
    forall|i: int, j: int|
        0 <= i < list.len() && 0 <= j < list.len() && i != j ==> (#[trigger] list[i]).origin@ != (
        #[trigger] list[j]).origin@ && list[i].target@ != list[j].target@
}

/// The name of an entry that the ledger may hold for an address: its balance,
/// the right delegated to it, or the mark that it has delegated its own.
#[derive(Debug)]
pub enum DataKey {
    Balance(Address),
    Allowance(Address),
    Blocking(Address),
}

impl DataKey {
    /// Whether a ledger holds the entry at the given sequence number: the
    /// balance if the address holds a token, the other two if the delegation
    /// still counts.
    pub open spec fn held_by(self, state: TokenState, sequence: nat) -> bool {
        match self {
            DataKey::Balance(addr) => state.balance(addr@) == 1,
            DataKey::Allowance(addr) => state.allowance(addr@, sequence),
            DataKey::Blocking(addr) => state.blocking(addr@, sequence),
        }
    }
}

/// Whether no two delegations of a list share an origin or share a target.
fn each_once(list: &Vec<Delegation>) -> (ok: bool)
    ensures
        ok == one_each(list@),
{
    let mut i: usize = 0;
    while i < list.len()
        invariant
            i <= list.len(),
            forall|a: int, b: int|
                0 <= a < b < i ==> (#[trigger] list[a]).origin@ != (#[trigger] list[b]).origin@
                    && list[a].target@ != list[b].target@,
        decreases list.len() - i,
    {
        let mut j: usize = 0;
        while j < i
            invariant
                j <= i < list.len(),
                forall|a: int|
                    0 <= a < j ==> (#[trigger] list[a]).origin@ != list[i as int].origin@
                        && list[a].target@ != list[i as int].target@,
            decreases i - j,
        {
            if list[j].origin == list[i].origin || list[j].target == list[i].target {
                return false;
            }
            j += 1;
        }
        i += 1;
    }
    assert forall|a: int, b: int|
        0 <= a < list.len() && 0 <= b < list.len() && a != b implies (#[trigger] list[a]).origin@
        != (#[trigger] list[b]).origin@ && list[a].target@ != list[b].target@ by {
        if a < b {
            assert(list[a].origin@ != list[b].origin@);
        } else {
            assert(list[b].origin@ != list[a].origin@);
        }
    }
    true
}

/// A copy of a list of delegations.
fn copy_delegations(list: &Vec<Delegation>) -> (copy: Vec<Delegation>)
    ensures
        copy@ == list@,
{
    let mut copy: Vec<Delegation> = Vec::new();
    let mut i: usize = 0;
    while i < list.len()
        invariant
            i <= list.len(),
            copy@ == list@.take(i as int),
        decreases list.len() - i,
    {
        copy.push(list[i].clone());
        assert(list@.take(i + 1) == list@.take(i as int).push(list[i as int]));
        i += 1;
    }
    assert(list@.take(list.len() as int) == list@);
    copy
}

/// The token ledger: each address holds one voting-right token or none, and a
/// holder may delegate its right to another holder for a time.
pub struct BallotToken {
    admin: Option<Address>,
    holders: Vec<Address>,
    delegations: Vec<Delegation>,
}

impl View for BallotToken {
    type V = TokenState;

    closed spec fn view(&self) -> TokenState {
        TokenState {
            admin: match self.admin {
                Some(a) => Some(a@),
                None => None,
            },
            holders: keys(self.holders@).to_set(),
            grants: grants(self.delegations@).to_set(),
        }
    }
}

/// Whether the ledger has an administrator.
fn has_admin(token: &BallotToken) -> (has_admin: bool)
    ensures
        has_admin == (token@.admin is Some),
{
    token.admin.is_some()
}

/// The balance of an address: what is on record for it, or nothing.
fn get_balance(token: &BallotToken, addr: &Address) -> (balance: u32)
    ensures
        balance == token@.balance(addr@),
{
    if contains(&token.holders, addr) {
        return 1;
    }
    0
}

/// Whether a live delegation to the address is on record.
fn get_allowance(token: &BallotToken, ledger: &Ledger, addr: &Address) -> (allowance: bool)
    ensures
        allowance == token@.allowance(addr@, ledger.sequence as nat),
{
    let list = &token.delegations;
    let mut i: usize = 0;
    while i < list.len()
        invariant
            i <= list.len(),
            *list == token.delegations,
            forall|j: int|
                0 <= j < i ==> !((#[trigger] list[j]).target@ == addr@ && list[j]@.live(
                    ledger.sequence as nat,
                )),
        decreases list.len() - i,
    {
        if list[i].target == *addr && ledger.sequence <= list[i].expires_at {
            proof {
                let g = list[i as int]@;
                assert(grants(list@)[i as int] == g);
                assert(token@.grants.contains(g));
            }
            return true;
        }
        i += 1;
    }
    proof {
        if token@.allowance(addr@, ledger.sequence as nat) {
            let g = choose|g: Grant| #[trigger]
                token@.grants.contains(g) && g.target == addr@ && g.live(ledger.sequence as nat);
            let j = choose|j: int| 0 <= j < grants(list@).len() && grants(list@)[j] == g;
            assert(list[j]@ == g);
        }
    }
    false
}

/// Whether a live delegation by the address is on record.
fn get_blocking(token: &BallotToken, ledger: &Ledger, addr: &Address) -> (blocking: bool)
    ensures
        blocking == token@.blocking(addr@, ledger.sequence as nat),
{
    let list = &token.delegations;
    let mut i: usize = 0;
    while i < list.len()
        invariant
            i <= list.len(),
            *list == token.delegations,
            forall|j: int|
                0 <= j < i ==> !((#[trigger] list[j]).origin@ == addr@ && list[j]@.live(
                    ledger.sequence as nat,
                )),
        decreases list.len() - i,
    {
        if list[i].origin == *addr && ledger.sequence <= list[i].expires_at {
            proof {
                let g = list[i as int]@;
                assert(grants(list@)[i as int] == g);
                assert(token@.grants.contains(g));
            }
            return true;
        }
        i += 1;
    }
    proof {
        if token@.blocking(addr@, ledger.sequence as nat) {
            let g = choose|g: Grant| #[trigger]
                token@.grants.contains(g) && g.origin == addr@ && g.live(ledger.sequence as nat);
            let j = choose|j: int| 0 <= j < grants(list@).len() && grants(list@)[j] == g;
            assert(list[j]@ == g);
        }
    }
    false
}

/// The delegations of a list that neither come from `origin` nor go to
/// `target`, in the order of the list.
fn unrelated(list: &Vec<Delegation>, origin: &Address, target: &Address) -> (kept: Vec<Delegation>)
    ensures
        grants(kept@).to_set() == grants(list@).to_set().filter(
            |g: Grant| g.apart(origin@, target@),
        ),
        one_each(list@) ==> one_each(kept@),
        forall|k: int| 0 <= k < kept.len() ==> (#[trigger] kept[k])@.apart(origin@, target@),
{
    let mut kept: Vec<Delegation> = Vec::new();
    let ghost mut from: Seq<int> = Seq::empty();
    let mut i: usize = 0;
    while i < list.len()
        invariant
            i <= list.len(),
            from.len() == kept.len(),
            forall|k: int| 0 <= k < kept.len() ==> 0 <= #[trigger] from[k] < i,
            forall|k: int| 0 <= k < kept.len() ==> (#[trigger] kept[k]) == list[from[k]],
            forall|k: int, l: int| 0 <= k < l < kept.len() ==> from[k] < from[l],
            forall|k: int| 0 <= k < kept.len() ==> (#[trigger] kept[k])@.apart(origin@, target@),
            forall|j: int|
                0 <= j < i && (#[trigger] list[j])@.apart(origin@, target@) ==> exists|k: int|
                    0 <= k < kept.len() && from[k] == j,
        decreases list.len() - i,
    {
        if !(list[i].origin == *origin) && !(list[i].target == *target) {
            let ghost from_before = from;
            kept.push(list[i].clone());
            proof {
                from = from.push(i as int);
                assert forall|j: int| 0 <= j < i + 1 && (#[trigger] list[j])@.apart(origin@, target@) implies exists|
                    k: int,
                |
                    0 <= k < kept.len() && from[k] == j by {
                    if j < i {
                        let k = choose|k: int| 0 <= k < from_before.len() && from_before[k] == j;
                        assert(from[k] == j);
                    } else {
                        assert(from[kept.len() - 1] == j);
                    }
                }
            }
        }
        i += 1;
    }
    proof {
        let a = grants(kept@).to_set();
        let b = grants(list@).to_set().filter(|g: Grant| g.apart(origin@, target@));
        assert forall|g: Grant| a.contains(g) <==> b.contains(g) by {
            if a.contains(g) {
                let k = choose|k: int| 0 <= k < grants(kept@).len() && grants(kept@)[k] == g;
                assert(kept[k]@ == g);
                assert(grants(list@)[from[k]] == g);
            }
            if b.contains(g) {
                let j = choose|j: int| 0 <= j < grants(list@).len() && grants(list@)[j] == g;
                assert(list[j]@.apart(origin@, target@));
                let k = choose|k: int| 0 <= k < kept.len() && from[k] == j;
                assert(grants(kept@)[k] == g);
            }
        }
        assert(a =~= b);
        if one_each(list@) {
            assert forall|k: int, l: int|
                0 <= k < kept.len() && 0 <= l < kept.len() && k != l implies (#[trigger] kept[k]).origin@
                != (#[trigger] kept[l]).origin@ && kept[k].target@ != kept[l].target@ by {
                assert(kept[k] == list[from[k]]);
                assert(kept[l] == list[from[l]]);
                if k < l {
                    assert(from[k] < from[l]);
                } else {
                    assert(from[l] < from[k]);
                }
            }
        }
    }
    kept
}

impl BallotToken {
    /// What holds of the ledger's own lists: no address is listed twice as a
    /// holder, and no two delegations share an origin or share a target.
    pub closed spec fn inv(&self) -> bool {
        &&& keys(self.holders@).no_duplicates()
        &&& one_each(self.delegations@)
    }

    /// What holds of the ledger at all times: its lists are in order, and its
    /// model is well formed.
    pub open spec fn wf(&self) -> bool {
        self.inv() && self@.wf()
    }

    /// A ledger whose lists are in order has a well-formed model.
    proof fn lemma_inv(&self)
        requires
            self.inv(),
        ensures
            self@.wf(),
    {
        vstd::seq_lib::seq_to_set_is_finite(keys(self.holders@));
        let list = self.delegations@;
        assert forall|g: Grant, h: Grant|
            self@.grants.contains(g) && self@.grants.contains(h) && (g.origin == h.origin
                || g.target == h.target) implies g == h by {
            let i = choose|i: int| 0 <= i < grants(list).len() && grants(list)[i] == g;
            let j = choose|j: int| 0 <= j < grants(list).len() && grants(list)[j] == h;
            assert(list[i]@ == g && list[j]@ == h);
        }
    }

    /// A ledger without administrator, holders or delegations.
    pub fn new() -> (token: BallotToken)
        ensures
            token.wf(),
            token@ == TokenState::empty(),
    {
        let token = BallotToken { admin: None, holders: Vec::new(), delegations: Vec::new() };
        assert(keys(token.holders@).to_set() =~= Set::<Seq<char>>::empty());
        assert(grants(token.delegations@).to_set() =~= Set::<Grant>::empty());
        proof {
            token.lemma_inv();
        }
        token
    }

    /// The ledger with the given administrator, holders and delegations, if
    /// no holder is listed twice and no two delegations share an origin or
    /// share a target.
    pub fn from_parts(
        admin: Option<Address>,
        holders: Vec<Address>,
        delegations: Vec<Delegation>,
    ) -> (token: Option<BallotToken>)
        ensures
            token is Some <==> keys(holders@).no_duplicates() && one_each(delegations@),
            token matches Some(t) ==> t.wf() && t@ == (TokenState {
                admin: match admin {
                    Some(a) => Some(a@),
                    None => None,
                },
                holders: keys(holders@).to_set(),
                grants: grants(delegations@).to_set(),
            }),
    {
        if !distinct(&holders) {
            return None;
        }
        if !each_once(&delegations) {
            return None;
        }
        let token = BallotToken { admin, holders, delegations };
        proof {
            token.lemma_inv();
        }
        Some(token)
    }

    /// The administrator of the ledger, if one is on record.
    pub fn admin(&self) -> (admin: Option<Address>)
        ensures
            self@.admin == match admin {
                Some(a) => Some(a@),
                None => None,
            },
    {
        match &self.admin {
            Some(a) => Some(a.clone()),
            None => None,
        }
    }

    /// The addresses that hold a token, each once.
    pub fn holders(&self) -> (holders: Vec<Address>)
        requires
            self.wf(),
        ensures
            keys(holders@).no_duplicates(),
            keys(holders@).to_set() == self@.holders,
    {
        copy_list(&self.holders)
    }

    /// The delegations on record, those that have run out included. No two
    /// share an origin or share a target.
    pub fn delegations(&self) -> (delegations: Vec<Delegation>)
        requires
            self.wf(),
        ensures
            one_each(delegations@),
            grants(delegations@).to_set() == self@.grants,
    {
        copy_delegations(&self.delegations)
    }

    /// Records the administrator of the ledger. This can be done once.
    pub fn initialize(&mut self, admin: Address) -> (done: Result<bool, Error>)
        requires
            old(self).wf(),
        ensures
            final(self).wf(),
            match old(self)@.initialize(admin@) {
                Ok(next) => done == Ok::<bool, Error>(true) && final(self)@ == next,
                Err(e) => done == Err::<bool, Error>(e) && final(self)@ == old(self)@,
            },
    {
        if has_admin(self) {
            return Err(Error::TokenAlreadyInitialized);
        }
        self.admin = Some(admin);
        proof {
            self.lemma_inv();
        }
        Ok(true)
    }

    /// Issues a token to an address that holds none and returns its new
    /// balance. The caller has made sure that the administrator asks for it.
    pub fn mint(&mut self, addr: Address) -> (minted: Result<u32, Error>)
        requires
            old(self).wf(),
            old(self)@.admin is Some,
        ensures
            final(self).wf(),
            match old(self)@.mint(addr@) {
                Ok(next) => minted == Ok::<u32, Error>(1) && final(self)@ == next,
                Err(e) => minted == Err::<u32, Error>(e) && final(self)@ == old(self)@,
            },
    {
        if get_balance(self, &addr) > 0 {
            return Err(Error::AddressAlreadyHoldsToken);
        }
        let amount: u32 = 1;
        proof {
            lemma_push_fresh(keys(self.holders@), addr@);
            assert(keys(self.holders@.push(addr)) =~= keys(self.holders@).push(addr@));
        }
        self.holders.push(addr);
        proof {
            self.lemma_inv();
        }
        Ok(amount)
    }

    /// The number of tokens an address holds: one or none.
    pub fn balance(&self, addr: Address) -> (balance: u32)
        ensures
            balance == self@.balance(addr@),
            balance == 0 || balance == 1,
    {
        let b: u32 = get_balance(self, &addr);
        b
    }

    /// The number of tokens in existence.
    pub fn total_supply(&self) -> (supply: usize)
        requires
            self.wf(),
        ensures
            supply == self@.supply(),
    {
        proof {
            keys(self.holders@).unique_seq_to_set();
        }
        self.holders.len()
    }

    /// Moves the token of `from` to `to`, which must hold none. The caller
    /// has made sure that `from` asks for it.
    pub fn transfer(&mut self, from: Address, to: Address) -> (done: Result<bool, Error>)
        requires
            old(self).wf(),
        ensures
            final(self).wf(),
            match old(self)@.transfer(from@, to@) {
                Ok(next) => done == Ok::<bool, Error>(true) && final(self)@ == next,
                Err(e) => done == Err::<bool, Error>(e) && final(self)@ == old(self)@,
            },
    {
        if get_balance(self, &from) == 0 {
            return Err(Error::AddressDoesNotHoldToken);
        }
        if get_balance(self, &to) > 0 {
            return Err(Error::AddressAlreadyHoldsToken);
        }
        self.remove_holder(&from);
        proof {
            lemma_push_fresh(keys(self.holders@), to@);
            assert(keys(self.holders@.push(to)) =~= keys(self.holders@).push(to@));
        }
        self.holders.push(to);
        proof {
            self.lemma_inv();
        }
        Ok(true)
    }

    /// Records that `from` delegates its right to `spender` up to and
    /// including the ledger with sequence number `expiration`. Both must hold
    /// a token, `from` must not have a live delegation of its own and
    /// `spender` must not have received one. The caller has made sure that
    /// `from` asks for it.
    pub fn approve(
        &mut self,
        ledger: &Ledger,
        from: Address,
        spender: Address,
        expiration: u32,
    ) -> (done: Result<bool, Error>)
        requires
            old(self).wf(),
        ensures
            final(self).wf(),
            match old(self)@.approve(
                ledger.sequence as nat,
                from@,
                spender@,
                expiration as nat,
            ) {
                Ok(next) => done == Ok::<bool, Error>(true) && final(self)@ == next,
                Err(e) => done == Err::<bool, Error>(e) && final(self)@ == old(self)@,
            },
    {
        if expiration < ledger.sequence {
            return Err(Error::ExpirationLedgerLessThanCurrentLedger);
        }
        if get_blocking(self, ledger, &from) {
            return Err(Error::AddressAlreadyHasAllowance);
        }
        if get_allowance(self, ledger, &spender) {
            return Err(Error::AddressAlreadyHasAllowance);
        }
        if get_balance(self, &from) < 1 {
            return Err(Error::AddressDoesNotHoldToken);
        }
        if get_balance(self, &spender) < 1 {
            return Err(Error::AddressDoesNotHoldToken);
        }
        let mut kept = unrelated(&self.delegations, &from, &spender);
        let record = Delegation { origin: from, target: spender, expires_at: expiration };
        proof {
            let before = kept@;
            let after = before.push(record);
            assert(grants(after) =~= grants(before).push(record@));
            grants(before).lemma_push_to_set_commute(record@);
            assert forall|i: int, j: int|
                0 <= i < after.len() && 0 <= j < after.len() && i != j implies (#[trigger] after[i]).origin@
                != (#[trigger] after[j]).origin@ && after[i].target@ != after[j].target@ by {
                if i < before.len() {
                    assert(after[i] == before[i]);
                }
                if j < before.len() {
                    assert(after[j] == before[j]);
                }
            }
        }
        kept.push(record);
        self.delegations = kept;
        proof {
            self.lemma_inv();
        }
        Ok(true)
    }

    /// Whether the address holds a right delegated to it that still counts at
    /// this ledger.
    pub fn allowance(&self, ledger: &Ledger, addr: Address) -> (allowance: bool)
        ensures
            allowance == self@.allowance(addr@, ledger.sequence as nat),
    {
        let allowance = get_allowance(self, ledger, &addr);
        allowance
    }

    /// Whether the address has delegated its right away and the delegation
    /// still counts at this ledger.
    pub fn blocking(&self, ledger: &Ledger, addr: Address) -> (blocking: bool)
        ensures
            blocking == self@.blocking(addr@, ledger.sequence as nat),
    {
        let blocking = get_blocking(self, ledger, &addr);
        blocking
    }

    /// Whether the ledger holds the entry of this name at this ledger.
    pub fn has(&self, ledger: &Ledger, key: &DataKey) -> (held: bool)
        ensures
            held == key.held_by(self@, ledger.sequence as nat),
    {
        match key {
            DataKey::Balance(addr) => get_balance(self, addr) > 0,
            DataKey::Allowance(addr) => get_allowance(self, ledger, addr),
            DataKey::Blocking(addr) => get_blocking(self, ledger, addr),
        }
    }

    /// What the ledger reports of an address at this ledger.
    pub fn standing(&self, ledger: &Ledger, addr: &Address) -> (standing: Standing)
        ensures
            standing == self@.standing(addr@, ledger.sequence as nat),
    {
        Standing {
            balance: get_balance(self, addr),
            blocking: get_blocking(self, ledger, addr),
            allowance: get_allowance(self, ledger, addr),
        }
    }

    /// Takes the token of an address out of existence, if it holds one. The
    /// caller has made sure that the administrator asks for it.
    pub fn burn(&mut self, addr: Address)
        requires
            old(self).wf(),
            old(self)@.admin is Some,
        ensures
            final(self).wf(),
            final(self)@ == old(self)@.burn(addr@),
    {
        self.remove_holder(&addr);
    }

    /// Strikes an address from the holders, if it is one.
    fn remove_holder(&mut self, addr: &Address)
        requires
            old(self).wf(),
        ensures
            final(self).wf(),
            final(self)@ == old(self)@.burn(addr@),
    {
        match position(&self.holders, addr) {
            Some(at) => {
                proof {
                    lemma_remove_unique(keys(self.holders@), at as int);
                    assert(keys(self.holders@.remove(at as int)) =~= keys(self.holders@).remove(
                        at as int,
                    ));
                    assert(keys(self.holders@)[at as int] == addr@);
                }
                self.holders.remove(at);
                proof {
                    self.lemma_inv();
                }
            },
            None => {
                assert(keys(self.holders@).to_set().remove(addr@) =~= keys(
                    self.holders@,
                ).to_set());
            },
        }
    }
}

} // verus!
