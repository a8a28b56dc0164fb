//! A per-tag escrow ledger for a single token.
//!
//! Deposits and withdrawals are scoped to a caller-defined `tag`, so a
//! withdrawal can never draw down more than was specifically deposited
//! under that tag, whatever the vault's raw token balance holds for other
//! tags. The running total of all tags' balances is kept alongside.
use vstd::prelude::*;
use crate::ids::{AccountId, Party, Payment};

verus! {

/// Ways a vault operation can be refused.
#[derive(Clone, Copy, Debug, PartialEq, Eq, Structural)]
pub enum Error {
    AlreadyInitialized,
    InvalidAmount,
    InsufficientEscrowBalance,
    ContractPaused,
    NoUntaggedFunds,
    Unauthorized,
}

/// The number under which each error is reported to callers.
pub open spec fn error_number(e: Error) -> u32 {
    match e {
        Error::AlreadyInitialized => 1,
        Error::InvalidAmount => 2,
        Error::InsufficientEscrowBalance => 3,
        Error::ContractPaused => 4,
        Error::NoUntaggedFunds => 5,
        Error::Unauthorized => 6,
    }
}

impl Error {
    /// The number under which this error is reported to callers.
    pub fn code(&self) -> (c: u32)
        ensures
            c == error_number(*self),
    {
        match self {
            Error::AlreadyInitialized => 1,
            Error::InvalidAmount => 2,
            Error::InsufficientEscrowBalance => 3,
            Error::ContractPaused => 4,
            Error::NoUntaggedFunds => 5,
            Error::Unauthorized => 6,
        }
    }
}

/// The escrowed balance recorded under one tag.
#[derive(Clone, Copy, Debug, PartialEq, Eq, Structural)]
pub struct EscrowEntry {
    pub tag: u64,
    pub amount: i128,
}

/// The stored state of a vault, field by field, as it is persisted
/// between calls.
pub struct VaultParts {
    pub admin: Option<AccountId>,
    pub token: Option<AccountId>,
    pub paused: bool,
    pub ledger: Vec<EscrowEntry>,
    pub total_escrowed: i128,
}

/// The stored state of one vault deployment.
pub struct Vault {
    admin: Option<AccountId>,
    token: Option<AccountId>,
    paused: bool,
    ledger: Vec<EscrowEntry>,
    total_escrowed: i128,
}

/// The balance recorded for `tag` in `l` (zero when absent).
pub open spec fn tag_balance(l: Seq<EscrowEntry>, tag: u64) -> int
    decreases l.len(),
{
    if l.len() == 0 {
        0
    } else if l.last().tag == tag {
        l.last().amount as int
    } else {
        tag_balance(l.drop_last(), tag)
    }
}

/// The sum of all amounts in `l`.
pub open spec fn ledger_sum(l: Seq<EscrowEntry>) -> int
    decreases l.len(),
{
    if l.len() == 0 {
        0
    } else {
        ledger_sum(l.drop_last()) + l.last().amount
    }
}

/// No tag has two entries.
pub open spec fn tags_distinct(l: Seq<EscrowEntry>) -> bool {
    forall|i: int, j: int| 0 <= i < j < l.len() ==> #[trigger] l[i].tag != #[trigger] l[j].tag
}

/// No entry is negative.
pub open spec fn amounts_nonneg(l: Seq<EscrowEntry>) -> bool {
    forall|i: int| 0 <= i < l.len() ==> #[trigger] l[i].amount >= 0
}

/// The tags of the entries, in order.
pub open spec fn tags_of(l: Seq<EscrowEntry>) -> Seq<u64> {
    l.map_values(|e: EscrowEntry| e.tag)
}

proof fn lemma_lookup(l: Seq<EscrowEntry>, i: int)
    requires
        tags_distinct(l),
        0 <= i < l.len(),
    ensures
        tag_balance(l, l[i].tag) == l[i].amount,
    decreases l.len(),
{
    if i != l.len() - 1 {
        assert(l.last().tag != l[i].tag);
        assert(l.drop_last()[i] == l[i]);
        lemma_lookup(l.drop_last(), i);
    }
}

proof fn lemma_absent(l: Seq<EscrowEntry>, tag: u64)
    requires
        forall|i: int| 0 <= i < l.len() ==> #[trigger] l[i].tag != tag,
    ensures
        tag_balance(l, tag) == 0,
    decreases l.len(),
{
    if l.len() != 0 {
        let d = l.drop_last();
        assert forall|i: int| 0 <= i < d.len() implies #[trigger] d[i].tag != tag by {
            assert(d[i] == l[i]);
        }
        lemma_absent(d, tag);
    }
}

proof fn lemma_update(l: Seq<EscrowEntry>, i: int, e: EscrowEntry)
    requires
        tags_distinct(l),
        0 <= i < l.len(),
        e.tag == l[i].tag,
    ensures
        forall|x: u64| #[trigger] tag_balance(l.update(i, e), x) == if x == e.tag {
            e.amount as int
        } else {
            tag_balance(l, x)
        },
        ledger_sum(l.update(i, e)) == ledger_sum(l) - l[i].amount + e.amount,
    decreases l.len(),
{
    let u = l.update(i, e);
    if i == l.len() - 1 {
        assert(u.drop_last() =~= l.drop_last());
    } else {
        assert(u.drop_last() =~= l.drop_last().update(i, e));
        assert(l.last().tag != l[i].tag);
        assert(l.drop_last()[i] == l[i]);
        lemma_update(l.drop_last(), i, e);
        assert(u.last() == l.last());
        assert forall|x: u64| #[trigger] tag_balance(u, x) == if x == e.tag {
            e.amount as int
        } else {
            tag_balance(l, x)
        } by {
            assert(tag_balance(u.drop_last(), x) == tag_balance(l.drop_last().update(i, e), x));
        }
    }
}

proof fn lemma_push(l: Seq<EscrowEntry>, e: EscrowEntry)
    ensures
        forall|x: u64| #[trigger] tag_balance(l.push(e), x) == if x == e.tag {
            e.amount as int
        } else {
            tag_balance(l, x)
        },
        ledger_sum(l.push(e)) == ledger_sum(l) + e.amount,
{
    assert(l.push(e).drop_last() =~= l);
}

proof fn lemma_entries_within_sum(l: Seq<EscrowEntry>, i: int, j: int)
    requires
        amounts_nonneg(l),
        0 <= i < l.len(),
        0 <= j < l.len(),
    ensures
        0 <= l[i].amount <= ledger_sum(l),
        i != j ==> l[i].amount + l[j].amount <= ledger_sum(l),
        ledger_sum(l) >= 0,
    decreases l.len(),
{
    let d = l.drop_last();
    assert forall|k: int| 0 <= k < d.len() implies #[trigger] d[k].amount >= 0 by {
        assert(d[k] == l[k]);
    }
    if l.len() == 1 {
        assert(ledger_sum(d) == 0);
    } else {
        let n = l.len() - 1;
        let i2 = if i == n { 0 } else { i };
        let j2 = if j == n { 0 } else { j };
        lemma_entries_within_sum(d, i2, j2);
        if i < n {
            assert(d[i] == l[i]);
        }
        if j < n {
            assert(d[j] == l[j]);
        }
        if i < n && j < n && i != j {
            lemma_entries_within_sum(d, i, j);
        }
    }
}

impl Vault {
    /// Whether `initialize` has succeeded on this deployment.
    pub closed spec fn is_initialized(&self) -> bool {
        self.admin is Some
    }

    /// The address that gates withdrawals and configuration.
    pub closed spec fn admin_id(&self) -> AccountId {
        self.admin.unwrap()
    }

    /// The token this vault escrows.
    pub closed spec fn token_id(&self) -> AccountId {
        self.token.unwrap()
    }

    /// Whether deposits and withdrawals are frozen.
    pub closed spec fn paused_flag(&self) -> bool {
        self.paused
    }

    /// The amount escrowed under `tag` (zero for a tag never credited).
    pub closed spec fn balance(&self, tag: u64) -> int {
        tag_balance(self.ledger@, tag)
    }

    /// The recorded total of everything escrowed.
    pub closed spec fn total(&self) -> int {
        self.total_escrowed as int
    }

    /// Every tag ever credited, each once, in the order first credited.
    pub closed spec fn tags(&self) -> Seq<u64> {
        tags_of(self.ledger@)
    }

    /// The sum of the balances of the given tags.
    pub open spec fn sum_of_balances(&self, tags: Seq<u64>) -> int
        decreases tags.len(),
    {
        if tags.len() == 0 {
            0
        } else {
            self.sum_of_balances(tags.drop_last()) + self.balance(tags.last())
        }
    }

    /// The internal consistency every reachable state keeps.
    pub closed spec fn wf(&self) -> bool {
        &&& (self.admin is Some) == (self.token is Some)
        &&& self.admin is None ==> self.ledger@.len() == 0
        &&& tags_distinct(self.ledger@)
        &&& amounts_nonneg(self.ledger@)
        &&& self.total_escrowed == ledger_sum(self.ledger@)
    }

    /// Two states with the same configuration (initialization, admin, token, pause flag).
    pub open spec fn same_config(&self, other: &Vault) -> bool {
        &&& self.is_initialized() == other.is_initialized()
        &&& self.admin_id() == other.admin_id()
        &&& self.token_id() == other.token_id()
        &&& self.paused_flag() == other.paused_flag()
    }

    /// `post` is `self` with `amount` more escrowed under `tag`.
    pub open spec fn credits(&self, post: &Vault, tag: u64, amount: int) -> bool {
        &&& post.same_config(self)
        &&& post.total() == self.total() + amount
        &&& forall|t: u64| #[trigger] post.balance(t) == if t == tag {
            self.balance(tag) + amount
        } else {
            self.balance(t)
        }
    }

    /// `post` is `self` with `amount` less escrowed under `tag`.
    pub open spec fn debits(&self, post: &Vault, tag: u64, amount: int) -> bool {
        &&& post.same_config(self)
        &&& post.total() == self.total() - amount
        &&& forall|t: u64| #[trigger] post.balance(t) == if t == tag {
            self.balance(tag) - amount
        } else {
            self.balance(t)
        }
    }

    /// `post` is `self` with `amount` re-earmarked from `from_tag` to `to_tag`.
    pub open spec fn moves(&self, post: &Vault, from_tag: u64, to_tag: u64, amount: int) -> bool {
        &&& post.same_config(self)
        &&& post.total() == self.total()
        &&& forall|t: u64| #[trigger] post.balance(t) == if from_tag == to_tag {
            self.balance(t)
        } else if t == from_tag {
            self.balance(from_tag) - amount
        } else if t == to_tag {
            self.balance(to_tag) + amount
        } else {
            self.balance(t)
        }
    }

    proof fn lemma_balance_bounds(&self, t1: u64, t2: u64)
        requires
            self.wf(),
        ensures
            0 <= self.balance(t1) <= self.total(),
            t1 != t2 ==> self.balance(t1) + self.balance(t2) <= self.total(),
    {
        let l = self.ledger@;
        let has1 = exists|i: int| 0 <= i < l.len() && l[i].tag == t1;
        let has2 = exists|i: int| 0 <= i < l.len() && l[i].tag == t2;
        if l.len() == 0 {
            lemma_absent(l, t1);
            lemma_absent(l, t2);
        } else {
            if has1 {
                let i = choose|i: int| 0 <= i < l.len() && l[i].tag == t1;
                lemma_lookup(l, i);
                if has2 {
                    let j = choose|j: int| 0 <= j < l.len() && l[j].tag == t2;
                    lemma_lookup(l, j);
                    lemma_entries_within_sum(l, i, j);
                } else {
                    lemma_absent(l, t2);
                    lemma_entries_within_sum(l, i, i);
                }
            } else {
                lemma_absent(l, t1);
                lemma_entries_within_sum(l, 0, 0);
                if has2 {
                    let j = choose|j: int| 0 <= j < l.len() && l[j].tag == t2;
                    lemma_lookup(l, j);
                    lemma_entries_within_sum(l, j, j);
                } else {
                    lemma_absent(l, t2);
                }
            }
        }
    }


    /// Same escrow: every tag's balance and the recorded total agree.
    pub open spec fn same_escrow(&self, other: &Vault) -> bool {
        &&& self.total() == other.total()
        &&& forall|t: u64| #[trigger] self.balance(t) == other.balance(t)
    }

    proof fn lemma_prefix_sum(&self, k: int)
        requires
            self.wf(),
            0 <= k <= self.ledger@.len(),
        ensures
            self.sum_of_balances(tags_of(self.ledger@.subrange(0, k))) == ledger_sum(
                self.ledger@.subrange(0, k),
            ),
        decreases k,
    {
        let l = self.ledger@;
        let p = l.subrange(0, k);
        if k > 0 {
            self.lemma_prefix_sum(k - 1);
            assert(p.drop_last() =~= l.subrange(0, k - 1));
            assert(tags_of(p).drop_last() =~= tags_of(l.subrange(0, k - 1)));
            assert(tags_of(p).last() == l[k - 1].tag);
            lemma_lookup(l, k - 1);
        }
    }

    /// Whether `initialize` has succeeded on this deployment.
    pub fn initialized(&self) -> (r: bool)
        ensures
            r == self.is_initialized(),
    {
        self.admin.is_some()
    }

    /// A deployment on which `initialize` has not yet run.
    pub fn new() -> (r: Vault)
        ensures
            r.wf(),
            !r.is_initialized(),
            !r.paused_flag(),
            r.total() == 0,
            r.tags() == Seq::<u64>::empty(),
            forall|t: u64| #[trigger] r.balance(t) == 0,
    {
        let r = Vault { admin: None, token: None, paused: false, ledger: Vec::new(), total_escrowed: 0 };
        assert forall|t: u64| #[trigger] r.balance(t) == 0 by {
            lemma_absent(r.ledger@, t);
        }
        assert(r.tags() =~= Seq::<u64>::empty());
        r
    }

    /// Sets the admin and the escrowed token, once. The caller has already
    /// authenticated `admin`.
    pub fn initialize(&mut self, admin: AccountId, token: AccountId) -> (r: Result<(), Error>)
        requires
            old(self).wf(),
        ensures
            final(self).wf(),
            r is Err <==> old(self).is_initialized(),
            r is Err ==> r == Err::<(), Error>(Error::AlreadyInitialized) && *final(self) == *old(self),
            r is Ok ==> {
                &&& final(self).is_initialized()
                &&& final(self).admin_id() == admin
                &&& final(self).token_id() == token
                &&& final(self).paused_flag() == old(self).paused_flag()
                &&& final(self).total() == 0
                &&& forall|t: u64| #[trigger] final(self).balance(t) == old(self).balance(t)
            },
    {
        if self.admin.is_some() {
            return Err(Error::AlreadyInitialized);
        }
        self.admin = Some(admin);
        self.token = Some(token);
        self.total_escrowed = 0;
        Ok(())
    }
    /// The position of `tag`'s ledger entry, if it has one.
    fn find_tag(&self, tag: u64) -> (r: Option<usize>)
        requires
            tags_distinct(self.ledger@),
        ensures
            match r {
                Some(i) => i < self.ledger@.len() && self.ledger@[i as int].tag == tag
                    && self.balance(tag) == self.ledger@[i as int].amount,
                None => self.balance(tag) == 0 && forall|i: int|
                    0 <= i < self.ledger@.len() ==> #[trigger] self.ledger@[i].tag != tag,
            },
    {
        let mut i: usize = 0;
        while i < self.ledger.len()
            invariant
                tags_distinct(self.ledger@),
                i <= self.ledger@.len(),
                forall|k: int| 0 <= k < i ==> #[trigger] self.ledger@[k].tag != tag,
            decreases self.ledger@.len() - i,
        {
            if self.ledger[i].tag == tag {
                proof {
                    lemma_lookup(self.ledger@, i as int);
                }
                return Some(i);
            }
            i = i + 1;
        }
        proof {
            lemma_absent(self.ledger@, tag);
        }
        None
    }

    /// Records `value` as `tag`'s balance, leaving every other tag and the
    /// recorded total as they were.
    fn set_balance(&mut self, tag: u64, value: i128)
        requires
            tags_distinct(old(self).ledger@),
            amounts_nonneg(old(self).ledger@),
            value >= 0,
        ensures
            tags_distinct(final(self).ledger@),
            amounts_nonneg(final(self).ledger@),
            final(self).admin == old(self).admin,
            final(self).token == old(self).token,
            final(self).paused == old(self).paused,
            final(self).total_escrowed == old(self).total_escrowed,
            final(self).ledger@.len() >= old(self).ledger@.len(),
            forall|x: u64| #[trigger] final(self).balance(x) == if x == tag {
                value as int
            } else {
                old(self).balance(x)
            },
            ledger_sum(final(self).ledger@) == ledger_sum(old(self).ledger@) - old(self).balance(tag)
                + value,
    {
        let e = EscrowEntry { tag, amount: value };
        match self.find_tag(tag) {
            Some(i) => {
                let ghost l = self.ledger@;
                self.ledger.set(i, e);
                proof {
                    lemma_update(l, i as int, e);
                    assert forall|p: int, q: int| 0 <= p < q < self.ledger@.len() implies
                        #[trigger] self.ledger@[p].tag != #[trigger] self.ledger@[q].tag by {
                        assert(l[p].tag != l[q].tag);
                    }
                    assert forall|k: int| 0 <= k < self.ledger@.len() implies #[trigger] self.ledger@[k].amount
                        >= 0 by {
                        if k != i {
                            assert(self.ledger@[k] == l[k]);
                        }
                    }
                }
            },
            None => {
                let ghost l = self.ledger@;
                self.ledger.push(e);
                proof {
                    lemma_push(l, e);
                    assert forall|p: int, q: int| 0 <= p < q < self.ledger@.len() implies
                        #[trigger] self.ledger@[p].tag != #[trigger] self.ledger@[q].tag by {
                        if q < l.len() {
                            assert(l[p].tag != l[q].tag);
                        } else {
                            assert(self.ledger@[p] == l[p]);
                        }
                    }
                    assert forall|k: int| 0 <= k < self.ledger@.len() implies #[trigger] self.ledger@[k].amount
                        >= 0 by {
                        if k < l.len() {
                            assert(self.ledger@[k] == l[k]);
                        }
                    }
                }
            },
        }
    }

    /// `tag`'s balance, read straight from the ledger.
    fn lookup(&self, tag: u64) -> (r: i128)
        requires
            tags_distinct(self.ledger@),
            amounts_nonneg(self.ledger@),
        ensures
            r == self.balance(tag),
            r >= 0,
    {
        match self.find_tag(tag) {
            Some(i) => self.ledger[i].amount,
            None => 0,
        }
    }

    /// The current balance of `tag`.
    pub fn balance_of(&self, tag: u64) -> (r: i128)
        requires
            self.wf(),
        ensures
            r == self.balance(tag),
    {
        match self.find_tag(tag) {
            Some(i) => self.ledger[i].amount,
            None => 0,
        }
    }

    /// The recorded total of everything escrowed.
    pub fn get_total_escrowed(&self) -> (r: i128)
        requires
            self.wf(),
            self.is_initialized(),
        ensures
            r == self.total(),
    {
        self.total_escrowed
    }

    /// The admin address.
    pub fn get_admin(&self) -> (r: AccountId)
        requires
            self.is_initialized(),
        ensures
            r == self.admin_id(),
    {
        self.admin.unwrap()
    }

    /// The escrowed token.
    pub fn get_token(&self) -> (r: AccountId)
        requires
            self.wf(),
            self.is_initialized(),
        ensures
            r == self.token_id(),
    {
        self.token.unwrap()
    }

    /// Whether deposits and withdrawals are frozen.
    pub fn is_paused(&self) -> (r: bool)
        ensures
            r == self.paused_flag(),
    {
        self.paused
    }

    /// Hands control to `new_admin`. The caller has already authenticated
    /// the current admin.
    pub fn transfer_admin(&mut self, new_admin: AccountId)
        requires
            old(self).wf(),
            old(self).is_initialized(),
        ensures
            final(self).wf(),
            final(self).is_initialized(),
            final(self).admin_id() == new_admin,
            final(self).token_id() == old(self).token_id(),
            final(self).paused_flag() == old(self).paused_flag(),
            final(self).same_escrow(&*old(self)),
    {
        self.admin = Some(new_admin);
    }

    /// `transfer_admin` authorized by a multisig approval instead of the
    /// admin's signature; `approved` is what the multisig reported.
    ///
    /// Refused with `Unauthorized` when the action is not approved.
    pub fn transfer_admin_via_multisig(&mut self, approved: bool, new_admin: AccountId) -> (r: Result<(), Error>)
        requires
            old(self).wf(),
            approved ==> old(self).is_initialized(),
        ensures
            final(self).wf(),
            r is Ok <==> approved,
            !approved ==> r == Err::<(), Error>(Error::Unauthorized) && *final(self) == *old(self),
            approved ==> {
                &&& final(self).is_initialized()
                &&& final(self).admin_id() == new_admin
                &&& final(self).token_id() == old(self).token_id()
                &&& final(self).paused_flag() == old(self).paused_flag()
                &&& final(self).same_escrow(&*old(self))
            },
    {
        if !approved {
            return Err(Error::Unauthorized);
        }
        self.admin = Some(new_admin);
        Ok(())
    }

    /// Freezes deposits and withdrawals. The caller has already
    /// authenticated the admin.
    pub fn pause(&mut self)
        requires
            old(self).wf(),
            old(self).is_initialized(),
        ensures
            final(self).wf(),
            final(self).paused_flag(),
            final(self).is_initialized(),
            final(self).admin_id() == old(self).admin_id(),
            final(self).token_id() == old(self).token_id(),
            final(self).same_escrow(&*old(self)),
    {
        self.paused = true;
    }

    /// Lifts the freeze. The caller has already authenticated the admin.
    pub fn unpause(&mut self)
        requires
            old(self).wf(),
            old(self).is_initialized(),
        ensures
            final(self).wf(),
            !final(self).paused_flag(),
            final(self).is_initialized(),
            final(self).admin_id() == old(self).admin_id(),
            final(self).token_id() == old(self).token_id(),
            final(self).same_escrow(&*old(self)),
    {
        self.paused = false;
    }

    /// `pause` authorized by a multisig approval; refused with
    /// `Unauthorized` when not approved.
    pub fn pause_via_multisig(&mut self, approved: bool) -> (r: Result<(), Error>)
        requires
            old(self).wf(),
        ensures
            final(self).wf(),
            r is Ok <==> approved,
            !approved ==> r == Err::<(), Error>(Error::Unauthorized) && *final(self) == *old(self),
            approved ==> {
                &&& final(self).paused_flag()
                &&& final(self).is_initialized() == old(self).is_initialized()
                &&& final(self).admin_id() == old(self).admin_id()
                &&& final(self).token_id() == old(self).token_id()
                &&& final(self).same_escrow(&*old(self))
            },
    {
        if !approved {
            return Err(Error::Unauthorized);
        }
        self.paused = true;
        Ok(())
    }

    /// `unpause` authorized by a multisig approval; refused with
    /// `Unauthorized` when not approved.
    pub fn unpause_via_multisig(&mut self, approved: bool) -> (r: Result<(), Error>)
        requires
            old(self).wf(),
        ensures
            final(self).wf(),
            r is Ok <==> approved,
            !approved ==> r == Err::<(), Error>(Error::Unauthorized) && *final(self) == *old(self),
            approved ==> {
                &&& !final(self).paused_flag()
                &&& final(self).is_initialized() == old(self).is_initialized()
                &&& final(self).admin_id() == old(self).admin_id()
                &&& final(self).token_id() == old(self).token_id()
                &&& final(self).same_escrow(&*old(self))
            },
    {
        if !approved {
            return Err(Error::Unauthorized);
        }
        self.paused = false;
        Ok(())
    }

    /// Credits `amount` to `tag`; the vault pulls the same amount of its
    /// token from `from`. The caller has already authenticated `from`.
    ///
    /// Refused with `ContractPaused` while paused, then with
    /// `InvalidAmount` for a non-positive amount.
    pub fn deposit(&mut self, from: AccountId, tag: u64, amount: i128) -> (r: Result<Payment, Error>)
        requires
            old(self).wf(),
            !old(self).paused_flag() && amount > 0 ==> old(self).is_initialized() && old(self).total()
                + amount <= i128::MAX,
        ensures
            final(self).wf(),
            old(self).paused_flag() ==> r == Err::<Payment, Error>(Error::ContractPaused),
            !old(self).paused_flag() && amount <= 0 ==> r == Err::<Payment, Error>(Error::InvalidAmount),
            r is Ok <==> !old(self).paused_flag() && amount > 0,
            r is Ok ==> r == Ok::<Payment, Error>(
                (Payment { from: Party::Account(from), to: Party::Contract, amount }),
            ) && old(self).credits(&*final(self), tag, amount as int),
            r is Err ==> *final(self) == *old(self),
    {
        if self.paused {
            return Err(Error::ContractPaused);
        }
        if amount <= 0 {
            return Err(Error::InvalidAmount);
        }
        proof {
            self.lemma_balance_bounds(tag, tag);
        }
        let current = self.balance_of(tag);
        self.total_escrowed = self.total_escrowed + amount;
        self.set_balance(tag, current + amount);
        Ok(Payment { from: Party::Account(from), to: Party::Contract, amount })
    }

    /// Takes `amount` off `tag`'s balance and off the total. Shared by
    /// both withdrawal paths once authorization has been settled.
    fn debit(&mut self, tag: u64, amount: i128) -> (r: Result<(), Error>)
        requires
            old(self).wf(),
        ensures
            final(self).wf(),
            amount <= 0 ==> r == Err::<(), Error>(Error::InvalidAmount),
            amount > 0 && old(self).balance(tag) < amount ==> r == Err::<(), Error>(
                Error::InsufficientEscrowBalance,
            ),
            r is Ok <==> 0 < amount <= old(self).balance(tag),
            r is Ok ==> old(self).debits(&*final(self), tag, amount as int),
            r is Err ==> *final(self) == *old(self),
    {
        if amount <= 0 {
            return Err(Error::InvalidAmount);
        }
        let current = self.balance_of(tag);
        if current < amount {
            return Err(Error::InsufficientEscrowBalance);
        }
        proof {
            self.lemma_balance_bounds(tag, tag);
        }
        self.total_escrowed = self.total_escrowed - amount;
        self.set_balance(tag, current - amount);
        Ok(())
    }

    /// Pays `amount` of `tag`'s escrow out to `to`. The caller has already
    /// authenticated the admin.
    ///
    /// Refused with `ContractPaused` while paused, then `InvalidAmount` for
    /// a non-positive amount, then `InsufficientEscrowBalance` when `tag`
    /// holds less than `amount`, whatever other tags hold.
    pub fn withdraw(&mut self, tag: u64, to: AccountId, amount: i128) -> (r: Result<Payment, Error>)
        requires
            old(self).wf(),
            !old(self).paused_flag() ==> old(self).is_initialized(),
        ensures
            final(self).wf(),
            old(self).paused_flag() ==> r == Err::<Payment, Error>(Error::ContractPaused),
            !old(self).paused_flag() && amount <= 0 ==> r == Err::<Payment, Error>(Error::InvalidAmount),
            !old(self).paused_flag() && amount > 0 && old(self).balance(tag) < amount ==> r == Err::<
                Payment,
                Error,
            >(Error::InsufficientEscrowBalance),
            r is Ok <==> !old(self).paused_flag() && 0 < amount <= old(self).balance(tag),
            r is Ok ==> r == Ok::<Payment, Error>(
                (Payment { from: Party::Contract, to: Party::Account(to), amount }),
            ) && old(self).debits(&*final(self), tag, amount as int),
            r is Err ==> *final(self) == *old(self),
    {
        if self.paused {
            return Err(Error::ContractPaused);
        }
        match self.debit(tag, amount) {
            Ok(()) => Ok(Payment { from: Party::Contract, to: Party::Account(to), amount }),
            Err(e) => Err(e),
        }
    }

    /// `withdraw` authorized by a multisig approval instead of the admin's
    /// signature; `approved` is what the multisig reported.
    ///
    /// Refused with `ContractPaused` while paused, then `Unauthorized`,
    /// then as `withdraw`.
    pub fn withdraw_via_multisig(&mut self, approved: bool, tag: u64, to: AccountId, amount: i128) -> (r:
        Result<Payment, Error>)
        requires
            old(self).wf(),
        ensures
            final(self).wf(),
            old(self).paused_flag() ==> r == Err::<Payment, Error>(Error::ContractPaused),
            !old(self).paused_flag() && !approved ==> r == Err::<Payment, Error>(Error::Unauthorized),
            !old(self).paused_flag() && approved && amount <= 0 ==> r == Err::<Payment, Error>(
                Error::InvalidAmount,
            ),
            !old(self).paused_flag() && approved && amount > 0 && old(self).balance(tag) < amount ==> r
                == Err::<Payment, Error>(Error::InsufficientEscrowBalance),
            r is Ok <==> !old(self).paused_flag() && approved && 0 < amount <= old(self).balance(tag),
            r is Ok ==> r == Ok::<Payment, Error>(
                (Payment { from: Party::Contract, to: Party::Account(to), amount }),
            ) && old(self).debits(&*final(self), tag, amount as int),
            r is Err ==> *final(self) == *old(self),
    {
        if self.paused {
            return Err(Error::ContractPaused);
        }
        if !approved {
            return Err(Error::Unauthorized);
        }
        match self.debit(tag, amount) {
            Ok(()) => Ok(Payment { from: Party::Contract, to: Party::Account(to), amount }),
            Err(e) => Err(e),
        }
    }

    /// Re-earmarks `amount` from `from_tag` to `to_tag` without moving any
    /// token; the total is unchanged.
    fn move_between(&mut self, from_tag: u64, to_tag: u64, amount: i128) -> (r: Result<(), Error>)
        requires
            old(self).wf(),
        ensures
            final(self).wf(),
            amount <= 0 ==> r == Err::<(), Error>(Error::InvalidAmount),
            amount > 0 && old(self).balance(from_tag) < amount ==> r == Err::<(), Error>(
                Error::InsufficientEscrowBalance,
            ),
            r is Ok <==> 0 < amount <= old(self).balance(from_tag),
            r is Ok ==> old(self).moves(&*final(self), from_tag, to_tag, amount as int),
            r is Err ==> *final(self) == *old(self),
    {
        if amount <= 0 {
            return Err(Error::InvalidAmount);
        }
        let from_balance = self.balance_of(from_tag);
        if from_balance < amount {
            return Err(Error::InsufficientEscrowBalance);
        }
        let ghost s0 = *self;
        proof {
            self.lemma_balance_bounds(from_tag, to_tag);
            self.lemma_balance_bounds(to_tag, to_tag);
        }
        self.set_balance(from_tag, from_balance - amount);
        let to_balance = self.lookup(to_tag);
        self.set_balance(to_tag, to_balance + amount);
        proof {
            assert forall|t: u64| #[trigger] self.balance(t) == if from_tag == to_tag {
                s0.balance(t)
            } else if t == from_tag {
                s0.balance(from_tag) - amount
            } else if t == to_tag {
                s0.balance(to_tag) + amount
            } else {
                s0.balance(t)
            } by {}
        }
        Ok(())
    }

    /// Moves `amount` of escrow from `from_tag` to `to_tag` with no token
    /// movement. The caller has already authenticated the admin.
    ///
    /// Refused with `ContractPaused` while paused, then `InvalidAmount`,
    /// then `InsufficientEscrowBalance` when `from_tag` holds less than `amount`.
    pub fn transfer_tag(&mut self, from_tag: u64, to_tag: u64, amount: i128) -> (r: Result<(), Error>)
        requires
            old(self).wf(),
            !old(self).paused_flag() ==> old(self).is_initialized(),
        ensures
            final(self).wf(),
            old(self).paused_flag() ==> r == Err::<(), Error>(Error::ContractPaused),
            !old(self).paused_flag() && amount <= 0 ==> r == Err::<(), Error>(Error::InvalidAmount),
            !old(self).paused_flag() && amount > 0 && old(self).balance(from_tag) < amount ==> r == Err::<
                (),
                Error,
            >(Error::InsufficientEscrowBalance),
            r is Ok <==> !old(self).paused_flag() && 0 < amount <= old(self).balance(from_tag),
            r is Ok ==> old(self).moves(&*final(self), from_tag, to_tag, amount as int),
            r is Err ==> *final(self) == *old(self),
    {
        if self.paused {
            return Err(Error::ContractPaused);
        }
        self.move_between(from_tag, to_tag, amount)
    }

    /// `transfer_tag` authorized by a multisig approval; `approved` is what
    /// the multisig reported.
    ///
    /// Refused with `ContractPaused` while paused, then `Unauthorized`, then
    /// as `transfer_tag`.
    pub fn transfer_tag_via_multisig(&mut self, approved: bool, from_tag: u64, to_tag: u64, amount: i128) -> (r:
        Result<(), Error>)
        requires
            old(self).wf(),
        ensures
            final(self).wf(),
            old(self).paused_flag() ==> r == Err::<(), Error>(Error::ContractPaused),
            !old(self).paused_flag() && !approved ==> r == Err::<(), Error>(Error::Unauthorized),
            !old(self).paused_flag() && approved && amount <= 0 ==> r == Err::<(), Error>(Error::InvalidAmount),
            !old(self).paused_flag() && approved && amount > 0 && old(self).balance(from_tag) < amount ==> r
                == Err::<(), Error>(Error::InsufficientEscrowBalance),
            r is Ok <==> !old(self).paused_flag() && approved && 0 < amount <= old(self).balance(from_tag),
            r is Ok ==> old(self).moves(&*final(self), from_tag, to_tag, amount as int),
            r is Err ==> *final(self) == *old(self),
    {
        if self.paused {
            return Err(Error::ContractPaused);
        }
        if !approved {
            return Err(Error::Unauthorized);
        }
        self.move_between(from_tag, to_tag, amount)
    }

    /// The transfer that recovers tokens sitting on the vault outside any
    /// tag: `actual_balance` (the vault's real token balance) minus the
    /// recorded total, paid to `to`. The caller has already authenticated
    /// the admin.
    ///
    /// Refused with `NoUntaggedFunds` when that difference is not positive.
    pub fn sweep_untagged(&self, to: AccountId, actual_balance: i128) -> (r: Result<Payment, Error>)
        requires
            self.wf(),
            self.is_initialized(),
            actual_balance - self.total() >= i128::MIN,
        ensures
            actual_balance - self.total() <= 0 ==> r == Err::<Payment, Error>(Error::NoUntaggedFunds),
            actual_balance - self.total() > 0 ==> r == Ok::<Payment, Error>(
                (Payment {
                    from: Party::Contract,
                    to: Party::Account(to),
                    amount: (actual_balance - self.total()) as i128,
                }),
            ),
    {
        proof {
            self.lemma_balance_bounds(0, 0);
        }
        let untagged = actual_balance - self.total_escrowed;
        if untagged <= 0 {
            return Err(Error::NoUntaggedFunds);
        }
        Ok(Payment { from: Party::Contract, to: Party::Account(to), amount: untagged })
    }
}

/// Whether `p` describes a state a vault can be in: admin and token set
/// together, nothing escrowed before that, one entry per tag, no negative
/// balance, and a recorded total equal to the sum of the entries.
pub open spec fn parts_valid(p: &VaultParts) -> bool {
    &&& (p.admin is Some) == (p.token is Some)
    &&& p.admin is None ==> p.ledger@.len() == 0
    &&& tags_distinct(p.ledger@)
    &&& amounts_nonneg(p.ledger@)
    &&& p.total_escrowed == ledger_sum(p.ledger@)
}

proof fn lemma_prefix_sum_le(l: Seq<EscrowEntry>, k: int)
    requires
        amounts_nonneg(l),
        0 <= k <= l.len(),
    ensures
        ledger_sum(l.subrange(0, k)) <= ledger_sum(l),
    decreases l.len(),
{
    if k < l.len() {
        let d = l.drop_last();
        assert forall|i: int| 0 <= i < d.len() implies #[trigger] d[i].amount >= 0 by {
            assert(d[i] == l[i]);
        }
        assert(d.subrange(0, k) =~= l.subrange(0, k));
        lemma_prefix_sum_le(d, k);
    } else {
        assert(l.subrange(0, k) =~= l);
    }
}

/// The sum of the entries' amounts, provided none is negative and the sum
/// fits; `None` otherwise.
fn checked_ledger_sum(ledger: &Vec<EscrowEntry>) -> (r: Option<i128>)
    ensures
        r is Some <==> (amounts_nonneg(ledger@) && ledger_sum(ledger@) <= i128::MAX),
        r is Some ==> r.unwrap() == ledger_sum(ledger@),
{
    let mut k: usize = 0;
    while k < ledger.len()
        invariant
            k <= ledger@.len(),
            forall|m: int| 0 <= m < k ==> #[trigger] ledger@[m].amount >= 0,
        decreases ledger@.len() - k,
    {
        if ledger[k].amount < 0 {
            return None;
        }
        k = k + 1;
    }
    let mut sum: i128 = 0;
    let mut i: usize = 0;
    while i < ledger.len()
        invariant
            i <= ledger@.len(),
            amounts_nonneg(ledger@),
            sum == ledger_sum(ledger@.subrange(0, i as int)),
            sum >= 0,
        decreases ledger@.len() - i,
    {
        proof {
            assert(ledger@.subrange(0, i + 1).drop_last() =~= ledger@.subrange(0, i as int));
        }
        match sum.checked_add(ledger[i].amount) {
            Some(t) => {
                sum = t;
            },
            None => {
                proof {
                    lemma_prefix_sum_le(ledger@, i + 1);
                }
                return None;
            },
        }
        i = i + 1;
    }
    proof {
        assert(ledger@.subrange(0, ledger@.len() as int) =~= ledger@);
    }
    Some(sum)
}

/// Whether no tag has two entries in `ledger`.
fn tags_all_distinct(ledger: &Vec<EscrowEntry>) -> (r: bool)
    ensures
        r == tags_distinct(ledger@),
{
    let n = ledger.len();
    let mut i: usize = 0;
    while i < n
        invariant
            n == ledger@.len(),
            i <= n,
            forall|a: int, b: int| 0 <= a < i && a < b < n ==> ledger@[a].tag != ledger@[b].tag,
        decreases n - i,
    {
        let mut j: usize = i + 1;
        while j < n
            invariant
                n == ledger@.len(),
                i < n,
                i + 1 <= j <= n,
                forall|a: int, b: int| 0 <= a < i && a < b < n ==> ledger@[a].tag != ledger@[b].tag,
                forall|b: int| i < b < j ==> ledger@[i as int].tag != ledger@[b].tag,
            decreases n - j,
        {
            if ledger[i].tag == ledger[j].tag {
                assert(!tags_distinct(ledger@)) by {
                    assert(ledger@[i as int].tag == ledger@[j as int].tag);
                }
                return false;
            }
            j = j + 1;
        }
        i = i + 1;
    }
    true
}

impl Vault {
    /// Restores a vault from its persisted fields, provided they describe a
    /// state a vault can be in; `None` otherwise.
    pub fn from_parts(parts: VaultParts) -> (r: Option<Vault>)
        ensures
            r is Some <==> parts_valid(&parts),
            r is Some ==> {
                let v = r.unwrap();
                &&& v.wf()
                &&& v.is_initialized() == (parts.admin is Some)
                &&& v.admin_id() == parts.admin.unwrap()
                &&& v.token_id() == parts.token.unwrap()
                &&& v.paused_flag() == parts.paused
                &&& v.total() == parts.total_escrowed
                &&& v.tags() == tags_of(parts.ledger@)
                &&& forall|t: u64| #[trigger] v.balance(t) == tag_balance(parts.ledger@, t)
            },
    {
        if parts.admin.is_some() != parts.token.is_some() {
            return None;
        }
        if parts.admin.is_none() && parts.ledger.len() != 0 {
            return None;
        }
        if !tags_all_distinct(&parts.ledger) {
            return None;
        }
        match checked_ledger_sum(&parts.ledger) {
            None => {
                return None;
            },
            Some(sum) => {
                if sum != parts.total_escrowed {
                    return None;
                }
            },
        }
        Some(
            Vault {
                admin: parts.admin,
                token: parts.token,
                paused: parts.paused,
                ledger: parts.ledger,
                total_escrowed: parts.total_escrowed,
            },
        )
    }

    /// The persisted fields of this vault.
    pub fn into_parts(self) -> (r: VaultParts)
        requires
            self.wf(),
        ensures
            parts_valid(&r),
            (r.admin is Some) == self.is_initialized(),
            self.is_initialized() ==> r.admin == Some(self.admin_id()) && r.token == Some(self.token_id()),
            r.paused == self.paused_flag(),
            r.total_escrowed == self.total(),
            tags_of(r.ledger@) == self.tags(),
            forall|t: u64| #[trigger] tag_balance(r.ledger@, t) == self.balance(t),
    {
        VaultParts {
            admin: self.admin,
            token: self.token,
            paused: self.paused,
            ledger: self.ledger,
            total_escrowed: self.total_escrowed,
        }
    }
}

/// The recorded total is always the sum of every tag's balance: each tag
/// ever credited is listed once in `tags()`, and every other tag holds nothing.
pub proof fn lemma_total_is_sum_of_balances(v: &Vault)
    requires
        v.wf(),
    ensures
        v.total() == v.sum_of_balances(v.tags()),
        v.tags().no_duplicates(),
        forall|t: u64| !v.tags().contains(t) ==> #[trigger] v.balance(t) == 0,
{
    let l = v.ledger@;
    v.lemma_prefix_sum(l.len() as int);
    assert(l.subrange(0, l.len() as int) =~= l);
    assert forall|t: u64| !v.tags().contains(t) implies #[trigger] v.balance(t) == 0 by {
        assert forall|i: int| 0 <= i < l.len() implies #[trigger] l[i].tag != t by {
            assert(v.tags()[i] == l[i].tag);
        }
        lemma_absent(l, t);
    }
}

/// No tag's balance is ever negative, and none exceeds the recorded total.
pub proof fn lemma_balances_within_total(v: &Vault, tag: u64)
    requires
        v.wf(),
    ensures
        0 <= v.balance(tag) <= v.total(),
{
    v.lemma_balance_bounds(tag, tag);
}

/// The vault's token holding after `p` is carried out, from `held` before.
pub open spec fn holding_after(held: int, p: Payment) -> int {
    held + (if p.to == Party::Contract {
        p.amount as int
    } else {
        0
    }) - (if p.from == Party::Contract {
        p.amount as int
    } else {
        0
    })
}

/// The vault's token holding always covers what it has escrowed: if the
/// contract held at least the recorded total before a successful deposit,
/// withdrawal (either path), move between tags (either path) or sweep of
/// untagged funds, it still holds at least the new total once that call's
/// payment has been carried out.
pub proof fn lemma_holding_covers_escrow(
    v0: &Vault,
    v1: &Vault,
    held: i128,
    from_tag: u64,
    to_tag: u64,
    amount: i128,
    who: AccountId,
)
    requires
        v0.wf(),
        v0.total() <= held,
    ensures
        v0.credits(v1, to_tag, amount as int) ==> v1.total() <= holding_after(
            held as int,
            Payment { from: Party::Account(who), to: Party::Contract, amount },
        ),
        v0.debits(v1, from_tag, amount as int) ==> v1.total() <= holding_after(
            held as int,
            Payment { from: Party::Contract, to: Party::Account(who), amount },
        ),
        v0.moves(v1, from_tag, to_tag, amount as int) ==> v1.total() <= held,
        held - v0.total() > 0 ==> v0.total() <= holding_after(
            held as int,
            Payment { from: Party::Contract, to: Party::Account(who), amount: (held - v0.total()) as i128 },
        ),
{
    v0.lemma_balance_bounds(from_tag, to_tag);
}

/// A withdrawal of what was just deposited under the same tag restores
/// every balance and the total.
pub proof fn lemma_withdraw_undoes_deposit(v0: &Vault, v1: &Vault, v2: &Vault, tag: u64, amount: int)
    requires
        v0.credits(v1, tag, amount),
        v1.debits(v2, tag, amount),
    ensures
        v2.same_config(v0),
        v2.same_escrow(v0),
{
    assert forall|t: u64| #[trigger] v2.balance(t) == v0.balance(t) by {
        assert(v1.balance(t) == v1.balance(t));
    }
}

/// Moving escrow between tags never changes the total, and moving it back
/// restores every balance.
pub proof fn lemma_move_back_restores(v0: &Vault, v1: &Vault, v2: &Vault, from_tag: u64, to_tag: u64, amount: int)
    requires
        v0.moves(v1, from_tag, to_tag, amount),
        v1.moves(v2, to_tag, from_tag, amount),
    ensures
        v1.total() == v0.total(),
        v2.same_config(v0),
        v2.same_escrow(v0),
{
    assert forall|t: u64| #[trigger] v2.balance(t) == v0.balance(t) by {
        assert(v1.balance(t) == v1.balance(t));
        assert(v1.balance(from_tag) == v1.balance(from_tag));
        assert(v1.balance(to_tag) == v1.balance(to_tag));
    }
}

} // verus!
