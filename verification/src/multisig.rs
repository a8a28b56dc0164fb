//! M-of-N approval tracking for opaque, caller-defined actions.
//!
//! A fixed signer set and threshold are set once at `initialize` and never
//! change afterwards; `is_approved(action_id)` becomes true once enough
//! distinct signers have approved `action_id`. An action id is never
//! interpreted here, only counted.
use vstd::prelude::*;
use crate::ids::{contains_account, AccountId};

verus! {

broadcast use vstd::seq_lib::seq_to_set_is_finite;

/// Ways a multisig operation can be refused.
#[derive(Clone, Copy, Debug, PartialEq, Eq, Structural)]
pub enum Error {
    AlreadyInitialized,
    InvalidThreshold,
    DuplicateSigner,
    NotASigner,
    AlreadyApproved,
    NotYetApproved,
}

/// The number under which each error is reported to callers.
pub open spec fn error_number(e: Error) -> u32 {
    match e {
        Error::AlreadyInitialized => 1,
        Error::InvalidThreshold => 2,
        Error::DuplicateSigner => 3,
        Error::NotASigner => 4,
        Error::AlreadyApproved => 5,
        Error::NotYetApproved => 6,
    }
}

impl Error {
    /// The number under which this error is reported to callers.
    pub fn code(&self) -> (c: u32)
        ensures
            c == error_number(*self),
    {
        match self {
            Error::AlreadyInitialized => 1,
            Error::InvalidThreshold => 2,
            Error::DuplicateSigner => 3,
            Error::NotASigner => 4,
            Error::AlreadyApproved => 5,
            Error::NotYetApproved => 6,
        }
    }
}

/// The approvals currently recorded for one action; their number is the
/// action's approval count.
pub struct Ballot {
    pub action_id: u64,
    pub voters: Vec<AccountId>,
}

/// The stored state of one multisig deployment.
pub struct Multisig {
    initialized: bool,
    signers: Vec<AccountId>,
    threshold: u32,
    ballots: Vec<Ballot>,
}

/// The stored state of a multisig, field by field, as it is persisted
/// between calls.
pub struct MultisigParts {
    pub initialized: bool,
    pub signers: Vec<AccountId>,
    pub threshold: u32,
    pub ballots: Vec<Ballot>,
}

/// The set of signers recorded as approving `action_id` in `ballots`.
pub open spec fn ballot_voters(ballots: Seq<Ballot>, action_id: u64) -> Set<AccountId>
    decreases ballots.len(),
{
    if ballots.len() == 0 {
        Set::empty()
    } else if ballots.last().action_id == action_id {
        ballots.last().voters@.to_set()
    } else {
        ballot_voters(ballots.drop_last(), action_id)
    }
}

/// No two ballots are for the same action.
pub open spec fn ids_distinct(ballots: Seq<Ballot>) -> bool {
    forall|i: int, j: int|
        0 <= i < j < ballots.len() ==> #[trigger] ballots[i].action_id != #[trigger] ballots[j].action_id
}

/// A ballot lists distinct voters, all of them signers.
pub open spec fn ballot_ok(b: Ballot, signers: Seq<AccountId>) -> bool {
    &&& b.voters@.no_duplicates()
    &&& forall|k: int| 0 <= k < b.voters@.len() ==> signers.contains(#[trigger] b.voters@[k])
}

proof fn lemma_ballot_at(ballots: Seq<Ballot>, i: int)
    requires
        ids_distinct(ballots),
        0 <= i < ballots.len(),
    ensures
        ballot_voters(ballots, ballots[i].action_id) == ballots[i].voters@.to_set(),
    decreases ballots.len(),
{
    if i != ballots.len() - 1 {
        assert(ballots.last().action_id != ballots[i].action_id);
        assert(ballots.drop_last()[i] == ballots[i]);
        lemma_ballot_at(ballots.drop_last(), i);
    }
}

proof fn lemma_no_ballot(ballots: Seq<Ballot>, action_id: u64)
    requires
        forall|i: int| 0 <= i < ballots.len() ==> #[trigger] ballots[i].action_id != action_id,
    ensures
        ballot_voters(ballots, action_id) == Set::<AccountId>::empty(),
    decreases ballots.len(),
{
    if ballots.len() != 0 {
        let d = ballots.drop_last();
        assert forall|i: int| 0 <= i < d.len() implies #[trigger] d[i].action_id != action_id by {
            assert(d[i] == ballots[i]);
        }
        lemma_no_ballot(d, action_id);
    }
}

proof fn lemma_ballot_update(ballots: Seq<Ballot>, i: int, b: Ballot, x: u64)
    requires
        ids_distinct(ballots),
        0 <= i < ballots.len(),
        b.action_id == ballots[i].action_id,
    ensures
        ballot_voters(ballots.update(i, b), x) == if x == b.action_id {
            b.voters@.to_set()
        } else {
            ballot_voters(ballots, x)
        },
    decreases ballots.len(),
{
    let u = ballots.update(i, b);
    if i == ballots.len() - 1 {
        assert(u.drop_last() =~= ballots.drop_last());
    } else {
        assert(u.drop_last() =~= ballots.drop_last().update(i, b));
        assert(ballots.last().action_id != ballots[i].action_id);
        lemma_ballot_update(ballots.drop_last(), i, b, x);
    }
}

proof fn lemma_ballot_push(ballots: Seq<Ballot>, b: Ballot, x: u64)
    ensures
        ballot_voters(ballots.push(b), x) == if x == b.action_id {
            b.voters@.to_set()
        } else {
            ballot_voters(ballots, x)
        },
{
    assert(ballots.push(b).drop_last() =~= ballots);
}

/// A duplicate-free sequence whose items all occur in `sup` is no longer than `sup`.
proof fn lemma_distinct_within_len(sub: Seq<AccountId>, sup: Seq<AccountId>)
    requires
        sub.no_duplicates(),
        forall|k: int| 0 <= k < sub.len() ==> sup.contains(#[trigger] sub[k]),
    ensures
        sub.len() <= sup.len(),
{
    sub.unique_seq_to_set();
    sup.lemma_cardinality_of_set();
    assert(sub.to_set().subset_of(sup.to_set())) by {
        assert forall|a: AccountId| sub.to_set().contains(a) implies sup.to_set().contains(a) by {
            let k = choose|k: int| 0 <= k < sub.len() && sub[k] == a;
            assert(sup.contains(sub[k]));
        }
    }
    vstd::set_lib::lemma_len_subset(sub.to_set(), sup.to_set());
}

/// Whether no identity occurs twice in `list`.
pub fn all_distinct(list: &Vec<AccountId>) -> (r: bool)
    ensures
        r == list@.no_duplicates(),
{
    let n = list.len();
    let mut i: usize = 0;
    while i < n
        invariant
            n == list@.len(),
            i <= n,
            forall|a: int, b: int| 0 <= a < i && a < b < n ==> list@[a] != list@[b],
        decreases n - i,
    {
        let mut j: usize = i + 1;
        while j < n
            invariant
                n == list@.len(),
                i < n,
                i + 1 <= j <= n,
                forall|a: int, b: int| 0 <= a < i && a < b < n ==> list@[a] != list@[b],
                forall|b: int| i < b < j ==> list@[i as int] != list@[b],
            decreases n - j,
        {
            if list[i] == list[j] {
                assert(!list@.no_duplicates());
                return false;
            }
            j = j + 1;
        }
        i = i + 1;
    }
    assert(list@.no_duplicates()) by {
        assert forall|a: int, b: int| 0 <= a < list@.len() && 0 <= b < list@.len() && a != b implies list@[a]
            != list@[b] by {
            if a > b {
                assert(list@[b] != list@[a]);
            }
        }
    }
    true
}

impl Multisig {
    /// Whether `initialize` has succeeded on this deployment.
    pub closed spec fn is_initialized(&self) -> bool {
        self.initialized
    }

    /// The fixed signer set, in the order given at `initialize`.
    pub closed spec fn signer_list(&self) -> Seq<AccountId> {
        self.signers@
    }

    /// The number of approvals an action needs.
    pub closed spec fn threshold_value(&self) -> u32 {
        self.threshold
    }

    /// The signers whose approval of `action_id` is currently recorded.
    pub closed spec fn voters(&self, action_id: u64) -> Set<AccountId> {
        ballot_voters(self.ballots@, action_id)
    }

    /// The internal consistency every reachable state keeps.
    pub closed spec fn wf(&self) -> bool {
        &&& self.signers@.len() <= u32::MAX
        &&& self.initialized ==> {
            &&& 0 < self.threshold <= self.signers@.len()
            &&& self.signers@.no_duplicates()
        }
        &&& !self.initialized ==> self.ballots@.len() == 0
        &&& ids_distinct(self.ballots@)
        &&& forall|i: int|
            0 <= i < self.ballots@.len() ==> ballot_ok(#[trigger] self.ballots@[i], self.signers@)
    }

    /// Two states with the same configuration (initialization, signers, threshold).
    pub open spec fn same_config(&self, other: &Multisig) -> bool {
        &&& self.is_initialized() == other.is_initialized()
        &&& self.signer_list() == other.signer_list()
        &&& self.threshold_value() == other.threshold_value()
    }

    /// `post` is `self` with `signer`'s approval of `action_id` added.
    pub open spec fn records_approval(&self, post: &Multisig, signer: AccountId, action_id: u64) -> bool {
        &&& post.same_config(self)
        &&& forall|x: u64|
            #[trigger] post.voters(x) == if x == action_id {
                self.voters(action_id).insert(signer)
            } else {
                self.voters(x)
            }
    }

    /// `post` is `self` with `signer`'s approval of `action_id` withdrawn.
    pub open spec fn records_revocation(&self, post: &Multisig, signer: AccountId, action_id: u64) -> bool {
        &&& post.same_config(self)
        &&& forall|x: u64|
            #[trigger] post.voters(x) == if x == action_id {
                self.voters(action_id).remove(signer)
            } else {
                self.voters(x)
            }
    }

    proof fn lemma_voters_within_signers(&self, action_id: u64)
        requires
            self.wf(),
        ensures
            forall|a: AccountId| self.voters(action_id).contains(a) ==> self.signers@.contains(a),
            self.voters(action_id).finite(),
    {
        let bs = self.ballots@;
        if exists|i: int| 0 <= i < bs.len() && bs[i].action_id == action_id {
            let i = choose|i: int| 0 <= i < bs.len() && bs[i].action_id == action_id;
            lemma_ballot_at(bs, i);
            assert(ballot_ok(bs[i], self.signers@));
            assert forall|a: AccountId| self.voters(action_id).contains(a) implies self.signers@.contains(a) by {
                let k = choose|k: int| 0 <= k < bs[i].voters@.len() && bs[i].voters@[k] == a;
                assert(self.signers@.contains(bs[i].voters@[k]));
            }
        } else {
            lemma_no_ballot(bs, action_id);
        }
    }

    /// Whether `initialize` has succeeded on this deployment.
    pub fn initialized(&self) -> (r: bool)
        ensures
            r == self.is_initialized(),
    {
        self.initialized
    }

    /// A deployment on which `initialize` has not yet run.
    pub fn new() -> (r: Multisig)
        ensures
            r.wf(),
            !r.is_initialized(),
            r.signer_list() == Seq::<AccountId>::empty(),
            r.threshold_value() == 0,
            forall|x: u64| #[trigger] r.voters(x) == Set::<AccountId>::empty(),
    {
        let r = Multisig { initialized: false, signers: Vec::new(), threshold: 0, ballots: Vec::new() };
        assert forall|x: u64| #[trigger] r.voters(x) == Set::<AccountId>::empty() by {
            lemma_no_ballot(r.ballots@, x);
        }
        r
    }

    /// Fixes the signer set and threshold, once.
    ///
    /// Refused with `AlreadyInitialized` on a second call, then with
    /// `InvalidThreshold` when the threshold is zero or above the number of
    /// signers, then with `DuplicateSigner` when some signer is listed twice.
    pub fn initialize(&mut self, signers: Vec<AccountId>, threshold: u32) -> (r: Result<(), Error>)
        requires
            old(self).wf(),
            signers@.len() <= u32::MAX,
        ensures
            final(self).wf(),
            old(self).is_initialized() ==> r == Err::<(), Error>(Error::AlreadyInitialized),
            !old(self).is_initialized() && (threshold == 0 || threshold > signers@.len())
                ==> r == Err::<(), Error>(Error::InvalidThreshold),
            !old(self).is_initialized() && 0 < threshold <= signers@.len() && !signers@.no_duplicates()
                ==> r == Err::<(), Error>(Error::DuplicateSigner),
            r is Ok <==> (!old(self).is_initialized() && 0 < threshold <= signers@.len()
                && signers@.no_duplicates()),
            r is Ok ==> {
                &&& final(self).is_initialized()
                &&& final(self).signer_list() == signers@
                &&& final(self).threshold_value() == threshold
                &&& forall|x: u64| #[trigger] final(self).voters(x) == Set::<AccountId>::empty()
            },
            r is Err ==> *final(self) == *old(self),
    {
        if self.initialized {
            return Err(Error::AlreadyInitialized);
        }
        let n = signers.len();
        if threshold == 0 || threshold as usize > n {
            return Err(Error::InvalidThreshold);
        }
        if !all_distinct(&signers) {
            return Err(Error::DuplicateSigner);
        }
        self.initialized = true;
        self.signers = signers;
        self.threshold = threshold;
        assert forall|x: u64| #[trigger] self.voters(x) == Set::<AccountId>::empty() by {
            lemma_no_ballot(self.ballots@, x);
        }
        Ok(())
    }

    /// Whether `address` is one of the signers.
    pub fn is_signer(&self, address: AccountId) -> (r: bool)
        requires
            self.wf(),
            self.is_initialized(),
        ensures
            r == self.signer_list().contains(address),
    {
        contains_account(&self.signers, address)
    }

    /// The number of signers.
    pub fn get_signer_count(&self) -> (r: u32)
        requires
            self.wf(),
            self.is_initialized(),
        ensures
            r == self.signer_list().len(),
    {
        self.signers.len() as u32
    }

    /// The number of approvals an action needs.
    pub fn get_threshold(&self) -> (r: u32)
        requires
            self.is_initialized(),
        ensures
            r == self.threshold_value(),
    {
        self.threshold
    }

    /// The position of the ballot for `action_id`, if one exists.
    fn find_ballot(&self, action_id: u64) -> (r: Option<usize>)
        requires
            self.wf(),
        ensures
            match r {
                Some(i) => i < self.ballots@.len() && self.ballots@[i as int].action_id == action_id
                    && self.voters(action_id) == self.ballots@[i as int].voters@.to_set(),
                None => self.voters(action_id) == Set::<AccountId>::empty()
                    && forall|i: int| 0 <= i < self.ballots@.len() ==> #[trigger] self.ballots@[i].action_id != action_id,
            },
    {
        let mut i: usize = 0;
        while i < self.ballots.len()
            invariant
                self.wf(),
                i <= self.ballots@.len(),
                forall|k: int| 0 <= k < i ==> #[trigger] self.ballots@[k].action_id != action_id,
            decreases self.ballots@.len() - i,
        {
            if self.ballots[i].action_id == action_id {
                proof {
                    lemma_ballot_at(self.ballots@, i as int);
                }
                return Some(i);
            }
            i = i + 1;
        }
        proof {
            lemma_no_ballot(self.ballots@, action_id);
        }
        None
    }

    /// Records `signer`'s approval of `action_id`. The caller has already
    /// authenticated `signer`.
    ///
    /// Refused with `NotASigner` when `signer` is not in the signer set,
    /// and with `AlreadyApproved` when its approval is already recorded.
    pub fn approve(&mut self, signer: AccountId, action_id: u64) -> (r: Result<(), Error>)
        requires
            old(self).wf(),
            old(self).is_initialized(),
        ensures
            final(self).wf(),
            r == Err::<(), Error>(Error::NotASigner) <==> !old(self).signer_list().contains(signer),
            r == Err::<(), Error>(Error::AlreadyApproved) <==> (old(self).signer_list().contains(signer)
                && old(self).voters(action_id).contains(signer)),
            r is Ok <==> (old(self).signer_list().contains(signer) && !old(self).voters(
                action_id,
            ).contains(signer)),
            r is Ok ==> old(self).records_approval(&*final(self), signer, action_id),
            r is Err ==> *final(self) == *old(self),
    {
        proof {
            self.lemma_voters_within_signers(action_id);
        }
        if !contains_account(&self.signers, signer) {
            return Err(Error::NotASigner);
        }
        let found = self.find_ballot(action_id);
        let ghost old_self = *self;
        match found {
            Some(i) => {
                if contains_account(&self.ballots[i].voters, signer) {
                    return Err(Error::AlreadyApproved);
                }
                let mut b = self.ballots.remove(i);
                proof {
                    assert(b == old_self.ballots@[i as int]);
                    assert(ballot_ok(b, self.signers@));
                }
                b.voters.push(signer);
                self.ballots.insert(i, b);
                proof {
                    assert(self.ballots@ =~= old_self.ballots@.update(i as int, b));
                    assert(b.voters@ == old_self.ballots@[i as int].voters@.push(signer));
                    old_self.ballots@[i as int].voters@.lemma_push_to_set_commute(signer);
                    assert forall|x: u64| #[trigger] self.voters(x) == if x == action_id {
                        old_self.voters(action_id).insert(signer)
                    } else {
                        old_self.voters(x)
                    } by {
                        lemma_ballot_update(old_self.ballots@, i as int, b, x);
                    }
                    assert forall|k: int| 0 <= k < self.ballots@.len() implies ballot_ok(
                        #[trigger] self.ballots@[k],
                        self.signers@,
                    ) by {
                        if k != i {
                            assert(self.ballots@[k] == old_self.ballots@[k]);
                        }
                    }
                    assert(ids_distinct(self.ballots@)) by {
                        assert forall|p: int, q: int| 0 <= p < q < self.ballots@.len() implies
                            #[trigger] self.ballots@[p].action_id != #[trigger] self.ballots@[q].action_id by {
                            assert(old_self.ballots@[p].action_id != old_self.ballots@[q].action_id);
                        }
                    }
                }
            },
            None => {
                let mut voters: Vec<AccountId> = Vec::new();
                voters.push(signer);
                let b = Ballot { action_id, voters };
                self.ballots.push(b);
                proof {
                    assert(b.voters@ =~= Seq::<AccountId>::empty().push(signer));
                    Seq::<AccountId>::empty().lemma_push_to_set_commute(signer);
                    assert(Seq::<AccountId>::empty().to_set() =~= Set::<AccountId>::empty());
                    assert forall|x: u64| #[trigger] self.voters(x) == if x == action_id {
                        old_self.voters(action_id).insert(signer)
                    } else {
                        old_self.voters(x)
                    } by {
                        lemma_ballot_push(old_self.ballots@, b, x);
                    }
                    assert forall|k: int| 0 <= k < self.ballots@.len() implies ballot_ok(
                        #[trigger] self.ballots@[k],
                        self.signers@,
                    ) by {
                        if k < old_self.ballots@.len() {
                            assert(self.ballots@[k] == old_self.ballots@[k]);
                        }
                    }
                    assert(ids_distinct(self.ballots@)) by {
                        assert forall|p: int, q: int| 0 <= p < q < self.ballots@.len() implies
                            #[trigger] self.ballots@[p].action_id != #[trigger] self.ballots@[q].action_id by {
                            if q < old_self.ballots@.len() {
                                assert(old_self.ballots@[p].action_id != old_self.ballots@[q].action_id);
                            } else {
                                assert(self.ballots@[p] == old_self.ballots@[p]);
                            }
                        }
                    }
                }
            },
        }
        Ok(())
    }

    /// Withdraws `signer`'s own approval of `action_id`. The caller has
    /// already authenticated `signer`.
    ///
    /// Refused with `NotYetApproved` when no approval by `signer` is recorded.
    pub fn revoke(&mut self, signer: AccountId, action_id: u64) -> (r: Result<(), Error>)
        requires
            old(self).wf(),
        ensures
            final(self).wf(),
            r is Ok <==> old(self).voters(action_id).contains(signer),
            r is Err ==> r == Err::<(), Error>(Error::NotYetApproved) && *final(self) == *old(self),
            r is Ok ==> old(self).records_revocation(&*final(self), signer, action_id),
    {
        let found = self.find_ballot(action_id);
        let ghost old_self = *self;
        match found {
            None => Err(Error::NotYetApproved),
            Some(i) => {
                let pos = self.voter_position(i, signer);
                match pos {
                    None => Err(Error::NotYetApproved),
                    Some(k) => {
                        let mut b = self.ballots.remove(i);
                        proof {
                            assert(b == old_self.ballots@[i as int]);
                            assert(ballot_ok(b, self.signers@));
                        }
                        let ghost old_voters = b.voters@;
                        b.voters.remove(k);
                        self.ballots.insert(i, b);
                        proof {
                            assert(self.ballots@ =~= old_self.ballots@.update(i as int, b));
                            assert(b.voters@ =~= old_voters.remove(k as int));
                            assert(b.voters@.to_set() =~= old_voters.to_set().remove(signer)) by {
                                assert forall|a: AccountId| #[trigger] b.voters@.to_set().contains(a)
                                    <==> old_voters.to_set().remove(signer).contains(a) by {
                                    if b.voters@.to_set().contains(a) {
                                        let m = choose|m: int| 0 <= m < b.voters@.len() && b.voters@[m] == a;
                                        if m < k {
                                            assert(old_voters[m] == a);
                                        } else {
                                            assert(old_voters[m + 1] == a);
                                        }
                                    }
                                    if old_voters.to_set().remove(signer).contains(a) {
                                        let m = choose|m: int| 0 <= m < old_voters.len() && old_voters[m] == a;
                                        if m < k {
                                            assert(b.voters@[m] == a);
                                        } else {
                                            assert(m != k);
                                            assert(b.voters@[m - 1] == a);
                                        }
                                    }
                                }
                            }
                            assert(b.voters@.no_duplicates());
                            assert forall|x: u64| #[trigger] self.voters(x) == if x == action_id {
                                old_self.voters(action_id).remove(signer)
                            } else {
                                old_self.voters(x)
                            } by {
                                lemma_ballot_update(old_self.ballots@, i as int, b, x);
                            }
                            assert forall|m: int| 0 <= m < self.ballots@.len() implies ballot_ok(
                                #[trigger] self.ballots@[m],
                                self.signers@,
                            ) by {
                                if m != i {
                                    assert(self.ballots@[m] == old_self.ballots@[m]);
                                } else {
                                    assert forall|q: int| 0 <= q < b.voters@.len() implies self.signers@.contains(
                                        #[trigger] b.voters@[q],
                                    ) by {
                                        if q < k {
                                            assert(old_voters[q] == b.voters@[q]);
                                        } else {
                                            assert(old_voters[q + 1] == b.voters@[q]);
                                        }
                                    }
                                }
                            }
                            assert(ids_distinct(self.ballots@)) by {
                                assert forall|p: int, q: int| 0 <= p < q < self.ballots@.len() implies
                                    #[trigger] self.ballots@[p].action_id != #[trigger] self.ballots@[q].action_id by {
                                    assert(old_self.ballots@[p].action_id != old_self.ballots@[q].action_id);
                                }
                            }
                        }
                        Ok(())
                    },
                }
            },
        }
    }

    /// The position of `signer` among the voters of ballot `i`, if present.
    fn voter_position(&self, i: usize, signer: AccountId) -> (r: Option<usize>)
        requires
            self.wf(),
            i < self.ballots@.len(),
        ensures
            match r {
                Some(k) => k < self.ballots@[i as int].voters@.len() && self.ballots@[i as int].voters@[k as int]
                    == signer,
                None => !self.ballots@[i as int].voters@.contains(signer),
            },
    {
        let voters = &self.ballots[i].voters;
        let mut k: usize = 0;
        while k < voters.len()
            invariant
                voters@ == self.ballots@[i as int].voters@,
                k <= voters@.len(),
                forall|m: int| 0 <= m < k ==> voters@[m] != signer,
            decreases voters@.len() - k,
        {
            if voters[k] == signer {
                return Some(k);
            }
            k = k + 1;
        }
        None
    }

    /// Whether `signer`'s approval of `action_id` is currently recorded.
    pub fn has_approved(&self, action_id: u64, signer: AccountId) -> (r: bool)
        requires
            self.wf(),
        ensures
            r == self.voters(action_id).contains(signer),
    {
        match self.find_ballot(action_id) {
            None => false,
            Some(i) => contains_account(&self.ballots[i].voters, signer),
        }
    }

    /// The number of signers whose approval of `action_id` is recorded.
    pub fn get_approval_count(&self, action_id: u64) -> (r: u32)
        requires
            self.wf(),
        ensures
            r == self.voters(action_id).len(),
    {
        match self.find_ballot(action_id) {
            None => 0,
            Some(i) => {
                proof {
                    assert(ballot_ok(self.ballots@[i as int], self.signers@));
                    self.ballots@[i as int].voters@.unique_seq_to_set();
                    lemma_distinct_within_len(self.ballots@[i as int].voters@, self.signers@);
                }
                self.ballots[i].voters.len() as u32
            },
        }
    }

    /// Whether at least the threshold number of signers approve `action_id`.
    pub fn is_approved(&self, action_id: u64) -> (r: bool)
        requires
            self.wf(),
            self.is_initialized(),
        ensures
            r == (self.voters(action_id).len() >= self.threshold_value()),
    {
        let count = self.get_approval_count(action_id);
        count >= self.threshold
    }
}

/// Whether `p` describes a state a multisig can be in: at most `u32::MAX`
/// signers; once initialized, distinct signers and a threshold between one
/// and their number; no ballots before initialization; one ballot per
/// action, each with distinct voters who are all signers.
pub open spec fn parts_valid(p: &MultisigParts) -> bool {
    &&& p.signers@.len() <= u32::MAX
    &&& p.initialized ==> {
        &&& 0 < p.threshold <= p.signers@.len()
        &&& p.signers@.no_duplicates()
    }
    &&& !p.initialized ==> p.ballots@.len() == 0
    &&& ids_distinct(p.ballots@)
    &&& forall|i: int| 0 <= i < p.ballots@.len() ==> ballot_ok(#[trigger] p.ballots@[i], p.signers@)
}

/// Whether every identity in `list` occurs in `within`.
fn all_within(list: &Vec<AccountId>, within: &Vec<AccountId>) -> (r: bool)
    ensures
        r == forall|k: int| 0 <= k < list@.len() ==> within@.contains(#[trigger] list@[k]),
{
    let mut k: usize = 0;
    while k < list.len()
        invariant
            k <= list@.len(),
            forall|m: int| 0 <= m < k ==> within@.contains(#[trigger] list@[m]),
        decreases list@.len() - k,
    {
        if !contains_account(within, list[k]) {
            return false;
        }
        k = k + 1;
    }
    true
}

/// Whether `ballots` are for distinct actions and each is a valid ballot
/// over `signers`.
fn ballots_valid(ballots: &Vec<Ballot>, signers: &Vec<AccountId>) -> (r: bool)
    ensures
        r == (ids_distinct(ballots@) && forall|i: int| 0 <= i < ballots@.len() ==> ballot_ok(#[trigger] ballots@[i], signers@)),
{
    let n = ballots.len();
    let mut i: usize = 0;
    while i < n
        invariant
            n == ballots@.len(),
            i <= n,
            forall|a: int, b: int| 0 <= a < i && a < b < n ==> ballots@[a].action_id != ballots@[b].action_id,
            forall|a: int| 0 <= a < i ==> ballot_ok(#[trigger] ballots@[a], signers@),
        decreases n - i,
    {
        if !all_distinct(&ballots[i].voters) || !all_within(&ballots[i].voters, signers) {
            assert(!ballot_ok(ballots@[i as int], signers@));
            return false;
        }
        let mut j: usize = i + 1;
        while j < n
            invariant
                n == ballots@.len(),
                i < n,
                i + 1 <= j <= n,
                forall|a: int, b: int| 0 <= a < i && a < b < n ==> ballots@[a].action_id != ballots@[b].action_id,
                forall|b: int| i < b < j ==> ballots@[i as int].action_id != ballots@[b].action_id,
            decreases n - j,
        {
            if ballots[i].action_id == ballots[j].action_id {
                assert(!ids_distinct(ballots@)) by {
                    assert(ballots@[i as int].action_id == ballots@[j as int].action_id);
                }
                return false;
            }
            j = j + 1;
        }
        i = i + 1;
    }
    true
}

impl Multisig {
    /// Restores a multisig from its persisted fields, provided they describe
    /// a state a multisig can be in; `None` otherwise.
    pub fn from_parts(parts: MultisigParts) -> (r: Option<Multisig>)
        ensures
            r is Some <==> parts_valid(&parts),
            r is Some ==> {
                let m = r.unwrap();
                &&& m.wf()
                &&& m.is_initialized() == parts.initialized
                &&& m.signer_list() == parts.signers@
                &&& m.threshold_value() == parts.threshold
                &&& forall|x: u64| #[trigger] m.voters(x) == ballot_voters(parts.ballots@, x)
            },
    {
        if parts.signers.len() > 0xffff_ffff {
            return None;
        }
        if parts.initialized {
            if parts.threshold == 0 || parts.threshold as usize > parts.signers.len() {
                return None;
            }
            if !all_distinct(&parts.signers) {
                return None;
            }
        } else if parts.ballots.len() != 0 {
            return None;
        }
        if !ballots_valid(&parts.ballots, &parts.signers) {
            return None;
        }
        Some(Multisig {
            initialized: parts.initialized,
            signers: parts.signers,
            threshold: parts.threshold,
            ballots: parts.ballots,
        })
    }

    /// The persisted fields of this multisig.
    pub fn into_parts(self) -> (r: MultisigParts)
        requires
            self.wf(),
        ensures
            parts_valid(&r),
            r.initialized == self.is_initialized(),
            r.signers@ == self.signer_list(),
            r.threshold == self.threshold_value(),
            forall|x: u64| #[trigger] ballot_voters(r.ballots@, x) == self.voters(x),
    {
        MultisigParts {
            initialized: self.initialized,
            signers: self.signers,
            threshold: self.threshold,
            ballots: self.ballots,
        }
    }
}

/// Only signers' approvals are ever counted, so no action ever has more
/// approvals than there are signers.
pub proof fn lemma_approvals_come_from_signers(m: &Multisig, action_id: u64)
    requires
        m.wf(),
    ensures
        forall|a: AccountId| m.voters(action_id).contains(a) ==> m.signer_list().contains(a),
        m.voters(action_id).len() <= m.signer_list().len(),
{
    m.lemma_voters_within_signers(action_id);
    m.signer_list().lemma_cardinality_of_set();
    assert(m.voters(action_id).subset_of(m.signer_list().to_set()));
    vstd::set_lib::lemma_len_subset(m.voters(action_id), m.signer_list().to_set());
}

/// Revoking an approval undoes it: approving then revoking the same
/// signer's vote leaves every action's approvals as they were.
pub proof fn lemma_revoke_undoes_approve(
    m0: &Multisig,
    m1: &Multisig,
    m2: &Multisig,
    signer: AccountId,
    action_id: u64,
)
    requires
        !m0.voters(action_id).contains(signer),
        m0.records_approval(m1, signer, action_id),
        m1.records_revocation(m2, signer, action_id),
    ensures
        m2.same_config(m0),
        forall|x: u64| #[trigger] m2.voters(x) == m0.voters(x),
{
    assert forall|x: u64| #[trigger] m2.voters(x) == m0.voters(x) by {
        assert(m1.voters(x) == m1.voters(x));
        if x == action_id {
            assert(m0.voters(action_id).insert(signer).remove(signer) =~= m0.voters(action_id));
        }
    }
}

/// Approving after a revocation restores the approval: the two leave an
/// action's approvals exactly as they were before the revocation.
pub proof fn lemma_approve_restores_revoked(
    m0: &Multisig,
    m1: &Multisig,
    m2: &Multisig,
    signer: AccountId,
    action_id: u64,
)
    requires
        m0.voters(action_id).contains(signer),
        m0.records_revocation(m1, signer, action_id),
        m1.records_approval(m2, signer, action_id),
    ensures
        m2.same_config(m0),
        forall|x: u64| #[trigger] m2.voters(x) == m0.voters(x),
{
    assert forall|x: u64| #[trigger] m2.voters(x) == m0.voters(x) by {
        assert(m1.voters(x) == m1.voters(x));
        if x == action_id {
            assert(m0.voters(action_id).remove(signer).insert(signer) =~= m0.voters(action_id));
        }
    }
}

} // verus!
