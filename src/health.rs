//! Health of the remote accounts of the pool.

use vstd::prelude::*;

verus! {

/// State of one account.
#[derive(Clone, Copy, Debug, PartialEq, Eq, Structural)]
pub enum AccountStatus {
    Healthy,
    /// Failing lately, still used.
    Degraded,
    /// Its blocks are being rebuilt.
    Rebuilding,
    /// Not used for reads.
    Unavailable,
}

/// State of the whole pool.
#[derive(Clone, Copy, Debug, PartialEq, Eq, Structural)]
pub enum ArrayStatus {
    /// Every account is healthy.
    Healthy,
    /// Some account is not healthy, but K accounts can still serve.
    Degraded,
    /// Fewer than K accounts can serve.
    Failed,
}

/// Status after a failed call, given the failures in a row so far.
pub open spec fn after_failure(s: AccountStatus, failures: nat, threshold: nat) -> AccountStatus {
    if failures >= threshold {
        AccountStatus::Unavailable
    } else if s == AccountStatus::Rebuilding {
        AccountStatus::Rebuilding
    } else {
        AccountStatus::Degraded
    }
}

/// Status after a successful call.
pub open spec fn after_success(s: AccountStatus) -> AccountStatus {
    if s == AccountStatus::Rebuilding { AccountStatus::Rebuilding } else { AccountStatus::Healthy }
}

/// Number of accounts in `s` that can serve (not unavailable).
pub open spec fn serving(s: Seq<AccountStatus>) -> nat
    decreases s.len(),
{
    if s.len() == 0 {
        0
    } else {
        serving(s.drop_last()) + if s.last() != AccountStatus::Unavailable { 1nat } else { 0nat }
    }
}

/// Number of healthy accounts in `s`.
pub open spec fn healthy(s: Seq<AccountStatus>) -> nat
    decreases s.len(),
{
    if s.len() == 0 {
        0
    } else {
        healthy(s.drop_last()) + if s.last() == AccountStatus::Healthy { 1nat } else { 0nat }
    }
}

/// Status and failures in a row of each account.
pub struct HealthTracker {
    status: Vec<AccountStatus>,
    failures: Vec<u32>,
    failure_threshold: u32,
    data_shards: usize,
}

impl HealthTracker {
    pub closed spec fn statuses(&self) -> Seq<AccountStatus> {
        self.status@
    }

    pub closed spec fn failures_in_a_row(&self) -> Seq<u32> {
        self.failures@
    }

    pub closed spec fn threshold(&self) -> nat {
        self.failure_threshold as nat
    }

    pub closed spec fn k(&self) -> nat {
        self.data_shards as nat
    }

    pub closed spec fn wf(&self) -> bool {
        self.status@.len() == self.failures@.len()
    }

    /// `accounts` healthy accounts; an account becomes unavailable after
    /// `failure_threshold` failures in a row; K = `data_shards` must serve.
    pub fn new(accounts: usize, failure_threshold: u32, data_shards: usize) -> (r: Self)
        ensures
            r.wf(),
            r.statuses() == Seq::new(accounts as nat, |i: int| AccountStatus::Healthy),
            r.failures_in_a_row() == Seq::new(accounts as nat, |i: int| 0u32),
            r.threshold() == failure_threshold,
            r.k() == data_shards,
    {
        let mut status: Vec<AccountStatus> = Vec::new();
        let mut failures: Vec<u32> = Vec::new();
        let mut i: usize = 0;
        while i < accounts
            invariant
                i <= accounts,
                status@ == Seq::new(i as nat, |j: int| AccountStatus::Healthy),
                failures@ == Seq::new(i as nat, |j: int| 0u32),
            decreases accounts - i,
        {
            status.push(AccountStatus::Healthy);
            failures.push(0);
            i = i + 1;
            assert(status@ =~= Seq::new(i as nat, |j: int| AccountStatus::Healthy));
            assert(failures@ =~= Seq::new(i as nat, |j: int| 0u32));
        }
        HealthTracker { status, failures, failure_threshold, data_shards }
    }

    /// Status of `account`; an unknown account is unavailable.
    pub fn account_status(&self, account: u8) -> (r: AccountStatus)
        ensures
            (account as int) < self.statuses().len() ==> r == self.statuses()[account as int],
            (account as int) >= self.statuses().len() ==> r == AccountStatus::Unavailable,
    {
        let a = account as usize;
        if a < self.status.len() { self.status[a] } else { AccountStatus::Unavailable }
    }

    /// Records a successful call to `account`.
    pub fn record_success(&mut self, account: u8)
        requires
            old(self).wf(),
        ensures
            final(self).wf(),
            final(self).threshold() == old(self).threshold(),
            final(self).k() == old(self).k(),
            (account as int) < old(self).statuses().len() ==> final(self).statuses()
                == old(self).statuses().update(account as int, after_success(old(self).statuses()[account as int]))
                && final(self).failures_in_a_row() == old(self).failures_in_a_row().update(account as int, 0u32),
            (account as int) >= old(self).statuses().len() ==> final(self).statuses() == old(self).statuses()
                && final(self).failures_in_a_row() == old(self).failures_in_a_row(),
    {
        let a = account as usize;
        if a < self.status.len() {
            let s = self.status[a];
            let next = if s == AccountStatus::Rebuilding { AccountStatus::Rebuilding } else { AccountStatus::Healthy };
            self.status.set(a, next);
            self.failures.set(a, 0);
        }
    }

    /// Records a failed call to `account`.
    pub fn record_failure(&mut self, account: u8)
        requires
            old(self).wf(),
        ensures
            final(self).wf(),
            final(self).threshold() == old(self).threshold(),
            final(self).k() == old(self).k(),
            (account as int) < old(self).statuses().len() ==> {
                let f = old(self).failures_in_a_row()[account as int];
                let f1 = if f < u32::MAX { (f + 1) as u32 } else { f };
                &&& final(self).failures_in_a_row() == old(self).failures_in_a_row().update(account as int, f1)
                &&& final(self).statuses() == old(self).statuses().update(account as int,
                    after_failure(old(self).statuses()[account as int], f1 as nat, old(self).threshold()))
            },
            (account as int) >= old(self).statuses().len() ==> final(self).statuses() == old(self).statuses()
                && final(self).failures_in_a_row() == old(self).failures_in_a_row(),
    {
        let a = account as usize;
        if a < self.status.len() {
            let f = self.failures[a];
            let f1 = if f < u32::MAX { f + 1 } else { f };
            let s = self.status[a];
            let next = if f1 >= self.failure_threshold {
                AccountStatus::Unavailable
            } else if s == AccountStatus::Rebuilding {
                AccountStatus::Rebuilding
            } else {
                AccountStatus::Degraded
            };
            self.status.set(a, next);
            self.failures.set(a, f1);
        }
    }

    /// Sets the status of `account` (marking it rebuilding, healthy again,
    /// or unavailable by hand); `Healthy` also clears its failures.
    pub fn set_status(&mut self, account: u8, status: AccountStatus)
        requires
            old(self).wf(),
        ensures
            final(self).wf(),
            final(self).threshold() == old(self).threshold(),
            final(self).k() == old(self).k(),
            (account as int) < old(self).statuses().len() ==>
                final(self).statuses() == old(self).statuses().update(account as int, status),
            (account as int) < old(self).statuses().len() && status == AccountStatus::Healthy ==>
                final(self).failures_in_a_row() == old(self).failures_in_a_row().update(account as int, 0u32),
            (account as int) < old(self).statuses().len() && status != AccountStatus::Healthy ==>
                final(self).failures_in_a_row() == old(self).failures_in_a_row(),
            (account as int) >= old(self).statuses().len() ==> final(self).statuses() == old(self).statuses()
                && final(self).failures_in_a_row() == old(self).failures_in_a_row(),
    {
        let a = account as usize;
        if a < self.status.len() {
            self.status.set(a, status);
            if status == AccountStatus::Healthy {
                self.failures.set(a, 0);
            }
        }
    }

    /// Number of healthy accounts.
    pub fn healthy_count(&self) -> (r: usize)
        ensures
            r == healthy(self.statuses()),
    {
        let mut n: usize = 0;
        let mut i: usize = 0;
        while i < self.status.len()
            invariant
                i <= self.status@.len(),
                n <= i,
                n == healthy(self.status@.subrange(0, i as int)),
            decreases self.status@.len() - i,
        {
            assert(self.status@.subrange(0, i as int + 1).drop_last() =~= self.status@.subrange(0, i as int));
            if self.status[i] == AccountStatus::Healthy {
                n = n + 1;
            }
            i = i + 1;
        }
        assert(self.status@.subrange(0, i as int) =~= self.status@);
        n
    }

    /// Number of accounts that can serve.
    pub fn serving_count(&self) -> (r: usize)
        ensures
            r == serving(self.statuses()),
    {
        let mut n: usize = 0;
        let mut i: usize = 0;
        while i < self.status.len()
            invariant
                i <= self.status@.len(),
                n <= i,
                n == serving(self.status@.subrange(0, i as int)),
            decreases self.status@.len() - i,
        {
            assert(self.status@.subrange(0, i as int + 1).drop_last() =~= self.status@.subrange(0, i as int));
            if self.status[i] != AccountStatus::Unavailable {
                n = n + 1;
            }
            i = i + 1;
        }
        assert(self.status@.subrange(0, i as int) =~= self.status@);
        n
    }

    /// Whether K accounts can serve: stripes can still be read and rebuilt.
    pub fn can_operate(&self) -> (r: bool)
        ensures
            r == (serving(self.statuses()) >= self.k()),
    {
        self.serving_count() >= self.data_shards
    }

    /// State of the whole pool.
    pub fn array_status(&self) -> (r: ArrayStatus)
        ensures
            serving(self.statuses()) < self.k() ==> r == ArrayStatus::Failed,
            serving(self.statuses()) >= self.k() && healthy(self.statuses()) == self.statuses().len()
                ==> r == ArrayStatus::Healthy,
            serving(self.statuses()) >= self.k() && healthy(self.statuses()) != self.statuses().len()
                ==> r == ArrayStatus::Degraded,
    {
        if !self.can_operate() {
            ArrayStatus::Failed
        } else if self.healthy_count() == self.status.len() {
            ArrayStatus::Healthy
        } else {
            ArrayStatus::Degraded
        }
    }
}

} // verus!
