use vstd::arithmetic::div_mod::lemma_div_is_ordered;
use vstd::arithmetic::div_mod::lemma_div_of0;
use vstd::arithmetic::div_mod::lemma_div_pos_is_pos;
use vstd::arithmetic::div_mod::lemma_fundamental_div_mod;
use vstd::arithmetic::div_mod::lemma_fundamental_div_mod_converse_div;
use vstd::arithmetic::div_mod::lemma_mod_division_less_than_divisor;
use vstd::arithmetic::div_mod::lemma_multiply_divide_le;
use vstd::arithmetic::mul::lemma_mul_inequality;
use vstd::arithmetic::mul::lemma_mul_is_commutative;
use vstd::arithmetic::mul::lemma_mul_nonnegative;
use vstd::prelude::*;

use crate::errors::Error;
use crate::token::moved;
use crate::token::TokenContract;

verus! {

/// A cliff-plus-linear vesting schedule for one recipient, measured in
/// ledger sequence numbers.
#[derive(Clone, Copy)]
pub struct VestingSchedule {
    /// Identity the schedule vests for; unique key.
    pub recipient: u64,
    /// Amount locked at creation; set once, always positive.
    pub total_amount: i128,
    /// Ledger sequence before which nothing is vested.
    pub cliff_ledger: u32,
    /// Ledger sequence at and after which everything is vested.
    pub end_ledger: u32,
    /// Cumulative amount already paid out.
    pub released_amount: i128,
    /// Once true, vesting is frozen and the schedule is terminal.
    pub revoked: bool,
}

/// Amount vested at ledger sequence `now` on an active cliff-plus-
/// linear schedule: nothing before the cliff, everything at and after
/// the end, and in between the locked total scaled linearly with the
/// quotient floored.
pub open spec fn linear_vested(total: int, cliff: int, end: int, now: int) -> int {
    if now < cliff {
        0
    } else if now >= end {
        total
    } else {
        total * (now - cliff) / (end - cliff)
    }
}

/// Amount vested at ledger sequence `now`. A revoked schedule is
/// frozen at what had vested when the revoke happened, which the
/// revoke recorded as the released amount.
pub open spec fn vested_of(s: VestingSchedule, now: u32) -> int {
    if s.revoked {
        s.released_amount as int
    } else {
        linear_vested(s.total_amount as int, s.cliff_ledger as int, s.end_ledger as int, now as int)
    }
}

/// Well-formedness of one schedule: a positive locked total, an end no
/// earlier than the cliff, and a released amount within the total.
pub open spec fn wf_schedule(s: VestingSchedule) -> bool {
    &&& s.total_amount > 0
    &&& s.cliff_ledger <= s.end_ledger
    &&& 0 <= s.released_amount <= s.total_amount
}

/// The amount vested never leaves the range from zero to the locked
/// total, whatever the ledger sequence.
pub proof fn lemma_vested_bounds(s: VestingSchedule, now: u32)
    requires
        wf_schedule(s),
    ensures
        0 <= vested_of(s, now) <= s.total_amount,
{
    if !s.revoked {
        let total = s.total_amount as int;
        let cliff = s.cliff_ledger as int;
        let end = s.end_ledger as int;
        let n = now as int;
        if cliff <= n < end {
            let d = end - cliff;
            let e = n - cliff;
            lemma_mul_nonnegative(total, e);
            lemma_div_pos_is_pos(total * e, d);
            lemma_mul_inequality(e, d, total);
            lemma_mul_is_commutative(total, e);
            lemma_mul_is_commutative(total, d);
            lemma_multiply_divide_le(total * e, d, total);
        }
    }
}

/// Vesting only grows with the ledger sequence, and a revoked schedule
/// stays frozen: the amount vested at a later sequence is never
/// smaller, and on a revoked schedule it is the same.
pub proof fn lemma_vested_monotonic(s: VestingSchedule, n1: u32, n2: u32)
    requires
        wf_schedule(s),
        n1 <= n2,
    ensures
        vested_of(s, n1) <= vested_of(s, n2),
        s.revoked ==> vested_of(s, n1) == vested_of(s, n2),
{
    if !s.revoked {
        let total = s.total_amount as int;
        let cliff = s.cliff_ledger as int;
        let end = s.end_ledger as int;
        let a = n1 as int;
        let b = n2 as int;
        lemma_vested_bounds(s, n1);
        lemma_vested_bounds(s, n2);
        if cliff <= a < end && cliff <= b < end {
            let d = end - cliff;
            lemma_mul_inequality(a - cliff, b - cliff, total);
            lemma_mul_is_commutative(total, a - cliff);
            lemma_mul_is_commutative(total, b - cliff);
            lemma_div_is_ordered(total * (a - cliff), total * (b - cliff), d);
        }
    }
}

/// At the cliff nothing is vested yet; at the end the whole locked
/// total is vested exactly, with no rounding loss at either boundary.
pub proof fn lemma_vested_at_boundaries(s: VestingSchedule)
    requires
        wf_schedule(s),
        !s.revoked,
        s.cliff_ledger < s.end_ledger,
    ensures
        vested_of(s, s.cliff_ledger) == 0,
        vested_of(s, s.end_ledger) == s.total_amount,
{
    let total = s.total_amount as int;
    let d = s.end_ledger as int - s.cliff_ledger as int;
    assert(total * 0 == 0);
    lemma_div_of0(d);
}

/// Once the released amount is covered by what has vested, it stays
/// covered at every later ledger sequence.
pub proof fn lemma_released_stays_vested(s: VestingSchedule, n1: u32, n2: u32)
    requires
        wf_schedule(s),
        s.released_amount <= vested_of(s, n1),
        n1 <= n2,
    ensures
        s.released_amount <= vested_of(s, n2),
{
    lemma_vested_monotonic(s, n1, n2);
}

/// Computes `linear_vested` exactly, splitting the product so that no
/// intermediate leaves the signed 128-bit range: with `q` and `rem`
/// the quotient and remainder of the total by the span, the answer is
/// `q * elapsed + rem * elapsed / span`.
fn linear_vested_value(total: i128, cliff: u32, end: u32, now: u32) -> (r: i128)
    requires
        total > 0,
        cliff <= end,
    ensures
        r as int == linear_vested(total as int, cliff as int, end as int, now as int),
{
    if now < cliff {
        return 0;
    }
    if now >= end {
        return total;
    }
    let d: i128 = (end - cliff) as i128;
    let e: i128 = (now - cliff) as i128;
    let q: i128 = total / d;
    let rem: i128 = total % d;
    let ghost ti = total as int;
    let ghost di = d as int;
    let ghost ei = e as int;
    proof {
        lemma_fundamental_div_mod(ti, di);
        lemma_div_pos_is_pos(ti, di);
        lemma_mod_division_less_than_divisor(ti, di);
        assert(0 <= (ti / di) * ei <= ti) by (nonlinear_arith)
            requires
                0 <= ti / di,
                0 <= ei,
                ei < di,
                0 <= ti % di,
                ti == di * (ti / di) + ti % di;
        assert(0 <= (ti % di) * ei < di * di) by (nonlinear_arith)
            requires
                0 <= ti % di < di,
                0 <= ei < di;
        assert(di * di <= 0xffff_ffff * 0xffff_ffff) by (nonlinear_arith)
            requires
                0 < di <= 0xffff_ffff;
    }
    let part1: i128 = q * e;
    let prod: i128 = rem * e;
    let part2: i128 = prod / d;
    proof {
        let ghost ki = prod as int / di;
        let ghost ri = prod as int % di;
        lemma_fundamental_div_mod(prod as int, di);
        lemma_mod_division_less_than_divisor(prod as int, di);
        lemma_div_pos_is_pos(prod as int, di);
        assert(ti * ei == ((ti / di) * ei + ki) * di + ri) by (nonlinear_arith)
            requires
                ti == di * (ti / di) + ti % di,
                (ti % di) * ei == di * ki + ri;
        lemma_fundamental_div_mod_converse_div(ti * ei, di, (ti / di) * ei + ki, ri);
        lemma_mul_nonnegative(ti, ei);
        lemma_mul_inequality(ei, di, ti);
        lemma_mul_is_commutative(ti, ei);
        lemma_mul_is_commutative(ti, di);
        lemma_multiply_divide_le(ti * ei, di, ti);
    }
    part1 + part2
}

/// Amount vested on `s` at ledger sequence `now`.
pub fn vested_value(s: &VestingSchedule, now: u32) -> (r: i128)
    requires
        wf_schedule(*s),
    ensures
        r as int == vested_of(*s, now),
{
    if s.revoked {
        s.released_amount
    } else {
        linear_vested_value(s.total_amount, s.cliff_ledger, s.end_ledger, now)
    }
}

/// The schedule stored for `id` in a run of schedule entries, if any.
pub open spec fn schedule_in(s: Seq<VestingSchedule>, id: u64) -> Option<VestingSchedule>
    decreases s.len(),
{
    if s.len() == 0 {
        None
    } else if s.last().recipient == id {
        Some(s.last())
    } else {
        schedule_in(s.drop_last(), id)
    }
}

/// Each recipient appears in at most one entry.
pub open spec fn recipients_distinct(s: Seq<VestingSchedule>) -> bool {
    forall|i: int, j: int|
        0 <= i < s.len() && 0 <= j < s.len() && i != j ==> s[i].recipient != s[j].recipient
}

/// Every stored schedule is well formed.
pub open spec fn schedules_wf(s: Seq<VestingSchedule>) -> bool {
    forall|i: int| 0 <= i < s.len() ==> wf_schedule(#[trigger] s[i])
}

/// A recipient with no entry has no schedule.
proof fn lemma_schedule_absent(s: Seq<VestingSchedule>, id: u64)
    requires
        forall|j: int| 0 <= j < s.len() ==> s[j].recipient != id,
    ensures
        schedule_in(s, id) is None,
    decreases s.len(),
{
    if s.len() > 0 {
        lemma_schedule_absent(s.drop_last(), id);
    }
}

/// With distinct recipients, the entry at `i` is its recipient's
/// schedule.
proof fn lemma_schedule_at_index(s: Seq<VestingSchedule>, i: int)
    requires
        recipients_distinct(s),
        0 <= i < s.len(),
    ensures
        schedule_in(s, s[i].recipient) == Some(s[i]),
    decreases s.len(),
{
    if i < s.len() - 1 {
        assert(s.last().recipient != s[i].recipient);
        assert(s.drop_last()[i] == s[i]);
        lemma_schedule_at_index(s.drop_last(), i);
    }
}

/// Effect of overwriting the entry at `i` with a schedule for the same
/// recipient: that recipient now has the new schedule, everyone else
/// is untouched.
proof fn lemma_schedule_update_effect(s: Seq<VestingSchedule>, i: int, v: VestingSchedule)
    requires
        recipients_distinct(s),
        0 <= i < s.len(),
        v.recipient == s[i].recipient,
    ensures
        recipients_distinct(s.update(i, v)),
        schedule_in(s.update(i, v), v.recipient) == Some(v),
        forall|x: u64| x != v.recipient ==> schedule_in(s.update(i, v), x) == schedule_in(s, x),
    decreases s.len(),
{
    let t = s.update(i, v);
    assert(forall|j: int| 0 <= j < t.len() ==> t[j].recipient == s[j].recipient);
    if i == s.len() - 1 {
        assert(t.drop_last() =~= s.drop_last());
        assert(t.last() == v);
        assert forall|x: u64| x != v.recipient implies schedule_in(t, x) == schedule_in(s, x) by {
            assert(schedule_in(t, x) == schedule_in(t.drop_last(), x));
            assert(schedule_in(s, x) == schedule_in(s.drop_last(), x));
        }
    } else {
        assert(t.last() == s.last());
        assert(t.drop_last() =~= s.drop_last().update(i, v));
        assert(s.drop_last()[i] == s[i]);
        lemma_schedule_update_effect(s.drop_last(), i, v);
        assert forall|x: u64| x != v.recipient implies schedule_in(t, x) == schedule_in(s, x) by {
            if s.last().recipient != x {
                assert(schedule_in(t, x) == schedule_in(t.drop_last(), x));
                assert(schedule_in(s, x) == schedule_in(s.drop_last(), x));
            }
        }
    }
}

/// Effect of appending an entry for a recipient not yet present.
proof fn lemma_schedule_push_effect(s: Seq<VestingSchedule>, v: VestingSchedule)
    requires
        recipients_distinct(s),
        forall|j: int| 0 <= j < s.len() ==> s[j].recipient != v.recipient,
    ensures
        recipients_distinct(s.push(v)),
        schedule_in(s.push(v), v.recipient) == Some(v),
        forall|x: u64| x != v.recipient ==> schedule_in(s.push(v), x) == schedule_in(s, x),
{
    let t = s.push(v);
    assert(t.drop_last() =~= s);
    assert(t.last() == v);
    assert(forall|j: int| 0 <= j < s.len() ==> t[j] == s[j]);
}

/// Index of the entry for `id`, if one is stored.
fn find_schedule(schedules: &Vec<VestingSchedule>, id: u64) -> (r: Option<usize>)
    ensures
        match r {
            Some(i) => i < schedules@.len() && schedules@[i as int].recipient == id,
            None => forall|j: int| 0 <= j < schedules@.len() ==> schedules@[j].recipient != id,
        },
{
    let mut i: usize = 0;
    while i < schedules.len()
        invariant
            i <= schedules@.len(),
            forall|j: int| 0 <= j < i ==> schedules@[j].recipient != id,
        decreases schedules@.len() - i,
    {
        if schedules[i].recipient == id {
            return Some(i);
        }
        i = i + 1;
    }
    None
}

/// The vesting engine: admin configuration, a handle on the token
/// ledger, and one schedule per recipient. Locked tokens are held on
/// the token ledger under the engine's own identity.
pub struct VestingContract {
    /// The engine's own identity on the token ledger, under which it
    /// holds the locked tokens.
    pub self_id: u64,
    /// Whether `initialize` has run.
    pub initialized: bool,
    /// Identity authorized to create and revoke schedules.
    pub admin_id: u64,
    /// Address of the token ledger instance the engine calls into.
    pub token_id: u64,
    /// The stored schedules, one per recipient.
    pub schedules: Vec<VestingSchedule>,
}

impl VestingContract {
    /// The schedule stored for `id`, if any.
    pub open spec fn schedule_of(self, id: u64) -> Option<VestingSchedule> {
        schedule_in(self.schedules@, id)
    }

    /// Amount vested for `id` at ledger sequence `now`; zero where no
    /// schedule is stored.
    pub open spec fn vested_now(self, id: u64, now: u32) -> int {
        match self.schedule_of(id) {
            Some(s) => vested_of(s, now),
            None => 0,
        }
    }

    /// Amount already paid out to `id`; zero where no schedule is
    /// stored.
    pub open spec fn released_of(self, id: u64) -> int {
        match self.schedule_of(id) {
            Some(s) => s.released_amount as int,
            None => 0,
        }
    }

    /// Well-formedness: distinct recipients, every schedule well
    /// formed, and no schedules before initialization.
    pub open spec fn wf(self) -> bool {
        &&& recipients_distinct(self.schedules@)
        &&& schedules_wf(self.schedules@)
        &&& !self.initialized ==> self.schedules@.len() == 0
    }

    /// The configuration fields `initialize` writes once, and the
    /// engine's own identity, are the same in both states.
    pub open spec fn config_unchanged(pre: VestingContract, post: VestingContract) -> bool {
        &&& post.self_id == pre.self_id
        &&& post.initialized == pre.initialized
        &&& post.admin_id == pre.admin_id
        &&& post.token_id == pre.token_id
    }

    /// Exactly how `create_schedule` answers on a given prior state.
    pub open spec fn create_outcome(
        pre: VestingContract,
        token: TokenContract,
        caller: u64,
        recipient: u64,
        total_amount: i128,
        cliff_ledger: u32,
        end_ledger: u32,
    ) -> Result<(), Error> {
        if caller != pre.admin_id {
            Err(Error::Unauthorized)
        } else if schedule_in(pre.schedules@, recipient) is Some {
            Err(Error::ScheduleExists)
        } else if total_amount <= 0 {
            Err(Error::InvalidAmount)
        } else if end_ledger < cliff_ledger {
            Err(Error::InvalidSchedule)
        } else if token.balance_of(pre.self_id) < total_amount {
            Err(Error::InsufficientBalance)
        } else {
            Ok(())
        }
    }

    /// The vested-but-unreleased part of `s` at `now`, floored at
    /// zero: what a release at `now` would pay out.
    pub open spec fn payable_of(s: VestingSchedule, now: u32) -> int {
        if vested_of(s, now) - s.released_amount > 0 {
            vested_of(s, now) - s.released_amount
        } else {
            0
        }
    }

    /// Exactly how `release` answers on a given prior state.
    pub open spec fn release_outcome(
        pre: VestingContract,
        token: TokenContract,
        recipient: u64,
        now: u32,
    ) -> Result<(), Error> {
        match schedule_in(pre.schedules@, recipient) {
            None => Err(Error::NoSchedule),
            Some(s) => if VestingContract::payable_of(s, now) == 0 {
                Ok(())
            } else if token.balance_of(pre.self_id) < VestingContract::payable_of(s, now) {
                Err(Error::InsufficientBalance)
            } else {
                Ok(())
            },
        }
    }

    /// Balance the engine must hold for a revoke to pay both sides:
    /// the payable part and the unvested remainder, which collapse to
    /// their maximum when the recipient is the engine itself.
    pub open spec fn revoke_needed(pre: VestingContract, s: VestingSchedule, recipient: u64, now: u32) -> int {
        let payable = VestingContract::payable_of(s, now);
        let remainder = s.total_amount - vested_of(s, now);
        if recipient == pre.self_id {
            if payable > remainder {
                payable
            } else {
                remainder
            }
        } else {
            payable + remainder
        }
    }

    /// Exactly how `revoke` answers on a given prior state.
    pub open spec fn revoke_outcome(
        pre: VestingContract,
        token: TokenContract,
        caller: u64,
        recipient: u64,
        now: u32,
    ) -> Result<(), Error> {
        if caller != pre.admin_id {
            Err(Error::Unauthorized)
        } else {
            match schedule_in(pre.schedules@, recipient) {
                None => Err(Error::NoSchedule),
                Some(s) => if s.revoked {
                    Err(Error::AlreadyRevoked)
                } else if token.balance_of(pre.self_id) < VestingContract::revoke_needed(
                    pre,
                    s,
                    recipient,
                    now,
                ) {
                    Err(Error::InsufficientBalance)
                } else {
                    Ok(())
                },
            }
        }
    }

    /// An empty, uninitialized engine that will hold locked tokens
    /// under `self_address` on the token ledger.
    pub fn new(self_address: u64) -> (r: VestingContract)
        ensures
            r.wf(),
            !r.initialized,
            r.self_id == self_address,
            forall|x: u64| r.schedule_of(x) is None,
    {
        let r = VestingContract {
            self_id: self_address,
            initialized: false,
            admin_id: 0,
            token_id: 0,
            schedules: Vec::new(),
        };
        assert(forall|x: u64| r.schedule_of(x) is None);
        r
    }

    /// Records the admin identity and the token ledger address, once.
    pub fn initialize(&mut self, admin: u64, token_contract: u64) -> (r: Result<(), Error>)
        requires
            old(self).wf(),
        ensures
            final(self).wf(),
            old(self).initialized ==> r == Err::<(), Error>(Error::AlreadyInitialized)
                && *final(self) == *old(self),
            !old(self).initialized ==> {
                &&& r == Ok::<(), Error>(())
                &&& final(self).initialized
                &&& final(self).admin_id == admin
                &&& final(self).token_id == token_contract
                &&& final(self).self_id == old(self).self_id
                &&& final(self).schedules@ == old(self).schedules@
            },
    {
        if self.initialized {
            return Err(Error::AlreadyInitialized);
        }
        self.initialized = true;
        self.admin_id = admin;
        self.token_id = token_contract;
        Ok(())
    }

    /// Admin-only: locks `total_amount` already held under the
    /// engine's identity on `token` behind a new cliff-plus-linear
    /// schedule for `recipient`.
    pub fn create_schedule(
        &mut self,
        token: &TokenContract,
        caller: u64,
        recipient: u64,
        total_amount: i128,
        cliff_ledger: u32,
        end_ledger: u32,
    ) -> (r: Result<(), Error>)
        requires
            old(self).wf(),
            old(self).initialized,
            token.wf(),
        ensures
            final(self).wf(),
            r == VestingContract::create_outcome(
                *old(self),
                *token,
                caller,
                recipient,
                total_amount,
                cliff_ledger,
                end_ledger,
            ),
            VestingContract::config_unchanged(*old(self), *final(self)),
            r is Err ==> *final(self) == *old(self),
            r is Ok ==> {
                &&& final(self).schedule_of(recipient) == Some(
                    (VestingSchedule {
                        recipient,
                        total_amount,
                        cliff_ledger,
                        end_ledger,
                        released_amount: 0,
                        revoked: false,
                    }),
                )
                &&& forall|x: u64|
                    x != recipient ==> final(self).schedule_of(x) == old(self).schedule_of(x)
            },
    {
        if caller != self.admin_id {
            return Err(Error::Unauthorized);
        }
        match find_schedule(&self.schedules, recipient) {
            Some(i) => {
                proof {
                    lemma_schedule_at_index(self.schedules@, i as int);
                }
                return Err(Error::ScheduleExists);
            },
            None => {
                proof {
                    lemma_schedule_absent(self.schedules@, recipient);
                }
            },
        }
        if total_amount <= 0 {
            return Err(Error::InvalidAmount);
        }
        if end_ledger < cliff_ledger {
            return Err(Error::InvalidSchedule);
        }
        if token.balance(self.self_id) < total_amount {
            return Err(Error::InsufficientBalance);
        }
        let entry = VestingSchedule {
            recipient,
            total_amount,
            cliff_ledger,
            end_ledger,
            released_amount: 0,
            revoked: false,
        };
        proof {
            lemma_schedule_push_effect(self.schedules@, entry);
        }
        self.schedules.push(entry);
        Ok(())
    }

    /// Pays the vested-but-unreleased part out to `recipient` through
    /// the token ledger, then records it as released; callable by
    /// anyone, a no-op when nothing is payable.
    pub fn release(&mut self, token: &mut TokenContract, recipient: u64, now: u32) -> (r: Result<
        (),
        Error,
    >)
        requires
            old(self).wf(),
            old(self).initialized,
            old(token).wf(),
            old(token).initialized,
        ensures
            final(self).wf(),
            final(token).wf(),
            r == VestingContract::release_outcome(*old(self), *old(token), recipient, now),
            VestingContract::config_unchanged(*old(self), *final(self)),
            TokenContract::config_unchanged(*old(token), *final(token)),
            final(token).supply == old(token).supply,
            r is Err ==> *final(self) == *old(self) && *final(token) == *old(token),
            r is Ok ==> match schedule_in(old(self).schedules@, recipient) {
                Some(s) => {
                    let pay = VestingContract::payable_of(s, now);
                    &&& final(self).schedule_of(recipient) == Some(
                        (VestingSchedule {
                            recipient: s.recipient,
                            total_amount: s.total_amount,
                            cliff_ledger: s.cliff_ledger,
                            end_ledger: s.end_ledger,
                            released_amount: (s.released_amount + pay) as i128,
                            revoked: s.revoked,
                        }),
                    )
                    &&& forall|x: u64|
                        x != recipient ==> final(self).schedule_of(x) == old(self).schedule_of(x)
                    &&& forall|x: u64|
                        final(token).balance_of(x) == moved(
                            old(token).balance_of(x),
                            x,
                            old(self).self_id,
                            recipient,
                            pay,
                        )
                },
                None => false,
            },
    {
        let i: usize = match find_schedule(&self.schedules, recipient) {
            None => {
                proof {
                    lemma_schedule_absent(self.schedules@, recipient);
                }
                return Err(Error::NoSchedule);
            },
            Some(i) => i,
        };
        proof {
            lemma_schedule_at_index(self.schedules@, i as int);
        }
        let s = self.schedules[i];
        proof {
            lemma_vested_bounds(s, now);
        }
        let vested = vested_value(&s, now);
        let payable: i128 = vested - s.released_amount;
        if payable <= 0 {
            return Ok(());
        }
        let tr = token.transfer(self.self_id, self.self_id, recipient, payable);
        match tr {
            Err(e) => {
                return Err(e);
            },
            Ok(()) => {},
        }
        let updated = VestingSchedule {
            recipient: s.recipient,
            total_amount: s.total_amount,
            cliff_ledger: s.cliff_ledger,
            end_ledger: s.end_ledger,
            released_amount: vested,
            revoked: s.revoked,
        };
        proof {
            lemma_schedule_update_effect(self.schedules@, i as int, updated);
        }
        self.schedules[i] = updated;
        Ok(())
    }

    /// Admin-only: freezes the schedule, pays the vested-but-
    /// unreleased part to the recipient and the unvested remainder
    /// back to the admin, all within one atomic step.
    pub fn revoke(&mut self, token: &mut TokenContract, caller: u64, recipient: u64, now: u32) -> (r:
        Result<(), Error>)
        requires
            old(self).wf(),
            old(self).initialized,
            old(token).wf(),
            old(token).initialized,
        ensures
            final(self).wf(),
            final(token).wf(),
            r == VestingContract::revoke_outcome(*old(self), *old(token), caller, recipient, now),
            VestingContract::config_unchanged(*old(self), *final(self)),
            TokenContract::config_unchanged(*old(token), *final(token)),
            final(token).supply == old(token).supply,
            r is Err ==> *final(self) == *old(self) && *final(token) == *old(token),
            r is Ok ==> match schedule_in(old(self).schedules@, recipient) {
                Some(s) => {
                    let vested = vested_of(s, now);
                    let pay = VestingContract::payable_of(s, now);
                    let rem = s.total_amount - vested;
                    &&& final(self).schedule_of(recipient) == Some(
                        (VestingSchedule {
                            recipient: s.recipient,
                            total_amount: s.total_amount,
                            cliff_ledger: s.cliff_ledger,
                            end_ledger: s.end_ledger,
                            released_amount: vested as i128,
                            revoked: true,
                        }),
                    )
                    &&& forall|x: u64|
                        x != recipient ==> final(self).schedule_of(x) == old(self).schedule_of(x)
                    &&& forall|x: u64|
                        final(token).balance_of(x) == moved(
                            moved(old(token).balance_of(x), x, old(self).self_id, recipient, pay),
                            x,
                            old(self).self_id,
                            old(self).admin_id,
                            rem,
                        )
                },
                None => false,
            },
    {
        if caller != self.admin_id {
            return Err(Error::Unauthorized);
        }
        let i: usize = match find_schedule(&self.schedules, recipient) {
            None => {
                proof {
                    lemma_schedule_absent(self.schedules@, recipient);
                }
                return Err(Error::NoSchedule);
            },
            Some(i) => i,
        };
        proof {
            lemma_schedule_at_index(self.schedules@, i as int);
        }
        let s = self.schedules[i];
        if s.revoked {
            return Err(Error::AlreadyRevoked);
        }
        proof {
            lemma_vested_bounds(s, now);
        }
        let vested = vested_value(&s, now);
        let mut payable: i128 = vested - s.released_amount;
        if payable < 0 {
            payable = 0;
        }
        let remainder: i128 = s.total_amount - vested;
        let needed: i128 = if recipient == self.self_id {
            if payable > remainder {
                payable
            } else {
                remainder
            }
        } else {
            payable + remainder
        };
        let held = token.balance(self.self_id);
        if held < needed {
            return Err(Error::InsufficientBalance);
        }
        if payable > 0 {
            let tr = token.transfer(self.self_id, self.self_id, recipient, payable);
            match tr {
                Ok(()) => {},
                Err(e) => {
                    proof {
                        assert(false);
                    }
                    return Err(e);
                },
            }
        }
        proof {
            assert(token.balance_of(self.self_id) >= remainder);
        }
        if remainder > 0 {
            let tr2 = token.transfer(self.self_id, self.self_id, self.admin_id, remainder);
            match tr2 {
                Ok(()) => {},
                Err(e) => {
                    proof {
                        assert(false);
                    }
                    return Err(e);
                },
            }
        }
        let updated = VestingSchedule {
            recipient: s.recipient,
            total_amount: s.total_amount,
            cliff_ledger: s.cliff_ledger,
            end_ledger: s.end_ledger,
            released_amount: vested,
            revoked: true,
        };
        proof {
            lemma_schedule_update_effect(self.schedules@, i as int, updated);
        }
        self.schedules[i] = updated;
        Ok(())
    }

    /// Amount vested for `recipient` at ledger sequence `now`; zero
    /// where no schedule is stored.
    pub fn vested_amount(&self, recipient: u64, now: u32) -> (r: i128)
        requires
            self.wf(),
        ensures
            r as int == self.vested_now(recipient, now),
    {
        match find_schedule(&self.schedules, recipient) {
            None => {
                proof {
                    lemma_schedule_absent(self.schedules@, recipient);
                }
                0
            },
            Some(i) => {
                proof {
                    lemma_schedule_at_index(self.schedules@, i as int);
                }
                let s = self.schedules[i];
                vested_value(&s, now)
            },
        }
    }

    /// Amount already paid out to `recipient`; zero where no schedule
    /// is stored.
    pub fn released_amount(&self, recipient: u64) -> (r: i128)
        requires
            self.wf(),
        ensures
            r as int == self.released_of(recipient),
    {
        match find_schedule(&self.schedules, recipient) {
            None => {
                proof {
                    lemma_schedule_absent(self.schedules@, recipient);
                }
                0
            },
            Some(i) => {
                proof {
                    lemma_schedule_at_index(self.schedules@, i as int);
                }
                self.schedules[i].released_amount
            },
        }
    }

    /// Amount a release at ledger sequence `now` would pay out to
    /// `recipient`: the vested-but-unreleased part, floored at zero.
    pub fn payable_amount(&self, recipient: u64, now: u32) -> (r: i128)
        requires
            self.wf(),
        ensures
            r as int == match schedule_in(self.schedules@, recipient) {
                Some(s) => VestingContract::payable_of(s, now),
                None => 0,
            },
    {
        match find_schedule(&self.schedules, recipient) {
            None => {
                proof {
                    lemma_schedule_absent(self.schedules@, recipient);
                }
                0
            },
            Some(i) => {
                proof {
                    lemma_schedule_at_index(self.schedules@, i as int);
                }
                let s = self.schedules[i];
                proof {
                    lemma_vested_bounds(s, now);
                }
                let vested = vested_value(&s, now);
                let payable: i128 = vested - s.released_amount;
                if payable > 0 {
                    payable
                } else {
                    0
                }
            },
        }
    }
}

} // verus!
