use vstd::prelude::*;

use crate::errors::Error;

verus! {

/// One holder's balance on the ledger. A zero amount is equivalent to
/// the entry being absent.
pub struct Balance {
    /// Identity of the holder.
    pub owner: u64,
    /// Amount held; never negative in a well-formed ledger.
    pub amount: i128,
}

/// Sum of the amounts of a run of balance entries.
pub open spec fn sum_amounts(s: Seq<Balance>) -> int
    decreases s.len(),
{
    if s.len() == 0 {
        0
    } else {
        sum_amounts(s.drop_last()) + s.last().amount as int
    }
}

/// Amount held by `id` in a run of balance entries: the amount of the
/// entry owned by `id`, or zero where none is.
pub open spec fn balance_in(s: Seq<Balance>, id: u64) -> int
    decreases s.len(),
{
    if s.len() == 0 {
        0
    } else if s.last().owner == id {
        s.last().amount as int
    } else {
        balance_in(s.drop_last(), id)
    }
}

/// Each owner appears in at most one entry.
pub open spec fn owners_distinct(s: Seq<Balance>) -> bool {
    forall|i: int, j: int|
        0 <= i < s.len() && 0 <= j < s.len() && i != j ==> s[i].owner != s[j].owner
}

/// Every entry's amount is non-negative.
pub open spec fn amounts_nonneg(s: Seq<Balance>) -> bool {
    forall|i: int| 0 <= i < s.len() ==> s[i].amount >= 0
}

/// A holder's balance after `amt` moved from `from` to `to`: the net
/// effect on `id` of one transfer, zero when `from == to`.
pub open spec fn moved(bal: int, id: u64, from: u64, to: u64, amt: int) -> int {
    bal - (if id == from {
        amt
    } else {
        0
    }) + (if id == to {
        amt
    } else {
        0
    })
}

proof fn lemma_sum_nonneg(s: Seq<Balance>)
    requires
        amounts_nonneg(s),
    ensures
        sum_amounts(s) >= 0,
    decreases s.len(),
{
    if s.len() > 0 {
        assert(s.last().amount >= 0);
        lemma_sum_nonneg(s.drop_last());
    }
}

/// A single non-negative entry never holds more than the whole sum.
proof fn lemma_balance_le_sum(s: Seq<Balance>, id: u64)
    requires
        amounts_nonneg(s),
    ensures
        0 <= balance_in(s, id),
        balance_in(s, id) <= sum_amounts(s),
    decreases s.len(),
{
    if s.len() > 0 {
        assert(s.last().amount >= 0);
        lemma_sum_nonneg(s.drop_last());
        lemma_balance_le_sum(s.drop_last(), id);
    }
}

/// Two different holders together never hold more than the whole sum.
proof fn lemma_pair_le_sum(s: Seq<Balance>, a: u64, b: u64)
    requires
        amounts_nonneg(s),
        a != b,
    ensures
        balance_in(s, a) + balance_in(s, b) <= sum_amounts(s),
    decreases s.len(),
{
    if s.len() > 0 {
        assert(s.last().amount >= 0);
        lemma_balance_le_sum(s.drop_last(), a);
        lemma_balance_le_sum(s.drop_last(), b);
        lemma_pair_le_sum(s.drop_last(), a, b);
    }
}

/// An owner with no entry holds zero.
proof fn lemma_absent_zero(s: Seq<Balance>, id: u64)
    requires
        forall|j: int| 0 <= j < s.len() ==> s[j].owner != id,
    ensures
        balance_in(s, id) == 0,
    decreases s.len(),
{
    if s.len() > 0 {
        lemma_absent_zero(s.drop_last(), id);
    }
}

/// With distinct owners, the entry at `i` is what its owner holds.
proof fn lemma_balance_at_index(s: Seq<Balance>, i: int)
    requires
        owners_distinct(s),
        0 <= i < s.len(),
    ensures
        balance_in(s, s[i].owner) == s[i].amount,
    decreases s.len(),
{
    if i < s.len() - 1 {
        assert(s.last().owner != s[i].owner);
        assert(s.drop_last()[i] == s[i]);
        lemma_balance_at_index(s.drop_last(), i);
    }
}

/// Effect of overwriting the amount of the entry at `i`: its owner now
/// holds the new amount, everyone else is untouched, and the sum moves
/// by the difference.
proof fn lemma_update_effect(s: Seq<Balance>, i: int, v: Balance)
    requires
        owners_distinct(s),
        0 <= i < s.len(),
        v.owner == s[i].owner,
    ensures
        owners_distinct(s.update(i, v)),
        sum_amounts(s.update(i, v)) == sum_amounts(s) - s[i].amount + v.amount,
        balance_in(s.update(i, v), v.owner) == v.amount,
        forall|x: u64| x != v.owner ==> balance_in(s.update(i, v), x) == balance_in(s, x),
    decreases s.len(),
{
    let t = s.update(i, v);
    assert(forall|j: int| 0 <= j < t.len() ==> t[j].owner == s[j].owner);
    if i == s.len() - 1 {
        assert(t.drop_last() =~= s.drop_last());
        assert(t.last() == v);
        assert forall|x: u64| x != v.owner implies balance_in(t, x) == balance_in(s, x) by {
            assert(balance_in(t, x) == balance_in(t.drop_last(), x));
            assert(balance_in(s, x) == balance_in(s.drop_last(), x));
        }
    } else {
        assert(t.last() == s.last());
        assert(t.drop_last() =~= s.drop_last().update(i, v));
        assert(s.drop_last()[i] == s[i]);
        lemma_update_effect(s.drop_last(), i, v);
        assert forall|x: u64| x != v.owner implies balance_in(t, x) == balance_in(s, x) by {
            if s.last().owner != x {
                assert(balance_in(t, x) == balance_in(t.drop_last(), x));
                assert(balance_in(s, x) == balance_in(s.drop_last(), x));
            }
        }
    }
}

/// Effect of appending an entry for an owner not yet present.
proof fn lemma_push_effect(s: Seq<Balance>, b: Balance)
    requires
        owners_distinct(s),
        forall|j: int| 0 <= j < s.len() ==> s[j].owner != b.owner,
    ensures
        owners_distinct(s.push(b)),
        sum_amounts(s.push(b)) == sum_amounts(s) + b.amount,
        balance_in(s.push(b), b.owner) == b.amount,
        forall|x: u64| x != b.owner ==> balance_in(s.push(b), x) == balance_in(s, x),
{
    let t = s.push(b);
    assert(t.drop_last() =~= s);
    assert(t.last() == b);
    assert(forall|j: int| 0 <= j < s.len() ==> t[j] == s[j]);
}

/// Index of the entry owned by `id`, if one is stored.
fn find_owner(accounts: &Vec<Balance>, id: u64) -> (r: Option<usize>)
    ensures
        match r {
            Some(i) => i < accounts@.len() && accounts@[i as int].owner == id,
            None => forall|j: int| 0 <= j < accounts@.len() ==> accounts@[j].owner != id,
        },
{
    let mut i: usize = 0;
    while i < accounts.len()
        invariant
            i <= accounts@.len(),
            forall|j: int| 0 <= j < i ==> accounts@[j].owner != id,
        decreases accounts@.len() - i,
    {
        if accounts[i].owner == id {
            return Some(i);
        }
        i = i + 1;
    }
    None
}

/// Amount the entries hold for `id`; zero where no entry is stored.
fn lookup_balance(accounts: &Vec<Balance>, id: u64) -> (r: i128)
    requires
        owners_distinct(accounts@),
    ensures
        r as int == balance_in(accounts@, id),
{
    match find_owner(accounts, id) {
        Some(i) => {
            proof {
                lemma_balance_at_index(accounts@, i as int);
            }
            accounts[i].amount
        },
        None => {
            proof {
                lemma_absent_zero(accounts@, id);
            }
            0
        },
    }
}

/// Moves `id`'s balance by `delta`, creating the entry on first
/// credit. The caller guarantees the new balance stays in range.
fn adjust(accounts: &mut Vec<Balance>, id: u64, delta: i128)
    requires
        owners_distinct(old(accounts)@),
        amounts_nonneg(old(accounts)@),
        0 <= balance_in(old(accounts)@, id) + delta,
        balance_in(old(accounts)@, id) + delta <= i128::MAX,
    ensures
        owners_distinct(final(accounts)@),
        amounts_nonneg(final(accounts)@),
        sum_amounts(final(accounts)@) == sum_amounts(old(accounts)@) + delta,
        balance_in(final(accounts)@, id) == balance_in(old(accounts)@, id) + delta,
        forall|x: u64|
            x != id ==> balance_in(final(accounts)@, x) == balance_in(old(accounts)@, x),
{
    match find_owner(accounts, id) {
        Some(i) => {
            proof {
                lemma_balance_at_index(accounts@, i as int);
            }
            let entry = Balance { owner: id, amount: accounts[i].amount + delta };
            proof {
                lemma_update_effect(accounts@, i as int, entry);
            }
            accounts[i] = entry;
        },
        None => {
            proof {
                lemma_absent_zero(accounts@, id);
                lemma_push_effect(accounts@, Balance { owner: id, amount: delta });
            }
            accounts.push(Balance { owner: id, amount: delta });
        },
    }
}

/// The fungible token ledger: configuration, outstanding supply, and
/// one balance entry per holder.
pub struct TokenContract {
    /// Whether `initialize` has run.
    pub initialized: bool,
    /// Identity authorized to mint.
    pub admin_id: u64,
    /// Fixed display precision.
    pub token_decimals: u32,
    /// Display name.
    pub token_name: String,
    /// Display symbol.
    pub token_symbol: String,
    /// Current outstanding amount; always the sum of all balances.
    pub supply: i128,
    /// Optional supply ceiling; `None` means unbounded.
    pub cap: Option<i128>,
    /// The balance entries, one per holder.
    pub accounts: Vec<Balance>,
}

impl TokenContract {
    /// Amount held by `id`; zero for an identity never credited.
    pub open spec fn balance_of(self, id: u64) -> int {
        balance_in(self.accounts@, id)
    }

    /// Well-formedness: distinct holders, non-negative balances, the
    /// supply equal to the sum of all balances and under the ceiling,
    /// and an empty ledger before initialization.
    pub open spec fn wf(self) -> bool {
        &&& owners_distinct(self.accounts@)
        &&& amounts_nonneg(self.accounts@)
        &&& self.supply == sum_amounts(self.accounts@)
        &&& self.supply >= 0
        &&& match self.cap {
            Some(m) => self.supply <= m,
            None => true,
        }
        &&& !self.initialized ==> self.accounts@.len() == 0 && self.cap is None
    }

    /// The configuration fields `initialize` writes once are the same
    /// in both states.
    pub open spec fn config_unchanged(pre: TokenContract, post: TokenContract) -> bool {
        &&& post.initialized == pre.initialized
        &&& post.admin_id == pre.admin_id
        &&& post.token_decimals == pre.token_decimals
        &&& post.token_name == pre.token_name
        &&& post.token_symbol == pre.token_symbol
        &&& post.cap == pre.cap
    }

    /// Exactly how `initialize` answers on a given prior state.
    pub open spec fn initialize_outcome(
        pre: TokenContract,
        initial_supply: i128,
        max_supply: Option<i128>,
    ) -> Result<(), Error> {
        if pre.initialized {
            Err(Error::AlreadyInitialized)
        } else if initial_supply < 0 {
            Err(Error::InvalidSupply)
        } else if match max_supply {
            Some(m) => initial_supply > m,
            None => false,
        } {
            Err(Error::InvalidSupply)
        } else {
            Ok(())
        }
    }

    /// Exactly how `mint` answers on a given prior state.
    pub open spec fn mint_outcome(pre: TokenContract, caller: u64, amount: i128) -> Result<
        (),
        Error,
    > {
        if caller != pre.admin_id {
            Err(Error::Unauthorized)
        } else if amount <= 0 {
            Err(Error::InvalidAmount)
        } else if match pre.cap {
            Some(m) => pre.supply + amount > m,
            None => false,
        } {
            Err(Error::SupplyCeilingExceeded)
        } else if pre.supply + amount > i128::MAX {
            Err(Error::ArithmeticOverflow)
        } else {
            Ok(())
        }
    }

    /// Exactly how `burn` answers on a given prior state.
    pub open spec fn burn_outcome(pre: TokenContract, caller: u64, from: u64, amount: i128) -> Result<
        (),
        Error,
    > {
        if caller != from {
            Err(Error::Unauthorized)
        } else if amount <= 0 {
            Err(Error::InvalidAmount)
        } else if pre.balance_of(from) < amount {
            Err(Error::InsufficientBalance)
        } else {
            Ok(())
        }
    }

    /// Exactly how `transfer` answers on a given prior state.
    pub open spec fn transfer_outcome(
        pre: TokenContract,
        caller: u64,
        from: u64,
        amount: i128,
    ) -> Result<(), Error> {
        if caller != from {
            Err(Error::Unauthorized)
        } else if amount <= 0 {
            Err(Error::InvalidAmount)
        } else if pre.balance_of(from) < amount {
            Err(Error::InsufficientBalance)
        } else {
            Ok(())
        }
    }

    /// In every well-formed ledger state — and every operation ensures
    /// its final state is well formed — the outstanding supply is
    /// exactly the sum of all balances.
    pub proof fn lemma_supply_counts_all_balances(t: TokenContract)
        requires
            t.wf(),
        ensures
            t.supply == sum_amounts(t.accounts@),
    {
    }

    /// In every well-formed ledger state the outstanding supply stays
    /// under the configured ceiling, where one is configured.
    pub proof fn lemma_supply_within_cap(t: TokenContract)
        requires
            t.wf(),
        ensures
            match t.cap {
                Some(m) => t.supply <= m,
                None => true,
            },
    {
    }

    /// In every well-formed ledger state no holder's balance is
    /// negative, and none exceeds the outstanding supply.
    pub proof fn lemma_balances_nonnegative(t: TokenContract)
        requires
            t.wf(),
        ensures
            forall|id: u64| 0 <= #[trigger] t.balance_of(id) <= t.supply,
    {
        assert forall|id: u64| 0 <= #[trigger] t.balance_of(id) <= t.supply by {
            lemma_balance_le_sum(t.accounts@, id);
        }
    }

    /// An empty, uninitialized ledger.
    pub fn new() -> (r: TokenContract)
        ensures
            r.wf(),
            !r.initialized,
            forall|id: u64| r.balance_of(id) == 0,
    {
        let r = TokenContract {
            initialized: false,
            admin_id: 0,
            token_decimals: 0,
            token_name: String::new(),
            token_symbol: String::new(),
            supply: 0,
            cap: None,
            accounts: Vec::new(),
        };
        assert(forall|id: u64| r.balance_of(id) == 0);
        r
    }

    /// Creates the configuration once, credits the whole initial
    /// supply to the admin, and rejects a negative initial supply or
    /// one above the ceiling.
    pub fn initialize(
        &mut self,
        admin: u64,
        decimals: u32,
        name: String,
        symbol: String,
        initial_supply: i128,
        max_supply: Option<i128>,
    ) -> (r: Result<(), Error>)
        requires
            old(self).wf(),
        ensures
            final(self).wf(),
            r == TokenContract::initialize_outcome(*old(self), initial_supply, max_supply),
            r is Err ==> *final(self) == *old(self),
            r is Ok ==> {
                &&& final(self).initialized
                &&& final(self).admin_id == admin
                &&& final(self).token_decimals == decimals
                &&& final(self).token_name == name
                &&& final(self).token_symbol == symbol
                &&& final(self).supply == initial_supply
                &&& final(self).cap == max_supply
                &&& final(self).balance_of(admin) == initial_supply
                &&& forall|x: u64| x != admin ==> final(self).balance_of(x) == 0
            },
    {
        if self.initialized {
            return Err(Error::AlreadyInitialized);
        }
        if initial_supply < 0 {
            return Err(Error::InvalidSupply);
        }
        match max_supply {
            Some(m) => {
                if initial_supply > m {
                    return Err(Error::InvalidSupply);
                }
            },
            None => {},
        }
        let mut accounts: Vec<Balance> = Vec::new();
        accounts.push(Balance { owner: admin, amount: initial_supply });
        proof {
            lemma_push_effect(
                Seq::<Balance>::empty(),
                Balance { owner: admin, amount: initial_supply },
            );
            assert(forall|x: u64| balance_in(Seq::<Balance>::empty(), x) == 0);
        }
        self.initialized = true;
        self.admin_id = admin;
        self.token_decimals = decimals;
        self.token_name = name;
        self.token_symbol = symbol;
        self.supply = initial_supply;
        self.cap = max_supply;
        self.accounts = accounts;
        proof {
            assert forall|x: u64| x != admin implies self.balance_of(x) == 0 by {
                assert(balance_in(self.accounts@, x) == balance_in(Seq::<Balance>::empty(), x));
            }
        }
        Ok(())
    }

    /// Admin-only: credits `to` and raises the supply by `amount`,
    /// atomically, enforcing the ceiling and the 128-bit range.
    pub fn mint(&mut self, caller: u64, to: u64, amount: i128) -> (r: Result<(), Error>)
        requires
            old(self).wf(),
            old(self).initialized,
        ensures
            final(self).wf(),
            r == TokenContract::mint_outcome(*old(self), caller, amount),
            r is Err ==> *final(self) == *old(self),
            r is Ok ==> {
                &&& TokenContract::config_unchanged(*old(self), *final(self))
                &&& final(self).supply == old(self).supply + amount
                &&& final(self).balance_of(to) == old(self).balance_of(to) + amount
                &&& forall|x: u64| x != to ==> final(self).balance_of(x) == old(self).balance_of(x)
            },
    {
        if caller != self.admin_id {
            return Err(Error::Unauthorized);
        }
        if amount <= 0 {
            return Err(Error::InvalidAmount);
        }
        match self.cap {
            Some(m) => {
                if amount > m - self.supply {
                    return Err(Error::SupplyCeilingExceeded);
                }
            },
            None => {},
        }
        if self.supply > i128::MAX - amount {
            return Err(Error::ArithmeticOverflow);
        }
        proof {
            lemma_balance_le_sum(self.accounts@, to);
        }
        adjust(&mut self.accounts, to, amount);
        self.supply = self.supply + amount;
        Ok(())
    }

    /// Debits `from` and lowers the supply by `amount`; only `from`
    /// itself may burn, and never below a zero balance.
    pub fn burn(&mut self, caller: u64, from: u64, amount: i128) -> (r: Result<(), Error>)
        requires
            old(self).wf(),
            old(self).initialized,
        ensures
            final(self).wf(),
            r == TokenContract::burn_outcome(*old(self), caller, from, amount),
            r is Err ==> *final(self) == *old(self),
            r is Ok ==> {
                &&& TokenContract::config_unchanged(*old(self), *final(self))
                &&& final(self).supply == old(self).supply - amount
                &&& final(self).balance_of(from) == old(self).balance_of(from) - amount
                &&& forall|x: u64|
                    x != from ==> final(self).balance_of(x) == old(self).balance_of(x)
            },
    {
        if caller != from {
            return Err(Error::Unauthorized);
        }
        if amount <= 0 {
            return Err(Error::InvalidAmount);
        }
        let held = lookup_balance(&self.accounts, from);
        if held < amount {
            return Err(Error::InsufficientBalance);
        }
        proof {
            lemma_balance_le_sum(self.accounts@, from);
        }
        adjust(&mut self.accounts, from, -amount);
        self.supply = self.supply - amount;
        Ok(())
    }

    /// Moves `amount` from `from` to `to` as one atomic step; only
    /// `from` itself may spend, and a self-transfer is a no-op that
    /// still passes every check.
    pub fn transfer(&mut self, caller: u64, from: u64, to: u64, amount: i128) -> (r: Result<
        (),
        Error,
    >)
        requires
            old(self).wf(),
            old(self).initialized,
        ensures
            final(self).wf(),
            r == TokenContract::transfer_outcome(*old(self), caller, from, amount),
            r is Err ==> *final(self) == *old(self),
            r is Ok ==> {
                &&& TokenContract::config_unchanged(*old(self), *final(self))
                &&& final(self).supply == old(self).supply
                &&& forall|x: u64|
                    final(self).balance_of(x) == moved(
                        old(self).balance_of(x),
                        x,
                        from,
                        to,
                        amount as int,
                    )
            },
    {
        if caller != from {
            return Err(Error::Unauthorized);
        }
        if amount <= 0 {
            return Err(Error::InvalidAmount);
        }
        let held = lookup_balance(&self.accounts, from);
        if held < amount {
            return Err(Error::InsufficientBalance);
        }
        if from == to {
            return Ok(());
        }
        proof {
            lemma_pair_le_sum(self.accounts@, from, to);
        }
        adjust(&mut self.accounts, from, -amount);
        proof {
            lemma_balance_le_sum(self.accounts@, to);
        }
        adjust(&mut self.accounts, to, amount);
        Ok(())
    }

    /// Amount held by `id`; zero for an identity never credited.
    pub fn balance(&self, id: u64) -> (r: i128)
        requires
            self.wf(),
        ensures
            r as int == self.balance_of(id),
    {
        lookup_balance(&self.accounts, id)
    }

    /// Identity authorized to mint.
    pub fn admin(&self) -> (r: u64)
        ensures
            r == self.admin_id,
    {
        self.admin_id
    }

    /// Fixed display precision.
    pub fn decimals(&self) -> (r: u32)
        ensures
            r == self.token_decimals,
    {
        self.token_decimals
    }

    /// Display name.
    pub fn name(&self) -> (r: &String)
        ensures
            r@ == self.token_name@,
    {
        &self.token_name
    }

    /// Display symbol.
    pub fn symbol(&self) -> (r: &String)
        ensures
            r@ == self.token_symbol@,
    {
        &self.token_symbol
    }

    /// Current outstanding amount.
    pub fn total_supply(&self) -> (r: i128)
        ensures
            r == self.supply,
    {
        self.supply
    }
}

} // verus!
