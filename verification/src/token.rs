//! A model of the fungible-token interface the escrow consumes: balance
//! query, direct transfer, allowance-based pull transfer, admin reassignment
//! and per-holder authorization flags. One value of [`Token`] stands for one
//! token contract on the host ledger, resolved by its asset identifier.

use vstd::prelude::*;

use crate::errors::Error;
use crate::kv::KvMap;

verus! {

/// Sum clamped at the numeric ceiling; both addends non-negative.
pub open spec fn sat_add_i128(a: int, b: int) -> int {
    if a + b > i128::MAX {
        i128::MAX as int
    } else {
        a + b
    }
}

/// Twice `a`, clamped at the numeric ceiling; `a` non-negative.
pub open spec fn sat_double_i128(a: int) -> int {
    if 2 * a > i128::MAX {
        i128::MAX as int
    } else {
        2 * a
    }
}

/// Allowance denoted by a sequence of (owner, spender, amount) grants; a
/// later grant for the same pair shadows an earlier one; no grant means zero.
pub open spec fn allowance_of(s: Seq<(u64, u64, i128)>, from: u64, spender: u64) -> i128
    decreases s.len(),
{
    if s.len() == 0 {
        0
    } else if s.last().0 == from && s.last().1 == spender {
        s.last().2
    } else {
        allowance_of(s.drop_last(), from, spender)
    }
}

proof fn lemma_allowance_push(s: Seq<(u64, u64, i128)>, e: (u64, u64, i128), from: u64, spender: u64)
    ensures
        allowance_of(s.push(e), from, spender) == if e.0 == from && e.1 == spender {
            e.2
        } else {
            allowance_of(s, from, spender)
        },
{
    assert(s.push(e).drop_last() =~= s);
    assert(s.push(e).last() == e);
}

/// Appending one grant rewrites that pair's allowance and no other.
proof fn lemma_allowance_push_all(s: Seq<(u64, u64, i128)>, e: (u64, u64, i128))
    ensures
        allowance_of(s.push(e), e.0, e.1) == e.2,
        forall|f: u64, sp: u64|
            !(f == e.0 && sp == e.1) ==> #[trigger] allowance_of(s.push(e), f, sp)
                == allowance_of(s, f, sp),
{
    lemma_allowance_push(s, e, e.0, e.1);
    assert forall|f: u64, sp: u64|
        !(f == e.0 && sp == e.1) implies #[trigger] allowance_of(s.push(e), f, sp)
        == allowance_of(s, f, sp) by {
        lemma_allowance_push(s, e, f, sp);
    }
}

/// One fungible token contract: its identifier, its administrator, and its
/// per-holder balances, allowances and authorization flags.
pub struct Token {
    id: u64,
    admin: u64,
    balances: KvMap<i128>,
    authorized: KvMap<bool>,
    approvals: Vec<(u64, u64, i128)>,
}

/// Equal balance tables give equal balances everywhere.
proof fn lemma_balance_congruence(a: Token, b: Token)
    requires
        a.balances@ == b.balances@,
    ensures
        forall|h: u64| #[trigger] a.spec_balance(h) == b.spec_balance(h),
{
}

/// Equal grant lists give equal allowances everywhere.
proof fn lemma_allowance_congruence(a: Token, b: Token)
    requires
        a.approvals@ == b.approvals@,
    ensures
        forall|f: u64, s: u64| #[trigger] a.spec_allowance(f, s) == b.spec_allowance(f, s),
{
}

/// Equal flag tables give equal authorization flags everywhere.
proof fn lemma_authorized_congruence(a: Token, b: Token)
    requires
        a.authorized@ == b.authorized@,
    ensures
        forall|h: u64| #[trigger] a.spec_is_authorized(h) == b.spec_is_authorized(h),
{
}

impl Token {
    /// Asset identifier this token contract is resolved by.
    pub closed spec fn spec_id(&self) -> u64 {
        self.id
    }

    /// Current administrator of the token contract.
    pub closed spec fn spec_admin(&self) -> u64 {
        self.admin
    }

    /// Balance held by `holder`; an account without a record holds zero.
    pub closed spec fn spec_balance(&self, holder: u64) -> i128 {
        if self.balances@.contains_key(holder) {
            self.balances@[holder]
        } else {
            0
        }
    }

    /// Amount `spender` may still pull from `from`.
    pub closed spec fn spec_allowance(&self, from: u64, spender: u64) -> i128 {
        allowance_of(self.approvals@, from, spender)
    }

    /// Transfer-permission flag of `holder`; unset until toggled.
    pub closed spec fn spec_is_authorized(&self, holder: u64) -> bool {
        if self.authorized@.contains_key(holder) {
            self.authorized@[holder]
        } else {
            false
        }
    }

    /// Balances and allowances never go negative, and the backing tables are
    /// sound.
    pub closed spec fn wf(&self) -> bool {
        &&& self.balances.wf()
        &&& self.authorized.wf()
        &&& forall|h: u64| #[trigger] self.spec_balance(h) >= 0
        &&& forall|f: u64, s: u64| #[trigger] self.spec_allowance(f, s) >= 0
    }

    /// A direct movement of `amount` from `from` to `to` goes through exactly
    /// when the sender holds enough and the receiver's balance stays in range.
    pub open spec fn can_transfer(&self, from: u64, to: u64, amount: i128) -> bool {
        &&& self.spec_balance(from) >= amount
        &&& (from == to || self.spec_balance(to) + amount <= i128::MAX)
    }

    /// Both holders' balances moved by `amount`, every other balance as
    /// before.
    pub open spec fn moved(&self, pre: Token, from: u64, to: u64, amount: i128) -> bool {
        if from == to {
            forall|h: u64| self.spec_balance(h) == pre.spec_balance(h)
        } else {
            &&& self.spec_balance(from) == pre.spec_balance(from) - amount
            &&& self.spec_balance(to) == pre.spec_balance(to) + amount
            &&& forall|h: u64|
                h != from && h != to ==> self.spec_balance(h) == pre.spec_balance(h)
        }
    }

    /// Identifier and administrator as in `pre`.
    pub open spec fn same_meta(&self, pre: Token) -> bool {
        self.spec_id() == pre.spec_id() && self.spec_admin() == pre.spec_admin()
    }

    /// Every balance as in `pre`.
    pub open spec fn same_balances(&self, pre: Token) -> bool {
        forall|h: u64| self.spec_balance(h) == pre.spec_balance(h)
    }

    /// Every allowance as in `pre`.
    pub open spec fn same_allowances(&self, pre: Token) -> bool {
        forall|f: u64, s: u64| self.spec_allowance(f, s) == pre.spec_allowance(f, s)
    }

    /// Every authorization flag as in `pre`.
    pub open spec fn same_authorized(&self, pre: Token) -> bool {
        forall|h: u64| self.spec_is_authorized(h) == pre.spec_is_authorized(h)
    }

    /// A fresh token contract: no balances, no allowances, no flags set.
    pub fn new(id: u64, admin: u64) -> (t: Token)
        ensures
            t.wf(),
            t.spec_id() == id,
            t.spec_admin() == admin,
            forall|h: u64| #[trigger] t.spec_balance(h) == 0,
            forall|f: u64, s: u64| #[trigger] t.spec_allowance(f, s) == 0,
            forall|h: u64| !(#[trigger] t.spec_is_authorized(h)),
    {
        Token {
            id,
            admin,
            balances: KvMap::new(),
            authorized: KvMap::new(),
            approvals: Vec::new(),
        }
    }

    /// The asset identifier, as an executable read.
    pub fn id(&self) -> (r: u64)
        ensures
            r == self.spec_id(),
    {
        self.id
    }

    /// The administrator, as an executable read.
    pub fn admin(&self) -> (r: u64)
        ensures
            r == self.spec_admin(),
    {
        self.admin
    }

    /// Balance held by `id`.
    pub fn balance(&self, id: u64) -> (r: i128)
        requires
            self.wf(),
        ensures
            r == self.spec_balance(id),
    {
        match self.balances.get(id) {
            Some(b) => *b,
            None => 0,
        }
    }

    /// Amount `spender` may still pull from `from`.
    pub fn allowance(&self, from: u64, spender: u64) -> (r: i128)
        ensures
            r == self.spec_allowance(from, spender),
    {
        let n = self.approvals.len();
        proof {
            assert(self.approvals@.take(n as int) =~= self.approvals@);
        }
        let mut i: usize = n;
        while i > 0
            invariant
                i <= n,
                n == self.approvals@.len(),
                allowance_of(self.approvals@, from, spender) == allowance_of(
                    self.approvals@.take(i as int),
                    from,
                    spender,
                ),
            decreases i,
        {
            let e = self.approvals[i - 1];
            proof {
                assert(self.approvals@.take(i as int).drop_last() =~= self.approvals@.take(
                    i as int - 1,
                ));
                assert(self.approvals@.take(i as int).last() == self.approvals@[i - 1]);
            }
            if e.0 == from && e.1 == spender {
                return e.2;
            }
            i = i - 1;
        }
        proof {
            assert(self.approvals@.take(0) =~= Seq::<(u64, u64, i128)>::empty());
        }
        0
    }

    /// Creates `amount` fresh units for `to`; admin-gated on the host, taken
    /// as already authorized here.
    pub fn mint(&mut self, to: u64, amount: i128) -> (r: Result<(), Error>)
        requires
            old(self).wf(),
            amount >= 0,
        ensures
            final(self).wf(),
            r is Ok <==> old(self).spec_balance(to) + amount <= i128::MAX,
            r is Ok ==> final(self).spec_balance(to) == old(self).spec_balance(to) + amount
                && forall|h: u64|
                h != to ==> final(self).spec_balance(h) == old(self).spec_balance(h),
            r is Err ==> *final(self) == *old(self) && r == Err::<(), Error>(
                Error::BalanceOverflow,
            ),
            final(self).same_meta(*old(self)),
            final(self).same_allowances(*old(self)),
            final(self).same_authorized(*old(self)),
    {
        let bal = self.balance(to);
        if bal > i128::MAX - amount {
            return Err(Error::BalanceOverflow);
        }
        self.balances.insert(to, bal + amount);
        proof {
            lemma_allowance_congruence(*self, *old(self));
            lemma_authorized_congruence(*self, *old(self));
            assert forall|h: u64| #[trigger] self.spec_balance(h) >= 0 by {
                assert(old(self).spec_balance(h) >= 0);
            }
        }
        Ok(())
    }

    /// Moves `amount` from `from` to `to`; fails without touching anything
    /// when the sender holds too little or the receiver's balance would
    /// leave the numeric range.
    pub fn transfer(&mut self, from: u64, to: u64, amount: i128) -> (r: Result<(), Error>)
        requires
            old(self).wf(),
            amount >= 0,
        ensures
            final(self).wf(),
            r is Ok <==> old(self).can_transfer(from, to, amount),
            r is Ok ==> final(self).moved(*old(self), from, to, amount),
            r is Err ==> *final(self) == *old(self) && r == Err::<(), Error>(
                if old(self).spec_balance(from) < amount {
                    Error::InsufficientBalance
                } else {
                    Error::BalanceOverflow
                },
            ),
            final(self).same_meta(*old(self)),
            final(self).same_allowances(*old(self)),
            final(self).same_authorized(*old(self)),
    {
        let from_bal = self.balance(from);
        if from_bal < amount {
            return Err(Error::InsufficientBalance);
        }
        if from == to {
            return Ok(());
        }
        let to_bal = self.balance(to);
        if to_bal > i128::MAX - amount {
            return Err(Error::BalanceOverflow);
        }
        self.balances.insert(from, from_bal - amount);
        self.balances.insert(to, to_bal + amount);
        proof {
            lemma_allowance_congruence(*self, *old(self));
            lemma_authorized_congruence(*self, *old(self));
            assert forall|h: u64| #[trigger] self.spec_balance(h) >= 0 by {
                assert(old(self).spec_balance(h) >= 0);
            }
        }
        Ok(())
    }

    /// Raises what `spender` may pull from `from` by `amount`, clamping at
    /// the numeric ceiling so that repeated approvals cannot trap.
    pub fn increase_allowance(&mut self, from: u64, spender: u64, amount: i128)
        requires
            old(self).wf(),
            amount >= 0,
        ensures
            final(self).wf(),
            final(self).spec_allowance(from, spender) == sat_add_i128(
                old(self).spec_allowance(from, spender) as int,
                amount as int,
            ),
            forall|f: u64, s: u64|
                !(f == from && s == spender) ==> final(self).spec_allowance(f, s) == old(
                    self,
                ).spec_allowance(f, s),
            final(self).same_meta(*old(self)),
            final(self).same_balances(*old(self)),
            final(self).same_authorized(*old(self)),
    {
        let current = self.allowance(from, spender);
        let bumped = if amount > i128::MAX - current {
            i128::MAX
        } else {
            current + amount
        };
        let ghost s0 = self.approvals@;
        self.approvals.push((from, spender, bumped));
        proof {
            lemma_allowance_push_all(s0, (from, spender, bumped));
            lemma_balance_congruence(*self, *old(self));
            lemma_authorized_congruence(*self, *old(self));
            assert forall|f: u64, s: u64| #[trigger] self.spec_allowance(f, s) >= 0 by {
                lemma_allowance_push(s0, (from, spender, bumped), f, s);
                assert(old(self).spec_allowance(f, s) >= 0);
            }
        }
    }

    /// Sets what `spender` may pull from `from` outright.
    fn set_allowance(&mut self, from: u64, spender: u64, amount: i128)
        requires
            old(self).wf(),
            amount >= 0,
        ensures
            final(self).wf(),
            final(self).spec_allowance(from, spender) == amount,
            forall|f: u64, s: u64|
                !(f == from && s == spender) ==> final(self).spec_allowance(f, s) == old(
                    self,
                ).spec_allowance(f, s),
            final(self).same_meta(*old(self)),
            final(self).same_balances(*old(self)),
            final(self).same_authorized(*old(self)),
    {
        let ghost s0 = self.approvals@;
        self.approvals.push((from, spender, amount));
        proof {
            lemma_allowance_push_all(s0, (from, spender, amount));
            lemma_balance_congruence(*self, *old(self));
            lemma_authorized_congruence(*self, *old(self));
            assert forall|f: u64, s: u64| #[trigger] self.spec_allowance(f, s) >= 0 by {
                lemma_allowance_push(s0, (from, spender, amount), f, s);
                assert(old(self).spec_allowance(f, s) >= 0);
            }
        }
    }

    /// Pulls `amount` from `from` to `to` on behalf of `spender`, first
    /// approving twice the amount so that residual headroom remains after
    /// the pull. Fails without touching anything when the sender holds too
    /// little or the receiver's balance would leave the numeric range; the
    /// doubled approval keeps the allowance itself from ever falling short.
    pub fn transfer_from(&mut self, spender: u64, from: u64, to: u64, amount: i128) -> (r: Result<
        (),
        Error,
    >)
        requires
            old(self).wf(),
            amount >= 0,
        ensures
            final(self).wf(),
            r is Ok <==> old(self).can_transfer(from, to, amount),
            r is Ok ==> final(self).moved(*old(self), from, to, amount),
            r is Ok ==> final(self).spec_allowance(from, spender) == sat_add_i128(
                old(self).spec_allowance(from, spender) as int,
                sat_double_i128(amount as int),
            ) - amount,
            r is Ok ==> forall|f: u64, s: u64|
                !(f == from && s == spender) ==> final(self).spec_allowance(f, s) == old(
                    self,
                ).spec_allowance(f, s),
            r is Err ==> *final(self) == *old(self) && r == Err::<(), Error>(
                if old(self).spec_balance(from) < amount {
                    Error::InsufficientBalance
                } else {
                    Error::BalanceOverflow
                },
            ),
            final(self).same_meta(*old(self)),
            final(self).same_authorized(*old(self)),
    {
        let from_bal = self.balance(from);
        if from_bal < amount {
            return Err(Error::InsufficientBalance);
        }
        if from != to {
            let to_bal = self.balance(to);
            if to_bal > i128::MAX - amount {
                return Err(Error::BalanceOverflow);
            }
        }
        let approve_amount = if amount > i128::MAX / 2 {
            i128::MAX
        } else {
            amount * 2
        };
        let current = self.allowance(from, spender);
        let bumped = if approve_amount > i128::MAX - current {
            i128::MAX
        } else {
            current + approve_amount
        };
        proof {
            assert(bumped >= amount);
        }
        self.set_allowance(from, spender, bumped);
        let remaining = bumped - amount;
        self.set_allowance(from, spender, remaining);
        let moved = self.transfer(from, to, amount);
        proof {
            assert(moved is Ok);
        }
        Ok(())
    }

    /// Reassigns administrative control; only the current admin may do so.
    pub fn make_admin(&mut self, caller: u64, to: u64) -> (r: Result<(), Error>)
        requires
            old(self).wf(),
        ensures
            final(self).wf(),
            r is Ok <==> caller == old(self).spec_admin(),
            r is Ok ==> final(self).spec_admin() == to && final(self).spec_id() == old(
                self,
            ).spec_id(),
            r is Err ==> *final(self) == *old(self) && r == Err::<(), Error>(Error::NotAuthorized),
            final(self).same_balances(*old(self)),
            final(self).same_allowances(*old(self)),
            final(self).same_authorized(*old(self)),
    {
        if caller != self.admin {
            return Err(Error::NotAuthorized);
        }
        self.admin = to;
        proof {
            lemma_balance_congruence(*self, *old(self));
            lemma_allowance_congruence(*self, *old(self));
            lemma_authorized_congruence(*self, *old(self));
        }
        Ok(())
    }

    /// Grants `to` the transfer-permission flag; admin only.
    pub fn set_authorized(&mut self, caller: u64, to: u64) -> (r: Result<(), Error>)
        requires
            old(self).wf(),
        ensures
            final(self).wf(),
            r is Ok <==> caller == old(self).spec_admin(),
            r is Ok ==> final(self).spec_is_authorized(to) && forall|h: u64|
                h != to ==> final(self).spec_is_authorized(h) == old(self).spec_is_authorized(h),
            r is Err ==> *final(self) == *old(self) && r == Err::<(), Error>(Error::NotAuthorized),
            final(self).same_meta(*old(self)),
            final(self).same_balances(*old(self)),
            final(self).same_allowances(*old(self)),
    {
        if caller != self.admin {
            return Err(Error::NotAuthorized);
        }
        self.authorized.insert(to, true);
        proof {
            lemma_balance_congruence(*self, *old(self));
            lemma_allowance_congruence(*self, *old(self));
        }
        Ok(())
    }

    /// Withdraws the transfer-permission flag from `to`; admin only.
    pub fn set_unauthorized(&mut self, caller: u64, to: u64) -> (r: Result<(), Error>)
        requires
            old(self).wf(),
        ensures
            final(self).wf(),
            r is Ok <==> caller == old(self).spec_admin(),
            r is Ok ==> !final(self).spec_is_authorized(to) && forall|h: u64|
                h != to ==> final(self).spec_is_authorized(h) == old(self).spec_is_authorized(h),
            r is Err ==> *final(self) == *old(self) && r == Err::<(), Error>(Error::NotAuthorized),
            final(self).same_meta(*old(self)),
            final(self).same_balances(*old(self)),
            final(self).same_allowances(*old(self)),
    {
        if caller != self.admin {
            return Err(Error::NotAuthorized);
        }
        self.authorized.insert(to, false);
        proof {
            lemma_balance_congruence(*self, *old(self));
            lemma_allowance_congruence(*self, *old(self));
        }
        Ok(())
    }

    /// Whether `to` currently carries the transfer-permission flag.
    pub fn is_authorized(&self, to: u64) -> (r: bool)
        requires
            self.wf(),
        ensures
            r == self.spec_is_authorized(to),
    {
        match self.authorized.get(to) {
            Some(b) => *b,
            None => false,
        }
    }
}

} // verus!
