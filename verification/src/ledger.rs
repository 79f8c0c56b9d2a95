//! The ledger state machine: balances, allowances, deposits and total supply.
//!
//! The three stored maps are association lists looked up by first match; an
//! absent key means the amount zero. Every operation's contract pins the whole
//! observable state after the call, and a well-formedness invariant keeps the
//! total supply at or above the sum of all balances, which rules arithmetic
//! overflow out of every credit.

use vstd::prelude::*;
use crate::account::AccountId;
use crate::amount::{limit, lemma_amount_below_limit, U256};

verus! {

/// One stored account-to-amount association.
struct AmountEntry {
    account: AccountId,
    amount: U256,
}

/// One stored (owner, spender)-to-amount association.
struct AllowanceEntry {
    owner: AccountId,
    spender: AccountId,
    amount: U256,
}

/// The amount stored for `a`: the first matching entry, or zero.
spec fn amount_lookup(s: Seq<AmountEntry>, a: AccountId) -> nat
    decreases s.len(),
{
    if s.len() == 0 {
        0
    } else if s[0].account == a {
        s[0].amount.as_nat()
    } else {
        amount_lookup(s.subrange(1, s.len() as int), a)
    }
}

/// The amount stored for `(owner, spender)`: the first matching entry, or zero.
spec fn allowance_lookup(s: Seq<AllowanceEntry>, owner: AccountId, spender: AccountId) -> nat
    decreases s.len(),
{
    if s.len() == 0 {
        0
    } else if s[0].owner == owner && s[0].spender == spender {
        s[0].amount.as_nat()
    } else {
        allowance_lookup(s.subrange(1, s.len() as int), owner, spender)
    }
}

/// The sum of all stored amounts.
spec fn amount_total(s: Seq<AmountEntry>) -> nat
    decreases s.len(),
{
    if s.len() == 0 {
        0
    } else {
        s[0].amount.as_nat() + amount_total(s.subrange(1, s.len() as int))
    }
}

/// A first match at index `i` decides the lookup.
proof fn lemma_amount_lookup_at(s: Seq<AmountEntry>, i: int, a: AccountId)
    requires
        0 <= i < s.len(),
        forall|j: int| 0 <= j < i ==> s[j].account != a,
        s[i].account == a,
    ensures
        amount_lookup(s, a) == s[i].amount.as_nat(),
    decreases i,
{
    if i > 0 {
        let t = s.subrange(1, s.len() as int);
        assert(forall|j: int| 0 <= j < i - 1 ==> t[j] == s[j + 1]);
        lemma_amount_lookup_at(t, i - 1, a);
    }
}

/// A key that no entry holds looks up to zero.
proof fn lemma_amount_lookup_absent(s: Seq<AmountEntry>, a: AccountId)
    requires
        forall|j: int| 0 <= j < s.len() ==> s[j].account != a,
    ensures
        amount_lookup(s, a) == 0,
    decreases s.len(),
{
    if s.len() > 0 {
        lemma_amount_lookup_absent(s.subrange(1, s.len() as int), a);
    }
}

/// Overwriting the first entry for `a` changes only `a`'s lookup.
proof fn lemma_amount_lookup_update(s: Seq<AmountEntry>, i: int, a: AccountId, v: U256, b: AccountId)
    requires
        0 <= i < s.len(),
        forall|j: int| 0 <= j < i ==> s[j].account != a,
        s[i].account == a,
    ensures
        amount_lookup(s.update(i, AmountEntry { account: a, amount: v }), b) == if b == a {
            v.as_nat()
        } else {
            amount_lookup(s, b)
        },
    decreases i,
{
    let u = s.update(i, AmountEntry { account: a, amount: v });
    if i == 0 {
        assert(u.subrange(1, u.len() as int) =~= s.subrange(1, s.len() as int));
    } else {
        let t = s.subrange(1, s.len() as int);
        assert(forall|j: int| 0 <= j < i - 1 ==> t[j] == s[j + 1]);
        assert(u.subrange(1, u.len() as int) =~= t.update(
            i - 1,
            AmountEntry { account: a, amount: v },
        ));
        lemma_amount_lookup_update(t, i - 1, a, v, b);
    }
}

/// Appending an entry for a key held by no entry changes only that
/// key's lookup.
proof fn lemma_amount_lookup_push(s: Seq<AmountEntry>, a: AccountId, v: U256, b: AccountId)
    requires
        forall|j: int| 0 <= j < s.len() ==> s[j].account != a,
    ensures
        amount_lookup(s.push(AmountEntry { account: a, amount: v }), b) == if b == a {
            v.as_nat()
        } else {
            amount_lookup(s, b)
        },
    decreases s.len(),
{
    let p = s.push(AmountEntry { account: a, amount: v });
    if s.len() == 0 {
        assert(p.subrange(1, p.len() as int) =~= Seq::<AmountEntry>::empty());
        assert(amount_lookup(p.subrange(1, p.len() as int), b) == 0);
        assert(p[0].account == a);
    } else {
        let t = s.subrange(1, s.len() as int);
        assert(p.subrange(1, p.len() as int) =~= t.push(AmountEntry { account: a, amount: v }));
        lemma_amount_lookup_push(t, a, v, b);
        assert(p[0] == s[0]);
        if s[0].account == b {
            assert(amount_lookup(p, b) == p[0].amount.as_nat());
            assert(amount_lookup(s, b) == s[0].amount.as_nat());
        } else {
            assert(amount_lookup(p, b) == amount_lookup(p.subrange(1, p.len() as int), b));
            assert(amount_lookup(s, b) == amount_lookup(t, b));
        }
    }
}

/// Overwriting one entry moves the total by the difference of the amounts.
proof fn lemma_amount_total_update(s: Seq<AmountEntry>, i: int, e: AmountEntry)
    requires
        0 <= i < s.len(),
    ensures
        amount_total(s.update(i, e)) + s[i].amount.as_nat() == amount_total(s) + e.amount.as_nat(),
    decreases i,
{
    let u = s.update(i, e);
    if i == 0 {
        assert(u.subrange(1, u.len() as int) =~= s.subrange(1, s.len() as int));
    } else {
        let t = s.subrange(1, s.len() as int);
        assert(u.subrange(1, u.len() as int) =~= t.update(i - 1, e));
        lemma_amount_total_update(t, i - 1, e);
    }
}

/// Appending an entry adds its amount to the total.
proof fn lemma_amount_total_push(s: Seq<AmountEntry>, e: AmountEntry)
    ensures
        amount_total(s.push(e)) == amount_total(s) + e.amount.as_nat(),
    decreases s.len(),
{
    let p = s.push(e);
    if s.len() == 0 {
        assert(p.subrange(1, p.len() as int) =~= Seq::<AmountEntry>::empty());
        assert(amount_total(p.subrange(1, p.len() as int)) == 0);
        assert(amount_total(p) == e.amount.as_nat() + amount_total(p.subrange(1, p.len() as int)));
    } else {
        let t = s.subrange(1, s.len() as int);
        assert(p.subrange(1, p.len() as int) =~= t.push(e));
        lemma_amount_total_push(t, e);
        assert(amount_total(p) == p[0].amount.as_nat() + amount_total(p.subrange(1, p.len() as int)));
        assert(amount_total(s) == s[0].amount.as_nat() + amount_total(t));
    }
}

/// No single stored amount exceeds the total.
proof fn lemma_amount_lookup_le_total(s: Seq<AmountEntry>, a: AccountId)
    ensures
        amount_lookup(s, a) <= amount_total(s),
    decreases s.len(),
{
    if s.len() > 0 {
        lemma_amount_lookup_le_total(s.subrange(1, s.len() as int), a);
    }
}

/// Two distinct keys' amounts fit in the total together.
proof fn lemma_amount_lookup_pair_le_total(s: Seq<AmountEntry>, a: AccountId, b: AccountId)
    requires
        a != b,
    ensures
        amount_lookup(s, a) + amount_lookup(s, b) <= amount_total(s),
    decreases s.len(),
{
    if s.len() > 0 {
        let t = s.subrange(1, s.len() as int);
        if s[0].account == a {
            lemma_amount_lookup_le_total(t, b);
        } else if s[0].account == b {
            lemma_amount_lookup_le_total(t, a);
        } else {
            lemma_amount_lookup_pair_le_total(t, a, b);
        }
    }
}

/// A first match at index `i` decides the allowance lookup.
proof fn lemma_allowance_lookup_at(s: Seq<AllowanceEntry>, i: int, o: AccountId, p: AccountId)
    requires
        0 <= i < s.len(),
        forall|j: int| 0 <= j < i ==> !(s[j].owner == o && s[j].spender == p),
        s[i].owner == o && s[i].spender == p,
    ensures
        allowance_lookup(s, o, p) == s[i].amount.as_nat(),
    decreases i,
{
    if i > 0 {
        let t = s.subrange(1, s.len() as int);
        assert(forall|j: int| 0 <= j < i - 1 ==> t[j] == s[j + 1]);
        lemma_allowance_lookup_at(t, i - 1, o, p);
    }
}

/// A pair that no entry holds looks up to zero.
proof fn lemma_allowance_lookup_absent(s: Seq<AllowanceEntry>, o: AccountId, p: AccountId)
    requires
        forall|j: int| 0 <= j < s.len() ==> !(s[j].owner == o && s[j].spender == p),
    ensures
        allowance_lookup(s, o, p) == 0,
    decreases s.len(),
{
    if s.len() > 0 {
        lemma_allowance_lookup_absent(s.subrange(1, s.len() as int), o, p);
    }
}

/// Overwriting the first entry for a pair changes only that pair's lookup.
proof fn lemma_allowance_lookup_update(
    s: Seq<AllowanceEntry>,
    i: int,
    o: AccountId,
    p: AccountId,
    v: U256,
    o2: AccountId,
    p2: AccountId,
)
    requires
        0 <= i < s.len(),
        forall|j: int| 0 <= j < i ==> !(s[j].owner == o && s[j].spender == p),
        s[i].owner == o && s[i].spender == p,
    ensures
        allowance_lookup(s.update(i, AllowanceEntry { owner: o, spender: p, amount: v }), o2, p2)
            == if o2 == o && p2 == p {
            v.as_nat()
        } else {
            allowance_lookup(s, o2, p2)
        },
    decreases i,
{
    let e = AllowanceEntry { owner: o, spender: p, amount: v };
    let u = s.update(i, e);
    if i == 0 {
        assert(u.subrange(1, u.len() as int) =~= s.subrange(1, s.len() as int));
    } else {
        let t = s.subrange(1, s.len() as int);
        assert(forall|j: int| 0 <= j < i - 1 ==> t[j] == s[j + 1]);
        assert(u.subrange(1, u.len() as int) =~= t.update(i - 1, e));
        lemma_allowance_lookup_update(t, i - 1, o, p, v, o2, p2);
    }
}

/// Appending an entry for a pair held by no entry changes only that
/// pair's lookup.
proof fn lemma_allowance_lookup_push(
    s: Seq<AllowanceEntry>,
    o: AccountId,
    p: AccountId,
    v: U256,
    o2: AccountId,
    p2: AccountId,
)
    requires
        forall|j: int| 0 <= j < s.len() ==> !(s[j].owner == o && s[j].spender == p),
    ensures
        allowance_lookup(s.push(AllowanceEntry { owner: o, spender: p, amount: v }), o2, p2)
            == if o2 == o && p2 == p {
            v.as_nat()
        } else {
            allowance_lookup(s, o2, p2)
        },
    decreases s.len(),
{
    let e = AllowanceEntry { owner: o, spender: p, amount: v };
    let q = s.push(e);
    if s.len() == 0 {
        assert(q.subrange(1, q.len() as int) =~= Seq::<AllowanceEntry>::empty());
        assert(allowance_lookup(q.subrange(1, q.len() as int), o2, p2) == 0);
        assert(q[0].owner == o && q[0].spender == p);
    } else {
        let t = s.subrange(1, s.len() as int);
        assert(q.subrange(1, q.len() as int) =~= t.push(e));
        lemma_allowance_lookup_push(t, o, p, v, o2, p2);
        assert(q[0] == s[0]);
        if s[0].owner == o2 && s[0].spender == p2 {
            assert(allowance_lookup(q, o2, p2) == q[0].amount.as_nat());
            assert(allowance_lookup(s, o2, p2) == s[0].amount.as_nat());
        } else {
            assert(allowance_lookup(q, o2, p2) == allowance_lookup(
                q.subrange(1, q.len() as int),
                o2,
                p2,
            ));
            assert(allowance_lookup(s, o2, p2) == allowance_lookup(t, o2, p2));
        }
    }
}

/// The first matching entry's amount, or zero.
fn amount_get(entries: &Vec<AmountEntry>, a: AccountId) -> (r: U256)
    ensures
        r.as_nat() == amount_lookup(entries@, a),
{
    let n = entries.len();
    let mut i: usize = 0;
    while i < n
        invariant
            n == entries@.len(),
            i <= n,
            forall|j: int| 0 <= j < i ==> entries@[j].account != a,
        decreases n - i,
    {
        if entries[i].account == a {
            proof {
                lemma_amount_lookup_at(entries@, i as int, a);
            }
            return entries[i].amount;
        }
        i = i + 1;
    }
    proof {
        lemma_amount_lookup_absent(entries@, a);
    }
    U256::zero()
}

/// Store `v` for `a`, overwriting the first matching entry or appending one.
fn amount_set(entries: &mut Vec<AmountEntry>, a: AccountId, v: U256)
    ensures
        forall|b: AccountId|
            #[trigger] amount_lookup(final(entries)@, b) == if b == a {
                v.as_nat()
            } else {
                amount_lookup(old(entries)@, b)
            },
        amount_total(final(entries)@) + amount_lookup(old(entries)@, a) == amount_total(
            old(entries)@,
        ) + v.as_nat(),
{
    let n = entries.len();
    let mut i: usize = 0;
    while i < n
        invariant
            entries@ == old(entries)@,
            n == entries@.len(),
            i <= n,
            forall|j: int| 0 <= j < i ==> entries@[j].account != a,
        decreases n - i,
    {
        if entries[i].account == a {
            proof {
                lemma_amount_lookup_at(entries@, i as int, a);
                lemma_amount_total_update(entries@, i as int, AmountEntry { account: a, amount: v });
                assert forall|b: AccountId|
                    amount_lookup(entries@.update(i as int, AmountEntry { account: a, amount: v }), b)
                        == if b == a {
                        v.as_nat()
                    } else {
                        amount_lookup(entries@, b)
                    } by {
                    lemma_amount_lookup_update(entries@, i as int, a, v, b);
                }
            }
            entries[i] = AmountEntry { account: a, amount: v };
            return;
        }
        i = i + 1;
    }
    proof {
        lemma_amount_lookup_absent(entries@, a);
        lemma_amount_total_push(entries@, AmountEntry { account: a, amount: v });
        assert forall|b: AccountId|
            amount_lookup(entries@.push(AmountEntry { account: a, amount: v }), b) == if b == a {
                v.as_nat()
            } else {
                amount_lookup(entries@, b)
            } by {
            lemma_amount_lookup_push(entries@, a, v, b);
        }
    }
    entries.push(AmountEntry { account: a, amount: v });
}

/// The first matching pair's amount, or zero.
fn allowance_get(entries: &Vec<AllowanceEntry>, o: AccountId, p: AccountId) -> (r: U256)
    ensures
        r.as_nat() == allowance_lookup(entries@, o, p),
{
    let n = entries.len();
    let mut i: usize = 0;
    while i < n
        invariant
            n == entries@.len(),
            i <= n,
            forall|j: int| 0 <= j < i ==> !(entries@[j].owner == o && entries@[j].spender == p),
        decreases n - i,
    {
        if entries[i].owner == o && entries[i].spender == p {
            proof {
                lemma_allowance_lookup_at(entries@, i as int, o, p);
            }
            return entries[i].amount;
        }
        i = i + 1;
    }
    proof {
        lemma_allowance_lookup_absent(entries@, o, p);
    }
    U256::zero()
}

/// Store `v` for `(o, p)`, overwriting the first matching entry or
/// appending one.
fn allowance_set(entries: &mut Vec<AllowanceEntry>, o: AccountId, p: AccountId, v: U256)
    ensures
        forall|o2: AccountId, p2: AccountId|
            #[trigger] allowance_lookup(final(entries)@, o2, p2) == if o2 == o && p2 == p {
                v.as_nat()
            } else {
                allowance_lookup(old(entries)@, o2, p2)
            },
{
    let n = entries.len();
    let mut i: usize = 0;
    while i < n
        invariant
            entries@ == old(entries)@,
            n == entries@.len(),
            i <= n,
            forall|j: int| 0 <= j < i ==> !(entries@[j].owner == o && entries@[j].spender == p),
        decreases n - i,
    {
        if entries[i].owner == o && entries[i].spender == p {
            proof {
                assert forall|o2: AccountId, p2: AccountId|
                    allowance_lookup(
                        entries@.update(i as int, AllowanceEntry { owner: o, spender: p, amount: v }),
                        o2,
                        p2,
                    ) == if o2 == o && p2 == p {
                        v.as_nat()
                    } else {
                        allowance_lookup(entries@, o2, p2)
                    } by {
                    lemma_allowance_lookup_update(entries@, i as int, o, p, v, o2, p2);
                }
            }
            entries[i] = AllowanceEntry { owner: o, spender: p, amount: v };
            return;
        }
        i = i + 1;
    }
    proof {
        assert forall|o2: AccountId, p2: AccountId|
            allowance_lookup(entries@.push(AllowanceEntry { owner: o, spender: p, amount: v }), o2, p2)
                == if o2 == o && p2 == p {
                v.as_nat()
            } else {
                allowance_lookup(entries@, o2, p2)
            } by {
            lemma_allowance_lookup_push(entries@, o, p, v, o2, p2);
        }
    }
    entries.push(AllowanceEntry { owner: o, spender: p, amount: v });
}

/// The token ledger: immutable metadata, the total supply, and the three
/// stored maps.
pub struct VotingToken {
    name: String,
    symbol: String,
    total_supply: U256,
    balance_of: Vec<AmountEntry>,
    allowance: Vec<AllowanceEntry>,
    deposit_of: Vec<AmountEntry>,
}

/// Tokens minted for a native-currency deposit: one thousand tokens per
/// `10^18` deposited units, truncating.
pub open spec fn minted_amount(deposited: nat) -> nat {
    (deposited * 1000) / 1_000_000_000_000_000_000
}

/// Whether a deposit of `deposited` units fits the amount type: neither the
/// scaled deposit nor the grown total supply may reach `2^256`.
pub open spec fn deposit_accepted(pre: VotingToken, deposited: nat) -> bool {
    deposited * 1000 < limit() && pre.spec_supply() + minted_amount(deposited) < limit()
}

impl VotingToken {
    /// The token name.
    pub closed spec fn spec_name(self) -> Seq<char> {
        self.name@
    }

    /// The token symbol.
    pub closed spec fn spec_symbol(self) -> Seq<char> {
        self.symbol@
    }

    /// The total supply.
    pub closed spec fn spec_supply(self) -> nat {
        self.total_supply.as_nat()
    }

    /// The balance of `a`; an account never credited holds zero.
    pub closed spec fn spec_balance(self, a: AccountId) -> nat {
        amount_lookup(self.balance_of@, a)
    }

    /// What `spender` may still move out of `owner`'s balance.
    pub closed spec fn spec_allowance(self, owner: AccountId, spender: AccountId) -> nat {
        allowance_lookup(self.allowance@, owner, spender)
    }

    /// The most recent deposit recorded for `a`.
    pub closed spec fn spec_deposit(self, a: AccountId) -> nat {
        amount_lookup(self.deposit_of@, a)
    }

    /// Well-formedness: the balances never sum to more than the total supply.
    /// The constructor establishes it and every operation preserves it.
    pub closed spec fn wf(self) -> bool {
        amount_total(self.balance_of@) <= self.total_supply.as_nat()
    }
}

/// Both ledgers assign every account the same balance.
pub open spec fn same_balances(pre: VotingToken, post: VotingToken) -> bool {
    forall|a: AccountId| #[trigger] post.spec_balance(a) == pre.spec_balance(a)
}

/// Both ledgers assign every pair the same allowance.
pub open spec fn same_allowances(pre: VotingToken, post: VotingToken) -> bool {
    forall|o: AccountId, s: AccountId|
        #[trigger] post.spec_allowance(o, s) == pre.spec_allowance(o, s)
}

/// Both ledgers record the same deposits.
pub open spec fn same_deposits(pre: VotingToken, post: VotingToken) -> bool {
    forall|a: AccountId| #[trigger] post.spec_deposit(a) == pre.spec_deposit(a)
}

/// Both ledgers carry the same name and symbol.
pub open spec fn same_metadata(pre: VotingToken, post: VotingToken) -> bool {
    post.spec_name() == pre.spec_name() && post.spec_symbol() == pre.spec_symbol()
}

/// A balance after `value` tokens moved from `from` to `to`: credited if the
/// account is the receiver, debited if it is the sender, and unchanged
/// otherwise. A self-transfer nets to no change.
pub open spec fn adjusted_balance(
    before: nat,
    a: AccountId,
    from: AccountId,
    to: AccountId,
    value: nat,
) -> int {
    before + (if a == to {
        value as int
    } else {
        0int
    }) - (if a == from {
        value as int
    } else {
        0int
    })
}

/// All balances moved by a transfer of `value` from `from` to `to`.
pub open spec fn moved_balances(
    pre: VotingToken,
    post: VotingToken,
    from: AccountId,
    to: AccountId,
    value: nat,
) -> bool {
    forall|a: AccountId|
        #[trigger] post.spec_balance(a) == adjusted_balance(pre.spec_balance(a), a, from, to, value)
}

/// Everything `transfer` promises: it succeeds exactly when the sender's
/// balance covers `value`; on success exactly the two balances move, on
/// failure none does; and allowances, deposits, supply and metadata are
/// untouched either way.
pub open spec fn transfer_outcome(
    pre: VotingToken,
    post: VotingToken,
    from: AccountId,
    to: AccountId,
    value: nat,
    ok: bool,
) -> bool {
    &&& ok == (value <= pre.spec_balance(from))
    &&& ok ==> moved_balances(pre, post, from, to, value)
    &&& !ok ==> same_balances(pre, post)
    &&& same_allowances(pre, post)
    &&& same_deposits(pre, post)
    &&& post.spec_supply() == pre.spec_supply()
    &&& same_metadata(pre, post)
}

/// Everything `approve` promises: the pair's allowance is overwritten with
/// `value`, every other pair keeps its allowance, and balances, deposits,
/// supply and metadata are untouched.
pub open spec fn approve_outcome(
    pre: VotingToken,
    post: VotingToken,
    owner: AccountId,
    spender: AccountId,
    value: nat,
) -> bool {
    &&& post.spec_allowance(owner, spender) == value
    &&& forall|o: AccountId, s: AccountId|
        !(o == owner && s == spender) ==> #[trigger] post.spec_allowance(o, s)
            == pre.spec_allowance(o, s)
    &&& same_balances(pre, post)
    &&& same_deposits(pre, post)
    &&& post.spec_supply() == pre.spec_supply()
    &&& same_metadata(pre, post)
}

/// Everything `transfer_from` promises. It succeeds exactly when both the
/// allowance and the sender's balance cover `value`. An insufficient
/// allowance changes nothing. A sufficient allowance is debited by `value`
/// even when the balance check then fails and no tokens move — the recorded
/// behaviour of the allowance-before-balance ordering.
pub open spec fn transfer_from_outcome(
    pre: VotingToken,
    post: VotingToken,
    caller: AccountId,
    from: AccountId,
    to: AccountId,
    value: nat,
    ok: bool,
) -> bool {
    &&& ok == (value <= pre.spec_allowance(from, caller) && value <= pre.spec_balance(from))
    &&& value > pre.spec_allowance(from, caller) ==> same_allowances(pre, post) && same_balances(
        pre,
        post,
    )
    &&& value <= pre.spec_allowance(from, caller) ==> {
        &&& post.spec_allowance(from, caller) == pre.spec_allowance(from, caller) - value
        &&& forall|o: AccountId, s: AccountId|
            !(o == from && s == caller) ==> #[trigger] post.spec_allowance(o, s)
                == pre.spec_allowance(o, s)
        &&& value <= pre.spec_balance(from) ==> moved_balances(pre, post, from, to, value)
        &&& value > pre.spec_balance(from) ==> same_balances(pre, post)
    }
    &&& same_deposits(pre, post)
    &&& post.spec_supply() == pre.spec_supply()
    &&& same_metadata(pre, post)
}

/// Everything `deposit` promises. It succeeds exactly when the scaled deposit
/// and the grown supply fit the amount type. On success the caller's deposit
/// record and balance are overwritten — not accumulated — with the deposited
/// amount and the minted tokens, and the supply grows by the minted tokens;
/// on failure nothing changes. Allowances and metadata are untouched.
pub open spec fn deposit_outcome(
    pre: VotingToken,
    post: VotingToken,
    caller: AccountId,
    deposited: nat,
    ok: bool,
) -> bool {
    &&& ok == deposit_accepted(pre, deposited)
    &&& ok ==> {
        &&& post.spec_deposit(caller) == deposited
        &&& forall|a: AccountId|
            a != caller ==> #[trigger] post.spec_deposit(a) == pre.spec_deposit(a)
        &&& post.spec_balance(caller) == minted_amount(deposited)
        &&& forall|a: AccountId|
            a != caller ==> #[trigger] post.spec_balance(a) == pre.spec_balance(a)
        &&& post.spec_supply() == pre.spec_supply() + minted_amount(deposited)
    }
    &&& !ok ==> same_balances(pre, post) && same_deposits(pre, post) && post.spec_supply()
        == pre.spec_supply()
    &&& same_allowances(pre, post)
    &&& same_metadata(pre, post)
}

impl VotingToken {
    /// Create the ledger: the constructing caller receives the whole initial
    /// supply, has a deposit record of zero, and nothing else is held by
    /// anyone.
    pub fn new(name: String, symbol: String, initial_supply: U256, caller: AccountId) -> (r:
        VotingToken)
        ensures
            r.wf(),
            r.spec_name() == name@,
            r.spec_symbol() == symbol@,
            r.spec_supply() == initial_supply.as_nat(),
            r.spec_balance(caller) == initial_supply.as_nat(),
            forall|a: AccountId| a != caller ==> #[trigger] r.spec_balance(a) == 0,
            forall|a: AccountId| #[trigger] r.spec_deposit(a) == 0,
            forall|o: AccountId, s: AccountId| #[trigger] r.spec_allowance(o, s) == 0,
    {
        let mut balance_of: Vec<AmountEntry> = Vec::new();
        let mut deposit_of: Vec<AmountEntry> = Vec::new();
        let zero = U256::zero();
        proof {
            lemma_amount_total_push(
                Seq::<AmountEntry>::empty(),
                AmountEntry { account: caller, amount: initial_supply },
            );
            assert forall|b: AccountId|
                amount_lookup(
                    Seq::<AmountEntry>::empty().push(
                        AmountEntry { account: caller, amount: initial_supply },
                    ),
                    b,
                ) == if b == caller {
                    initial_supply.as_nat()
                } else {
                    0nat
                } by {
                lemma_amount_lookup_push(Seq::<AmountEntry>::empty(), caller, initial_supply, b);
                lemma_amount_lookup_absent(Seq::<AmountEntry>::empty(), b);
            }
            assert forall|b: AccountId|
                amount_lookup(
                    Seq::<AmountEntry>::empty().push(AmountEntry { account: caller, amount: zero }),
                    b,
                ) == 0nat by {
                lemma_amount_lookup_push(Seq::<AmountEntry>::empty(), caller, zero, b);
                lemma_amount_lookup_absent(Seq::<AmountEntry>::empty(), b);
            }
        }
        balance_of.push(AmountEntry { account: caller, amount: initial_supply });
        deposit_of.push(AmountEntry { account: caller, amount: zero });
        let allowance: Vec<AllowanceEntry> = Vec::new();
        proof {
            assert forall|o: AccountId, s: AccountId|
                allowance_lookup(Seq::<AllowanceEntry>::empty(), o, s) == 0nat by {
                lemma_allowance_lookup_absent(Seq::<AllowanceEntry>::empty(), o, s);
            }
        }
        VotingToken { name, symbol, total_supply: initial_supply, balance_of, allowance, deposit_of }
    }

    /// Move `value` tokens from `from` to `to`; the shared debit-and-credit
    /// step behind `transfer` and `transfer_from`.
    fn transfer_internal(&mut self, from: AccountId, to: AccountId, value: U256) -> (ok: bool)
        requires
            old(self).wf(),
        ensures
            final(self).wf(),
            transfer_outcome(*old(self), *final(self), from, to, value.as_nat(), ok),
    {
        let from_balance = amount_get(&self.balance_of, from);
        if from_balance.lt(&value) {
            return false;
        }
        proof {
            lemma_amount_lookup_le_total(self.balance_of@, from);
            if from != to {
                lemma_amount_lookup_pair_le_total(self.balance_of@, from, to);
            }
            lemma_amount_below_limit(self.total_supply);
        }
        let debited = from_balance.sub(&value);
        amount_set(&mut self.balance_of, from, debited);
        let to_balance = amount_get(&self.balance_of, to);
        proof {
            assert(to_balance.as_nat() + value.as_nat() < limit());
        }
        let credited = to_balance.add(&value);
        amount_set(&mut self.balance_of, to, credited);
        true
    }

    /// Transfer `value` tokens from the caller to `to`.
    pub fn transfer(&mut self, caller: AccountId, to: AccountId, value: U256) -> (ok: bool)
        requires
            old(self).wf(),
        ensures
            final(self).wf(),
            transfer_outcome(*old(self), *final(self), caller, to, value.as_nat(), ok),
    {
        self.transfer_internal(caller, to, value)
    }

    /// Authorise `spender` to move up to `value` tokens out of the caller's
    /// balance, replacing any earlier authorisation. Always succeeds.
    pub fn approve(&mut self, caller: AccountId, spender: AccountId, value: U256) -> (ok: bool)
        requires
            old(self).wf(),
        ensures
            final(self).wf(),
            ok,
            approve_outcome(*old(self), *final(self), caller, spender, value.as_nat()),
    {
        allowance_set(&mut self.allowance, caller, spender, value);
        true
    }

    /// Move `value` tokens from `from` to `to` on the strength of the
    /// allowance `from` granted to the caller. The allowance is debited
    /// before the balance check, so a failed balance check still consumes
    /// allowance; see [`transfer_from_outcome`].
    pub fn transfer_from(
        &mut self,
        caller: AccountId,
        from: AccountId,
        to: AccountId,
        value: U256,
    ) -> (ok: bool)
        requires
            old(self).wf(),
        ensures
            final(self).wf(),
            transfer_from_outcome(*old(self), *final(self), caller, from, to, value.as_nat(), ok),
    {
        let allowed = allowance_get(&self.allowance, from, caller);
        if allowed.lt(&value) {
            return false;
        }
        let remaining = allowed.sub(&value);
        allowance_set(&mut self.allowance, from, caller, remaining);
        self.transfer_internal(from, to, value)
    }

    /// Record a native-currency deposit by the caller and mint tokens for it
    /// at one thousand tokens per `10^18` deposited units. Both the deposit
    /// record and the caller's balance are overwritten, not accumulated. The
    /// call is rejected, with no state change, exactly when the scaled
    /// deposit or the grown supply would reach `2^256`.
    pub fn deposit(&mut self, caller: AccountId, deposited: U256) -> (ok: bool)
        requires
            old(self).wf(),
        ensures
            final(self).wf(),
            deposit_outcome(*old(self), *final(self), caller, deposited.as_nat(), ok),
    {
        let scaled = match deposited.checked_mul_u64(1000) {
            Some(p) => p,
            None => {
                return false;
            },
        };
        let minted = scaled.div_u64(1_000_000_000_000_000_000u64);
        let new_supply = match self.total_supply.checked_add(&minted) {
            Some(s) => s,
            None => {
                return false;
            },
        };
        proof {
            lemma_amount_lookup_le_total(self.balance_of@, caller);
        }
        amount_set(&mut self.deposit_of, caller, deposited);
        amount_set(&mut self.balance_of, caller, minted);
        self.total_supply = new_supply;
        true
    }

    /// The token name.
    pub fn get_name(&self) -> (r: String)
        ensures
            r@ == self.spec_name(),
    {
        self.name.clone()
    }

    /// The token symbol.
    pub fn get_symbol(&self) -> (r: String)
        ensures
            r@ == self.spec_symbol(),
    {
        self.symbol.clone()
    }

    /// The total supply.
    pub fn get_total_supply(&self) -> (r: U256)
        ensures
            r.as_nat() == self.spec_supply(),
    {
        self.total_supply
    }

    /// The balance of `account`, zero if it was never credited.
    pub fn get_balance(&self, account: AccountId) -> (r: U256)
        ensures
            r.as_nat() == self.spec_balance(account),
    {
        amount_get(&self.balance_of, account)
    }

    /// What `spender` may still move out of `owner`'s balance, zero if
    /// nothing was approved.
    pub fn get_allowance(&self, owner: AccountId, spender: AccountId) -> (r: U256)
        ensures
            r.as_nat() == self.spec_allowance(owner, spender),
    {
        allowance_get(&self.allowance, owner, spender)
    }

    /// The most recent deposit recorded for `account`, zero if it never
    /// deposited.
    pub fn get_deposit(&self, account: AccountId) -> (r: U256)
        ensures
            r.as_nat() == self.spec_deposit(account),
    {
        amount_get(&self.deposit_of, account)
    }
}

/// In a well-formed ledger no single balance exceeds the total supply.
pub proof fn lemma_balance_le_supply(l: VotingToken, a: AccountId)
    requires
        l.wf(),
    ensures
        l.spec_balance(a) <= l.spec_supply(),
{
    lemma_amount_lookup_le_total(l.balance_of@, a);
}

/// In a well-formed ledger two distinct balances fit in the total supply
/// together; this is what makes every credit free of overflow.
pub proof fn lemma_distinct_balances_le_supply(l: VotingToken, a: AccountId, b: AccountId)
    requires
        l.wf(),
        a != b,
    ensures
        l.spec_balance(a) + l.spec_balance(b) <= l.spec_supply(),
{
    lemma_amount_lookup_pair_le_total(l.balance_of@, a, b);
}

/// Approving the same pair twice keeps only the second value: the allowance
/// is overwritten, not accumulated, and nothing else moves across the two
/// calls.
pub proof fn lemma_approve_overwrites(
    l0: VotingToken,
    l1: VotingToken,
    l2: VotingToken,
    owner: AccountId,
    spender: AccountId,
    v1: nat,
    v2: nat,
)
    requires
        approve_outcome(l0, l1, owner, spender, v1),
        approve_outcome(l1, l2, owner, spender, v2),
    ensures
        l2.spec_allowance(owner, spender) == v2,
        forall|o: AccountId, s: AccountId|
            !(o == owner && s == spender) ==> #[trigger] l2.spec_allowance(o, s)
                == l0.spec_allowance(o, s),
        same_balances(l0, l2),
        same_deposits(l0, l2),
        l2.spec_supply() == l0.spec_supply(),
        same_metadata(l0, l2),
{
}

/// A second successful deposit by the same caller replaces — does not add to —
/// the caller's deposit record and balance, while the total supply grows by
/// both mints.
pub proof fn lemma_deposit_replaces(
    l0: VotingToken,
    l1: VotingToken,
    l2: VotingToken,
    caller: AccountId,
    d1: nat,
    d2: nat,
)
    requires
        deposit_outcome(l0, l1, caller, d1, true),
        deposit_outcome(l1, l2, caller, d2, true),
    ensures
        l2.spec_deposit(caller) == d2,
        l2.spec_balance(caller) == minted_amount(d2),
        l2.spec_supply() == l0.spec_supply() + minted_amount(d1) + minted_amount(d2),
        forall|a: AccountId| a != caller ==> #[trigger] l2.spec_balance(a) == l0.spec_balance(a),
{
}

/// Some operation of the ledger relates the two states.
pub open spec fn ledger_step(pre: VotingToken, post: VotingToken) -> bool {
    ||| exists|from: AccountId, to: AccountId, value: nat, ok: bool|
        transfer_outcome(pre, post, from, to, value, ok)
    ||| exists|owner: AccountId, spender: AccountId, value: nat|
        approve_outcome(pre, post, owner, spender, value)
    ||| exists|caller: AccountId, from: AccountId, to: AccountId, value: nat, ok: bool|
        transfer_from_outcome(pre, post, caller, from, to, value, ok)
    ||| exists|caller: AccountId, deposited: nat, ok: bool|
        deposit_outcome(pre, post, caller, deposited, ok)
}

/// A successful transfer from an account to itself nets to no change in any
/// balance: the debit and the credit cancel.
pub proof fn lemma_self_transfer_nets_nothing(
    pre: VotingToken,
    post: VotingToken,
    a: AccountId,
    value: nat,
)
    requires
        transfer_outcome(pre, post, a, a, value, true),
    ensures
        same_balances(pre, post),
{
    assert forall|b: AccountId| #[trigger] post.spec_balance(b) == pre.spec_balance(b) by {
        assert(post.spec_balance(b) == adjusted_balance(pre.spec_balance(b), b, a, a, value));
    }
}

/// No operation ever lowers the total supply: transfers and approvals keep
/// it, and deposits only grow it.
pub proof fn lemma_supply_never_decreases(pre: VotingToken, post: VotingToken)
    requires
        ledger_step(pre, post),
    ensures
        post.spec_supply() >= pre.spec_supply(),
{
    if exists|caller: AccountId, deposited: nat, ok: bool|
        deposit_outcome(pre, post, caller, deposited, ok) {
        let (caller, deposited, ok) = choose|caller: AccountId, deposited: nat, ok: bool|
            deposit_outcome(pre, post, caller, deposited, ok);
        assert(deposit_outcome(pre, post, caller, deposited, ok));
    }
}

} // verus!
