//! Per-account amounts, kept as an association list.
//!
//! Both ledgers record balances as a vector of `(account, amount)` pairs in
//! which every account appears at most once.  Absent accounts read as zero.
//! The sum of all recorded amounts is tracked so that the fungible ledger
//! can maintain its conservation invariant.

use vstd::prelude::*;

verus! {

use crate::account::AccountId;

/// Every account appears at most once.
pub open spec fn bal_distinct(s: Seq<(AccountId, u32)>) -> bool {
    forall|i: int, j: int| 0 <= i < j < s.len() ==> s[i].0 != s[j].0
}

/// The entry recorded for `a` at or after position `i`, if any.
pub open spec fn bal_entry_from(s: Seq<(AccountId, u32)>, a: AccountId, i: int) -> Option<u32>
    decreases s.len() - i,
{
    if i < 0 || i >= s.len() {
        None
    } else if s[i].0 == a {
        Some(s[i].1)
    } else {
        bal_entry_from(s, a, i + 1)
    }
}

/// The entry recorded for `a`, if any.
pub open spec fn bal_entry(s: Seq<(AccountId, u32)>, a: AccountId) -> Option<u32> {
    bal_entry_from(s, a, 0)
}

/// The amount recorded for `a`; absent accounts read as zero.
pub open spec fn bal_value(s: Seq<(AccountId, u32)>, a: AccountId) -> u32 {
    match bal_entry(s, a) {
        Some(v) => v,
        None => 0,
    }
}

/// The sum of the amounts recorded at or after position `i`.
pub open spec fn bal_total_from(s: Seq<(AccountId, u32)>, i: int) -> int
    decreases s.len() - i,
{
    if i < 0 || i >= s.len() {
        0
    } else {
        s[i].1 + bal_total_from(s, i + 1)
    }
}

/// The sum of all recorded amounts.
pub open spec fn bal_total(s: Seq<(AccountId, u32)>) -> int {
    bal_total_from(s, 0)
}

/// A scan that found nothing passed no entry for the account.
proof fn lemma_bal_entry_from_none(s: Seq<(AccountId, u32)>, a: AccountId, i: int)
    requires
        0 <= i <= s.len(),
        bal_entry_from(s, a, i) is None,
    ensures
        forall|j: int| i <= j < s.len() ==> s[j].0 != a,
    decreases s.len() - i,
{
    if i < s.len() {
        lemma_bal_entry_from_none(s, a, i + 1);
    }
}

/// No single recorded amount exceeds the sum of all of them.
proof fn lemma_bal_value_le_total_from(s: Seq<(AccountId, u32)>, a: AccountId, i: int)
    requires
        0 <= i <= s.len(),
    ensures
        0 <= bal_total_from(s, i),
        (match bal_entry_from(s, a, i) {
            Some(v) => v <= bal_total_from(s, i),
            None => true,
        }),
    decreases s.len() - i,
{
    if i < s.len() {
        lemma_bal_value_le_total_from(s, a, i + 1);
    }
}

/// No account's amount exceeds the sum of all recorded amounts.
pub proof fn lemma_bal_value_le_total(s: Seq<(AccountId, u32)>, a: AccountId)
    ensures
        0 <= bal_total(s),
        bal_value(s, a) <= bal_total(s),
{
    lemma_bal_value_le_total_from(s, a, 0);
}

/// Overwriting the amount at position `j` changes only that account's entry.
proof fn lemma_bal_entry_from_update(
    s: Seq<(AccountId, u32)>,
    j: int,
    v: u32,
    a: AccountId,
    i: int,
)
    requires
        bal_distinct(s),
        0 <= j < s.len(),
        0 <= i <= s.len(),
    ensures
        bal_entry_from(s.update(j, (s[j].0, v)), a, i) == (if a == s[j].0 && i <= j {
            Some(v)
        } else {
            bal_entry_from(s, a, i)
        }),
    decreases s.len() - i,
{
    if i < s.len() {
        lemma_bal_entry_from_update(s, j, v, a, i + 1);
        if i != j && i < j && s[i].0 == a && a == s[j].0 {
            assert(s[i].0 != s[j].0);
        }
        if i != j && j < i && s[i].0 == a && a == s[j].0 {
            assert(s[j].0 != s[i].0);
        }
    }
}

/// Overwriting the amount at position `j` shifts the sum by the difference.
proof fn lemma_bal_total_from_update(s: Seq<(AccountId, u32)>, j: int, v: u32, i: int)
    requires
        0 <= j < s.len(),
        0 <= i <= s.len(),
    ensures
        bal_total_from(s.update(j, (s[j].0, v)), i) == bal_total_from(s, i) + (if i <= j {
            v - s[j].1
        } else {
            0
        }),
    decreases s.len() - i,
{
    if i < s.len() {
        lemma_bal_total_from_update(s, j, v, i + 1);
    }
}

/// Appending a pair leaves earlier entries in force and adds a fallback.
proof fn lemma_bal_entry_from_push(
    s: Seq<(AccountId, u32)>,
    p: (AccountId, u32),
    a: AccountId,
    i: int,
)
    requires
        0 <= i <= s.len(),
    ensures
        bal_entry_from(s.push(p), a, i) == (match bal_entry_from(s, a, i) {
            Some(v) => Some(v),
            None => if a == p.0 {
                Some(p.1)
            } else {
                None
            },
        }),
    decreases s.len() - i,
{
    if i < s.len() {
        lemma_bal_entry_from_push(s, p, a, i + 1);
    } else {
        assert(bal_entry_from(s.push(p), a, i + 1) is None);
    }
}

/// Appending a pair adds its amount to the sum.
proof fn lemma_bal_total_from_push(s: Seq<(AccountId, u32)>, p: (AccountId, u32), i: int)
    requires
        0 <= i <= s.len(),
    ensures
        bal_total_from(s.push(p), i) == bal_total_from(s, i) + p.1,
    decreases s.len() - i,
{
    if i < s.len() {
        lemma_bal_total_from_push(s, p, i + 1);
    } else {
        assert(bal_total_from(s.push(p), i + 1) == 0);
    }
}

/// Returns the amount recorded for `a`, reading absent accounts as zero.
pub fn bal_read(s: &Vec<(AccountId, u32)>, a: AccountId) -> (r: u32)
    ensures
        r == bal_value(s@, a),
{
    let n = s.len();
    let mut i: usize = 0;
    while i < n
        invariant
            n == s@.len(),
            0 <= i <= n,
            bal_entry_from(s@, a, 0) == bal_entry_from(s@, a, i as int),
        decreases n - i,
    {
        let pair = s[i];
        if pair.0 == a {
            return pair.1;
        }
        i = i + 1;
    }
    0
}

/// Records amount `v` for account `a`, adding the entry if it is absent.
pub fn bal_write(s: &mut Vec<(AccountId, u32)>, a: AccountId, v: u32)
    requires
        bal_distinct(old(s)@),
    ensures
        bal_distinct(final(s)@),
        bal_entry(final(s)@, a) == Some(v),
        forall|x: AccountId| x != a ==> bal_entry(final(s)@, x) == bal_entry(old(s)@, x),
        bal_total(final(s)@) == bal_total(old(s)@) - bal_value(old(s)@, a) + v,
{
    let ghost s0 = s@;
    let n = s.len();
    let mut i: usize = 0;
    while i < n
        invariant
            s@ == s0,
            old(s)@ == s0,
            n == s0.len(),
            0 <= i <= n,
            bal_distinct(s0),
            bal_entry_from(s0, a, 0) == bal_entry_from(s0, a, i as int),
        decreases n - i,
    {
        if s[i].0 == a {
            s[i] = (a, v);
            proof {
                assert(s@ == s0.update(i as int, (s0[i as int].0, v)));
                assert(bal_entry_from(s0, a, i as int) == Some(s0[i as int].1));
                assert(bal_value(s0, a) == s0[i as int].1);
                lemma_bal_entry_from_update(s0, i as int, v, a, 0);
                assert forall|x: AccountId| x != a implies bal_entry(s@, x) == bal_entry(
                    s0,
                    x,
                ) by {
                    lemma_bal_entry_from_update(s0, i as int, v, x, 0);
                }
                lemma_bal_total_from_update(s0, i as int, v, 0);
                assert forall|p: int, q: int| 0 <= p < q < s@.len() implies s@[p].0 != s@[q].0 by {
                    assert(s0[p].0 != s0[q].0);
                }
            }
            return;
        }
        i = i + 1;
    }
    proof {
        lemma_bal_entry_from_none(s0, a, 0);
    }
    s.push((a, v));
    proof {
        lemma_bal_entry_from_push(s0, (a, v), a, 0);
        assert forall|x: AccountId| x != a implies bal_entry(s@, x) == bal_entry(s0, x) by {
            lemma_bal_entry_from_push(s0, (a, v), x, 0);
        }
        lemma_bal_total_from_push(s0, (a, v), 0);
        assert forall|p: int, q: int| 0 <= p < q < s@.len() implies s@[p].0 != s@[q].0 by {
            if q < s0.len() {
                assert(s0[p].0 != s0[q].0);
            } else {
                assert(s0[p].0 != a);
            }
        }
    }
}

} // verus!
