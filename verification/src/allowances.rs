//! Delegated-spending grants, kept as an association list.
//!
//! The fungible ledger records each grant as an `(owner, spender, amount)`
//! triple in which every `(owner, spender)` pair appears at most once.
//! Absent pairs read as zero: no grant means nothing may be moved.

use vstd::prelude::*;

verus! {

use crate::account::AccountId;

/// Every `(owner, spender)` pair appears at most once.
pub open spec fn alw_distinct(s: Seq<(AccountId, AccountId, u32)>) -> bool {
    forall|i: int, j: int|
        0 <= i < j < s.len() ==> !(s[i].0 == s[j].0 && s[i].1 == s[j].1)
}

/// The entry recorded for `(owner, spender)` at or after position `i`, if any.
pub open spec fn alw_entry_from(
    s: Seq<(AccountId, AccountId, u32)>,
    owner: AccountId,
    spender: AccountId,
    i: int,
) -> Option<u32>
    decreases s.len() - i,
{
    if i < 0 || i >= s.len() {
        None
    } else if s[i].0 == owner && s[i].1 == spender {
        Some(s[i].2)
    } else {
        alw_entry_from(s, owner, spender, i + 1)
    }
}

/// The entry recorded for `(owner, spender)`, if any.
pub open spec fn alw_entry(
    s: Seq<(AccountId, AccountId, u32)>,
    owner: AccountId,
    spender: AccountId,
) -> Option<u32> {
    alw_entry_from(s, owner, spender, 0)
}

/// The amount granted by `owner` to `spender`; absent pairs read as zero.
pub open spec fn alw_value(
    s: Seq<(AccountId, AccountId, u32)>,
    owner: AccountId,
    spender: AccountId,
) -> u32 {
    match alw_entry(s, owner, spender) {
        Some(v) => v,
        None => 0,
    }
}

/// A scan that found nothing passed no entry for the pair.
proof fn lemma_alw_entry_from_none(
    s: Seq<(AccountId, AccountId, u32)>,
    owner: AccountId,
    spender: AccountId,
    i: int,
)
    requires
        0 <= i <= s.len(),
        alw_entry_from(s, owner, spender, i) is None,
    ensures
        forall|j: int| i <= j < s.len() ==> !(s[j].0 == owner && s[j].1 == spender),
    decreases s.len() - i,
{
    if i < s.len() {
        lemma_alw_entry_from_none(s, owner, spender, i + 1);
    }
}

/// Overwriting the amount at position `j` changes only that pair's entry.
proof fn lemma_alw_entry_from_update(
    s: Seq<(AccountId, AccountId, u32)>,
    j: int,
    v: u32,
    owner: AccountId,
    spender: AccountId,
    i: int,
)
    requires
        alw_distinct(s),
        0 <= j < s.len(),
        0 <= i <= s.len(),
    ensures
        alw_entry_from(s.update(j, (s[j].0, s[j].1, v)), owner, spender, i) == (if owner == s[j].0
            && spender == s[j].1 && i <= j {
            Some(v)
        } else {
            alw_entry_from(s, owner, spender, i)
        }),
    decreases s.len() - i,
{
    if i < s.len() {
        lemma_alw_entry_from_update(s, j, v, owner, spender, i + 1);
        if i != j && s[i].0 == owner && s[i].1 == spender && owner == s[j].0 && spender
            == s[j].1 {
            if i < j {
                assert(!(s[i].0 == s[j].0 && s[i].1 == s[j].1));
            } else {
                assert(!(s[j].0 == s[i].0 && s[j].1 == s[i].1));
            }
        }
    }
}

/// Appending a triple leaves earlier entries in force and adds a fallback.
proof fn lemma_alw_entry_from_push(
    s: Seq<(AccountId, AccountId, u32)>,
    p: (AccountId, AccountId, u32),
    owner: AccountId,
    spender: AccountId,
    i: int,
)
    requires
        0 <= i <= s.len(),
    ensures
        alw_entry_from(s.push(p), owner, spender, i) == (match alw_entry_from(
            s,
            owner,
            spender,
            i,
        ) {
            Some(v) => Some(v),
            None => if owner == p.0 && spender == p.1 {
                Some(p.2)
            } else {
                None
            },
        }),
    decreases s.len() - i,
{
    if i < s.len() {
        lemma_alw_entry_from_push(s, p, owner, spender, i + 1);
    } else {
        assert(alw_entry_from(s.push(p), owner, spender, i + 1) is None);
    }
}

/// Returns the amount granted by `owner` to `spender`, absent pairs reading
/// as zero.
pub fn alw_read(
    s: &Vec<(AccountId, AccountId, u32)>,
    owner: AccountId,
    spender: AccountId,
) -> (r: u32)
    ensures
        r == alw_value(s@, owner, spender),
{
    let n = s.len();
    let mut i: usize = 0;
    while i < n
        invariant
            n == s@.len(),
            0 <= i <= n,
            alw_entry_from(s@, owner, spender, 0) == alw_entry_from(s@, owner, spender, i as int),
        decreases n - i,
    {
        let triple = s[i];
        if triple.0 == owner && triple.1 == spender {
            return triple.2;
        }
        i = i + 1;
    }
    0
}

/// Records the grant of `v` from `owner` to `spender`, adding the entry if
/// it is absent.
pub fn alw_write(s: &mut Vec<(AccountId, AccountId, u32)>, owner: AccountId, spender: AccountId, v: u32)
    requires
        alw_distinct(old(s)@),
    ensures
        alw_distinct(final(s)@),
        alw_entry(final(s)@, owner, spender) == Some(v),
        forall|o: AccountId, p: AccountId|
            !(o == owner && p == spender) ==> alw_entry(final(s)@, o, p) == alw_entry(old(s)@, o, p),
{
    let ghost s0 = s@;
    let n = s.len();
    let mut i: usize = 0;
    while i < n
        invariant
            s@ == s0,
            old(s)@ == s0,
            n == s0.len(),
            0 <= i <= n,
            alw_distinct(s0),
            alw_entry_from(s0, owner, spender, 0) == alw_entry_from(s0, owner, spender, i as int),
        decreases n - i,
    {
        if s[i].0 == owner && s[i].1 == spender {
            s[i] = (owner, spender, v);
            proof {
                assert(s@ == s0.update(i as int, (s0[i as int].0, s0[i as int].1, v)));
                lemma_alw_entry_from_update(s0, i as int, v, owner, spender, 0);
                assert forall|o: AccountId, p: AccountId| !(o == owner && p == spender) implies
                    alw_entry(s@, o, p) == alw_entry(s0, o, p) by {
                    lemma_alw_entry_from_update(s0, i as int, v, o, p, 0);
                }
                assert forall|p: int, q: int| 0 <= p < q < s@.len() implies !(s@[p].0 == s@[q].0
                    && s@[p].1 == s@[q].1) by {
                    assert(!(s0[p].0 == s0[q].0 && s0[p].1 == s0[q].1));
                }
            }
            return;
        }
        i = i + 1;
    }
    proof {
        lemma_alw_entry_from_none(s0, owner, spender, 0);
    }
    s.push((owner, spender, v));
    proof {
        lemma_alw_entry_from_push(s0, (owner, spender, v), owner, spender, 0);
        assert forall|o: AccountId, p: AccountId| !(o == owner && p == spender) implies alw_entry(
            s@,
            o,
            p,
        ) == alw_entry(s0, o, p) by {
            lemma_alw_entry_from_push(s0, (owner, spender, v), o, p, 0);
        }
        assert forall|p: int, q: int| 0 <= p < q < s@.len() implies !(s@[p].0 == s@[q].0 && s@[p].1
            == s@[q].1) by {
            if q < s0.len() {
                assert(!(s0[p].0 == s0[q].0 && s0[p].1 == s0[q].1));
            } else {
                assert(!(s0[p].0 == owner && s0[p].1 == spender));
            }
        }
    }
}

} // verus!
