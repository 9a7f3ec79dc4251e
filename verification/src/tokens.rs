//! Token registries, kept as association lists.
//!
//! The non-fungible ledger keeps two registries of `(token id, account)`
//! pairs in which every token id appears at most once: the ownership map and
//! the per-token approval map.  An absent id means the token does not exist
//! (or carries no approval).  The number of entries a given account holds is
//! tracked so that the ledger can keep each balance equal to the count of
//! tokens owned.

use vstd::prelude::*;

verus! {

use crate::account::AccountId;

/// Every token id appears at most once.
pub open spec fn tok_distinct(s: Seq<(u32, AccountId)>) -> bool {
    forall|i: int, j: int| 0 <= i < j < s.len() ==> s[i].0 != s[j].0
}

/// The account recorded for `id` at or after position `i`, if any.
pub open spec fn tok_entry_from(s: Seq<(u32, AccountId)>, id: u32, i: int) -> Option<AccountId>
    decreases s.len() - i,
{
    if i < 0 || i >= s.len() {
        None
    } else if s[i].0 == id {
        Some(s[i].1)
    } else {
        tok_entry_from(s, id, i + 1)
    }
}

/// The account recorded for `id`, if any.
pub open spec fn tok_entry(s: Seq<(u32, AccountId)>, id: u32) -> Option<AccountId> {
    tok_entry_from(s, id, 0)
}

/// How many entries at or after position `i` record account `a`.
pub open spec fn holder_count_from(s: Seq<(u32, AccountId)>, a: AccountId, i: int) -> int
    decreases s.len() - i,
{
    if i < 0 || i >= s.len() {
        0
    } else {
        (if s[i].1 == a {
            1int
        } else {
            0
        }) + holder_count_from(s, a, i + 1)
    }
}

/// How many entries record account `a`.
pub open spec fn holder_count(s: Seq<(u32, AccountId)>, a: AccountId) -> int {
    holder_count_from(s, a, 0)
}

/// A scan that found nothing passed no entry for the id.
proof fn lemma_tok_entry_from_none(s: Seq<(u32, AccountId)>, id: u32, i: int)
    requires
        0 <= i <= s.len(),
        tok_entry_from(s, id, i) is None,
    ensures
        forall|j: int| i <= j < s.len() ==> s[j].0 != id,
    decreases s.len() - i,
{
    if i < s.len() {
        lemma_tok_entry_from_none(s, id, i + 1);
    }
}

/// With distinct ids, a scan from no later than position `k` finds entry `k`.
proof fn lemma_tok_entry_from_at(s: Seq<(u32, AccountId)>, k: int, i: int)
    requires
        tok_distinct(s),
        0 <= i <= k < s.len(),
    ensures
        tok_entry_from(s, s[k].0, i) == Some(s[k].1),
    decreases s.len() - i,
{
    if i < k {
        assert(s[i].0 != s[k].0);
        lemma_tok_entry_from_at(s, k, i + 1);
    }
}

/// A count is never negative and never exceeds the number of entries scanned.
proof fn lemma_holder_count_from_bounds(s: Seq<(u32, AccountId)>, a: AccountId, i: int)
    requires
        0 <= i <= s.len(),
    ensures
        0 <= holder_count_from(s, a, i) <= s.len() - i,
    decreases s.len() - i,
{
    if i < s.len() {
        lemma_holder_count_from_bounds(s, a, i + 1);
    }
}

/// A count never exceeds the number of entries.
pub proof fn lemma_holder_count_bounds(s: Seq<(u32, AccountId)>, a: AccountId)
    ensures
        0 <= holder_count(s, a) <= s.len(),
{
    lemma_holder_count_from_bounds(s, a, 0);
}

/// Two different accounts' counts share the same entries.
proof fn lemma_holder_count_from_pair(
    s: Seq<(u32, AccountId)>,
    a: AccountId,
    b: AccountId,
    i: int,
)
    requires
        a != b,
        0 <= i <= s.len(),
    ensures
        holder_count_from(s, a, i) + holder_count_from(s, b, i) <= s.len() - i,
    decreases s.len() - i,
{
    if i < s.len() {
        lemma_holder_count_from_pair(s, a, b, i + 1);
        lemma_holder_count_from_bounds(s, a, i + 1);
        lemma_holder_count_from_bounds(s, b, i + 1);
    }
}

/// Two different accounts cannot together hold more entries than there are.
pub proof fn lemma_holder_count_pair(s: Seq<(u32, AccountId)>, a: AccountId, b: AccountId)
    requires
        a != b,
    ensures
        holder_count(s, a) + holder_count(s, b) <= s.len(),
{
    lemma_holder_count_from_pair(s, a, b, 0);
}

/// An account recorded for some id is counted at least once.
proof fn lemma_tok_entry_some_count_from(s: Seq<(u32, AccountId)>, id: u32, i: int)
    requires
        0 <= i <= s.len(),
    ensures
        (match tok_entry_from(s, id, i) {
            Some(b) => holder_count_from(s, b, i) >= 1,
            None => true,
        }),
    decreases s.len() - i,
{
    if i < s.len() {
        lemma_tok_entry_some_count_from(s, id, i + 1);
        if s[i].0 == id {
            lemma_holder_count_from_bounds(s, s[i].1, i + 1);
        }
    }
}

/// An account recorded for some id is counted at least once.
pub proof fn lemma_tok_entry_some_count(s: Seq<(u32, AccountId)>, id: u32)
    ensures
        (match tok_entry(s, id) {
            Some(b) => holder_count(s, b) >= 1,
            None => true,
        }),
{
    lemma_tok_entry_some_count_from(s, id, 0);
}

/// Overwriting the account at position `j` changes only that id's entry.
proof fn lemma_tok_entry_from_update(
    s: Seq<(u32, AccountId)>,
    j: int,
    a: AccountId,
    id: u32,
    i: int,
)
    requires
        tok_distinct(s),
        0 <= j < s.len(),
        0 <= i <= s.len(),
    ensures
        tok_entry_from(s.update(j, (s[j].0, a)), id, i) == (if id == s[j].0 && i <= j {
            Some(a)
        } else {
            tok_entry_from(s, id, i)
        }),
    decreases s.len() - i,
{
    if i < s.len() {
        lemma_tok_entry_from_update(s, j, a, id, i + 1);
        if i != j && s[i].0 == id && id == s[j].0 {
            if i < j {
                assert(s[i].0 != s[j].0);
            } else {
                assert(s[j].0 != s[i].0);
            }
        }
    }
}

/// Overwriting the account at position `j` moves one count between holders.
proof fn lemma_holder_count_from_update(
    s: Seq<(u32, AccountId)>,
    j: int,
    a: AccountId,
    x: AccountId,
    i: int,
)
    requires
        0 <= j < s.len(),
        0 <= i <= s.len(),
    ensures
        holder_count_from(s.update(j, (s[j].0, a)), x, i) == holder_count_from(s, x, i) + (if i
            <= j {
            (if a == x {
                1int
            } else {
                0
            }) - (if s[j].1 == x {
                1int
            } else {
                0
            })
        } else {
            0
        }),
    decreases s.len() - i,
{
    if i < s.len() {
        lemma_holder_count_from_update(s, j, a, x, i + 1);
    }
}

/// Appending a pair leaves earlier entries in force and adds a fallback.
proof fn lemma_tok_entry_from_push(s: Seq<(u32, AccountId)>, p: (u32, AccountId), id: u32, i: int)
    requires
        0 <= i <= s.len(),
    ensures
        tok_entry_from(s.push(p), id, i) == (match tok_entry_from(s, id, i) {
            Some(b) => Some(b),
            None => if id == p.0 {
                Some(p.1)
            } else {
                None
            },
        }),
    decreases s.len() - i,
{
    if i < s.len() {
        lemma_tok_entry_from_push(s, p, id, i + 1);
    } else {
        assert(tok_entry_from(s.push(p), id, i + 1) is None);
    }
}

/// Appending a pair adds one to its account's count.
proof fn lemma_holder_count_from_push(
    s: Seq<(u32, AccountId)>,
    p: (u32, AccountId),
    x: AccountId,
    i: int,
)
    requires
        0 <= i <= s.len(),
    ensures
        holder_count_from(s.push(p), x, i) == holder_count_from(s, x, i) + (if p.1 == x {
            1int
        } else {
            0
        }),
    decreases s.len() - i,
{
    if i < s.len() {
        lemma_holder_count_from_push(s, p, x, i + 1);
    } else {
        assert(holder_count_from(s.push(p), x, i + 1) == 0);
    }
}

/// Moving the last entry over position `j` and dropping the tail removes
/// exactly the id at `j` from the registry.
proof fn lemma_tok_entry_from_swap_remove(s: Seq<(u32, AccountId)>, j: int, id: u32, i: int)
    requires
        tok_distinct(s),
        0 <= j < s.len(),
        0 <= i <= s.len() - 1,
    ensures
        ({
            let t = s.update(j, s[s.len() - 1]).subrange(0, s.len() - 1);
            tok_entry_from(t, id, i) == (if id == s[j].0 {
                None::<AccountId>
            } else if id == s[s.len() - 1].0 {
                if i <= j {
                    Some(s[s.len() - 1].1)
                } else {
                    None::<AccountId>
                }
            } else {
                tok_entry_from(s, id, i)
            })
        }),
    decreases s.len() - i,
{
    let t = s.update(j, s[s.len() - 1]).subrange(0, s.len() - 1);
    let last = s.len() - 1;
    if i < last {
        lemma_tok_entry_from_swap_remove(s, j, id, i + 1);
        if i == j {
            if j < last {
                assert(s[j].0 != s[last].0);
            }
        } else {
            if i < j {
                assert(s[i].0 != s[j].0);
            } else {
                assert(s[j].0 != s[i].0);
            }
            assert(s[i].0 != s[last].0);
        }
    } else {
        if id != s[j].0 && id != s[last].0 {
            assert(tok_entry_from(s, id, i + 1) is None);
        }
    }
}

/// Moving the last entry over position `j` and dropping the tail removes
/// exactly the account at `j` from the counts.
proof fn lemma_holder_count_from_swap_remove(
    s: Seq<(u32, AccountId)>,
    j: int,
    x: AccountId,
    i: int,
)
    requires
        0 <= j < s.len(),
        0 <= i <= s.len() - 1,
    ensures
        ({
            let t = s.update(j, s[s.len() - 1]).subrange(0, s.len() - 1);
            holder_count_from(t, x, i) == holder_count_from(s, x, i) - (if i <= j && s[j].1 == x {
                1int
            } else {
                0
            }) - (if s[s.len() - 1].1 == x {
                1int
            } else {
                0
            }) + (if i <= j && s[s.len() - 1].1 == x {
                1int
            } else {
                0
            })
        }),
    decreases s.len() - i,
{
    let t = s.update(j, s[s.len() - 1]).subrange(0, s.len() - 1);
    if i < s.len() - 1 {
        lemma_holder_count_from_swap_remove(s, j, x, i + 1);
        assert(t[i] == (if i == j {
            s[s.len() - 1]
        } else {
            s[i]
        }));
        assert(holder_count_from(t, x, i) == (if t[i].1 == x {
            1int
        } else {
            0
        }) + holder_count_from(t, x, i + 1));
    } else {
        assert(holder_count_from(t, x, i) == 0);
        assert(holder_count_from(s, x, i + 1) == 0);
        assert(holder_count_from(s, x, i) == (if s[i].1 == x {
            1int
        } else {
            0
        }));
    }
}

/// Returns the account recorded for `id`, if any.
pub fn tok_read(s: &Vec<(u32, AccountId)>, id: u32) -> (r: Option<AccountId>)
    ensures
        r == tok_entry(s@, id),
{
    let n = s.len();
    let mut i: usize = 0;
    while i < n
        invariant
            n == s@.len(),
            0 <= i <= n,
            tok_entry_from(s@, id, 0) == tok_entry_from(s@, id, i as int),
        decreases n - i,
    {
        let pair = s[i];
        if pair.0 == id {
            return Some(pair.1);
        }
        i = i + 1;
    }
    None
}

/// Records account `a` for token `id`, adding the entry if it is absent.
pub fn tok_write(s: &mut Vec<(u32, AccountId)>, id: u32, a: AccountId)
    requires
        tok_distinct(old(s)@),
    ensures
        tok_distinct(final(s)@),
        tok_entry(final(s)@, id) == Some(a),
        forall|q: u32| q != id ==> tok_entry(final(s)@, q) == tok_entry(old(s)@, q),
        forall|x: AccountId|
            holder_count(final(s)@, x) == holder_count(old(s)@, x) + (if x == a {
                1int
            } else {
                0
            }) - (match tok_entry(old(s)@, id) {
                Some(b) => if x == b {
                    1int
                } else {
                    0
                },
                None => 0,
            }),
        final(s)@.len() == old(s)@.len() + (if tok_entry(old(s)@, id) is Some {
            0int
        } else {
            1
        }),
{
    let ghost s0 = s@;
    let n = s.len();
    let mut i: usize = 0;
    while i < n
        invariant
            s@ == s0,
            old(s)@ == s0,
            n == s0.len(),
            0 <= i <= n,
            tok_distinct(s0),
            tok_entry_from(s0, id, 0) == tok_entry_from(s0, id, i as int),
        decreases n - i,
    {
        if s[i].0 == id {
            s[i] = (id, a);
            proof {
                assert(s@ == s0.update(i as int, (s0[i as int].0, a)));
                assert(tok_entry_from(s0, id, i as int) == Some(s0[i as int].1));
                lemma_tok_entry_from_update(s0, i as int, a, id, 0);
                assert forall|q: u32| q != id implies tok_entry(s@, q) == tok_entry(s0, q) by {
                    lemma_tok_entry_from_update(s0, i as int, a, q, 0);
                }
                assert forall|x: AccountId|
                    holder_count(s@, x) == holder_count(s0, x) + (if x == a {
                        1int
                    } else {
                        0
                    }) - (match tok_entry(s0, id) {
                        Some(b) => if x == b {
                            1int
                        } else {
                            0
                        },
                        None => 0,
                    }) by {
                    lemma_holder_count_from_update(s0, i as int, a, x, 0);
                }
                assert forall|p: int, q: int| 0 <= p < q < s@.len() implies s@[p].0 != s@[q].0 by {
                    assert(s0[p].0 != s0[q].0);
                }
            }
            return;
        }
        i = i + 1;
    }
    proof {
        lemma_tok_entry_from_none(s0, id, 0);
    }
    s.push((id, a));
    proof {
        lemma_tok_entry_from_push(s0, (id, a), id, 0);
        assert forall|q: u32| q != id implies tok_entry(s@, q) == tok_entry(s0, q) by {
            lemma_tok_entry_from_push(s0, (id, a), q, 0);
        }
        assert forall|x: AccountId|
            holder_count(s@, x) == holder_count(s0, x) + (if x == a {
                1int
            } else {
                0
            }) - (match tok_entry(s0, id) {
                Some(b) => if x == b {
                    1int
                } else {
                    0
                },
                None => 0,
            }) by {
            lemma_holder_count_from_push(s0, (id, a), x, 0);
        }
        assert forall|p: int, q: int| 0 <= p < q < s@.len() implies s@[p].0 != s@[q].0 by {
            if q < s0.len() {
                assert(s0[p].0 != s0[q].0);
            } else {
                assert(s0[p].0 != id);
            }
        }
    }
}

/// Removes the entry for token `id`, if it is present.
pub fn tok_remove(s: &mut Vec<(u32, AccountId)>, id: u32)
    requires
        tok_distinct(old(s)@),
    ensures
        tok_distinct(final(s)@),
        tok_entry(final(s)@, id) is None,
        forall|q: u32| q != id ==> tok_entry(final(s)@, q) == tok_entry(old(s)@, q),
        forall|x: AccountId|
            holder_count(final(s)@, x) == holder_count(old(s)@, x) - (match tok_entry(
                old(s)@,
                id,
            ) {
                Some(b) => if x == b {
                    1int
                } else {
                    0
                },
                None => 0,
            }),
        final(s)@.len() == old(s)@.len() - (if tok_entry(old(s)@, id) is Some {
            1int
        } else {
            0
        }),
{
    let ghost s0 = s@;
    let n = s.len();
    let mut i: usize = 0;
    while i < n
        invariant
            s@ == s0,
            old(s)@ == s0,
            n == s0.len(),
            0 <= i <= n,
            tok_distinct(s0),
            tok_entry_from(s0, id, 0) == tok_entry_from(s0, id, i as int),
        decreases n - i,
    {
        if s[i].0 == id {
            let moved = s[n - 1];
            s[i] = moved;
            s.pop();
            proof {
                assert(s@ == s0.update(i as int, s0[n as int - 1]).subrange(0, n as int - 1));
                assert(tok_entry_from(s0, id, i as int) == Some(s0[i as int].1));
                lemma_tok_entry_from_swap_remove(s0, i as int, id, 0);
                assert forall|q: u32| q != id implies tok_entry(s@, q) == tok_entry(s0, q) by {
                    lemma_tok_entry_from_swap_remove(s0, i as int, q, 0);
                    if q == s0[n as int - 1].0 {
                        lemma_tok_entry_from_at(s0, n as int - 1, 0);
                    }
                }
                assert forall|x: AccountId|
                    holder_count(s@, x) == holder_count(s0, x) - (match tok_entry(s0, id) {
                        Some(b) => if x == b {
                            1int
                        } else {
                            0
                        },
                        None => 0,
                    }) by {
                    lemma_holder_count_from_swap_remove(s0, i as int, x, 0);
                }
                assert forall|p: int, q: int| 0 <= p < q < s@.len() implies s@[p].0 != s@[q].0 by {
                    let key_p = if p == i as int {
                        s0[n as int - 1].0
                    } else {
                        s0[p].0
                    };
                    let key_q = if q == i as int {
                        s0[n as int - 1].0
                    } else {
                        s0[q].0
                    };
                    assert(s@[p].0 == key_p);
                    assert(s@[q].0 == key_q);
                    if p == i as int {
                        assert(s0[q].0 != s0[n as int - 1].0);
                    } else if q == i as int {
                        assert(s0[p].0 != s0[n as int - 1].0);
                    } else {
                        assert(s0[p].0 != s0[q].0);
                    }
                }
            }
            return;
        }
        i = i + 1;
    }
}

} // verus!
