use vstd::prelude::*;

use crate::account_type::AccountType;
use crate::error::PackError;
use crate::pack_config::{has_card, swap_removed, unique_cards};

verus! {

/// How many instances of `card` are pending in `s`, over all its entries.
pub open spec fn pending_count(s: Seq<(u32, u32)>, card: u32) -> int
    decreases s.len(),
{
    if s.len() == 0 {
        0
    } else {
        pending_count(s.drop_last(), card) + if s.last().0 == card {
            s.last().1 as int
        } else {
            0
        }
    }
}

/// How many instances are pending in `s`, over all cards.
pub open spec fn pending_total(s: Seq<(u32, u32)>) -> int
    decreases s.len(),
{
    if s.len() == 0 {
        0
    } else {
        pending_total(s.drop_last()) + s.last().1
    }
}

/// The per-right record of draws: what was drawn and not yet claimed, and how
/// many draws were claimed.
#[derive(Debug, PartialEq, Eq)]
pub struct ProvingProcess {
    pub account_type: AccountType,
    /// The identity that owns the redemption right.
    pub owner: u64,
    /// The number of draws claimed so far.
    pub cards_redeemed: u32,
    /// `(card_index, count)` of the draws not claimed yet.
    pub cards_to_redeem: Vec<(u32, u32)>,
}

impl ProvingProcess {
    /// One entry per card, no entry with a zero count, and the totals fit a `u32`.
    pub open spec fn wf(&self) -> bool {
        &&& unique_cards(self.cards_to_redeem@)
        &&& forall|i: int|
            0 <= i < self.cards_to_redeem@.len() ==> (#[trigger] self.cards_to_redeem@[i]).1 > 0
        &&& self.cards_redeemed + pending_total(self.cards_to_redeem@) <= u32::MAX
    }

    /// Draws requested for the right so far, claimed or not.
    pub open spec fn drawn(&self) -> int {
        self.cards_redeemed + pending_total(self.cards_to_redeem@)
    }

    /// A fresh record for a right owned by `owner`, with nothing drawn.
    pub fn new(owner: u64) -> (r: ProvingProcess)
        ensures
            r.wf(),
            r.account_type == AccountType::ProvingProcess,
            r.owner == owner,
            r.cards_redeemed == 0,
            r.cards_to_redeem@.len() == 0,
    {
        ProvingProcess {
            account_type: AccountType::ProvingProcess,
            owner,
            cards_redeemed: 0,
            cards_to_redeem: Vec::new(),
        }
    }

    /// Sets up a record that was never used for a right owned by `owner`. A
    /// record that is already in use is refused, not reset.
    pub fn init(&mut self, owner: u64) -> (r: Result<(), PackError>)
        ensures
            r is Ok <==> old(self).account_type == AccountType::Uninitialized,
            r is Err ==> r == Err::<(), PackError>(PackError::InvalidState) && *final(self) == *old(self),
            r is Ok ==> {
                &&& final(self).wf()
                &&& final(self).account_type == AccountType::ProvingProcess
                &&& final(self).owner == owner
                &&& final(self).cards_redeemed == 0
                &&& final(self).cards_to_redeem@.len() == 0
            },
    {
        if self.account_type != AccountType::Uninitialized {
            return Err(PackError::InvalidState);
        }
        self.account_type = AccountType::ProvingProcess;
        self.owner = owner;
        self.cards_redeemed = 0;
        self.cards_to_redeem = Vec::new();
        Ok(())
    }

    /// How many draws of `card` are pending.
    pub fn pending_of(&self, card: u32) -> (r: u32)
        requires
            self.wf(),
        ensures
            r == pending_count(self.cards_to_redeem@, card),
    {
        match position_of(&self.cards_to_redeem, card) {
            Some(p) => {
                proof {
                    lemma_count_unique(self.cards_to_redeem@, p as int);
                }
                self.cards_to_redeem[p].1
            },
            None => {
                proof {
                    lemma_count_absent(self.cards_to_redeem@, card);
                }
                0
            },
        }
    }

    /// The number of draws pending, over all cards.
    pub fn pending_sum(&self) -> (r: u32)
        requires
            self.wf(),
        ensures
            r == pending_total(self.cards_to_redeem@),
    {
        let ghost s = self.cards_to_redeem@;
        let n = self.cards_to_redeem.len();
        let mut sum: u32 = 0;
        let mut i: usize = 0;
        while i < n
            invariant
                self.wf(),
                s == self.cards_to_redeem@,
                n == s.len(),
                i <= n,
                sum == pending_total(s.subrange(0, i as int)),
            decreases n - i,
        {
            proof {
                assert(s.subrange(0, i + 1).drop_last() =~= s.subrange(0, i as int));
                lemma_prefix_total(s, i + 1);
            }
            sum = sum + self.cards_to_redeem[i].1;
            i = i + 1;
        }
        assert(s.subrange(0, n as int) =~= s);
        sum
    }
}

/// The first position of an entry for `card`, if any.
pub fn position_of(ws: &Vec<(u32, u32)>, card: u32) -> (r: Option<usize>)
    ensures
        r matches Some(p) ==> p < ws@.len() && ws@[p as int].0 == card && forall|q: int|
            0 <= q < p ==> (#[trigger] ws@[q]).0 != card,
        r is None <==> !has_card(ws@, card),
{
    let n = ws.len();
    let mut i: usize = 0;
    while i < n
        invariant
            n == ws@.len(),
            i <= n,
            forall|q: int| 0 <= q < i ==> (#[trigger] ws@[q]).0 != card,
        decreases n - i,
    {
        if ws[i].0 == card {
            return Some(i);
        }
        i = i + 1;
    }
    None
}

/// The pending total of a prefix is at most the whole total.
pub proof fn lemma_prefix_total(s: Seq<(u32, u32)>, i: int)
    requires
        0 <= i <= s.len(),
    ensures
        pending_total(s.subrange(0, i)) <= pending_total(s),
    decreases s.len(),
{
    if i < s.len() {
        lemma_prefix_total(s.drop_last(), i);
        assert(s.drop_last().subrange(0, i) =~= s.subrange(0, i));
    } else {
        assert(s.subrange(0, i) =~= s);
    }
}

/// Replacing one entry changes each count and the total by the difference.
pub proof fn lemma_update(s: Seq<(u32, u32)>, i: int, x: (u32, u32))
    requires
        0 <= i < s.len(),
    ensures
        pending_total(s.update(i, x)) == pending_total(s) - s[i].1 + x.1,
        forall|c: u32|
            #[trigger] pending_count(s.update(i, x), c) == pending_count(s, c) - (if s[i].0 == c {
                s[i].1 as int
            } else {
                0
            }) + (if x.0 == c {
                x.1 as int
            } else {
                0
            }),
    decreases s.len(),
{
    let u = s.update(i, x);
    if i == s.len() - 1 {
        assert(u.drop_last() =~= s.drop_last());
        assert(u.last() == x);
        assert(s.last() == s[i]);
    } else {
        assert(u.drop_last() =~= s.drop_last().update(i, x));
        assert(u.last() == s.last());
        assert(s.drop_last()[i] == s[i]);
        lemma_update(s.drop_last(), i, x);
    }
    assert forall|c: u32|
        #[trigger] pending_count(u, c) == pending_count(s, c) - (if s[i].0 == c {
            s[i].1 as int
        } else {
            0
        }) + (if x.0 == c {
            x.1 as int
        } else {
            0
        }) by {
        assert(pending_count(u, c) == pending_count(u.drop_last(), c) + if u.last().0 == c {
            u.last().1 as int
        } else {
            0
        });
        assert(pending_count(s, c) == pending_count(s.drop_last(), c) + if s.last().0 == c {
            s.last().1 as int
        } else {
            0
        });
    }
}

/// Appending an entry adds its count.
pub proof fn lemma_push(s: Seq<(u32, u32)>, x: (u32, u32))
    ensures
        pending_total(s.push(x)) == pending_total(s) + x.1,
        forall|c: u32|
            #[trigger] pending_count(s.push(x), c) == pending_count(s, c) + (if x.0 == c {
                x.1 as int
            } else {
                0
            }),
{
    assert(s.push(x).drop_last() =~= s);
}

/// Removing the entry at `p` takes its count away.
pub proof fn lemma_swap_remove_counts(s: Seq<(u32, u32)>, p: int)
    requires
        0 <= p < s.len(),
    ensures
        pending_total(swap_removed(s, p)) == pending_total(s) - s[p].1,
        forall|c: u32|
            #[trigger] pending_count(swap_removed(s, p), c) == pending_count(s, c) - (if s[p].0 == c {
                s[p].1 as int
            } else {
                0
            }),
{
    let u = s.update(p, s.last());
    lemma_update(s, p, s.last());
    assert(u.last() == s.last());
    assert forall|c: u32|
        #[trigger] pending_count(swap_removed(s, p), c) == pending_count(s, c) - (if s[p].0 == c {
            s[p].1 as int
        } else {
            0
        }) by {
        assert(pending_count(u, c) == pending_count(u.drop_last(), c) + if u.last().0 == c {
            u.last().1 as int
        } else {
            0
        });
    }
}

/// A card with no entry has nothing pending.
pub proof fn lemma_count_absent(s: Seq<(u32, u32)>, card: u32)
    requires
        !has_card(s, card),
    ensures
        pending_count(s, card) == 0,
    decreases s.len(),
{
    if s.len() > 0 {
        assert(s.last() == s[s.len() - 1]);
        assert forall|i: int| 0 <= i < s.drop_last().len() implies (#[trigger] s.drop_last()[i]).0 != card by {
            assert(s.drop_last()[i] == s[i]);
        }
        lemma_count_absent(s.drop_last(), card);
    }
}

/// With one entry per card, the count of a card is the value of its entry.
pub proof fn lemma_count_unique(s: Seq<(u32, u32)>, p: int)
    requires
        unique_cards(s),
        0 <= p < s.len(),
    ensures
        pending_count(s, s[p].0) == s[p].1,
    decreases s.len(),
{
    let d = s.drop_last();
    assert forall|i: int, j: int| 0 <= i < d.len() && 0 <= j < d.len() && i != j implies (#[trigger] d[i]).0
        != (#[trigger] d[j]).0 by {
        assert(d[i] == s[i] && d[j] == s[j]);
    }
    if p == s.len() - 1 {
        assert forall|i: int| 0 <= i < d.len() implies (#[trigger] d[i]).0 != s[p].0 by {
            assert(d[i] == s[i]);
        }
        lemma_count_absent(d, s[p].0);
    } else {
        assert(d[p] == s[p]);
        assert(s.last() == s[s.len() - 1]);
        lemma_count_unique(d, p);
    }
}

/// An entry's count is at most the total.
pub proof fn lemma_entry_le_total(s: Seq<(u32, u32)>, i: int)
    requires
        0 <= i < s.len(),
    ensures
        s[i].1 <= pending_total(s),
    decreases s.len(),
{
    if i < s.len() - 1 {
        assert(s.drop_last()[i] == s[i]);
        lemma_entry_le_total(s.drop_last(), i);
        lemma_total_nonneg(s.drop_last());
    } else {
        lemma_total_nonneg(s.drop_last());
    }
}

/// A total is never negative.
pub proof fn lemma_total_nonneg(s: Seq<(u32, u32)>)
    ensures
        pending_total(s) >= 0,
    decreases s.len(),
{
    if s.len() > 0 {
        lemma_total_nonneg(s.drop_last());
    }
}

} // verus!
