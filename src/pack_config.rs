use num_traits::ToPrimitive;
use vstd::prelude::*;

use crate::account_type::AccountType;
use crate::error::PackError;

verus! {

/// The largest value a random sample can take.
pub const MAX_SAMPLE: u64 = 65535;

/// Relies on `ToPrimitive::to_u32` for `u128`: the value itself when it fits
/// in a `u32`, `None` otherwise.
#[verifier::external_body]
fn to_u32_checked(v: u128) -> (r: Option<u32>)
    ensures
        v <= u32::MAX ==> r == Some(v as u32),
        v > u32::MAX ==> r.is_none(),
{
    v.to_u32()
}

/// The weight table of a pack: `(card_index, value)` pairs, where the value is
/// a probability weight or a remaining supply, by the pack's distribution type.
#[derive(Debug, Clone, PartialEq, Eq)]
pub struct PackConfig {
    pub account_type: AccountType,
    pub weights: Vec<(u32, u32)>,
}

/// The bound a sample selects at: `rand / MAX_SAMPLE` of `weight_sum`, rounded down.
pub open spec fn sample_bound(rand: u16, weight_sum: u64) -> int {
    (rand as int * weight_sum as int) / (MAX_SAMPLE as int)
}

/// The card picked by walking `ws` in order and taking away each value from
/// `bound`: the first entry whose value reaches the bound, or else the last one.
pub open spec fn pick(ws: Seq<(u32, u32)>, bound: int) -> u32
    decreases ws.len(),
{
    if ws.len() == 0 {
        0
    } else if ws.len() == 1 || bound <= ws[0].1 {
        ws[0].0
    } else {
        pick(ws.drop_first(), bound - ws[0].1)
    }
}

/// The outcome of a weighted draw from `ws` with sample `rand` and total `weight_sum`.
pub open spec fn selection(ws: Seq<(u32, u32)>, rand: u16, weight_sum: u64) -> Result<u32, PackError> {
    if ws.len() == 0 || weight_sum == 0 {
        Err(PackError::ConfigurationError)
    } else if sample_bound(rand, weight_sum) > u32::MAX {
        Err(PackError::ArithmeticError)
    } else {
        Ok(pick(ws, sample_bound(rand, weight_sum)))
    }
}

/// `a` comes no later than `b` in a sorted table: larger value first, and on
/// equal values the larger card index first.
pub open spec fn ranks_before(a: (u32, u32), b: (u32, u32)) -> bool {
    a.1 > b.1 || (a.1 == b.1 && a.0 >= b.0)
}

/// The table is in descending order of value (then of card index).
pub open spec fn sorted_desc(ws: Seq<(u32, u32)>) -> bool {
    forall|i: int, j: int| 0 <= i < j < ws.len() ==> ranks_before(#[trigger] ws[i], #[trigger] ws[j])
}

/// The table after removing the first entry at `p`: the last entry takes its place.
pub open spec fn swap_removed(ws: Seq<(u32, u32)>, p: int) -> Seq<(u32, u32)> {
    ws.update(p, ws.last()).drop_last()
}

/// Whether some entry of `ws` is for card `card`.
pub open spec fn has_card(ws: Seq<(u32, u32)>, card: u32) -> bool {
    exists|i: int| 0 <= i < ws.len() && (#[trigger] ws[i]).0 == card
}

/// No two entries of `ws` are for the same card.
pub open spec fn unique_cards(ws: Seq<(u32, u32)>) -> bool {
    forall|i: int, j: int|
        0 <= i < ws.len() && 0 <= j < ws.len() && i != j ==> (#[trigger] ws[i]).0 != (#[trigger] ws[j]).0
}

/// A card that `pick` returns is always one of the table's own entries.
pub proof fn lemma_pick_in_table(ws: Seq<(u32, u32)>, bound: int)
    requires
        ws.len() > 0,
    ensures
        has_card(ws, pick(ws, bound)),
    decreases ws.len(),
{
    if ws.len() == 1 || bound <= ws[0].1 {
        assert(ws[0].0 == pick(ws, bound));
    } else {
        let rest = ws.drop_first();
        lemma_pick_in_table(rest, bound - ws[0].1);
        let i = choose|i: int| 0 <= i < rest.len() && (#[trigger] rest[i]).0 == pick(rest, bound - ws[0].1);
        assert(ws[i + 1] == rest[i]);
    }
}

/// A weighted draw never returns a card that is absent from the table: in
/// particular not one that was pruned once its supply ran out.
pub proof fn lemma_selection_never_absent(ws: Seq<(u32, u32)>, rand: u16, weight_sum: u64, card: u32)
    requires
        !has_card(ws, card),
    ensures
        selection(ws, rand, weight_sum) != Ok::<u32, PackError>(card),
{
    if ws.len() > 0 {
        lemma_pick_in_table(ws, sample_bound(rand, weight_sum));
    }
}

/// What removing the entry at `p` keeps of a table with one entry per card.
pub proof fn lemma_swap_removed(ws: Seq<(u32, u32)>, p: int)
    requires
        0 <= p < ws.len(),
    ensures
        unique_cards(ws) ==> {
            &&& unique_cards(swap_removed(ws, p))
            &&& !has_card(swap_removed(ws, p), ws[p].0)
            &&& forall|e: (u32, u32)|
                #[trigger] swap_removed(ws, p).contains(e) <==> (ws.contains(e) && e.0 != ws[p].0)
        },
{
    let r = swap_removed(ws, p);
    let last = ws.len() - 1;
    if unique_cards(ws) {
        assert forall|i: int| 0 <= i < r.len() implies (#[trigger] r[i]) == ws[if i == p { last } else { i }] by {}
        assert forall|e: (u32, u32)| #[trigger] r.contains(e) <==> (ws.contains(e) && e.0 != ws[p].0) by {
            if ws.contains(e) && e.0 != ws[p].0 {
                let k = choose|k: int| 0 <= k < ws.len() && ws[k] == e;
                if k == last {
                    assert(r[p] == e);
                } else {
                    assert(r[k] == e);
                }
            }
        }
    }
}

impl PackConfig {
    /// Prefix of the address this record is stored at.
    pub const PREFIX: &'static str = "config";

    /// Marks the record as a weight table and empties it.
    pub fn init(&mut self)
        ensures
            final(self).account_type == AccountType::PackConfig,
            final(self).weights@.len() == 0,
    {
        self.account_type = AccountType::PackConfig;
        self.weights = Vec::new();
    }

    /// Whether the record was initialised as a weight table.
    pub fn is_initialized(&self) -> (r: bool)
        ensures
            r == (self.account_type == AccountType::PackConfig),
    {
        self.account_type != AccountType::Uninitialized && self.account_type == AccountType::PackConfig
    }

    /// A table with the same kind and entries.
    pub fn duplicate(&self) -> (r: PackConfig)
        ensures
            r.account_type == self.account_type,
            r.weights@ == self.weights@,
    {
        let mut weights: Vec<(u32, u32)> = Vec::new();
        let n = self.weights.len();
        let mut i: usize = 0;
        while i < n
            invariant
                n == self.weights@.len(),
                i <= n,
                weights@ == self.weights@.subrange(0, i as int),
            decreases n - i,
        {
            weights.push(self.weights[i]);
            i = i + 1;
            assert(weights@ =~= self.weights@.subrange(0, i as int));
        }
        assert(weights@ =~= self.weights@);
        PackConfig { account_type: self.account_type, weights }
    }

    /// Orders the table by descending value, larger card index first on equal
    /// values, keeping the same entries.
    pub fn sort(&mut self)
        ensures
            final(self).account_type == old(self).account_type,
            final(self).weights@.to_multiset() == old(self).weights@.to_multiset(),
            sorted_desc(final(self).weights@),
    {
        broadcast use vstd::seq_lib::group_to_multiset_ensures, vstd::multiset::group_multiset_axioms;

        let n = self.weights.len();
        let mut i: usize = 1;
        if n == 0 {
            return;
        }
        while i < n
            invariant
                1 <= i <= n,
                n == self.weights@.len(),
                self.account_type == old(self).account_type,
                self.weights@.to_multiset() == old(self).weights@.to_multiset(),
                forall|a: int, b: int|
                    0 <= a < b < i ==> ranks_before(#[trigger] self.weights@[a], #[trigger] self.weights@[b]),
            decreases n - i,
        {
            let mut j: usize = i;
            while j > 0 && !(self.weights[j - 1].1 > self.weights[j].1 || (self.weights[j - 1].1
                == self.weights[j].1 && self.weights[j - 1].0 >= self.weights[j].0))
                invariant
                    1 <= i < n,
                    j <= i,
                    n == self.weights@.len(),
                    self.account_type == old(self).account_type,
                    self.weights@.to_multiset() == old(self).weights@.to_multiset(),
                    forall|a: int, b: int|
                        0 <= a < b <= i && a != j && b != j ==> ranks_before(
                            #[trigger] self.weights@[a],
                            #[trigger] self.weights@[b],
                        ),
                    forall|b: int| j < b <= i ==> ranks_before(self.weights@[j as int], #[trigger] self.weights@[b]),
                decreases j,
            {
                let upper = self.weights[j - 1];
                let lower = self.weights[j];
                let ghost s0 = self.weights@;
                self.weights.set(j - 1, lower);
                let ghost s1 = self.weights@;
                self.weights.set(j, upper);
                proof {
                    assert(s1[j as int] == lower);
                    vstd::seq_lib::to_multiset_update(s0, j - 1, lower);
                    vstd::seq_lib::to_multiset_update(s1, j as int, upper);
                    assert(s1.to_multiset() =~= s0.to_multiset().insert(lower).remove(upper));
                    assert(self.weights@.to_multiset() =~= s1.to_multiset().insert(upper).remove(lower));
                    assert(s0[j - 1] == upper);
                    assert(s0.contains(upper));
                    vstd::seq_lib::to_multiset_contains(s0, upper);
                    assert(self.weights@.to_multiset() =~= s0.to_multiset());
                }
                j = j - 1;
            }
            i = i + 1;
        }
    }

    /// Removes the entry for card `index`, if there is one; the last entry
    /// takes its place.
    pub fn remove_at(&mut self, index: u32)
        ensures
            final(self).account_type == old(self).account_type,
            !has_card(old(self).weights@, index) ==> final(self).weights@ == old(self).weights@,
            has_card(old(self).weights@, index) ==> exists|p: int|
                0 <= p < old(self).weights@.len() && old(self).weights@[p].0 == index
                    && final(self).weights@ == swap_removed(old(self).weights@, p),
            unique_cards(old(self).weights@) ==> {
                &&& unique_cards(final(self).weights@)
                &&& !has_card(final(self).weights@, index)
                &&& forall|e: (u32, u32)|
                    #[trigger] final(self).weights@.contains(e) <==> (old(self).weights@.contains(e)
                        && e.0 != index)
            },
    {
        let n = self.weights.len();
        let mut i: usize = 0;
        while i < n
            invariant
                n == self.weights@.len(),
                self.weights@ == old(self).weights@,
                self.account_type == old(self).account_type,
                i <= n,
                forall|q: int| 0 <= q < i ==> (#[trigger] self.weights@[q]).0 != index,
            decreases n - i,
        {
            if self.weights[i].0 == index {
                let ghost ws = self.weights@;
                self.weights.swap_remove(i);
                proof {
                    lemma_swap_removed(ws, i as int);
                    assert(0 <= i < ws.len() && ws[i as int].0 == index && self.weights@ == swap_removed(ws, i as int));
                }
                return;
            }
            i = i + 1;
        }
    }

    /// Draws one card: `rand` is scaled to a bound in `[0, weight_sum]` and the
    /// table is walked in order, the first entry whose value reaches what is
    /// left of the bound being chosen, the last entry otherwise.
    pub fn select_weighted_random(self, rand: u16, weight_sum: u64) -> (r: Result<u32, PackError>)
        ensures
            r == selection(self.weights@, rand, weight_sum),
            r matches Ok(card) ==> has_card(self.weights@, card),
    {
        let n = self.weights.len();
        if n == 0 || weight_sum == 0 {
            return Err(PackError::ConfigurationError);
        }
        assert((rand as int) * (weight_sum as int) <= 65535 * 0xffff_ffff_ffff_ffff) by (nonlinear_arith)
            requires
                rand <= 65535,
                weight_sum <= 0xffff_ffff_ffff_ffff,
        ;
        let scaled: u128 = (rand as u128) * (weight_sum as u128);
        let bound = match to_u32_checked(scaled / (MAX_SAMPLE as u128)) {
            Some(b) => b,
            None => return Err(PackError::ArithmeticError),
        };
        proof {
            lemma_pick_in_table(self.weights@, bound as int);
        }
        let ghost ws = self.weights@;
        assert(bound as int == sample_bound(rand, weight_sum));
        assert(ws.subrange(0, n as int) =~= ws);
        let mut left: u32 = bound;
        let mut i: usize = 0;
        while i + 1 < n
            invariant
                n == ws.len(),
                ws == self.weights@,
                0 <= i < n,
                weight_sum > 0,
                bound as int == sample_bound(rand, weight_sum),
                pick(ws, bound as int) == pick(ws.subrange(i as int, n as int), left as int),
            decreases n - i,
        {
            let entry = self.weights[i];
            let ghost rest = ws.subrange(i as int, n as int);
            assert(rest[0] == entry);
            if left <= entry.1 {
                assert(pick(rest, left as int) == entry.0);
                return Ok(entry.0);
            }
            assert(rest.drop_first() =~= ws.subrange(i + 1, n as int));
            left = left - entry.1;
            i = i + 1;
        }
        assert(ws.subrange(i as int, n as int).len() == 1);
        assert(ws.subrange(i as int, n as int)[0] == ws[n - 1]);
        Ok(self.weights[n - 1].0)
    }
}

} // verus!
