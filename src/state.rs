//! The durable state of a ledger, as the environment stores it between calls.
use vstd::prelude::*;

use crate::account::AccountId;
use crate::table::{keys_unique, lemma_sum_prefix_le, lemma_sum_take_step, sum_values};

verus! {

/// The four durable parts of a ledger: supply, balance table, allowance table
/// and mint authority.
pub struct LedgerState {
    pub total_supply: u32,
    pub balances: Vec<(AccountId, u32)>,
    pub allowances: Vec<((AccountId, AccountId), u32)>,
    pub mint_authority: AccountId,
}

impl LedgerState {
    /// A state that a ledger could have left: unique keys in both tables, and a
    /// supply equal to the sum of the balances.
    pub open spec fn valid(self) -> bool {
        &&& keys_unique(self.balances@)
        &&& keys_unique(self.allowances@)
        &&& self.total_supply == sum_values(self.balances@)
    }

    /// Whether this state is one that a ledger could have left.
    pub fn is_valid(&self) -> (r: bool)
        ensures
            r == self.valid(),
    {
        accounts_unique(&self.balances) && pairs_unique(&self.allowances) && sums_to(
            &self.balances,
            self.total_supply,
        )
    }
}

fn accounts_unique(v: &Vec<(AccountId, u32)>) -> (r: bool)
    ensures
        r == keys_unique(v@),
{
    let mut i: usize = 0;
    while i < v.len()
        invariant
            0 <= i <= v@.len(),
            forall|a: int, b: int| 0 <= a < b < i ==> #[trigger] v@[a].0 != #[trigger] v@[b].0,
        decreases v@.len() - i,
    {
        let mut j: usize = 0;
        while j < i
            invariant
                0 <= j <= i < v@.len(),
                forall|a: int| 0 <= a < j ==> #[trigger] v@[a].0 != v@[i as int].0,
            decreases i - j,
        {
            if v[j].0 == v[i].0 {
                assert(v@[j as int].0 == v@[i as int].0);
                return false;
            }
            j = j + 1;
        }
        i = i + 1;
    }
    assert forall|a: int, b: int|
        0 <= a < v@.len() && 0 <= b < v@.len() && #[trigger] v@[a].0 == #[trigger] v@[b].0 implies a
        == b by {
        if a < b {
            assert(v@[a].0 != v@[b].0);
        } else if b < a {
            assert(v@[b].0 != v@[a].0);
        }
    }
    true
}

fn pairs_unique(v: &Vec<((AccountId, AccountId), u32)>) -> (r: bool)
    ensures
        r == keys_unique(v@),
{
    let mut i: usize = 0;
    while i < v.len()
        invariant
            0 <= i <= v@.len(),
            forall|a: int, b: int| 0 <= a < b < i ==> #[trigger] v@[a].0 != #[trigger] v@[b].0,
        decreases v@.len() - i,
    {
        let mut j: usize = 0;
        while j < i
            invariant
                0 <= j <= i < v@.len(),
                forall|a: int| 0 <= a < j ==> #[trigger] v@[a].0 != v@[i as int].0,
            decreases i - j,
        {
            let kj = v[j].0;
            let ki = v[i].0;
            if kj.0 == ki.0 && kj.1 == ki.1 {
                assert(v@[j as int].0 == v@[i as int].0);
                return false;
            }
            j = j + 1;
        }
        i = i + 1;
    }
    assert forall|a: int, b: int|
        0 <= a < v@.len() && 0 <= b < v@.len() && #[trigger] v@[a].0 == #[trigger] v@[b].0 implies a
        == b by {
        if a < b {
            assert(v@[a].0 != v@[b].0);
        } else if b < a {
            assert(v@[b].0 != v@[a].0);
        }
    }
    true
}

fn sums_to(v: &Vec<(AccountId, u32)>, total: u32) -> (r: bool)
    ensures
        r == (sum_values(v@) == total),
{
    let mut acc: u64 = 0;
    let mut i: usize = 0;
    while i < v.len()
        invariant
            0 <= i <= v@.len(),
            acc == sum_values(v@.take(i as int)),
            acc <= total,
        decreases v@.len() - i,
    {
        proof {
            lemma_sum_take_step(v@, i as int);
        }
        acc = acc + v[i].1 as u64;
        i = i + 1;
        if acc > total as u64 {
            proof {
                lemma_sum_prefix_le(v@, i as int);
            }
            return false;
        }
    }
    assert(v@.take(v@.len() as int) =~= v@);
    acc == total as u64
}

} // verus!
