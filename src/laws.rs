//! Properties of the ledger that relate several calls, or that single out one
//! consequence of an operation's contract.
use vstd::prelude::*;

use crate::account::AccountId;
use crate::ledger::{A1Token, Error};

verus! {

/// A failed transfer leaves the balances of sender and recipient as they were.
pub proof fn lemma_failed_transfer_keeps_balances(
    t0: A1Token,
    t1: A1Token,
    sender: AccountId,
    recipient: AccountId,
    amount: u32,
    r: Result<(), Error>,
)
    requires
        t0.transfer_step(t1, sender, recipient, amount, r),
        r.is_err(),
    ensures
        t0.balance(sender) < amount,
        r == Err::<(), Error>(Error::InsufficientBalance),
        t1.balance(sender) == t0.balance(sender),
        t1.balance(recipient) == t0.balance(recipient),
{
}

/// Approving twice leaves the second amount, not the sum of both.
pub proof fn lemma_approve_overwrites(
    t0: A1Token,
    t1: A1Token,
    t2: A1Token,
    owner: AccountId,
    spender: AccountId,
    x: u32,
    y: u32,
    r1: Result<(), Error>,
    r2: Result<(), Error>,
)
    requires
        t0.approve_step(t1, owner, spender, x, r1),
        t1.approve_step(t2, owner, spender, y, r2),
    ensures
        t2.allowance_of(owner, spender) == y,
{
}

/// A delegated transfer of `amount` against an allowance `L` leaves `L - amount`
/// when it succeeds, and `L` when it fails.
pub proof fn lemma_allowance_consumed(
    t0: A1Token,
    t1: A1Token,
    caller: AccountId,
    sender: AccountId,
    recipient: AccountId,
    amount: u32,
    r: Result<(), Error>,
)
    requires
        t0.transfer_from_step(t1, caller, sender, recipient, amount, r),
    ensures
        r.is_ok() ==> t1.allowance_of(sender, caller) == t0.allowance_of(sender, caller) - amount,
        r.is_err() ==> t1.allowance_of(sender, caller) == t0.allowance_of(sender, caller),
        t0.allowance_of(sender, caller) >= amount && t0.balance(sender) < amount ==> r == Err::<
            (),
            Error,
        >(Error::InsufficientBalance),
{
}

/// Minting and handing over the authority succeed exactly for the current
/// authority, and fail with `Unauthorized` for every other caller.
pub proof fn lemma_authority_gating(
    t0: A1Token,
    t1: A1Token,
    t2: A1Token,
    caller: AccountId,
    amount: u32,
    new_owner: AccountId,
    r1: Result<(), Error>,
    r2: Result<(), Error>,
)
    requires
        t0.mint_step(t1, caller, amount, r1),
        t0.authority_step(t2, caller, new_owner, r2),
    ensures
        r1 == Ok::<(), Error>(()) <==> caller == t0.authority(),
        r1 == Err::<(), Error>(Error::Unauthorized) <==> caller != t0.authority(),
        r2 == Ok::<(), Error>(()) <==> caller == t0.authority(),
        r2 == Err::<(), Error>(Error::Unauthorized) <==> caller != t0.authority(),
{
}

/// Once the authority has handed its power to another account, its next mint
/// and its next handover are refused with `Unauthorized` and change nothing.
pub proof fn lemma_handover_revokes(
    t0: A1Token,
    t1: A1Token,
    t2: A1Token,
    t3: A1Token,
    old_owner: AccountId,
    new_owner: AccountId,
    amount: u32,
    next_owner: AccountId,
    r1: Result<(), Error>,
    r2: Result<(), Error>,
    r3: Result<(), Error>,
)
    requires
        t0.authority() == old_owner,
        old_owner != new_owner,
        t0.authority_step(t1, old_owner, new_owner, r1),
        t1.mint_step(t2, old_owner, amount, r2),
        t1.authority_step(t3, old_owner, next_owner, r3),
    ensures
        r1 == Ok::<(), Error>(()),
        t1.authority() == new_owner,
        r2 == Err::<(), Error>(Error::Unauthorized),
        t2 == t1,
        r3 == Err::<(), Error>(Error::Unauthorized),
        t3 == t1,
{
}

} // verus!
