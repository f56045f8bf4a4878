//! The ledger: balances, allowances, total supply and mint authority.
use vstd::prelude::*;

use crate::account::AccountId;
use crate::state::LedgerState;
use crate::table::{
    has_key, keys_of, keys_unique, lemma_push, lemma_sum_over_keys, lemma_sum_push,
    lemma_sum_update, lemma_update, lemma_value_at, lemma_value_le_sum, sum_over, sum_values,
    value_of,
};

verus! {

/// Why an operation was refused. A refused operation changes nothing.
#[derive(Clone, Copy, Debug, PartialEq, Eq, Structural)]
pub enum Error {
    /// The debited account holds less than the requested amount.
    InsufficientBalance,
    /// The spender's remaining allowance is less than the requested amount.
    InsufficientAllowance,
    /// The caller is not the current mint authority.
    Unauthorized,
}

/// Notification that tokens moved; a side left out stands for newly created supply.
#[derive(Clone, Copy, Debug, PartialEq, Eq)]
pub struct Transfer {
    pub sender: Option<AccountId>,
    pub recipient: Option<AccountId>,
    pub amount: u32,
}

/// Notification that an owner set a spender's allowance.
#[derive(Clone, Copy, Debug, PartialEq, Eq)]
pub struct Approval {
    pub owner: AccountId,
    pub spender: AccountId,
    pub amount: u32,
}

/// A notification for the environment to deliver to observers.
#[derive(Clone, Copy, Debug, PartialEq, Eq)]
pub enum Event {
    Transfer(Transfer),
    Approval(Approval),
}

/// The token ledger. Balances and allowances absent from the tables read as zero.
pub struct A1Token {
    total_supply: u32,
    balances: Vec<(AccountId, u32)>,
    allowances: Vec<((AccountId, AccountId), u32)>,
    mint_authority: AccountId,
    events: Vec<Event>,
}

impl A1Token {
    /// Both tables have unique keys.
    closed spec fn tables_ok(self) -> bool {
        &&& keys_unique(self.balances@)
        &&& keys_unique(self.allowances@)
    }

    /// Well-formed: unique keys, and the supply is the sum of all balances.
    pub closed spec fn wf(self) -> bool {
        &&& self.tables_ok()
        &&& self.total_supply == sum_values(self.balances@)
    }

    pub closed spec fn supply(self) -> nat {
        self.total_supply as nat
    }

    pub closed spec fn balance(self, a: AccountId) -> nat {
        value_of(self.balances@, a)
    }

    pub closed spec fn allowance_of(self, owner: AccountId, spender: AccountId) -> nat {
        value_of(self.allowances@, (owner, spender))
    }

    pub closed spec fn authority(self) -> AccountId {
        self.mint_authority
    }

    /// Notifications emitted and not yet taken, oldest first.
    pub closed spec fn notifications(self) -> Seq<Event> {
        self.events@
    }

    /// Every account whose balance has ever been written, each once.
    pub closed spec fn accounts(self) -> Seq<AccountId> {
        keys_of(self.balances@)
    }

    /// Every (owner, spender) pair whose allowance has ever been written, each once.
    pub closed spec fn allowance_pairs(self) -> Seq<(AccountId, AccountId)> {
        keys_of(self.allowances@)
    }

    pub open spec fn same_balances(self, other: A1Token) -> bool {
        forall|a: AccountId| #[trigger] other.balance(a) == self.balance(a)
    }

    pub open spec fn same_allowances(self, other: A1Token) -> bool {
        forall|o: AccountId, s: AccountId| #[trigger]
            other.allowance_of(o, s) == self.allowance_of(o, s)
    }

    /// `post`'s balances are `self`'s after `amount` moved from `sender` to `recipient`.
    pub open spec fn moved(
        self,
        post: A1Token,
        sender: AccountId,
        recipient: AccountId,
        amount: u32,
    ) -> bool {
        forall|a: AccountId| #[trigger]
            post.balance(a) == if a == sender && a == recipient {
                self.balance(a) as int
            } else if a == sender {
                self.balance(a) - amount
            } else if a == recipient {
                self.balance(a) + amount
            } else {
                self.balance(a) as int
            }
    }

    /// What a balance move from `sender` to `recipient` does to `self`, giving `post` and `r`.
    pub open spec fn transfer_step(
        self,
        post: A1Token,
        sender: AccountId,
        recipient: AccountId,
        amount: u32,
        r: Result<(), Error>,
    ) -> bool {
        if self.balance(sender) < amount {
            r == Err::<(), Error>(Error::InsufficientBalance) && post == self
        } else {
            &&& r == Ok::<(), Error>(())
            &&& self.moved(post, sender, recipient, amount)
            &&& post.supply() == self.supply()
            &&& post.authority() == self.authority()
            &&& self.same_allowances(post)
            &&& post.notifications() == self.notifications().push(
                Event::Transfer(
                    Transfer { sender: Some(sender), recipient: Some(recipient), amount },
                ),
            )
        }
    }

    /// What `approve` by `caller` does to `self`, giving `post` and `r`.
    pub open spec fn approve_step(
        self,
        post: A1Token,
        caller: AccountId,
        spender: AccountId,
        amount: u32,
        r: Result<(), Error>,
    ) -> bool {
        &&& r == Ok::<(), Error>(())
        &&& forall|o: AccountId, s: AccountId| #[trigger]
            post.allowance_of(o, s) == if o == caller && s == spender {
                amount as nat
            } else {
                self.allowance_of(o, s)
            }
        &&& self.same_balances(post)
        &&& post.supply() == self.supply()
        &&& post.authority() == self.authority()
        &&& post.notifications() == self.notifications().push(
            Event::Approval(Approval { owner: caller, spender, amount }),
        )
    }

    /// What a delegated transfer by `caller` out of `sender`'s funds does to `self`.
    pub open spec fn transfer_from_step(
        self,
        post: A1Token,
        caller: AccountId,
        sender: AccountId,
        recipient: AccountId,
        amount: u32,
        r: Result<(), Error>,
    ) -> bool {
        if self.allowance_of(sender, caller) < amount {
            r == Err::<(), Error>(Error::InsufficientAllowance) && post == self
        } else if self.balance(sender) < amount {
            r == Err::<(), Error>(Error::InsufficientBalance) && post == self
        } else {
            &&& r == Ok::<(), Error>(())
            &&& self.moved(post, sender, recipient, amount)
            &&& forall|o: AccountId, s: AccountId| #[trigger]
                post.allowance_of(o, s) == if o == sender && s == caller {
                    self.allowance_of(o, s) - amount
                } else {
                    self.allowance_of(o, s) as int
                }
            &&& post.supply() == self.supply()
            &&& post.authority() == self.authority()
            &&& post.notifications() == self.notifications().push(
                Event::Transfer(
                    Transfer { sender: Some(sender), recipient: Some(recipient), amount },
                ),
            )
        }
    }

    /// What `mint` by `caller` does to `self`.
    pub open spec fn mint_step(self, post: A1Token, caller: AccountId, amount: u32, r: Result<(), Error>) -> bool {
        if caller != self.authority() {
            r == Err::<(), Error>(Error::Unauthorized) && post == self
        } else {
            &&& r == Ok::<(), Error>(())
            &&& forall|a: AccountId| #[trigger]
                post.balance(a) == if a == caller {
                    self.balance(a) + amount
                } else {
                    self.balance(a) as int
                }
            &&& post.supply() == self.supply() + amount
            &&& post.authority() == self.authority()
            &&& self.same_allowances(post)
            &&& post.notifications() == self.notifications()
        }
    }

    /// What `burn` by `caller` does to `self`.
    pub open spec fn burn_step(self, post: A1Token, caller: AccountId, amount: u32, r: Result<(), Error>) -> bool {
        if self.balance(caller) < amount {
            r == Err::<(), Error>(Error::InsufficientBalance) && post == self
        } else {
            &&& r == Ok::<(), Error>(())
            &&& forall|a: AccountId| #[trigger]
                post.balance(a) == if a == caller {
                    self.balance(a) - amount
                } else {
                    self.balance(a) as int
                }
            &&& post.supply() == self.supply() - amount
            &&& post.authority() == self.authority()
            &&& self.same_allowances(post)
            &&& post.notifications() == self.notifications()
        }
    }

    /// What `transfer_authority` by `caller` does to `self`.
    pub open spec fn authority_step(
        self,
        post: A1Token,
        caller: AccountId,
        new_owner: AccountId,
        r: Result<(), Error>,
    ) -> bool {
        if caller != self.authority() {
            r == Err::<(), Error>(Error::Unauthorized) && post == self
        } else {
            &&& r == Ok::<(), Error>(())
            &&& post.authority() == new_owner
            &&& self.same_balances(post)
            &&& self.same_allowances(post)
            &&& post.supply() == self.supply()
            &&& post.notifications() == self.notifications()
        }
    }

    /// Creates a ledger whose whole `initial_supply` belongs to `caller`,
    /// who also becomes the mint authority.
    pub fn new_token(caller: AccountId, initial_supply: u32) -> (t: A1Token)
        ensures
            t.wf(),
            t.supply() == initial_supply,
            forall|a: AccountId| #[trigger]
                t.balance(a) == if a == caller {
                    initial_supply as nat
                } else {
                    0
                },
            forall|o: AccountId, s: AccountId| #[trigger] t.allowance_of(o, s) == 0,
            t.authority() == caller,
            t.notifications() == seq![
                Event::Transfer(
                    Transfer { sender: None, recipient: Some(caller), amount: initial_supply },
                ),
            ],
    {
        let mut balances: Vec<(AccountId, u32)> = Vec::new();
        balances.push((caller, initial_supply));
        let mut events: Vec<Event> = Vec::new();
        events.push(
            Event::Transfer(
                Transfer { sender: None, recipient: Some(caller), amount: initial_supply },
            ),
        );
        let t = A1Token {
            total_supply: initial_supply,
            balances,
            allowances: Vec::new(),
            mint_authority: caller,
            events,
        };
        proof {
            let e: Seq<(AccountId, u32)> = Seq::empty();
            assert(t.balances@ =~= e.push((caller, initial_supply)));
            lemma_push(e, caller, initial_supply);
            lemma_sum_push(e, (caller, initial_supply));
            assert(t.events@ =~= seq![
                Event::Transfer(
                    Transfer { sender: None, recipient: Some(caller), amount: initial_supply },
                ),
            ]);
        }
        t
    }

    /// Moves `amount` from `sender` to `recipient`, provided `sender` holds it.
    pub fn transfer_from_to(&mut self, sender: AccountId, recipient: AccountId, amount: u32) -> (r:
        Result<(), Error>)
        requires
            old(self).wf(),
        ensures
            final(self).wf(),
            old(self).transfer_step(*final(self), sender, recipient, amount, r),
    {
        let ghost pre = *self;
        let sender_balance = self.balance_of(sender);
        if sender_balance < amount {
            return Err(Error::InsufficientBalance);
        }
        self.store_balance(sender, sender_balance - amount);
        let ghost mid = *self;
        let recipient_balance = self.balance_of_entries(recipient);
        proof {
            lemma_value_le_sum(self.balances@, recipient);
        }
        self.store_balance(recipient, recipient_balance + amount);
        let ghost fin = *self;
        self.events.push(
            Event::Transfer(Transfer { sender: Some(sender), recipient: Some(recipient), amount }),
        );
        assert forall|a: AccountId| #[trigger] self.balance(a) == if a == sender && a == recipient {
            pre.balance(a) as int
        } else if a == sender {
            pre.balance(a) - amount
        } else if a == recipient {
            pre.balance(a) + amount
        } else {
            pre.balance(a) as int
        } by {
            assert(mid.balance(a) == if a == sender {
                (pre.balance(a) - amount) as nat
            } else {
                pre.balance(a)
            });
            assert(fin.balance(a) == if a == recipient {
                (mid.balance(a) + amount) as nat
            } else {
                mid.balance(a)
            });
            assert(self.balance(a) == fin.balance(a));
        }
        Ok(())
    }

    /// The current total supply.
    pub fn total_supply(&self) -> (r: u32)
        ensures
            r == self.supply(),
    {
        self.total_supply
    }

    /// The balance of `account`; zero for an account never written.
    pub fn balance_of(&self, account: AccountId) -> (r: u32)
        requires
            self.wf(),
        ensures
            r == self.balance(account),
    {
        self.balance_of_entries(account)
    }

    fn balance_of_entries(&self, account: AccountId) -> (r: u32)
        requires
            self.tables_ok(),
        ensures
            r == self.balance(account),
    {
        match self.find_account(account) {
            Some(i) => {
                proof {
                    lemma_value_at(self.balances@, i as int);
                }
                self.balances[i].1
            },
            None => 0,
        }
    }

    /// Moves `amount` from `caller` to `recipient`, provided `caller` holds it.
    pub fn transfer(&mut self, caller: AccountId, recipient: AccountId, amount: u32) -> (r: Result<
        (),
        Error,
    >)
        requires
            old(self).wf(),
        ensures
            final(self).wf(),
            old(self).transfer_step(*final(self), caller, recipient, amount, r),
    {
        self.transfer_from_to(caller, recipient, amount)
    }

    /// Sets the amount `spender` may move out of `caller`'s funds, replacing any earlier limit.
    pub fn approve(&mut self, caller: AccountId, spender: AccountId, amount: u32) -> (r: Result<
        (),
        Error,
    >)
        requires
            old(self).wf(),
        ensures
            final(self).wf(),
            old(self).approve_step(*final(self), caller, spender, amount, r),
    {
        let ghost pre = *self;
        self.store_allowance(caller, spender, amount);
        let ghost mid = *self;
        self.events.push(Event::Approval(Approval { owner: caller, spender, amount }));
        assert forall|o: AccountId, s: AccountId| #[trigger]
            self.allowance_of(o, s) == if o == caller && s == spender {
                amount as nat
            } else {
                pre.allowance_of(o, s)
            } by {
            assert(self.allowance_of(o, s) == mid.allowance_of(o, s));
        }
        Ok(())
    }

    /// The amount `spender` may still move out of `owner`'s funds; zero for a pair never written.
    pub fn allowance(&self, owner: AccountId, spender: AccountId) -> (r: u32)
        requires
            self.wf(),
        ensures
            r == self.allowance_of(owner, spender),
    {
        match self.find_allowance(owner, spender) {
            Some(i) => {
                proof {
                    lemma_value_at(self.allowances@, i as int);
                }
                self.allowances[i].1
            },
            None => 0,
        }
    }

    /// `caller` moves `amount` from `sender` to `recipient` within the allowance
    /// `sender` gave it, which shrinks by `amount`.
    pub fn transfer_from(
        &mut self,
        caller: AccountId,
        sender: AccountId,
        recipient: AccountId,
        amount: u32,
    ) -> (r: Result<(), Error>)
        requires
            old(self).wf(),
        ensures
            final(self).wf(),
            old(self).transfer_from_step(*final(self), caller, sender, recipient, amount, r),
    {
        let ghost pre = *self;
        let allowance = self.allowance(sender, caller);
        if allowance < amount {
            return Err(Error::InsufficientAllowance);
        }
        match self.transfer_from_to(sender, recipient, amount) {
            Ok(()) => {},
            Err(e) => {
                return Err(e);
            },
        }
        let ghost mid = *self;
        self.store_allowance(sender, caller, allowance - amount);
        assert forall|a: AccountId| #[trigger] self.balance(a) == mid.balance(a) by {}
        assert forall|o: AccountId, s: AccountId| #[trigger]
            self.allowance_of(o, s) == if o == sender && s == caller {
                pre.allowance_of(o, s) - amount
            } else {
                pre.allowance_of(o, s) as int
            } by {
            assert(mid.allowance_of(o, s) == pre.allowance_of(o, s));
        }
        Ok(())
    }

    /// Creates `amount` new tokens in the account of `caller`, who must be the mint authority.
    pub fn mint(&mut self, caller: AccountId, amount: u32) -> (r: Result<(), Error>)
        requires
            old(self).wf(),
            caller == old(self).authority() ==> old(self).supply() + amount <= u32::MAX,
        ensures
            final(self).wf(),
            old(self).mint_step(*final(self), caller, amount, r),
    {
        if !(caller == self.mint_authority) {
            return Err(Error::Unauthorized);
        }
        let sender_balance = self.balance_of(caller);
        proof {
            lemma_value_le_sum(self.balances@, caller);
        }
        self.store_balance(caller, sender_balance + amount);
        let ghost mid = *self;
        self.total_supply = self.total_supply + amount;
        assert forall|a: AccountId| #[trigger] self.balance(a) == mid.balance(a) by {}
        assert forall|o: AccountId, s: AccountId| #[trigger]
            self.allowance_of(o, s) == mid.allowance_of(o, s) by {}
        Ok(())
    }

    /// Destroys `amount` tokens of `caller`'s own, provided `caller` holds them.
    pub fn burn(&mut self, caller: AccountId, amount: u32) -> (r: Result<(), Error>)
        requires
            old(self).wf(),
        ensures
            final(self).wf(),
            old(self).burn_step(*final(self), caller, amount, r),
    {
        let sender_balance = self.balance_of(caller);
        if sender_balance < amount {
            return Err(Error::InsufficientBalance);
        }
        proof {
            lemma_value_le_sum(self.balances@, caller);
        }
        self.store_balance(caller, sender_balance - amount);
        let ghost mid = *self;
        self.total_supply = self.total_supply - amount;
        assert forall|a: AccountId| #[trigger] self.balance(a) == mid.balance(a) by {}
        assert forall|o: AccountId, s: AccountId| #[trigger]
            self.allowance_of(o, s) == mid.allowance_of(o, s) by {}
        Ok(())
    }

    /// Hands the mint authority from `caller`, who must hold it, to `new_owner`.
    pub fn transfer_authority(&mut self, caller: AccountId, new_owner: AccountId) -> (r: Result<
        (),
        Error,
    >)
        requires
            old(self).wf(),
        ensures
            final(self).wf(),
            old(self).authority_step(*final(self), caller, new_owner, r),
    {
        if !(caller == self.mint_authority) {
            return Err(Error::Unauthorized);
        }
        self.mint_authority = new_owner;
        Ok(())
    }

    /// The current mint authority.
    pub fn get_current_authority(&self) -> (r: AccountId)
        ensures
            r == self.authority(),
    {
        self.mint_authority
    }

    /// Hands out the notifications emitted so far, oldest first, and forgets them.
    pub fn take_events(&mut self) -> (r: Vec<Event>)
        requires
            old(self).wf(),
        ensures
            final(self).wf(),
            r@ == old(self).notifications(),
            final(self).notifications() == Seq::<Event>::empty(),
            old(self).same_balances(*final(self)),
            old(self).same_allowances(*final(self)),
            final(self).supply() == old(self).supply(),
            final(self).authority() == old(self).authority(),
            final(self).accounts() == old(self).accounts(),
    {
        let mut taken: Vec<Event> = Vec::new();
        core::mem::swap(&mut taken, &mut self.events);
        taken
    }

    /// Conservation: in a well-formed ledger the total supply is the sum of the
    /// balances of all accounts ever written, each counted once, and every other
    /// account holds nothing.
    pub proof fn lemma_conservation(t: A1Token)
        requires
            t.wf(),
        ensures
            t.supply() == sum_over(t.accounts(), |a: AccountId| t.balance(a)),
            t.accounts().no_duplicates(),
            forall|a: AccountId| !t.accounts().contains(a) ==> #[trigger] t.balance(a) == 0,
    {
        let s = t.balances@;
        lemma_sum_over_keys(s, s.len() as int);
        assert(s.take(s.len() as int) =~= s);
        assert(keys_of(s).take(s.len() as int) =~= keys_of(s));
        assert(sum_over(t.accounts(), |a: AccountId| t.balance(a)) == sum_over(
            keys_of(s),
            |k: AccountId| value_of(s, k),
        )) by {
            assert((|a: AccountId| t.balance(a)) =~= (|k: AccountId| value_of(s, k)));
        }
        assert forall|i: int, j: int|
            0 <= i < t.accounts().len() && 0 <= j < t.accounts().len() && i != j implies t.accounts()[i]
            != t.accounts()[j] by {
            assert(s[i].0 == t.accounts()[i]);
            assert(s[j].0 == t.accounts()[j]);
        }
        assert forall|a: AccountId| !t.accounts().contains(a) implies #[trigger] t.balance(a) == 0 by {
            if has_key(s, a) {
                let j = choose|j: int| 0 <= j < s.len() && #[trigger] s[j].0 == a;
                assert(t.accounts()[j] == a);
            }
        }
    }

    /// No balance is negative or exceeds the total supply, and no allowance is
    /// negative or exceeds the largest amount.
    pub proof fn lemma_amounts_in_range(t: A1Token)
        requires
            t.wf(),
        ensures
            forall|a: AccountId| 0 <= #[trigger] t.balance(a) <= t.supply(),
            forall|o: AccountId, s: AccountId| 0 <= #[trigger] t.allowance_of(o, s) <= u32::MAX,
    {
        assert forall|a: AccountId| 0 <= #[trigger] t.balance(a) <= t.supply() by {
            lemma_value_le_sum(t.balances@, a);
        }
        assert forall|o: AccountId, s: AccountId| 0 <= #[trigger] t.allowance_of(o, s) <= u32::MAX by {
            if has_key(t.allowances@, (o, s)) {
                let j = choose|j: int| 0 <= j < t.allowances@.len() && #[trigger] t.allowances@[j].0 == (o, s);
                lemma_value_at(t.allowances@, j);
            }
        }
    }

    /// An account, or an (owner, spender) pair, that was never written reads as zero.
    pub proof fn lemma_unwritten_reads_zero(t: A1Token)
        requires
            t.wf(),
        ensures
            forall|a: AccountId| !t.accounts().contains(a) ==> #[trigger] t.balance(a) == 0,
            forall|o: AccountId, s: AccountId|
                !t.allowance_pairs().contains((o, s)) ==> #[trigger] t.allowance_of(o, s) == 0,
    {
        Self::lemma_conservation(t);
        assert forall|o: AccountId, s: AccountId|
            !t.allowance_pairs().contains((o, s)) implies #[trigger] t.allowance_of(o, s) == 0 by {
            if has_key(t.allowances@, (o, s)) {
                let j = choose|j: int| 0 <= j < t.allowances@.len() && #[trigger] t.allowances@[j].0 == (o, s);
                assert(t.allowance_pairs()[j] == (o, s));
            }
        }
    }

    /// Gives up the ledger as its durable state, for the environment to store.
    /// Notifications not yet taken are dropped.
    pub fn into_state(self) -> (s: LedgerState)
        requires
            self.wf(),
        ensures
            s.valid(),
            s.total_supply == self.supply(),
            s.mint_authority == self.authority(),
            forall|a: AccountId| #[trigger] value_of(s.balances@, a) == self.balance(a),
            forall|o: AccountId, sp: AccountId| #[trigger]
                value_of(s.allowances@, (o, sp)) == self.allowance_of(o, sp),
    {
        LedgerState {
            total_supply: self.total_supply,
            balances: self.balances,
            allowances: self.allowances,
            mint_authority: self.mint_authority,
        }
    }

    /// Rebuilds a ledger from a stored state, with no pending notifications;
    /// `None` where the state is not one that a ledger could have left.
    pub fn restore(s: LedgerState) -> (r: Option<A1Token>)
        ensures
            r.is_some() == s.valid(),
            match r {
                Some(t) => {
                    &&& t.wf()
                    &&& t.supply() == s.total_supply
                    &&& t.authority() == s.mint_authority
                    &&& forall|a: AccountId| #[trigger] t.balance(a) == value_of(s.balances@, a)
                    &&& forall|o: AccountId, sp: AccountId| #[trigger]
                        t.allowance_of(o, sp) == value_of(s.allowances@, (o, sp))
                    &&& t.notifications() == Seq::<Event>::empty()
                },
                None => true,
            },
    {
        if !s.is_valid() {
            return None;
        }
        let t = A1Token {
            total_supply: s.total_supply,
            balances: s.balances,
            allowances: s.allowances,
            mint_authority: s.mint_authority,
            events: Vec::new(),
        };
        Some(t)
    }

    fn find_account(&self, a: AccountId) -> (r: Option<usize>)
        ensures
            match r {
                Some(i) => i < self.balances@.len() && self.balances@[i as int].0 == a,
                None => !has_key(self.balances@, a),
            },
    {
        let mut i: usize = 0;
        while i < self.balances.len()
            invariant
                0 <= i <= self.balances@.len(),
                forall|j: int| 0 <= j < i ==> #[trigger] self.balances@[j].0 != a,
            decreases self.balances@.len() - i,
        {
            if self.balances[i].0 == a {
                return Some(i);
            }
            i = i + 1;
        }
        None
    }

    fn find_allowance(&self, owner: AccountId, spender: AccountId) -> (r: Option<usize>)
        ensures
            match r {
                Some(i) => i < self.allowances@.len() && self.allowances@[i as int].0 == (
                owner,
                spender,
                ),
                None => !has_key(self.allowances@, (owner, spender)),
            },
    {
        let mut i: usize = 0;
        while i < self.allowances.len()
            invariant
                0 <= i <= self.allowances@.len(),
                forall|j: int| 0 <= j < i ==> #[trigger] self.allowances@[j].0 != (owner, spender),
            decreases self.allowances@.len() - i,
        {
            let key = self.allowances[i].0;
            if key.0 == owner && key.1 == spender {
                return Some(i);
            }
            i = i + 1;
        }
        None
    }

    /// Writes `a`'s balance, leaving the supply as it was.
    fn store_balance(&mut self, a: AccountId, v: u32)
        requires
            old(self).tables_ok(),
        ensures
            final(self).tables_ok(),
            forall|x: AccountId| #[trigger]
                final(self).balance(x) == if x == a {
                    v as nat
                } else {
                    old(self).balance(x)
                },
            sum_values(final(self).balances@) == sum_values(old(self).balances@) - old(
                self,
            ).balance(a) + v,
            final(self).total_supply == old(self).total_supply,
            final(self).allowances == old(self).allowances,
            final(self).mint_authority == old(self).mint_authority,
            final(self).events == old(self).events,
    {
        match self.find_account(a) {
            Some(i) => {
                proof {
                    lemma_value_at(self.balances@, i as int);
                    lemma_update(self.balances@, i as int, a, v);
                    lemma_sum_update(self.balances@, i as int, (a, v));
                }
                self.balances.set(i, (a, v));
            },
            None => {
                proof {
                    lemma_push(self.balances@, a, v);
                    lemma_sum_push(self.balances@, (a, v));
                }
                self.balances.push((a, v));
            },
        }
    }

    /// Writes the allowance of `spender` over `owner`'s funds.
    fn store_allowance(&mut self, owner: AccountId, spender: AccountId, v: u32)
        requires
            old(self).tables_ok(),
        ensures
            final(self).tables_ok(),
            forall|o: AccountId, s: AccountId| #[trigger]
                final(self).allowance_of(o, s) == if o == owner && s == spender {
                    v as nat
                } else {
                    old(self).allowance_of(o, s)
                },
            final(self).total_supply == old(self).total_supply,
            final(self).balances == old(self).balances,
            final(self).mint_authority == old(self).mint_authority,
            final(self).events == old(self).events,
    {
        match self.find_allowance(owner, spender) {
            Some(i) => {
                proof {
                    lemma_update(self.allowances@, i as int, (owner, spender), v);
                }
                self.allowances.set(i, ((owner, spender), v));
            },
            None => {
                proof {
                    lemma_push(self.allowances@, (owner, spender), v);
                }
                self.allowances.push(((owner, spender), v));
            },
        }
    }
}

} // verus!
