//! The notarization builder: one atomic, bounded batch of local account
//! mutations, with the projected balance of every account it has loaded.
use vstd::prelude::*;
use crate::bytes::same_bytes32;
use crate::model::{AccountId, AccountType, BalanceChange, BalanceProof, BlockVote, Note, NoteType, changes_view, copy_changes, copy_vec};

verus! {

/// The most balance changes one notarization may carry.
pub const NOTARIZATION_MAX_BALANCE_CHANGES: u32 = 25;

/// The most block votes one notarization may carry.
pub const NOTARIZATION_MAX_BLOCK_VOTES: u32 = 100;

#[derive(Clone, Copy, Debug, PartialEq, Eq, Structural)]
pub enum BuilderError {
    AccountAlreadyLoaded,
    MaxBalanceChangesReached,
    MaxBlockVotesReached,
    InsufficientFunds,
    BalanceOverflow,
    AccountLocked,
    NoChannelHold,
    ChannelHoldAlreadyOpen,
    WrongAccountType,
    ChangeNumberOverflow,
}

/// What the wallet knows of an account's latest committed state.
#[derive(Clone, Debug)]
pub struct LocalAccountTip {
    pub account_id: AccountId,
    pub account_type: AccountType,
    pub change_number: u32,
    pub balance: u128,
    pub previous_balance_proof: Option<BalanceProof>,
    pub channel_hold_note: Option<Note>,
}

/// How a note moves the balance: claims add, holds leave it, the rest take.
pub open spec fn note_delta(n: Note) -> int {
    match n.note_type {
        NoteType::Claim => n.milligons as int,
        NoteType::ClaimFromMainchain { .. } => n.milligons as int,
        NoteType::ChannelHold { .. } => 0,
        _ => -(n.milligons as int),
    }
}

/// The balance reached from `start` after the notes.
pub open spec fn net_balance(start: int, notes: Seq<Note>) -> int
    decreases notes.len(),
{
    if notes.len() == 0 {
        start
    } else {
        net_balance(start, notes.drop_last()) + note_delta(notes.last())
    }
}

pub open spec fn is_settle(n: Note) -> bool {
    n.note_type is ChannelSettle
}

pub open spec fn is_hold(n: Note) -> bool {
    n.note_type is ChannelHold
}

/// A change is locked while its account carries a hold that is not settled
/// in it, or once it opens a new hold.
pub open spec fn locked(c: BalanceChange) -> bool {
    (c.channel_hold_note is Some && !(exists|k: int| 0 <= k < c.notes@.len() && is_settle(#[trigger] c.notes@[k])))
        || (exists|k: int| 0 <= k < c.notes@.len() && is_hold(#[trigger] c.notes@[k]))
}

/// `new` is `old` with one note appended to the change at `index`, whose
/// balance becomes `balance`; every other change and field stays.
pub open spec fn note_appended(
    old: Seq<BalanceChange>,
    new: Seq<BalanceChange>,
    index: int,
    note: Note,
    balance: int,
) -> bool {
    &&& new.len() == old.len()
    &&& forall|k: int| 0 <= k < old.len() && k != index ==> #[trigger] new[k] == old[k]
    &&& new[index].account_id == old[index].account_id
    &&& new[index].account_type == old[index].account_type
    &&& new[index].change_number == old[index].change_number
    &&& new[index].previous_balance_proof == old[index].previous_balance_proof
    &&& new[index].channel_hold_note == old[index].channel_hold_note
    &&& new[index].balance == balance
    &&& new[index].notes@ == old[index].notes@.push(note)
}

pub open spec fn same_key(a: BalanceChange, b: BalanceChange) -> bool {
    a.account_id@ == b.account_id@ && a.account_type == b.account_type
}

/// A batch under construction.
pub struct NotarizationBuilder {
    pub balance_changes: Vec<BalanceChange>,
    pub start_balances: Vec<u128>,
    pub block_votes: Vec<BlockVote>,
    pub is_finalized: bool,
}

impl NotarizationBuilder {
    /// Well-formed: within bounds, one change per account, and every
    /// change's balance is its start balance moved by its notes.
    pub open spec fn wf(&self) -> bool {
        &&& self.balance_changes@.len() == self.start_balances@.len()
        &&& self.balance_changes@.len() <= NOTARIZATION_MAX_BALANCE_CHANGES
        &&& self.block_votes@.len() <= NOTARIZATION_MAX_BLOCK_VOTES
        &&& forall|i: int, j: int|
            0 <= i < j < self.balance_changes@.len() ==> !same_key(
                #[trigger] self.balance_changes@[i],
                #[trigger] self.balance_changes@[j],
            )
        &&& forall|i: int|
            0 <= i < self.balance_changes@.len() ==> (#[trigger] self.balance_changes@[i]).balance as int
                == net_balance(self.start_balances@[i] as int, self.balance_changes@[i].notes@)
    }

    pub fn new() -> (r: NotarizationBuilder)
        ensures
            r.wf(),
            r.balance_changes@.len() == 0,
            r.block_votes@.len() == 0,
            !r.is_finalized,
    {
        NotarizationBuilder {
            balance_changes: Vec::new(),
            start_balances: Vec::new(),
            block_votes: Vec::new(),
            is_finalized: false,
        }
    }

    /// A copy of the batch.
    pub fn duplicate(&self) -> (r: NotarizationBuilder)
        ensures
            changes_view(r.balance_changes@) == changes_view(self.balance_changes@),
            r.start_balances@ == self.start_balances@,
            r.block_votes@ == self.block_votes@,
            r.is_finalized == self.is_finalized,
    {
        NotarizationBuilder {
            balance_changes: copy_changes(&self.balance_changes),
            start_balances: copy_vec(&self.start_balances),
            block_votes: copy_vec(&self.block_votes),
            is_finalized: self.is_finalized,
        }
    }

    pub fn accounts(&self) -> (r: usize)
        ensures
            r == self.balance_changes@.len(),
    {
        self.balance_changes.len()
    }

    pub fn has_items_to_notarize(&self) -> (r: bool)
        ensures
            r == (self.balance_changes@.len() > 0 || self.block_votes@.len() > 0),
    {
        self.balance_changes.len() > 0 || self.block_votes.len() > 0
    }

    /// Whether one more account can be loaded into this batch.
    pub fn can_add_channel_hold(&self) -> (r: bool)
        ensures
            r == (self.balance_changes@.len() < NOTARIZATION_MAX_BALANCE_CHANGES),
    {
        self.balance_changes.len() < NOTARIZATION_MAX_BALANCE_CHANGES as usize
    }

    pub fn is_finalized(&self) -> (r: bool)
        ensures
            r == self.is_finalized,
    {
        self.is_finalized
    }

    /// Marks the batch as submitted.
    pub fn mark_finalized(&mut self)
        ensures
            final(self).is_finalized,
            final(self).balance_changes == old(self).balance_changes,
            final(self).start_balances == old(self).start_balances,
            final(self).block_votes == old(self).block_votes,
    {
        self.is_finalized = true;
    }

    pub fn find_account(&self, account_id: &AccountId, account_type: AccountType) -> (r: Option<usize>)
        ensures
            match r {
                Some(i) => i < self.balance_changes@.len() && self.balance_changes@[i as int].account_id@
                    == account_id@ && self.balance_changes@[i as int].account_type == account_type,
                None => forall|k: int|
                    0 <= k < self.balance_changes@.len() ==> !(
                    #[trigger] self.balance_changes@[k].account_id@ == account_id@
                        && self.balance_changes@[k].account_type == account_type),
            },
    {
        let mut i: usize = 0;
        while i < self.balance_changes.len()
            invariant
                i <= self.balance_changes@.len(),
                forall|k: int|
                    0 <= k < i ==> !(#[trigger] self.balance_changes@[k].account_id@ == account_id@
                        && self.balance_changes@[k].account_type == account_type),
            decreases self.balance_changes@.len() - i,
        {
            if self.balance_changes[i].account_type == account_type && same_bytes32(
                &self.balance_changes[i].account_id,
                account_id,
            ) {
                return Some(i);
            }
            i = i + 1;
        }
        None
    }

    /// Takes exclusive ownership of an account for this batch and opens its
    /// next change: one past its change number, from its committed balance,
    /// referencing its committed tip and restating its hold.
    pub fn load_account(&mut self, tip: LocalAccountTip) -> (r: Result<usize, BuilderError>)
        requires
            old(self).wf(),
        ensures
            final(self).wf(),
            final(self).block_votes == old(self).block_votes,
            final(self).is_finalized == old(self).is_finalized,
            (exists|k: int|
                0 <= k < old(self).balance_changes@.len() && #[trigger] old(self).balance_changes@[k].account_id@
                    == tip.account_id@ && old(self).balance_changes@[k].account_type == tip.account_type)
                ==> r == Err::<usize, BuilderError>(BuilderError::AccountAlreadyLoaded),
            r is Err ==> final(self).balance_changes@ == old(self).balance_changes@ && final(self).start_balances@
                == old(self).start_balances@,
            r is Ok <==> (!(exists|k: int|
                0 <= k < old(self).balance_changes@.len() && #[trigger] old(self).balance_changes@[k].account_id@
                    == tip.account_id@ && old(self).balance_changes@[k].account_type == tip.account_type)
                && old(self).balance_changes@.len() < NOTARIZATION_MAX_BALANCE_CHANGES && tip.change_number
                < u32::MAX),
            r is Ok ==> {
                &&& r->Ok_0 == old(self).balance_changes@.len()
                &&& final(self).balance_changes@.len() == old(self).balance_changes@.len() + 1
                &&& final(self).balance_changes@.drop_last() == old(self).balance_changes@
                &&& final(self).start_balances@ == old(self).start_balances@.push(tip.balance)
                &&& final(self).balance_changes@.last().account_id == tip.account_id
                &&& final(self).balance_changes@.last().account_type == tip.account_type
                &&& final(self).balance_changes@.last().change_number == tip.change_number + 1
                &&& final(self).balance_changes@.last().balance == tip.balance
                &&& final(self).balance_changes@.last().previous_balance_proof == tip.previous_balance_proof
                &&& final(self).balance_changes@.last().channel_hold_note == tip.channel_hold_note
                &&& final(self).balance_changes@.last().notes@.len() == 0
            },
    {
        if let Some(_) = self.find_account(&tip.account_id, tip.account_type) {
            return Err(BuilderError::AccountAlreadyLoaded);
        }
        if self.balance_changes.len() >= NOTARIZATION_MAX_BALANCE_CHANGES as usize {
            return Err(BuilderError::MaxBalanceChangesReached);
        }
        if tip.change_number == u32::MAX {
            return Err(BuilderError::ChangeNumberOverflow);
        }
        let index = self.balance_changes.len();
        let change = BalanceChange {
            account_id: tip.account_id,
            account_type: tip.account_type,
            change_number: tip.change_number + 1,
            balance: tip.balance,
            previous_balance_proof: tip.previous_balance_proof,
            channel_hold_note: tip.channel_hold_note,
            notes: Vec::new(),
        };
        let ghost old_changes = self.balance_changes@;
        self.balance_changes.push(change);
        self.start_balances.push(tip.balance);
        assert(self.balance_changes@.drop_last() =~= old_changes);
        assert(net_balance(tip.balance as int, Seq::<Note>::empty()) == tip.balance as int);
        assert(self.balance_changes@[index as int].notes@ =~= Seq::<Note>::empty());
        assert forall|i: int, j: int|
            0 <= i < j < self.balance_changes@.len() implies !same_key(
                #[trigger] self.balance_changes@[i],
                #[trigger] self.balance_changes@[j],
            ) by {
            if j == index {
                assert(old_changes[i] == self.balance_changes@[i]);
            } else {
                assert(old_changes[i] == self.balance_changes@[i] && old_changes[j] == self.balance_changes@[j]);
            }
        }
        assert forall|i: int|
            0 <= i < self.balance_changes@.len() implies (#[trigger] self.balance_changes@[i]).balance as int
                == net_balance(self.start_balances@[i] as int, self.balance_changes@[i].notes@) by {
            if i < index {
                assert(old_changes[i] == self.balance_changes@[i]);
            }
        }
        Ok(index)
    }

    /// Whether the change is locked by a hold.
    pub fn is_locked_change(c: &BalanceChange) -> (r: bool)
        ensures
            r == locked(*c),
    {
        Self::is_locked(c)
    }

    fn is_locked(c: &BalanceChange) -> (r: bool)
        ensures
            r == locked(*c),
    {
        let mut settled = false;
        let mut held = false;
        let mut i: usize = 0;
        while i < c.notes.len()
            invariant
                i <= c.notes@.len(),
                settled == (exists|k: int| 0 <= k < i && is_settle(#[trigger] c.notes@[k])),
                held == (exists|k: int| 0 <= k < i && is_hold(#[trigger] c.notes@[k])),
            decreases c.notes@.len() - i,
        {
            match c.notes[i].note_type {
                NoteType::ChannelSettle => {
                    settled = true;
                },
                NoteType::ChannelHold { .. } => {
                    held = true;
                },
                _ => {},
            }
            i = i + 1;
        }
        (c.channel_hold_note.is_some() && !settled) || held
    }

    /// Appends a note to the change at `index` and moves its balance to `balance`.
    fn append_note(&mut self, index: usize, note: Note, balance: u128)
        requires
            old(self).wf(),
            index < old(self).balance_changes@.len(),
            balance as int == old(self).balance_changes@[index as int].balance + note_delta(note),
        ensures
            final(self).wf(),
            final(self).block_votes == old(self).block_votes,
            final(self).is_finalized == old(self).is_finalized,
            final(self).start_balances == old(self).start_balances,
            note_appended(old(self).balance_changes@, final(self).balance_changes@, index as int, note, balance as int),
    {
        let ghost old_changes = self.balance_changes@;
        let mut c = self.balance_changes.remove(index);
        let ghost old_notes = c.notes@;
        c.notes.push(note);
        c.balance = balance;
        self.balance_changes.insert(index, c);
        assert(self.balance_changes@ =~= old_changes.update(index as int, c));
        assert(c.notes@.drop_last() =~= old_notes);
        assert forall|i: int, j: int|
            0 <= i < j < self.balance_changes@.len() implies !same_key(
                #[trigger] self.balance_changes@[i],
                #[trigger] self.balance_changes@[j],
            ) by {
            assert(!same_key(old_changes[i], old_changes[j]));
        }
        assert forall|i: int|
            0 <= i < self.balance_changes@.len() implies (#[trigger] self.balance_changes@[i]).balance as int
                == net_balance(self.start_balances@[i] as int, self.balance_changes@[i].notes@) by {
            if i != index {
                assert(old_changes[i] == self.balance_changes@[i]);
            }
        }
    }

    /// Sends `amount` from the account at `index`, to `to` when given.
    pub fn send(&mut self, index: usize, amount: u128, to: Option<AccountId>) -> (r: Result<(), BuilderError>)
        requires
            old(self).wf(),
            index < old(self).balance_changes@.len(),
        ensures
            final(self).wf(),
            final(self).block_votes == old(self).block_votes,
            final(self).balance_changes@.len() == old(self).balance_changes@.len(),
            locked(old(self).balance_changes@[index as int]) ==> r == Err::<(), BuilderError>(BuilderError::AccountLocked),
            !locked(old(self).balance_changes@[index as int]) && amount > old(self).balance_changes@[index as int].balance
                ==> r == Err::<(), BuilderError>(BuilderError::InsufficientFunds),
            r is Err ==> final(self).balance_changes@ == old(self).balance_changes@,
            r is Ok ==> note_appended(
                old(self).balance_changes@,
                final(self).balance_changes@,
                index as int,
                Note { milligons: amount, note_type: NoteType::Send { to } },
                old(self).balance_changes@[index as int].balance - amount,
            ),
            r is Ok <==> !locked(old(self).balance_changes@[index as int]) && amount <= old(self).balance_changes@[index as int].balance,
    {
        if Self::is_locked(&self.balance_changes[index]) {
            return Err(BuilderError::AccountLocked);
        }
        let balance = self.balance_changes[index].balance;
        if amount > balance {
            return Err(BuilderError::InsufficientFunds);
        }
        self.append_note(index, Note { milligons: amount, note_type: NoteType::Send { to } }, balance - amount);
        Ok(())
    }

    fn credit(&mut self, index: usize, note: Note) -> (r: Result<(), BuilderError>)
        requires
            old(self).wf(),
            index < old(self).balance_changes@.len(),
            note_delta(note) == note.milligons as int,
        ensures
            final(self).wf(),
            final(self).block_votes == old(self).block_votes,
            final(self).balance_changes@.len() == old(self).balance_changes@.len(),
            locked(old(self).balance_changes@[index as int]) ==> r == Err::<(), BuilderError>(BuilderError::AccountLocked),
            r is Err ==> final(self).balance_changes@ == old(self).balance_changes@,
            r is Ok ==> note_appended(
                old(self).balance_changes@,
                final(self).balance_changes@,
                index as int,
                note,
                old(self).balance_changes@[index as int].balance + note.milligons,
            ),
            r is Ok <==> !locked(old(self).balance_changes@[index as int])
                && old(self).balance_changes@[index as int].balance + note.milligons <= u128::MAX,
    {
        if Self::is_locked(&self.balance_changes[index]) {
            return Err(BuilderError::AccountLocked);
        }
        let balance = self.balance_changes[index].balance;
        if balance > u128::MAX - note.milligons {
            return Err(BuilderError::BalanceOverflow);
        }
        self.append_note(index, note, balance + note.milligons);
        Ok(())
    }

    /// Claims `amount` sent to the account at `index`.
    pub fn claim(&mut self, index: usize, amount: u128) -> (r: Result<(), BuilderError>)
        requires
            old(self).wf(),
            index < old(self).balance_changes@.len(),
        ensures
            final(self).wf(),
            final(self).block_votes == old(self).block_votes,
            r is Err ==> final(self).balance_changes@ == old(self).balance_changes@,
            r is Ok ==> note_appended(
                old(self).balance_changes@,
                final(self).balance_changes@,
                index as int,
                Note { milligons: amount, note_type: NoteType::Claim },
                old(self).balance_changes@[index as int].balance + amount,
            ),
            r is Ok <==> !locked(old(self).balance_changes@[index as int])
                && old(self).balance_changes@[index as int].balance + amount <= u128::MAX,
    {
        self.credit(index, Note { milligons: amount, note_type: NoteType::Claim })
    }

    /// Claims a settlement-chain deposit with the given nonce into the account at `index`.
    pub fn claim_from_mainchain(&mut self, index: usize, amount: u128, account_nonce: u32) -> (r: Result<(), BuilderError>)
        requires
            old(self).wf(),
            index < old(self).balance_changes@.len(),
        ensures
            final(self).wf(),
            final(self).block_votes == old(self).block_votes,
            r is Err ==> final(self).balance_changes@ == old(self).balance_changes@,
            r is Ok ==> note_appended(
                old(self).balance_changes@,
                final(self).balance_changes@,
                index as int,
                Note { milligons: amount, note_type: NoteType::ClaimFromMainchain { account_nonce } },
                old(self).balance_changes@[index as int].balance + amount,
            ),
            r is Ok <==> !locked(old(self).balance_changes@[index as int])
                && old(self).balance_changes@[index as int].balance + amount <= u128::MAX,
    {
        self.credit(index, Note { milligons: amount, note_type: NoteType::ClaimFromMainchain { account_nonce } })
    }

    /// Spends tax of the tax account at `index` on block votes.
    pub fn send_to_vote(&mut self, index: usize, amount: u128) -> (r: Result<(), BuilderError>)
        requires
            old(self).wf(),
            index < old(self).balance_changes@.len(),
        ensures
            final(self).wf(),
            final(self).block_votes == old(self).block_votes,
            r is Err ==> final(self).balance_changes@ == old(self).balance_changes@,
            r is Ok ==> note_appended(
                old(self).balance_changes@,
                final(self).balance_changes@,
                index as int,
                Note { milligons: amount, note_type: NoteType::SendToVote },
                old(self).balance_changes@[index as int].balance - amount,
            ),
            r is Ok <==> old(self).balance_changes@[index as int].account_type == AccountType::Tax
                && !locked(old(self).balance_changes@[index as int])
                && amount <= old(self).balance_changes@[index as int].balance,
    {
        if self.balance_changes[index].account_type != AccountType::Tax {
            return Err(BuilderError::WrongAccountType);
        }
        if Self::is_locked(&self.balance_changes[index]) {
            return Err(BuilderError::AccountLocked);
        }
        let balance = self.balance_changes[index].balance;
        if amount > balance {
            return Err(BuilderError::InsufficientFunds);
        }
        self.append_note(index, Note { milligons: amount, note_type: NoteType::SendToVote }, balance - amount);
        Ok(())
    }

    /// Opens a channel hold of `amount` towards `recipient` on the account at
    /// `index`; the balance stays, frozen until the hold is settled.
    pub fn open_channel_hold(&mut self, index: usize, amount: u128, recipient: AccountId) -> (r: Result<(), BuilderError>)
        requires
            old(self).wf(),
            index < old(self).balance_changes@.len(),
        ensures
            final(self).wf(),
            final(self).block_votes == old(self).block_votes,
            r is Err ==> final(self).balance_changes@ == old(self).balance_changes@,
            r is Ok ==> note_appended(
                old(self).balance_changes@,
                final(self).balance_changes@,
                index as int,
                Note { milligons: amount, note_type: NoteType::ChannelHold { recipient } },
                old(self).balance_changes@[index as int].balance as int,
            ),
            r is Ok <==> !locked(old(self).balance_changes@[index as int])
                && amount <= old(self).balance_changes@[index as int].balance,
    {
        if Self::is_locked(&self.balance_changes[index]) {
            return Err(BuilderError::ChannelHoldAlreadyOpen);
        }
        let balance = self.balance_changes[index].balance;
        if amount > balance {
            return Err(BuilderError::InsufficientFunds);
        }
        self.append_note(index, Note { milligons: amount, note_type: NoteType::ChannelHold { recipient } }, balance);
        Ok(())
    }

    /// Settles the hold carried by the account at `index`, paying `amount`
    /// to its recipient; a payer reclaiming an unclaimed hold settles 0.
    pub fn settle_channel_hold(&mut self, index: usize, amount: u128) -> (r: Result<(), BuilderError>)
        requires
            old(self).wf(),
            index < old(self).balance_changes@.len(),
        ensures
            final(self).wf(),
            final(self).block_votes == old(self).block_votes,
            r is Err ==> final(self).balance_changes@ == old(self).balance_changes@,
            r is Ok ==> note_appended(
                old(self).balance_changes@,
                final(self).balance_changes@,
                index as int,
                Note { milligons: amount, note_type: NoteType::ChannelSettle },
                old(self).balance_changes@[index as int].balance - amount,
            ),
            r is Ok <==> old(self).balance_changes@[index as int].channel_hold_note is Some
                && locked(old(self).balance_changes@[index as int])
                && !(exists|k: int| 0 <= k < old(self).balance_changes@[index as int].notes@.len()
                    && is_hold(#[trigger] old(self).balance_changes@[index as int].notes@[k]))
                && amount <= old(self).balance_changes@[index as int].balance,
    {
        let ghost c = self.balance_changes@[index as int];
        if self.balance_changes[index].channel_hold_note.is_none() || !Self::is_locked(&self.balance_changes[index]) {
            return Err(BuilderError::NoChannelHold);
        }
        let mut i: usize = 0;
        while i < self.balance_changes[index].notes.len()
            invariant
                i <= c.notes@.len(),
                self.balance_changes@[index as int] == c,
                index < self.balance_changes@.len(),
                self.wf(),
                self.balance_changes@ == old(self).balance_changes@,
                self.block_votes == old(self).block_votes,
                forall|k: int| 0 <= k < i ==> !is_hold(#[trigger] c.notes@[k]),
            decreases c.notes@.len() - i,
        {
            match self.balance_changes[index].notes[i].note_type {
                NoteType::ChannelHold { .. } => {
                    return Err(BuilderError::ChannelHoldAlreadyOpen);
                },
                _ => {},
            }
            i = i + 1;
        }
        let balance = self.balance_changes[index].balance;
        if amount > balance {
            return Err(BuilderError::InsufficientFunds);
        }
        self.append_note(index, Note { milligons: amount, note_type: NoteType::ChannelSettle }, balance - amount);
        Ok(())
    }

    /// Adds a block vote to the batch.
    pub fn add_vote(&mut self, vote: BlockVote) -> (r: Result<(), BuilderError>)
        requires
            old(self).wf(),
        ensures
            final(self).wf(),
            final(self).balance_changes == old(self).balance_changes,
            final(self).start_balances == old(self).start_balances,
            r is Ok <==> old(self).block_votes@.len() < NOTARIZATION_MAX_BLOCK_VOTES,
            r is Ok ==> final(self).block_votes@ == old(self).block_votes@.push(vote),
            r is Err ==> final(self).block_votes@ == old(self).block_votes@,
    {
        if self.block_votes.len() >= NOTARIZATION_MAX_BLOCK_VOTES as usize {
            return Err(BuilderError::MaxBlockVotesReached);
        }
        self.block_votes.push(vote);
        Ok(())
    }
}

/// Which builder session owns each account: an account is loaded by at most
/// one in-flight builder, and a second one fails at once instead of waiting.
pub struct AccountLocks {
    pub owners: Vec<(AccountId, AccountType, u64)>,
}

pub open spec fn owner_matches(e: (AccountId, AccountType, u64), id: Seq<u8>, ty: AccountType) -> bool {
    e.0@ == id && e.1 == ty
}

/// The session owning the account, if any.
pub open spec fn owner_of(owners: Seq<(AccountId, AccountType, u64)>, id: Seq<u8>, ty: AccountType) -> Option<u64> {
    if exists|k: int| 0 <= k < owners.len() && owner_matches(#[trigger] owners[k], id, ty) {
        Some(owners[choose|k: int| 0 <= k < owners.len() && owner_matches(#[trigger] owners[k], id, ty)].2)
    } else {
        None
    }
}

/// The entries that stay when `session` releases its accounts.
pub open spec fn kept_owners(owners: Seq<(AccountId, AccountType, u64)>, session: u64) -> Seq<(AccountId, AccountType, u64)> {
    owners.filter(|e: (AccountId, AccountType, u64)| e.2 != session)
}

impl AccountLocks {
    /// One entry per account.
    pub open spec fn wf(&self) -> bool {
        forall|i: int, j: int|
            0 <= i < j < self.owners@.len() ==> !owner_matches(#[trigger] self.owners@[i], (#[trigger] self.owners@[j]).0@, self.owners@[j].1)
    }

    pub fn new() -> (r: AccountLocks)
        ensures
            r.wf(),
            r.owners@.len() == 0,
    {
        AccountLocks { owners: Vec::new() }
    }

    fn find(&self, account_id: &AccountId, account_type: AccountType) -> (r: Option<usize>)
        requires
            self.wf(),
        ensures
            match r {
                Some(k) => k < self.owners@.len() && owner_matches(self.owners@[k as int], account_id@, account_type)
                    && owner_of(self.owners@, account_id@, account_type) == Some(self.owners@[k as int].2),
                None => owner_of(self.owners@, account_id@, account_type) is None,
            },
    {
        let mut i: usize = 0;
        while i < self.owners.len()
            invariant
                i <= self.owners@.len(),
                self.wf(),
                forall|k: int| 0 <= k < i ==> !owner_matches(#[trigger] self.owners@[k], account_id@, account_type),
            decreases self.owners@.len() - i,
        {
            if self.owners[i].1 == account_type && same_bytes32(&self.owners[i].0, account_id) {
                assert(owner_matches(self.owners@[i as int], account_id@, account_type));
                let ghost c = choose|k: int| 0 <= k < self.owners@.len() && owner_matches(#[trigger] self.owners@[k], account_id@, account_type);
                assert(c == i as int) by {
                    if c < i as int {
                    } else if c > i as int {
                        assert(!owner_matches(self.owners@[i as int], self.owners@[c].0@, self.owners@[c].1));
                    }
                }
                return Some(i);
            }
            i = i + 1;
        }
        None
    }

    /// Claims the account for `session`: succeeds when nobody owns it or
    /// `session` already does, fails when another session owns it.
    pub fn acquire(&mut self, account_id: &AccountId, account_type: AccountType, session: u64) -> (r: Result<(), BuilderError>)
        requires
            old(self).wf(),
        ensures
            final(self).wf(),
            r is Ok <==> (owner_of(old(self).owners@, account_id@, account_type) is None
                || owner_of(old(self).owners@, account_id@, account_type) == Some(session)),
            r is Err ==> r == Err::<(), BuilderError>(BuilderError::AccountAlreadyLoaded) && final(self).owners@ == old(self).owners@,
            r is Ok ==> owner_of(final(self).owners@, account_id@, account_type) == Some(session),
            owner_of(old(self).owners@, account_id@, account_type) is Some ==> final(self).owners@ == old(self).owners@,
            owner_of(old(self).owners@, account_id@, account_type) is None ==> final(self).owners@ == old(self).owners@.push((*account_id, account_type, session)),
    {
        match self.find(account_id, account_type) {
            Some(k) => {
                if self.owners[k].2 == session {
                    Ok(())
                } else {
                    Err(BuilderError::AccountAlreadyLoaded)
                }
            },
            None => {
                let ghost old_owners = self.owners@;
                self.owners.push((*account_id, account_type, session));
                assert forall|i: int, j: int|
                    0 <= i < j < self.owners@.len() implies !owner_matches(#[trigger] self.owners@[i], (#[trigger] self.owners@[j]).0@, self.owners@[j].1) by {
                    if j == old_owners.len() {
                        assert(old_owners[i] == self.owners@[i]);
                        assert(!owner_matches(old_owners[i], account_id@, account_type));
                    } else {
                        assert(old_owners[i] == self.owners@[i] && old_owners[j] == self.owners@[j]);
                    }
                }
                assert(owner_matches(self.owners@[old_owners.len() as int], account_id@, account_type));
                let ghost c = choose|k: int| 0 <= k < self.owners@.len() && owner_matches(#[trigger] self.owners@[k], account_id@, account_type);
                assert(c == old_owners.len() as int) by {
                    if c < old_owners.len() {
                        assert(old_owners[c] == self.owners@[c]);
                    }
                }
                Ok(())
            },
        }
    }

    /// Releases every account owned by `session`.
    pub fn release_session(&mut self, session: u64)
        requires
            old(self).wf(),
        ensures
            final(self).owners@ == kept_owners(old(self).owners@, session),
    {
        let ghost old_owners = self.owners@;
        let mut kept: Vec<(AccountId, AccountType, u64)> = Vec::new();
        let mut i: usize = 0;
        while i < self.owners.len()
            invariant
                i <= self.owners@.len(),
                self.owners@ == old_owners,
                kept@ == kept_owners(old_owners.subrange(0, i as int), session),
            decreases self.owners@.len() - i,
        {
            assert(old_owners.subrange(0, i as int + 1).drop_last() =~= old_owners.subrange(0, i as int));
            proof {
                reveal(Seq::filter);
            }
            let e = self.owners[i];
            if e.2 != session {
                kept.push(e);
            }
            i = i + 1;
        }
        assert(old_owners.subrange(0, i as int) =~= old_owners);
        self.owners = kept;
    }
}

} // verus!
