//! Settlement-chain transfers seen by the notary: deposits waiting to be
//! claimed into the localchain, and withdrawals queued for a notebook.
use vstd::prelude::*;
use crate::bytes::same_bytes32;
use crate::model::{AccountId, ChainTransfer, NotebookNumber};

verus! {

/// One recorded transfer.
#[derive(Clone, Copy, Debug)]
pub struct ChainTransferRow {
    pub to_localchain: bool,
    pub amount: u128,
    pub account_id: AccountId,
    pub account_nonce: u32,
    pub finalized_block: Option<u32>,
    pub included_in_notebook_number: Option<NotebookNumber>,
}

#[derive(Clone, Copy, Debug, PartialEq, Eq, Structural)]
pub enum ChainTransferError {
    MaxNotebookChainTransfersReached,
    TransferToLocalchainNotFound { change_index: u32, note_index: u32 },
    TransferToLocalchainInvalidAmount { change_index: u32, note_index: u32, provided: u128, amount: u128 },
    DuplicateTransferToLocalchain,
}

/// The transfers recorded so far, in the order they were recorded.
pub struct ChainTransferStore {
    pub rows: Vec<ChainTransferRow>,
}

/// How many transfers are already included in notebook `nb`.
pub open spec fn count_in(rows: Seq<ChainTransferRow>, nb: NotebookNumber) -> nat
    decreases rows.len(),
{
    if rows.len() == 0 {
        0
    } else {
        count_in(rows.drop_last(), nb) + if rows.last().included_in_notebook_number == Some(nb) {
            1nat
        } else {
            0nat
        }
    }
}

pub open spec fn is_deposit(r: ChainTransferRow, account: Seq<u8>, nonce: u32) -> bool {
    r.to_localchain && r.account_id@ == account && r.account_nonce == nonce
}

pub open spec fn is_open_deposit(rows: Seq<ChainTransferRow>, account: Seq<u8>, nonce: u32, k: int) -> bool {
    0 <= k < rows.len() && is_deposit(rows[k], account, nonce) && rows[k].included_in_notebook_number is None
}

/// The deposit of this account and nonce not yet consumed by a notebook, if any.
pub open spec fn open_deposit(rows: Seq<ChainTransferRow>, account: Seq<u8>, nonce: u32) -> Option<int> {
    if exists|k: int| is_open_deposit(rows, account, nonce, k) {
        Some(choose|k: int| is_open_deposit(rows, account, nonce, k))
    } else {
        None
    }
}

pub open spec fn has_deposit(rows: Seq<ChainTransferRow>, account: Seq<u8>, nonce: u32) -> bool {
    exists|k: int| 0 <= k < rows.len() && is_deposit(rows[k], account, nonce)
}

/// Each deposit is recorded once.
pub open spec fn deposits_unique(rows: Seq<ChainTransferRow>) -> bool {
    forall|i: int, j: int|
        0 <= i < rows.len() && 0 <= j < rows.len() && #[trigger] rows[i].to_localchain
            && #[trigger] rows[j].to_localchain && rows[i].account_id@ == rows[j].account_id@
            && rows[i].account_nonce == rows[j].account_nonce ==> i == j
}

pub open spec fn row_transfer(r: ChainTransferRow) -> ChainTransfer {
    if r.to_localchain {
        ChainTransfer::ToLocalchain { account_id: r.account_id, account_nonce: r.account_nonce }
    } else {
        ChainTransfer::ToMainchain { account_id: r.account_id, amount: r.amount }
    }
}

/// The rows that stay after notebook `nb` takes its transfers.
pub open spec fn rows_kept(rows: Seq<ChainTransferRow>, nb: NotebookNumber) -> Seq<ChainTransferRow>
    decreases rows.len(),
{
    if rows.len() == 0 {
        Seq::empty()
    } else if rows.last().included_in_notebook_number == Some(nb) {
        rows_kept(rows.drop_last(), nb)
    } else {
        rows_kept(rows.drop_last(), nb).push(rows.last())
    }
}

/// The transfers notebook `nb` takes, in recorded order.
pub open spec fn rows_taken(rows: Seq<ChainTransferRow>, nb: NotebookNumber) -> Seq<ChainTransfer>
    decreases rows.len(),
{
    if rows.len() == 0 {
        Seq::empty()
    } else if rows.last().included_in_notebook_number == Some(nb) {
        rows_taken(rows.drop_last(), nb).push(row_transfer(rows.last()))
    } else {
        rows_taken(rows.drop_last(), nb)
    }
}

impl ChainTransferStore {
    pub open spec fn wf(&self) -> bool {
        deposits_unique(self.rows@)
    }

    pub fn new() -> (r: ChainTransferStore)
        ensures
            r.rows@.len() == 0,
            r.wf(),
    {
        ChainTransferStore { rows: Vec::new() }
    }

    fn count_for_notebook(&self, nb: NotebookNumber) -> (r: u64)
        ensures
            r as nat == count_in(self.rows@, nb),
    {
        let mut n: u64 = 0;
        let mut i: usize = 0;
        while i < self.rows.len()
            invariant
                i <= self.rows@.len(),
                n as nat == count_in(self.rows@.subrange(0, i as int), nb),
                n <= i,
            decreases self.rows@.len() - i,
        {
            assert(self.rows@.subrange(0, i as int + 1).drop_last() =~= self.rows@.subrange(0, i as int));
            if self.rows[i].included_in_notebook_number == Some(nb) {
                n = n + 1;
            }
            i = i + 1;
        }
        assert(self.rows@.subrange(0, i as int) =~= self.rows@);
        n
    }

    fn find_deposit(&self, account_id: &AccountId, nonce: u32) -> (r: Option<usize>)
        ensures
            match r {
                Some(k) => k < self.rows@.len() && is_deposit(self.rows@[k as int], account_id@, nonce),
                None => !has_deposit(self.rows@, account_id@, nonce),
            },
    {
        let mut i: usize = 0;
        while i < self.rows.len()
            invariant
                i <= self.rows@.len(),
                forall|j: int| 0 <= j < i ==> !is_deposit(#[trigger] self.rows@[j], account_id@, nonce),
            decreases self.rows@.len() - i,
        {
            let r = &self.rows[i];
            if r.to_localchain && r.account_nonce == nonce && same_bytes32(&r.account_id, account_id) {
                return Some(i);
            }
            i = i + 1;
        }
        None
    }

    /// Records a deposit observed in a finalized settlement-chain block.
    pub fn record_transfer_to_local_from_block(
        &mut self,
        finalized_block_number: u32,
        account_id: &AccountId,
        account_nonce: u32,
        milligons: u128,
    ) -> (r: Result<(), ChainTransferError>)
        requires
            old(self).wf(),
        ensures
            final(self).wf(),
            has_deposit(old(self).rows@, account_id@, account_nonce) ==> r == Err::<(), ChainTransferError>(
                ChainTransferError::DuplicateTransferToLocalchain,
            ) && final(self).rows@ == old(self).rows@,
            !has_deposit(old(self).rows@, account_id@, account_nonce) ==> r is Ok && final(self).rows@
                == old(self).rows@.push(
                ChainTransferRow {
                    to_localchain: true,
                    amount: milligons,
                    account_id: *account_id,
                    account_nonce,
                    finalized_block: Some(finalized_block_number),
                    included_in_notebook_number: None,
                },
            ),
    {
        if self.find_deposit(account_id, account_nonce).is_some() {
            return Err(ChainTransferError::DuplicateTransferToLocalchain);
        }
        let row = ChainTransferRow {
            to_localchain: true,
            amount: milligons,
            account_id: *account_id,
            account_nonce,
            finalized_block: Some(finalized_block_number),
            included_in_notebook_number: None,
        };
        self.rows.push(row);
        assert forall|i: int, j: int|
            0 <= i < self.rows@.len() && 0 <= j < self.rows@.len() && #[trigger] self.rows@[i].to_localchain
                && #[trigger] self.rows@[j].to_localchain && self.rows@[i].account_id@ == self.rows@[j].account_id@
                && self.rows@[i].account_nonce == self.rows@[j].account_nonce implies i == j by {
            let last = self.rows@.len() - 1;
            if i == last && j != last {
                assert(is_deposit(old(self).rows@[j], account_id@, account_nonce));
            } else if j == last && i != last {
                assert(is_deposit(old(self).rows@[i], account_id@, account_nonce));
            } else if i != last && j != last {
                assert(old(self).rows@[i] == self.rows@[i] && old(self).rows@[j] == self.rows@[j]);
            }
        }
        Ok(())
    }

    /// Consumes a deposit into notebook `notebook_number`: at most
    /// `max_transfer_per_notebook` transfers per notebook, the deposit must
    /// exist and not be consumed yet, and the amount must match. Nothing
    /// changes on an error.
    pub fn take_and_record_transfer_local(
        &mut self,
        notebook_number: NotebookNumber,
        account_id: &AccountId,
        account_nonce: u32,
        proposed_amount: u128,
        change_index: u32,
        note_index: u32,
        max_transfer_per_notebook: u32,
    ) -> (r: Result<(), ChainTransferError>)
        requires
            old(self).wf(),
        ensures
            final(self).wf(),
            r is Err ==> final(self).rows@ == old(self).rows@,
            count_in(old(self).rows@, notebook_number) >= max_transfer_per_notebook ==> r
                == Err::<(), ChainTransferError>(ChainTransferError::MaxNotebookChainTransfersReached),
            count_in(old(self).rows@, notebook_number) < max_transfer_per_notebook ==> match open_deposit(
                old(self).rows@,
                account_id@,
                account_nonce,
            ) {
                None => r == Err::<(), ChainTransferError>(
                    ChainTransferError::TransferToLocalchainNotFound { change_index, note_index },
                ),
                Some(k) => if old(self).rows@[k].amount != proposed_amount {
                    r == Err::<(), ChainTransferError>(
                        ChainTransferError::TransferToLocalchainInvalidAmount {
                            change_index,
                            note_index,
                            provided: proposed_amount,
                            amount: old(self).rows@[k].amount,
                        },
                    )
                } else {
                    r is Ok && final(self).rows@ == old(self).rows@.update(
                        k,
                        ChainTransferRow {
                            included_in_notebook_number: Some(notebook_number),
                            ..old(self).rows@[k]
                        },
                    )
                },
            },
    {
        let count = self.count_for_notebook(notebook_number);
        if count >= max_transfer_per_notebook as u64 {
            return Err(ChainTransferError::MaxNotebookChainTransfersReached);
        }
        let k = match self.find_deposit(account_id, account_nonce) {
            None => {
                assert(!exists|k: int| is_open_deposit(self.rows@, account_id@, account_nonce, k));
                return Err(ChainTransferError::TransferToLocalchainNotFound { change_index, note_index });
            },
            Some(k) => k,
        };
        let row = self.rows[k];
        if row.included_in_notebook_number.is_some() {
            assert(!exists|j: int| is_open_deposit(self.rows@, account_id@, account_nonce, j)) by {
                assert forall|j: int| !is_open_deposit(self.rows@, account_id@, account_nonce, j) by {
                    if is_open_deposit(self.rows@, account_id@, account_nonce, j) {
                        assert(self.rows@[k as int].to_localchain && self.rows@[j].to_localchain);
                    }
                }
            }
            return Err(ChainTransferError::TransferToLocalchainNotFound { change_index, note_index });
        }
        assert(is_open_deposit(self.rows@, account_id@, account_nonce, k as int));
        let ghost c = choose|j: int| is_open_deposit(self.rows@, account_id@, account_nonce, j);
        assert(c == k as int) by {
            assert(self.rows@[k as int].to_localchain && self.rows@[c].to_localchain);
        }
        if row.amount != proposed_amount {
            return Err(
                ChainTransferError::TransferToLocalchainInvalidAmount {
                    change_index,
                    note_index,
                    provided: proposed_amount,
                    amount: row.amount,
                },
            );
        }
        let updated = ChainTransferRow { included_in_notebook_number: Some(notebook_number), ..row };
        self.rows.set(k, updated);
        assert forall|i: int, j: int|
            0 <= i < self.rows@.len() && 0 <= j < self.rows@.len() && #[trigger] self.rows@[i].to_localchain
                && #[trigger] self.rows@[j].to_localchain && self.rows@[i].account_id@ == self.rows@[j].account_id@
                && self.rows@[i].account_nonce == self.rows@[j].account_nonce implies i == j by {
            assert(old(self).rows@[i].to_localchain && old(self).rows@[j].to_localchain);
        }
        Ok(())
    }

    /// Queues a withdrawal to the settlement chain in notebook `notebook_number`,
    /// at most `max_transfer_per_notebook` transfers per notebook.
    pub fn record_transfer_to_mainchain(
        &mut self,
        notebook_number: NotebookNumber,
        account_id: &AccountId,
        milligons: u128,
        max_transfer_per_notebook: u32,
    ) -> (r: Result<(), ChainTransferError>)
        requires
            old(self).wf(),
        ensures
            final(self).wf(),
            count_in(old(self).rows@, notebook_number) >= max_transfer_per_notebook ==> r
                == Err::<(), ChainTransferError>(ChainTransferError::MaxNotebookChainTransfersReached)
                && final(self).rows@ == old(self).rows@,
            count_in(old(self).rows@, notebook_number) < max_transfer_per_notebook ==> r is Ok
                && final(self).rows@ == old(self).rows@.push(
                ChainTransferRow {
                    to_localchain: false,
                    amount: milligons,
                    account_id: *account_id,
                    account_nonce: 0,
                    finalized_block: None,
                    included_in_notebook_number: Some(notebook_number),
                },
            ),
    {
        let count = self.count_for_notebook(notebook_number);
        if count >= max_transfer_per_notebook as u64 {
            return Err(ChainTransferError::MaxNotebookChainTransfersReached);
        }
        self.rows.push(
            ChainTransferRow {
                to_localchain: false,
                amount: milligons,
                account_id: *account_id,
                account_nonce: 0,
                finalized_block: None,
                included_in_notebook_number: Some(notebook_number),
            },
        );
        assert forall|i: int, j: int|
            0 <= i < self.rows@.len() && 0 <= j < self.rows@.len() && #[trigger] self.rows@[i].to_localchain
                && #[trigger] self.rows@[j].to_localchain && self.rows@[i].account_id@ == self.rows@[j].account_id@
                && self.rows@[i].account_nonce == self.rows@[j].account_nonce implies i == j by {
            assert(old(self).rows@[i].to_localchain && old(self).rows@[j].to_localchain);
        }
        Ok(())
    }

    /// Removes and returns the transfers included in notebook `notebook_number`.
    pub fn take_for_notebook(&mut self, notebook_number: NotebookNumber) -> (r: Vec<ChainTransfer>)
        requires
            old(self).wf(),
        ensures
            r@ == rows_taken(old(self).rows@, notebook_number),
            final(self).rows@ == rows_kept(old(self).rows@, notebook_number),
            final(self).wf(),
    {
        let ghost old_rows = self.rows@;
        let mut kept: Vec<ChainTransferRow> = Vec::new();
        let mut taken: Vec<ChainTransfer> = Vec::new();
        let mut i: usize = 0;
        while i < self.rows.len()
            invariant
                i <= self.rows@.len(),
                self.rows@ == old_rows,
                kept@ == rows_kept(old_rows.subrange(0, i as int), notebook_number),
                taken@ == rows_taken(old_rows.subrange(0, i as int), notebook_number),
            decreases self.rows@.len() - i,
        {
            assert(old_rows.subrange(0, i as int + 1).drop_last() =~= old_rows.subrange(0, i as int));
            let row = self.rows[i];
            if row.included_in_notebook_number == Some(notebook_number) {
                if row.to_localchain {
                    taken.push(ChainTransfer::ToLocalchain { account_id: row.account_id, account_nonce: row.account_nonce });
                } else {
                    taken.push(ChainTransfer::ToMainchain { account_id: row.account_id, amount: row.amount });
                }
            } else {
                kept.push(row);
            }
            i = i + 1;
        }
        assert(old_rows.subrange(0, i as int) =~= old_rows);
        proof {
            lemma_kept_subset(old_rows, notebook_number);
        }
        self.rows = kept;
        taken
    }
}

/// Every kept row is one of the rows before the take, and kept rows keep their
/// relative order, so uniqueness of deposits carries over.
proof fn lemma_kept_subset(rows: Seq<ChainTransferRow>, nb: NotebookNumber)
    requires
        deposits_unique(rows),
    ensures
        deposits_unique(rows_kept(rows, nb)),
        forall|i: int| 0 <= i < rows_kept(rows, nb).len() ==> rows.contains(#[trigger] rows_kept(rows, nb)[i]),
    decreases rows.len(),
{
    if rows.len() > 0 {
        let pre = rows.drop_last();
        assert(deposits_unique(pre)) by {
            assert forall|i: int, j: int|
                0 <= i < pre.len() && 0 <= j < pre.len() && #[trigger] pre[i].to_localchain
                    && #[trigger] pre[j].to_localchain && pre[i].account_id@ == pre[j].account_id@
                    && pre[i].account_nonce == pre[j].account_nonce implies i == j by {
                assert(rows[i].to_localchain && rows[j].to_localchain);
            }
        }
        lemma_kept_subset(pre, nb);
        let kp = rows_kept(pre, nb);
        assert forall|i: int| 0 <= i < kp.len() implies rows.contains(#[trigger] kp[i]) by {
            let w = choose|w: int| 0 <= w < pre.len() && pre[w] == kp[i];
            assert(rows[w] == kp[i]);
        }
        if rows.last().included_in_notebook_number != Some(nb) {
            let k = rows_kept(rows, nb);
            assert(k == kp.push(rows.last()));
            assert forall|i: int| 0 <= i < k.len() implies rows.contains(#[trigger] k[i]) by {
                if i == k.len() - 1 {
                    assert(rows[rows.len() - 1] == k[i]);
                } else {
                    assert(k[i] == kp[i]);
                }
            }
            assert forall|i: int, j: int|
                0 <= i < k.len() && 0 <= j < k.len() && #[trigger] k[i].to_localchain && #[trigger] k[j].to_localchain
                    && k[i].account_id@ == k[j].account_id@ && k[i].account_nonce == k[j].account_nonce implies i == j by {
                let last = k.len() - 1;
                if i == last && j != last {
                    assert(k[j] == kp[j]);
                    let w = choose|w: int| 0 <= w < pre.len() && pre[w] == kp[j];
                    assert(rows[w].to_localchain && rows[rows.len() - 1].to_localchain);
                } else if j == last && i != last {
                    assert(k[i] == kp[i]);
                    let w = choose|w: int| 0 <= w < pre.len() && pre[w] == kp[i];
                    assert(rows[w].to_localchain && rows[rows.len() - 1].to_localchain);
                } else if i != last && j != last {
                    assert(k[i] == kp[i] && k[j] == kp[j]);
                }
            }
        }
    }
}

} // verus!
