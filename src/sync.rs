//! The balance sync engine's decisions: the lifecycle of each local balance
//! change, one reconciliation cycle, and what a full sync reports.
use vstd::prelude::*;
use crate::builder::{BuilderError, LocalAccountTip, NotarizationBuilder, NOTARIZATION_MAX_BALANCE_CHANGES, is_hold, is_settle, locked, note_appended};
use crate::bytes::same_bytes32;
use crate::crypto::blake2_256_of;
use crate::model::{AccountType, BalanceTip, Note, NoteType, NotaryId, NotebookNumber, Tick, changes_view, tip_bytes};

verus! {

/// Where a locally signed balance change stands.
#[derive(Clone, Copy, Debug, PartialEq, Eq, Structural)]
pub enum BalanceChangeStatus {
    WaitingForSendClaim,
    Notarized,
    NotebookPublished,
    Finalized,
}

/// The wallet's durable record of one balance change.
#[derive(Clone, Copy, Debug, PartialEq, Eq, Structural)]
pub struct BalanceChangeRow {
    pub id: u64,
    pub account_id: u64,
    pub change_number: u32,
    pub balance: u128,
    pub notary_id: NotaryId,
    pub status: BalanceChangeStatus,
    pub notarization_id: Option<u64>,
    pub notebook_number: Option<NotebookNumber>,
    pub finalized_block_number: Option<u32>,
}

/// What the engine asks of the outside next.
#[derive(Clone, Copy, Debug, PartialEq, Eq, Structural)]
pub enum SyncAction {
    Stop,
    RequestNotebookProof,
    RequestNotaryTip,
    RequestFinalization,
}

/// What the outside answered.
#[derive(Clone, Copy, Debug, PartialEq, Eq, Structural)]
pub enum SyncEvent {
    /// A cycle starts; `superseded` tells whether a newer local change replaced this one.
    Begin { superseded: bool },
    /// The notary served the proof of the change in this notebook.
    ProofSynced { notebook_number: NotebookNumber },
    /// The notary's tip for the account is this change, committed in this notebook.
    TipMatched { notebook_number: NotebookNumber, notarization_id: u64 },
    /// The settlement chain holds the notebook's account-change root.
    RootAvailable { finalized_block_number: u32 },
    /// Not yet: the notebook is not finalized or the root is not on chain yet.
    NotYetAvailable,
    /// Any other error; logged and retried on a later cycle.
    Failed,
}

/// The request that moves a change on from `s`.
pub open spec fn request_for(s: BalanceChangeStatus) -> SyncAction {
    match s {
        BalanceChangeStatus::WaitingForSendClaim => SyncAction::RequestNotaryTip,
        BalanceChangeStatus::Notarized => SyncAction::RequestNotebookProof,
        BalanceChangeStatus::NotebookPublished => SyncAction::RequestFinalization,
        BalanceChangeStatus::Finalized => SyncAction::Stop,
    }
}

/// One transition: the change moves forward only on the answer that its
/// state waits for; anything else leaves it as it is and ends the cycle.
pub open spec fn step_spec(row: BalanceChangeRow, ev: SyncEvent) -> (BalanceChangeRow, SyncAction) {
    match ev {
        SyncEvent::Begin { superseded } => {
            if superseded {
                (row, SyncAction::Stop)
            } else {
                (row, request_for(row.status))
            }
        },
        SyncEvent::ProofSynced { notebook_number } => {
            if row.status == BalanceChangeStatus::Notarized {
                (
                    BalanceChangeRow {
                        status: BalanceChangeStatus::NotebookPublished,
                        notebook_number: Some(notebook_number),
                        ..row
                    },
                    SyncAction::RequestFinalization,
                )
            } else {
                (row, SyncAction::Stop)
            }
        },
        SyncEvent::TipMatched { notebook_number, notarization_id } => {
            if row.status == BalanceChangeStatus::WaitingForSendClaim {
                (
                    BalanceChangeRow {
                        status: BalanceChangeStatus::NotebookPublished,
                        notebook_number: Some(notebook_number),
                        notarization_id: Some(notarization_id),
                        ..row
                    },
                    SyncAction::RequestFinalization,
                )
            } else {
                (row, SyncAction::Stop)
            }
        },
        SyncEvent::RootAvailable { finalized_block_number } => {
            if row.status == BalanceChangeStatus::NotebookPublished {
                (
                    BalanceChangeRow {
                        status: BalanceChangeStatus::Finalized,
                        finalized_block_number: Some(finalized_block_number),
                        ..row
                    },
                    SyncAction::Stop,
                )
            } else {
                (row, SyncAction::Stop)
            }
        },
        SyncEvent::NotYetAvailable => (row, SyncAction::Stop),
        SyncEvent::Failed => (row, SyncAction::Stop),
    }
}

/// Advances one balance change by one answer.
pub fn step(row: &BalanceChangeRow, ev: SyncEvent) -> (r: (BalanceChangeRow, SyncAction))
    ensures
        r == step_spec(*row, ev),
{
    match ev {
        SyncEvent::Begin { superseded } => {
            if superseded {
                return (*row, SyncAction::Stop);
            }
            let a = match row.status {
                BalanceChangeStatus::WaitingForSendClaim => SyncAction::RequestNotaryTip,
                BalanceChangeStatus::Notarized => SyncAction::RequestNotebookProof,
                BalanceChangeStatus::NotebookPublished => SyncAction::RequestFinalization,
                BalanceChangeStatus::Finalized => SyncAction::Stop,
            };
            (*row, a)
        },
        SyncEvent::ProofSynced { notebook_number } => {
            if row.status == BalanceChangeStatus::Notarized {
                (
                    BalanceChangeRow {
                        status: BalanceChangeStatus::NotebookPublished,
                        notebook_number: Some(notebook_number),
                        ..*row
                    },
                    SyncAction::RequestFinalization,
                )
            } else {
                (*row, SyncAction::Stop)
            }
        },
        SyncEvent::TipMatched { notebook_number, notarization_id } => {
            if row.status == BalanceChangeStatus::WaitingForSendClaim {
                (
                    BalanceChangeRow {
                        status: BalanceChangeStatus::NotebookPublished,
                        notebook_number: Some(notebook_number),
                        notarization_id: Some(notarization_id),
                        ..*row
                    },
                    SyncAction::RequestFinalization,
                )
            } else {
                (*row, SyncAction::Stop)
            }
        },
        SyncEvent::RootAvailable { finalized_block_number } => {
            if row.status == BalanceChangeStatus::NotebookPublished {
                (
                    BalanceChangeRow {
                        status: BalanceChangeStatus::Finalized,
                        finalized_block_number: Some(finalized_block_number),
                        ..*row
                    },
                    SyncAction::Stop,
                )
            } else {
                (*row, SyncAction::Stop)
            }
        },
        SyncEvent::NotYetAvailable => (*row, SyncAction::Stop),
        SyncEvent::Failed => (*row, SyncAction::Stop),
    }
}

/// The answer to a proof request.
#[derive(Clone, Copy, Debug, PartialEq, Eq, Structural)]
pub enum ProofAnswer {
    Ready { notebook_number: NotebookNumber },
    NotFinalized,
    Failed,
}

/// The answer to a tip request.
#[derive(Clone, Copy, Debug, PartialEq, Eq, Structural)]
pub enum TipAnswer {
    Matched { notebook_number: NotebookNumber, notarization_id: u64 },
    Mismatch,
    Failed,
}

/// The answer to a finalization request.
#[derive(Clone, Copy, Debug, PartialEq, Eq, Structural)]
pub enum RootAnswer {
    Available { finalized_block_number: u32 },
    NotYet,
    Failed,
}

/// What the notary, the settlement chain and the local store would answer
/// for one balance change at this moment.
#[derive(Clone, Copy, Debug, PartialEq, Eq, Structural)]
pub struct NetworkView {
    pub superseded: bool,
    pub proof: ProofAnswer,
    pub tip: TipAnswer,
    pub root: RootAnswer,
}

pub open spec fn answer_spec(net: NetworkView, a: SyncAction) -> SyncEvent {
    match a {
        SyncAction::RequestNotebookProof => match net.proof {
            ProofAnswer::Ready { notebook_number } => SyncEvent::ProofSynced { notebook_number },
            ProofAnswer::NotFinalized => SyncEvent::NotYetAvailable,
            ProofAnswer::Failed => SyncEvent::Failed,
        },
        SyncAction::RequestNotaryTip => match net.tip {
            TipAnswer::Matched { notebook_number, notarization_id } => SyncEvent::TipMatched {
                notebook_number,
                notarization_id,
            },
            TipAnswer::Mismatch => SyncEvent::NotYetAvailable,
            TipAnswer::Failed => SyncEvent::Failed,
        },
        SyncAction::RequestFinalization => match net.root {
            RootAnswer::Available { finalized_block_number } => SyncEvent::RootAvailable { finalized_block_number },
            RootAnswer::NotYet => SyncEvent::NotYetAvailable,
            RootAnswer::Failed => SyncEvent::Failed,
        },
        SyncAction::Stop => SyncEvent::NotYetAvailable,
    }
}

impl NetworkView {
    pub fn answer(&self, a: SyncAction) -> (r: SyncEvent)
        ensures
            r == answer_spec(*self, a),
    {
        match a {
            SyncAction::RequestNotebookProof => match self.proof {
                ProofAnswer::Ready { notebook_number } => SyncEvent::ProofSynced { notebook_number },
                ProofAnswer::NotFinalized => SyncEvent::NotYetAvailable,
                ProofAnswer::Failed => SyncEvent::Failed,
            },
            SyncAction::RequestNotaryTip => match self.tip {
                TipAnswer::Matched { notebook_number, notarization_id } => SyncEvent::TipMatched {
                    notebook_number,
                    notarization_id,
                },
                TipAnswer::Mismatch => SyncEvent::NotYetAvailable,
                TipAnswer::Failed => SyncEvent::Failed,
            },
            SyncAction::RequestFinalization => match self.root {
                RootAnswer::Available { finalized_block_number } => SyncEvent::RootAvailable { finalized_block_number },
                RootAnswer::NotYet => SyncEvent::NotYetAvailable,
                RootAnswer::Failed => SyncEvent::Failed,
            },
            SyncAction::Stop => SyncEvent::NotYetAvailable,
        }
    }
}

/// Runs the machine from `row` and pending action `a` for at most `fuel` answers.
pub open spec fn run(row: BalanceChangeRow, a: SyncAction, net: NetworkView, fuel: nat) -> BalanceChangeRow
    decreases fuel,
{
    if fuel == 0 || a == SyncAction::Stop {
        row
    } else {
        let next = step_spec(row, answer_spec(net, a));
        run(next.0, next.1, net, (fuel - 1) as nat)
    }
}

/// One cycle for one change: start, then follow the answers until the
/// machine stops. Three answers are enough to reach the end.
pub open spec fn sync_row_spec(row: BalanceChangeRow, net: NetworkView) -> BalanceChangeRow {
    let first = step_spec(row, SyncEvent::Begin { superseded: net.superseded });
    run(first.0, first.1, net, 3)
}

/// One reconciliation cycle of one balance change against a snapshot of answers.
pub fn sync_balance_change(row: &BalanceChangeRow, net: &NetworkView) -> (r: BalanceChangeRow)
    ensures
        r == sync_row_spec(*row, *net),
{
    let (mut cur, mut a) = step(row, SyncEvent::Begin { superseded: net.superseded });
    let ghost first = (cur, a);
    let mut fuel: u32 = 3;
    while fuel > 0 && a != SyncAction::Stop
        invariant
            fuel <= 3,
            run(cur, a, *net, fuel as nat) == run(first.0, first.1, *net, 3),
        decreases fuel,
    {
        let ev = net.answer(a);
        let (c2, a2) = step(&cur, ev);
        cur = c2;
        a = a2;
        fuel = fuel - 1;
    }
    cur
}

/// The unsettled-balance phase: one cycle for each change.
pub fn sync_unsettled_balances(rows: &Vec<BalanceChangeRow>, nets: &Vec<NetworkView>) -> (r: Vec<BalanceChangeRow>)
    requires
        rows@.len() == nets@.len(),
    ensures
        r@.len() == rows@.len(),
        forall|i: int| 0 <= i < rows@.len() ==> #[trigger] r@[i] == sync_row_spec(rows@[i], nets@[i]),
{
    let mut out: Vec<BalanceChangeRow> = Vec::new();
    let mut i: usize = 0;
    while i < rows.len()
        invariant
            i <= rows@.len(),
            rows@.len() == nets@.len(),
            out@.len() == i,
            forall|k: int| 0 <= k < i ==> #[trigger] out@[k] == sync_row_spec(rows@[k], nets@[k]),
        decreases rows@.len() - i,
    {
        let r = sync_balance_change(&rows[i], &nets[i]);
        out.push(r);
        i = i + 1;
    }
    out
}

/// Running the cycle again on its own result, with the same answers,
/// changes nothing.
pub proof fn lemma_sync_row_idempotent(row: BalanceChangeRow, net: NetworkView)
    ensures
        sync_row_spec(sync_row_spec(row, net), net) == sync_row_spec(row, net),
{
    reveal_with_fuel(run, 4);
}

/// The unsettled-balance phase run twice in a row with no new answers leaves
/// the rows as the first run did.
pub proof fn lemma_sync_unsettled_idempotent(rows: Seq<BalanceChangeRow>, nets: Seq<NetworkView>, once: Seq<BalanceChangeRow>, twice: Seq<BalanceChangeRow>)
    requires
        rows.len() == nets.len(),
        once.len() == rows.len(),
        twice.len() == rows.len(),
        forall|i: int| 0 <= i < rows.len() ==> #[trigger] once[i] == sync_row_spec(rows[i], nets[i]),
        forall|i: int| 0 <= i < rows.len() ==> #[trigger] twice[i] == sync_row_spec(once[i], nets[i]),
    ensures
        twice == once,
{
    assert forall|i: int| 0 <= i < rows.len() implies twice[i] == once[i] by {
        lemma_sync_row_idempotent(rows[i], nets[i]);
    }
    assert(twice =~= once);
}

/// The receipt of a submitted notarization.
#[derive(Clone, Copy, Debug, PartialEq, Eq, Structural)]
pub struct NotarizationTracker {
    pub notarization_id: u64,
    pub notebook_number: NotebookNumber,
    pub tick: Tick,
    pub notarized_balance_changes: u32,
    pub notarized_votes: u32,
}

/// How tax is turned into votes, when it is.
#[derive(Clone, Debug)]
pub struct ChannelHoldCloseOptions {
    pub votes_address: Option<String>,
    /// What's the minimum amount of tax to wait for before voting on blocks.
    pub minimum_vote_amount: Option<i64>,
}

/// Whether a tax balance is spent on votes: it must reach the configured
/// minimum (none, or a negative one, is zero) and the block's vote minimum.
pub fn should_vote_with_tax(available: u128, minimum_vote_amount: Option<i64>, block_vote_minimum: u128) -> (r: bool)
    ensures
        r == (match minimum_vote_amount {
            Some(m) => m <= 0 || available >= m as int,
            None => true,
        } && available >= block_vote_minimum),
{
    let configured = match minimum_vote_amount {
        Some(m) => m <= 0 || available >= m as u128,
        None => true,
    };
    configured && available >= block_vote_minimum
}

/// A local account as the consolidation phase sees it.
#[derive(Clone, Copy, Debug, PartialEq, Eq, Structural)]
pub struct JumpAccount {
    pub local_account_id: u64,
    pub account_type: AccountType,
    pub balance: u128,
}

pub open spec fn is_swept(a: JumpAccount, default_deposit: u64, default_tax: u64) -> bool {
    a.balance > 0 && a.local_account_id != match a.account_type {
        AccountType::Deposit => default_deposit,
        AccountType::Tax => default_tax,
    }
}

/// The accounts the consolidation phase folds into the default account of
/// their type: those with a balance that are not that default account.
pub fn consolidation_candidates(accounts: &Vec<JumpAccount>, default_deposit: u64, default_tax: u64) -> (r: Vec<JumpAccount>)
    ensures
        r@ == accounts@.filter(|a: JumpAccount| is_swept(a, default_deposit, default_tax)),
{
    let mut out: Vec<JumpAccount> = Vec::new();
    let mut i: usize = 0;
    while i < accounts.len()
        invariant
            i <= accounts@.len(),
            out@ == accounts@.subrange(0, i as int).filter(|a: JumpAccount| is_swept(a, default_deposit, default_tax)),
        decreases accounts@.len() - i,
    {
        let a = accounts[i];
        let default_id = match a.account_type {
            AccountType::Deposit => default_deposit,
            AccountType::Tax => default_tax,
        };
        assert(accounts@.subrange(0, i as int + 1).drop_last() =~= accounts@.subrange(0, i as int));
        proof {
            reveal(Seq::filter);
        }
        if a.balance > 0 && a.local_account_id != default_id {
            out.push(a);
        }
        i = i + 1;
    }
    assert(accounts@.subrange(0, i as int) =~= accounts@);
    out
}

/// What a full sync did, phase by phase.
pub struct BalanceSyncResult {
    pub balance_changes: Vec<BalanceChangeRow>,
    pub mainchain_transfers: Vec<NotarizationTracker>,
    pub channel_hold_notarizations: Vec<NotarizationBuilder>,
    pub jump_account_consolidations: Vec<NotarizationTracker>,
    pub block_votes: Vec<NotarizationTracker>,
}

fn copy_rows(v: &Vec<BalanceChangeRow>) -> (r: Vec<BalanceChangeRow>)
    ensures
        r@ == v@,
{
    let mut out: Vec<BalanceChangeRow> = Vec::new();
    let mut i: usize = 0;
    while i < v.len()
        invariant
            i <= v@.len(),
            out@ =~= v@.subrange(0, i as int),
        decreases v@.len() - i,
    {
        out.push(v[i]);
        i = i + 1;
    }
    assert(v@.subrange(0, i as int) =~= v@);
    out
}

fn copy_trackers(v: &Vec<NotarizationTracker>) -> (r: Vec<NotarizationTracker>)
    ensures
        r@ == v@,
{
    let mut out: Vec<NotarizationTracker> = Vec::new();
    let mut i: usize = 0;
    while i < v.len()
        invariant
            i <= v@.len(),
            out@ =~= v@.subrange(0, i as int),
        decreases v@.len() - i,
    {
        out.push(v[i]);
        i = i + 1;
    }
    assert(v@.subrange(0, i as int) =~= v@);
    out
}

impl BalanceSyncResult {
    pub fn balance_changes(&self) -> (r: Vec<BalanceChangeRow>)
        ensures
            r@ == self.balance_changes@,
    {
        copy_rows(&self.balance_changes)
    }

    pub fn channel_hold_notarizations(&self) -> (r: Vec<NotarizationBuilder>)
        ensures
            r@.len() == self.channel_hold_notarizations@.len(),
            forall|i: int| 0 <= i < r@.len() ==> {
                &&& changes_view((#[trigger] r@[i]).balance_changes@) == changes_view(self.channel_hold_notarizations@[i].balance_changes@)
                &&& r@[i].start_balances@ == self.channel_hold_notarizations@[i].start_balances@
                &&& r@[i].block_votes@ == self.channel_hold_notarizations@[i].block_votes@
                &&& r@[i].is_finalized == self.channel_hold_notarizations@[i].is_finalized
            },
    {
        let mut out: Vec<NotarizationBuilder> = Vec::new();
        let mut i: usize = 0;
        while i < self.channel_hold_notarizations.len()
            invariant
                i <= self.channel_hold_notarizations@.len(),
                out@.len() == i,
                forall|k: int| 0 <= k < i ==> {
                    &&& changes_view((#[trigger] out@[k]).balance_changes@) == changes_view(self.channel_hold_notarizations@[k].balance_changes@)
                    &&& out@[k].start_balances@ == self.channel_hold_notarizations@[k].start_balances@
                    &&& out@[k].block_votes@ == self.channel_hold_notarizations@[k].block_votes@
                    &&& out@[k].is_finalized == self.channel_hold_notarizations@[k].is_finalized
                },
            decreases self.channel_hold_notarizations@.len() - i,
        {
            let b = self.channel_hold_notarizations[i].duplicate();
            out.push(b);
            i = i + 1;
        }
        out
    }

    pub fn mainchain_transfers(&self) -> (r: Vec<NotarizationTracker>)
        ensures
            r@ == self.mainchain_transfers@,
    {
        copy_trackers(&self.mainchain_transfers)
    }

    pub fn jump_account_consolidations(&self) -> (r: Vec<NotarizationTracker>)
        ensures
            r@ == self.jump_account_consolidations@,
    {
        copy_trackers(&self.jump_account_consolidations)
    }

    pub fn block_votes(&self) -> (r: Vec<NotarizationTracker>)
        ensures
            r@ == self.block_votes@,
    {
        copy_trackers(&self.block_votes)
    }
}

/// The guard that keeps syncs single-flight: a sync runs only while it holds
/// the guard, and a second one is turned away.
pub struct SyncGuard {
    pub active: bool,
}

impl SyncGuard {
    pub fn new() -> (r: SyncGuard)
        ensures
            !r.active,
    {
        SyncGuard { active: false }
    }

    /// Takes the guard; false when a sync is already running.
    pub fn try_begin(&mut self) -> (r: bool)
        ensures
            r == !old(self).active,
            final(self).active,
    {
        if self.active {
            false
        } else {
            self.active = true;
            true
        }
    }

    /// Gives the guard back, whatever the sync's outcome.
    pub fn end(&mut self)
        ensures
            !final(self).active,
    {
        self.active = false;
    }
}

/// A finalized settlement-chain transfer waiting to be claimed.
#[derive(Clone, Copy, Debug, PartialEq, Eq, Structural)]
pub struct LocalchainTransfer {
    pub amount: u128,
    pub transfer_id: u32,
    pub notary_id: NotaryId,
    pub expiration_tick: Tick,
}

pub open spec fn transfers_total(ts: Seq<LocalchainTransfer>) -> int
    decreases ts.len(),
{
    if ts.len() == 0 {
        0
    } else {
        transfers_total(ts.drop_last()) + ts.last().amount
    }
}

/// The claim note of each transfer, in order.
pub open spec fn claim_notes(ts: Seq<LocalchainTransfer>) -> Seq<Note> {
    ts.map_values(
        |t: LocalchainTransfer|
            Note { milligons: t.amount, note_type: NoteType::ClaimFromMainchain { account_nonce: t.transfer_id } },
    )
}

proof fn lemma_total_grows(ts: Seq<LocalchainTransfer>, i: int)
    requires
        0 <= i <= ts.len(),
    ensures
        transfers_total(ts.subrange(0, i)) <= transfers_total(ts),
    decreases ts.len() - i,
{
    if i < ts.len() {
        lemma_total_grows(ts, i + 1);
        assert(ts.subrange(0, i + 1).drop_last() =~= ts.subrange(0, i));
    } else {
        assert(ts.subrange(0, i) =~= ts);
    }
}

/// Claims every transfer into the account at `index` of the batch: all of
/// them, in order, when the account is not locked and the total fits;
/// otherwise none.
pub fn claim_mainchain_transfers(
    builder: &mut NotarizationBuilder,
    index: usize,
    transfers: &Vec<LocalchainTransfer>,
) -> (r: Result<(), BuilderError>)
    requires
        old(builder).wf(),
        index < old(builder).balance_changes@.len(),
    ensures
        final(builder).wf(),
        final(builder).block_votes == old(builder).block_votes,
        r is Ok <==> !locked(old(builder).balance_changes@[index as int])
            && old(builder).balance_changes@[index as int].balance + transfers_total(transfers@) <= u128::MAX,
        r is Err ==> final(builder).balance_changes@ == old(builder).balance_changes@,
        r is Ok ==> {
            let a = final(builder).balance_changes@[index as int];
            let b = old(builder).balance_changes@[index as int];
            &&& final(builder).balance_changes@.len() == old(builder).balance_changes@.len()
            &&& forall|k: int| 0 <= k < old(builder).balance_changes@.len() && k != index
                ==> #[trigger] final(builder).balance_changes@[k] == old(builder).balance_changes@[k]
            &&& a.account_id == b.account_id && a.account_type == b.account_type && a.change_number == b.change_number
            &&& a.previous_balance_proof == b.previous_balance_proof && a.channel_hold_note == b.channel_hold_note
            &&& a.balance == b.balance + transfers_total(transfers@)
            &&& a.notes@ == b.notes@ + claim_notes(transfers@)
        },
{
    if NotarizationBuilder::is_locked_change(&builder.balance_changes[index]) {
        return Err(BuilderError::AccountLocked);
    }
    let mut total: u128 = 0;
    let mut i: usize = 0;
    while i < transfers.len()
        invariant
            i <= transfers@.len(),
            total as int == transfers_total(transfers@.subrange(0, i as int)),
            builder.wf(),
            builder.balance_changes@ == old(builder).balance_changes@,
            builder.block_votes == old(builder).block_votes,
        decreases transfers@.len() - i,
    {
        assert(transfers@.subrange(0, i as int + 1).drop_last() =~= transfers@.subrange(0, i as int));
        if total > u128::MAX - transfers[i].amount {
            proof {
                lemma_total_grows(transfers@, i as int + 1);
            }
            return Err(BuilderError::BalanceOverflow);
        }
        total = total + transfers[i].amount;
        i = i + 1;
    }
    assert(transfers@.subrange(0, i as int) =~= transfers@);
    if builder.balance_changes[index].balance > u128::MAX - total {
        return Err(BuilderError::BalanceOverflow);
    }
    let ghost b = builder.balance_changes@[index as int];
    let ghost old_changes = builder.balance_changes@;
    let mut j: usize = 0;
    while j < transfers.len()
        invariant
            j <= transfers@.len(),
            builder.wf(),
            builder.block_votes == old(builder).block_votes,
            old_changes == old(builder).balance_changes@,
            b == old_changes[index as int],
            index < builder.balance_changes@.len(),
            builder.balance_changes@.len() == old_changes.len(),
            forall|k: int| 0 <= k < old_changes.len() && k != index ==> #[trigger] builder.balance_changes@[k] == old_changes[k],
            !locked(b),
            b.balance + transfers_total(transfers@) <= u128::MAX,
            ({
                let a = builder.balance_changes@[index as int];
                &&& a.account_id == b.account_id && a.account_type == b.account_type && a.change_number == b.change_number
                &&& a.previous_balance_proof == b.previous_balance_proof && a.channel_hold_note == b.channel_hold_note
                &&& a.balance == b.balance + transfers_total(transfers@.subrange(0, j as int))
                &&& a.notes@ == b.notes@ + claim_notes(transfers@.subrange(0, j as int))
            }),
        decreases transfers@.len() - j,
    {
        let ghost pre = transfers@.subrange(0, j as int);
        let ghost next = transfers@.subrange(0, j as int + 1);
        assert(next.drop_last() =~= pre);
        proof {
            lemma_total_grows(transfers@, j as int + 1);
        }
        let ghost a0 = builder.balance_changes@[index as int];
        assert(!locked(a0)) by {
            assert forall|k: int| 0 <= k < a0.notes@.len() implies !is_hold(#[trigger] a0.notes@[k]) by {
                if k < b.notes@.len() {
                    assert(a0.notes@[k] == b.notes@[k]);
                } else {
                    assert(a0.notes@[k] == claim_notes(pre)[k - b.notes@.len()]);
                }
            }
            if b.channel_hold_note is Some {
                let w = choose|w: int| 0 <= w < b.notes@.len() && is_settle(#[trigger] b.notes@[w]);
                assert(a0.notes@[w] == b.notes@[w]);
                assert(is_settle(a0.notes@[w]));
            }
        }
        let t = transfers[j];
        let res = builder.claim_from_mainchain(index, t.amount, t.transfer_id);
        assert(res is Ok);
        proof {
            let a = builder.balance_changes@[index as int];
            assert(claim_notes(next) =~= claim_notes(pre).push(
                Note { milligons: t.amount, note_type: NoteType::ClaimFromMainchain { account_nonce: t.transfer_id } },
            ));
            assert(a.notes@ =~= b.notes@ + claim_notes(next));
        }
        j = j + 1;
    }
    assert(transfers@.subrange(0, j as int) =~= transfers@);
    Ok(())
}

/// Whether the tip the notary reports for an account is the tip that this
/// local change would commit.
pub fn notary_tip_matches(notary_tip: &[u8; 32], expected: &BalanceTip) -> (r: bool)
    ensures
        r == (notary_tip@ == blake2_256_of(tip_bytes(*expected))),
{
    let committed = expected.tip();
    same_bytes32(notary_tip, &committed)
}

/// Whether a tax balance becomes a vote, and with which power and index.
/// Only tax accounts vote; the balance must reach the configured minimum
/// (none, or a negative one, is zero) and the block's vote minimum, which is
/// `None` when no block can be voted for. The index counts the votes of this
/// tick: one past the last one when the counter is at `now`, else zero.
pub fn plan_tax_vote(
    account_type: AccountType,
    tax: u128,
    minimum_vote_amount: Option<i64>,
    block_vote_minimum: Option<u128>,
    counter: (Tick, u32),
    now: Tick,
) -> (r: Option<(u128, u32)>)
    requires
        counter.0 == now ==> counter.1 < u32::MAX,
    ensures
        r is Some <==> (account_type == AccountType::Tax && block_vote_minimum is Some && match minimum_vote_amount {
            Some(m) => m <= 0 || tax >= m as int,
            None => true,
        } && tax >= block_vote_minimum->Some_0),
        r is Some ==> r->Some_0.0 == tax && r->Some_0.1 == if counter.0 == now {
            (counter.1 + 1) as u32
        } else {
            0u32
        },
{
    if account_type == AccountType::Deposit {
        return None;
    }
    let block_minimum = match block_vote_minimum {
        None => {
            return None;
        },
        Some(m) => m,
    };
    if !should_vote_with_tax(tax, minimum_vote_amount, block_minimum) {
        return None;
    }
    let index = if counter.0 == now {
        counter.1 + 1
    } else {
        0
    };
    Some((tax, index))
}

/// One consolidation step: loads the jump account, sends `amount` from it to
/// the default account already loaded at `claim_index`, and claims it there.
/// Either all of it happens or nothing does. The result says whether the
/// batch is now full and must be submitted before the next step.
pub fn consolidate_account(
    builder: &mut NotarizationBuilder,
    jump: LocalAccountTip,
    claim_index: usize,
    amount: u128,
) -> (r: Result<bool, BuilderError>)
    requires
        old(builder).wf(),
        claim_index < old(builder).balance_changes@.len(),
    ensures
        final(builder).wf(),
        final(builder).block_votes == old(builder).block_votes,
        r is Ok <==> ({
            let claim = old(builder).balance_changes@[claim_index as int];
            &&& !(exists|k: int|
                0 <= k < old(builder).balance_changes@.len() && #[trigger] old(builder).balance_changes@[k].account_id@
                    == jump.account_id@ && old(builder).balance_changes@[k].account_type == jump.account_type)
            &&& old(builder).balance_changes@.len() < NOTARIZATION_MAX_BALANCE_CHANGES
            &&& jump.change_number < u32::MAX
            &&& jump.channel_hold_note is None
            &&& amount <= jump.balance
            &&& !locked(claim)
            &&& claim.balance + amount <= u128::MAX
        }),
        r is Err ==> final(builder).balance_changes@ == old(builder).balance_changes@,
        r is Ok ==> {
            let claim = old(builder).balance_changes@[claim_index as int];
            let n = old(builder).balance_changes@.len();
            let sent = final(builder).balance_changes@[n as int];
            &&& final(builder).balance_changes@.len() == n + 1
            &&& r->Ok_0 == (n + 1 >= NOTARIZATION_MAX_BALANCE_CHANGES)
            &&& note_appended(
                old(builder).balance_changes@,
                final(builder).balance_changes@.drop_last(),
                claim_index as int,
                Note { milligons: amount, note_type: NoteType::Claim },
                claim.balance + amount,
            )
            &&& sent.account_id == jump.account_id && sent.account_type == jump.account_type
            &&& sent.change_number == jump.change_number + 1
            &&& sent.balance == jump.balance - amount
            &&& sent.notes@ == seq![Note { milligons: amount, note_type: NoteType::Send { to: Some(claim.account_id) } }]
        },
{
    let claim_id = builder.balance_changes[claim_index].account_id;
    if builder.find_account(&jump.account_id, jump.account_type).is_some() {
        return Err(BuilderError::AccountAlreadyLoaded);
    }
    if builder.balance_changes.len() >= NOTARIZATION_MAX_BALANCE_CHANGES as usize {
        return Err(BuilderError::MaxBalanceChangesReached);
    }
    if jump.change_number == u32::MAX {
        return Err(BuilderError::ChangeNumberOverflow);
    }
    if jump.channel_hold_note.is_some() {
        return Err(BuilderError::AccountLocked);
    }
    if amount > jump.balance {
        return Err(BuilderError::InsufficientFunds);
    }
    if NotarizationBuilder::is_locked_change(&builder.balance_changes[claim_index]) {
        return Err(BuilderError::AccountLocked);
    }
    if builder.balance_changes[claim_index].balance > u128::MAX - amount {
        return Err(BuilderError::BalanceOverflow);
    }
    let ghost old_changes = builder.balance_changes@;
    let jump_balance = jump.balance;
    let jump_change = jump.change_number;
    let jump_id = jump.account_id;
    let jump_type = jump.account_type;
    let index = match builder.load_account(jump) {
        Ok(i) => i,
        Err(e) => {
            return Err(e);
        },
    };
    let ghost loaded = builder.balance_changes@;
    assert(!locked(loaded[index as int])) by {
        assert(loaded[index as int].notes@.len() == 0);
    }
    let sent = builder.send(index, amount, Some(claim_id));
    assert(sent is Ok);
    let ghost after_send = builder.balance_changes@;
    assert(after_send[claim_index as int] == old_changes[claim_index as int]) by {
        assert(loaded.drop_last() == old_changes);
        assert(loaded[claim_index as int] == old_changes[claim_index as int]);
    }
    let claimed = builder.claim(claim_index, amount);
    assert(claimed is Ok);
    proof {
        let fin = builder.balance_changes@;
        assert(fin.drop_last().len() == old_changes.len());
        assert forall|k: int| 0 <= k < old_changes.len() && k != claim_index implies #[trigger] fin.drop_last()[k] == old_changes[k] by {
            assert(fin[k] == after_send[k]);
            assert(after_send[k] == loaded[k]);
            assert(loaded.drop_last()[k] == loaded[k]);
        }
        assert(fin[index as int] == after_send[index as int]);
        assert(after_send[index as int].notes@ =~= seq![Note { milligons: amount, note_type: NoteType::Send { to: Some(claim_id) } }]);
    }
    Ok(builder.balance_changes.len() >= NOTARIZATION_MAX_BALANCE_CHANGES as usize)
}

} // verus!
