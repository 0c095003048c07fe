//! The channel-hold protocol as the wallet drives it: what the payer and
//! the payee do with an open hold, and how a rejected claim is retried.
use vstd::prelude::*;
use crate::audit::CHANNEL_HOLD_EXPIRATION_TICKS;
use crate::builder::NotarizationBuilder;
use crate::model::{NotaryId, NotebookNumber, Tick};

verus! {

/// Ticks after expiration during which the payee may still claim.
pub const CHANNEL_HOLD_CLAWBACK_TICKS: u32 = 15;

/// Attempts made to submit a batch of claims.
pub const CLAIM_RETRY_ATTEMPTS: u32 = 3;

/// First delay between claim attempts, in seconds.
pub const CLAIM_RETRY_BASE_SECS: u64 = 2;

/// Longest delay between claim attempts, in seconds.
pub const CLAIM_RETRY_CAP_SECS: u64 = 30;

/// An open hold, from the wallet's side: as payer (`is_client`) or payee.
#[derive(Clone, Copy, Debug)]
pub struct ChannelHold {
    pub id: u64,
    pub notary_id: NotaryId,
    pub is_client: bool,
    pub balance_change_number: u32,
    pub hold_notebook_number: NotebookNumber,
    pub expiration_tick: Tick,
    pub hold_amount: u128,
}

/// The tick at which a hold committed at `hold_tick` expires.
pub open spec fn expiration_of(hold_tick: Tick) -> int {
    hold_tick + CHANNEL_HOLD_EXPIRATION_TICKS
}

/// The expiration tick of a hold committed at `hold_tick`, if it fits.
pub fn expiration_tick_for(hold_tick: Tick) -> (r: Option<Tick>)
    ensures
        match r {
            Some(t) => t as int == expiration_of(hold_tick),
            None => expiration_of(hold_tick) > u32::MAX,
        },
{
    if hold_tick > u32::MAX - CHANNEL_HOLD_EXPIRATION_TICKS {
        None
    } else {
        Some(hold_tick + CHANNEL_HOLD_EXPIRATION_TICKS)
    }
}

impl ChannelHold {
    pub fn hold_notebook_number(&self) -> (r: NotebookNumber)
        ensures
            r == self.hold_notebook_number,
    {
        self.hold_notebook_number
    }

    /// The payee can no longer claim: the claim window after expiration has passed.
    pub fn is_past_claim_period(&self, current_tick: Tick) -> (r: bool)
        ensures
            r == (current_tick as int > self.expiration_tick as int + CHANNEL_HOLD_CLAWBACK_TICKS as int),
    {
        current_tick as u64 > self.expiration_tick as u64 + CHANNEL_HOLD_CLAWBACK_TICKS as u64
    }

    /// The payee may claim now: the hold has expired and the window is open.
    pub fn is_claimable(&self, current_tick: Tick) -> (r: bool)
        ensures
            r == (self.expiration_tick <= current_tick && current_tick as int <= self.expiration_tick as int
                + CHANNEL_HOLD_CLAWBACK_TICKS as int),
    {
        self.expiration_tick <= current_tick && !self.is_past_claim_period(current_tick)
    }
}

/// What the payer does with a hold on its account.
#[derive(Clone, Copy, Debug, PartialEq, Eq, Structural)]
pub enum ClientHoldAction {
    /// Nothing has happened yet and the payee may still claim.
    Wait,
    /// The payee never claimed: take the hold back.
    Cancel,
    /// The payee moved the account: download that notarization and record it.
    SyncRecipientClaim { notebook_number: NotebookNumber },
}

/// What the payee does with a hold it may claim.
#[derive(Clone, Copy, Debug, PartialEq, Eq, Structural)]
pub enum ServerHoldAction {
    /// The claim window passed: record that it can no longer be claimed.
    MarkUnableToClaim,
    /// The batch is full: submit it before adding more.
    FinalizeBatch,
    /// Add the claim to the batch.
    Claim,
}

/// The payer compares the notebook of the account's current tip with the one
/// where the hold was placed: unchanged means nobody claimed.
pub fn client_hold_action(hold: &ChannelHold, tip_notebook_number: NotebookNumber, current_tick: Tick) -> (r: ClientHoldAction)
    ensures
        tip_notebook_number != hold.hold_notebook_number ==> r == (ClientHoldAction::SyncRecipientClaim {
            notebook_number: tip_notebook_number,
        }),
        tip_notebook_number == hold.hold_notebook_number && current_tick as int > hold.expiration_tick as int
            + CHANNEL_HOLD_CLAWBACK_TICKS as int ==> r == ClientHoldAction::Cancel,
        tip_notebook_number == hold.hold_notebook_number && current_tick as int <= hold.expiration_tick as int
            + CHANNEL_HOLD_CLAWBACK_TICKS as int ==> r == ClientHoldAction::Wait,
{
    if tip_notebook_number != hold.hold_notebook_number() {
        return ClientHoldAction::SyncRecipientClaim { notebook_number: tip_notebook_number };
    }
    if hold.is_past_claim_period(current_tick) {
        ClientHoldAction::Cancel
    } else {
        ClientHoldAction::Wait
    }
}

/// The payee claims while the window is open and the batch has room.
pub fn server_hold_action(hold: &ChannelHold, current_tick: Tick, batch_has_room: bool) -> (r: ServerHoldAction)
    ensures
        current_tick as int > hold.expiration_tick as int + CHANNEL_HOLD_CLAWBACK_TICKS as int ==> r
            == ServerHoldAction::MarkUnableToClaim,
        current_tick as int <= hold.expiration_tick as int + CHANNEL_HOLD_CLAWBACK_TICKS as int && !batch_has_room
            ==> r == ServerHoldAction::FinalizeBatch,
        current_tick as int <= hold.expiration_tick as int + CHANNEL_HOLD_CLAWBACK_TICKS as int && batch_has_room
            ==> r == ServerHoldAction::Claim,
{
    if hold.is_past_claim_period(current_tick) {
        ServerHoldAction::MarkUnableToClaim
    } else if !batch_has_room {
        ServerHoldAction::FinalizeBatch
    } else {
        ServerHoldAction::Claim
    }
}

pub open spec fn pow2(n: nat) -> nat
    decreases n,
{
    if n == 0 {
        1
    } else {
        2 * pow2((n - 1) as nat)
    }
}

proof fn lemma_pow2_mono(a: nat, b: nat)
    requires
        a <= b,
    ensures
        pow2(a) <= pow2(b),
        pow2(a) >= 1,
    decreases b,
{
    if b > 0 {
        lemma_pow2_mono(0, (b - 1) as nat);
        if a < b {
            lemma_pow2_mono(a, (b - 1) as nat);
        }
    }
}

/// The delay before attempt `attempt + 1`: doubling from the base, capped.
pub open spec fn retry_delay(attempt: nat) -> int {
    let d = CLAIM_RETRY_BASE_SECS * pow2(attempt);
    if d > CLAIM_RETRY_CAP_SECS {
        CLAIM_RETRY_CAP_SECS as int
    } else {
        d as int
    }
}

pub fn retry_delay_secs(attempt: u32) -> (r: u64)
    ensures
        r as int == retry_delay(attempt as nat),
{
    let mut d: u64 = CLAIM_RETRY_BASE_SECS;
    let mut i: u32 = 0;
    while i < attempt && d <= CLAIM_RETRY_CAP_SECS
        invariant
            i <= attempt,
            d as int == CLAIM_RETRY_BASE_SECS * pow2(i as nat),
            d <= 2 * CLAIM_RETRY_CAP_SECS,
        decreases attempt - i,
    {
        d = d * 2;
        i = i + 1;
    }
    proof {
        lemma_pow2_mono(i as nat, attempt as nat);
    }
    if d > CLAIM_RETRY_CAP_SECS {
        CLAIM_RETRY_CAP_SECS
    } else {
        d
    }
}

/// What the notary answered to a batch of claims.
#[derive(Clone, Copy, Debug, PartialEq, Eq, Structural)]
pub enum NotarizeOutcome {
    Accepted,
    ChannelHoldNotReadyForClaim,
    NotebookNotFinalized,
    Rejected,
}

#[derive(Clone, Copy, Debug, PartialEq, Eq, Structural)]
pub enum RetryDecision {
    Done,
    RetryAfter { seconds: u64 },
    GiveUp,
}

/// After attempt `attempt` (from 0): stop on success or on a lasting
/// rejection; retry a claim the notary is not ready for, up to the bound.
pub fn finalize_decision(attempt: u32, outcome: NotarizeOutcome) -> (r: RetryDecision)
    ensures
        outcome == NotarizeOutcome::Accepted ==> r == RetryDecision::Done,
        outcome == NotarizeOutcome::Rejected ==> r == RetryDecision::GiveUp,
        (outcome == NotarizeOutcome::ChannelHoldNotReadyForClaim || outcome == NotarizeOutcome::NotebookNotFinalized)
            ==> if attempt + 1 < CLAIM_RETRY_ATTEMPTS {
            r matches RetryDecision::RetryAfter { seconds } && seconds as int == retry_delay(attempt as nat)
        } else {
            r == RetryDecision::GiveUp
        },
{
    match outcome {
        NotarizeOutcome::Accepted => RetryDecision::Done,
        NotarizeOutcome::Rejected => RetryDecision::GiveUp,
        _ => {
            if (attempt as u64) + 1 < CLAIM_RETRY_ATTEMPTS as u64 {
                RetryDecision::RetryAfter { seconds: retry_delay_secs(attempt) }
            } else {
                RetryDecision::GiveUp
            }
        },
    }
}

/// The claim batches of one pass over the open holds: one open builder per
/// notary, and the builders already submitted.
pub struct HoldBatches {
    pub open: Vec<(NotaryId, NotarizationBuilder)>,
    pub finished: Vec<NotarizationBuilder>,
}

/// Positions of the open batches that hold something to submit, in order.
pub open spec fn batches_with_items(open: Seq<(NotaryId, NotarizationBuilder)>) -> Seq<usize>
    decreases open.len(),
{
    if open.len() == 0 {
        Seq::empty()
    } else {
        let b = open.last().1;
        if b.balance_changes@.len() > 0 || b.block_votes@.len() > 0 {
            batches_with_items(open.drop_last()).push((open.len() - 1) as usize)
        } else {
            batches_with_items(open.drop_last())
        }
    }
}

impl HoldBatches {
    /// One open batch per notary, each a well-formed builder.
    pub open spec fn wf(&self) -> bool {
        &&& forall|i: int, j: int| 0 <= i < j < self.open@.len() ==> (#[trigger] self.open@[i]).0 != (#[trigger] self.open@[j]).0
        &&& forall|i: int| 0 <= i < self.open@.len() ==> (#[trigger] self.open@[i]).1.wf()
    }

    pub fn new() -> (r: HoldBatches)
        ensures
            r.wf(),
            r.open@.len() == 0,
            r.finished@.len() == 0,
    {
        HoldBatches { open: Vec::new(), finished: Vec::new() }
    }

    /// The batch of `notary_id`: the open one when there is one, else a new
    /// empty builder appended for it.
    pub fn batch_for_notary(&mut self, notary_id: NotaryId) -> (r: usize)
        requires
            old(self).wf(),
        ensures
            final(self).wf(),
            r < final(self).open@.len(),
            final(self).open@[r as int].0 == notary_id,
            final(self).finished == old(self).finished,
            (exists|k: int| 0 <= k < old(self).open@.len() && (#[trigger] old(self).open@[k]).0 == notary_id) ==> final(self).open@
                == old(self).open@ && r < old(self).open@.len(),
            !(exists|k: int| 0 <= k < old(self).open@.len() && (#[trigger] old(self).open@[k]).0 == notary_id) ==> {
                &&& r == old(self).open@.len()
                &&& final(self).open@.drop_last() == old(self).open@
                &&& final(self).open@[r as int].1.balance_changes@.len() == 0
                &&& final(self).open@[r as int].1.block_votes@.len() == 0
                &&& !final(self).open@[r as int].1.is_finalized
            },
    {
        let mut i: usize = 0;
        while i < self.open.len()
            invariant
                i <= self.open@.len(),
                self.wf(),
                self.open@ == old(self).open@,
                self.finished == old(self).finished,
                forall|k: int| 0 <= k < i ==> (#[trigger] self.open@[k]).0 != notary_id,
            decreases self.open@.len() - i,
        {
            if self.open[i].0 == notary_id {
                return i;
            }
            i = i + 1;
        }
        let ghost before = self.open@;
        self.open.push((notary_id, NotarizationBuilder::new()));
        assert(self.open@.drop_last() =~= before);
        assert forall|a: int, b: int| 0 <= a < b < self.open@.len() implies (#[trigger] self.open@[a]).0 != (#[trigger] self.open@[b]).0 by {
            if b < before.len() {
                assert(before[a] == self.open@[a] && before[b] == self.open@[b]);
            } else {
                assert(before[a] == self.open@[a]);
            }
        }
        assert forall|a: int| 0 <= a < self.open@.len() implies (#[trigger] self.open@[a]).1.wf() by {
            if a < before.len() {
                assert(before[a] == self.open@[a]);
            }
        }
        i
    }

    /// Moves a batch that has been submitted out of the open ones.
    pub fn finish_batch(&mut self, index: usize)
        requires
            old(self).wf(),
            index < old(self).open@.len(),
        ensures
            final(self).wf(),
            final(self).open@ == old(self).open@.remove(index as int),
            final(self).finished@ == old(self).finished@.push(old(self).open@[index as int].1),
    {
        let ghost before = self.open@;
        let (_, builder) = self.open.remove(index);
        self.finished.push(builder);
        assert forall|a: int, b: int| 0 <= a < b < self.open@.len() implies (#[trigger] self.open@[a]).0 != (#[trigger] self.open@[b]).0 by {
            let a0 = if a < index { a } else { a + 1 };
            let b0 = if b < index { b } else { b + 1 };
            assert(self.open@[a] == before[a0] && self.open@[b] == before[b0]);
        }
        assert forall|a: int| 0 <= a < self.open@.len() implies (#[trigger] self.open@[a]).1.wf() by {
            let a0 = if a < index { a } else { a + 1 };
            assert(self.open@[a] == before[a0]);
        }
    }

    /// The open batches to submit at the end of the pass: those with items, in order.
    pub fn batches_to_submit(&self) -> (r: Vec<usize>)
        ensures
            r@ == batches_with_items(self.open@),
    {
        let mut out: Vec<usize> = Vec::new();
        let mut i: usize = 0;
        while i < self.open.len()
            invariant
                i <= self.open@.len(),
                out@ == batches_with_items(self.open@.subrange(0, i as int)),
            decreases self.open@.len() - i,
        {
            assert(self.open@.subrange(0, i as int + 1).drop_last() =~= self.open@.subrange(0, i as int));
            if self.open[i].1.has_items_to_notarize() {
                out.push(i);
            }
            i = i + 1;
        }
        assert(self.open@.subrange(0, i as int) =~= self.open@);
        out
    }
}

} // verus!
