use notary_ledger::notify::{SendOutcome, SubscriberBuffer};
use notary_ledger::builder::{AccountLocks, BuilderError, LocalAccountTip, NotarizationBuilder, NOTARIZATION_MAX_BALANCE_CHANGES};
use notary_ledger::channel_hold::{
    client_hold_action, expiration_tick_for, HoldBatches, finalize_decision, retry_delay_secs, server_hold_action, ChannelHold,
    ClientHoldAction, NotarizeOutcome, RetryDecision, ServerHoldAction,
};
use notary_ledger::model::{AccountId, AccountOrigin, AccountType, BalanceTip, NoteType};
use notary_ledger::sync::{
    claim_mainchain_transfers, consolidate_account, consolidation_candidates, notary_tip_matches, plan_tax_vote, should_vote_with_tax, LocalchainTransfer, step, sync_balance_change, sync_unsettled_balances,
    BalanceChangeRow, BalanceChangeStatus, BalanceSyncResult, ChannelHoldCloseOptions, JumpAccount, NetworkView,
    NotarizationTracker, ProofAnswer, RootAnswer, SyncAction, SyncEvent, SyncGuard, TipAnswer,
};

fn account(b: u8) -> AccountId {
    [b; 32]
}

fn local_tip(b: u8, account_type: AccountType, balance: u128) -> LocalAccountTip {
    LocalAccountTip {
        account_id: account(b),
        account_type,
        change_number: 4,
        balance,
        previous_balance_proof: None,
        channel_hold_note: None,
    }
}

#[test]
fn builder_loads_each_account_once() {
    let mut builder = NotarizationBuilder::new();
    assert_eq!(builder.load_account(local_tip(1, AccountType::Deposit, 10)), Ok(0));
    assert_eq!(builder.load_account(local_tip(1, AccountType::Deposit, 10)), Err(BuilderError::AccountAlreadyLoaded));
    assert_eq!(builder.load_account(local_tip(1, AccountType::Tax, 10)), Ok(1));
    assert_eq!(builder.balance_changes[0].change_number, 5);
    assert_eq!(builder.accounts(), 2);
    assert!(builder.has_items_to_notarize());
}

#[test]
fn builder_is_bounded() {
    let mut builder = NotarizationBuilder::new();
    for i in 0..NOTARIZATION_MAX_BALANCE_CHANGES {
        assert_eq!(builder.load_account(local_tip(i as u8, AccountType::Deposit, 1)), Ok(i as usize));
    }
    assert!(!builder.can_add_channel_hold());
    assert_eq!(
        builder.load_account(local_tip(200, AccountType::Deposit, 1)),
        Err(BuilderError::MaxBalanceChangesReached)
    );
}

#[test]
fn builder_tracks_projected_balances() {
    let mut builder = NotarizationBuilder::new();
    let payer = builder.load_account(local_tip(1, AccountType::Deposit, 100)).unwrap();
    let payee = builder.load_account(local_tip(2, AccountType::Deposit, 0)).unwrap();
    assert_eq!(builder.send(payer, 101, None), Err(BuilderError::InsufficientFunds));
    assert_eq!(builder.send(payer, 60, Some(account(2))), Ok(()));
    assert_eq!(builder.claim(payee, 60), Ok(()));
    assert_eq!(builder.claim_from_mainchain(payee, 5, 3), Ok(()));
    assert_eq!(builder.balance_changes[payer].balance, 40);
    assert_eq!(builder.balance_changes[payee].balance, 65);
    assert_eq!(builder.balance_changes[payee].notes.len(), 2);
    assert!(matches!(builder.balance_changes[payee].notes[1].note_type, NoteType::ClaimFromMainchain { account_nonce: 3 }));
    assert_eq!(builder.claim(payee, u128::MAX), Err(BuilderError::BalanceOverflow));
    assert_eq!(builder.send_to_vote(payee, 1), Err(BuilderError::WrongAccountType));
    let tax = builder.load_account(local_tip(3, AccountType::Tax, 30)).unwrap();
    assert_eq!(builder.send_to_vote(tax, 30), Ok(()));
    assert_eq!(builder.balance_changes[tax].balance, 0);
}

#[test]
fn holds_freeze_the_account_until_settled() {
    let mut builder = NotarizationBuilder::new();
    let payer = builder.load_account(local_tip(1, AccountType::Deposit, 100)).unwrap();
    assert_eq!(builder.open_channel_hold(payer, 200, account(9)), Err(BuilderError::InsufficientFunds));
    assert_eq!(builder.open_channel_hold(payer, 80, account(9)), Ok(()));
    assert_eq!(builder.balance_changes[payer].balance, 100);
    assert_eq!(builder.send(payer, 1, None), Err(BuilderError::AccountLocked));
    assert_eq!(builder.open_channel_hold(payer, 1, account(9)), Err(BuilderError::ChannelHoldAlreadyOpen));
    assert_eq!(builder.settle_channel_hold(payer, 10), Err(BuilderError::NoChannelHold));

    let mut held = local_tip(5, AccountType::Deposit, 100);
    held.channel_hold_note = builder.balance_changes[payer].notes.first().copied();
    let mut next = NotarizationBuilder::new();
    let index = next.load_account(held).unwrap();
    assert_eq!(next.claim(index, 1), Err(BuilderError::AccountLocked));
    assert_eq!(next.settle_channel_hold(index, 30), Ok(()));
    assert_eq!(next.balance_changes[index].balance, 70);
    assert_eq!(next.send(index, 70, None), Ok(()));
    assert_eq!(next.balance_changes[index].balance, 0);
}

fn hold(is_client: bool) -> ChannelHold {
    ChannelHold {
        id: 1,
        notary_id: 1,
        is_client,
        balance_change_number: 2,
        hold_notebook_number: 10,
        expiration_tick: 100,
        hold_amount: 50,
    }
}

#[test]
fn payer_waits_cancels_or_syncs() {
    assert_eq!(client_hold_action(&hold(true), 10, 100), ClientHoldAction::Wait);
    assert_eq!(client_hold_action(&hold(true), 10, 115), ClientHoldAction::Wait);
    assert_eq!(client_hold_action(&hold(true), 10, 116), ClientHoldAction::Cancel);
    assert_eq!(
        client_hold_action(&hold(true), 12, 116),
        ClientHoldAction::SyncRecipientClaim { notebook_number: 12 }
    );
    assert!(hold(true).is_claimable(100));
    assert!(!hold(true).is_claimable(99));
    assert_eq!(expiration_tick_for(40), Some(100));
    assert_eq!(expiration_tick_for(u32::MAX), None);
}

#[test]
fn payee_claims_within_the_window() {
    assert_eq!(server_hold_action(&hold(false), 110, true), ServerHoldAction::Claim);
    assert_eq!(server_hold_action(&hold(false), 110, false), ServerHoldAction::FinalizeBatch);
    assert_eq!(server_hold_action(&hold(false), 200, true), ServerHoldAction::MarkUnableToClaim);
}

#[test]
fn claim_retries_back_off_and_stop() {
    assert_eq!(retry_delay_secs(0), 2);
    assert_eq!(retry_delay_secs(1), 4);
    assert_eq!(retry_delay_secs(2), 8);
    assert_eq!(retry_delay_secs(4), 30);
    assert_eq!(retry_delay_secs(40), 30);
    assert_eq!(finalize_decision(0, NotarizeOutcome::Accepted), RetryDecision::Done);
    assert_eq!(finalize_decision(0, NotarizeOutcome::ChannelHoldNotReadyForClaim), RetryDecision::RetryAfter { seconds: 2 });
    assert_eq!(finalize_decision(1, NotarizeOutcome::NotebookNotFinalized), RetryDecision::RetryAfter { seconds: 4 });
    assert_eq!(finalize_decision(2, NotarizeOutcome::ChannelHoldNotReadyForClaim), RetryDecision::GiveUp);
    assert_eq!(finalize_decision(0, NotarizeOutcome::Rejected), RetryDecision::GiveUp);
}

fn row(status: BalanceChangeStatus) -> BalanceChangeRow {
    BalanceChangeRow {
        id: 1,
        account_id: 1,
        change_number: 1,
        balance: 10,
        notary_id: 1,
        status,
        notarization_id: Some(3),
        notebook_number: None,
        finalized_block_number: None,
    }
}

fn net(proof: ProofAnswer, tip: TipAnswer, root: RootAnswer) -> NetworkView {
    NetworkView { superseded: false, proof, tip, root }
}

#[test]
fn changes_move_forward_on_their_answer_only() {
    let (r, a) = step(&row(BalanceChangeStatus::Notarized), SyncEvent::Begin { superseded: false });
    assert_eq!(a, SyncAction::RequestNotebookProof);
    let (r, a) = step(&r, SyncEvent::ProofSynced { notebook_number: 4 });
    assert_eq!(r.status, BalanceChangeStatus::NotebookPublished);
    assert_eq!(r.notebook_number, Some(4));
    assert_eq!(a, SyncAction::RequestFinalization);
    let (r2, a) = step(&r, SyncEvent::NotYetAvailable);
    assert_eq!(r2, r);
    assert_eq!(a, SyncAction::Stop);
    let (r, a) = step(&r, SyncEvent::RootAvailable { finalized_block_number: 77 });
    assert_eq!(r.status, BalanceChangeStatus::Finalized);
    assert_eq!(r.finalized_block_number, Some(77));
    assert_eq!(a, SyncAction::Stop);
    let (r3, a) = step(&row(BalanceChangeStatus::Notarized), SyncEvent::Begin { superseded: true });
    assert_eq!(r3, row(BalanceChangeStatus::Notarized));
    assert_eq!(a, SyncAction::Stop);
}

#[test]
fn a_cycle_goes_as_far_as_the_answers_allow() {
    let waiting = row(BalanceChangeStatus::WaitingForSendClaim);
    let all_ready = net(
        ProofAnswer::Ready { notebook_number: 4 },
        TipAnswer::Matched { notebook_number: 4, notarization_id: 9 },
        RootAnswer::Available { finalized_block_number: 50 },
    );
    let done = sync_balance_change(&waiting, &all_ready);
    assert_eq!(done.status, BalanceChangeStatus::Finalized);
    assert_eq!(done.notarization_id, Some(9));
    let not_final = net(ProofAnswer::NotFinalized, TipAnswer::Failed, RootAnswer::NotYet);
    assert_eq!(sync_balance_change(&row(BalanceChangeStatus::Notarized), &not_final), row(BalanceChangeStatus::Notarized));
    let published = net(ProofAnswer::Ready { notebook_number: 2 }, TipAnswer::Mismatch, RootAnswer::NotYet);
    assert_eq!(
        sync_balance_change(&row(BalanceChangeStatus::Notarized), &published).status,
        BalanceChangeStatus::NotebookPublished
    );
}

#[test]
fn syncing_twice_with_the_same_answers_changes_nothing() {
    let rows = vec![
        row(BalanceChangeStatus::WaitingForSendClaim),
        row(BalanceChangeStatus::Notarized),
        row(BalanceChangeStatus::NotebookPublished),
        row(BalanceChangeStatus::Finalized),
    ];
    let views = vec![
        net(ProofAnswer::Failed, TipAnswer::Matched { notebook_number: 3, notarization_id: 8 }, RootAnswer::NotYet),
        net(ProofAnswer::Ready { notebook_number: 3 }, TipAnswer::Mismatch, RootAnswer::Available { finalized_block_number: 5 }),
        net(ProofAnswer::NotFinalized, TipAnswer::Failed, RootAnswer::Failed),
        NetworkView { superseded: true, proof: ProofAnswer::Failed, tip: TipAnswer::Failed, root: RootAnswer::Failed },
    ];
    let once = sync_unsettled_balances(&rows, &views);
    let twice = sync_unsettled_balances(&once, &views);
    assert_eq!(once, twice);
    assert_eq!(once[0].status, BalanceChangeStatus::NotebookPublished);
    assert_eq!(once[1].status, BalanceChangeStatus::Finalized);
    assert_eq!(once[2], rows[2]);
    assert_eq!(once[3], rows[3]);
}

#[test]
fn tax_becomes_votes_only_above_both_minimums() {
    assert!(should_vote_with_tax(100, None, 50));
    assert!(!should_vote_with_tax(40, None, 50));
    assert!(!should_vote_with_tax(100, Some(200), 50));
    assert!(should_vote_with_tax(100, Some(-5), 50));
    let options = ChannelHoldCloseOptions { votes_address: Some("5Grw".to_string()), minimum_vote_amount: Some(10) };
    assert!(should_vote_with_tax(10, options.minimum_vote_amount, 0));
}

#[test]
fn only_funded_non_default_accounts_are_consolidated() {
    let accounts = vec![
        JumpAccount { local_account_id: 1, account_type: AccountType::Deposit, balance: 5 },
        JumpAccount { local_account_id: 2, account_type: AccountType::Deposit, balance: 0 },
        JumpAccount { local_account_id: 3, account_type: AccountType::Tax, balance: 7 },
        JumpAccount { local_account_id: 4, account_type: AccountType::Deposit, balance: 9 },
        JumpAccount { local_account_id: 5, account_type: AccountType::Tax, balance: 2 },
    ];
    let swept = consolidation_candidates(&accounts, 1, 3);
    assert_eq!(swept, vec![accounts[3], accounts[4]]);
}

#[test]
fn sync_result_getters_return_each_phase() {
    let tracker = NotarizationTracker { notarization_id: 1, notebook_number: 2, tick: 3, notarized_balance_changes: 4, notarized_votes: 0 };
    let mut builder = NotarizationBuilder::new();
    builder.load_account(local_tip(1, AccountType::Deposit, 10)).unwrap();
    builder.mark_finalized();
    let result = BalanceSyncResult {
        balance_changes: vec![row(BalanceChangeStatus::Finalized)],
        mainchain_transfers: vec![tracker],
        channel_hold_notarizations: vec![builder],
        jump_account_consolidations: vec![],
        block_votes: vec![tracker, tracker],
    };
    assert_eq!(result.balance_changes(), vec![row(BalanceChangeStatus::Finalized)]);
    assert_eq!(result.mainchain_transfers(), vec![tracker]);
    assert_eq!(result.jump_account_consolidations().len(), 0);
    assert_eq!(result.block_votes().len(), 2);
    let builders = result.channel_hold_notarizations();
    assert_eq!(builders.len(), 1);
    assert!(builders[0].is_finalized());
    assert_eq!(builders[0].balance_changes[0].balance, 10);
}

#[test]
fn an_account_belongs_to_one_builder_at_a_time() {
    let mut locks = AccountLocks::new();
    assert_eq!(locks.acquire(&account(1), AccountType::Deposit, 7), Ok(()));
    assert_eq!(locks.acquire(&account(1), AccountType::Deposit, 7), Ok(()));
    assert_eq!(locks.acquire(&account(1), AccountType::Deposit, 8), Err(BuilderError::AccountAlreadyLoaded));
    assert_eq!(locks.acquire(&account(1), AccountType::Tax, 8), Ok(()));
    assert_eq!(locks.owners.len(), 2);
    locks.release_session(7);
    assert_eq!(locks.owners.len(), 1);
    assert_eq!(locks.acquire(&account(1), AccountType::Deposit, 8), Ok(()));
}

#[test]
fn only_one_sync_runs_at_a_time() {
    let mut guard = SyncGuard::new();
    assert!(guard.try_begin());
    assert!(!guard.try_begin());
    guard.end();
    assert!(guard.try_begin());
}

#[test]
fn slow_subscribers_lose_messages_without_blocking() {
    let mut buffer: SubscriberBuffer<u32> = SubscriberBuffer::new(2);
    assert_eq!(buffer.try_send(1), SendOutcome::Delivered);
    assert_eq!(buffer.try_send(2), SendOutcome::Delivered);
    assert_eq!(buffer.try_send(3), SendOutcome::Dropped);
    assert_eq!(buffer.receive(), Some(1));
    assert_eq!(buffer.try_send(4), SendOutcome::Delivered);
    assert_eq!(buffer.queue, vec![2, 4]);
    buffer.close();
    assert_eq!(buffer.try_send(5), SendOutcome::Closed);
    assert_eq!(buffer.receive(), Some(2));
}

#[test]
fn finalized_transfers_are_claimed_together_or_not_at_all() {
    let transfer = |amount: u128, transfer_id: u32| LocalchainTransfer { amount, transfer_id, notary_id: 1, expiration_tick: 9 };
    let mut builder = NotarizationBuilder::new();
    let index = builder.load_account(local_tip(1, AccountType::Deposit, 5)).unwrap();
    assert_eq!(claim_mainchain_transfers(&mut builder, index, &vec![transfer(10, 1), transfer(20, 2)]), Ok(()));
    assert_eq!(builder.balance_changes[index].balance, 35);
    assert_eq!(builder.balance_changes[index].notes.len(), 2);
    assert!(matches!(builder.balance_changes[index].notes[1].note_type, NoteType::ClaimFromMainchain { account_nonce: 2 }));
    assert_eq!(
        claim_mainchain_transfers(&mut builder, index, &vec![transfer(1, 3), transfer(u128::MAX, 4)]),
        Err(BuilderError::BalanceOverflow)
    );
    assert_eq!(builder.balance_changes[index].notes.len(), 2);
}

#[test]
fn claims_are_batched_per_notary() {
    let mut batches = HoldBatches::new();
    let a = batches.batch_for_notary(1);
    let b = batches.batch_for_notary(2);
    assert_eq!((a, b), (0, 1));
    assert_eq!(batches.batch_for_notary(1), 0);
    assert_eq!(batches.open.len(), 2);
    assert_eq!(batches.batches_to_submit(), Vec::<usize>::new());
    batches.open[1].1.load_account(local_tip(4, AccountType::Deposit, 3)).unwrap();
    assert_eq!(batches.batches_to_submit(), vec![1]);
    batches.open[1].1.mark_finalized();
    batches.finish_batch(1);
    assert_eq!(batches.finished.len(), 1);
    assert!(batches.finished[0].is_finalized());
    assert_eq!(batches.open.len(), 1);
    assert_eq!(batches.batch_for_notary(2), 1);
}

#[test]
fn tax_vote_plan_counts_votes_per_tick() {
    assert_eq!(plan_tax_vote(AccountType::Deposit, 100, None, Some(10), (5, 0), 5), None);
    assert_eq!(plan_tax_vote(AccountType::Tax, 100, None, None, (5, 0), 5), None);
    assert_eq!(plan_tax_vote(AccountType::Tax, 5, None, Some(10), (5, 0), 5), None);
    assert_eq!(plan_tax_vote(AccountType::Tax, 100, Some(200), Some(10), (5, 0), 5), None);
    assert_eq!(plan_tax_vote(AccountType::Tax, 100, Some(50), Some(10), (5, 3), 5), Some((100, 4)));
    assert_eq!(plan_tax_vote(AccountType::Tax, 100, None, Some(10), (4, 3), 5), Some((100, 0)));
}

#[test]
fn the_notary_tip_is_compared_in_committed_form() {
    let tip = BalanceTip {
        account_id: account(1),
        account_type: AccountType::Deposit,
        change_number: 2,
        balance: 50,
        account_origin: AccountOrigin { notebook_number: 1, account_uid: 1 },
        channel_hold_note: None,
    };
    let committed = <sp_core::Blake2Hasher as sp_core::Hasher>::hash(&tip.encode()).0;
    assert_eq!(tip.tip(), committed);
    assert!(notary_tip_matches(&committed, &tip));
    let mut other = tip;
    other.balance = 51;
    assert!(!notary_tip_matches(&committed, &other));
}

#[test]
fn consolidation_moves_a_jump_balance_into_the_default_account() {
    let mut builder = NotarizationBuilder::new();
    let default = builder.load_account(local_tip(1, AccountType::Deposit, 10)).unwrap();
    assert_eq!(consolidate_account(&mut builder, local_tip(2, AccountType::Deposit, 30), default, 30), Ok(false));
    assert_eq!(builder.balance_changes[default].balance, 40);
    assert_eq!(builder.balance_changes[1].balance, 0);
    assert!(matches!(builder.balance_changes[1].notes[0].note_type, NoteType::Send { to: Some(to) } if to == account(1)));
    assert_eq!(
        consolidate_account(&mut builder, local_tip(2, AccountType::Deposit, 30), default, 30),
        Err(BuilderError::AccountAlreadyLoaded)
    );
    assert_eq!(
        consolidate_account(&mut builder, local_tip(3, AccountType::Deposit, 30), default, 31),
        Err(BuilderError::InsufficientFunds)
    );
    assert_eq!(builder.accounts(), 2);
    for i in 3..=(NOTARIZATION_MAX_BALANCE_CHANGES as u8) {
        let full = consolidate_account(&mut builder, local_tip(i, AccountType::Deposit, 1), default, 1).unwrap();
        assert_eq!(full, i as u32 == NOTARIZATION_MAX_BALANCE_CHANGES);
    }
    assert_eq!(builder.accounts(), NOTARIZATION_MAX_BALANCE_CHANGES as usize);
}
