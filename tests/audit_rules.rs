use notary_ledger::audit::{notebook_verify, VerifyError};
use notary_ledger::history::NotebookHistory;
use notary_ledger::model::{
    AccountId, AccountOrigin, AccountType, BalanceChange, BalanceProof, BalanceTip, BlockVote, ChainTransfer,
    MerkleProof, NewAccountOrigin, Notarization, Note, NoteType, Notebook, NotebookHeader,
};

fn carol() -> AccountId {
    [0xc0u8; 32]
}

fn dan() -> AccountId {
    [0xd0u8; 32]
}

fn root_of(leaves: Vec<Vec<u8>>) -> [u8; 32] {
    binary_merkle_tree::merkle_root::<sp_core::Blake2Hasher, _>(leaves).0
}

fn change(account_id: AccountId, change_number: u32, balance: u128, notes: Vec<Note>) -> BalanceChange {
    BalanceChange {
        account_id,
        account_type: AccountType::Deposit,
        change_number,
        balance,
        previous_balance_proof: None,
        channel_hold_note: None,
        notes,
    }
}

fn tip(account_id: AccountId, change_number: u32, balance: u128, hold: Option<Note>) -> BalanceTip {
    BalanceTip {
        account_id,
        account_type: AccountType::Deposit,
        change_number,
        balance,
        account_origin: AccountOrigin { notebook_number: 1, account_uid: 1 },
        channel_hold_note: hold,
    }
}

fn notebook(number: u32, tick: u32, changesets: Vec<Vec<BalanceChange>>, tips: Vec<BalanceTip>, new_origins: Vec<NewAccountOrigin>) -> Notebook {
    let header = NotebookHeader {
        version: 1,
        notary_id: 1,
        notebook_number: number,
        tick,
        finalized_block_number: 1,
        changed_accounts_root: root_of(tips.iter().map(|t| t.encode()).collect()),
        changed_account_origins: tips.iter().map(|t| t.account_origin).collect(),
        chain_transfers: vec![],
        block_votes_root: root_of(vec![]),
        block_votes_count: 0,
        block_voting_power: 0,
        tax: 0,
    };
    Notebook {
        header,
        notarizations: changesets
            .into_iter()
            .map(|c| Notarization { balance_changes: c, block_votes: vec![] })
            .collect(),
        new_account_origins: new_origins,
    }
}

fn verify(nb: &Notebook, history: &NotebookHistory) -> Result<(), VerifyError> {
    notebook_verify(&nb.header.hash(), nb, history)
}

fn carol_origin() -> Vec<NewAccountOrigin> {
    vec![NewAccountOrigin::new(carol(), AccountType::Deposit, 1)]
}

fn same_notebook_ref(balance: u128, proof: Option<MerkleProof>) -> Option<BalanceProof> {
    Some(BalanceProof {
        notary_id: 1,
        notebook_number: 1,
        tick: 1,
        notebook_proof: proof,
        account_origin: AccountOrigin { notebook_number: 1, account_uid: 1 },
        balance,
    })
}

#[test]
fn reference_to_the_open_notebook_cannot_carry_a_merkle_proof() {
    let first = change(carol(), 1, 10, vec![Note::create(10, NoteType::Claim)]);
    let mut second = change(carol(), 2, 5, vec![Note::create(5, NoteType::Send { to: None })]);
    second.previous_balance_proof = same_notebook_ref(
        10,
        Some(MerkleProof { proof: vec![], number_of_leaves: 1, leaf_index: 0 }),
    );
    let tips = vec![tip(carol(), 2, 5, None)];
    let nb = notebook(1, 1, vec![vec![first.clone()], vec![second.clone()]], tips.clone(), carol_origin());
    assert_eq!(verify(&nb, &NotebookHistory::new()), Err(VerifyError::InvalidPreviousBalanceProof));

    second.previous_balance_proof = same_notebook_ref(10, None);
    let nb = notebook(1, 1, vec![vec![first.clone()], vec![second.clone()]], tips.clone(), carol_origin());
    assert_eq!(verify(&nb, &NotebookHistory::new()), Err(VerifyError::InvalidPreviousBalanceProof));

    second.previous_balance_proof = None;
    let nb = notebook(1, 1, vec![vec![first], vec![second]], tips, carol_origin());
    assert_eq!(verify(&nb, &NotebookHistory::new()), Err(VerifyError::MissingBalanceProof));
}

#[test]
fn an_account_changes_once_per_notebook() {
    let first = change(carol(), 1, 10, vec![Note::create(10, NoteType::Claim)]);
    let mut third = change(carol(), 3, 10, vec![]);
    third.previous_balance_proof = same_notebook_ref(10, None);
    let nb = notebook(1, 1, vec![vec![first.clone(), third]], vec![tip(carol(), 3, 10, None)], carol_origin());
    assert_eq!(verify(&nb, &NotebookHistory::new()), Err(VerifyError::InvalidPreviousBalanceProof));

    let mut second = change(carol(), 2, 10, vec![]);
    second.previous_balance_proof = same_notebook_ref(10, None);
    let nb = notebook(1, 1, vec![vec![first, second]], vec![tip(carol(), 2, 10, None)], carol_origin());
    assert_eq!(verify(&nb, &NotebookHistory::new()), Err(VerifyError::InvalidPreviousBalanceProof));
}

#[test]
fn first_change_must_be_number_one() {
    let nb = notebook(1, 1, vec![vec![change(carol(), 2, 0, vec![])]], vec![], carol_origin());
    assert_eq!(verify(&nb, &NotebookHistory::new()), Err(VerifyError::MissingBalanceProof));
}

#[test]
fn account_origin_list_must_mirror_the_leaves() {
    let mut nb = notebook(1, 1, vec![vec![change(carol(), 1, 0, vec![])]], vec![tip(carol(), 1, 0, None)], carol_origin());
    nb.header.changed_account_origins = vec![AccountOrigin { notebook_number: 1, account_uid: 2 }];
    assert_eq!(verify(&nb, &NotebookHistory::new()), Err(VerifyError::InvalidAccountChangelist));
}

#[test]
fn vote_root_must_match() {
    let mut nb = notebook(1, 1, vec![vec![change(carol(), 1, 0, vec![])]], vec![tip(carol(), 1, 0, None)], carol_origin());
    let vote = BlockVote { account_id: carol(), index: 0, block_hash: [1u8; 32], power: 5 };
    nb.notarizations[0].block_votes.push(vote);
    assert_eq!(verify(&nb, &NotebookHistory::new()), Err(VerifyError::InvalidBlockVoteRoot));
    nb.header.block_votes_root = root_of(vec![vote.encode()]);
    nb.header.block_votes_count = 1;
    assert_eq!(verify(&nb, &NotebookHistory::new()), Ok(()));
}

#[test]
fn claims_need_a_known_deposit() {
    let notes = vec![Note::create(10, NoteType::ClaimFromMainchain { account_nonce: 4 })];
    let mut nb = notebook(1, 1, vec![vec![change(carol(), 1, 10, notes)]], vec![tip(carol(), 1, 10, None)], carol_origin());
    nb.header.chain_transfers = vec![ChainTransfer::ToLocalchain { account_id: carol(), account_nonce: 4 }];
    assert_eq!(verify(&nb, &NotebookHistory::new()), Err(VerifyError::InvalidChainTransferSource));
    let mut history = NotebookHistory::new();
    history.localchain_transfers.push((carol(), 4));
    assert_eq!(verify(&nb, &history), Ok(()));
    nb.header.chain_transfers = vec![];
    assert_eq!(verify(&nb, &history), Err(VerifyError::InvalidChainTransfersList));
}

#[test]
fn withdrawals_are_listed() {
    let notes = vec![Note::create(10, NoteType::Claim), Note::create(4, NoteType::SendToMainchain)];
    let mut nb = notebook(1, 1, vec![vec![change(carol(), 1, 6, notes)]], vec![tip(carol(), 1, 6, None)], carol_origin());
    assert_eq!(verify(&nb, &NotebookHistory::new()), Err(VerifyError::InvalidChainTransfersList));
    nb.header.chain_transfers = vec![ChainTransfer::ToMainchain { account_id: carol(), amount: 4 }];
    assert_eq!(verify(&nb, &NotebookHistory::new()), Ok(()));
}

#[test]
fn new_accounts_need_an_origin() {
    let nb = notebook(1, 1, vec![vec![change(dan(), 1, 0, vec![])]], vec![], carol_origin());
    assert_eq!(verify(&nb, &NotebookHistory::new()), Err(VerifyError::MissingAccountOrigin));
}

#[test]
fn balances_never_go_negative() {
    let notes = vec![Note::create(5, NoteType::Claim), Note::create(6, NoteType::Send { to: None }), Note::create(1, NoteType::Claim)];
    let nb = notebook(1, 1, vec![vec![change(carol(), 1, 0, notes)]], vec![], carol_origin());
    assert_eq!(verify(&nb, &NotebookHistory::new()), Err(VerifyError::InsufficientBalance));
}

#[test]
fn balances_never_overflow() {
    let notes = vec![Note::create(u128::MAX, NoteType::Claim), Note::create(1, NoteType::Claim)];
    let nb = notebook(1, 1, vec![vec![change(carol(), 1, 0, notes)]], vec![], carol_origin());
    assert_eq!(verify(&nb, &NotebookHistory::new()), Err(VerifyError::BalanceOverflow));
}

#[test]
fn stated_balance_must_match_the_notes() {
    let nb = notebook(1, 1, vec![vec![change(carol(), 1, 11, vec![Note::create(10, NoteType::Claim)])]], vec![], carol_origin());
    assert_eq!(verify(&nb, &NotebookHistory::new()), Err(VerifyError::BalanceChangeMismatch));
}

#[test]
fn settling_without_a_hold_is_rejected() {
    let notes = vec![Note::create(10, NoteType::Claim), Note::create(0, NoteType::ChannelSettle)];
    let nb = notebook(1, 1, vec![vec![change(carol(), 1, 10, notes)]], vec![], carol_origin());
    assert_eq!(verify(&nb, &NotebookHistory::new()), Err(VerifyError::InvalidChannelHoldNote));
}

#[test]
fn a_hold_is_settled_in_a_later_notebook_after_it_expires() {
    let hold = Note::create(400, NoteType::ChannelHold { recipient: dan() });
    let held_tip = tip(carol(), 2, 1000, Some(hold));
    let leaves = vec![tip(dan(), 1, 5, None).encode(), held_tip.encode()];
    let root1 = root_of(leaves.clone());
    let proof = binary_merkle_tree::merkle_proof::<sp_core::Blake2Hasher, _, _>(leaves, 1);
    let mut history = NotebookHistory::new();
    history.account_changes_roots.push((1, root1));
    history.last_changed_notebooks.push((AccountOrigin { notebook_number: 1, account_uid: 1 }, 1));

    let mut settle = change(carol(), 3, 600, vec![Note::create(400, NoteType::ChannelSettle)]);
    settle.channel_hold_note = Some(hold);
    settle.previous_balance_proof = Some(BalanceProof {
        notary_id: 1,
        notebook_number: 1,
        tick: 1,
        notebook_proof: Some(MerkleProof {
            proof: proof.proof.iter().map(|h| h.0).collect(),
            number_of_leaves: proof.number_of_leaves,
            leaf_index: proof.leaf_index,
        }),
        account_origin: AccountOrigin { notebook_number: 1, account_uid: 1 },
        balance: 1000,
    });
    let after = tip(carol(), 3, 600, None);
    let early = notebook(2, 30, vec![vec![settle.clone()]], vec![after], vec![]);
    assert_eq!(verify(&early, &history), Err(VerifyError::ChannelHoldNotReadyForClaim));
    let late = notebook(2, 100, vec![vec![settle.clone()]], vec![after], vec![]);
    assert_eq!(verify(&late, &history), Ok(()));

    let mut dropped = settle.clone();
    dropped.notes = vec![Note::create(400, NoteType::Send { to: None })];
    let nb = notebook(2, 100, vec![vec![dropped]], vec![after], vec![]);
    assert_eq!(verify(&nb, &history), Err(VerifyError::InvalidChannelHoldNote));

    let mut undeclared = settle;
    undeclared.channel_hold_note = None;
    let nb = notebook(2, 100, vec![vec![undeclared]], vec![after], vec![]);
    assert_eq!(verify(&nb, &history), Err(VerifyError::InvalidPreviousBalanceProof));
}
