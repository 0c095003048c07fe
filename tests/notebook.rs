use notary_ledger::audit::{notebook_verify, VerifyError};
use notary_ledger::chain_transfer::ChainTransferStore;
use notary_ledger::history::NotebookHistory;
use notary_ledger::model::{
    AccountId, AccountOrigin, AccountType, BalanceChange, BalanceProof, BalanceTip, BlockVote, ChainTransfer,
    MerkleProof, NewAccountOrigin, Notarization, Note, NoteType, Notebook,
};
use notary_ledger::notebook::{NotebookError, NotebookStore};

fn alice() -> AccountId {
    [0xd4u8; 32]
}

fn bob() -> AccountId {
    [0x8eu8; 32]
}

fn dave() -> AccountId {
    [0x44u8; 32]
}

fn root_of(leaves: Vec<Vec<u8>>) -> [u8; 32] {
    binary_merkle_tree::merkle_root::<sp_core::Blake2Hasher, _>(leaves).0
}

fn plain_change(account_id: AccountId, balance: u128, notes: Vec<Note>) -> BalanceChange {
    BalanceChange {
        account_id,
        account_type: AccountType::Deposit,
        change_number: 1,
        balance,
        previous_balance_proof: None,
        channel_hold_note: None,
        notes,
    }
}

fn origin(uid: u32) -> AccountOrigin {
    AccountOrigin { notebook_number: 1, account_uid: uid }
}

fn deposit_tip(account_id: AccountId, balance: u128, uid: u32) -> BalanceTip {
    BalanceTip {
        account_id,
        account_type: AccountType::Deposit,
        change_number: 1,
        balance,
        account_origin: origin(uid),
        channel_hold_note: None,
    }
}

#[test]
fn test_close_notebook() {
    let mut transfers = ChainTransferStore::new();
    assert_eq!(transfers.record_transfer_to_local_from_block(100, &bob(), 1, 1000), Ok(()));
    assert_eq!(transfers.take_and_record_transfer_local(1, &bob(), 1, 1000, 0, 0, 100), Ok(()));
    let notarizations = vec![Notarization {
        balance_changes: vec![
            plain_change(bob(), 1000, vec![]),
            plain_change(alice(), 2500, vec![]),
            plain_change(dave(), 500, vec![]),
        ],
        block_votes: vec![],
    }];
    let origins = vec![
        NewAccountOrigin::new(bob(), AccountType::Deposit, 1),
        NewAccountOrigin::new(alice(), AccountType::Deposit, 2),
        NewAccountOrigin::new(dave(), AccountType::Deposit, 3),
    ];
    let closed =
        NotebookStore::close_notebook(1, 1, 1, 1, &notarizations, &origins, &NotebookHistory::new(), &mut transfers).unwrap();

    let balance_tip = deposit_tip(bob(), 1000, 1);
    let proof = NotebookStore::get_balance_proof(&closed.change_merkle_leaves, &balance_tip).unwrap();
    assert_eq!(proof.number_of_leaves, 3);
    assert_eq!(NotebookStore::is_valid_proof(&closed.header.changed_accounts_root, &balance_tip, &proof), true);
    assert_eq!(closed.header.changed_account_origins, vec![origin(1), origin(2), origin(3)]);
    assert_eq!(closed.header.chain_transfers.len(), 1);
    assert_eq!(transfers.rows.len(), 0);
    assert_eq!(closed.hash, closed.header.hash());
}

#[test]
fn test_balance_change_and_get_proof() {
    let mut transfers = ChainTransferStore::new();
    transfers.record_transfer_to_local_from_block(0, &bob(), 1, 1000).unwrap();
    transfers.take_and_record_transfer_local(1, &bob(), 1, 1000, 0, 0, 100).unwrap();
    let notarizations = vec![Notarization {
        balance_changes: vec![plain_change(
            bob(),
            1000,
            vec![Note::create(1000, NoteType::ClaimFromMainchain { account_nonce: 1 })],
        )],
        block_votes: vec![],
    }];
    let origins = vec![NewAccountOrigin::new(bob(), AccountType::Deposit, 1)];
    let closed =
        NotebookStore::close_notebook(1, 1, 1, 0, &notarizations, &origins, &NotebookHistory::new(), &mut transfers).unwrap();
    let header = &closed.header;
    assert_eq!(header.notebook_number, 1);
    assert!(matches!(
        header.chain_transfers[0],
        ChainTransfer::ToLocalchain { account_id, account_nonce: 1 } if account_id == bob()
    ));

    let tip = deposit_tip(bob(), 1000, 1);
    let proof = NotebookStore::get_balance_proof(&closed.change_merkle_leaves, &tip).unwrap();
    assert!(binary_merkle_tree::verify_proof::<sp_core::Blake2Hasher, _, _>(
        &sp_core::H256(header.changed_accounts_root),
        proof.proof.iter().map(|h| sp_core::H256(*h)),
        proof.number_of_leaves,
        proof.leaf_index,
        &tip.encode(),
    ));
}

#[test]
fn single_claim_notebook_end_to_end() {
    let notarizations = vec![Notarization {
        balance_changes: vec![plain_change(
            alice(),
            1000,
            vec![Note::create(1000, NoteType::ClaimFromMainchain { account_nonce: 1 })],
        )],
        block_votes: vec![],
    }];
    let origins = vec![NewAccountOrigin::new(alice(), AccountType::Deposit, 1)];
    let mut transfers = ChainTransferStore::new();
    transfers.record_transfer_to_local_from_block(90, &alice(), 1, 1000).unwrap();
    transfers.take_and_record_transfer_local(1, &alice(), 1, 1000, 0, 0, 10).unwrap();
    let closed =
        NotebookStore::close_notebook(1, 1, 1, 100, &notarizations, &origins, &NotebookHistory::new(), &mut transfers).unwrap();
    assert_eq!(closed.header.chain_transfers.len(), 1);

    let tip = deposit_tip(alice(), 1000, 1);
    assert_eq!(closed.header.changed_accounts_root, root_of(vec![tip.encode()]));
    let proof = NotebookStore::get_balance_proof(&closed.change_merkle_leaves, &tip).unwrap();
    assert_eq!(proof.proof.len(), 0);
    assert_eq!(proof.number_of_leaves, 1);
    assert_eq!(proof.leaf_index, 0);
    assert!(NotebookStore::is_valid_proof(&closed.header.changed_accounts_root, &tip, &proof));

    let mut history = NotebookHistory::new();
    history.localchain_transfers.push((alice(), 1));
    let notebook = Notebook { header: closed.header.clone(), notarizations, new_account_origins: origins };
    assert_eq!(notebook_verify(&closed.hash, &notebook, &history), Ok(()));
    let mut corrupted = closed.hash;
    corrupted[5] ^= 0x01;
    assert_eq!(notebook_verify(&corrupted, &notebook, &history), Err(VerifyError::InvalidNotebookHash));
}

#[test]
fn proofs_round_trip_and_detect_changed_tips() {
    let accounts: Vec<AccountId> = (1u8..=5).map(|b| [b; 32]).collect();
    let changes: Vec<BalanceChange> =
        accounts.iter().enumerate().map(|(i, a)| plain_change(*a, 100 * (i as u128 + 1), vec![])).collect();
    let origins: Vec<NewAccountOrigin> = accounts
        .iter()
        .enumerate()
        .map(|(i, a)| NewAccountOrigin::new(*a, AccountType::Deposit, i as u32 + 1))
        .collect();
    let notarizations = vec![Notarization { balance_changes: changes, block_votes: vec![] }];
    let closed = NotebookStore::close_notebook(1, 1, 1, 1, &notarizations, &origins, &NotebookHistory::new(), &mut ChainTransferStore::new()).unwrap();
    let root = closed.header.changed_accounts_root;
    for (i, a) in accounts.iter().enumerate() {
        let tip = deposit_tip(*a, 100 * (i as u128 + 1), i as u32 + 1);
        let proof = NotebookStore::get_balance_proof(&closed.change_merkle_leaves, &tip).unwrap();
        assert_eq!(proof.leaf_index as usize, i);
        assert_eq!(proof.number_of_leaves, 5);
        assert!(NotebookStore::is_valid_proof(&root, &tip, &proof));

        let mut changed = tip;
        changed.balance += 1;
        assert!(!NotebookStore::is_valid_proof(&root, &changed, &proof));
        let mut changed = tip;
        changed.account_id[31] ^= 0x80;
        assert!(!NotebookStore::is_valid_proof(&root, &changed, &proof));
        let mut changed = tip;
        changed.change_number = 2;
        assert!(!NotebookStore::is_valid_proof(&root, &changed, &proof));
    }
    let encoded = deposit_tip(accounts[0], 100, 1).encode();
    for byte in 0..encoded.len() {
        let mut mutated = encoded.clone();
        mutated[byte] ^= 0xff;
        let proof = NotebookStore::get_balance_proof(&closed.change_merkle_leaves, &deposit_tip(accounts[0], 100, 1)).unwrap();
        assert!(!binary_merkle_tree::verify_proof::<sp_core::Blake2Hasher, _, _>(
            &sp_core::H256(root),
            proof.proof.iter().map(|h| sp_core::H256(*h)),
            proof.number_of_leaves,
            proof.leaf_index,
            &mutated,
        ));
    }
}

#[test]
fn unknown_tip_has_no_proof() {
    let notarizations =
        vec![Notarization { balance_changes: vec![plain_change(bob(), 10, vec![])], block_votes: vec![] }];
    let origins = vec![NewAccountOrigin::new(bob(), AccountType::Deposit, 1)];
    let closed = NotebookStore::close_notebook(1, 1, 1, 1, &notarizations, &origins, &NotebookHistory::new(), &mut ChainTransferStore::new()).unwrap();
    assert_eq!(
        NotebookStore::get_balance_proof(&closed.change_merkle_leaves, &deposit_tip(bob(), 11, 1)).unwrap_err(),
        NotebookError::InvalidBalanceProofRequested
    );
}

#[test]
fn close_sums_tax_and_dedups_votes() {
    let vote = |index: u32, power: u128| BlockVote { account_id: alice(), index, block_hash: [7u8; 32], power };
    let notarizations = vec![
        Notarization {
            balance_changes: vec![plain_change(bob(), 1000, vec![Note::create(50, NoteType::Tax)])],
            block_votes: vec![vote(0, 10), vote(1, 20)],
        },
        Notarization {
            balance_changes: vec![plain_change(dave(), 700, vec![Note::create(300, NoteType::Tax)])],
            block_votes: vec![vote(0, 15)],
        },
    ];
    let origins = vec![
        NewAccountOrigin::new(bob(), AccountType::Deposit, 1),
        NewAccountOrigin::new(dave(), AccountType::Deposit, 2),
    ];
    let closed =
        NotebookStore::close_notebook(1, 1, 9, 1, &notarizations, &origins, &NotebookHistory::new(), &mut ChainTransferStore::new())
            .unwrap();
    assert_eq!(
        closed.header.changed_accounts_root,
        root_of(vec![deposit_tip(bob(), 1000, 1).encode(), deposit_tip(dave(), 700, 2).encode()])
    );
    assert_eq!(closed.header.tax, 350);
    assert_eq!(closed.header.block_votes_count, 2);
    assert_eq!(closed.header.block_voting_power, 35);
    assert_eq!(closed.header.block_votes_root, root_of(vec![vote(0, 15).encode(), vote(1, 20).encode()]));
    assert_eq!(closed.header.tick, 9);
}

#[test]
fn close_aborts_on_unresolved_references_and_keeps_transfers() {
    let mut transfers = ChainTransferStore::new();
    transfers.record_transfer_to_mainchain(1, &bob(), 5, 10).unwrap();
    let mut second = plain_change(bob(), 700, vec![]);
    second.change_number = 2;
    second.previous_balance_proof = Some(BalanceProof {
        notary_id: 1,
        notebook_number: 1,
        tick: 1,
        notebook_proof: None,
        account_origin: origin(1),
        balance: 1000,
    });
    let origins = vec![NewAccountOrigin::new(bob(), AccountType::Deposit, 1)];
    let notarizations = vec![
        Notarization { balance_changes: vec![plain_change(bob(), 1000, vec![])], block_votes: vec![] },
        Notarization { balance_changes: vec![second.clone()], block_votes: vec![] },
    ];
    assert_eq!(
        NotebookStore::close_notebook(1, 1, 1, 1, &notarizations, &origins, &NotebookHistory::new(), &mut transfers)
            .unwrap_err(),
        NotebookError::UnresolvedPreviousBalance
    );
    assert_eq!(transfers.rows.len(), 1);

    // a reference to an earlier notebook that the history does not know
    second.previous_balance_proof.as_mut().unwrap().notebook_number = 0;
    let notarizations = vec![Notarization { balance_changes: vec![second], block_votes: vec![] }];
    assert_eq!(
        NotebookStore::close_notebook(1, 1, 1, 1, &notarizations, &origins, &NotebookHistory::new(), &mut transfers)
            .unwrap_err(),
        NotebookError::UnresolvedPreviousBalance
    );
    assert_eq!(transfers.rows.len(), 1);
}

#[test]
fn new_accounts_get_uids_in_encounter_order() {
    let mut known = plain_change(dave(), 1, vec![]);
    known.previous_balance_proof = Some(BalanceProof {
        notary_id: 1,
        notebook_number: 1,
        tick: 1,
        notebook_proof: None,
        account_origin: origin(9),
        balance: 1,
    });
    let notarizations = vec![
        Notarization { balance_changes: vec![plain_change(bob(), 1, vec![]), known], block_votes: vec![] },
        Notarization { balance_changes: vec![plain_change(alice(), 1, vec![]), plain_change(bob(), 1, vec![])], block_votes: vec![] },
    ];
    let origins = NotebookStore::assign_new_account_origins(&notarizations, 7).unwrap();
    assert_eq!(origins.len(), 2);
    assert_eq!((origins[0].account_id, origins[0].account_uid), (bob(), 7));
    assert_eq!((origins[1].account_id, origins[1].account_uid), (alice(), 8));
    assert_eq!(
        NotebookStore::assign_new_account_origins(&notarizations, u32::MAX).unwrap_err(),
        NotebookError::TooManyRecords
    );
}

#[test]
fn close_fails_without_account_origin() {
    let notarizations =
        vec![Notarization { balance_changes: vec![plain_change(bob(), 10, vec![])], block_votes: vec![] }];
    assert_eq!(
        NotebookStore::close_notebook(1, 1, 1, 1, &notarizations, &vec![], &NotebookHistory::new(), &mut ChainTransferStore::new()).unwrap_err(),
        NotebookError::MissingAccountOrigin
    );
}

#[test]
fn close_fails_when_tax_overflows() {
    let notarizations = vec![Notarization {
        balance_changes: vec![plain_change(
            bob(),
            0,
            vec![Note::create(u128::MAX, NoteType::Tax), Note::create(1, NoteType::Tax)],
        )],
        block_votes: vec![],
    }];
    let origins = vec![NewAccountOrigin::new(bob(), AccountType::Deposit, 1)];
    assert_eq!(
        NotebookStore::close_notebook(1, 1, 1, 1, &notarizations, &origins, &NotebookHistory::new(), &mut ChainTransferStore::new()).unwrap_err(),
        NotebookError::TaxOverflow
    );
}

#[test]
fn tip_encoding_is_fixed() {
    let tip = BalanceTip {
        account_id: [1u8; 32],
        account_type: AccountType::Deposit,
        change_number: 0x0102,
        balance: 0x0a0b,
        account_origin: AccountOrigin { notebook_number: 3, account_uid: 4 },
        channel_hold_note: None,
    };
    let bytes = tip.encode();
    assert_eq!(bytes.len(), 62);
    assert_eq!(&bytes[0..32], &[1u8; 32]);
    assert_eq!(bytes[32], 1);
    assert_eq!(&bytes[33..37], &[0x02, 0x01, 0, 0]);
    assert_eq!(&bytes[37..39], &[0x0b, 0x0a]);
    assert_eq!(&bytes[53..61], &[3, 0, 0, 0, 4, 0, 0, 0]);
    assert_eq!(bytes[61], 0);
    let mut held = tip;
    held.channel_hold_note = Some(Note::create(5, NoteType::ChannelHold { recipient: [9u8; 32] }));
    let bytes = held.encode();
    assert_eq!(bytes.len(), 62 + 16 + 1 + 32);
    assert_eq!(bytes[61], 1);
    assert_eq!(bytes[62], 5);
    assert_eq!(bytes[78], 6);
}

#[test]
fn header_hash_is_blake2_of_encoding() {
    let notarizations =
        vec![Notarization { balance_changes: vec![plain_change(bob(), 10, vec![])], block_votes: vec![] }];
    let origins = vec![NewAccountOrigin::new(bob(), AccountType::Deposit, 1)];
    let closed = NotebookStore::close_notebook(2, 1, 1, 1, &notarizations, &origins, &NotebookHistory::new(), &mut ChainTransferStore::new()).unwrap();
    let encoded = closed.header.encode();
    let expected = <sp_core::Blake2Hasher as sp_core::Hasher>::hash(&encoded).0;
    assert_eq!(closed.hash, expected);
    assert_ne!(closed.hash, [0u8; 32]);
    let empty_proof = MerkleProof { proof: vec![], number_of_leaves: 1, leaf_index: 1 };
    assert!(!NotebookStore::is_valid_proof(&closed.header.changed_accounts_root, &deposit_tip(bob(), 10, 1), &empty_proof));
}

#[test]
fn proof_response_carries_the_reference_for_the_next_change() {
    let notarizations =
        vec![Notarization { balance_changes: vec![plain_change(bob(), 10, vec![]), plain_change(alice(), 20, vec![])], block_votes: vec![] }];
    let origins = vec![
        NewAccountOrigin::new(bob(), AccountType::Deposit, 1),
        NewAccountOrigin::new(alice(), AccountType::Deposit, 2),
    ];
    let closed = NotebookStore::close_notebook(3, 1, 12, 1, &notarizations, &origins, &NotebookHistory::new(), &mut ChainTransferStore::new()).unwrap();
    let tip = deposit_tip(alice(), 20, 2);
    let response = NotebookStore::balance_proof_response(3, 1, 12, &closed.change_merkle_leaves, &tip).unwrap();
    assert_eq!(response.notary_id, 3);
    assert_eq!(response.tick, 12);
    assert_eq!(response.balance, 20);
    assert_eq!(response.account_origin, origin(2));
    let proof = response.notebook_proof.unwrap();
    assert_eq!(proof.leaf_index, 1);
    assert_eq!(proof.number_of_leaves, 2);
    assert!(NotebookStore::is_valid_proof(&closed.header.changed_accounts_root, &tip, &proof));
    assert_eq!(
        NotebookStore::balance_proof_response(3, 1, 12, &closed.change_merkle_leaves, &deposit_tip(alice(), 21, 2)).unwrap_err(),
        NotebookError::InvalidBalanceProofRequested
    );
}
