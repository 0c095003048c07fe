use notary_ledger::audit::{notebook_verify, verify_previous_balance_proof, VerifyError};
use notary_ledger::history::NotebookHistory;
use notary_ledger::model::{
    AccountId, AccountOrigin, AccountType, BalanceChange, BalanceProof, BalanceTip, ChainTransfer, MerkleProof,
    NewAccountOrigin, Notarization, Note, NoteType, Notebook, NotebookHeader,
};

fn hex32(s: &str) -> AccountId {
    let mut out = [0u8; 32];
    for i in 0..32 {
        out[i] = u8::from_str_radix(&s[2 * i..2 * i + 2], 16).unwrap();
    }
    out
}

fn alice() -> AccountId {
    hex32("d43593c715fdd31c61141abd04a99fd6822c8558854ccde39a5684e7a56da27d")
}

fn bob() -> AccountId {
    hex32("8eaf04151687736326c9fea17e25fc5287613693c912909cb226aa4794f26a48")
}

fn dave() -> AccountId {
    [0x44u8; 32]
}

fn ferdie() -> AccountId {
    [0x46u8; 32]
}

fn root_of(leaves: Vec<Vec<u8>>) -> [u8; 32] {
    binary_merkle_tree::merkle_root::<sp_core::Blake2Hasher, _>(leaves).0
}

fn tip(account_id: AccountId, account_type: AccountType, balance: u128, change_number: u32, uid: u32, hold: Option<Note>) -> BalanceTip {
    BalanceTip {
        account_id,
        account_type,
        balance,
        change_number,
        account_origin: AccountOrigin { notebook_number: 1, account_uid: uid },
        channel_hold_note: hold,
    }
}

fn change(account_id: AccountId, account_type: AccountType, change_number: u32, balance: u128, notes: Vec<Note>) -> BalanceChange {
    BalanceChange {
        account_id,
        account_type,
        change_number,
        balance,
        previous_balance_proof: None,
        channel_hold_note: None,
        notes,
    }
}

fn same_notebook_proof(uid: u32, balance: u128) -> Option<BalanceProof> {
    Some(BalanceProof {
        notary_id: 1,
        notebook_number: 1,
        tick: 1,
        notebook_proof: None,
        account_origin: AccountOrigin { notebook_number: 1, account_uid: uid },
        balance,
    })
}

fn header(root: [u8; 32], transfers: Vec<ChainTransfer>, origins: Vec<AccountOrigin>) -> NotebookHeader {
    NotebookHeader {
        version: 1,
        notary_id: 1,
        notebook_number: 1,
        tick: 1,
        finalized_block_number: 100,
        changed_accounts_root: root,
        changed_account_origins: origins,
        chain_transfers: transfers,
        block_votes_root: root_of(vec![]),
        block_votes_count: 0,
        block_voting_power: 0,
        tax: 0,
    }
}

fn notarization(changes: Vec<BalanceChange>) -> Notarization {
    Notarization { balance_changes: changes, block_votes: vec![] }
}

fn history_with_alice_deposit() -> NotebookHistory {
    let mut history = NotebookHistory::new();
    history.localchain_transfers.push((alice(), 1));
    history
}

#[test]
fn test_verify_previous_balance() {
    let account_id = alice();
    let account_type = AccountType::Deposit;
    let mut change = change(account_id, account_type, 500, 0, vec![]);
    let leaves = vec![
        BalanceTip {
            account_id: dave(),
            account_type: AccountType::Deposit,
            balance: 20,
            change_number: 3,
            account_origin: AccountOrigin { notebook_number: 5, account_uid: 2 },
            channel_hold_note: None,
        }
        .encode(),
        BalanceTip {
            account_id: bob(),
            account_type: AccountType::Deposit,
            balance: 100,
            change_number: 1,
            account_origin: AccountOrigin { notebook_number: 6, account_uid: 1 },
            channel_hold_note: None,
        }
        .encode(),
        BalanceTip {
            account_id: change.account_id,
            account_type: change.account_type,
            balance: 100,
            change_number: change.change_number - 1,
            account_origin: AccountOrigin { notebook_number: 1, account_uid: 1 },
            channel_hold_note: None,
        }
        .encode(),
    ];
    let merkle_root = root_of(leaves.clone());
    let mut shifted = [0u8; 32];
    shifted[1..].copy_from_slice(&merkle_root[0..31]);
    let mut history = NotebookHistory::new();
    history.account_changes_roots.push((7, shifted));
    let origin = AccountOrigin { notebook_number: 1, account_uid: 1 };
    history.last_changed_notebooks.push((origin, 10));

    let proof = binary_merkle_tree::merkle_proof::<sp_core::Blake2Hasher, _, _>(leaves, 2);
    change.previous_balance_proof = Some(BalanceProof {
        notary_id: 1,
        notebook_number: 7,
        tick: 1,
        notebook_proof: Some(MerkleProof {
            proof: proof.proof.iter().map(|h| h.0).collect(),
            leaf_index: proof.leaf_index,
            number_of_leaves: proof.number_of_leaves,
        }),
        account_origin: origin,
        balance: 100,
    });
    let balance_proof = change.previous_balance_proof.clone().unwrap();

    assert_eq!(
        verify_previous_balance_proof(&balance_proof, &history, &change),
        Err(VerifyError::InvalidPreviousBalanceChangeNotebook)
    );

    history.last_changed_notebooks[0] = (origin, 7);
    assert_eq!(
        verify_previous_balance_proof(&balance_proof, &history, &change),
        Err(VerifyError::InvalidPreviousBalanceProof)
    );

    history.account_changes_roots[0] = (7, merkle_root);
    assert_eq!(verify_previous_balance_proof(&balance_proof, &history, &change), Ok(()));
}

fn alice_claim_notebook(balance: u128, notes: Vec<Note>) -> Notebook {
    let changes = vec![change(alice(), AccountType::Deposit, 1, balance, notes)];
    let root = root_of(vec![tip(alice(), AccountType::Deposit, balance, 1, 1, None).encode()]);
    Notebook {
        header: header(
            root,
            vec![ChainTransfer::ToLocalchain { account_id: alice(), account_nonce: 1 }],
            vec![AccountOrigin { notebook_number: 1, account_uid: 1 }],
        ),
        notarizations: vec![notarization(changes)],
        new_account_origins: vec![NewAccountOrigin::new(alice(), AccountType::Deposit, 1)],
    }
}

#[test]
fn test_verify_notebook() {
    let history = history_with_alice_deposit();
    let notebook1 = alice_claim_notebook(
        1000,
        vec![Note::create(1000, NoteType::ClaimFromMainchain { account_nonce: 1 })],
    );
    let hash = notebook1.header.hash();

    assert_eq!(notebook_verify(&hash, &notebook1, &history), Ok(()));

    let mut bad_hash = hash;
    bad_hash[0] = 1;
    assert_eq!(notebook_verify(&bad_hash, &notebook1, &history), Err(VerifyError::InvalidNotebookHash));

    let mut bad_notebook1 = notebook1.clone();
    bad_notebook1
        .header
        .chain_transfers
        .insert(0, ChainTransfer::ToLocalchain { account_id: bob(), account_nonce: 2 });
    assert_eq!(
        notebook_verify(&hash, &bad_notebook1, &history),
        Err(VerifyError::InvalidChainTransfersList)
    );

    let mut bad_notebook = notebook1.clone();
    bad_notebook.header.changed_accounts_root[0] = 1;
    assert_eq!(
        notebook_verify(&hash, &bad_notebook, &history),
        Err(VerifyError::InvalidBalanceChangeRoot)
    );
}

#[test]
fn test_disallows_double_claim() {
    let history = history_with_alice_deposit();
    let notebook1 = alice_claim_notebook(
        2000,
        vec![
            Note::create(1000, NoteType::ClaimFromMainchain { account_nonce: 1 }),
            Note::create(1000, NoteType::ClaimFromMainchain { account_nonce: 1 }),
        ],
    );
    let hash = notebook1.header.hash();
    assert_eq!(notebook_verify(&hash, &notebook1, &history), Err(VerifyError::DuplicateChainTransfer));
}

#[test]
fn test_multiple_changesets_in_a_notebook() {
    let history = history_with_alice_deposit();
    let changeset1 = vec![
        change(
            alice(),
            AccountType::Deposit,
            1,
            0,
            vec![
                Note::create(1000, NoteType::ClaimFromMainchain { account_nonce: 1 }),
                Note::create(1000, NoteType::Send { to: None }),
            ],
        ),
        change(
            bob(),
            AccountType::Deposit,
            1,
            800,
            vec![Note::create(1000, NoteType::Claim), Note::create(200, NoteType::Tax)],
        ),
        change(bob(), AccountType::Tax, 1, 200, vec![Note::create(200, NoteType::Claim)]),
    ];
    // tips in the order the accounts were first seen
    let mut balance_tips = vec![
        tip(alice(), AccountType::Deposit, 0, 1, 1, None),
        tip(bob(), AccountType::Deposit, 800, 1, 2, None),
        tip(bob(), AccountType::Tax, 200, 1, 3, None),
    ];
    let leaves = |tips: &Vec<BalanceTip>| tips.iter().map(|t| t.encode()).collect::<Vec<_>>();

    let mut notebook = Notebook {
        header: header(
            root_of(leaves(&balance_tips)),
            vec![ChainTransfer::ToLocalchain { account_id: alice(), account_nonce: 1 }],
            vec![
                AccountOrigin { notebook_number: 1, account_uid: 1 },
                AccountOrigin { notebook_number: 1, account_uid: 2 },
                AccountOrigin { notebook_number: 1, account_uid: 3 },
            ],
        ),
        notarizations: vec![notarization(changeset1)],
        new_account_origins: vec![
            NewAccountOrigin::new(alice(), AccountType::Deposit, 1),
            NewAccountOrigin::new(bob(), AccountType::Deposit, 2),
            NewAccountOrigin::new(bob(), AccountType::Tax, 3),
        ],
    };

    assert_eq!(notebook_verify(&notebook.header.hash(), &notebook, &history), Ok(()));

    let changeset2 = vec![
        change(bob(), AccountType::Deposit, 2, 0, vec![Note::create(800, NoteType::Send { to: None })]),
        change(
            alice(),
            AccountType::Deposit,
            2,
            600,
            vec![Note::create(800, NoteType::Claim), Note::create(200, NoteType::Tax)],
        ),
        change(alice(), AccountType::Tax, 1, 200, vec![Note::create(200, NoteType::Claim)]),
    ];
    notebook.notarizations.push(notarization(changeset2));
    balance_tips[1].change_number = 2;
    balance_tips[1].balance = 0;
    balance_tips[0].change_number = 2;
    balance_tips[0].balance = 600;
    balance_tips.push(tip(alice(), AccountType::Tax, 200, 1, 4, None));
    notebook.new_account_origins.push(NewAccountOrigin::new(alice(), AccountType::Tax, 4));
    assert_eq!(
        notebook_verify(&notebook.header.hash(), &notebook, &history),
        Err(VerifyError::MissingBalanceProof)
    );

    notebook.header.changed_accounts_root = root_of(leaves(&balance_tips));
    notebook.notarizations[1].balance_changes[0].previous_balance_proof = same_notebook_proof(2, 800);
    notebook.notarizations[1].balance_changes[1].previous_balance_proof = same_notebook_proof(1, 0);
    notebook.notarizations[1].balance_changes[2].previous_balance_proof = same_notebook_proof(1, 0);
    assert_eq!(
        notebook_verify(&notebook.header.hash(), &notebook, &history),
        Err(VerifyError::InvalidPreviousBalanceProof)
    );
    notebook.header.changed_account_origins.push(AccountOrigin { notebook_number: 1, account_uid: 4 });

    // a reference to the notebook being audited has no committed root to prove against
    notebook.notarizations[1].balance_changes[2].previous_balance_proof = None;
    assert_eq!(
        notebook_verify(&notebook.header.hash(), &notebook, &history),
        Err(VerifyError::InvalidPreviousBalanceProof)
    );
}

#[test]
fn test_cannot_remove_lock_between_changesets_in_a_notebook() {
    let history = history_with_alice_deposit();
    let alice_balance_changeset = vec![change(
        alice(),
        AccountType::Deposit,
        1,
        1000,
        vec![Note::create(1000, NoteType::ClaimFromMainchain { account_nonce: 1 })],
    )];
    let mut second = change(
        alice(),
        AccountType::Deposit,
        2,
        1000,
        vec![Note::create(1000, NoteType::ChannelHold { recipient: bob() })],
    );
    second.previous_balance_proof = same_notebook_proof(1, 1000);
    let mut notebook = Notebook {
        header: header(
            root_of(vec![tip(alice(), AccountType::Deposit, 1000, 2, 1, None).encode()]),
            vec![ChainTransfer::ToLocalchain { account_id: alice(), account_nonce: 1 }],
            vec![AccountOrigin { notebook_number: 1, account_uid: 1 }],
        ),
        notarizations: vec![notarization(alice_balance_changeset), notarization(vec![second])],
        new_account_origins: vec![NewAccountOrigin::new(alice(), AccountType::Deposit, 1)],
    };

    // the second change refers to the notebook being audited, which has no committed root yet
    assert_eq!(
        notebook_verify(&notebook.header.hash(), &notebook, &history),
        Err(VerifyError::InvalidPreviousBalanceProof)
    );

    let hold_note = notebook.notarizations[1].balance_changes[0].notes[0];
    notebook.header.changed_accounts_root =
        root_of(vec![tip(alice(), AccountType::Deposit, 1000, 2, 1, Some(hold_note)).encode()]);
    assert_eq!(
        notebook_verify(&notebook.header.hash(), &notebook, &history),
        Err(VerifyError::InvalidPreviousBalanceProof)
    );

    {
        // Try 1: pretend the hold is not there
        let mut third = change(
            alice(),
            AccountType::Deposit,
            3,
            1000,
            vec![Note::create(1000, NoteType::ChannelHold { recipient: ferdie() })],
        );
        third.previous_balance_proof = same_notebook_proof(1, 1000);
        let mut notebook = notebook.clone();
        notebook.notarizations.push(notarization(vec![third]));
        let hold_note = notebook.notarizations[2].balance_changes[0].notes[0];
        notebook.header.changed_accounts_root =
            root_of(vec![tip(alice(), AccountType::Deposit, 1000, 3, 1, Some(hold_note)).encode()]);
        assert_eq!(
            notebook_verify(&notebook.header.hash(), &notebook, &history),
            Err(VerifyError::InvalidPreviousBalanceProof)
        );
    }
    {
        // Try 2: settle the hold in the same notebook
        let mut third = change(alice(), AccountType::Deposit, 3, 1000, vec![Note::create(0, NoteType::ChannelSettle)]);
        third.previous_balance_proof = same_notebook_proof(1, 1000);
        third.channel_hold_note = Some(Note::create(1000, NoteType::ChannelHold { recipient: bob() }));
        let mut notebook = notebook.clone();
        notebook.notarizations.push(notarization(vec![third]));
        let hold_note = notebook.notarizations[2].balance_changes[0].notes[0];
        notebook.header.changed_accounts_root =
            root_of(vec![tip(alice(), AccountType::Deposit, 1000, 3, 1, Some(hold_note)).encode()]);
        assert_eq!(
            notebook_verify(&notebook.header.hash(), &notebook, &history),
            Err(VerifyError::InvalidPreviousBalanceProof)
        );
    }
}

#[test]
fn a_hold_opened_in_a_notebook_stays_for_that_notebook() {
    let history = history_with_alice_deposit();
    let hold = Note::create(1000, NoteType::ChannelHold { recipient: bob() });
    let opening = change(
        alice(),
        AccountType::Deposit,
        1,
        1000,
        vec![Note::create(1000, NoteType::ClaimFromMainchain { account_nonce: 1 }), hold],
    );
    let mut notebook = Notebook {
        header: header(
            root_of(vec![tip(alice(), AccountType::Deposit, 1000, 1, 1, Some(hold)).encode()]),
            vec![ChainTransfer::ToLocalchain { account_id: alice(), account_nonce: 1 }],
            vec![AccountOrigin { notebook_number: 1, account_uid: 1 }],
        ),
        notarizations: vec![notarization(vec![opening])],
        new_account_origins: vec![NewAccountOrigin::new(alice(), AccountType::Deposit, 1)],
    };
    assert_eq!(notebook_verify(&notebook.header.hash(), &notebook, &history), Ok(()));

    let mut dropped = change(alice(), AccountType::Deposit, 2, 1000, vec![]);
    dropped.previous_balance_proof = same_notebook_proof(1, 1000);
    let mut with_dropped = notebook.clone();
    with_dropped.notarizations.push(notarization(vec![dropped]));
    assert_eq!(
        notebook_verify(&with_dropped.header.hash(), &with_dropped, &history),
        Err(VerifyError::InvalidChannelHoldNote)
    );

    let mut claim = change(alice(), AccountType::Deposit, 2, 1000, vec![Note::create(0, NoteType::ChannelSettle)]);
    claim.previous_balance_proof = same_notebook_proof(1, 1000);
    claim.channel_hold_note = Some(hold);
    notebook.notarizations.push(notarization(vec![claim]));
    assert_eq!(
        notebook_verify(&notebook.header.hash(), &notebook, &history),
        Err(VerifyError::ChannelHoldNotReadyForClaim)
    );
}
