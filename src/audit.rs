//! The balance-change audit engine: pure validation of one notebook against
//! the committed history.
use vstd::prelude::*;
use crate::bytes::{same_bytes, same_bytes32};
use crate::crypto::{blake2_256_of, merkle_root, merkle_root_of, merkle_verify, merkle_verify_of, hash_views};
use crate::history::{NotebookHistory, last_changed_at, root_at, transfer_known};
use crate::model::{AccountId, AccountOrigin, AccountType, BalanceChange, BalanceProof, BalanceTip, BlockVote, ChainTransfer, NewAccountOrigin, Note, NoteType, Notarization, Notebook, NotebookNumber, Tick, tip_bytes, vote_bytes, opt_note_bytes, transfer_bytes, header_bytes, push_opt_note, push_transfer};

verus! {

/// Ticks after the notebook holding a channel-hold tip before it may be settled.
pub const CHANNEL_HOLD_EXPIRATION_TICKS: u32 = 60;

/// Why a notebook or a changeset is rejected.
#[derive(Clone, Copy, Debug, PartialEq, Eq, Structural)]
pub enum VerifyError {
    InvalidNotebookHash,
    InvalidBalanceChangeRoot,
    InvalidBlockVoteRoot,
    InvalidAccountChangelist,
    InvalidChainTransfersList,
    DuplicateChainTransfer,
    InvalidChainTransferSource,
    InvalidPreviousBalanceChangeNotebook,
    InvalidPreviousBalanceProof,
    MissingBalanceProof,
    MissingAccountOrigin,
    InvalidChannelHoldNote,
    ChannelHoldNotReadyForClaim,
    InsufficientBalance,
    BalanceOverflow,
    BalanceChangeMismatch,
}

// ---------------------------------------------------------------------------
// Notes of one change

/// What scanning a change's notes has established so far.
pub ghost struct NoteScan {
    pub balance: int,
    pub transfers: Seq<ChainTransfer>,
    pub settled: bool,
    pub hold: Option<Note>,
}

pub open spec fn is_local_transfer(t: ChainTransfer, account: Seq<u8>, nonce: u32) -> bool {
    match t {
        ChainTransfer::ToLocalchain { account_id, account_nonce } => account_id@ == account
            && account_nonce == nonce,
        _ => false,
    }
}

pub open spec fn has_local_transfer(s: Seq<ChainTransfer>, account: Seq<u8>, nonce: u32) -> bool {
    exists|k: int| 0 <= k < s.len() && is_local_transfer(s[k], account, nonce)
}

pub open spec fn debit(st: NoteScan, amount: u128) -> Result<NoteScan, VerifyError> {
    if amount > st.balance {
        Err(VerifyError::InsufficientBalance)
    } else {
        Ok(NoteScan { balance: st.balance - amount, ..st })
    }
}

pub open spec fn credit(st: NoteScan, amount: u128) -> Result<NoteScan, VerifyError> {
    if st.balance + amount > u128::MAX {
        Err(VerifyError::BalanceOverflow)
    } else {
        Ok(NoteScan { balance: st.balance + amount, ..st })
    }
}

/// The effect of one note: credits add, debits may not go below zero, a
/// claim from the settlement chain must be a known deposit claimed once, a
/// hold may not exceed the balance and only one may be opened.
pub open spec fn scan_note(
    st: NoteScan,
    note: Note,
    account: AccountId,
    known: Seq<(AccountId, u32)>,
) -> Result<NoteScan, VerifyError> {
    match note.note_type {
        NoteType::Claim => credit(st, note.milligons),
        NoteType::ClaimFromMainchain { account_nonce } => {
            if has_local_transfer(st.transfers, account@, account_nonce) {
                Err(VerifyError::DuplicateChainTransfer)
            } else if !transfer_known(known, account@, account_nonce) {
                Err(VerifyError::InvalidChainTransferSource)
            } else {
                credit(
                    NoteScan {
                        transfers: st.transfers.push(
                            ChainTransfer::ToLocalchain { account_id: account, account_nonce },
                        ),
                        ..st
                    },
                    note.milligons,
                )
            }
        },
        NoteType::SendToMainchain => debit(
            NoteScan {
                transfers: st.transfers.push(
                    ChainTransfer::ToMainchain { account_id: account, amount: note.milligons },
                ),
                ..st
            },
            note.milligons,
        ),
        NoteType::ChannelSettle => debit(NoteScan { settled: true, ..st }, note.milligons),
        NoteType::ChannelHold { .. } => {
            if note.milligons > st.balance {
                Err(VerifyError::InsufficientBalance)
            } else if st.hold is Some {
                Err(VerifyError::InvalidChannelHoldNote)
            } else {
                Ok(NoteScan { hold: Some(note), ..st })
            }
        },
        _ => debit(st, note.milligons),
    }
}

pub open spec fn scan_notes(
    notes: Seq<Note>,
    start: NoteScan,
    account: AccountId,
    known: Seq<(AccountId, u32)>,
) -> Result<NoteScan, VerifyError>
    decreases notes.len(),
{
    if notes.len() == 0 {
        Ok(start)
    } else {
        match scan_notes(notes.drop_last(), start, account, known) {
            Err(e) => Err(e),
            Ok(st) => scan_note(st, notes.last(), account, known),
        }
    }
}

pub proof fn lemma_scan_err(
    notes: Seq<Note>,
    m: int,
    start: NoteScan,
    account: AccountId,
    known: Seq<(AccountId, u32)>,
)
    requires
        0 <= m <= notes.len(),
        scan_notes(notes.subrange(0, m), start, account, known) is Err,
    ensures
        scan_notes(notes, start, account, known) == scan_notes(notes.subrange(0, m), start, account, known),
    decreases notes.len(),
{
    if m < notes.len() {
        assert(notes.drop_last().subrange(0, m) =~= notes.subrange(0, m));
        lemma_scan_err(notes.drop_last(), m, start, account, known);
    } else {
        assert(notes.subrange(0, m) =~= notes);
    }
}

fn has_local_transfer_exec(s: &Vec<ChainTransfer>, account: &AccountId, nonce: u32) -> (r: bool)
    ensures
        r == has_local_transfer(s@, account@, nonce),
{
    let mut i: usize = 0;
    while i < s.len()
        invariant
            i <= s@.len(),
            forall|j: int| 0 <= j < i ==> !is_local_transfer(#[trigger] s@[j], account@, nonce),
        decreases s@.len() - i,
    {
        match &s[i] {
            ChainTransfer::ToLocalchain { account_id, account_nonce } => {
                if *account_nonce == nonce && same_bytes32(account_id, account) {
                    assert(is_local_transfer(s@[i as int], account@, nonce));
                    return true;
                }
            },
            _ => {},
        }
        i = i + 1;
    }
    false
}

/// Scans the notes of one change, from the previous balance, extending the
/// notebook's list of chain transfers.
fn scan_change_notes(
    notes: &Vec<Note>,
    balance: u128,
    transfers: &mut Vec<ChainTransfer>,
    account: &AccountId,
    history: &NotebookHistory,
) -> (r: Result<(u128, bool, Option<Note>), VerifyError>)
    ensures
        ({
            let start = NoteScan { balance: balance as int, transfers: old(transfers)@, settled: false, hold: None };
            match scan_notes(notes@, start, *account, history.localchain_transfers@) {
                Err(e) => r == Err::<(u128, bool, Option<Note>), VerifyError>(e),
                Ok(st) => r is Ok && r->Ok_0.0 as int == st.balance && r->Ok_0.1 == st.settled
                    && r->Ok_0.2 == st.hold && final(transfers)@ == st.transfers,
            }
        }),
{
    let ghost start = NoteScan { balance: balance as int, transfers: transfers@, settled: false, hold: None };
    let mut bal: u128 = balance;
    let mut settled = false;
    let mut hold: Option<Note> = None;
    let mut i: usize = 0;
    while i < notes.len()
        invariant
            i <= notes@.len(),
            start.transfers == old(transfers)@,
            start.balance == balance as int,
            !start.settled,
            start.hold is None,
            scan_notes(notes@.subrange(0, i as int), start, *account, history.localchain_transfers@)
                == Ok::<NoteScan, VerifyError>(
                NoteScan { balance: bal as int, transfers: transfers@, settled, hold },
            ),
        decreases notes@.len() - i,
    {
        let ghost cur = NoteScan { balance: bal as int, transfers: transfers@, settled, hold };
        let ghost pre = notes@.subrange(0, i as int);
        let ghost next = notes@.subrange(0, i as int + 1);
        assert(next.drop_last() =~= pre);
        assert(next.last() == notes@[i as int]);
        let note = notes[i];
        match note.note_type {
            NoteType::Claim => {
                if bal > u128::MAX - note.milligons {
                    proof {
                        lemma_scan_err(notes@, i as int + 1, start, *account, history.localchain_transfers@);
                    }
                    return Err(VerifyError::BalanceOverflow);
                }
                bal = bal + note.milligons;
            },
            NoteType::ClaimFromMainchain { account_nonce } => {
                if has_local_transfer_exec(transfers, account, account_nonce) {
                    proof {
                        lemma_scan_err(notes@, i as int + 1, start, *account, history.localchain_transfers@);
                    }
                    return Err(VerifyError::DuplicateChainTransfer);
                }
                if !history.is_valid_transfer_to_localchain(account, account_nonce) {
                    proof {
                        lemma_scan_err(notes@, i as int + 1, start, *account, history.localchain_transfers@);
                    }
                    return Err(VerifyError::InvalidChainTransferSource);
                }
                transfers.push(ChainTransfer::ToLocalchain { account_id: *account, account_nonce });
                if bal > u128::MAX - note.milligons {
                    proof {
                        lemma_scan_err(notes@, i as int + 1, start, *account, history.localchain_transfers@);
                    }
                    return Err(VerifyError::BalanceOverflow);
                }
                bal = bal + note.milligons;
            },
            NoteType::SendToMainchain => {
                transfers.push(ChainTransfer::ToMainchain { account_id: *account, amount: note.milligons });
                if note.milligons > bal {
                    proof {
                        lemma_scan_err(notes@, i as int + 1, start, *account, history.localchain_transfers@);
                    }
                    return Err(VerifyError::InsufficientBalance);
                }
                bal = bal - note.milligons;
            },
            NoteType::ChannelSettle => {
                settled = true;
                if note.milligons > bal {
                    proof {
                        lemma_scan_err(notes@, i as int + 1, start, *account, history.localchain_transfers@);
                    }
                    return Err(VerifyError::InsufficientBalance);
                }
                bal = bal - note.milligons;
            },
            NoteType::ChannelHold { .. } => {
                if note.milligons > bal {
                    proof {
                        lemma_scan_err(notes@, i as int + 1, start, *account, history.localchain_transfers@);
                    }
                    return Err(VerifyError::InsufficientBalance);
                }
                if hold.is_some() {
                    proof {
                        lemma_scan_err(notes@, i as int + 1, start, *account, history.localchain_transfers@);
                    }
                    return Err(VerifyError::InvalidChannelHoldNote);
                }
                hold = Some(note);
            },
            _ => {
                if note.milligons > bal {
                    proof {
                        lemma_scan_err(notes@, i as int + 1, start, *account, history.localchain_transfers@);
                    }
                    return Err(VerifyError::InsufficientBalance);
                }
                bal = bal - note.milligons;
            },
        }
        i = i + 1;
    }
    assert(notes@.subrange(0, i as int) =~= notes@);
    Ok((bal, settled, hold))
}

// ---------------------------------------------------------------------------
// Previous-balance references

/// The tip that a reference claims was the account's state before `change`.
pub open spec fn claimed_previous_tip(p: BalanceProof, change: BalanceChange) -> BalanceTip {
    BalanceTip {
        account_id: change.account_id,
        account_type: change.account_type,
        change_number: (change.change_number - 1) as u32,
        balance: p.balance,
        account_origin: p.account_origin,
        channel_hold_note: change.channel_hold_note,
    }
}

/// A reference to an earlier notebook is valid when that notebook is where the
/// origin last changed, and its merkle proof recovers the claimed tip against
/// that notebook's committed root.
pub open spec fn previous_proof_check(
    p: BalanceProof,
    history: NotebookHistory,
    change: BalanceChange,
) -> Result<(), VerifyError> {
    match last_changed_at(history.last_changed_notebooks@, p.account_origin) {
        None => Err(VerifyError::InvalidPreviousBalanceChangeNotebook),
        Some(n) => {
            if n != p.notebook_number {
                Err(VerifyError::InvalidPreviousBalanceChangeNotebook)
            } else if change.change_number == 0 {
                Err(VerifyError::InvalidPreviousBalanceProof)
            } else {
                match p.notebook_proof {
                    None => Err(VerifyError::MissingBalanceProof),
                    Some(mp) => match root_at(history.account_changes_roots@, p.notebook_number) {
                        None => Err(VerifyError::InvalidPreviousBalanceProof),
                        Some(root) => {
                            if merkle_verify_of(
                                root@,
                                hash_views(mp.proof@),
                                mp.number_of_leaves as nat,
                                mp.leaf_index as nat,
                                tip_bytes(claimed_previous_tip(p, change)),
                            ) {
                                Ok(())
                            } else {
                                Err(VerifyError::InvalidPreviousBalanceProof)
                            }
                        },
                    },
                }
            }
        },
    }
}

/// Checks a change's reference to the tip committed in an earlier notebook.
pub fn verify_previous_balance_proof(
    proof: &BalanceProof,
    history: &NotebookHistory,
    change: &BalanceChange,
) -> (r: Result<(), VerifyError>)
    ensures
        r == previous_proof_check(*proof, *history, *change),
{
    match history.get_last_changed_notebook(&proof.account_origin) {
        None => {
            return Err(VerifyError::InvalidPreviousBalanceChangeNotebook);
        },
        Some(n) => {
            if n != proof.notebook_number {
                return Err(VerifyError::InvalidPreviousBalanceChangeNotebook);
            }
        },
    }
    if change.change_number == 0 {
        return Err(VerifyError::InvalidPreviousBalanceProof);
    }
    let mp = match &proof.notebook_proof {
        None => {
            return Err(VerifyError::MissingBalanceProof);
        },
        Some(mp) => mp,
    };
    let root = match history.get_account_changes_root(proof.notebook_number) {
        None => {
            return Err(VerifyError::InvalidPreviousBalanceProof);
        },
        Some(root) => root,
    };
    let expected = BalanceTip {
        account_id: change.account_id,
        account_type: change.account_type,
        change_number: change.change_number - 1,
        balance: proof.balance,
        account_origin: proof.account_origin,
        channel_hold_note: change.channel_hold_note,
    };
    let leaf = expected.encode();
    if merkle_verify(&root, &mp.proof, mp.number_of_leaves, mp.leaf_index, &leaf) {
        Ok(())
    } else {
        Err(VerifyError::InvalidPreviousBalanceProof)
    }
}

// ---------------------------------------------------------------------------
// One change

/// The audit's running state: the tips in discovery order and the chain
/// transfers found so far.
pub ghost struct AuditSt {
    pub tips: Seq<BalanceTip>,
    pub transfers: Seq<ChainTransfer>,
}

pub open spec fn key_matches(t: BalanceTip, id: Seq<u8>, ty: AccountType) -> bool {
    t.account_id@ == id && t.account_type == ty
}

pub open spec fn is_first_key(tips: Seq<BalanceTip>, id: Seq<u8>, ty: AccountType, k: int) -> bool {
    0 <= k < tips.len() && key_matches(tips[k], id, ty) && forall|j: int|
        0 <= j < k ==> !key_matches(#[trigger] tips[j], id, ty)
}

/// The position of the account's tip among `tips`, if it has one.
pub open spec fn find_key(tips: Seq<BalanceTip>, id: Seq<u8>, ty: AccountType) -> Option<int> {
    if exists|k: int| is_first_key(tips, id, ty, k) {
        Some(choose|k: int| is_first_key(tips, id, ty, k))
    } else {
        None
    }
}

pub fn find_tip(tips: &Vec<BalanceTip>, id: &AccountId, ty: AccountType) -> (r: Option<usize>)
    ensures
        match r {
            Some(i) => find_key(tips@, id@, ty) == Some(i as int),
            None => find_key(tips@, id@, ty) is None,
        },
{
    let mut i: usize = 0;
    while i < tips.len()
        invariant
            i <= tips@.len(),
            forall|j: int| 0 <= j < i ==> !key_matches(#[trigger] tips@[j], id@, ty),
        decreases tips@.len() - i,
    {
        if tips[i].account_type == ty && same_bytes32(&tips[i].account_id, id) {
            assert(is_first_key(tips@, id@, ty, i as int));
            let ghost c = choose|k: int| is_first_key(tips@, id@, ty, k);
            assert(c == i as int) by {
                if c < i as int {
                    assert(!key_matches(tips@[c], id@, ty));
                } else if c > i as int {
                    assert(!key_matches(tips@[i as int], id@, ty));
                }
            }
            return Some(i);
        }
        i = i + 1;
    }
    assert(!exists|k: int| is_first_key(tips@, id@, ty, k));
    None
}

pub open spec fn is_first_origin(s: Seq<NewAccountOrigin>, id: Seq<u8>, ty: AccountType, k: int) -> bool {
    0 <= k < s.len() && s[k].account_id@ == id && s[k].account_type == ty && forall|j: int|
        0 <= j < k ==> !(#[trigger] s[j].account_id@ == id && s[j].account_type == ty)
}

/// The uid given to the account in this notebook, if it is new here.
pub open spec fn new_origin_uid(s: Seq<NewAccountOrigin>, id: Seq<u8>, ty: AccountType) -> Option<u32> {
    if exists|k: int| is_first_origin(s, id, ty, k) {
        Some(s[choose|k: int| is_first_origin(s, id, ty, k)].account_uid)
    } else {
        None
    }
}

pub fn find_new_origin(s: &Vec<NewAccountOrigin>, id: &AccountId, ty: AccountType) -> (r: Option<u32>)
    ensures
        r == new_origin_uid(s@, id@, ty),
{
    let mut i: usize = 0;
    while i < s.len()
        invariant
            i <= s@.len(),
            forall|j: int| 0 <= j < i ==> !(#[trigger] s@[j].account_id@ == id@ && s@[j].account_type == ty),
        decreases s@.len() - i,
    {
        if s[i].account_type == ty && same_bytes32(&s[i].account_id, id) {
            assert(is_first_origin(s@, id@, ty, i as int));
            let ghost c = choose|k: int| is_first_origin(s@, id@, ty, k);
            assert(c == i as int) by {
                if c < i as int {
                    assert(!(s@[c].account_id@ == id@ && s@[c].account_type == ty));
                } else if c > i as int {
                    assert(!(s@[i as int].account_id@ == id@ && s@[i as int].account_type == ty));
                }
            }
            return Some(s[i].account_uid);
        }
        i = i + 1;
    }
    assert(!exists|k: int| is_first_origin(s@, id@, ty, k));
    None
}

/// Where a change starts from.
pub ghost struct ChangeStart {
    pub balance: int,
    pub hold: Option<Note>,
    pub hold_tick: int,
    pub origin: AccountOrigin,
}

/// Resolves the state a change builds on: nothing for an account's first
/// change ever, or a proven tip of an earlier notebook, which the change
/// restates with its hold. A reference to the notebook being audited never
/// resolves: no root of it is committed yet.
pub open spec fn change_start(
    st: AuditSt,
    c: BalanceChange,
    notebook_number: NotebookNumber,
    tick: Tick,
    new_origins: Seq<NewAccountOrigin>,
    history: NotebookHistory,
) -> Result<ChangeStart, VerifyError> {
    let local = find_key(st.tips, c.account_id@, c.account_type);
    match c.previous_balance_proof {
        None => {
            if local is Some || c.change_number != 1 {
                Err(VerifyError::MissingBalanceProof)
            } else if c.channel_hold_note is Some {
                Err(VerifyError::InvalidChannelHoldNote)
            } else {
                match new_origin_uid(new_origins, c.account_id@, c.account_type) {
                    None => Err(VerifyError::MissingAccountOrigin),
                    Some(uid) => Ok(
                        ChangeStart {
                            balance: 0,
                            hold: None,
                            hold_tick: tick as int,
                            origin: AccountOrigin { notebook_number, account_uid: uid },
                        },
                    ),
                }
            }
        },
        Some(p) => {
            if c.change_number <= 1 {
                Err(VerifyError::InvalidPreviousBalanceProof)
            } else if p.notebook_number == notebook_number {
                // No root of the notebook being audited is committed yet, so
                // nothing can be proven against it. A held tip of this
                // notebook reports its hold first.
                match local {
                    Some(k) => {
                        let prev = st.tips[k];
                        if prev.channel_hold_note is Some && opt_note_bytes(prev.channel_hold_note)
                            != opt_note_bytes(c.channel_hold_note) {
                            Err(VerifyError::InvalidChannelHoldNote)
                        } else if prev.channel_hold_note is Some && settles(c.notes@) {
                            Err(VerifyError::ChannelHoldNotReadyForClaim)
                        } else if prev.channel_hold_note is Some {
                            Err(VerifyError::InvalidChannelHoldNote)
                        } else {
                            Err(VerifyError::InvalidPreviousBalanceProof)
                        }
                    },
                    None => Err(VerifyError::InvalidPreviousBalanceProof),
                }
            } else if local is Some {
                Err(VerifyError::InvalidPreviousBalanceProof)
            } else {
                match previous_proof_check(p, history, c) {
                    Err(e) => Err(e),
                    Ok(_) => Ok(
                        ChangeStart {
                            balance: p.balance as int,
                            hold: c.channel_hold_note,
                            hold_tick: p.tick as int,
                            origin: p.account_origin,
                        },
                    ),
                }
            }
        },
    }
}

/// The new tip of the account after `c`, given its start and its notes.
pub open spec fn next_tip(c: BalanceChange, s: ChangeStart, sc: NoteScan) -> BalanceTip {
    BalanceTip {
        account_id: c.account_id,
        account_type: c.account_type,
        change_number: c.change_number,
        balance: c.balance,
        account_origin: s.origin,
        channel_hold_note: sc.hold,
    }
}

/// One change: its start, its notes, the hold rules (a held tip changes only
/// by settling, and only once the hold has expired), then the stated balance.
pub open spec fn apply_change(
    st: AuditSt,
    c: BalanceChange,
    notebook_number: NotebookNumber,
    tick: Tick,
    new_origins: Seq<NewAccountOrigin>,
    history: NotebookHistory,
) -> Result<AuditSt, VerifyError> {
    match change_start(st, c, notebook_number, tick, new_origins, history) {
        Err(e) => Err(e),
        Ok(s) => match scan_notes(
            c.notes@,
            NoteScan { balance: s.balance, transfers: st.transfers, settled: false, hold: None },
            c.account_id,
            history.localchain_transfers@,
        ) {
            Err(e) => Err(e),
            Ok(sc) => {
                if s.hold is Some && !sc.settled {
                    Err(VerifyError::InvalidChannelHoldNote)
                } else if s.hold is Some && tick < s.hold_tick + CHANNEL_HOLD_EXPIRATION_TICKS {
                    Err(VerifyError::ChannelHoldNotReadyForClaim)
                } else if s.hold is None && sc.settled {
                    Err(VerifyError::InvalidChannelHoldNote)
                } else if sc.balance != c.balance {
                    Err(VerifyError::BalanceChangeMismatch)
                } else {
                    let tip = next_tip(c, s, sc);
                    Ok(
                        AuditSt {
                            tips: match find_key(st.tips, c.account_id@, c.account_type) {
                                Some(k) => st.tips.update(k, tip),
                                None => st.tips.push(tip),
                            },
                            transfers: sc.transfers,
                        },
                    )
                }
            },
        },
    }
}

/// The exec form of the audit's running state.
pub struct AuditState {
    pub tips: Vec<BalanceTip>,
    pub transfers: Vec<ChainTransfer>,
}

/// Whether one of the notes settles a hold.
pub open spec fn settles(notes: Seq<Note>) -> bool {
    exists|k: int| 0 <= k < notes.len() && (#[trigger] notes[k]).note_type is ChannelSettle
}

fn settles_exec(notes: &Vec<Note>) -> (r: bool)
    ensures
        r == settles(notes@),
{
    let mut i: usize = 0;
    while i < notes.len()
        invariant
            i <= notes@.len(),
            forall|k: int| 0 <= k < i ==> !((#[trigger] notes@[k]).note_type is ChannelSettle),
        decreases notes@.len() - i,
    {
        if let NoteType::ChannelSettle = notes[i].note_type {
            assert(notes@[i as int].note_type is ChannelSettle);
            return true;
        }
        i = i + 1;
    }
    false
}

fn same_hold(a: &Option<Note>, b: &Option<Note>) -> (r: bool)
    ensures
        r == (opt_note_bytes(*a) == opt_note_bytes(*b)),
{
    let mut x: Vec<u8> = Vec::new();
    push_opt_note(&mut x, a);
    let mut y: Vec<u8> = Vec::new();
    push_opt_note(&mut y, b);
    assert(x@ =~= opt_note_bytes(*a));
    assert(y@ =~= opt_note_bytes(*b));
    same_bytes(&x, &y)
}

fn resolve_start(
    state: &AuditState,
    c: &BalanceChange,
    notebook_number: NotebookNumber,
    tick: Tick,
    new_origins: &Vec<NewAccountOrigin>,
    history: &NotebookHistory,
) -> (r: Result<(u128, bool, u32, AccountOrigin), VerifyError>)
    ensures
        match change_start(
            AuditSt { tips: state.tips@, transfers: state.transfers@ },
            *c,
            notebook_number,
            tick,
            new_origins@,
            *history,
        ) {
            Err(e) => r == Err::<(u128, bool, u32, AccountOrigin), VerifyError>(e),
            Ok(s) => r is Ok && r->Ok_0.0 as int == s.balance && r->Ok_0.1 == (s.hold is Some)
                && r->Ok_0.2 as int == s.hold_tick && r->Ok_0.3 == s.origin,
        },
{
    let local = find_tip(&state.tips, &c.account_id, c.account_type);
    match &c.previous_balance_proof {
        None => {
            if local.is_some() || c.change_number != 1 {
                return Err(VerifyError::MissingBalanceProof);
            }
            if c.channel_hold_note.is_some() {
                return Err(VerifyError::InvalidChannelHoldNote);
            }
            match find_new_origin(new_origins, &c.account_id, c.account_type) {
                None => Err(VerifyError::MissingAccountOrigin),
                Some(uid) => Ok((0u128, false, tick, AccountOrigin { notebook_number, account_uid: uid })),
            }
        },
        Some(p) => {
            if c.change_number <= 1 {
                return Err(VerifyError::InvalidPreviousBalanceProof);
            }
            if p.notebook_number == notebook_number {
                match local {
                    Some(k) => {
                        let prev = &state.tips[k];
                        if prev.channel_hold_note.is_some() {
                            if !same_hold(&prev.channel_hold_note, &c.channel_hold_note) {
                                return Err(VerifyError::InvalidChannelHoldNote);
                            }
                            if settles_exec(&c.notes) {
                                return Err(VerifyError::ChannelHoldNotReadyForClaim);
                            }
                            return Err(VerifyError::InvalidChannelHoldNote);
                        }
                        Err(VerifyError::InvalidPreviousBalanceProof)
                    },
                    None => Err(VerifyError::InvalidPreviousBalanceProof),
                }
            } else if local.is_some() {
                Err(VerifyError::InvalidPreviousBalanceProof)
            } else {
                match verify_previous_balance_proof(p, history, c) {
                    Err(e) => Err(e),
                    Ok(_) => Ok((p.balance, c.channel_hold_note.is_some(), p.tick, p.account_origin)),
                }
            }
        },
    }
}

/// Applies one change to the running audit state.
pub fn audit_change(
    state: &mut AuditState,
    c: &BalanceChange,
    notebook_number: NotebookNumber,
    tick: Tick,
    new_origins: &Vec<NewAccountOrigin>,
    history: &NotebookHistory,
) -> (r: Result<(), VerifyError>)
    ensures
        match apply_change(
            AuditSt { tips: old(state).tips@, transfers: old(state).transfers@ },
            *c,
            notebook_number,
            tick,
            new_origins@,
            *history,
        ) {
            Err(e) => r == Err::<(), VerifyError>(e),
            Ok(st) => r is Ok && final(state).tips@ == st.tips && final(state).transfers@ == st.transfers,
        },
{
    let (balance, held, hold_tick, origin) = match resolve_start(state, c, notebook_number, tick, new_origins, history) {
        Err(e) => {
            return Err(e);
        },
        Ok(s) => s,
    };
    let (bal, settled, new_hold) = match scan_change_notes(&c.notes, balance, &mut state.transfers, &c.account_id, history) {
        Err(e) => {
            return Err(e);
        },
        Ok(x) => x,
    };
    if held && !settled {
        return Err(VerifyError::InvalidChannelHoldNote);
    }
    if held && (tick as u64) < hold_tick as u64 + CHANNEL_HOLD_EXPIRATION_TICKS as u64 {
        return Err(VerifyError::ChannelHoldNotReadyForClaim);
    }
    if !held && settled {
        return Err(VerifyError::InvalidChannelHoldNote);
    }
    if bal != c.balance {
        return Err(VerifyError::BalanceChangeMismatch);
    }
    let tip = BalanceTip {
        account_id: c.account_id,
        account_type: c.account_type,
        change_number: c.change_number,
        balance: c.balance,
        account_origin: origin,
        channel_hold_note: new_hold,
    };
    match find_tip(&state.tips, &c.account_id, c.account_type) {
        Some(k) => {
            state.tips.set(k, tip);
        },
        None => {
            state.tips.push(tip);
        },
    }
    Ok(())
}

// ---------------------------------------------------------------------------
// The whole notebook

/// Every balance change of the notebook, in submission order.
pub open spec fn all_changes(n: Seq<Notarization>) -> Seq<BalanceChange>
    decreases n.len(),
{
    if n.len() == 0 {
        Seq::empty()
    } else {
        all_changes(n.drop_last()) + n.last().balance_changes@
    }
}

/// Every block vote of the notebook, in submission order.
pub open spec fn all_votes(n: Seq<Notarization>) -> Seq<BlockVote>
    decreases n.len(),
{
    if n.len() == 0 {
        Seq::empty()
    } else {
        all_votes(n.drop_last()) + n.last().block_votes@
    }
}

pub open spec fn apply_changes(
    changes: Seq<BalanceChange>,
    notebook_number: NotebookNumber,
    tick: Tick,
    new_origins: Seq<NewAccountOrigin>,
    history: NotebookHistory,
) -> Result<AuditSt, VerifyError>
    decreases changes.len(),
{
    if changes.len() == 0 {
        Ok(AuditSt { tips: Seq::empty(), transfers: Seq::empty() })
    } else {
        match apply_changes(changes.drop_last(), notebook_number, tick, new_origins, history) {
            Err(e) => Err(e),
            Ok(st) => apply_change(st, changes.last(), notebook_number, tick, new_origins, history),
        }
    }
}

pub open spec fn vote_matches(v: BlockVote, id: Seq<u8>, index: u32) -> bool {
    v.account_id@ == id && v.index == index
}

pub open spec fn is_first_vote(vs: Seq<BlockVote>, id: Seq<u8>, index: u32, k: int) -> bool {
    0 <= k < vs.len() && vote_matches(vs[k], id, index) && forall|j: int|
        0 <= j < k ==> !vote_matches(#[trigger] vs[j], id, index)
}

pub open spec fn find_vote(vs: Seq<BlockVote>, id: Seq<u8>, index: u32) -> Option<int> {
    if exists|k: int| is_first_vote(vs, id, index, k) {
        Some(choose|k: int| is_first_vote(vs, id, index, k))
    } else {
        None
    }
}

/// Adds a vote, replacing an earlier one of the same account and index in place.
pub open spec fn add_vote(vs: Seq<BlockVote>, v: BlockVote) -> Seq<BlockVote> {
    match find_vote(vs, v.account_id@, v.index) {
        Some(k) => vs.update(k, v),
        None => vs.push(v),
    }
}

/// The votes kept: the latest per account and index, in discovery order.
pub open spec fn dedup_votes(votes: Seq<BlockVote>) -> Seq<BlockVote>
    decreases votes.len(),
{
    if votes.len() == 0 {
        Seq::empty()
    } else {
        add_vote(dedup_votes(votes.drop_last()), votes.last())
    }
}

pub open spec fn tip_leaves(tips: Seq<BalanceTip>) -> Seq<Seq<u8>> {
    tips.map_values(|t: BalanceTip| tip_bytes(t))
}

pub open spec fn tip_origins(tips: Seq<BalanceTip>) -> Seq<AccountOrigin> {
    tips.map_values(|t: BalanceTip| t.account_origin)
}

pub open spec fn vote_leaves(votes: Seq<BlockVote>) -> Seq<Seq<u8>> {
    votes.map_values(|v: BlockVote| vote_bytes(v))
}

pub open spec fn transfer_listed(t: ChainTransfer, s: Seq<ChainTransfer>) -> bool {
    exists|k: int| 0 <= k < s.len() && transfer_bytes(s[k]) == transfer_bytes(t)
}

/// The two lists hold the same transfers, as sets.
pub open spec fn same_transfer_set(a: Seq<ChainTransfer>, b: Seq<ChainTransfer>) -> bool {
    (forall|k: int| 0 <= k < a.len() ==> transfer_listed(#[trigger] a[k], b)) && (forall|k: int|
        0 <= k < b.len() ==> transfer_listed(#[trigger] b[k], a))
}

/// The audit of a notebook against the hash it is published under.
pub open spec fn notebook_audit(hash: Seq<u8>, nb: Notebook, history: NotebookHistory) -> Result<(), VerifyError> {
    let h = nb.header;
    match apply_changes(all_changes(nb.notarizations@), h.notebook_number, h.tick, nb.new_account_origins@, history) {
        Err(e) => Err(e),
        Ok(st) => {
            let votes = dedup_votes(all_votes(nb.notarizations@));
            if !same_transfer_set(st.transfers, h.chain_transfers@) {
                Err(VerifyError::InvalidChainTransfersList)
            } else if merkle_root_of(tip_leaves(st.tips)) != h.changed_accounts_root@ {
                Err(VerifyError::InvalidBalanceChangeRoot)
            } else if tip_origins(st.tips) != h.changed_account_origins@ {
                Err(VerifyError::InvalidAccountChangelist)
            } else if merkle_root_of(vote_leaves(votes)) != h.block_votes_root@ || votes.len() != h.block_votes_count {
                Err(VerifyError::InvalidBlockVoteRoot)
            } else if h.changed_account_origins@.len() > u32::MAX || h.chain_transfers@.len() > u32::MAX
                || blake2_256_of(header_bytes(h)) != hash {
                Err(VerifyError::InvalidNotebookHash)
            } else {
                Ok(())
            }
        },
    }
}

pub fn find_vote_exec(vs: &Vec<BlockVote>, id: &AccountId, index: u32) -> (r: Option<usize>)
    ensures
        match r {
            Some(i) => find_vote(vs@, id@, index) == Some(i as int),
            None => find_vote(vs@, id@, index) is None,
        },
{
    let mut i: usize = 0;
    while i < vs.len()
        invariant
            i <= vs@.len(),
            forall|j: int| 0 <= j < i ==> !vote_matches(#[trigger] vs@[j], id@, index),
        decreases vs@.len() - i,
    {
        if vs[i].index == index && same_bytes32(&vs[i].account_id, id) {
            assert(is_first_vote(vs@, id@, index, i as int));
            let ghost c = choose|k: int| is_first_vote(vs@, id@, index, k);
            assert(c == i as int) by {
                if c < i as int {
                    assert(!vote_matches(vs@[c], id@, index));
                } else if c > i as int {
                    assert(!vote_matches(vs@[i as int], id@, index));
                }
            }
            return Some(i);
        }
        i = i + 1;
    }
    assert(!exists|k: int| is_first_vote(vs@, id@, index, k));
    None
}

/// The votes of a notebook, the latest per account and index, in discovery order.
pub fn collect_votes(notarizations: &Vec<Notarization>) -> (r: Vec<BlockVote>)
    ensures
        r@ == dedup_votes(all_votes(notarizations@)),
{
    let mut out: Vec<BlockVote> = Vec::new();
    let mut i: usize = 0;
    while i < notarizations.len()
        invariant
            i <= notarizations@.len(),
            out@ == dedup_votes(all_votes(notarizations@.subrange(0, i as int))),
        decreases notarizations@.len() - i,
    {
        let votes = &notarizations[i].block_votes;
        let ghost base = all_votes(notarizations@.subrange(0, i as int));
        let mut j: usize = 0;
        while j < votes.len()
            invariant
                j <= votes@.len(),
                votes@ == notarizations@[i as int].block_votes@,
                out@ == dedup_votes(base + votes@.subrange(0, j as int)),
            decreases votes@.len() - j,
        {
            let v = votes[j];
            let ghost pre = base + votes@.subrange(0, j as int);
            assert((base + votes@.subrange(0, j as int + 1)).drop_last() =~= pre);
            match find_vote_exec(&out, &v.account_id, v.index) {
                Some(k) => {
                    out.set(k, v);
                },
                None => {
                    out.push(v);
                },
            }
            j = j + 1;
        }
        assert(notarizations@.subrange(0, i as int + 1).drop_last() =~= notarizations@.subrange(0, i as int));
        assert(votes@.subrange(0, j as int) =~= votes@);
        i = i + 1;
    }
    assert(notarizations@.subrange(0, i as int) =~= notarizations@);
    out
}

/// The merkle leaves of a list of tips.
pub fn encode_tips(tips: &Vec<BalanceTip>) -> (r: Vec<Vec<u8>>)
    ensures
        crate::crypto::views(r@) == tip_leaves(tips@),
{
    let mut out: Vec<Vec<u8>> = Vec::new();
    let mut i: usize = 0;
    while i < tips.len()
        invariant
            i <= tips@.len(),
            out@.len() == i,
            forall|k: int| 0 <= k < i ==> (#[trigger] out@[k])@ == tip_bytes(tips@[k]),
        decreases tips@.len() - i,
    {
        let leaf = tips[i].encode();
        out.push(leaf);
        i = i + 1;
    }
    assert(crate::crypto::views(out@) =~= tip_leaves(tips@));
    out
}

/// The merkle leaves of a list of votes.
pub fn encode_votes(votes: &Vec<BlockVote>) -> (r: Vec<Vec<u8>>)
    ensures
        crate::crypto::views(r@) == vote_leaves(votes@),
{
    let mut out: Vec<Vec<u8>> = Vec::new();
    let mut i: usize = 0;
    while i < votes.len()
        invariant
            i <= votes@.len(),
            out@.len() == i,
            forall|k: int| 0 <= k < i ==> (#[trigger] out@[k])@ == vote_bytes(votes@[k]),
        decreases votes@.len() - i,
    {
        let leaf = votes[i].encode();
        out.push(leaf);
        i = i + 1;
    }
    assert(crate::crypto::views(out@) =~= vote_leaves(votes@));
    out
}

fn transfer_listed_exec(t: &ChainTransfer, s: &Vec<ChainTransfer>) -> (r: bool)
    ensures
        r == transfer_listed(*t, s@),
{
    let mut x: Vec<u8> = Vec::new();
    push_transfer(&mut x, t);
    assert(x@ =~= transfer_bytes(*t));
    let mut i: usize = 0;
    while i < s.len()
        invariant
            i <= s@.len(),
            x@ == transfer_bytes(*t),
            forall|j: int| 0 <= j < i ==> transfer_bytes(#[trigger] s@[j]) != transfer_bytes(*t),
        decreases s@.len() - i,
    {
        let mut y: Vec<u8> = Vec::new();
        push_transfer(&mut y, &s[i]);
        assert(y@ =~= transfer_bytes(s@[i as int]));
        if same_bytes(&x, &y) {
            return true;
        }
        i = i + 1;
    }
    false
}

fn all_listed(a: &Vec<ChainTransfer>, b: &Vec<ChainTransfer>) -> (r: bool)
    ensures
        r == (forall|k: int| 0 <= k < a@.len() ==> transfer_listed(#[trigger] a@[k], b@)),
{
    let mut i: usize = 0;
    while i < a.len()
        invariant
            i <= a@.len(),
            forall|k: int| 0 <= k < i ==> transfer_listed(#[trigger] a@[k], b@),
        decreases a@.len() - i,
    {
        if !transfer_listed_exec(&a[i], b) {
            return false;
        }
        i = i + 1;
    }
    true
}

fn origins_match(tips: &Vec<BalanceTip>, origins: &Vec<AccountOrigin>) -> (r: bool)
    ensures
        r == (tip_origins(tips@) == origins@),
{
    if tips.len() != origins.len() {
        assert(tip_origins(tips@).len() != origins@.len());
        return false;
    }
    let mut i: usize = 0;
    while i < tips.len()
        invariant
            i <= tips@.len(),
            tips@.len() == origins@.len(),
            forall|k: int| 0 <= k < i ==> tips@[k].account_origin == #[trigger] origins@[k],
        decreases tips@.len() - i,
    {
        let o = tips[i].account_origin;
        if o.notebook_number != origins[i].notebook_number || o.account_uid != origins[i].account_uid {
            assert(tip_origins(tips@)[i as int] != origins@[i as int]);
            return false;
        }
        i = i + 1;
    }
    assert(tip_origins(tips@) =~= origins@);
    true
}

/// Audits a notebook against the hash it is published under and the
/// committed history: every change, then the chain-transfer list, the
/// account-change root and origin list, the vote root, and last the hash.
pub fn notebook_verify(hash: &[u8; 32], notebook: &Notebook, history: &NotebookHistory) -> (r: Result<(), VerifyError>)
    ensures
        r == notebook_audit(hash@, *notebook, *history),
{
    let header = &notebook.header;
    let nts = &notebook.notarizations;
    let mut state = AuditState { tips: Vec::new(), transfers: Vec::new() };
    let mut failed: Option<VerifyError> = None;
    let mut i: usize = 0;
    while i < nts.len()
        invariant
            i <= nts@.len(),
            match apply_changes(
                all_changes(nts@.subrange(0, i as int)),
                header.notebook_number,
                header.tick,
                notebook.new_account_origins@,
                *history,
            ) {
                Err(e) => failed == Some(e),
                Ok(st) => failed is None && state.tips@ == st.tips && state.transfers@ == st.transfers,
            },
        decreases nts@.len() - i,
    {
        let changes = &nts[i].balance_changes;
        let ghost base = all_changes(nts@.subrange(0, i as int));
        let mut j: usize = 0;
        while j < changes.len()
            invariant
                j <= changes@.len(),
                changes@ == nts@[i as int].balance_changes@,
                match apply_changes(
                    base + changes@.subrange(0, j as int),
                    header.notebook_number,
                    header.tick,
                    notebook.new_account_origins@,
                    *history,
                ) {
                    Err(e) => failed == Some(e),
                    Ok(st) => failed is None && state.tips@ == st.tips && state.transfers@ == st.transfers,
                },
            decreases changes@.len() - j,
        {
            assert((base + changes@.subrange(0, j as int + 1)).drop_last() =~= base + changes@.subrange(0, j as int));
            assert((base + changes@.subrange(0, j as int + 1)).last() == changes@[j as int]);
            if failed.is_none() {
                match audit_change(
                    &mut state,
                    &changes[j],
                    header.notebook_number,
                    header.tick,
                    &notebook.new_account_origins,
                    history,
                ) {
                    Err(e) => {
                        failed = Some(e);
                    },
                    Ok(_) => {},
                }
            }
            j = j + 1;
        }
        assert(nts@.subrange(0, i as int + 1).drop_last() =~= nts@.subrange(0, i as int));
        assert(changes@.subrange(0, j as int) =~= changes@);
        i = i + 1;
    }
    assert(nts@.subrange(0, i as int) =~= nts@);
    if let Some(e) = failed {
        return Err(e);
    }
    if !all_listed(&state.transfers, &header.chain_transfers) || !all_listed(&header.chain_transfers, &state.transfers) {
        return Err(VerifyError::InvalidChainTransfersList);
    }
    let leaves = encode_tips(&state.tips);
    let root = merkle_root(&leaves);
    if !same_bytes32(&root, &header.changed_accounts_root) {
        return Err(VerifyError::InvalidBalanceChangeRoot);
    }
    if !origins_match(&state.tips, &header.changed_account_origins) {
        return Err(VerifyError::InvalidAccountChangelist);
    }
    let votes = collect_votes(nts);
    let vote_leaves = encode_votes(&votes);
    let votes_root = merkle_root(&vote_leaves);
    if !same_bytes32(&votes_root, &header.block_votes_root) || votes.len() as u64 != header.block_votes_count as u64 {
        return Err(VerifyError::InvalidBlockVoteRoot);
    }
    if header.changed_account_origins.len() > u32::MAX as usize || header.chain_transfers.len() > u32::MAX as usize {
        return Err(VerifyError::InvalidNotebookHash);
    }
    let computed = header.hash();
    if !same_bytes32(&computed, hash) {
        return Err(VerifyError::InvalidNotebookHash);
    }
    Ok(())
}

} // verus!
