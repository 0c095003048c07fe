//! The notebook assembler: turns the changesets accepted during a window into
//! one committed notebook, and serves merkle proofs of its tips.
use vstd::prelude::*;
use crate::audit::{all_changes, all_votes, collect_votes, dedup_votes, encode_tips, encode_votes, find_key, find_new_origin, find_tip, new_origin_uid, tip_leaves, tip_origins, vote_leaves};
use crate::audit::{previous_proof_check, verify_previous_balance_proof};
use crate::bytes::{same_bytes, same_bytes32};
use crate::chain_transfer::{ChainTransferRow, ChainTransferStore, rows_kept, rows_taken};
use crate::history::NotebookHistory;
use crate::crypto::{blake2_256_of, hash_views, merkle_proof, merkle_proof_of, merkle_root, merkle_root_of, merkle_verify, merkle_verify_of, views};
use crate::model::{AccountType, AccountOrigin, BalanceChange, BalanceProof, BalanceTip, BlockVote, ChainTransfer, MerkleProof, NewAccountOrigin, Note, NoteType, Notarization, NotaryId, NotebookHeader, NotebookNumber, Tick, header_bytes, tip_bytes};

verus! {

/// Why a notebook cannot be closed or a proof cannot be served.
#[derive(Clone, Copy, Debug, PartialEq, Eq, Structural)]
pub enum NotebookError {
    MissingAccountOrigin,
    InvalidBalanceProofRequested,
    UnresolvedPreviousBalance,
    TaxOverflow,
    VotingPowerOverflow,
    TooManyRecords,
}

/// The first channel-hold note among `notes`, if any.
pub open spec fn first_hold(notes: Seq<Note>) -> Option<Note>
    decreases notes.len(),
{
    if notes.len() == 0 {
        None
    } else {
        match first_hold(notes.drop_last()) {
            Some(n) => Some(n),
            None => match notes.last().note_type {
                NoteType::ChannelHold { .. } => Some(notes.last()),
                _ => None,
            },
        }
    }
}

/// The origin of the account a change belongs to: the one its previous
/// reference names, or the uid it was given in this notebook.
pub open spec fn change_origin(
    c: BalanceChange,
    notebook_number: NotebookNumber,
    new_origins: Seq<NewAccountOrigin>,
) -> Option<AccountOrigin> {
    match c.previous_balance_proof {
        Some(p) => Some(p.account_origin),
        None => match new_origin_uid(new_origins, c.account_id@, c.account_type) {
            Some(uid) => Some(AccountOrigin { notebook_number, account_uid: uid }),
            None => None,
        },
    }
}

/// The tips to commit: per account, the change with the highest change
/// number, in the order accounts were first seen.
pub open spec fn latest_tips(
    changes: Seq<BalanceChange>,
    notebook_number: NotebookNumber,
    new_origins: Seq<NewAccountOrigin>,
) -> Result<Seq<BalanceTip>, NotebookError>
    decreases changes.len(),
{
    if changes.len() == 0 {
        Ok(Seq::empty())
    } else {
        match latest_tips(changes.drop_last(), notebook_number, new_origins) {
            Err(e) => Err(e),
            Ok(tips) => {
                let c = changes.last();
                match change_origin(c, notebook_number, new_origins) {
                    None => Err(NotebookError::MissingAccountOrigin),
                    Some(origin) => {
                        let tip = BalanceTip {
                            account_id: c.account_id,
                            account_type: c.account_type,
                            change_number: c.change_number,
                            balance: c.balance,
                            account_origin: origin,
                            channel_hold_note: first_hold(c.notes@),
                        };
                        match find_key(tips, c.account_id@, c.account_type) {
                            Some(k) => if tips[k].change_number < c.change_number {
                                Ok(tips.update(k, tip))
                            } else {
                                Ok(tips)
                            },
                            None => Ok(tips.push(tip)),
                        }
                    },
                }
            },
        }
    }
}

pub open spec fn note_tax(n: Note) -> int {
    match n.note_type {
        NoteType::Tax => n.milligons as int,
        _ => 0,
    }
}

pub open spec fn notes_tax(notes: Seq<Note>) -> int
    decreases notes.len(),
{
    if notes.len() == 0 {
        0
    } else {
        notes_tax(notes.drop_last()) + note_tax(notes.last())
    }
}

/// The tax of all changes: the sum of their `Tax` notes.
pub open spec fn changes_tax(changes: Seq<BalanceChange>) -> int
    decreases changes.len(),
{
    if changes.len() == 0 {
        0
    } else {
        changes_tax(changes.drop_last()) + notes_tax(changes.last().notes@)
    }
}

pub open spec fn votes_power(votes: Seq<BlockVote>) -> int
    decreases votes.len(),
{
    if votes.len() == 0 {
        0
    } else {
        votes_power(votes.drop_last()) + votes.last().power
    }
}

/// A closed notebook: its header, the hash the notary signs, and the leaves
/// kept to answer proof requests.
#[derive(Clone, Debug)]
pub struct ClosedNotebook {
    pub header: NotebookHeader,
    pub hash: [u8; 32],
    pub change_merkle_leaves: Vec<Vec<u8>>,
}

/// A change's reference resolves when it names an earlier notebook and the
/// history proves the tip it claims there.
pub open spec fn ref_resolves(c: BalanceChange, notebook_number: NotebookNumber, history: NotebookHistory) -> bool {
    match c.previous_balance_proof {
        None => true,
        Some(p) => p.notebook_number != notebook_number && previous_proof_check(p, history, c) is Ok,
    }
}

pub open spec fn refs_resolve(cs: Seq<BalanceChange>, notebook_number: NotebookNumber, history: NotebookHistory) -> bool
    decreases cs.len(),
{
    if cs.len() == 0 {
        true
    } else {
        refs_resolve(cs.drop_last(), notebook_number, history) && ref_resolves(cs.last(), notebook_number, history)
    }
}

proof fn lemma_keys_prefix(cs: Seq<BalanceChange>, m: int)
    requires
        0 <= m <= cs.len(),
    ensures
        new_account_keys(cs.subrange(0, m)).len() <= new_account_keys(cs).len(),
    decreases cs.len() - m,
{
    if m < cs.len() {
        lemma_keys_prefix(cs, m + 1);
        assert(cs.subrange(0, m + 1).drop_last() =~= cs.subrange(0, m));
    } else {
        assert(cs.subrange(0, m) =~= cs);
    }
}

/// The keys found in a prefix of the notebook's changes are never more than
/// those of all its changes.
proof fn lemma_keys_grow(all: Seq<BalanceChange>, prefix: Seq<BalanceChange>, nts: Seq<Notarization>, i: int, j: int)
    requires
        all == all_changes(nts),
        0 <= i < nts.len(),
        0 <= j <= nts[i].balance_changes@.len(),
        prefix == all_changes(nts.subrange(0, i)) + nts[i].balance_changes@.subrange(0, j),
    ensures
        new_account_keys(prefix).len() <= new_account_keys(all).len(),
{
    lemma_all_changes_prefix(nts, i);
    let m = all_changes(nts.subrange(0, i)).len() + j;
    assert(all.subrange(0, (all_changes(nts.subrange(0, i)).len() + nts[i].balance_changes@.len()) as int).subrange(0, m) =~= all.subrange(0, m));
    assert(all.subrange(0, m) =~= prefix);
    lemma_keys_prefix(all, m);
}

/// The changes of the first `i` notarizations, then those of the next, begin
/// the changes of all of them.
proof fn lemma_all_changes_prefix(nts: Seq<Notarization>, i: int)
    requires
        0 <= i < nts.len(),
    ensures
        all_changes(nts).len() >= all_changes(nts.subrange(0, i)).len() + nts[i].balance_changes@.len(),
        all_changes(nts).subrange(0, (all_changes(nts.subrange(0, i)).len() + nts[i].balance_changes@.len()) as int)
            == all_changes(nts.subrange(0, i)) + nts[i].balance_changes@,
    decreases nts.len(),
{
    let k = (all_changes(nts.subrange(0, i)).len() + nts[i].balance_changes@.len()) as int;
    if i + 1 < nts.len() {
        assert(nts.drop_last().subrange(0, i) =~= nts.subrange(0, i));
        lemma_all_changes_prefix(nts.drop_last(), i);
        assert(all_changes(nts).subrange(0, k) =~= all_changes(nts.drop_last()).subrange(0, k));
    } else {
        assert(nts.drop_last() =~= nts.subrange(0, i));
        assert(all_changes(nts).subrange(0, k) =~= all_changes(nts));
    }
}

proof fn lemma_taken_len(rows: Seq<ChainTransferRow>, nb: NotebookNumber)
    ensures
        rows_taken(rows, nb).len() <= rows.len(),
    decreases rows.len(),
{
    if rows.len() > 0 {
        lemma_taken_len(rows.drop_last(), nb);
    }
}

/// The accounts first seen in a notebook, in encounter order: those whose
/// change carries no previous reference, each once.
pub open spec fn new_account_keys(cs: Seq<BalanceChange>) -> Seq<(Seq<u8>, AccountType)>
    decreases cs.len(),
{
    if cs.len() == 0 {
        Seq::empty()
    } else {
        let keys = new_account_keys(cs.drop_last());
        let c = cs.last();
        if c.previous_balance_proof is None && !keys.contains((c.account_id@, c.account_type)) {
            keys.push((c.account_id@, c.account_type))
        } else {
            keys
        }
    }
}

pub struct NotebookStore;

fn first_hold_exec(notes: &Vec<Note>) -> (r: Option<Note>)
    ensures
        r == first_hold(notes@),
{
    let mut i: usize = 0;
    while i < notes.len()
        invariant
            i <= notes@.len(),
            first_hold(notes@.subrange(0, i as int)) is None,
        decreases notes@.len() - i,
    {
        assert(notes@.subrange(0, i as int + 1).drop_last() =~= notes@.subrange(0, i as int));
        match notes[i].note_type {
            NoteType::ChannelHold { .. } => {
                proof {
                    lemma_first_hold_prefix(notes@, i as int + 1);
                }
                return Some(notes[i]);
            },
            _ => {},
        }
        i = i + 1;
    }
    assert(notes@.subrange(0, i as int) =~= notes@);
    None
}

proof fn lemma_first_hold_prefix(notes: Seq<Note>, m: int)
    requires
        0 <= m <= notes.len(),
        first_hold(notes.subrange(0, m)) is Some,
    ensures
        first_hold(notes) == first_hold(notes.subrange(0, m)),
    decreases notes.len(),
{
    if m < notes.len() {
        assert(notes.drop_last().subrange(0, m) =~= notes.subrange(0, m));
        lemma_first_hold_prefix(notes.drop_last(), m);
    } else {
        assert(notes.subrange(0, m) =~= notes);
    }
}

impl NotebookStore {
    /// Gives each account first seen in the notebook the next account uid,
    /// starting at `first_uid`, in encounter order.
    pub fn assign_new_account_origins(notarizations: &Vec<Notarization>, first_uid: u32) -> (r: Result<Vec<NewAccountOrigin>, NotebookError>)
        ensures
            r is Ok <==> first_uid + new_account_keys(all_changes(notarizations@)).len() <= u32::MAX as int + 1,
            r is Err ==> r == Err::<Vec<NewAccountOrigin>, NotebookError>(NotebookError::TooManyRecords),
            r is Ok ==> r->Ok_0@.len() == new_account_keys(all_changes(notarizations@)).len() && forall|k: int|
                0 <= k < r->Ok_0@.len() ==> {
                    &&& (#[trigger] r->Ok_0@[k]).account_id@ == new_account_keys(all_changes(notarizations@))[k].0
                    &&& r->Ok_0@[k].account_type == new_account_keys(all_changes(notarizations@))[k].1
                    &&& r->Ok_0@[k].account_uid == first_uid + k
                },
    {
        let mut out: Vec<NewAccountOrigin> = Vec::new();
        let mut next: u64 = first_uid as u64;
        let mut i: usize = 0;
        while i < notarizations.len()
            invariant
                i <= notarizations@.len(),
                next == first_uid + out@.len(),
                out@.len() == new_account_keys(all_changes(notarizations@.subrange(0, i as int))).len(),
                forall|k: int| 0 <= k < out@.len() ==> {
                    &&& (#[trigger] out@[k]).account_id@ == new_account_keys(all_changes(notarizations@.subrange(0, i as int)))[k].0
                    &&& out@[k].account_type == new_account_keys(all_changes(notarizations@.subrange(0, i as int)))[k].1
                    &&& out@[k].account_uid == first_uid + k
                },
                next <= u32::MAX as int + 1,
            decreases notarizations@.len() - i,
        {
            let changes = &notarizations[i].balance_changes;
            let ghost base = all_changes(notarizations@.subrange(0, i as int));
            let mut j: usize = 0;
            while j < changes.len()
                invariant
                    j <= changes@.len(),
                    i < notarizations@.len(),
                    base == all_changes(notarizations@.subrange(0, i as int)),
                    changes@ == notarizations@[i as int].balance_changes@,
                    next == first_uid + out@.len(),
                    next <= u32::MAX as int + 1,
                    out@.len() == new_account_keys(base + changes@.subrange(0, j as int)).len(),
                    forall|k: int| 0 <= k < out@.len() ==> {
                        &&& (#[trigger] out@[k]).account_id@ == new_account_keys(base + changes@.subrange(0, j as int))[k].0
                        &&& out@[k].account_type == new_account_keys(base + changes@.subrange(0, j as int))[k].1
                        &&& out@[k].account_uid == first_uid + k
                    },
                decreases changes@.len() - j,
            {
                let ghost pre = base + changes@.subrange(0, j as int);
                let ghost keys = new_account_keys(pre);
                assert((base + changes@.subrange(0, j as int + 1)).drop_last() =~= pre);
                let c = &changes[j];
                if c.previous_balance_proof.is_none() {
                    let mut seen = false;
                    let mut k: usize = 0;
                    while k < out.len()
                        invariant
                            k <= out@.len(),
                            out@.len() == keys.len(),
                            forall|x: int| 0 <= x < out@.len() ==> (#[trigger] out@[x]).account_id@ == keys[x].0 && out@[x].account_type == keys[x].1,
                            seen == exists|x: int| 0 <= x < k && keys[x] == (c.account_id@, c.account_type),
                        decreases out@.len() - k,
                    {
                        if out[k].account_type == c.account_type && same_bytes32(&out[k].account_id, &c.account_id) {
                            assert(keys[k as int] == (c.account_id@, c.account_type));
                            seen = true;
                        }
                        k = k + 1;
                    }
                    assert(seen == keys.contains((c.account_id@, c.account_type)));
                    if !seen {
                        if next > u32::MAX as u64 {
                            proof {
                                lemma_keys_grow(all_changes(notarizations@), base + changes@.subrange(0, j as int + 1), notarizations@, i as int, j as int + 1);
                            }
                            return Err(NotebookError::TooManyRecords);
                        }
                        out.push(NewAccountOrigin { account_id: c.account_id, account_type: c.account_type, account_uid: next as u32 });
                        next = next + 1;
                    }
                }
                j = j + 1;
            }
            assert(notarizations@.subrange(0, i as int + 1).drop_last() =~= notarizations@.subrange(0, i as int));
            assert(changes@.subrange(0, j as int) =~= changes@);
            i = i + 1;
        }
        assert(notarizations@.subrange(0, i as int) =~= notarizations@);
        Ok(out)
    }

    fn references_resolve(notarizations: &Vec<Notarization>, notebook_number: NotebookNumber, history: &NotebookHistory) -> (r: bool)
        ensures
            r == refs_resolve(all_changes(notarizations@), notebook_number, *history),
    {
        let mut ok = true;
        let mut i: usize = 0;
        while i < notarizations.len()
            invariant
                i <= notarizations@.len(),
                ok == refs_resolve(all_changes(notarizations@.subrange(0, i as int)), notebook_number, *history),
            decreases notarizations@.len() - i,
        {
            let changes = &notarizations[i].balance_changes;
            let ghost base = all_changes(notarizations@.subrange(0, i as int));
            let mut j: usize = 0;
            while j < changes.len()
                invariant
                    j <= changes@.len(),
                    changes@ == notarizations@[i as int].balance_changes@,
                    ok == refs_resolve(base + changes@.subrange(0, j as int), notebook_number, *history),
                decreases changes@.len() - j,
            {
                assert((base + changes@.subrange(0, j as int + 1)).drop_last() =~= base + changes@.subrange(0, j as int));
                let c = &changes[j];
                let this_ok = match &c.previous_balance_proof {
                    None => true,
                    Some(p) => p.notebook_number != notebook_number && verify_previous_balance_proof(p, history, c).is_ok(),
                };
                ok = ok && this_ok;
                j = j + 1;
            }
            assert(notarizations@.subrange(0, i as int + 1).drop_last() =~= notarizations@.subrange(0, i as int));
            assert(changes@.subrange(0, j as int) =~= changes@);
            i = i + 1;
        }
        assert(notarizations@.subrange(0, i as int) =~= notarizations@);
        ok
    }

    /// Closes a notebook: keeps the latest change per account in discovery
    /// order, commits the tips and the deduplicated votes in two merkle
    /// roots, sums the tax and the voting power, and hashes the header.
    /// Nothing is produced, and no transfer is taken from the store, when a
    /// change's reference does not resolve to a proven earlier tip or its
    /// account origin cannot be found.
    pub fn close_notebook(
        notary_id: NotaryId,
        notebook_number: NotebookNumber,
        tick: Tick,
        finalized_block_number: u32,
        notarizations: &Vec<Notarization>,
        new_account_origins: &Vec<NewAccountOrigin>,
        history: &NotebookHistory,
        transfers: &mut ChainTransferStore,
    ) -> (r: Result<ClosedNotebook, NotebookError>)
        requires
            old(transfers).wf(),
        ensures
            final(transfers).wf(),
            r is Err ==> final(transfers).rows@ == old(transfers).rows@,
            !refs_resolve(all_changes(notarizations@), notebook_number, *history) ==> r
                == Err::<ClosedNotebook, NotebookError>(NotebookError::UnresolvedPreviousBalance),
            refs_resolve(all_changes(notarizations@), notebook_number, *history) ==> match latest_tips(
                all_changes(notarizations@),
                notebook_number,
                new_account_origins@,
            ) {
                Err(e) => r == Err::<ClosedNotebook, NotebookError>(e),
                Ok(tips) => {
                    let votes = dedup_votes(all_votes(notarizations@));
                    if changes_tax(all_changes(notarizations@)) > u128::MAX {
                        r == Err::<ClosedNotebook, NotebookError>(NotebookError::TaxOverflow)
                    } else if votes_power(votes) > u128::MAX {
                        r == Err::<ClosedNotebook, NotebookError>(NotebookError::VotingPowerOverflow)
                    } else if votes.len() > u32::MAX || tips.len() > u32::MAX || old(transfers).rows@.len() > u32::MAX {
                        r == Err::<ClosedNotebook, NotebookError>(NotebookError::TooManyRecords)
                    } else {
                        &&& r is Ok
                        &&& views(r->Ok_0.change_merkle_leaves@) == tip_leaves(tips)
                        &&& r->Ok_0.header.version == 1
                        &&& r->Ok_0.header.notary_id == notary_id
                        &&& r->Ok_0.header.notebook_number == notebook_number
                        &&& r->Ok_0.header.tick == tick
                        &&& r->Ok_0.header.finalized_block_number == finalized_block_number
                        &&& r->Ok_0.header.changed_accounts_root@ == merkle_root_of(tip_leaves(tips))
                        &&& r->Ok_0.header.changed_account_origins@ == tip_origins(tips)
                        &&& r->Ok_0.header.chain_transfers@ == rows_taken(old(transfers).rows@, notebook_number)
                        &&& final(transfers).rows@ == rows_kept(old(transfers).rows@, notebook_number)
                        &&& r->Ok_0.header.block_votes_root@ == merkle_root_of(vote_leaves(votes))
                        &&& r->Ok_0.header.block_votes_count == votes.len()
                        &&& r->Ok_0.header.block_voting_power == votes_power(votes)
                        &&& r->Ok_0.header.tax == changes_tax(all_changes(notarizations@))
                        &&& r->Ok_0.hash@ == blake2_256_of(header_bytes(r->Ok_0.header))
                    }
                },
            },
    {
        if !Self::references_resolve(notarizations, notebook_number, history) {
            return Err(NotebookError::UnresolvedPreviousBalance);
        }
        let mut tips: Vec<BalanceTip> = Vec::new();
        let mut failed: Option<NotebookError> = None;
        let mut tax: u128 = 0;
        let mut tax_overflow = false;
        let mut i: usize = 0;
        while i < notarizations.len()
            invariant
                i <= notarizations@.len(),
                match latest_tips(all_changes(notarizations@.subrange(0, i as int)), notebook_number, new_account_origins@) {
                    Err(e) => failed == Some(e),
                    Ok(t) => failed is None && tips@ == t,
                },
                tax_overflow == (changes_tax(all_changes(notarizations@.subrange(0, i as int))) > u128::MAX),
                !tax_overflow ==> tax as int == changes_tax(all_changes(notarizations@.subrange(0, i as int))),
            decreases notarizations@.len() - i,
        {
            let changes = &notarizations[i].balance_changes;
            let ghost base = all_changes(notarizations@.subrange(0, i as int));
            let mut j: usize = 0;
            while j < changes.len()
                invariant
                    j <= changes@.len(),
                    changes@ == notarizations@[i as int].balance_changes@,
                    match latest_tips(base + changes@.subrange(0, j as int), notebook_number, new_account_origins@) {
                        Err(e) => failed == Some(e),
                        Ok(t) => failed is None && tips@ == t,
                    },
                    tax_overflow == (changes_tax(base + changes@.subrange(0, j as int)) > u128::MAX),
                    !tax_overflow ==> tax as int == changes_tax(base + changes@.subrange(0, j as int)),
                decreases changes@.len() - j,
            {
                let ghost pre = base + changes@.subrange(0, j as int);
                assert((base + changes@.subrange(0, j as int + 1)).drop_last() =~= pre);
                assert((base + changes@.subrange(0, j as int + 1)).last() == changes@[j as int]);
                let c = &changes[j];
                // tax of this change's notes
                let notes = &c.notes;
                let ghost before = changes_tax(pre);
                let mut k: usize = 0;
                while k < notes.len()
                    invariant
                        k <= notes@.len(),
                        notes@ == c.notes@,
                        tax_overflow == (before + notes_tax(notes@.subrange(0, k as int)) > u128::MAX),
                        !tax_overflow ==> tax as int == before + notes_tax(notes@.subrange(0, k as int)),
                    decreases notes@.len() - k,
                {
                    assert(notes@.subrange(0, k as int + 1).drop_last() =~= notes@.subrange(0, k as int));
                    match notes[k].note_type {
                        NoteType::Tax => {
                            if !tax_overflow {
                                if tax > u128::MAX - notes[k].milligons {
                                    tax_overflow = true;
                                } else {
                                    tax = tax + notes[k].milligons;
                                }
                            }
                        },
                        _ => {},
                    }
                    k = k + 1;
                }
                assert(notes@.subrange(0, k as int) =~= notes@);
                if failed.is_none() {
                    let origin = match &c.previous_balance_proof {
                        Some(p) => Some(p.account_origin),
                        None => match find_new_origin(new_account_origins, &c.account_id, c.account_type) {
                            Some(uid) => Some(AccountOrigin { notebook_number, account_uid: uid }),
                            None => None,
                        },
                    };
                    match origin {
                        None => {
                            failed = Some(NotebookError::MissingAccountOrigin);
                        },
                        Some(origin) => {
                            let tip = BalanceTip {
                                account_id: c.account_id,
                                account_type: c.account_type,
                                change_number: c.change_number,
                                balance: c.balance,
                                account_origin: origin,
                                channel_hold_note: first_hold_exec(&c.notes),
                            };
                            match find_tip(&tips, &c.account_id, c.account_type) {
                                Some(x) => {
                                    if tips[x].change_number < c.change_number {
                                        tips.set(x, tip);
                                    }
                                },
                                None => {
                                    tips.push(tip);
                                },
                            }
                        },
                    }
                }
                j = j + 1;
            }
            assert(notarizations@.subrange(0, i as int + 1).drop_last() =~= notarizations@.subrange(0, i as int));
            assert(changes@.subrange(0, j as int) =~= changes@);
            i = i + 1;
        }
        assert(notarizations@.subrange(0, i as int) =~= notarizations@);
        if let Some(e) = failed {
            return Err(e);
        }
        if tax_overflow {
            return Err(NotebookError::TaxOverflow);
        }
        let votes = collect_votes(notarizations);
        let mut power: u128 = 0;
        let mut power_overflow = false;
        let mut v: usize = 0;
        while v < votes.len()
            invariant
                v <= votes@.len(),
                power_overflow == (votes_power(votes@.subrange(0, v as int)) > u128::MAX),
                !power_overflow ==> power as int == votes_power(votes@.subrange(0, v as int)),
            decreases votes@.len() - v,
        {
            assert(votes@.subrange(0, v as int + 1).drop_last() =~= votes@.subrange(0, v as int));
            if !power_overflow {
                if power > u128::MAX - votes[v].power {
                    power_overflow = true;
                } else {
                    power = power + votes[v].power;
                }
            }
            v = v + 1;
        }
        assert(votes@.subrange(0, v as int) =~= votes@);
        if power_overflow {
            return Err(NotebookError::VotingPowerOverflow);
        }
        if votes.len() > u32::MAX as usize || tips.len() > u32::MAX as usize || transfers.rows.len() > u32::MAX as usize {
            return Err(NotebookError::TooManyRecords);
        }
        let ghost old_rows = transfers.rows@;
        let chain_transfers = transfers.take_for_notebook(notebook_number);
        proof {
            lemma_taken_len(old_rows, notebook_number);
        }
        let leaves = encode_tips(&tips);
        let changed_accounts_root = merkle_root(&leaves);
        let mut origins: Vec<AccountOrigin> = Vec::new();
        let mut t: usize = 0;
        while t < tips.len()
            invariant
                t <= tips@.len(),
                origins@ =~= tip_origins(tips@.subrange(0, t as int)),
            decreases tips@.len() - t,
        {
            origins.push(tips[t].account_origin);
            t = t + 1;
        }
        assert(tips@.subrange(0, t as int) =~= tips@);
        let vote_leaves_v = encode_votes(&votes);
        let block_votes_root = merkle_root(&vote_leaves_v);
        let header = NotebookHeader {
            version: 1,
            notary_id,
            notebook_number,
            tick,
            finalized_block_number,
            changed_accounts_root,
            changed_account_origins: origins,
            chain_transfers,
            block_votes_root,
            block_votes_count: votes.len() as u32,
            block_voting_power: power,
            tax,
        };
        let hash = header.hash();
        Ok(ClosedNotebook { header, hash, change_merkle_leaves: leaves })
    }

    /// The merkle proof of a committed tip, from the leaves kept when the
    /// notebook closed: the first leaf equal to the tip's encoding.
    pub fn get_balance_proof(change_merkle_leaves: &Vec<Vec<u8>>, balance_tip: &BalanceTip) -> (r: Result<MerkleProof, NotebookError>)
        requires
            change_merkle_leaves@.len() <= u32::MAX,
        ensures
            match r {
                Ok(p) => {
                    &&& 0 <= p.leaf_index < change_merkle_leaves@.len()
                    &&& change_merkle_leaves@[p.leaf_index as int]@ == tip_bytes(*balance_tip)
                    &&& forall|k: int| 0 <= k < p.leaf_index ==> (#[trigger] change_merkle_leaves@[k])@ != tip_bytes(*balance_tip)
                    &&& p.number_of_leaves == change_merkle_leaves@.len()
                    &&& hash_views(p.proof@) == merkle_proof_of(views(change_merkle_leaves@), p.leaf_index as nat)
                    &&& merkle_verify_of(
                        merkle_root_of(views(change_merkle_leaves@)),
                        hash_views(p.proof@),
                        p.number_of_leaves as nat,
                        p.leaf_index as nat,
                        tip_bytes(*balance_tip),
                    )
                },
                Err(e) => e == NotebookError::InvalidBalanceProofRequested && forall|k: int|
                    0 <= k < change_merkle_leaves@.len() ==> (#[trigger] change_merkle_leaves@[k])@ != tip_bytes(*balance_tip),
            },
    {
        let record = balance_tip.encode();
        let mut i: usize = 0;
        while i < change_merkle_leaves.len()
            invariant
                i <= change_merkle_leaves@.len(),
                change_merkle_leaves@.len() <= u32::MAX,
                record@ == tip_bytes(*balance_tip),
                forall|k: int| 0 <= k < i ==> (#[trigger] change_merkle_leaves@[k])@ != tip_bytes(*balance_tip),
            decreases change_merkle_leaves@.len() - i,
        {
            if same_bytes(&change_merkle_leaves[i], &record) {
                let proof = merkle_proof(change_merkle_leaves, i as u32);
                assert(views(change_merkle_leaves@).len() == change_merkle_leaves@.len());
                return Ok(MerkleProof {
                    proof,
                    number_of_leaves: change_merkle_leaves.len() as u32,
                    leaf_index: i as u32,
                });
            }
            i = i + 1;
        }
        Err(NotebookError::InvalidBalanceProofRequested)
    }

    /// The notary's answer to a proof request for a tip of notebook
    /// `notebook_number`, closed at `tick`: the reference the account's next
    /// change will carry.
    pub fn balance_proof_response(
        notary_id: NotaryId,
        notebook_number: NotebookNumber,
        tick: Tick,
        change_merkle_leaves: &Vec<Vec<u8>>,
        balance_tip: &BalanceTip,
    ) -> (r: Result<BalanceProof, NotebookError>)
        requires
            change_merkle_leaves@.len() <= u32::MAX,
        ensures
            match r {
                Ok(p) => {
                    &&& p.notary_id == notary_id
                    &&& p.notebook_number == notebook_number
                    &&& p.tick == tick
                    &&& p.account_origin == balance_tip.account_origin
                    &&& p.balance == balance_tip.balance
                    &&& p.notebook_proof is Some
                    &&& {
                        let m = p.notebook_proof->Some_0;
                        &&& 0 <= m.leaf_index < change_merkle_leaves@.len()
                        &&& change_merkle_leaves@[m.leaf_index as int]@ == tip_bytes(*balance_tip)
                        &&& forall|k: int| 0 <= k < m.leaf_index ==> (#[trigger] change_merkle_leaves@[k])@ != tip_bytes(*balance_tip)
                        &&& m.number_of_leaves == change_merkle_leaves@.len()
                        &&& hash_views(m.proof@) == merkle_proof_of(views(change_merkle_leaves@), m.leaf_index as nat)
                        &&& merkle_verify_of(
                            merkle_root_of(views(change_merkle_leaves@)),
                            hash_views(m.proof@),
                            m.number_of_leaves as nat,
                            m.leaf_index as nat,
                            tip_bytes(*balance_tip),
                        )
                    }
                },
                Err(e) => e == NotebookError::InvalidBalanceProofRequested && forall|k: int|
                    0 <= k < change_merkle_leaves@.len() ==> (#[trigger] change_merkle_leaves@[k])@ != tip_bytes(*balance_tip),
            },
    {
        let proof = Self::get_balance_proof(change_merkle_leaves, balance_tip)?;
        Ok(BalanceProof {
            notary_id,
            notebook_number,
            tick,
            notebook_proof: Some(proof),
            account_origin: balance_tip.account_origin,
            balance: balance_tip.balance,
        })
    }

    /// Whether the proof recovers `root` from the tip's encoding.
    pub fn is_valid_proof(root: &[u8; 32], balance_tip: &BalanceTip, notebook_proof: &MerkleProof) -> (r: bool)
        ensures
            r == merkle_verify_of(
                root@,
                hash_views(notebook_proof.proof@),
                notebook_proof.number_of_leaves as nat,
                notebook_proof.leaf_index as nat,
                tip_bytes(*balance_tip),
            ),
    {
        let leaf = balance_tip.encode();
        merkle_verify(root, &notebook_proof.proof, notebook_proof.number_of_leaves, notebook_proof.leaf_index, &leaf)
    }
}

} // verus!
