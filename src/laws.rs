//! What an accepted notebook guarantees, proved from the audit's definition.
use vstd::prelude::*;
use crate::audit::{
    settles, AuditSt, NoteScan, VerifyError, apply_change, apply_changes, all_changes, change_start, find_key,
    has_local_transfer, is_first_key, is_local_transfer, key_matches, notebook_audit, scan_note, scan_notes,
};
use crate::audit::{tip_leaves, tip_origins};
use crate::crypto::merkle_root_of;
use crate::bytes::le_bytes;
use crate::history::NotebookHistory;
use crate::model::{account_type_byte, opt_note_bytes, origin_bytes, tip_bytes};
use crate::notebook::{NotebookError, change_origin, first_hold, latest_tips, ref_resolves, refs_resolve};
use crate::model::{AccountId, AccountType, BalanceChange, BalanceTip, NewAccountOrigin, Note, NoteType, Notebook, NotebookNumber, Tick};

verus! {

pub open spec fn same_account(a: BalanceChange, b: BalanceChange) -> bool {
    a.account_id@ == b.account_id@ && a.account_type == b.account_type
}

pub open spec fn is_claim_of(n: Note, nonce: u32) -> bool {
    match n.note_type {
        NoteType::ClaimFromMainchain { account_nonce } => account_nonce == nonce,
        _ => false,
    }
}

pub open spec fn opens_hold(n: Note) -> bool {
    n.note_type is ChannelHold
}

pub open spec fn has_hold_note(notes: Seq<Note>) -> bool {
    exists|k: int| 0 <= k < notes.len() && opens_hold(#[trigger] notes[k])
}

/// Change `i` is the last of its account among `cs`.
pub open spec fn is_last_of_account(cs: Seq<BalanceChange>, i: int) -> bool {
    0 <= i < cs.len() && forall|m: int| i < m < cs.len() ==> !same_account(#[trigger] cs[m], cs[i])
}

// ---------------------------------------------------------------------------
// Positions of tips

proof fn lemma_find_key_spec(s: Seq<BalanceTip>, id: Seq<u8>, ty: AccountType)
    ensures
        match find_key(s, id, ty) {
            Some(k) => is_first_key(s, id, ty, k),
            None => forall|k: int| 0 <= k < s.len() ==> !key_matches(#[trigger] s[k], id, ty),
        },
{
    if find_key(s, id, ty) is None {
        assert forall|k: int| 0 <= k < s.len() implies !key_matches(#[trigger] s[k], id, ty) by {
            if key_matches(s[k], id, ty) {
                lemma_first_exists(s, id, ty, k);
            }
        }
    }
}

proof fn lemma_first_exists(s: Seq<BalanceTip>, id: Seq<u8>, ty: AccountType, k: int)
    requires
        0 <= k < s.len(),
        key_matches(s[k], id, ty),
    ensures
        exists|f: int| is_first_key(s, id, ty, f),
    decreases k,
{
    if forall|j: int| 0 <= j < k ==> !key_matches(#[trigger] s[j], id, ty) {
        assert(is_first_key(s, id, ty, k));
    } else {
        let j = choose|j: int| 0 <= j < k && !!key_matches(#[trigger] s[j], id, ty);
        lemma_first_exists(s, id, ty, j);
    }
}

proof fn lemma_find_key_is(s: Seq<BalanceTip>, id: Seq<u8>, ty: AccountType, k: int)
    requires
        is_first_key(s, id, ty, k),
    ensures
        find_key(s, id, ty) == Some(k),
{
    let c = choose|f: int| is_first_key(s, id, ty, f);
    assert(c == k) by {
        if c < k {
            assert(!key_matches(s[c], id, ty));
        } else if c > k {
            assert(!key_matches(s[k], id, ty));
        }
    }
}

/// Replacing or appending the tip of one account leaves the position of
/// every other account's tip as it was.
proof fn lemma_find_key_other(
    s: Seq<BalanceTip>,
    s2: Seq<BalanceTip>,
    t: BalanceTip,
    id: Seq<u8>,
    ty: AccountType,
)
    requires
        !key_matches(t, id, ty),
        (exists|k: int| 0 <= k < s.len() && s2 == s.update(k, t) && !key_matches(s[k], id, ty)) || s2 == s.push(t),
    ensures
        find_key(s2, id, ty) == find_key(s, id, ty),
{
    lemma_find_key_spec(s, id, ty);
    match find_key(s, id, ty) {
        Some(f) => {
            assert(is_first_key(s2, id, ty, f)) by {
                assert forall|j: int| 0 <= j < f implies !key_matches(#[trigger] s2[j], id, ty) by {
                    assert(!key_matches(s[j], id, ty));
                }
            }
            lemma_find_key_is(s2, id, ty, f);
        },
        None => {
            assert forall|j: int| 0 <= j < s2.len() implies !key_matches(#[trigger] s2[j], id, ty) by {
                if j < s.len() {
                    assert(!key_matches(s[j], id, ty));
                }
            }
        },
    }
}

// ---------------------------------------------------------------------------
// Scanning notes

/// What a successful scan of notes establishes: earlier transfers are kept,
/// every claim is recorded, no claim repeats one already recorded or one
/// earlier in the same notes, and a hold is taken exactly when a note opens one.
proof fn lemma_scan_facts(notes: Seq<Note>, start: NoteScan, account: AccountId, known: Seq<(AccountId, u32)>)
    requires
        start.hold is None,
        scan_notes(notes, start, account, known) is Ok,
    ensures
        ({
            let sc = scan_notes(notes, start, account, known)->Ok_0;
            &&& start.transfers.len() <= sc.transfers.len()
            &&& sc.transfers.subrange(0, start.transfers.len() as int) == start.transfers
            &&& forall|k: int, nonce: u32|
                0 <= k < notes.len() && #[trigger] is_claim_of(notes[k], nonce) ==> has_local_transfer(
                    sc.transfers,
                    account@,
                    nonce,
                ) && !has_local_transfer(start.transfers, account@, nonce)
            &&& forall|k1: int, k2: int, nonce: u32|
                #![trigger is_claim_of(notes[k1], nonce), is_claim_of(notes[k2], nonce)]
                0 <= k1 < k2 < notes.len() && is_claim_of(notes[k1], nonce) ==> !is_claim_of(notes[k2], nonce)
            &&& (sc.hold is Some <==> has_hold_note(notes))
        }),
    decreases notes.len(),
{
    if notes.len() > 0 {
        let pre = notes.drop_last();
        let n = notes.last();
        assert(scan_notes(pre, start, account, known) is Ok);
        lemma_scan_facts(pre, start, account, known);
        let st = scan_notes(pre, start, account, known)->Ok_0;
        let sc = scan_notes(notes, start, account, known)->Ok_0;
        assert(sc == scan_note(st, n, account, known)->Ok_0);
        assert(sc.transfers.len() >= st.transfers.len());
        assert(sc.transfers.subrange(0, st.transfers.len() as int) == st.transfers);
        assert(sc.transfers.subrange(0, start.transfers.len() as int) =~= start.transfers) by {
            assert(st.transfers.subrange(0, start.transfers.len() as int) == start.transfers);
            assert forall|x: int| 0 <= x < start.transfers.len() implies sc.transfers[x] == start.transfers[x] by {
                assert(sc.transfers.subrange(0, st.transfers.len() as int)[x] == st.transfers[x]);
                assert(st.transfers.subrange(0, start.transfers.len() as int)[x] == start.transfers[x]);
            }
        }
        assert forall|k: int, nonce: u32|
            0 <= k < notes.len() && #[trigger] is_claim_of(notes[k], nonce) implies has_local_transfer(
                sc.transfers,
                account@,
                nonce,
            ) && !has_local_transfer(start.transfers, account@, nonce) by {
            if k < pre.len() {
                assert(pre[k] == notes[k]);
                assert(has_local_transfer(st.transfers, account@, nonce));
                let w = choose|w: int| 0 <= w < st.transfers.len() && is_local_transfer(st.transfers[w], account@, nonce);
                assert(sc.transfers.subrange(0, st.transfers.len() as int)[w] == st.transfers[w]);
                assert(is_local_transfer(sc.transfers[w], account@, nonce));
            } else {
                let last = sc.transfers.len() - 1;
                assert(is_local_transfer(sc.transfers[last], account@, nonce));
                if has_local_transfer(start.transfers, account@, nonce) {
                    let w = choose|w: int| 0 <= w < start.transfers.len() && is_local_transfer(start.transfers[w], account@, nonce);
                    assert(st.transfers.subrange(0, start.transfers.len() as int)[w] == start.transfers[w]);
                    assert(is_local_transfer(st.transfers[w], account@, nonce));
                }
            }
        }
        assert forall|k1: int, k2: int, nonce: u32|
            #![trigger is_claim_of(notes[k1], nonce), is_claim_of(notes[k2], nonce)]
            0 <= k1 < k2 < notes.len() && is_claim_of(notes[k1], nonce) implies !is_claim_of(notes[k2], nonce) by {
            if k2 < pre.len() {
                assert(pre[k1] == notes[k1] && pre[k2] == notes[k2]);
            } else {
                assert(pre[k1] == notes[k1]);
                assert(has_local_transfer(st.transfers, account@, nonce));
            }
        }
        if has_hold_note(pre) {
            let w = choose|w: int| 0 <= w < pre.len() && opens_hold(#[trigger] pre[w]);
            assert(opens_hold(notes[w]));
        }
        if has_hold_note(notes) && !opens_hold(n) {
            let w = choose|w: int| 0 <= w < notes.len() && opens_hold(#[trigger] notes[w]);
            assert(w < pre.len());
            assert(opens_hold(pre[w]));
        }
        if opens_hold(n) {
            assert(opens_hold(notes[notes.len() - 1]));
        }
    } else {
        assert(start.transfers.subrange(0, start.transfers.len() as int) =~= start.transfers);
    }
}

// ---------------------------------------------------------------------------
// The fold over a notebook's changes

/// What holds after every accepted prefix of a notebook's changes: the last
/// change of each account sits at its account's position with its number
/// and hold, and every claim made so far is recorded.
pub open spec fn fold_inv(cs: Seq<BalanceChange>, st: AuditSt) -> bool {
    &&& forall|i: int|
        #![trigger cs[i]]
        is_last_of_account(cs, i) ==> {
            &&& find_key(st.tips, cs[i].account_id@, cs[i].account_type) is Some
            &&& st.tips[find_key(st.tips, cs[i].account_id@, cs[i].account_type)->Some_0].change_number
                == cs[i].change_number
            &&& (st.tips[find_key(st.tips, cs[i].account_id@, cs[i].account_type)->Some_0].channel_hold_note is Some
                <==> has_hold_note(cs[i].notes@))
            &&& st.tips[find_key(st.tips, cs[i].account_id@, cs[i].account_type)->Some_0].channel_hold_note
                == first_hold(cs[i].notes@)
        }
    &&& forall|i: int, k: int, nonce: u32|
        0 <= i < cs.len() && 0 <= k < cs[i].notes@.len() && #[trigger] is_claim_of(cs[i].notes@[k], nonce)
            ==> has_local_transfer(st.transfers, cs[i].account_id@, nonce)
}

/// Every tip belongs to an account that has a change among `cs`.
#[verifier::opaque]
pub open spec fn tips_from_changes(cs: Seq<BalanceChange>, tips: Seq<BalanceTip>) -> bool {
    forall|k: int|
        0 <= k < tips.len() ==> exists|i: int|
            0 <= i < cs.len() && key_matches(#[trigger] tips[k], (#[trigger] cs[i]).account_id@, cs[i].account_type)
}

proof fn lemma_tips_from_changes(
    cs: Seq<BalanceChange>,
    nbn: NotebookNumber,
    tick: Tick,
    origins: Seq<NewAccountOrigin>,
    history: NotebookHistory,
)
    requires
        apply_changes(cs, nbn, tick, origins, history) is Ok,
    ensures
        tips_from_changes(cs, apply_changes(cs, nbn, tick, origins, history)->Ok_0.tips),
    decreases cs.len(),
{
    reveal(tips_from_changes);
    if cs.len() > 0 {
        let pre = cs.drop_last();
        let c = cs.last();
        assert(apply_changes(pre, nbn, tick, origins, history) is Ok);
        lemma_tips_from_changes(pre, nbn, tick, origins, history);
        reveal(tips_from_changes);
        let st0 = apply_changes(pre, nbn, tick, origins, history)->Ok_0;
        let st = apply_changes(cs, nbn, tick, origins, history)->Ok_0;
        assert(apply_change(st0, c, nbn, tick, origins, history) == Ok::<AuditSt, VerifyError>(st));
        let s = change_start(st0, c, nbn, tick, origins, history)->Ok_0;
        let start = NoteScan { balance: s.balance, transfers: st0.transfers, settled: false, hold: None };
        let sc = scan_notes(c.notes@, start, c.account_id, history.localchain_transfers@)->Ok_0;
        let tip = crate::audit::next_tip(c, s, sc);
        let id = c.account_id@;
        let ty = c.account_type;
        assert(key_matches(tip, id, ty));
        let last = cs.len() - 1;
        assert(cs[last] == c);
        assert forall|k: int| 0 <= k < st.tips.len() implies exists|i: int|
            0 <= i < cs.len() && key_matches(#[trigger] st.tips[k], (#[trigger] cs[i]).account_id@, cs[i].account_type) by {
            if k < st0.tips.len() && st.tips[k] == st0.tips[k] {
                let i = choose|i: int| 0 <= i < pre.len() && key_matches(#[trigger] st0.tips[k], (#[trigger] pre[i]).account_id@, pre[i].account_type);
                assert(pre[i] == cs[i]);
                assert(key_matches(st.tips[k], cs[i].account_id@, cs[i].account_type));
            } else {
                assert(st.tips[k] == tip);
                assert(key_matches(st.tips[k], cs[last].account_id@, cs[last].account_type));
            }
        }
    }
}

proof fn lemma_fold_inv(
    cs: Seq<BalanceChange>,
    nbn: NotebookNumber,
    tick: Tick,
    origins: Seq<NewAccountOrigin>,
    history: NotebookHistory,
)
    requires
        apply_changes(cs, nbn, tick, origins, history) is Ok,
    ensures
        fold_inv(cs, apply_changes(cs, nbn, tick, origins, history)->Ok_0),
    decreases cs.len(),
{
    if cs.len() > 0 {
        let pre = cs.drop_last();
        let c = cs.last();
        assert(apply_changes(pre, nbn, tick, origins, history) is Ok);
        lemma_fold_inv(pre, nbn, tick, origins, history);
        let st0 = apply_changes(pre, nbn, tick, origins, history)->Ok_0;
        let st = apply_changes(cs, nbn, tick, origins, history)->Ok_0;
        assert(apply_change(st0, c, nbn, tick, origins, history) == Ok::<AuditSt, VerifyError>(st));
        let s = change_start(st0, c, nbn, tick, origins, history)->Ok_0;
        let start = NoteScan { balance: s.balance, transfers: st0.transfers, settled: false, hold: None };
        lemma_scan_facts(c.notes@, start, c.account_id, history.localchain_transfers@);
        lemma_scan_hold_is_first(c.notes@, start, c.account_id, history.localchain_transfers@);
        let sc = scan_notes(c.notes@, start, c.account_id, history.localchain_transfers@)->Ok_0;
        let tip = crate::audit::next_tip(c, s, sc);
        let id = c.account_id@;
        let ty = c.account_type;
        lemma_find_key_spec(st0.tips, id, ty);
        // the new tip's position
        match find_key(st0.tips, id, ty) {
            Some(kc) => {
                assert(st.tips == st0.tips.update(kc, tip));
                assert(is_first_key(st.tips, id, ty, kc)) by {
                    assert forall|j: int| 0 <= j < kc implies !key_matches(#[trigger] st.tips[j], id, ty) by {
                        assert(!key_matches(st0.tips[j], id, ty));
                    }
                }
                lemma_find_key_is(st.tips, id, ty, kc);
            },
            None => {
                assert(st.tips == st0.tips.push(tip));
                assert(is_first_key(st.tips, id, ty, st0.tips.len() as int)) by {
                    assert forall|j: int| 0 <= j < st0.tips.len() implies !key_matches(#[trigger] st.tips[j], id, ty) by {
                        assert(!key_matches(st0.tips[j], id, ty));
                    }
                }
                lemma_find_key_is(st.tips, id, ty, st0.tips.len() as int);
            },
        }
        assert forall|i: int|
            #![trigger cs[i]]
            is_last_of_account(cs, i) implies {
                &&& find_key(st.tips, cs[i].account_id@, cs[i].account_type) is Some
                &&& st.tips[find_key(st.tips, cs[i].account_id@, cs[i].account_type)->Some_0].change_number
                    == cs[i].change_number
                &&& (st.tips[find_key(st.tips, cs[i].account_id@, cs[i].account_type)->Some_0].channel_hold_note is Some
                    <==> has_hold_note(cs[i].notes@))
                &&& st.tips[find_key(st.tips, cs[i].account_id@, cs[i].account_type)->Some_0].channel_hold_note
                    == first_hold(cs[i].notes@)
            } by {
            if i < pre.len() {
                assert(pre[i] == cs[i]);
                assert(!same_account(cs[cs.len() - 1], cs[i]));
                assert(is_last_of_account(pre, i)) by {
                    assert forall|m: int| i < m < pre.len() implies !same_account(#[trigger] pre[m], pre[i]) by {
                        assert(pre[m] == cs[m]);
                        assert(!same_account(cs[m], cs[i]));
                    }
                }
                let id2 = cs[i].account_id@;
                let ty2 = cs[i].account_type;
                let k2 = find_key(st0.tips, id2, ty2)->Some_0;
                lemma_find_key_spec(st0.tips, id2, ty2);
                match find_key(st0.tips, id, ty) {
                    Some(kc) => {
                        assert(key_matches(st0.tips[kc], id, ty));
                        assert(!key_matches(st0.tips[kc], id2, ty2));
                        lemma_find_key_other(st0.tips, st.tips, tip, id2, ty2);
                        assert(k2 != kc);
                    },
                    None => {
                        lemma_find_key_other(st0.tips, st.tips, tip, id2, ty2);
                    },
                }
            }
        }
        assert forall|i: int, k: int, nonce: u32|
            0 <= i < cs.len() && 0 <= k < cs[i].notes@.len() && #[trigger] is_claim_of(cs[i].notes@[k], nonce)
                implies has_local_transfer(st.transfers, cs[i].account_id@, nonce) by {
            if i < pre.len() {
                assert(pre[i] == cs[i]);
                assert(has_local_transfer(st0.transfers, cs[i].account_id@, nonce));
                let w = choose|w: int| 0 <= w < st0.transfers.len() && is_local_transfer(st0.transfers[w], cs[i].account_id@, nonce);
                assert(sc.transfers.subrange(0, st0.transfers.len() as int)[w] == st0.transfers[w]);
                assert(is_local_transfer(st.transfers[w], cs[i].account_id@, nonce));
            }
        }
    }
}

proof fn lemma_prefix_ok(
    cs: Seq<BalanceChange>,
    m: int,
    nbn: NotebookNumber,
    tick: Tick,
    origins: Seq<NewAccountOrigin>,
    history: NotebookHistory,
)
    requires
        apply_changes(cs, nbn, tick, origins, history) is Ok,
        0 <= m < cs.len(),
    ensures
        apply_changes(cs.subrange(0, m), nbn, tick, origins, history) is Ok,
        apply_change(
            apply_changes(cs.subrange(0, m), nbn, tick, origins, history)->Ok_0,
            cs[m],
            nbn,
            tick,
            origins,
            history,
        ) is Ok,
    decreases cs.len(),
{
    if m + 1 < cs.len() {
        assert(cs.drop_last().subrange(0, m) =~= cs.subrange(0, m));
        lemma_prefix_ok(cs.drop_last(), m, nbn, tick, origins, history);
    } else {
        assert(cs.drop_last() =~= cs.subrange(0, m));
    }
}

// ---------------------------------------------------------------------------
// The laws

/// Rooted chains: in an accepted notebook, the first change of an account is
/// either its first change ever (number 1, no reference), or it references a
/// tip of an earlier notebook that the history proves: the origin last
/// changed there and the merkle proof recovers the tip with the number just
/// before it.
pub proof fn lemma_first_change_rooted(hash: Seq<u8>, nb: Notebook, history: NotebookHistory, j: int)
    requires
        notebook_audit(hash, nb, history) is Ok,
        0 <= j < all_changes(nb.notarizations@).len(),
        forall|m: int| 0 <= m < j ==> !same_account(#[trigger] all_changes(nb.notarizations@)[m], all_changes(nb.notarizations@)[j]),
    ensures
        ({
            let c = all_changes(nb.notarizations@)[j];
            match c.previous_balance_proof {
                None => c.change_number == 1,
                Some(p) => p.notebook_number != nb.header.notebook_number && c.change_number > 1
                    && crate::audit::previous_proof_check(p, history, c) is Ok,
            }
        }),
{
    let cs = all_changes(nb.notarizations@);
    let h = nb.header;
    let origins = nb.new_account_origins@;
    lemma_prefix_ok(cs, j, h.notebook_number, h.tick, origins, history);
    let pre = cs.subrange(0, j);
    lemma_tips_from_changes(pre, h.notebook_number, h.tick, origins, history);
    reveal(tips_from_changes);
    let st0 = apply_changes(pre, h.notebook_number, h.tick, origins, history)->Ok_0;
    let c = cs[j];
    lemma_find_key_spec(st0.tips, c.account_id@, c.account_type);
    if find_key(st0.tips, c.account_id@, c.account_type) is Some {
        let k = find_key(st0.tips, c.account_id@, c.account_type)->Some_0;
        let i = choose|i: int| 0 <= i < pre.len() && key_matches(#[trigger] st0.tips[k], (#[trigger] pre[i]).account_id@, pre[i].account_type);
        assert(pre[i] == cs[i]);
        assert(same_account(cs[i], c));
    }
}

/// Chain continuity: a notebook in which an account changes twice is
/// rejected, since the later change can only refer to the notebook being
/// audited, which has no committed root yet. With the rooted first change,
/// every accepted change number follows the account's committed tip.
pub proof fn lemma_one_change_per_account(hash: Seq<u8>, nb: Notebook, history: NotebookHistory, i: int, j: int)
    requires
        0 <= i < j < all_changes(nb.notarizations@).len(),
        same_account(all_changes(nb.notarizations@)[i], all_changes(nb.notarizations@)[j]),
        forall|m: int| i < m < j ==> !same_account(#[trigger] all_changes(nb.notarizations@)[m], all_changes(nb.notarizations@)[j]),
    ensures
        notebook_audit(hash, nb, history) is Err,
{
    let cs = all_changes(nb.notarizations@);
    let h = nb.header;
    let origins = nb.new_account_origins@;
    if notebook_audit(hash, nb, history) is Ok {
        lemma_prefix_ok(cs, j, h.notebook_number, h.tick, origins, history);
        let pre = cs.subrange(0, j);
        lemma_fold_inv(pre, h.notebook_number, h.tick, origins, history);
        let st0 = apply_changes(pre, h.notebook_number, h.tick, origins, history)->Ok_0;
        assert(pre[i] == cs[i]);
        assert(is_last_of_account(pre, i)) by {
            assert forall|m: int| i < m < pre.len() implies !same_account(#[trigger] pre[m], pre[i]) by {
                assert(pre[m] == cs[m]);
            }
        }
        let c = cs[j];
        assert(find_key(st0.tips, c.account_id@, c.account_type) == find_key(st0.tips, pre[i].account_id@, pre[i].account_type));
    }
}

/// Once the audit meets an error in a prefix of the changes, that error is
/// the notebook's result.
pub proof fn lemma_first_error_decides(hash: Seq<u8>, nb: Notebook, history: NotebookHistory, m: int)
    requires
        0 <= m <= all_changes(nb.notarizations@).len(),
        apply_changes(
            all_changes(nb.notarizations@).subrange(0, m),
            nb.header.notebook_number,
            nb.header.tick,
            nb.new_account_origins@,
            history,
        ) is Err,
    ensures
        notebook_audit(hash, nb, history) == Err::<(), VerifyError>(
            apply_changes(
                all_changes(nb.notarizations@).subrange(0, m),
                nb.header.notebook_number,
                nb.header.tick,
                nb.new_account_origins@,
                history,
            )->Err_0,
        ),
{
    lemma_err_propagates(all_changes(nb.notarizations@), m, nb.header.notebook_number, nb.header.tick, nb.new_account_origins@, history);
}

proof fn lemma_err_propagates(
    cs: Seq<BalanceChange>,
    m: int,
    nbn: NotebookNumber,
    tick: Tick,
    origins: Seq<NewAccountOrigin>,
    history: NotebookHistory,
)
    requires
        0 <= m <= cs.len(),
        apply_changes(cs.subrange(0, m), nbn, tick, origins, history) is Err,
    ensures
        apply_changes(cs, nbn, tick, origins, history) == apply_changes(cs.subrange(0, m), nbn, tick, origins, history),
    decreases cs.len(),
{
    if m < cs.len() {
        assert(cs.drop_last().subrange(0, m) =~= cs.subrange(0, m));
        lemma_err_propagates(cs.drop_last(), m, nbn, tick, origins, history);
    } else {
        assert(cs.subrange(0, m) =~= cs);
    }
}

/// The change at `j`, whose earlier changes the audit accepts, and the
/// result of the audit at it.
proof fn lemma_step_at(cs: Seq<BalanceChange>, j: int, nbn: NotebookNumber, tick: Tick, origins: Seq<NewAccountOrigin>, history: NotebookHistory)
    requires
        0 <= j < cs.len(),
        apply_changes(cs.subrange(0, j), nbn, tick, origins, history) is Ok,
    ensures
        apply_changes(cs.subrange(0, j + 1), nbn, tick, origins, history) == apply_change(
            apply_changes(cs.subrange(0, j), nbn, tick, origins, history)->Ok_0,
            cs[j],
            nbn,
            tick,
            origins,
            history,
        ),
{
    assert(cs.subrange(0, j + 1).drop_last() =~= cs.subrange(0, j));
    assert(cs.subrange(0, j + 1).last() == cs[j]);
}

/// A reference to the notebook being audited: when the changes before it
/// are accepted and the account's tip in this notebook carries no hold, the
/// audit fails with `InvalidPreviousBalanceProof`, since no root of this
/// notebook is committed yet.
pub proof fn lemma_open_notebook_reference(hash: Seq<u8>, nb: Notebook, history: NotebookHistory, i: int, j: int)
    requires
        0 <= i < j < all_changes(nb.notarizations@).len(),
        same_account(all_changes(nb.notarizations@)[i], all_changes(nb.notarizations@)[j]),
        forall|m: int| i < m < j ==> !same_account(#[trigger] all_changes(nb.notarizations@)[m], all_changes(nb.notarizations@)[j]),
        !has_hold_note(all_changes(nb.notarizations@)[i].notes@),
        apply_changes(
            all_changes(nb.notarizations@).subrange(0, j),
            nb.header.notebook_number,
            nb.header.tick,
            nb.new_account_origins@,
            history,
        ) is Ok,
        all_changes(nb.notarizations@)[j].previous_balance_proof is Some,
        all_changes(nb.notarizations@)[j].previous_balance_proof->Some_0.notebook_number == nb.header.notebook_number,
    ensures
        notebook_audit(hash, nb, history) == Err::<(), VerifyError>(VerifyError::InvalidPreviousBalanceProof),
{
    let cs = all_changes(nb.notarizations@);
    let h = nb.header;
    let origins = nb.new_account_origins@;
    let pre = cs.subrange(0, j);
    lemma_fold_inv(pre, h.notebook_number, h.tick, origins, history);
    assert(pre[i] == cs[i]);
    assert(is_last_of_account(pre, i)) by {
        assert forall|m: int| i < m < pre.len() implies !same_account(#[trigger] pre[m], pre[i]) by {
            assert(pre[m] == cs[m]);
        }
    }
    let st0 = apply_changes(pre, h.notebook_number, h.tick, origins, history)->Ok_0;
    let c = cs[j];
    assert(find_key(st0.tips, c.account_id@, c.account_type) == find_key(st0.tips, pre[i].account_id@, pre[i].account_type));
    lemma_step_at(cs, j, h.notebook_number, h.tick, origins, history);
    lemma_first_error_decides(hash, nb, history, j + 1);
}

/// Hold continuity, with the error: when a change opened a hold and the
/// account's next change in the same notebook refers to this notebook (the
/// changes before it accepted), dropping the hold or leaving it unsettled is
/// `InvalidChannelHoldNote`, and settling the restated hold is
/// `ChannelHoldNotReadyForClaim`.
pub proof fn lemma_hold_continuity_kinds(hash: Seq<u8>, nb: Notebook, history: NotebookHistory, i: int, j: int)
    requires
        0 <= i < j < all_changes(nb.notarizations@).len(),
        same_account(all_changes(nb.notarizations@)[i], all_changes(nb.notarizations@)[j]),
        forall|m: int| i < m < j ==> !same_account(#[trigger] all_changes(nb.notarizations@)[m], all_changes(nb.notarizations@)[j]),
        has_hold_note(all_changes(nb.notarizations@)[i].notes@),
        apply_changes(
            all_changes(nb.notarizations@).subrange(0, j),
            nb.header.notebook_number,
            nb.header.tick,
            nb.new_account_origins@,
            history,
        ) is Ok,
        all_changes(nb.notarizations@)[j].change_number > 1,
        all_changes(nb.notarizations@)[j].previous_balance_proof is Some,
        all_changes(nb.notarizations@)[j].previous_balance_proof->Some_0.notebook_number == nb.header.notebook_number,
    ensures
        ({
            let c = all_changes(nb.notarizations@)[j];
            let hold = first_hold(all_changes(nb.notarizations@)[i].notes@);
            if opt_note_bytes(c.channel_hold_note) == opt_note_bytes(hold) && settles(c.notes@) {
                notebook_audit(hash, nb, history) == Err::<(), VerifyError>(VerifyError::ChannelHoldNotReadyForClaim)
            } else {
                notebook_audit(hash, nb, history) == Err::<(), VerifyError>(VerifyError::InvalidChannelHoldNote)
            }
        }),
{
    let cs = all_changes(nb.notarizations@);
    let h = nb.header;
    let origins = nb.new_account_origins@;
    let pre = cs.subrange(0, j);
    lemma_fold_inv(pre, h.notebook_number, h.tick, origins, history);
    assert(pre[i] == cs[i]);
    assert(is_last_of_account(pre, i)) by {
        assert forall|m: int| i < m < pre.len() implies !same_account(#[trigger] pre[m], pre[i]) by {
            assert(pre[m] == cs[m]);
        }
    }
    let st0 = apply_changes(pre, h.notebook_number, h.tick, origins, history)->Ok_0;
    let c = cs[j];
    assert(find_key(st0.tips, c.account_id@, c.account_type) == find_key(st0.tips, pre[i].account_id@, pre[i].account_type));
    lemma_step_at(cs, j, h.notebook_number, h.tick, origins, history);
    lemma_first_error_decides(hash, nb, history, j + 1);
}

/// No double claim, with the error: when the changes before the second
/// claim are accepted, its change resolves, and its notes before that claim
/// scan cleanly, the audit fails with `DuplicateChainTransfer`.
#[verifier::rlimit(60)]
#[verifier::spinoff_prover]
pub proof fn lemma_double_claim_kind(
    hash: Seq<u8>,
    nb: Notebook,
    history: NotebookHistory,
    i1: int,
    k1: int,
    i2: int,
    k2: int,
    nonce: u32,
)
    requires
        0 <= i1 < all_changes(nb.notarizations@).len(),
        0 <= i2 < all_changes(nb.notarizations@).len(),
        0 <= k1 < all_changes(nb.notarizations@)[i1].notes@.len(),
        0 <= k2 < all_changes(nb.notarizations@)[i2].notes@.len(),
        i1 < i2 || (i1 == i2 && k1 < k2),
        all_changes(nb.notarizations@)[i1].account_id@ == all_changes(nb.notarizations@)[i2].account_id@,
        is_claim_of(all_changes(nb.notarizations@)[i1].notes@[k1], nonce),
        is_claim_of(all_changes(nb.notarizations@)[i2].notes@[k2], nonce),
        apply_changes(
            all_changes(nb.notarizations@).subrange(0, i2),
            nb.header.notebook_number,
            nb.header.tick,
            nb.new_account_origins@,
            history,
        ) is Ok,
        ({
            let st0 = apply_changes(
                all_changes(nb.notarizations@).subrange(0, i2),
                nb.header.notebook_number,
                nb.header.tick,
                nb.new_account_origins@,
                history,
            )->Ok_0;
            let c = all_changes(nb.notarizations@)[i2];
            let s = change_start(st0, c, nb.header.notebook_number, nb.header.tick, nb.new_account_origins@, history);
            &&& s is Ok
            &&& scan_notes(
                c.notes@.subrange(0, k2),
                NoteScan { balance: s->Ok_0.balance, transfers: st0.transfers, settled: false, hold: None },
                c.account_id,
                history.localchain_transfers@,
            ) is Ok
        }),
    ensures
        notebook_audit(hash, nb, history) == Err::<(), VerifyError>(VerifyError::DuplicateChainTransfer),
{
    let cs = all_changes(nb.notarizations@);
    let h = nb.header;
    let origins = nb.new_account_origins@;
    let pre = cs.subrange(0, i2);
    let st0 = apply_changes(pre, h.notebook_number, h.tick, origins, history)->Ok_0;
    let c = cs[i2];
    let s = change_start(st0, c, h.notebook_number, h.tick, origins, history)->Ok_0;
    let start = NoteScan { balance: s.balance, transfers: st0.transfers, settled: false, hold: None };
    let known = history.localchain_transfers@;
    let pn = c.notes@.subrange(0, k2);
    lemma_scan_facts(pn, start, c.account_id, known);
    let sc0 = scan_notes(pn, start, c.account_id, known)->Ok_0;
    if i1 == i2 {
        assert(pn[k1] == c.notes@[k1]);
        assert(is_claim_of(pn[k1], nonce));
    } else {
        lemma_fold_inv(pre, h.notebook_number, h.tick, origins, history);
        assert(pre[i1] == cs[i1]);
        assert(is_claim_of(pre[i1].notes@[k1], nonce));
        assert(has_local_transfer(st0.transfers, cs[i1].account_id@, nonce));
        let w = choose|w: int| 0 <= w < st0.transfers.len() && is_local_transfer(st0.transfers[w], cs[i1].account_id@, nonce);
        assert(sc0.transfers.subrange(0, st0.transfers.len() as int)[w] == st0.transfers[w]);
        assert(is_local_transfer(sc0.transfers[w], c.account_id@, nonce));
    }
    assert(has_local_transfer(sc0.transfers, c.account_id@, nonce));
    let next = c.notes@.subrange(0, k2 + 1);
    assert(next.drop_last() =~= pn);
    assert(next.last() == c.notes@[k2]);
    lemma_duplicate_note(sc0, c.notes@[k2], c.account_id, known, nonce);
    assert(scan_notes(next, start, c.account_id, known) == Err::<NoteScan, VerifyError>(VerifyError::DuplicateChainTransfer));
    crate::audit::lemma_scan_err(c.notes@, k2 + 1, start, c.account_id, known);
    lemma_scan_error_decides_change(st0, c, h.notebook_number, h.tick, origins, history);
    lemma_step_at(cs, i2, h.notebook_number, h.tick, origins, history);
    lemma_first_error_decides(hash, nb, history, i2 + 1);
}

proof fn lemma_duplicate_note(st: NoteScan, note: Note, account: AccountId, known: Seq<(AccountId, u32)>, nonce: u32)
    requires
        has_local_transfer(st.transfers, account@, nonce),
        is_claim_of(note, nonce),
    ensures
        scan_note(st, note, account, known) == Err::<NoteScan, VerifyError>(VerifyError::DuplicateChainTransfer),
{
}

proof fn lemma_scan_error_decides_change(
    st: AuditSt,
    c: BalanceChange,
    nbn: NotebookNumber,
    tick: Tick,
    origins: Seq<NewAccountOrigin>,
    history: NotebookHistory,
)
    requires
        change_start(st, c, nbn, tick, origins, history) is Ok,
        scan_notes(
            c.notes@,
            NoteScan {
                balance: change_start(st, c, nbn, tick, origins, history)->Ok_0.balance,
                transfers: st.transfers,
                settled: false,
                hold: None,
            },
            c.account_id,
            history.localchain_transfers@,
        ) is Err,
    ensures
        apply_change(st, c, nbn, tick, origins, history) == Err::<AuditSt, VerifyError>(
            scan_notes(
                c.notes@,
                NoteScan {
                    balance: change_start(st, c, nbn, tick, origins, history)->Ok_0.balance,
                    transfers: st.transfers,
                    settled: false,
                    hold: None,
                },
                c.account_id,
                history.localchain_transfers@,
            )->Err_0,
        ),
{
}

/// No double claim: two claims of the same settlement-chain deposit (same
/// account, same nonce) anywhere in one notebook make the audit reject it.
pub proof fn lemma_no_double_claim(
    hash: Seq<u8>,
    nb: Notebook,
    history: NotebookHistory,
    i1: int,
    k1: int,
    i2: int,
    k2: int,
    nonce: u32,
)
    requires
        0 <= i1 < all_changes(nb.notarizations@).len(),
        0 <= i2 < all_changes(nb.notarizations@).len(),
        0 <= k1 < all_changes(nb.notarizations@)[i1].notes@.len(),
        0 <= k2 < all_changes(nb.notarizations@)[i2].notes@.len(),
        i1 < i2 || (i1 == i2 && k1 < k2),
        all_changes(nb.notarizations@)[i1].account_id@ == all_changes(nb.notarizations@)[i2].account_id@,
        is_claim_of(all_changes(nb.notarizations@)[i1].notes@[k1], nonce),
        is_claim_of(all_changes(nb.notarizations@)[i2].notes@[k2], nonce),
    ensures
        notebook_audit(hash, nb, history) is Err,
{
    let cs = all_changes(nb.notarizations@);
    let h = nb.header;
    let origins = nb.new_account_origins@;
    if notebook_audit(hash, nb, history) is Ok {
        lemma_prefix_ok(cs, i2, h.notebook_number, h.tick, origins, history);
        let pre = cs.subrange(0, i2);
        let st0 = apply_changes(pre, h.notebook_number, h.tick, origins, history)->Ok_0;
        let c = cs[i2];
        let s = change_start(st0, c, h.notebook_number, h.tick, origins, history)->Ok_0;
        let start = NoteScan { balance: s.balance, transfers: st0.transfers, settled: false, hold: None };
        lemma_scan_facts(c.notes@, start, c.account_id, history.localchain_transfers@);
        if i1 < i2 {
            lemma_fold_inv(pre, h.notebook_number, h.tick, origins, history);
            assert(pre[i1] == cs[i1]);
            assert(is_claim_of(pre[i1].notes@[k1], nonce));
            assert(has_local_transfer(st0.transfers, cs[i1].account_id@, nonce));
        }
    }
}

/// Hold continuity: once a change opens a channel hold, the next change of
/// the same account in the same notebook makes the audit reject the
/// notebook: dropping the hold is an invalid hold note, and settling it is
/// a claim before the window opens.
pub proof fn lemma_hold_continuity(hash: Seq<u8>, nb: Notebook, history: NotebookHistory, i: int, j: int)
    requires
        0 <= i < j < all_changes(nb.notarizations@).len(),
        same_account(all_changes(nb.notarizations@)[i], all_changes(nb.notarizations@)[j]),
        forall|m: int| i < m < j ==> !same_account(#[trigger] all_changes(nb.notarizations@)[m], all_changes(nb.notarizations@)[j]),
        has_hold_note(all_changes(nb.notarizations@)[i].notes@),
    ensures
        notebook_audit(hash, nb, history) is Err,
{
    let cs = all_changes(nb.notarizations@);
    let h = nb.header;
    let origins = nb.new_account_origins@;
    if notebook_audit(hash, nb, history) is Ok {
        lemma_prefix_ok(cs, j, h.notebook_number, h.tick, origins, history);
        let pre = cs.subrange(0, j);
        lemma_fold_inv(pre, h.notebook_number, h.tick, origins, history);
        let st0 = apply_changes(pre, h.notebook_number, h.tick, origins, history)->Ok_0;
        assert(pre[i] == cs[i]);
        assert(is_last_of_account(pre, i)) by {
            assert forall|m: int| i < m < pre.len() implies !same_account(#[trigger] pre[m], pre[i]) by {
                assert(pre[m] == cs[m]);
            }
        }
        let c = cs[j];
        assert(find_key(st0.tips, c.account_id@, c.account_type) == find_key(st0.tips, pre[i].account_id@, pre[i].account_type));
        let k = find_key(st0.tips, c.account_id@, c.account_type)->Some_0;
        assert(st0.tips[k].channel_hold_note is Some);
        let s = change_start(st0, c, h.notebook_number, h.tick, origins, history)->Ok_0;
        assert(s.hold is Some);
        assert(s.hold_tick == h.tick as int);
    }
}

// ---------------------------------------------------------------------------
// Assembler and audit agree

proof fn lemma_scan_hold_is_first(notes: Seq<Note>, start: NoteScan, account: AccountId, known: Seq<(AccountId, u32)>)
    requires
        start.hold is None,
        scan_notes(notes, start, account, known) is Ok,
    ensures
        scan_notes(notes, start, account, known)->Ok_0.hold == first_hold(notes),
    decreases notes.len(),
{
    if notes.len() > 0 {
        let pre = notes.drop_last();
        assert(scan_notes(pre, start, account, known) is Ok);
        lemma_scan_hold_is_first(pre, start, account, known);
    }
}

proof fn lemma_latest_tips_agree(
    cs: Seq<BalanceChange>,
    nbn: NotebookNumber,
    tick: Tick,
    origins: Seq<NewAccountOrigin>,
    history: NotebookHistory,
)
    requires
        apply_changes(cs, nbn, tick, origins, history) is Ok,
    ensures
        latest_tips(cs, nbn, origins) == Ok::<Seq<BalanceTip>, NotebookError>(
            apply_changes(cs, nbn, tick, origins, history)->Ok_0.tips,
        ),
        refs_resolve(cs, nbn, history),
    decreases cs.len(),
{
    if cs.len() > 0 {
        let pre = cs.drop_last();
        let c = cs.last();
        assert(apply_changes(pre, nbn, tick, origins, history) is Ok);
        lemma_latest_tips_agree(pre, nbn, tick, origins, history);
        let st0 = apply_changes(pre, nbn, tick, origins, history)->Ok_0;
        let st = apply_changes(cs, nbn, tick, origins, history)->Ok_0;
        assert(apply_change(st0, c, nbn, tick, origins, history) == Ok::<AuditSt, VerifyError>(st));
        let s = change_start(st0, c, nbn, tick, origins, history)->Ok_0;
        let start = NoteScan { balance: s.balance, transfers: st0.transfers, settled: false, hold: None };
        lemma_scan_hold_is_first(c.notes@, start, c.account_id, history.localchain_transfers@);
        assert(change_origin(c, nbn, origins) == Some(s.origin));
        assert(ref_resolves(c, nbn, history));
    }
}

/// The notary and any auditor agree: for a notebook the audit accepts, every
/// reference resolves against the same history, and the assembler, given the
/// same changes and new accounts, keeps exactly the tips
/// the audit recomputed, so it commits the header's account-change root and
/// origin list.
pub proof fn lemma_assembler_matches_audit(hash: Seq<u8>, nb: Notebook, history: NotebookHistory)
    requires
        notebook_audit(hash, nb, history) is Ok,
    ensures
        refs_resolve(all_changes(nb.notarizations@), nb.header.notebook_number, history),
        latest_tips(all_changes(nb.notarizations@), nb.header.notebook_number, nb.new_account_origins@) is Ok,
        merkle_root_of(tip_leaves(
            latest_tips(all_changes(nb.notarizations@), nb.header.notebook_number, nb.new_account_origins@)->Ok_0,
        )) == nb.header.changed_accounts_root@,
        tip_origins(
            latest_tips(all_changes(nb.notarizations@), nb.header.notebook_number, nb.new_account_origins@)->Ok_0,
        ) == nb.header.changed_account_origins@,
{
    lemma_latest_tips_agree(
        all_changes(nb.notarizations@),
        nb.header.notebook_number,
        nb.header.tick,
        nb.new_account_origins@,
        history,
    );
}

// ---------------------------------------------------------------------------
// Leaves determine tips

pub open spec fn pow256(n: nat) -> nat
    decreases n,
{
    if n == 0 {
        1
    } else {
        256 * pow256((n - 1) as nat)
    }
}

proof fn lemma_le_bytes_len(v: nat, n: nat)
    ensures
        le_bytes(v, n).len() == n,
    decreases n,
{
    if n > 0 {
        lemma_le_bytes_len(v / 256, (n - 1) as nat);
    }
}

proof fn lemma_le_bytes_injective(a: nat, b: nat, n: nat)
    requires
        a < pow256(n),
        b < pow256(n),
        le_bytes(a, n) == le_bytes(b, n),
    ensures
        a == b,
    decreases n,
{
    if n > 0 {
        let m = (n - 1) as nat;
        let p = pow256(m);
        lemma_le_bytes_len(a / 256, m);
        lemma_le_bytes_len(b / 256, m);
        let la = le_bytes(a, n);
        assert(la == seq![(a % 256) as u8] + le_bytes(a / 256, m));
        assert(le_bytes(b, n) == seq![(b % 256) as u8] + le_bytes(b / 256, m));
        assert(la[0] == (a % 256) as u8);
        assert(le_bytes(b, n)[0] == (b % 256) as u8);
        assert(a % 256 == b % 256);
        assert(la.subrange(1, la.len() as int) =~= le_bytes(a / 256, m));
        assert(le_bytes(b, n).subrange(1, la.len() as int) =~= le_bytes(b / 256, m));
        assert(a / 256 < p) by (nonlinear_arith)
            requires
                a < 256 * p,
        ;
        assert(b / 256 < p) by (nonlinear_arith)
            requires
                b < 256 * p,
        ;
        lemma_le_bytes_injective(a / 256, b / 256, m);
    }
}

proof fn lemma_split(a: Seq<u8>, b: Seq<u8>, c: Seq<u8>, d: Seq<u8>)
    requires
        a + b == c + d,
        a.len() == c.len(),
    ensures
        a == c,
        b == d,
{
    assert((a + b).subrange(0, a.len() as int) =~= a);
    assert((c + d).subrange(0, c.len() as int) =~= c);
    assert((a + b).subrange(a.len() as int, (a + b).len() as int) =~= b);
    assert((c + d).subrange(c.len() as int, (c + d).len() as int) =~= d);
}

/// Distinct leaves: two tips with the same merkle leaf agree on account,
/// account type, change number, balance and origin, and their hold notes
/// encode alike. So changing any of these changes the tip's leaf.
pub proof fn lemma_tip_leaf_determines_tip(t1: BalanceTip, t2: BalanceTip)
    requires
        tip_bytes(t1) == tip_bytes(t2),
    ensures
        t1.account_id@ == t2.account_id@,
        t1.account_type == t2.account_type,
        t1.change_number == t2.change_number,
        t1.balance == t2.balance,
        t1.account_origin == t2.account_origin,
        opt_note_bytes(t1.channel_hold_note) == opt_note_bytes(t2.channel_hold_note),
{
    reveal_with_fuel(pow256, 17);
    assert(pow256(4) == 0x1_0000_0000);
    assert(pow256(16) == 0x1_0000_0000_0000_0000_0000_0000_0000_0000);
    lemma_le_bytes_len(t1.change_number as nat, 4);
    lemma_le_bytes_len(t2.change_number as nat, 4);
    lemma_le_bytes_len(t1.balance as nat, 16);
    lemma_le_bytes_len(t2.balance as nat, 16);
    lemma_le_bytes_len(t1.account_origin.notebook_number as nat, 4);
    lemma_le_bytes_len(t2.account_origin.notebook_number as nat, 4);
    lemma_le_bytes_len(t1.account_origin.account_uid as nat, 4);
    lemma_le_bytes_len(t2.account_origin.account_uid as nat, 4);
    let i1 = t1.account_id@;
    let i2 = t2.account_id@;
    assert(i1.len() == 32 && i2.len() == 32);
    let y1 = seq![account_type_byte(t1.account_type)];
    let y2 = seq![account_type_byte(t2.account_type)];
    let c1 = le_bytes(t1.change_number as nat, 4);
    let c2 = le_bytes(t2.change_number as nat, 4);
    let b1 = le_bytes(t1.balance as nat, 16);
    let b2 = le_bytes(t2.balance as nat, 16);
    let o1 = origin_bytes(t1.account_origin);
    let o2 = origin_bytes(t2.account_origin);
    let h1 = opt_note_bytes(t1.channel_hold_note);
    let h2 = opt_note_bytes(t2.channel_hold_note);
    lemma_split(i1 + y1 + c1 + b1 + o1, h1, i2 + y2 + c2 + b2 + o2, h2);
    lemma_split(i1 + y1 + c1 + b1, o1, i2 + y2 + c2 + b2, o2);
    lemma_split(i1 + y1 + c1, b1, i2 + y2 + c2, b2);
    lemma_split(i1 + y1, c1, i2 + y2, c2);
    lemma_split(i1, y1, i2, y2);
    assert(y1[0] == y2[0]);
    lemma_le_bytes_injective(t1.change_number as nat, t2.change_number as nat, 4);
    lemma_le_bytes_injective(t1.balance as nat, t2.balance as nat, 16);
    let n1 = le_bytes(t1.account_origin.notebook_number as nat, 4);
    let n2 = le_bytes(t2.account_origin.notebook_number as nat, 4);
    lemma_split(n1, le_bytes(t1.account_origin.account_uid as nat, 4), n2, le_bytes(t2.account_origin.account_uid as nat, 4));
    lemma_le_bytes_injective(t1.account_origin.notebook_number as nat, t2.account_origin.notebook_number as nat, 4);
    lemma_le_bytes_injective(t1.account_origin.account_uid as nat, t2.account_origin.account_uid as nat, 4);
}

} // verus!
