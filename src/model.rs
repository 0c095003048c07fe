//! The balance-chain model: accounts, notes, balance changes and tips, and
//! the canonical byte encoding of what gets hashed.
use vstd::prelude::*;
use crate::bytes::{le_bytes, push_le, push_bytes32};
use crate::crypto::{blake2_256, blake2_256_of};

verus! {

pub type AccountId = [u8; 32];

pub type NotebookNumber = u32;

pub type NotaryId = u32;

pub type Tick = u32;

/// The two kinds of account that every address holds.
#[derive(Clone, Copy, Debug, PartialEq, Eq, Structural)]
pub enum AccountType {
    Tax,
    Deposit,
}

/// The identifier an account is given the first time it appears in a notebook.
#[derive(Clone, Copy, Debug, PartialEq, Eq, Structural)]
pub struct AccountOrigin {
    pub notebook_number: NotebookNumber,
    pub account_uid: u32,
}

/// A signed delta of a balance change.
#[derive(Clone, Copy, Debug)]
pub enum NoteType {
    Send { to: Option<AccountId> },
    Claim,
    ClaimFromMainchain { account_nonce: u32 },
    SendToMainchain,
    Tax,
    SendToVote,
    ChannelHold { recipient: AccountId },
    ChannelSettle,
}

#[derive(Clone, Copy, Debug)]
pub struct Note {
    pub milligons: u128,
    pub note_type: NoteType,
}

impl Note {
    pub fn create(milligons: u128, note_type: NoteType) -> (r: Note)
        ensures
            r.milligons == milligons,
            r.note_type == note_type,
    {
        Note { milligons, note_type }
    }
}

/// A merkle proof of one leaf in a notebook's account-change tree.
#[derive(Clone, Debug)]
pub struct MerkleProof {
    pub proof: Vec<[u8; 32]>,
    pub number_of_leaves: u32,
    pub leaf_index: u32,
}

/// The reference a change makes to the committed tip it builds on.
#[derive(Clone, Debug)]
pub struct BalanceProof {
    pub notary_id: NotaryId,
    pub notebook_number: NotebookNumber,
    pub tick: Tick,
    pub notebook_proof: Option<MerkleProof>,
    pub account_origin: AccountOrigin,
    pub balance: u128,
}

/// One signed step of an account's balance chain.
#[derive(Clone, Debug)]
pub struct BalanceChange {
    pub account_id: AccountId,
    pub account_type: AccountType,
    pub change_number: u32,
    pub balance: u128,
    pub previous_balance_proof: Option<BalanceProof>,
    pub channel_hold_note: Option<Note>,
    pub notes: Vec<Note>,
}

/// The committed snapshot of an account after its latest change in a notebook.
#[derive(Clone, Copy, Debug)]
pub struct BalanceTip {
    pub account_id: AccountId,
    pub account_type: AccountType,
    pub change_number: u32,
    pub balance: u128,
    pub account_origin: AccountOrigin,
    pub channel_hold_note: Option<Note>,
}

/// A settlement-chain transfer consumed or queued by a notebook.
#[derive(Clone, Copy, Debug)]
pub enum ChainTransfer {
    ToMainchain { account_id: AccountId, amount: u128 },
    ToLocalchain { account_id: AccountId, account_nonce: u32 },
}

/// A vote for a settlement-chain block, paid for with tax.
#[derive(Clone, Copy, Debug)]
pub struct BlockVote {
    pub account_id: AccountId,
    pub index: u32,
    pub block_hash: [u8; 32],
    pub power: u128,
}

/// An account seen for the first time in a notebook, with the uid it was given.
#[derive(Clone, Copy, Debug)]
pub struct NewAccountOrigin {
    pub account_id: AccountId,
    pub account_type: AccountType,
    pub account_uid: u32,
}

impl NewAccountOrigin {
    pub fn new(account_id: AccountId, account_type: AccountType, account_uid: u32) -> (r: NewAccountOrigin)
        ensures
            r.account_id == account_id,
            r.account_type == account_type,
            r.account_uid == account_uid,
    {
        NewAccountOrigin { account_id, account_type, account_uid }
    }
}

/// One atomically submitted batch: balance changes and votes.
#[derive(Clone, Debug)]
pub struct Notarization {
    pub balance_changes: Vec<BalanceChange>,
    pub block_votes: Vec<BlockVote>,
}

#[derive(Clone, Debug)]
pub struct NotebookHeader {
    pub version: u32,
    pub notary_id: NotaryId,
    pub notebook_number: NotebookNumber,
    pub tick: Tick,
    pub finalized_block_number: u32,
    pub changed_accounts_root: [u8; 32],
    pub changed_account_origins: Vec<AccountOrigin>,
    pub chain_transfers: Vec<ChainTransfer>,
    pub block_votes_root: [u8; 32],
    pub block_votes_count: u32,
    pub block_voting_power: u128,
    pub tax: u128,
}

#[derive(Clone, Debug)]
pub struct Notebook {
    pub header: NotebookHeader,
    pub notarizations: Vec<Notarization>,
    pub new_account_origins: Vec<NewAccountOrigin>,
}

/// The top-level domains a data domain can be registered under.
#[derive(Clone, Copy, Debug, PartialEq, Eq, Structural)]
pub enum DataTLD {
    Analytics,
    Automotive,
    Bikes,
    Business,
    Cars,
    Communication,
    Entertainment,
    Finance,
    Flights,
    Health,
    Hotels,
    Jobs,
    News,
    RealEstate,
    Restaurants,
    Shopping,
    Sports,
    Transportation,
    Travel,
    Weather,
}

// ---------------------------------------------------------------------------
// Encoding

pub open spec fn account_type_byte(t: AccountType) -> u8 {
    match t {
        AccountType::Tax => 0,
        AccountType::Deposit => 1,
    }
}

pub open spec fn origin_bytes(o: AccountOrigin) -> Seq<u8> {
    le_bytes(o.notebook_number as nat, 4) + le_bytes(o.account_uid as nat, 4)
}

pub open spec fn note_type_bytes(t: NoteType) -> Seq<u8> {
    match t {
        NoteType::Send { to } => match to {
            None => seq![0u8, 0u8],
            Some(a) => seq![0u8, 1u8] + a@,
        },
        NoteType::Claim => seq![1u8],
        NoteType::ClaimFromMainchain { account_nonce } => seq![2u8] + le_bytes(account_nonce as nat, 4),
        NoteType::SendToMainchain => seq![3u8],
        NoteType::Tax => seq![4u8],
        NoteType::SendToVote => seq![5u8],
        NoteType::ChannelHold { recipient } => seq![6u8] + recipient@,
        NoteType::ChannelSettle => seq![7u8],
    }
}

pub open spec fn note_bytes(n: Note) -> Seq<u8> {
    le_bytes(n.milligons as nat, 16) + note_type_bytes(n.note_type)
}

pub open spec fn opt_note_bytes(n: Option<Note>) -> Seq<u8> {
    match n {
        None => seq![0u8],
        Some(n) => seq![1u8] + note_bytes(n),
    }
}

/// The merkle leaf of a tip: account, type, change number, balance, origin
/// and the hold note, in that order.
pub open spec fn tip_bytes(t: BalanceTip) -> Seq<u8> {
    t.account_id@ + seq![account_type_byte(t.account_type)] + le_bytes(t.change_number as nat, 4)
        + le_bytes(t.balance as nat, 16) + origin_bytes(t.account_origin) + opt_note_bytes(
        t.channel_hold_note,
    )
}

pub open spec fn vote_bytes(v: BlockVote) -> Seq<u8> {
    v.account_id@ + le_bytes(v.index as nat, 4) + v.block_hash@ + le_bytes(v.power as nat, 16)
}

pub open spec fn transfer_bytes(t: ChainTransfer) -> Seq<u8> {
    match t {
        ChainTransfer::ToMainchain { account_id, amount } => seq![0u8] + account_id@ + le_bytes(
            amount as nat,
            16,
        ),
        ChainTransfer::ToLocalchain { account_id, account_nonce } => seq![1u8] + account_id@
            + le_bytes(account_nonce as nat, 4),
    }
}

pub open spec fn origins_bytes(s: Seq<AccountOrigin>) -> Seq<u8>
    decreases s.len(),
{
    if s.len() == 0 {
        Seq::empty()
    } else {
        origins_bytes(s.drop_last()) + origin_bytes(s.last())
    }
}

pub open spec fn transfers_bytes(s: Seq<ChainTransfer>) -> Seq<u8>
    decreases s.len(),
{
    if s.len() == 0 {
        Seq::empty()
    } else {
        transfers_bytes(s.drop_last()) + transfer_bytes(s.last())
    }
}

/// The bytes that the header hash commits to.
pub open spec fn header_bytes(h: NotebookHeader) -> Seq<u8> {
    le_bytes(h.version as nat, 4) + le_bytes(h.notary_id as nat, 4) + le_bytes(
        h.notebook_number as nat,
        4,
    ) + le_bytes(h.tick as nat, 4) + le_bytes(h.finalized_block_number as nat, 4)
        + h.changed_accounts_root@ + le_bytes(h.changed_account_origins@.len() as nat, 4)
        + origins_bytes(h.changed_account_origins@) + le_bytes(h.chain_transfers@.len() as nat, 4)
        + transfers_bytes(h.chain_transfers@) + h.block_votes_root@ + le_bytes(
        h.block_votes_count as nat,
        4,
    ) + le_bytes(h.block_voting_power as nat, 16) + le_bytes(h.tax as nat, 16)
}

proof fn lemma_assoc(a: Seq<u8>, b: Seq<u8>, c: Seq<u8>)
    ensures
        a + b + c == a + (b + c),
{
    assert(a + b + c =~= a + (b + c));
}

pub fn push_origin(out: &mut Vec<u8>, o: &AccountOrigin)
    ensures
        final(out)@ == old(out)@ + origin_bytes(*o),
{
    let ghost start = out@;
    push_le(out, o.notebook_number as u128, 4);
    push_le(out, o.account_uid as u128, 4);
    proof {
        lemma_assoc(start, le_bytes(o.notebook_number as nat, 4), le_bytes(o.account_uid as nat, 4));
    }
}

pub fn push_note(out: &mut Vec<u8>, n: &Note)
    ensures
        final(out)@ == old(out)@ + note_bytes(*n),
{
    let ghost start = out@;
    push_le(out, n.milligons, 16);
    let ghost mid = out@;
    match n.note_type {
        NoteType::Send { to } => {
            out.push(0u8);
            match to {
                None => {
                    out.push(0u8);
                },
                Some(a) => {
                    out.push(1u8);
                    push_bytes32(out, &a);
                },
            }
        },
        NoteType::Claim => {
            out.push(1u8);
        },
        NoteType::ClaimFromMainchain { account_nonce } => {
            out.push(2u8);
            push_le(out, account_nonce as u128, 4);
        },
        NoteType::SendToMainchain => {
            out.push(3u8);
        },
        NoteType::Tax => {
            out.push(4u8);
        },
        NoteType::SendToVote => {
            out.push(5u8);
        },
        NoteType::ChannelHold { recipient } => {
            out.push(6u8);
            push_bytes32(out, &recipient);
        },
        NoteType::ChannelSettle => {
            out.push(7u8);
        },
    }
    assert(out@ =~= mid + note_type_bytes(n.note_type));
    proof {
        lemma_assoc(start, le_bytes(n.milligons as nat, 16), note_type_bytes(n.note_type));
    }
}

pub fn push_opt_note(out: &mut Vec<u8>, n: &Option<Note>)
    ensures
        final(out)@ == old(out)@ + opt_note_bytes(*n),
{
    let ghost start = out@;
    match n {
        None => {
            out.push(0u8);
            assert(out@ =~= start + seq![0u8]);
        },
        Some(note) => {
            out.push(1u8);
            push_note(out, note);
            assert(out@ =~= start + (seq![1u8] + note_bytes(*note)));
        },
    }
}

impl BalanceTip {
    /// The canonical encoding of the tip: its merkle leaf.
    pub fn encode(&self) -> (r: Vec<u8>)
        ensures
            r@ == tip_bytes(*self),
    {
        let mut out: Vec<u8> = Vec::new();
        push_bytes32(&mut out, &self.account_id);
        let tb: u8 = match self.account_type {
            AccountType::Tax => 0u8,
            AccountType::Deposit => 1u8,
        };
        out.push(tb);
        push_le(&mut out, self.change_number as u128, 4);
        push_le(&mut out, self.balance, 16);
        push_origin(&mut out, &self.account_origin);
        push_opt_note(&mut out, &self.channel_hold_note);
        assert(out@ =~= tip_bytes(*self));
        out
    }
}

impl BalanceTip {
    /// The committed form of the tip that a notary reports for an account:
    /// BLAKE2b-256 of its encoding.
    pub fn tip(&self) -> (r: [u8; 32])
        ensures
            r@ == blake2_256_of(tip_bytes(*self)),
    {
        let bytes = self.encode();
        blake2_256(&bytes)
    }
}

impl BlockVote {
    /// The canonical encoding of the vote: its merkle leaf.
    pub fn encode(&self) -> (r: Vec<u8>)
        ensures
            r@ == vote_bytes(*self),
    {
        let mut out: Vec<u8> = Vec::new();
        push_bytes32(&mut out, &self.account_id);
        push_le(&mut out, self.index as u128, 4);
        push_bytes32(&mut out, &self.block_hash);
        push_le(&mut out, self.power, 16);
        assert(out@ =~= vote_bytes(*self));
        out
    }
}

pub fn push_transfer(out: &mut Vec<u8>, t: &ChainTransfer)
    ensures
        final(out)@ == old(out)@ + transfer_bytes(*t),
{
    let ghost start = out@;
    match t {
        ChainTransfer::ToMainchain { account_id, amount } => {
            out.push(0u8);
            push_bytes32(out, account_id);
            push_le(out, *amount, 16);
        },
        ChainTransfer::ToLocalchain { account_id, account_nonce } => {
            out.push(1u8);
            push_bytes32(out, account_id);
            push_le(out, *account_nonce as u128, 4);
        },
    }
    assert(out@ =~= start + transfer_bytes(*t));
}

impl NotebookHeader {
    /// The canonical encoding of the header, which its hash commits to.
    pub fn encode(&self) -> (r: Vec<u8>)
        requires
            self.changed_account_origins@.len() <= u32::MAX,
            self.chain_transfers@.len() <= u32::MAX,
        ensures
            r@ == header_bytes(*self),
    {
        let mut out: Vec<u8> = Vec::new();
        push_le(&mut out, self.version as u128, 4);
        push_le(&mut out, self.notary_id as u128, 4);
        push_le(&mut out, self.notebook_number as u128, 4);
        push_le(&mut out, self.tick as u128, 4);
        push_le(&mut out, self.finalized_block_number as u128, 4);
        push_bytes32(&mut out, &self.changed_accounts_root);
        push_le(&mut out, self.changed_account_origins.len() as u128, 4);
        let ghost before_origins = out@;
        let mut i: usize = 0;
        while i < self.changed_account_origins.len()
            invariant
                i <= self.changed_account_origins@.len(),
                out@ == before_origins + origins_bytes(self.changed_account_origins@.subrange(0, i as int)),
            decreases self.changed_account_origins@.len() - i,
        {
            let ghost pre = self.changed_account_origins@.subrange(0, i as int);
            push_origin(&mut out, &self.changed_account_origins[i]);
            proof {
                let next = self.changed_account_origins@.subrange(0, i as int + 1);
                assert(next.drop_last() =~= pre);
                lemma_assoc(before_origins, origins_bytes(pre), origin_bytes(next.last()));
            }
            i = i + 1;
        }
        assert(self.changed_account_origins@.subrange(0, i as int) =~= self.changed_account_origins@);
        push_le(&mut out, self.chain_transfers.len() as u128, 4);
        let ghost before_transfers = out@;
        let mut j: usize = 0;
        while j < self.chain_transfers.len()
            invariant
                j <= self.chain_transfers@.len(),
                out@ == before_transfers + transfers_bytes(self.chain_transfers@.subrange(0, j as int)),
            decreases self.chain_transfers@.len() - j,
        {
            let ghost pre = self.chain_transfers@.subrange(0, j as int);
            push_transfer(&mut out, &self.chain_transfers[j]);
            proof {
                let next = self.chain_transfers@.subrange(0, j as int + 1);
                assert(next.drop_last() =~= pre);
                lemma_assoc(before_transfers, transfers_bytes(pre), transfer_bytes(next.last()));
            }
            j = j + 1;
        }
        assert(self.chain_transfers@.subrange(0, j as int) =~= self.chain_transfers@);
        push_bytes32(&mut out, &self.block_votes_root);
        push_le(&mut out, self.block_votes_count as u128, 4);
        push_le(&mut out, self.block_voting_power, 16);
        push_le(&mut out, self.tax, 16);
        assert(out@ =~= header_bytes(*self));
        out
    }

    /// The hash the notary signs: BLAKE2b-256 of the header's encoding.
    pub fn hash(&self) -> (r: [u8; 32])
        requires
            self.changed_account_origins@.len() <= u32::MAX,
            self.chain_transfers@.len() <= u32::MAX,
        ensures
            r@ == blake2_256_of(header_bytes(*self)),
    {
        let bytes = self.encode();
        blake2_256(&bytes)
    }
}

// ---------------------------------------------------------------------------
// Deep copies

/// The contents of a balance reference, with its merkle proof as a sequence.
pub ghost struct BalanceProofView {
    pub notary_id: NotaryId,
    pub notebook_number: NotebookNumber,
    pub tick: Tick,
    pub notebook_proof: Option<(Seq<[u8; 32]>, u32, u32)>,
    pub account_origin: AccountOrigin,
    pub balance: u128,
}

pub open spec fn proof_view(p: BalanceProof) -> BalanceProofView {
    BalanceProofView {
        notary_id: p.notary_id,
        notebook_number: p.notebook_number,
        tick: p.tick,
        notebook_proof: match p.notebook_proof {
            Some(m) => Some((m.proof@, m.number_of_leaves, m.leaf_index)),
            None => None,
        },
        account_origin: p.account_origin,
        balance: p.balance,
    }
}

/// The contents of a balance change, with its vectors as sequences.
pub ghost struct BalanceChangeView {
    pub account_id: AccountId,
    pub account_type: AccountType,
    pub change_number: u32,
    pub balance: u128,
    pub previous_balance_proof: Option<BalanceProofView>,
    pub channel_hold_note: Option<Note>,
    pub notes: Seq<Note>,
}

pub open spec fn change_view(c: BalanceChange) -> BalanceChangeView {
    BalanceChangeView {
        account_id: c.account_id,
        account_type: c.account_type,
        change_number: c.change_number,
        balance: c.balance,
        previous_balance_proof: match c.previous_balance_proof {
            Some(p) => Some(proof_view(p)),
            None => None,
        },
        channel_hold_note: c.channel_hold_note,
        notes: c.notes@,
    }
}

pub open spec fn changes_view(s: Seq<BalanceChange>) -> Seq<BalanceChangeView> {
    s.map_values(|c: BalanceChange| change_view(c))
}

pub fn copy_vec<T: Copy>(v: &Vec<T>) -> (r: Vec<T>)
    ensures
        r@ == v@,
{
    let mut out: Vec<T> = Vec::new();
    let mut i: usize = 0;
    while i < v.len()
        invariant
            i <= v@.len(),
            out@ =~= v@.subrange(0, i as int),
        decreases v@.len() - i,
    {
        out.push(v[i]);
        i = i + 1;
    }
    assert(v@.subrange(0, i as int) =~= v@);
    out
}

impl BalanceProof {
    pub fn duplicate(&self) -> (r: BalanceProof)
        ensures
            proof_view(r) == proof_view(*self),
    {
        let notebook_proof = match &self.notebook_proof {
            Some(m) => Some(
                MerkleProof {
                    proof: copy_vec(&m.proof),
                    number_of_leaves: m.number_of_leaves,
                    leaf_index: m.leaf_index,
                },
            ),
            None => None,
        };
        BalanceProof {
            notary_id: self.notary_id,
            notebook_number: self.notebook_number,
            tick: self.tick,
            notebook_proof,
            account_origin: self.account_origin,
            balance: self.balance,
        }
    }
}

impl BalanceChange {
    pub fn duplicate(&self) -> (r: BalanceChange)
        ensures
            change_view(r) == change_view(*self),
    {
        let previous_balance_proof = match &self.previous_balance_proof {
            Some(p) => Some(p.duplicate()),
            None => None,
        };
        BalanceChange {
            account_id: self.account_id,
            account_type: self.account_type,
            change_number: self.change_number,
            balance: self.balance,
            previous_balance_proof,
            channel_hold_note: self.channel_hold_note,
            notes: copy_vec(&self.notes),
        }
    }
}

pub fn copy_changes(v: &Vec<BalanceChange>) -> (r: Vec<BalanceChange>)
    ensures
        changes_view(r@) == changes_view(v@),
{
    let mut out: Vec<BalanceChange> = Vec::new();
    let mut i: usize = 0;
    while i < v.len()
        invariant
            i <= v@.len(),
            out@.len() == i,
            forall|k: int| 0 <= k < i ==> change_view(#[trigger] out@[k]) == change_view(v@[k]),
        decreases v@.len() - i,
    {
        out.push(v[i].duplicate());
        i = i + 1;
    }
    assert(changes_view(out@) =~= changes_view(v@));
    out
}

} // verus!
