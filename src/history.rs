//! What the audit needs to know of earlier notebooks and of the settlement chain.
use vstd::prelude::*;
use crate::bytes::same_bytes32;
use crate::model::{AccountId, AccountOrigin, NotebookNumber};

verus! {

/// The committed history that an audit checks references against: the
/// account-change root of each closed notebook, the notebook in which each
/// account origin last changed, and the settlement-chain deposits that may
/// be claimed into the localchain.
#[derive(Clone, Debug)]
pub struct NotebookHistory {
    pub account_changes_roots: Vec<(NotebookNumber, [u8; 32])>,
    pub last_changed_notebooks: Vec<(AccountOrigin, NotebookNumber)>,
    pub localchain_transfers: Vec<(AccountId, u32)>,
}

pub open spec fn is_first_root(s: Seq<(NotebookNumber, [u8; 32])>, n: NotebookNumber, k: int) -> bool {
    0 <= k < s.len() && s[k].0 == n && forall|j: int| 0 <= j < k ==> s[j].0 != n
}

/// The root recorded first for notebook `n`, if any.
pub open spec fn root_at(s: Seq<(NotebookNumber, [u8; 32])>, n: NotebookNumber) -> Option<[u8; 32]> {
    if exists|k: int| is_first_root(s, n, k) {
        Some(s[choose|k: int| is_first_root(s, n, k)].1)
    } else {
        None
    }
}

pub open spec fn is_first_change(s: Seq<(AccountOrigin, NotebookNumber)>, o: AccountOrigin, k: int) -> bool {
    0 <= k < s.len() && s[k].0 == o && forall|j: int| 0 <= j < k ==> s[j].0 != o
}

/// The notebook recorded first as the last change of origin `o`, if any.
pub open spec fn last_changed_at(s: Seq<(AccountOrigin, NotebookNumber)>, o: AccountOrigin) -> Option<NotebookNumber> {
    if exists|k: int| is_first_change(s, o, k) {
        Some(s[choose|k: int| is_first_change(s, o, k)].1)
    } else {
        None
    }
}

/// Whether a deposit with this account and nonce was seen on the settlement chain.
pub open spec fn transfer_known(s: Seq<(AccountId, u32)>, account: Seq<u8>, nonce: u32) -> bool {
    exists|k: int| 0 <= k < s.len() && s[k].0@ == account && s[k].1 == nonce
}

impl NotebookHistory {
    pub fn new() -> (r: NotebookHistory)
        ensures
            r.account_changes_roots@.len() == 0,
            r.last_changed_notebooks@.len() == 0,
            r.localchain_transfers@.len() == 0,
    {
        NotebookHistory {
            account_changes_roots: Vec::new(),
            last_changed_notebooks: Vec::new(),
            localchain_transfers: Vec::new(),
        }
    }

    pub fn get_account_changes_root(&self, notebook_number: NotebookNumber) -> (r: Option<[u8; 32]>)
        ensures
            r == root_at(self.account_changes_roots@, notebook_number),
    {
        let s = &self.account_changes_roots;
        let mut i: usize = 0;
        while i < s.len()
            invariant
                s@ == self.account_changes_roots@,
                i <= s@.len(),
                forall|j: int| 0 <= j < i ==> s@[j].0 != notebook_number,
            decreases s@.len() - i,
        {
            if s[i].0 == notebook_number {
                assert(is_first_root(s@, notebook_number, i as int));
                let ghost c = choose|k: int| is_first_root(s@, notebook_number, k);
                assert(c == i as int) by {
                    if c < i as int {
                        assert(s@[c].0 != notebook_number);
                    } else if c > i as int {
                        assert(s@[i as int].0 != notebook_number);
                    }
                }
                let r = s[i].1;
                assert(root_at(s@, notebook_number) == Some(s@[i as int].1));
                assert(root_at(s@, notebook_number) == Some(r));
                return Some(r);
            }
            i = i + 1;
        }
        assert(!exists|k: int| is_first_root(s@, notebook_number, k));
        None
    }

    pub fn get_last_changed_notebook(&self, origin: &AccountOrigin) -> (r: Option<NotebookNumber>)
        ensures
            r == last_changed_at(self.last_changed_notebooks@, *origin),
    {
        let s = &self.last_changed_notebooks;
        let mut i: usize = 0;
        while i < s.len()
            invariant
                s@ == self.last_changed_notebooks@,
                i <= s@.len(),
                forall|j: int| 0 <= j < i ==> s@[j].0 != *origin,
            decreases s@.len() - i,
        {
            let o = s[i].0;
            if o.notebook_number == origin.notebook_number && o.account_uid == origin.account_uid {
                assert(is_first_change(s@, *origin, i as int));
                let ghost c = choose|k: int| is_first_change(s@, *origin, k);
                assert(c == i as int) by {
                    if c < i as int {
                        assert(s@[c].0 != *origin);
                    } else if c > i as int {
                        assert(s@[i as int].0 != *origin);
                    }
                }
                let r = s[i].1;
                assert(last_changed_at(s@, *origin) == Some(s@[i as int].1));
                return Some(r);
            }
            i = i + 1;
        }
        assert(!exists|k: int| is_first_change(s@, *origin, k));
        None
    }

    pub fn is_valid_transfer_to_localchain(&self, account_id: &AccountId, nonce: u32) -> (r: bool)
        ensures
            r == transfer_known(self.localchain_transfers@, account_id@, nonce),
    {
        let s = &self.localchain_transfers;
        let mut i: usize = 0;
        while i < s.len()
            invariant
                s@ == self.localchain_transfers@,
                i <= s@.len(),
                forall|j: int| 0 <= j < i ==> !(s@[j].0@ == account_id@ && s@[j].1 == nonce),
            decreases s@.len() - i,
        {
            if s[i].1 == nonce && same_bytes32(&s[i].0, account_id) {
                assert(0 <= i < s@.len() && s@[i as int].0@ == account_id@ && s@[i as int].1 == nonce);
                assert(transfer_known(s@, account_id@, nonce));
                return true;
            }
            i = i + 1;
        }
        false
    }
}

} // verus!
