use vstd::prelude::*;

verus! {

/// Identity of an on-chain account or contract.
///
/// An address's strkey text is 56 ASCII characters; they are packed,
/// eight per word and most significant first, into seven 64-bit words,
/// so two identities are equal exactly when their strkeys are.
#[derive(Clone, Copy, Debug, PartialEq, Eq, Structural, Hash)]
pub struct AccountId {
    pub w0: u64,
    pub w1: u64,
    pub w2: u64,
    pub w3: u64,
    pub w4: u64,
    pub w5: u64,
    pub w6: u64,
}

/// A ticker symbol (at most 32 characters of `[A-Za-z0-9_]`), packed eight
/// characters per word, most significant first, zero-padded on the right.
#[derive(Clone, Copy, Debug, PartialEq, Eq, Structural, Hash)]
pub struct SymbolId {
    pub w0: u64,
    pub w1: u64,
    pub w2: u64,
    pub w3: u64,
}

impl AccountId {
    /// The identity whose seven words are given.
    pub fn from_words(words: [u64; 7]) -> (r: AccountId)
        ensures
            r.w0 == words[0],
            r.w1 == words[1],
            r.w2 == words[2],
            r.w3 == words[3],
            r.w4 == words[4],
            r.w5 == words[5],
            r.w6 == words[6],
    {
        AccountId {
            w0: words[0],
            w1: words[1],
            w2: words[2],
            w3: words[3],
            w4: words[4],
            w5: words[5],
            w6: words[6],
        }
    }
}

/// One side of a token movement: the contract's own balance, or an account.
#[derive(Clone, Copy, Debug, PartialEq, Eq, Structural)]
pub enum Party {
    Contract,
    Account(AccountId),
}

/// A transfer of the contract's collateral token that an operation asks
/// its host to perform, in the order listed.
#[derive(Clone, Copy, Debug, PartialEq, Eq, Structural)]
pub struct Payment {
    pub from: Party,
    pub to: Party,
    pub amount: i128,
}

/// Whether `id` occurs in `list`.
pub fn contains_account(list: &Vec<AccountId>, id: AccountId) -> (r: bool)
    ensures
        r == list@.contains(id),
{
    let mut i: usize = 0;
    while i < list.len()
        invariant
            i <= list.len(),
            forall|j: int| 0 <= j < i ==> list@[j] != id,
        decreases list.len() - i,
    {
        if list[i] == id {
            return true;
        }
        i = i + 1;
    }
    false
}

} // verus!
