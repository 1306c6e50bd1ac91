use vstd::prelude::*;

verus! {

/// Errors raised while reading a transaction's own fields.
#[derive(Debug, PartialEq, Eq, Clone, Copy, Structural)]
pub enum TransactionError {
    TransactionNeedsAmount,
    TransactionAmountImproperlyFormatted,
}

/// The five kinds of transaction in the input stream.
#[derive(Debug, PartialEq, Eq, Clone, Copy, Structural)]
pub enum TransactionType {
    Deposit,
    Withdrawal,
    Dispute,
    Resolve,
    Chargeback,
}

/// One transaction; deposits and withdrawals are also what the ledger stores.
///
/// `amount` is a count of ten-thousandths of a currency unit.
#[derive(Debug, PartialEq, Eq, Clone, Copy, Structural)]
pub struct Transaction {
    pub kind: TransactionType,
    pub amount: Option<u64>,
    pub client: u16,
    pub tx: u32,
    pub disputed: bool,
}

impl Transaction {
    /// The declared amount, which deposits and withdrawals must carry.
    pub fn amount(&self) -> (r: Result<u64, TransactionError>)
        ensures
            r == (match self.amount {
                Some(a) => Ok(a),
                None => Err(TransactionError::TransactionNeedsAmount),
            }),
    {
        match self.amount {
            Some(a) => Ok(a),
            None => Err(TransactionError::TransactionNeedsAmount),
        }
    }
}

/// A fresh transaction is never disputed.
pub fn bool_false() -> (r: bool)
    ensures
        !r,
{
    false
}

/// `c` equals the lower-case ASCII letter or character `lower`, ignoring ASCII case.
pub open spec fn same_letter(c: char, lower: char) -> bool {
    c == lower || ('a' <= lower && lower <= 'z' && c as u32 + 32 == lower as u32)
}

/// `s` spells `word`, a lower-case ASCII word, in any ASCII case.
pub open spec fn spells(s: Seq<char>, word: Seq<char>) -> bool {
    &&& s.len() == word.len()
    &&& forall|i: int| 0 <= i < s.len() ==> same_letter(#[trigger] s[i], word[i])
}

fn same_letter_exec(c: char, lower: char) -> (r: bool)
    ensures
        r == same_letter(c, lower),
{
    c == lower || ('a' <= lower && lower <= 'z' && c as u32 + 32 == lower as u32)
}

/// Whether `s` spells `word` in any ASCII case.
fn spells_exec(s: &str, word: &str) -> (r: bool)
    ensures
        r == spells(s@, word@),
{
    let n = s.unicode_len();
    if n != word.unicode_len() {
        return false;
    }
    let mut i: usize = 0;
    while i < n
        invariant
            n == s@.len(),
            n == word@.len(),
            0 <= i <= n,
            forall|j: int| 0 <= j < i ==> same_letter(#[trigger] s@[j], word@[j]),
        decreases n - i,
    {
        if !same_letter_exec(s.get_char(i), word.get_char(i)) {
            return false;
        }
        i = i + 1;
    }
    true
}

impl TransactionType {
    /// The lower-case word that names this type in the input.
    pub open spec fn token(self) -> Seq<char> {
        match self {
            TransactionType::Deposit => "deposit"@,
            TransactionType::Withdrawal => "withdrawal"@,
            TransactionType::Dispute => "dispute"@,
            TransactionType::Resolve => "resolve"@,
            TransactionType::Chargeback => "chargeback"@,
        }
    }

    /// The type that `token` names, in any ASCII case.
    pub fn from_token(token: &str) -> (r: Option<TransactionType>)
        ensures
            match r {
                Some(k) => spells(token@, k.token()),
                None => forall|k: TransactionType| !spells(token@, #[trigger] k.token()),
            },
    {
        if spells_exec(token, "deposit") {
            Some(TransactionType::Deposit)
        } else if spells_exec(token, "withdrawal") {
            Some(TransactionType::Withdrawal)
        } else if spells_exec(token, "dispute") {
            Some(TransactionType::Dispute)
        } else if spells_exec(token, "resolve") {
            Some(TransactionType::Resolve)
        } else if spells_exec(token, "chargeback") {
            Some(TransactionType::Chargeback)
        } else {
            proof {
                assert forall|k: TransactionType| !spells(token@, #[trigger] k.token()) by {
                    match k {
                        TransactionType::Deposit => {},
                        TransactionType::Withdrawal => {},
                        TransactionType::Dispute => {},
                        TransactionType::Resolve => {},
                        TransactionType::Chargeback => {},
                    }
                }
            }
            None
        }
    }
}

} // verus!
