//! The transaction record data model: the five record kinds, the parsed
//! record itself, and the textual names the input format uses for the kinds.

use vstd::prelude::*;
use vstd::string::StrSliceExecFns;
use vstd::string::StringExecFns;

use crate::amount::Amount;

verus! {

/// The five kinds of input record.
#[derive(Clone, Copy, Debug, PartialEq, Eq, Structural)]
pub enum TransactionType {
    Deposit,
    Withdrawal,
    Dispute,
    Resolve,
    Chargeback,
}

/// Deposits and withdrawals are the primary, funding records: they carry an
/// amount, are recorded in account history, and are the only kinds a dispute
/// may reference.
pub open spec fn is_primary(k: TransactionType) -> bool {
    k == TransactionType::Deposit || k == TransactionType::Withdrawal
}

/// The kind named by a field of the input text, if any; names are
/// case-sensitive and lowercase.
pub open spec fn spec_kind_of_name(s: Seq<char>) -> Option<TransactionType> {
    if s == "deposit"@ {
        Some(TransactionType::Deposit)
    } else if s == "withdrawal"@ {
        Some(TransactionType::Withdrawal)
    } else if s == "dispute"@ {
        Some(TransactionType::Dispute)
    } else if s == "resolve"@ {
        Some(TransactionType::Resolve)
    } else if s == "chargeback"@ {
        Some(TransactionType::Chargeback)
    } else {
        None
    }
}

/// One parsed input record.
#[derive(Clone, Debug, PartialEq)]
pub struct Transaction {
    pub kind: TransactionType,
    pub client_id: u16,
    pub transaction_id: u32,
    pub amount: Option<Amount>,
}

impl Transaction {
    /// A record is valid when a primary kind carries a valid amount; the
    /// referencing kinds may carry anything: the engine ignores their
    /// amount field and always settles a dispute at the originally
    /// recorded amount.
    pub open spec fn valid(self) -> bool {
        is_primary(self.kind) ==> (self.amount matches Some(a) && a.valid())
    }

    /// The kind of this record.
    pub fn get_type(&self) -> (k: &TransactionType)
        ensures
            k == self.kind,
    {
        &self.kind
    }

    /// Whether a dispute may reference this record.
    pub fn is_disputable(&self) -> (r: bool)
        ensures
            r == is_primary(self.kind),
    {
        match self.kind {
            TransactionType::Deposit => true,
            TransactionType::Withdrawal => true,
            _ => false,
        }
    }
}

/// Character-for-character string equality.
pub(crate) fn str_eq(a: &str, b: &str) -> (r: bool)
    ensures
        r == (a@ == b@),
{
    let alen = a.unicode_len();
    let blen = b.unicode_len();
    if alen != blen {
        return false;
    }
    let mut i: usize = 0;
    while i < alen
        invariant
            i <= alen,
            alen == a@.len(),
            alen == b@.len(),
            forall|j: int| 0 <= j < i ==> a@[j] == b@[j],
        decreases alen - i,
    {
        if a.get_char(i) != b.get_char(i) {
            return false;
        }
        i += 1;
    }
    proof {
        assert(a@ =~= b@);
    }
    true
}

impl TransactionType {
    /// Parses the textual name of a record kind; an unrecognized name is a
    /// parse-level error, fatal to the record that carries it.
    pub fn from_string(transaction_type: &str) -> (r: Result<TransactionType, String>)
        ensures
            r matches Ok(k) ==> spec_kind_of_name(transaction_type@) == Some(k),
            r matches Err(m) ==> spec_kind_of_name(transaction_type@) is None && m@
                == "Invalid transaction type "@ + transaction_type@ + "."@,
    {
        if str_eq(transaction_type, "deposit") {
            return Ok(TransactionType::Deposit);
        }
        if str_eq(transaction_type, "withdrawal") {
            return Ok(TransactionType::Withdrawal);
        }
        if str_eq(transaction_type, "dispute") {
            return Ok(TransactionType::Dispute);
        }
        if str_eq(transaction_type, "resolve") {
            return Ok(TransactionType::Resolve);
        }
        if str_eq(transaction_type, "chargeback") {
            return Ok(TransactionType::Chargeback);
        }
        let message = String::from_str("Invalid transaction type ").concat(transaction_type).concat(
            ".",
        );
        proof {
            assert(message@ =~= "Invalid transaction type "@ + transaction_type@ + "."@);
        }
        Err(message)
    }
}

} // verus!
