//! Transaction records: their kinds, validity and parsing from text fields.
use vstd::prelude::*;

use crate::decimal::{amount_value, parse_amount, parse_unsigned, unsigned_value};

verus! {

#[derive(Debug, Clone, Copy, PartialEq, Eq, Structural)]
pub enum TransactionType {
    Deposit,
    Withdrawal,
    Dispute,
    Resolve,
    Chargeback,
}

/// The kind that a keyword names; keywords are matched exactly.
pub open spec fn kind_of(s: Seq<char>) -> Option<TransactionType> {
    if s == "deposit"@ {
        Some(TransactionType::Deposit)
    } else if s == "withdrawal"@ {
        Some(TransactionType::Withdrawal)
    } else if s == "dispute"@ {
        Some(TransactionType::Dispute)
    } else if s == "resolve"@ {
        Some(TransactionType::Resolve)
    } else if s == "chargeback"@ {
        Some(TransactionType::Chargeback)
    } else {
        None
    }
}

fn same_text(a: &str, b: &str) -> (r: bool)
    ensures
        r == (a@ == b@),
{
    let n = a.unicode_len();
    if n != b.unicode_len() {
        return false;
    }
    let mut i: usize = 0;
    while i < n
        invariant
            i <= n,
            n == a@.len(),
            n == b@.len(),
            forall|j: int| 0 <= j < i ==> a@[j] == b@[j],
        decreases n - i,
    {
        if a.get_char(i) != b.get_char(i) {
            return false;
        }
        i = i + 1;
    }
    assert(a@ =~= b@);
    true
}

impl TransactionType {
    /// Decodes one of the five keywords `deposit`, `withdrawal`, `dispute`,
    /// `resolve` and `chargeback`; anything else is an error.
    pub fn parse(item: &str) -> (r: Result<TransactionType, String>)
        ensures
            r is Ok <==> kind_of(item@) is Some,
            r matches Ok(k) ==> kind_of(item@) == Some(k),
    {
        proof {
            reveal_strlit("deposit");
            reveal_strlit("withdrawal");
            reveal_strlit("dispute");
            reveal_strlit("resolve");
            reveal_strlit("chargeback");
        }
        if same_text(item, "deposit") {
            Ok(TransactionType::Deposit)
        } else if same_text(item, "withdrawal") {
            Ok(TransactionType::Withdrawal)
        } else if same_text(item, "dispute") {
            Ok(TransactionType::Dispute)
        } else if same_text(item, "resolve") {
            Ok(TransactionType::Resolve)
        } else if same_text(item, "chargeback") {
            Ok(TransactionType::Chargeback)
        } else {
            Err("Not a valid transaction type".to_string())
        }
    }

    /// Whether records of this kind move funds and carry an amount.
    pub open spec fn moves_funds(self) -> bool {
        self is Deposit || self is Withdrawal
    }
}

/// One ledger event. Amounts are in units of 1/10000.
#[derive(Debug, Clone, Copy)]
pub struct Transaction {
    pub transaction_type: TransactionType,
    pub client: u16,
    pub tx: u32,
    pub amount: Option<i64>,
    pub disputed: bool,
}

/// The transaction that trimmed text fields describe, if they parse: the
/// client and transaction ids as unsigned integers, the kind as a keyword,
/// and an amount that does not parse read as no amount.
pub open spec fn transaction_of(
    kind: Seq<char>,
    client: Seq<char>,
    tx: Seq<char>,
    amount: Option<Seq<char>>,
) -> Option<Transaction> {
    match (unsigned_value(client, u16::MAX as int), kind_of(kind), unsigned_value(tx, u32::MAX as int)) {
        (Some(c), Some(k), Some(t)) => Some(
            Transaction {
                transaction_type: k,
                client: c as u16,
                tx: t as u32,
                amount: match amount {
                    Some(a) => amount_value(a),
                    None => None,
                },
                disputed: false,
            },
        ),
        _ => None,
    }
}

#[verifier::external_type_specification]
#[verifier::external_body]
pub struct ExStringRecord(csv::StringRecord);

/// The fields that a csv record holds, in order.
pub uninterp spec fn record_fields(r: csv::StringRecord) -> Seq<Seq<char>>;

/// Relies on csv::StringRecord::len: the number of fields in the record.
pub assume_specification[ csv::StringRecord::len ](r: &csv::StringRecord) -> (n: usize)
    ensures
        n == record_fields(*r).len(),
;

/// Relies on csv::StringRecord::get: the field at index `i`, or `None` past
/// the last field.
pub assume_specification[ csv::StringRecord::get ](r: &csv::StringRecord, i: usize) -> (f: Option<&str>)
    ensures
        f is Some <==> i < record_fields(*r).len(),
        f matches Some(t) ==> t@ == record_fields(*r)[i as int],
;

/// What `str::trim` leaves of a text.
pub uninterp spec fn trimmed(s: Seq<char>) -> Seq<char>;

/// Relies on str::trim: the text without leading and trailing white space,
/// which depends on the characters alone and is no longer than the text.
#[verifier::external_body]
fn trim(s: &str) -> (r: &str)
    ensures
        r@ == trimmed(s@),
        r@.len() <= s@.len(),
{
    s.trim()
}

/// The transaction that a record's fields describe: kind, client, tx and,
/// in a record of exactly four fields, amount. Ids and amount are read
/// trimmed; the kind is not.
pub open spec fn record_transaction(f: Seq<Seq<char>>) -> Option<Transaction> {
    if f.len() < 3 {
        None
    } else {
        transaction_of(
            f[0],
            trimmed(f[1]),
            trimmed(f[2]),
            if f.len() == 4 {
                Some(trimmed(f[3]))
            } else {
                None
            },
        )
    }
}

pub open spec fn optional_text(a: Option<&str>) -> Option<Seq<char>> {
    match a {
        Some(t) => Some(t@),
        None => None,
    }
}

impl Transaction {
    /// Whether this record may reach the ledger: a deposit or withdrawal
    /// must carry an amount.
    pub open spec fn valid(self) -> bool {
        !(self.transaction_type.moves_funds() && self.amount is None)
    }

    pub fn set_disputed(&mut self)
        ensures
            *final(self) == (Transaction { disputed: true, ..*old(self) }),
    {
        self.disputed = true;
    }

    pub fn remove_disputed(&mut self)
        ensures
            *final(self) == (Transaction { disputed: false, ..*old(self) }),
    {
        self.disputed = false;
    }

    pub fn is_valid(self) -> (r: bool)
        ensures
            r == self.valid(),
    {
        let moves = match self.transaction_type {
            TransactionType::Deposit | TransactionType::Withdrawal => true,
            _ => false,
        };
        !(moves && self.amount.is_none())
    }

    /// Builds a transaction from its text fields; `client`, `tx` and
    /// `amount` are expected already trimmed. The client id is checked
    /// first, then the kind, then the transaction id.
    pub fn from_fields(kind: &str, client: &str, tx: &str, amount: Option<&str>) -> (r: Result<
        Transaction,
        String,
    >)
        ensures
            r is Ok <==> transaction_of(kind@, client@, tx@, optional_text(amount)) is Some,
            r matches Ok(t) ==> transaction_of(kind@, client@, tx@, optional_text(amount))
                == Some(t),
    {
        let client = match parse_unsigned(client, 65535) {
            Some(c) => c as u16,
            None => {
                return Err("unable to parse client".to_string());
            },
        };
        let transaction_type = match TransactionType::parse(kind) {
            Ok(k) => k,
            Err(_) => {
                return Err("unable to parse transaction type".to_string());
            },
        };
        let tx = match parse_unsigned(tx, 4294967295) {
            Some(t) => t as u32,
            None => {
                return Err("unable to parse transaction".to_string());
            },
        };
        let amount = match amount {
            Some(a) => parse_amount(a),
            None => None,
        };
        Ok(Transaction { transaction_type, client, tx, amount, disputed: false })
    }

    /// Builds a transaction from a csv record of at least three fields.
    pub fn parse(record: csv::StringRecord) -> (r: Result<Transaction, String>)
        ensures
            r is Ok <==> record_transaction(record_fields(record)) is Some,
            r matches Ok(t) ==> record_transaction(record_fields(record)) == Some(t),
    {
        let n = record.len();
        if n < 3 {
            return Err("unable to parse row".to_string());
        }
        let (kind, client, tx) = match (record.get(0), record.get(1), record.get(2)) {
            (Some(k), Some(c), Some(t)) => (k, c, t),
            _ => {
                return Err("unable to parse row".to_string());
            },
        };
        let amount = if n == 4 {
            match record.get(3) {
                Some(a) => Some(trim(a)),
                None => None,
            }
        } else {
            None
        };
        Transaction::from_fields(kind, trim(client), trim(tx), amount)
    }
}

} // verus!
