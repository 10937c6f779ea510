//! Parsing of the delimited input text into transaction records.
//!
//! The reader of the outside `csv` crate splits the text into rows of
//! fields; everything after that — trimming the whitespace around fields,
//! reading the kind names, the integer identifiers and the fixed-point
//! amounts — is verified against the grammar the input format defines:
//! `type, client, tx, amount` in that order, `client` a 16-bit and `tx` a
//! 32-bit unsigned integer, and `amount` a decimal literal with up to four
//! fractional digits (empty for the dispute-lifecycle kinds).

use vstd::prelude::*;
use vstd::string::StrSliceExecFns;

use crate::amount::Amount;
use crate::amount::MAX_AMOUNT_UNITS;
use crate::amount::UNITS_PER_WHOLE;
use crate::transaction::is_primary;
use crate::transaction::spec_kind_of_name;
use crate::transaction::Transaction;
use crate::transaction::TransactionType;

verus! {

/// The largest whole-currency count an amount literal may carry: the unit
/// cap spread over the four fractional digits.
pub const MAX_WHOLE: u64 = MAX_AMOUNT_UNITS / UNITS_PER_WHOLE;

/// Why a record could not be parsed. Any of these is fatal to the whole
/// run: a malformed row must abort the batch.
#[derive(Clone, Copy, Debug, PartialEq, Eq, Structural)]
pub enum ParseError {
    /// The reader itself could not split the text into rows (bad quoting,
    /// a row with a field count unlike the header's, or bytes that are not
    /// text).
    MalformedInput,
    /// A row does not have exactly the four fields of the format.
    WrongFieldCount,
    /// The `type` field names none of the five record kinds.
    UnknownKind,
    /// The `client` field is not a 16-bit unsigned integer.
    BadClient,
    /// The `tx` field is not a 32-bit unsigned integer.
    BadTransactionId,
    /// The `amount` field is not a decimal literal within range.
    BadAmount,
    /// A deposit or withdrawal row with an empty `amount` field.
    MissingAmount,
}

// ------------------------------------------------------------------
// Whitespace trimming
// ------------------------------------------------------------------
/// The whitespace that may surround a field and is trimmed before parsing.
pub open spec fn is_space(c: char) -> bool {
    c == ' ' || c == '\t' || c == '\r' || c == '\n'
}

/// `s` without its leading whitespace.
pub open spec fn trim_front(s: Seq<char>) -> Seq<char>
    decreases s.len(),
{
    if s.len() > 0 && is_space(s[0]) {
        trim_front(s.drop_first())
    } else {
        s
    }
}

/// `s` without its trailing whitespace.
pub open spec fn trim_back(s: Seq<char>) -> Seq<char>
    decreases s.len(),
{
    if s.len() > 0 && is_space(s.last()) {
        trim_back(s.drop_last())
    } else {
        s
    }
}

/// `s` without leading and trailing whitespace.
pub open spec fn spec_trim(s: Seq<char>) -> Seq<char> {
    trim_back(trim_front(s))
}

proof fn lemma_trim_front_skip(s: Seq<char>, i: int)
    requires
        0 <= i <= s.len(),
        forall|j: int| 0 <= j < i ==> is_space(#[trigger] s[j]),
        i == s.len() || !is_space(s[i]),
    ensures
        trim_front(s) == s.skip(i),
    decreases i,
{
    if i == 0 {
        assert(s.skip(0) =~= s);
    } else {
        assert(is_space(s[0]));
        let t = s.drop_first();
        assert forall|j: int| 0 <= j < i - 1 implies is_space(#[trigger] t[j]) by {
            assert(t[j] == s[j + 1]);
        }
        lemma_trim_front_skip(t, i - 1);
        assert(t.skip(i - 1) =~= s.skip(i));
    }
}

proof fn lemma_trim_back_take(s: Seq<char>, i: int)
    requires
        0 <= i <= s.len(),
        forall|j: int| i <= j < s.len() ==> is_space(#[trigger] s[j]),
        i == 0 || !is_space(s[i - 1]),
    ensures
        trim_back(s) == s.take(i),
    decreases s.len(),
{
    if i == s.len() {
        assert(s.take(i) =~= s);
    } else {
        assert(is_space(s.last()));
        let t = s.drop_last();
        lemma_trim_back_take(t, i);
        assert(t.take(i) =~= s.take(i));
    }
}

/// Whether `c` counts as trimmable whitespace.
fn is_space_char(c: char) -> (b: bool)
    ensures
        b == is_space(c),
{
    c == ' ' || c == '\t' || c == '\r' || c == '\n'
}

/// Strips the whitespace around a field.
pub fn trim(s: &str) -> (r: &str)
    ensures
        r@ == spec_trim(s@),
{
    let len = s.unicode_len();
    let mut start: usize = 0;
    while start < len && is_space_char(s.get_char(start))
        invariant
            start <= len,
            len == s@.len(),
            forall|j: int| 0 <= j < start ==> is_space(#[trigger] s@[j]),
        decreases len - start,
    {
        start += 1;
    }
    let mut end: usize = len;
    while end > start && is_space_char(s.get_char(end - 1))
        invariant
            start <= end <= len,
            len == s@.len(),
            forall|j: int| end <= j < len ==> is_space(#[trigger] s@[j]),
        decreases end,
    {
        end -= 1;
    }
    let r = s.substring_char(start, end);
    proof {
        lemma_trim_front_skip(s@, start as int);
        let t = s@.skip(start as int);
        assert forall|j: int| end - start <= j < t.len() implies is_space(#[trigger] t[j]) by {
            assert(t[j] == s@[j + start]);
        }
        if end > start {
            assert(t[end - start - 1] == s@[end - 1]);
        }
        lemma_trim_back_take(t, end - start);
        assert(t.take(end - start) =~= s@.subrange(start as int, end as int));
    }
    r
}

// ------------------------------------------------------------------
// Unsigned decimal integers
// ------------------------------------------------------------------
/// Whether `c` is a decimal digit.
pub open spec fn is_digit(c: char) -> bool {
    48 <= c as int && c as int <= 57
}

/// The value of a digit character.
pub open spec fn digit_val(c: char) -> int {
    c as int - 48
}

/// Whether every character of `s` is a decimal digit.
pub open spec fn all_digits(s: Seq<char>) -> bool {
    forall|i: int| 0 <= i < s.len() ==> is_digit(#[trigger] s[i])
}

/// The number written by a sequence of decimal digits, most significant
/// first.
pub open spec fn spec_digits_val(s: Seq<char>) -> int
    decreases s.len(),
{
    if s.len() == 0 {
        0
    } else {
        spec_digits_val(s.drop_last()) * 10 + digit_val(s.last())
    }
}

/// What a field holds as an unsigned integer no greater than `max`:
/// one or more digits, nothing else, and a value within the bound.
pub open spec fn spec_parse_uint(s: Seq<char>, max: int) -> Option<int> {
    if s.len() >= 1 && all_digits(s) && spec_digits_val(s) <= max {
        Some(spec_digits_val(s))
    } else {
        None
    }
}

pub proof fn lemma_digits_val_nonneg(s: Seq<char>)
    requires
        all_digits(s),
    ensures
        spec_digits_val(s) >= 0,
    decreases s.len(),
{
    if s.len() > 0 {
        let t = s.drop_last();
        assert forall|i: int| 0 <= i < t.len() implies is_digit(#[trigger] t[i]) by {
            assert(t[i] == s[i]);
        }
        lemma_digits_val_nonneg(t);
    }
}

/// A prefix of a digit string never exceeds the whole string in value.
pub proof fn lemma_digits_val_prefix(s: Seq<char>, i: int)
    requires
        all_digits(s),
        0 <= i <= s.len(),
    ensures
        spec_digits_val(s.take(i)) <= spec_digits_val(s),
    decreases s.len(),
{
    if i == s.len() {
        assert(s.take(i) =~= s);
    } else {
        let t = s.drop_last();
        assert forall|j: int| 0 <= j < t.len() implies is_digit(#[trigger] t[j]) by {
            assert(t[j] == s[j]);
        }
        lemma_digits_val_prefix(t, i);
        assert(t.take(i) =~= s.take(i));
        lemma_digits_val_nonneg(t);
    }
}

/// The number written by `n` digits is below `10^n`.
pub proof fn lemma_digits_val_upper(s: Seq<char>)
    requires
        all_digits(s),
    ensures
        spec_digits_val(s) < pow10(s.len()),
    decreases s.len(),
{
    if s.len() > 0 {
        let t = s.drop_last();
        assert forall|i: int| 0 <= i < t.len() implies is_digit(#[trigger] t[i]) by {
            assert(t[i] == s[i]);
        }
        lemma_digits_val_upper(t);
    }
}

/// Ten to the `n`th power.
pub open spec fn pow10(n: nat) -> int
    decreases n,
{
    if n == 0 {
        1
    } else {
        10 * pow10((n - 1) as nat)
    }
}

/// Reads a field as an unsigned integer of at most `max`: one or more
/// digits and nothing else, exactly as [`spec_parse_uint`] says.
pub fn parse_uint(s: &str, max: u64) -> (r: Option<u64>)
    ensures
        r matches Some(v) ==> spec_parse_uint(s@, max as int) == Some(v as int),
        r is None ==> spec_parse_uint(s@, max as int) is None,
{
    let len = s.unicode_len();
    if len == 0 {
        return None;
    }
    let mut acc: u128 = 0;
    let mut i: usize = 0;
    while i < len
        invariant
            i <= len,
            len == s@.len(),
            all_digits(s@.take(i as int)),
            acc == spec_digits_val(s@.take(i as int)),
            acc <= max as u128,
        decreases len - i,
    {
        let c = s.get_char(i);
        let cu = c as u32;
        if cu < 48 || cu > 57 {
            assert(!is_digit(s@[i as int]));
            return None;
        }
        let d = cu - 48;
        proof {
            assert(s@.take(i as int + 1).drop_last() =~= s@.take(i as int));
            assert(s@.take(i as int + 1).last() == s@[i as int]);
        }
        acc = acc * 10 + d as u128;
        i += 1;
        if acc > max as u128 {
            proof {
                if all_digits(s@) {
                    lemma_digits_val_prefix(s@, i as int);
                }
            }
            return None;
        }
    }
    proof {
        assert(s@.take(len as int) =~= s@);
    }
    Some(acc as u64)
}

// ------------------------------------------------------------------
// Fixed-point amounts
// ------------------------------------------------------------------
/// The index of the first `.` in `s`, or its length if there is none.
pub open spec fn dot_pos(s: Seq<char>) -> int
    decreases s.len(),
{
    if s.len() == 0 {
        0
    } else if s[0] == '.' {
        0
    } else {
        1 + dot_pos(s.drop_first())
    }
}

pub proof fn lemma_dot_pos(s: Seq<char>)
    ensures
        0 <= dot_pos(s) <= s.len(),
        forall|j: int| 0 <= j < dot_pos(s) ==> s[j] != '.',
        dot_pos(s) < s.len() ==> s[dot_pos(s)] == '.',
    decreases s.len(),
{
    if s.len() > 0 && s[0] != '.' {
        let t = s.drop_first();
        lemma_dot_pos(t);
        assert forall|j: int| 0 <= j < dot_pos(s) implies s[j] != '.' by {
            if j > 0 {
                assert(t[j - 1] == s[j]);
            }
        }
    }
}

/// What a non-empty field holds as a fixed-point amount: one or more
/// digits, optionally followed by `.` and one to four fractional digits,
/// with the resulting unit count within the per-transaction cap.
pub open spec fn spec_parse_amount(s: Seq<char>) -> Option<Amount> {
    let p = dot_pos(s);
    if p == s.len() {
        match spec_parse_uint(s, MAX_WHOLE as int) {
            Some(v) => Some(Amount { units: (v * UNITS_PER_WHOLE as int) as u64 }),
            None => None,
        }
    } else {
        let ip = s.take(p);
        let fp = s.skip(p + 1);
        if 1 <= p && 1 <= fp.len() <= 4 && all_digits(ip) && all_digits(fp) && spec_digits_val(ip)
            <= MAX_WHOLE as int {
            let units = spec_digits_val(ip) * (UNITS_PER_WHOLE as int) + spec_digits_val(fp)
                * pow10((4 - fp.len()) as nat);
            if units <= MAX_AMOUNT_UNITS as int {
                Some(Amount { units: units as u64 })
            } else {
                None
            }
        } else {
            None
        }
    }
}

/// Reads a non-empty field as a fixed-point amount, exactly as
/// [`spec_parse_amount`] says.
pub fn parse_amount(s: &str) -> (r: Option<Amount>)
    ensures
        r == spec_parse_amount(s@),
        r matches Some(a) ==> a.valid(),
{
    let len = s.unicode_len();
    let mut p: usize = 0;
    while p < len && s.get_char(p) != '.'
        invariant
            p <= len,
            len == s@.len(),
            forall|j: int| 0 <= j < p ==> s@[j] != '.',
        decreases len - p,
    {
        p += 1;
    }
    proof {
        lemma_dot_pos(s@);
        assert(p as int == dot_pos(s@));
    }
    if p == len {
        match parse_uint(s, MAX_WHOLE) {
            Some(v) => Some(Amount { units: v * UNITS_PER_WHOLE }),
            None => None,
        }
    } else {
        let flen = len - (p + 1);
        if p < 1 || flen < 1 || flen > 4 {
            return None;
        }
        let ip = s.substring_char(0, p);
        let fp = s.substring_char(p + 1, len);
        proof {
            assert(ip@ =~= s@.take(p as int));
            assert(fp@ =~= s@.skip(p as int + 1));
        }
        let iv = match parse_uint(ip, MAX_WHOLE) {
            Some(v) => v,
            None => {
                return None;
            },
        };
        let fv = match parse_uint(fp, 9999) {
            Some(v) => v,
            None => {
                proof {
                    if all_digits(fp@) {
                        lemma_digits_val_upper(fp@);
                        proof_pow10_small();
                    }
                }
                return None;
            },
        };
        let scale: u64 = if flen == 1 {
            1000
        } else if flen == 2 {
            100
        } else if flen == 3 {
            10
        } else {
            1
        };
        proof {
            proof_pow10_small();
            assert(scale as int == pow10((4 - fp@.len()) as nat));
            assert(fv * scale <= 9999 * 1000) by (nonlinear_arith)
                requires
                    fv <= 9999,
                    0 <= scale <= 1000,
            ;
        }
        let scaled = fv * scale;
        let total = iv * UNITS_PER_WHOLE + scaled;
        if total > MAX_AMOUNT_UNITS {
            None
        } else {
            Some(Amount { units: total })
        }
    }
}

/// The first five powers of ten, spelled out for the proofs above.
proof fn proof_pow10_small()
    ensures
        pow10(0) == 1,
        pow10(1) == 10,
        pow10(2) == 100,
        pow10(3) == 1000,
        pow10(4) == 10000,
{
    reveal_with_fuel(pow10, 5);
}

// ------------------------------------------------------------------
// Whole records
// ------------------------------------------------------------------
/// What a row of four fields parses to: the record, or the first error the
/// fields show, in field order.
pub open spec fn spec_parse_record(row: Seq<Seq<char>>) -> Result<Transaction, ParseError> {
    if row.len() != 4 {
        Err(ParseError::WrongFieldCount)
    } else {
        match spec_kind_of_name(spec_trim(row[0])) {
            None => Err(ParseError::UnknownKind),
            Some(kind) => match spec_parse_uint(spec_trim(row[1]), u16::MAX as int) {
                None => Err(ParseError::BadClient),
                Some(client) => match spec_parse_uint(spec_trim(row[2]), u32::MAX as int) {
                    None => Err(ParseError::BadTransactionId),
                    Some(txid) => {
                        let amt = spec_trim(row[3]);
                        if amt.len() == 0 {
                            if is_primary(kind) {
                                Err(ParseError::MissingAmount)
                            } else {
                                Ok(
                                    Transaction {
                                        kind,
                                        client_id: client as u16,
                                        transaction_id: txid as u32,
                                        amount: None,
                                    },
                                )
                            }
                        } else {
                            match spec_parse_amount(amt) {
                                None => Err(ParseError::BadAmount),
                                Some(a) => Ok(
                                    Transaction {
                                        kind,
                                        client_id: client as u16,
                                        transaction_id: txid as u32,
                                        amount: Some(a),
                                    },
                                ),
                            }
                        }
                    },
                },
            },
        }
    }
}

/// Parses one row of fields into a record, exactly as
/// [`spec_parse_record`] says; a parsed record is always valid.
pub fn parse_record(row: &Vec<String>) -> (r: Result<Transaction, ParseError>)
    ensures
        r == spec_parse_record(row.deep_view()),
        r matches Ok(tx) ==> tx.valid(),
{
    if row.len() != 4 {
        return Err(ParseError::WrongFieldCount);
    }
    let kind = match TransactionType::from_string(trim(row[0].as_str())) {
        Ok(k) => k,
        Err(_) => {
            return Err(ParseError::UnknownKind);
        },
    };
    let client: u16 = match parse_uint(trim(row[1].as_str()), 65535) {
        Some(v) => v as u16,
        None => {
            return Err(ParseError::BadClient);
        },
    };
    let txid: u32 = match parse_uint(trim(row[2].as_str()), 4294967295) {
        Some(v) => v as u32,
        None => {
            return Err(ParseError::BadTransactionId);
        },
    };
    let amt_field = trim(row[3].as_str());
    let amount: Option<Amount>;
    if amt_field.unicode_len() == 0 {
        let primary = match kind {
            TransactionType::Deposit => true,
            TransactionType::Withdrawal => true,
            _ => false,
        };
        if primary {
            return Err(ParseError::MissingAmount);
        }
        amount = None;
    } else {
        amount = match parse_amount(amt_field) {
            Some(a) => Some(a),
            None => {
                return Err(ParseError::BadAmount);
            },
        };
    }
    Ok(Transaction { kind, client_id: client, transaction_id: txid, amount })
}

// ------------------------------------------------------------------
// The reader of the outside csv crate
// ------------------------------------------------------------------
/// What a sequence of rows parses to: the records in order, or the first
/// error among them, in row order.
pub open spec fn spec_parse_rows(rows: Seq<Seq<Seq<char>>>) -> Result<Seq<Transaction>, ParseError>
    decreases rows.len(),
{
    if rows.len() == 0 {
        Ok(Seq::empty())
    } else {
        match spec_parse_record(rows[0]) {
            Err(e) => Err(e),
            Ok(tx) => match spec_parse_rows(rows.drop_first()) {
                Err(e) => Err(e),
                Ok(rest) => Ok(seq![tx] + rest),
            },
        }
    }
}

/// Parses a whole input text into its records: splits it into rows through
/// the csv reader, then reads every row, in order; the first row that fails
/// to parse fails the whole text. Every parsed record is valid.
pub fn parse_transactions(content: &str) -> (r: Result<Vec<Transaction>, ParseError>)
    ensures
        match csv_rows_of(content@) {
            None => r == Err::<Vec<Transaction>, ParseError>(ParseError::MalformedInput),
            Some(rows) => match r {
                Ok(txs) => spec_parse_rows(rows) == Ok::<Seq<Transaction>, ParseError>(txs@),
                Err(e) => spec_parse_rows(rows) == Err::<Seq<Transaction>, ParseError>(e),
            },
        },
        r matches Ok(txs) ==> forall|k: int| 0 <= k < txs@.len() ==> (#[trigger] txs@[k]).valid(),
{
    let rows = match csv_rows(content) {
        Some(rows) => rows,
        None => {
            return Err(ParseError::MalformedInput);
        },
    };
    let ghost all_rows = rows.deep_view();
    let mut out: Vec<Transaction> = Vec::new();
    proof {
        assert(all_rows.skip(0) =~= all_rows);
        if spec_parse_rows(all_rows) is Ok {
            assert(spec_parse_rows(all_rows)->Ok_0 =~= Seq::<Transaction>::empty() + spec_parse_rows(
                all_rows,
            )->Ok_0);
        }
    }
    let n = rows.len();
    let mut i: usize = 0;
    while i < n
        invariant
            i <= n,
            n == rows@.len(),
            all_rows == rows.deep_view(),
            csv_rows_of(content@) == Some(all_rows),
            out@.len() == i,
            forall|k: int| 0 <= k < out@.len() ==> (#[trigger] out@[k]).valid(),
            match spec_parse_rows(all_rows) {
                Ok(txs) => spec_parse_rows(all_rows.skip(i as int)) matches Ok(rest) && txs == out@
                    + rest,
                Err(e) => spec_parse_rows(all_rows.skip(i as int)) == Err::<
                    Seq<Transaction>,
                    ParseError,
                >(e),
            },
        decreases n - i,
    {
        let ghost rest = all_rows.skip(i as int);
        proof {
            assert(rest[0] == all_rows[i as int]);
            assert(rest.drop_first() =~= all_rows.skip(i as int + 1));
            assert(all_rows[i as int] == rows@[i as int].deep_view());
        }
        let tx = match parse_record(&rows[i]) {
            Ok(tx) => tx,
            Err(e) => {
                proof {
                    assert(spec_parse_rows(rest) == Err::<Seq<Transaction>, ParseError>(e));
                }
                return Err(e);
            },
        };
        out.push(tx);
        i += 1;
        proof {
            if spec_parse_rows(all_rows) is Ok {
                let txs = spec_parse_rows(all_rows)->Ok_0;
                let tail = spec_parse_rows(all_rows.skip(i as int))->Ok_0;
                assert(txs =~= out@ + tail);
            }
        }
    }
    proof {
        assert(all_rows.skip(n as int) =~= Seq::<Seq<Seq<char>>>::empty());
        if spec_parse_rows(all_rows) is Ok {
            assert(spec_parse_rows(all_rows)->Ok_0 =~= out@);
        }
    }
    Ok(out)
}

/// The rows of fields that the csv reader splits a text into, after the
/// header line, or nothing if the reader refuses the text. The result
/// depends on the text alone.
pub uninterp spec fn csv_rows_of(s: Seq<char>) -> Option<Seq<Seq<Seq<char>>>>;

/// Relies on csv::Reader::from_reader and Reader::records: with the default
/// configuration the reader skips the first (header) line, splits every
/// following line into its comma-separated fields (honouring quoting), and
/// reports an error for bytes that are not text or rows whose field count
/// differs from the header's.
#[verifier::external_body]
pub(crate) fn csv_rows(content: &str) -> (r: Option<Vec<Vec<String>>>)
    ensures
        r is Some <==> csv_rows_of(content@) is Some,
        r matches Some(rows) ==> Some(rows.deep_view()) == csv_rows_of(content@),
{
    let mut reader = csv::Reader::from_reader(content.as_bytes());
    let mut rows: Vec<Vec<String>> = Vec::new();
    for result in reader.records() {
        match result {
            Ok(record) => rows.push(record.iter().map(|field| field.to_string()).collect()),
            Err(_) => return None,
        }
    }
    Some(rows)
}

} // verus!
