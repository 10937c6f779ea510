//! The ledger dispatcher: the registry of all accounts.
//!
//! The bank owns one account per client, creates accounts lazily on first
//! reference, and routes each incoming record to the owning account in
//! arrival order. A rejected record is reported by the routing call and
//! dropped; it never halts the run.

use vstd::prelude::*;

use std::collections::HashMap;

use crate::account::apply_spec;
use crate::account::Account;
use crate::account::AccountView;
use crate::account::Rejection;
use crate::laws::lemma_apply_preserves_inv;
use crate::parse::csv_rows_of;
use crate::parse::parse_record;
use crate::parse::spec_parse_record;
use crate::parse::ParseError;
use crate::transaction::Transaction;

verus! {

broadcast use vstd::std_specs::hash::group_hash_axioms;

/// What routing one record does to the registry: the account of the
/// record's client — fresh and zero-balanced if it was never referenced —
/// has the record applied to it, and reports the outcome.
pub open spec fn route_spec(m: Map<u16, AccountView>, tx: Transaction) -> (Map<u16, AccountView>,
    Result<(), Rejection>) {
    let pre = if m.contains_key(tx.client_id) {
        m[tx.client_id]
    } else {
        AccountView::initial(tx.client_id)
    };
    let stepped = apply_spec(pre, tx);
    (m.insert(tx.client_id, stepped.0), stepped.1)
}

/// What processing a sequence of rows does to the registry: each row is
/// parsed and routed in order; the first row that fails to parse aborts the
/// run there, with the registry as the rows before it left it.
pub open spec fn run_spec(m: Map<u16, AccountView>, rows: Seq<Seq<Seq<char>>>) -> (Map<
    u16,
    AccountView,
>, Result<(), ParseError>)
    decreases rows.len(),
{
    if rows.len() == 0 {
        (m, Ok(()))
    } else {
        match spec_parse_record(rows[0]) {
            Err(e) => (m, Err(e)),
            Ok(tx) => run_spec(route_spec(m, tx).0, rows.drop_first()),
        }
    }
}

/// The registry of all accounts, keyed by client identifier.
pub struct Bank {
    accounts: HashMap<u16, Account>,
}

impl View for Bank {
    type V = Map<u16, AccountView>;

    closed spec fn view(&self) -> Map<u16, AccountView> {
        self.accounts@.map_values(|a: Account| a@)
    }
}

impl Bank {
    /// Every account in the registry satisfies the account invariant and
    /// sits under its own client identifier.
    pub open spec fn wf(self) -> bool {
        forall|c: u16| #[trigger]
            self@.contains_key(c) ==> self@[c].inv() && self@[c].client_id == c
    }

    /// Creates a bank with no accounts.
    pub fn new() -> (b: Bank)
        ensures
            b@ == Map::<u16, AccountView>::empty(),
            b.wf(),
    {
        let b = Bank { accounts: HashMap::new() };
        proof {
            assert(b@ =~= Map::<u16, AccountView>::empty());
        }
        b
    }

    /// Routes one record to the account of its client, creating the account
    /// on first reference, exactly as [`route_spec`] says.
    pub fn process_transaction(&mut self, tx: Transaction) -> (r: Result<(), Rejection>)
        requires
            old(self).wf(),
            tx.valid(),
        ensures
            final(self).wf(),
            final(self)@ == route_spec(old(self)@, tx).0,
            r == route_spec(old(self)@, tx).1,
    {
        let client = tx.client_id;
        let ghost pre_view = self@;
        let mut account = match self.accounts.remove(&client) {
            Some(a) => a,
            None => Account::new(client),
        };
        proof {
            if pre_view.contains_key(client) {
                assert(account@ == pre_view[client]);
            }
            lemma_apply_preserves_inv(account@, tx);
        }
        let r = account.process_transaction(tx);
        self.accounts.insert(client, account);
        proof {
            assert(self@ =~= route_spec(pre_view, tx).0);
        }
        r
    }

    /// Processes a whole input text: splits it into rows through the csv
    /// reader, then parses and routes every row in arrival order, exactly
    /// as [`run_spec`] says. A row that cannot be parsed is fatal: the run
    /// stops there and reports the error; rejected records are dropped and
    /// the run continues.
    pub fn process_transactions(&mut self, content: &str) -> (r: Result<(), ParseError>)
        requires
            old(self).wf(),
        ensures
            final(self).wf(),
            match csv_rows_of(content@) {
                None => final(self)@ == old(self)@ && r == Err::<(), ParseError>(
                    ParseError::MalformedInput,
                ),
                Some(rows) => final(self)@ == run_spec(old(self)@, rows).0 && r == run_spec(
                    old(self)@,
                    rows,
                ).1,
            },
    {
        let rows = match crate::parse::csv_rows(content) {
            Some(rows) => rows,
            None => {
                return Err(ParseError::MalformedInput);
            },
        };
        let ghost all_rows = rows.deep_view();
        let ghost start_view = self@;
        proof {
            assert(all_rows.skip(0) =~= all_rows);
        }
        let n = rows.len();
        let mut i: usize = 0;
        while i < n
            invariant
                i <= n,
                n == rows@.len(),
                all_rows == rows.deep_view(),
                csv_rows_of(content@) == Some(all_rows),
                start_view == old(self)@,
                self.wf(),
                run_spec(start_view, all_rows) == run_spec(self@, all_rows.skip(i as int)),
            decreases n - i,
        {
            let ghost rest = all_rows.skip(i as int);
            proof {
                assert(rest.len() == n - i);
                assert(rest[0] == all_rows[i as int]);
                assert(rest.drop_first() =~= all_rows.skip(i as int + 1));
                assert(all_rows[i as int] == rows@[i as int].deep_view());
            }
            let tx = match parse_record(&rows[i]) {
                Ok(tx) => tx,
                Err(e) => {
                    proof {
                        assert(run_spec(self@, rest) == (self@, Err::<(), ParseError>(e)));
                    }
                    return Err(e);
                },
            };
            let _ = self.process_transaction(tx);
            i += 1;
        }
        proof {
            assert(all_rows.skip(n as int) =~= Seq::<Seq<Seq<char>>>::empty());
        }
        Ok(())
    }

    /// The account of `client`, if one was ever created.
    pub fn get_account(&self, client: u16) -> (r: Option<&Account>)
        ensures
            match r {
                Some(a) => self@.contains_key(client) && a@ == self@[client],
                None => !self@.contains_key(client),
            },
    {
        self.accounts.get(&client)
    }

    /// How many accounts the registry holds.
    pub fn len(&self) -> (n: usize)
        ensures
            n == self@.dom().len(),
    {
        proof {
            assert(self@.dom() =~= self.accounts@.dom());
        }
        self.accounts.len()
    }
}

} // verus!
