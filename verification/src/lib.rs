mod client;
mod currency;
mod laws;
mod ledger;
mod parser;
mod transaction;
mod writer;

pub use client::{ClientAccount, TransactionExecutionError};
pub use laws::{
    lemma_charged_back_terminal, lemma_client_isolation, lemma_deposit_dispute_charge_back,
    lemma_deposit_dispute_resolve_restores, lemma_deposit_ignores_lock, lemma_insufficient_funds,
    lemma_lock_is_permanent, lemma_locked_rejects_withdrawal, lemma_resolve_undisputed_fails,
    lemma_step_preserves_unique, lemma_unknown_deposit_fails, spec_target_client,
};
pub use currency::{ICurrency, UCurrency};
pub use ledger::{ClientView, DepositState, Ledger, spec_accounts, spec_client_index, spec_client_step, spec_has_client, spec_ledger_step, spec_unique_ids, lemma_client_index};
pub use parser::{extract_field_map, parse_transaction, spec_extract_field_map, spec_parse_transaction, FieldToIndexMap, Header, ParserError};
pub use writer::{write_csv, spec_bool_bytes, spec_header_bytes, spec_render, spec_row, spec_rows, spec_totals_ok, spec_udec};
pub use transaction::{
    ChargeBack, Deposit, Dispute, Resolve, Transaction, TransactionExecutor, Withdrawal,
};

use vstd::prelude::*;

verus! {

/// Why a whole run failed, as opposed to a single transaction being
/// skipped: the header row is unusable, the output could not be written by
/// the adapter around the library, or a final total left the representable
/// range.
#[derive(Debug, Clone, Copy, PartialEq, Eq, Structural)]
pub enum Error {
    /// The header row does not determine the four required columns.
    ParserError(ParserError),
    /// Reading or writing failed in the adapter around the library.
    IOError,
    /// Some account's total (available + held) has no representable value:
    /// a detectable, non-recoverable condition.
    TotalOverflow,
}

/// Each raw record turned into a transaction: an unreadable record is an
/// error element, a readable one parses by the column map.
pub open spec fn spec_parse_all(
    records: Seq<Option<Seq<Seq<u8>>>>,
    fm: FieldToIndexMap,
) -> Seq<Result<Transaction, ParserError>> {
    records.map_values(
        |rec: Option<Seq<Seq<u8>>>|
            match rec {
                Some(fields) => parser::spec_parse_transaction(fields, fm),
                None => Err(ParserError::CSVError),
            },
    )
}

/// The strict left fold of the replay policy: each element in stream order;
/// a parse error or a rejected transaction is skipped and the ledger model
/// is left as it was.
pub open spec fn spec_replay(
    s: Seq<ClientView>,
    txs: Seq<Result<Transaction, ParserError>>,
) -> Seq<ClientView>
    decreases txs.len(),
{
    if txs.len() == 0 {
        s
    } else {
        let s1 = match txs[0] {
            Ok(t) => match spec_ledger_step(s, t) {
                Ok(s2) => s2,
                Err(_) => s,
            },
            Err(_) => s,
        };
        spec_replay(s1, txs.drop_first())
    }
}

/// Apply the parsed stream element by element, in order, skipping every
/// error, as `spec_replay` says.
fn replay(records: &Vec<Option<Vec<Vec<u8>>>>, fm: FieldToIndexMap) -> (bank: Ledger)
    ensures
        bank.wf(),
        bank@ == spec_replay(Seq::<ClientView>::empty(), spec_parse_all(records.deep_view(), fm)),
{
    let ghost txs = spec_parse_all(records.deep_view(), fm);
    let mut bank: Ledger = Ledger::default();
    let mut i: usize = 0;
    proof {
        assert(txs.skip(0) =~= txs);
    }
    while i < records.len()
        invariant
            bank.wf(),
            txs == spec_parse_all(records.deep_view(), fm),
            txs.len() == records@.len(),
            i <= records@.len(),
            spec_replay(bank@, txs.skip(i as int)) == spec_replay(Seq::<ClientView>::empty(), txs),
        decreases records@.len() - i,
    {
        let parsed: Result<Transaction, ParserError> = match &records[i] {
            Some(rec) => parser::parse_transaction(rec, fm),
            None => Err(ParserError::CSVError),
        };
        proof {
            assert(records.deep_view()[i as int] == records@[i as int].deep_view());
            assert(txs[i as int] == parsed);
            assert(txs.skip(i as int)[0] == txs[i as int]);
            assert(txs.skip(i as int).drop_first() =~= txs.skip(i as int + 1));
        }
        match parsed {
            Ok(t) => {
                let _ = bank.execute(t);
            },
            Err(_) => {},
        }
        i = i + 1;
    }
    proof {
        assert(txs.skip(i as int) =~= Seq::<Result<Transaction, ParserError>>::empty());
    }
    bank
}

/// Replay a whole run: determine the column map from the header row (a
/// failure there is fatal), parse and apply each record in order (a failure
/// there skips that record), and render the final snapshot of every client
/// that appeared in an accepted transaction. An unreadable record arrives
/// as `None`.
pub fn execute(headers: &Vec<Vec<u8>>, records: &Vec<Option<Vec<Vec<u8>>>>) -> (r: Result<
    Vec<u8>,
    Error,
>)
    ensures
        match parser::spec_extract_field_map(headers.deep_view()) {
            Err(e) => r == Err::<Vec<u8>, Error>(Error::ParserError(e)),
            Ok(fm) => ({
                let fin = spec_replay(Seq::empty(), spec_parse_all(records.deep_view(), fm));
                if spec_totals_ok(fin) {
                    r matches Ok(out) && out@ == spec_render(spec_accounts(fin))
                } else {
                    r == Err::<Vec<u8>, Error>(Error::TotalOverflow)
                }
            }),
        },
{
    let fm = match parser::extract_field_map(headers) {
        Ok(fm) => fm,
        Err(e) => {
            return Err(Error::ParserError(e));
        },
    };
    let bank = replay(records, fm);
    match write_csv(&bank) {
        Some(out) => Ok(out),
        None => Err(Error::TotalOverflow),
    }
}

} // verus!
