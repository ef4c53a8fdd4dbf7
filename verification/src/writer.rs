use vstd::prelude::*;

use crate::client::ClientAccount;
use crate::currency::{format_icurrency, format_ucurrency, formatted_ifixed, formatted_ufixed};
use crate::ledger::{spec_accounts, ClientView, Ledger};

verus! {

/// The decimal digits of an unsigned number, most significant first.
pub open spec fn spec_udec(n: nat) -> Seq<u8>
    decreases n,
{
    if n < 10 {
        seq![(48 + n) as u8]
    } else {
        spec_udec(n / 10).push((48 + n % 10) as u8)
    }
}

fn format_udec(n: u16) -> (r: Vec<u8>)
    ensures
        r@ == spec_udec(n as nat),
    decreases n,
{
    if n < 10 {
        let mut v: Vec<u8> = Vec::new();
        v.push(48 + n as u8);
        proof {
            assert(v@ =~= spec_udec(n as nat));
        }
        v
    } else {
        let mut v = format_udec(n / 10);
        v.push(48 + (n % 10) as u8);
        proof {
            assert(v@ =~= spec_udec(n as nat));
        }
        v
    }
}

/// The bytes of the snapshot's header row: the five column names, comma
/// separated, ending in a line feed.
pub open spec fn spec_header_bytes() -> Seq<u8> {
    seq![
        99u8,
        108,
        105,
        101,
        110,
        116,
        44,
        97,
        118,
        97,
        105,
        108,
        97,
        98,
        108,
        101,
        44,
        104,
        101,
        108,
        100,
        44,
        116,
        111,
        116,
        97,
        108,
        44,
        108,
        111,
        99,
        107,
        101,
        100,
        10,
    ]
}

fn push_header(out: &mut Vec<u8>)
    ensures
        final(out)@ == old(out)@ + spec_header_bytes(),
{
    out.push(99);
    out.push(108);
    out.push(105);
    out.push(101);
    out.push(110);
    out.push(116);
    out.push(44);
    out.push(97);
    out.push(118);
    out.push(97);
    out.push(105);
    out.push(108);
    out.push(97);
    out.push(98);
    out.push(108);
    out.push(101);
    out.push(44);
    out.push(104);
    out.push(101);
    out.push(108);
    out.push(100);
    out.push(44);
    out.push(116);
    out.push(111);
    out.push(116);
    out.push(97);
    out.push(108);
    out.push(44);
    out.push(108);
    out.push(111);
    out.push(99);
    out.push(107);
    out.push(101);
    out.push(100);
    out.push(10);
    proof {
        assert(final(out)@ =~= old(out)@ + spec_header_bytes());
    }
}

/// The rendering of the locked flag.
pub open spec fn spec_bool_bytes(b: bool) -> Seq<u8> {
    if b {
        seq![116u8, 114, 117, 101]
    } else {
        seq![102u8, 97, 108, 115, 101]
    }
}

/// One snapshot row: client id, available, held, total (each amount with
/// exactly four fractional digits), and the locked flag, comma separated,
/// ending in a line feed.
pub open spec fn spec_row(a: ClientAccount) -> Seq<u8> {
    spec_udec(a.id as nat) + seq![44u8] + formatted_ifixed(a.available.bits) + seq![44u8]
        + formatted_ufixed(a.held.bits) + seq![44u8] + formatted_ifixed(
        (a.available@ + a.held@) as i64,
    ) + seq![44u8] + spec_bool_bytes(a.locked) + seq![10u8]
}

/// The rows of all accounts, in order.
pub open spec fn spec_rows(s: Seq<ClientAccount>) -> Seq<u8>
    decreases s.len(),
{
    if s.len() == 0 {
        Seq::empty()
    } else {
        spec_rows(s.drop_last()) + spec_row(s.last())
    }
}

/// The whole snapshot: the header row, then one row per account.
pub open spec fn spec_render(accounts: Seq<ClientAccount>) -> Seq<u8> {
    spec_header_bytes() + spec_rows(accounts)
}

/// Every account's total fits the signed currency range, so the snapshot
/// can be rendered.
pub open spec fn spec_totals_ok(s: Seq<ClientView>) -> bool {
    forall|i: int|
        0 <= i < s.len() ==> s[i].account.available@ + s[i].account.held@ <= i64::MAX
}

fn push_row(out: &mut Vec<u8>, a: ClientAccount)
    requires
        a.available@ + a.held@ <= i64::MAX,
    ensures
        final(out)@ == old(out)@ + spec_row(a),
{
    let mut id_bytes = format_udec(a.id);
    out.append(&mut id_bytes);
    out.push(44);
    let mut available_bytes = format_icurrency(a.available);
    out.append(&mut available_bytes);
    out.push(44);
    let mut held_bytes = format_ucurrency(a.held);
    out.append(&mut held_bytes);
    out.push(44);
    let total = a.available.checked_add_unsigned(a.held).unwrap();
    let mut total_bytes = format_icurrency(total);
    out.append(&mut total_bytes);
    out.push(44);
    if a.locked {
        out.push(116);
        out.push(114);
        out.push(117);
        out.push(101);
    } else {
        out.push(102);
        out.push(97);
        out.push(108);
        out.push(115);
        out.push(101);
    }
    out.push(10);
    proof {
        assert(final(out)@ =~= old(out)@ + spec_row(a));
    }
}

/// Render the final balance snapshot of every client, in creation order, or
/// nothing when some account's total has left the representable range —
/// a detectable, non-recoverable condition.
pub fn write_csv(ledger: &Ledger) -> (r: Option<Vec<u8>>)
    ensures
        match r {
            Some(out) => spec_totals_ok(ledger@) && out@ == spec_render(spec_accounts(ledger@)),
            None => !spec_totals_ok(ledger@),
        },
{
    let accounts = ledger.iter();
    let ghost accts = spec_accounts(ledger@);
    let mut out: Vec<u8> = Vec::new();
    push_header(&mut out);
    let mut i: usize = 0;
    while i < accounts.len()
        invariant
            accounts@ == accts,
            accts == spec_accounts(ledger@),
            accts.len() == ledger@.len(),
            i <= accts.len(),
            out@ == spec_header_bytes() + spec_rows(accts.take(i as int)),
            forall|j: int|
                0 <= j < i ==> ledger@[j].account.available@ + ledger@[j].account.held@
                    <= i64::MAX,
        decreases accts.len() - i,
    {
        let a = accounts[i];
        proof {
            assert(accts[i as int] == ledger@[i as int].account);
        }
        if a.available.checked_add_unsigned(a.held).is_none() {
            proof {
                assert(ledger@[i as int].account.available@ + ledger@[i as int].account.held@
                    > i64::MAX);
            }
            return None;
        }
        push_row(&mut out, a);
        proof {
            assert(accts.take(i + 1 as int).drop_last() =~= accts.take(i as int));
            assert(accts.take(i + 1 as int).last() == accts[i as int]);
        }
        i = i + 1;
    }
    proof {
        assert(accts.take(i as int) =~= accts);
    }
    Some(out)
}

} // verus!
