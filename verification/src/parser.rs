use vstd::prelude::*;

use crate::currency::{parse_ucurrency, parsed_ucurrency, UCurrency};
use crate::transaction::{ChargeBack, Deposit, Dispute, Resolve, Transaction, Withdrawal};

verus! {

/// The four columns a transaction table must carry.
#[derive(Debug, Clone, Copy, PartialEq, Eq, Structural)]
pub enum Header {
    Type,
    Tx,
    Client,
    Amount,
}

/// Why a row (or the header row) could not be turned into a transaction.
#[derive(Debug, Clone, Copy, PartialEq, Eq, Structural)]
pub enum ParserError {
    /// A required column is missing, from the header row or from a record.
    MissingHeader(Header),
    /// The type field names no known transaction kind.
    InvalidTypeField,
    /// The row could not be read from the table at all.
    CSVError,
    /// The tx or client field is not a decimal number in range.
    IntParseError,
    /// The amount field is not a decimal currency amount in range.
    CurrencyParseError,
    /// A field holds a non-ASCII byte; the payload is the index of the
    /// first offending byte within the field.
    InvalidAscii(usize),
}

/// Where each required column stands in a record.
#[derive(Debug, Clone, Copy, PartialEq, Eq, Structural)]
pub struct FieldToIndexMap {
    pub ty: u8,
    pub tx: u8,
    pub client: u8,
    pub amount: u8,
}

/// The ASCII whitespace bytes that field trimming removes: space, tab,
/// line feed, vertical tab, form feed, carriage return.
pub open spec fn spec_is_space(b: u8) -> bool {
    b == 32 || b == 9 || b == 10 || b == 11 || b == 12 || b == 13
}

fn is_space_byte(b: u8) -> (r: bool)
    ensures
        r == spec_is_space(b),
{
    b == 32 || b == 9 || b == 10 || b == 11 || b == 12 || b == 13
}

pub open spec fn spec_trim_start(s: Seq<u8>) -> Seq<u8>
    decreases s.len(),
{
    if s.len() > 0 && spec_is_space(s[0]) {
        spec_trim_start(s.drop_first())
    } else {
        s
    }
}

pub open spec fn spec_trim_end(s: Seq<u8>) -> Seq<u8>
    decreases s.len(),
{
    if s.len() > 0 && spec_is_space(s.last()) {
        spec_trim_end(s.drop_last())
    } else {
        s
    }
}

/// A field with its leading and trailing ASCII whitespace removed.
pub open spec fn spec_trim(s: Seq<u8>) -> Seq<u8> {
    spec_trim_end(spec_trim_start(s))
}

fn trim_bytes(s: &Vec<u8>) -> (r: Vec<u8>)
    ensures
        r@ == spec_trim(s@),
{
    let mut start: usize = 0;
    proof {
        assert(s@.skip(0) =~= s@);
    }
    while start < s.len() && is_space_byte(s[start])
        invariant
            start <= s@.len(),
            spec_trim_start(s@) == spec_trim_start(s@.skip(start as int)),
        decreases s@.len() - start,
    {
        proof {
            assert(s@.skip(start as int).drop_first() =~= s@.skip(start as int + 1));
        }
        start = start + 1;
    }
    proof {
        assert(spec_trim_start(s@) == s@.skip(start as int));
        assert(s@.skip(start as int) =~= s@.subrange(start as int, s@.len() as int));
    }
    let mut end: usize = s.len();
    while end > start && is_space_byte(s[end - 1])
        invariant
            start <= end <= s@.len(),
            spec_trim_end(s@.skip(start as int)) == spec_trim_end(
                s@.subrange(start as int, end as int),
            ),
        decreases end,
    {
        proof {
            assert(s@.subrange(start as int, end as int).drop_last() =~= s@.subrange(
                start as int,
                end as int - 1,
            ));
        }
        end = end - 1;
    }
    let mut r: Vec<u8> = Vec::new();
    let mut i: usize = start;
    while i < end
        invariant
            start <= i <= end <= s@.len(),
            r@ =~= s@.subrange(start as int, i as int),
        decreases end - i,
    {
        r.push(s[i]);
        proof {
            assert(r@ =~= s@.subrange(start as int, i + 1 as int));
        }
        i = i + 1;
    }
    r
}

/// Whether every byte of the field is ASCII.
pub open spec fn spec_is_ascii(s: Seq<u8>) -> bool {
    forall|i: int| 0 <= i < s.len() ==> s[i] < 128
}

/// The index of the first non-ASCII byte, for a field that has one.
pub open spec fn spec_first_non_ascii(s: Seq<u8>) -> int {
    choose|i: int|
        0 <= i < s.len() && s[i] >= 128 && (forall|j: int| 0 <= j < i ==> s[j] < 128)
}

fn check_ascii(s: &Vec<u8>) -> (r: Result<(), usize>)
    ensures
        match r {
            Ok(()) => spec_is_ascii(s@),
            Err(i) => !spec_is_ascii(s@) && i == spec_first_non_ascii(s@),
        },
{
    let mut i: usize = 0;
    while i < s.len()
        invariant
            i <= s@.len(),
            forall|j: int| 0 <= j < i ==> s@[j] < 128,
        decreases s@.len() - i,
    {
        if s[i] >= 128 {
            proof {
                let k = spec_first_non_ascii(s@);
                assert(0 <= k < s@.len() && s@[k] >= 128 && (forall|j: int|
                    0 <= j < k ==> s@[j] < 128));
                if k < i {
                    assert(s@[k] < 128);
                }
                if i < k {
                    assert(s@[i as int] < 128);
                }
            }
            return Err(i);
        }
        i = i + 1;
    }
    Ok(())
}

pub open spec fn spec_is_digit(b: u8) -> bool {
    48 <= b <= 57
}

/// The value of a run of decimal digit bytes, most significant first.
pub open spec fn spec_digits_value(s: Seq<u8>) -> int
    decreases s.len(),
{
    if s.len() == 0 {
        0
    } else {
        spec_digits_value(s.drop_last()) * 10 + (s.last() - 48)
    }
}

pub open spec fn spec_all_digits(s: Seq<u8>) -> bool {
    s.len() > 0 && forall|i: int| 0 <= i < s.len() ==> spec_is_digit(s[i])
}

/// The unbounded value of an unsigned decimal field: an optional leading
/// `+`, then one or more digits and nothing else.
pub open spec fn spec_parse_uint(s: Seq<u8>) -> Option<int> {
    let digits = if s.len() > 0 && s[0] == 43 {
        s.drop_first()
    } else {
        s
    };
    if spec_all_digits(digits) {
        Some(spec_digits_value(digits))
    } else {
        None
    }
}

/// A transaction id field: an unsigned decimal that fits 32 bits.
pub open spec fn spec_parse_u32(s: Seq<u8>) -> Option<u32> {
    match spec_parse_uint(s) {
        Some(v) => if v <= u32::MAX {
            Some(v as u32)
        } else {
            None
        },
        None => None,
    }
}

/// A client id field: an unsigned decimal that fits 16 bits.
pub open spec fn spec_parse_u16(s: Seq<u8>) -> Option<u16> {
    match spec_parse_uint(s) {
        Some(v) => if v <= u16::MAX {
            Some(v as u16)
        } else {
            None
        },
        None => None,
    }
}

proof fn lemma_digits_value_nonneg(s: Seq<u8>)
    requires
        forall|i: int| 0 <= i < s.len() ==> spec_is_digit(s[i]),
    ensures
        spec_digits_value(s) >= 0,
    decreases s.len(),
{
    if s.len() > 0 {
        lemma_digits_value_nonneg(s.drop_last());
    }
}

/// A prefix of a digit run is worth no more than the whole run.
proof fn lemma_digits_prefix_le(s: Seq<u8>, k: int)
    requires
        forall|i: int| 0 <= i < s.len() ==> spec_is_digit(s[i]),
        0 <= k <= s.len(),
    ensures
        spec_digits_value(s.take(k)) <= spec_digits_value(s),
    decreases s.len(),
{
    if k == s.len() {
        assert(s.take(k) =~= s);
    } else {
        assert(s.take(k) =~= s.drop_last().take(k));
        lemma_digits_prefix_le(s.drop_last(), k);
        lemma_digits_value_nonneg(s.drop_last());
    }
}

fn parse_u32_bytes(s: &Vec<u8>) -> (r: Option<u32>)
    ensures
        r == spec_parse_u32(s@),
{
    let ghost digits = if s@.len() > 0 && s@[0] == 43 {
        s@.drop_first()
    } else {
        s@
    };
    let start: usize = if s.len() > 0 && s[0] == 43 {
        1
    } else {
        0
    };
    proof {
        assert(digits =~= s@.skip(start as int));
    }
    if start == s.len() {
        proof {
            assert(digits.len() == 0);
            assert(!spec_all_digits(digits));
        }
        return None;
    }
    let mut value: u32 = 0;
    let mut i: usize = start;
    while i < s.len()
        invariant
            start <= i <= s@.len(),
            digits == s@.skip(start as int),
            digits == (if s@.len() > 0 && s@[0] == 43 {
                s@.drop_first()
            } else {
                s@
            }),
            value == spec_digits_value(digits.take(i - start)),
            forall|j: int| 0 <= j < i - start ==> spec_is_digit(digits[j]),
        decreases s@.len() - i,
    {
        let b = s[i];
        if b < 48 || b > 57 {
            proof {
                assert(0 <= i - start < digits.len() && !spec_is_digit(digits[i - start]));
                assert(!spec_all_digits(digits));
            }
            return None;
        }
        proof {
            assert(digits.take(i - start + 1).drop_last() =~= digits.take(i - start));
            assert(digits.take(i - start + 1).last() == digits[i - start]);
        }
        let step = match value.checked_mul(10) {
            Some(v10) => v10.checked_add((b - 48) as u32),
            None => None,
        };
        match step {
            Some(v) => {
                value = v;
            },
            None => {
                // The digits read so far already exceed the 32-bit range, so
                // the whole run does too, whatever follows.
                proof {
                    if spec_all_digits(digits) {
                        lemma_digits_prefix_le(digits, i - start + 1);
                        lemma_digits_value_nonneg(digits.take((i - start) as int));
                        assert(spec_digits_value(digits.take(i - start + 1)) > u32::MAX);
                        assert(spec_digits_value(digits) > u32::MAX);
                    }
                    assert(spec_parse_u32(s@) is None);
                }
                return None;
            },
        }
        i = i + 1;
    }
    proof {
        assert(digits.take((i - start) as int) =~= digits);
    }
    Some(value)
}

fn parse_u16_bytes(s: &Vec<u8>) -> (r: Option<u16>)
    ensures
        r == spec_parse_u16(s@),
{
    proof {
        let digits = if s@.len() > 0 && s@[0] == 43 {
            s@.drop_first()
        } else {
            s@
        };
        if spec_all_digits(digits) {
            lemma_digits_value_nonneg(digits);
        }
    }
    match parse_u32_bytes(s) {
        Some(v) => if v <= 65535 {
            Some(v as u16)
        } else {
            None
        },
        None => None,
    }
}

fn bytes_eq(a: &Vec<u8>, b: &Vec<u8>) -> (r: bool)
    ensures
        r == (a@ == b@),
{
    if a.len() != b.len() {
        return false;
    }
    let mut i: usize = 0;
    while i < a.len()
        invariant
            a@.len() == b@.len(),
            i <= a@.len(),
            forall|j: int| 0 <= j < i ==> a@[j] == b@[j],
        decreases a@.len() - i,
    {
        if a[i] != b[i] {
            return false;
        }
        i = i + 1;
    }
    proof {
        assert(a@ =~= b@);
    }
    true
}

/// The bytes of the column name `type`.
pub open spec fn spec_kw_type() -> Seq<u8> {
    seq![116u8, 121, 112, 101]
}

/// The bytes of the column name `tx`.
pub open spec fn spec_kw_tx() -> Seq<u8> {
    seq![116u8, 120]
}

/// The bytes of the column name `client`.
pub open spec fn spec_kw_client() -> Seq<u8> {
    seq![99u8, 108, 105, 101, 110, 116]
}

/// The bytes of the column name `amount`.
pub open spec fn spec_kw_amount() -> Seq<u8> {
    seq![97u8, 109, 111, 117, 110, 116]
}

/// The bytes of the type field value `deposit`.
pub open spec fn spec_kw_deposit() -> Seq<u8> {
    seq![100u8, 101, 112, 111, 115, 105, 116]
}

/// The bytes of the type field value `withdrawal`.
pub open spec fn spec_kw_withdrawal() -> Seq<u8> {
    seq![119u8, 105, 116, 104, 100, 114, 97, 119, 97, 108]
}

/// The bytes of the type field value `dispute`.
pub open spec fn spec_kw_dispute() -> Seq<u8> {
    seq![100u8, 105, 115, 112, 117, 116, 101]
}

/// The bytes of the type field value `chargeback`.
pub open spec fn spec_kw_chargeback() -> Seq<u8> {
    seq![99u8, 104, 97, 114, 103, 101, 98, 97, 99, 107]
}

/// The bytes of the type field value `resolve`.
pub open spec fn spec_kw_resolve() -> Seq<u8> {
    seq![114u8, 101, 115, 111, 108, 118, 101]
}

fn kw_type() -> (r: Vec<u8>)
    ensures
        r@ == spec_kw_type(),
{
    let mut r: Vec<u8> = Vec::new();
    r.push(116);
    r.push(121);
    r.push(112);
    r.push(101);
    proof {
        assert(r@ =~= spec_kw_type());
    }
    r
}

fn kw_tx() -> (r: Vec<u8>)
    ensures
        r@ == spec_kw_tx(),
{
    let mut r: Vec<u8> = Vec::new();
    r.push(116);
    r.push(120);
    proof {
        assert(r@ =~= spec_kw_tx());
    }
    r
}

fn kw_client() -> (r: Vec<u8>)
    ensures
        r@ == spec_kw_client(),
{
    let mut r: Vec<u8> = Vec::new();
    r.push(99);
    r.push(108);
    r.push(105);
    r.push(101);
    r.push(110);
    r.push(116);
    proof {
        assert(r@ =~= spec_kw_client());
    }
    r
}

fn kw_amount() -> (r: Vec<u8>)
    ensures
        r@ == spec_kw_amount(),
{
    let mut r: Vec<u8> = Vec::new();
    r.push(97);
    r.push(109);
    r.push(111);
    r.push(117);
    r.push(110);
    r.push(116);
    proof {
        assert(r@ =~= spec_kw_amount());
    }
    r
}

fn kw_deposit() -> (r: Vec<u8>)
    ensures
        r@ == spec_kw_deposit(),
{
    let mut r: Vec<u8> = Vec::new();
    r.push(100);
    r.push(101);
    r.push(112);
    r.push(111);
    r.push(115);
    r.push(105);
    r.push(116);
    proof {
        assert(r@ =~= spec_kw_deposit());
    }
    r
}

fn kw_withdrawal() -> (r: Vec<u8>)
    ensures
        r@ == spec_kw_withdrawal(),
{
    let mut r: Vec<u8> = Vec::new();
    r.push(119);
    r.push(105);
    r.push(116);
    r.push(104);
    r.push(100);
    r.push(114);
    r.push(97);
    r.push(119);
    r.push(97);
    r.push(108);
    proof {
        assert(r@ =~= spec_kw_withdrawal());
    }
    r
}

fn kw_dispute() -> (r: Vec<u8>)
    ensures
        r@ == spec_kw_dispute(),
{
    let mut r: Vec<u8> = Vec::new();
    r.push(100);
    r.push(105);
    r.push(115);
    r.push(112);
    r.push(117);
    r.push(116);
    r.push(101);
    proof {
        assert(r@ =~= spec_kw_dispute());
    }
    r
}

fn kw_chargeback() -> (r: Vec<u8>)
    ensures
        r@ == spec_kw_chargeback(),
{
    let mut r: Vec<u8> = Vec::new();
    r.push(99);
    r.push(104);
    r.push(97);
    r.push(114);
    r.push(103);
    r.push(101);
    r.push(98);
    r.push(97);
    r.push(99);
    r.push(107);
    proof {
        assert(r@ =~= spec_kw_chargeback());
    }
    r
}

fn kw_resolve() -> (r: Vec<u8>)
    ensures
        r@ == spec_kw_resolve(),
{
    let mut r: Vec<u8> = Vec::new();
    r.push(114);
    r.push(101);
    r.push(115);
    r.push(111);
    r.push(108);
    r.push(118);
    r.push(101);
    proof {
        assert(r@ =~= spec_kw_resolve());
    }
    r
}

/// How many header columns are considered: the table format indexes columns
/// with one byte, so headers past the 255th are ignored.
pub open spec fn spec_header_limit(hs: Seq<Seq<u8>>) -> int {
    if hs.len() < 255 {
        hs.len() as int
    } else {
        255
    }
}

pub open spec fn spec_has_header(hs: Seq<Seq<u8>>, name: Seq<u8>) -> bool {
    exists|i: int| 0 <= i < spec_header_limit(hs) && hs[i] == name
}

/// The column index a name is mapped to: the last considered occurrence.
pub open spec fn spec_header_index(hs: Seq<Seq<u8>>, name: Seq<u8>) -> int {
    choose|i: int|
        0 <= i < spec_header_limit(hs) && hs[i] == name && (forall|j: int|
            i < j < spec_header_limit(hs) ==> hs[j] != name)
}

proof fn lemma_header_index_unique(hs: Seq<Seq<u8>>, name: Seq<u8>, k: int)
    requires
        0 <= k < spec_header_limit(hs),
        hs[k] == name,
        forall|j: int| k < j < spec_header_limit(hs) ==> hs[j] != name,
    ensures
        spec_has_header(hs, name),
        spec_header_index(hs, name) == k,
{
    assert(spec_has_header(hs, name));
    let c = spec_header_index(hs, name);
    assert(0 <= c < spec_header_limit(hs) && hs[c] == name && (forall|j: int|
        c < j < spec_header_limit(hs) ==> hs[j] != name));
    if c < k {
        assert(hs[k] != name);
    }
    if k < c {
        assert(hs[c] != name);
    }
}

/// What the header row determines: the column index of each required name
/// (the last occurrence of each, among the first 255 columns), or the first
/// required name that is missing, checked in the order type, tx, client,
/// amount.
pub open spec fn spec_extract_field_map(hs: Seq<Seq<u8>>) -> Result<
    FieldToIndexMap,
    ParserError,
> {
    if !spec_has_header(hs, spec_kw_type()) {
        Err(ParserError::MissingHeader(Header::Type))
    } else if !spec_has_header(hs, spec_kw_tx()) {
        Err(ParserError::MissingHeader(Header::Tx))
    } else if !spec_has_header(hs, spec_kw_client()) {
        Err(ParserError::MissingHeader(Header::Client))
    } else if !spec_has_header(hs, spec_kw_amount()) {
        Err(ParserError::MissingHeader(Header::Amount))
    } else {
        Ok(
            FieldToIndexMap {
                ty: spec_header_index(hs, spec_kw_type()) as u8,
                tx: spec_header_index(hs, spec_kw_tx()) as u8,
                client: spec_header_index(hs, spec_kw_client()) as u8,
                amount: spec_header_index(hs, spec_kw_amount()) as u8,
            },
        )
    }
}

/// Build the column map of a header row, as `spec_extract_field_map` says.
pub fn extract_field_map(headers: &Vec<Vec<u8>>) -> (r: Result<FieldToIndexMap, ParserError>)
    ensures
        r == spec_extract_field_map(headers.deep_view()),
{
    let ghost hs = headers.deep_view();
    proof {
        assert(hs.len() == headers@.len());
    }
    let name_ty = kw_type();
    let name_tx = kw_tx();
    let name_client = kw_client();
    let name_amount = kw_amount();
    let limit: usize = if headers.len() < 255 {
        headers.len()
    } else {
        255
    };
    let mut ty: Option<u8> = None;
    let mut tx: Option<u8> = None;
    let mut client: Option<u8> = None;
    let mut amount: Option<u8> = None;
    let mut i: usize = 0;
    while i < limit
        invariant
            hs == headers.deep_view(),
            hs.len() == headers@.len(),
            limit == spec_header_limit(hs),
            i <= limit,
            name_ty@ == spec_kw_type(),
            name_tx@ == spec_kw_tx(),
            name_client@ == spec_kw_client(),
            name_amount@ == spec_kw_amount(),
            match ty {
                Some(k) => 0 <= k < i && hs[k as int] == spec_kw_type() && (forall|j: int|
                    k < j < i ==> hs[j] != spec_kw_type()),
                None => forall|j: int| 0 <= j < i ==> hs[j] != spec_kw_type(),
            },
            match tx {
                Some(k) => 0 <= k < i && hs[k as int] == spec_kw_tx() && (forall|j: int|
                    k < j < i ==> hs[j] != spec_kw_tx()),
                None => forall|j: int| 0 <= j < i ==> hs[j] != spec_kw_tx(),
            },
            match client {
                Some(k) => 0 <= k < i && hs[k as int] == spec_kw_client() && (forall|j: int|
                    k < j < i ==> hs[j] != spec_kw_client()),
                None => forall|j: int| 0 <= j < i ==> hs[j] != spec_kw_client(),
            },
            match amount {
                Some(k) => 0 <= k < i && hs[k as int] == spec_kw_amount() && (forall|j: int|
                    k < j < i ==> hs[j] != spec_kw_amount()),
                None => forall|j: int| 0 <= j < i ==> hs[j] != spec_kw_amount(),
            },
        decreases limit - i,
    {
        proof {
            assert(hs[i as int] =~= headers@[i as int]@);
        }
        if bytes_eq(&headers[i], &name_ty) {
            ty = Some(i as u8);
        }
        if bytes_eq(&headers[i], &name_tx) {
            tx = Some(i as u8);
        }
        if bytes_eq(&headers[i], &name_client) {
            client = Some(i as u8);
        }
        if bytes_eq(&headers[i], &name_amount) {
            amount = Some(i as u8);
        }
        i = i + 1;
    }
    let ty_idx = match ty {
        Some(k) => k,
        None => {
            return Err(ParserError::MissingHeader(Header::Type));
        },
    };
    let tx_idx = match tx {
        Some(k) => k,
        None => {
            return Err(ParserError::MissingHeader(Header::Tx));
        },
    };
    let client_idx = match client {
        Some(k) => k,
        None => {
            return Err(ParserError::MissingHeader(Header::Client));
        },
    };
    let amount_idx = match amount {
        Some(k) => k,
        None => {
            return Err(ParserError::MissingHeader(Header::Amount));
        },
    };
    proof {
        lemma_header_index_unique(hs, spec_kw_type(), ty_idx as int);
        lemma_header_index_unique(hs, spec_kw_tx(), tx_idx as int);
        lemma_header_index_unique(hs, spec_kw_client(), client_idx as int);
        lemma_header_index_unique(hs, spec_kw_amount(), amount_idx as int);
    }
    Ok(FieldToIndexMap { ty: ty_idx, tx: tx_idx, client: client_idx, amount: amount_idx })
}

/// What an amount field parses to: present, ASCII, and (after trimming) a
/// decimal currency amount in the representable range.
pub open spec fn spec_parse_amount_field(fields: Seq<Seq<u8>>, idx: u8) -> Result<
    UCurrency,
    ParserError,
> {
    if idx >= fields.len() {
        Err(ParserError::MissingHeader(Header::Amount))
    } else if !spec_is_ascii(fields[idx as int]) {
        Err(ParserError::InvalidAscii(spec_first_non_ascii(fields[idx as int]) as usize))
    } else {
        match parsed_ucurrency(spec_trim(fields[idx as int])) {
            Some(bits) => Ok(UCurrency { bits }),
            None => Err(ParserError::CurrencyParseError),
        }
    }
}

fn parse_amount_field(record: &Vec<Vec<u8>>, idx: u8) -> (r: Result<UCurrency, ParserError>)
    ensures
        r == spec_parse_amount_field(record.deep_view(), idx),
{
    let ghost fields = record.deep_view();
    if idx as usize >= record.len() {
        return Err(ParserError::MissingHeader(Header::Amount));
    }
    let field = &record[idx as usize];
    proof {
        assert(fields[idx as int] =~= field@);
    }
    if let Err(i) = check_ascii(field) {
        return Err(ParserError::InvalidAscii(i));
    }
    let trimmed = trim_bytes(field);
    match parse_ucurrency(&trimmed) {
        Some(amount) => Ok(amount),
        None => Err(ParserError::CurrencyParseError),
    }
}

/// What one record parses to, given the column map: the tx field (present,
/// ASCII, a 32-bit decimal), then the client field (present, ASCII, a
/// 16-bit decimal), then the type field (present, ASCII), then — for a
/// deposit or withdrawal — the amount field; each check in that order, the
/// first failure winning.
pub open spec fn spec_parse_transaction(fields: Seq<Seq<u8>>, fm: FieldToIndexMap) -> Result<
    Transaction,
    ParserError,
> {
    if fm.tx >= fields.len() {
        Err(ParserError::MissingHeader(Header::Tx))
    } else if !spec_is_ascii(fields[fm.tx as int]) {
        Err(ParserError::InvalidAscii(spec_first_non_ascii(fields[fm.tx as int]) as usize))
    } else {
        match spec_parse_u32(spec_trim(fields[fm.tx as int])) {
            None => Err(ParserError::IntParseError),
            Some(tx) => {
                if fm.client >= fields.len() {
                    Err(ParserError::MissingHeader(Header::Client))
                } else if !spec_is_ascii(fields[fm.client as int]) {
                    Err(
                        ParserError::InvalidAscii(
                            spec_first_non_ascii(fields[fm.client as int]) as usize,
                        ),
                    )
                } else {
                    match spec_parse_u16(spec_trim(fields[fm.client as int])) {
                        None => Err(ParserError::IntParseError),
                        Some(client) => {
                            if fm.ty >= fields.len() {
                                Err(ParserError::MissingHeader(Header::Type))
                            } else if !spec_is_ascii(fields[fm.ty as int]) {
                                Err(
                                    ParserError::InvalidAscii(
                                        spec_first_non_ascii(fields[fm.ty as int]) as usize,
                                    ),
                                )
                            } else {
                                let ty = spec_trim(fields[fm.ty as int]);
                                if ty == spec_kw_withdrawal() {
                                    match spec_parse_amount_field(fields, fm.amount) {
                                        Ok(amount) => Ok(
                                            Transaction::Withdrawal(
                                                Withdrawal { tx, client, amount },
                                            ),
                                        ),
                                        Err(e) => Err(e),
                                    }
                                } else if ty == spec_kw_deposit() {
                                    match spec_parse_amount_field(fields, fm.amount) {
                                        Ok(amount) => Ok(
                                            Transaction::Deposit(Deposit { tx, client, amount }),
                                        ),
                                        Err(e) => Err(e),
                                    }
                                } else if ty == spec_kw_dispute() {
                                    Ok(Transaction::Dispute(Dispute { tx, client }))
                                } else if ty == spec_kw_chargeback() {
                                    Ok(Transaction::ChargeBack(ChargeBack { tx, client }))
                                } else if ty == spec_kw_resolve() {
                                    Ok(Transaction::Resolve(Resolve { tx, client }))
                                } else {
                                    Err(ParserError::InvalidTypeField)
                                }
                            }
                        },
                    }
                }
            },
        }
    }
}

/// Turn one raw record into a typed transaction, as
/// `spec_parse_transaction` says.
pub fn parse_transaction(record: &Vec<Vec<u8>>, field_map: FieldToIndexMap) -> (r: Result<
    Transaction,
    ParserError,
>)
    ensures
        r == spec_parse_transaction(record.deep_view(), field_map),
{
    let ghost fields = record.deep_view();
    proof {
        assert(fields.len() == record@.len());
    }
    if field_map.tx as usize >= record.len() {
        return Err(ParserError::MissingHeader(Header::Tx));
    }
    let tx_field = &record[field_map.tx as usize];
    proof {
        assert(fields[field_map.tx as int] =~= tx_field@);
    }
    if let Err(i) = check_ascii(tx_field) {
        return Err(ParserError::InvalidAscii(i));
    }
    let tx_trimmed = trim_bytes(tx_field);
    let tx = match parse_u32_bytes(&tx_trimmed) {
        Some(v) => v,
        None => {
            return Err(ParserError::IntParseError);
        },
    };
    if field_map.client as usize >= record.len() {
        return Err(ParserError::MissingHeader(Header::Client));
    }
    let client_field = &record[field_map.client as usize];
    proof {
        assert(fields[field_map.client as int] =~= client_field@);
    }
    if let Err(i) = check_ascii(client_field) {
        return Err(ParserError::InvalidAscii(i));
    }
    let client_trimmed = trim_bytes(client_field);
    let client = match parse_u16_bytes(&client_trimmed) {
        Some(v) => v,
        None => {
            return Err(ParserError::IntParseError);
        },
    };
    if field_map.ty as usize >= record.len() {
        return Err(ParserError::MissingHeader(Header::Type));
    }
    let ty_field = &record[field_map.ty as usize];
    proof {
        assert(fields[field_map.ty as int] =~= ty_field@);
    }
    if let Err(i) = check_ascii(ty_field) {
        return Err(ParserError::InvalidAscii(i));
    }
    let ty = trim_bytes(ty_field);
    if bytes_eq(&ty, &kw_withdrawal()) {
        match parse_amount_field(record, field_map.amount) {
            Ok(amount) => Ok(Transaction::new_withdrawal(tx, client, amount)),
            Err(e) => Err(e),
        }
    } else if bytes_eq(&ty, &kw_deposit()) {
        match parse_amount_field(record, field_map.amount) {
            Ok(amount) => Ok(Transaction::new_deposit(tx, client, amount)),
            Err(e) => Err(e),
        }
    } else if bytes_eq(&ty, &kw_dispute()) {
        Ok(Transaction::new_dispute(tx, client))
    } else if bytes_eq(&ty, &kw_chargeback()) {
        Ok(Transaction::new_charge_back(tx, client))
    } else if bytes_eq(&ty, &kw_resolve()) {
        Ok(Transaction::new_resolve(tx, client))
    } else {
        Err(ParserError::InvalidTypeField)
    }
}

} // verus!
