use vstd::prelude::*;

verus! {

/// Unsigned fixed-point currency: a 64-bit value with 16 fractional bits,
/// so the represented amount is `bits / 65536`. Used for deposit and
/// withdrawal amounts and for the held balance, which are never negative.
#[derive(Debug, Clone, Copy, PartialEq, Eq, Structural)]
pub struct UCurrency {
    pub bits: u64,
}

/// Signed fixed-point currency: a 64-bit value with 16 fractional bits,
/// so the represented amount is `bits / 65536`. Used for the available
/// balance, which can go negative after a chargeback follows a withdrawal.
#[derive(Debug, Clone, Copy, PartialEq, Eq, Structural)]
pub struct ICurrency {
    pub bits: i64,
}

impl UCurrency {
    /// The mathematical model of an unsigned currency value: its raw bits.
    pub open spec fn view(&self) -> int {
        self.bits as int
    }

    /// The unsigned currency whose raw bits are `v`, for in-range `v`.
    pub open spec fn spec_from_int(v: int) -> UCurrency {
        UCurrency { bits: v as u64 }
    }

    pub fn from_bits(bits: u64) -> (r: UCurrency)
        ensures
            r@ == bits,
    {
        UCurrency { bits }
    }

    pub fn to_bits(self) -> (r: u64)
        ensures
            r == self@,
    {
        self.bits
    }

    /// Checked addition: fails exactly when the sum leaves the unsigned range.
    pub fn checked_add(self, rhs: UCurrency) -> (r: Option<UCurrency>)
        ensures
            r == if self@ + rhs@ > u64::MAX {
                None::<UCurrency>
            } else {
                Some(UCurrency::spec_from_int(self@ + rhs@))
            },
    {
        match self.bits.checked_add(rhs.bits) {
            Some(bits) => Some(UCurrency { bits }),
            None => None,
        }
    }

    /// Checked subtraction: fails exactly when the difference would be negative.
    pub fn checked_sub(self, rhs: UCurrency) -> (r: Option<UCurrency>)
        ensures
            r == if self@ - rhs@ < 0 {
                None::<UCurrency>
            } else {
                Some(UCurrency::spec_from_int(self@ - rhs@))
            },
    {
        match self.bits.checked_sub(rhs.bits) {
            Some(bits) => Some(UCurrency { bits }),
            None => None,
        }
    }
}

impl ICurrency {
    /// The mathematical model of a signed currency value: its raw bits.
    pub open spec fn view(&self) -> int {
        self.bits as int
    }

    /// The signed currency whose raw bits are `v`, for in-range `v`.
    pub open spec fn spec_from_int(v: int) -> ICurrency {
        ICurrency { bits: v as i64 }
    }

    pub fn from_bits(bits: i64) -> (r: ICurrency)
        ensures
            r@ == bits,
    {
        ICurrency { bits }
    }

    pub fn to_bits(self) -> (r: i64)
        ensures
            r == self@,
    {
        self.bits
    }

    /// Checked signed + unsigned addition: fails exactly when the sum
    /// exceeds the signed range.
    pub fn checked_add_unsigned(self, rhs: UCurrency) -> (r: Option<ICurrency>)
        ensures
            r == if self@ + rhs@ > i64::MAX {
                None::<ICurrency>
            } else {
                Some(ICurrency::spec_from_int(self@ + rhs@))
            },
    {
        match self.bits.checked_add_unsigned(rhs.bits) {
            Some(bits) => Some(ICurrency { bits }),
            None => None,
        }
    }

    /// Checked signed - unsigned subtraction: fails exactly when the
    /// difference falls below the signed range.
    pub fn checked_sub_unsigned(self, rhs: UCurrency) -> (r: Option<ICurrency>)
        ensures
            r == if self@ - rhs@ < i64::MIN {
                None::<ICurrency>
            } else {
                Some(ICurrency::spec_from_int(self@ - rhs@))
            },
    {
        match self.bits.checked_sub_unsigned(rhs.bits) {
            Some(bits) => Some(ICurrency { bits }),
            None => None,
        }
    }

    pub fn is_negative(self) -> (r: bool)
        ensures
            r == (self@ < 0),
    {
        self.bits < 0
    }
}

/// What `fixed` parses a decimal byte string into: the raw bits of the
/// unsigned fixed-point number, or nothing when the string is rejected.
/// The result depends on the bytes alone.
pub uninterp spec fn parsed_ucurrency(s: Seq<u8>) -> Option<u64>;

/// Relies on `str::parse` for `fixed::FixedU64<U16>` (`fixed`'s `FromStr`):
/// it parses a decimal number into the nearest representable fixed-point
/// value, and its result is a function of the input bytes alone.
#[verifier::external_body]
pub(crate) fn parse_ucurrency(s: &Vec<u8>) -> (r: Option<UCurrency>)
    ensures
        r == match parsed_ucurrency(s@) {
            Some(bits) => Some(UCurrency { bits }),
            None => None::<UCurrency>,
        },
{
    match core::str::from_utf8(s) {
        Ok(t) => match t.parse::<fixed::FixedU64<fixed::types::extra::U16>>() {
            Ok(f) => Some(UCurrency { bits: f.to_bits() }),
            Err(_) => None,
        },
        Err(_) => None,
    }
}

/// What `fixed` renders a signed fixed-point value (given by its raw bits)
/// as, with exactly four fractional digits. A function of the bits alone.
pub uninterp spec fn formatted_ifixed(bits: i64) -> Seq<u8>;

/// Relies on the `Display` of `fixed::FixedI64<U16>` with precision 4:
/// a decimal rendering with exactly four digits after the point, a function
/// of the value alone.
#[verifier::external_body]
pub(crate) fn format_icurrency(c: ICurrency) -> (r: Vec<u8>)
    ensures
        r@ == formatted_ifixed(c.bits),
        r@.len() >= 6,
        r@[r@.len() - 5] == 46,
        forall|k: int| r@.len() - 4 <= k < r@.len() ==> 48 <= #[trigger] r@[k] <= 57,
{
    format!("{:.4}", fixed::FixedI64::<fixed::types::extra::U16>::from_bits(c.bits)).into_bytes()
}

/// What `fixed` renders an unsigned fixed-point value (given by its raw
/// bits) as, with exactly four fractional digits. A function of the bits alone.
pub uninterp spec fn formatted_ufixed(bits: u64) -> Seq<u8>;

/// Relies on the `Display` of `fixed::FixedU64<U16>` with precision 4:
/// a decimal rendering with exactly four digits after the point, a function
/// of the value alone.
#[verifier::external_body]
pub(crate) fn format_ucurrency(c: UCurrency) -> (r: Vec<u8>)
    ensures
        r@ == formatted_ufixed(c.bits),
        r@.len() >= 6,
        r@[r@.len() - 5] == 46,
        forall|k: int| r@.len() - 4 <= k < r@.len() ==> 48 <= #[trigger] r@[k] <= 57,
{
    format!("{:.4}", fixed::FixedU64::<fixed::types::extra::U16>::from_bits(c.bits)).into_bytes()
}

} // verus!
