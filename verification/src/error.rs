//! The errors that the order book reports.

use vstd::prelude::*;
use vstd::string::StringExecFns;
use pricelevel::PriceLevelError;
use crate::orders::Side;

verus! {

/// An error reported by a price level, with its details as plain values.
#[derive(Debug, Clone, PartialEq, Eq)]
pub enum LevelError {
    /// Parsing failed.
    ParseError { message: String },
    /// The input is in an invalid format.
    InvalidFormat,
    /// An unrecognised order type.
    UnknownOrderType(String),
    /// A required field is missing.
    MissingField(String),
    /// A field has an invalid value.
    InvalidFieldValue { field: String, value: String },
    /// The operation is not allowed.
    InvalidOperation { message: String },
    /// Serialization failed.
    SerializationError { message: String },
    /// Deserialization failed.
    DeserializationError { message: String },
    /// A checksum did not match.
    ChecksumMismatch { expected: String, actual: String },
}

/// The message of a price-level error.
pub open spec fn level_error_text(e: LevelError) -> Seq<char> {
    match e {
        LevelError::ParseError { message } => message@,
        LevelError::InvalidFormat => "Invalid format"@,
        LevelError::UnknownOrderType(order_type) => "Unknown order type: "@ + order_type@,
        LevelError::MissingField(field) => "Missing field: "@ + field@,
        LevelError::InvalidFieldValue { field, value } => "Invalid value for field "@ + field@ + ": "@ + value@,
        LevelError::InvalidOperation { message } => "Invalid operation: "@ + message@,
        LevelError::SerializationError { message } => "Serialization error: "@ + message@,
        LevelError::DeserializationError { message } => "Deserialization error: "@ + message@,
        LevelError::ChecksumMismatch { expected, actual } => "Checksum mismatch: expected "@ + expected@ + ", got "@ + actual@,
    }
}

impl LevelError {
    /// The error's message.
    pub fn message(&self) -> (r: String)
        ensures
            r@ == level_error_text(*self),
    {
        match self {
            LevelError::ParseError { message } => message.clone(),
            LevelError::InvalidFormat => String::from_str("Invalid format"),
            LevelError::UnknownOrderType(order_type) => {
                let mut s = String::from_str("Unknown order type: ");
                s.append(order_type.as_str());
                s
            },
            LevelError::MissingField(field) => {
                let mut s = String::from_str("Missing field: ");
                s.append(field.as_str());
                s
            },
            LevelError::InvalidFieldValue { field, value } => {
                let mut s = String::from_str("Invalid value for field ");
                s.append(field.as_str());
                s.append(": ");
                s.append(value.as_str());
                s
            },
            LevelError::InvalidOperation { message } => {
                let mut s = String::from_str("Invalid operation: ");
                s.append(message.as_str());
                s
            },
            LevelError::SerializationError { message } => {
                let mut s = String::from_str("Serialization error: ");
                s.append(message.as_str());
                s
            },
            LevelError::DeserializationError { message } => {
                let mut s = String::from_str("Deserialization error: ");
                s.append(message.as_str());
                s
            },
            LevelError::ChecksumMismatch { expected, actual } => {
                let mut s = String::from_str("Checksum mismatch: expected ");
                s.append(expected.as_str());
                s.append(", got ");
                s.append(actual.as_str());
                s
            },
        }
    }
}

/// `PriceLevelError` as this crate's `LevelError`: the same variant with
/// the same fields.
#[verifier::external_body]
fn level_error_in(err: PriceLevelError) -> LevelError {
    match err {
        PriceLevelError::ParseError { message } => LevelError::ParseError { message },
        PriceLevelError::InvalidFormat => LevelError::InvalidFormat,
        PriceLevelError::UnknownOrderType(t) => LevelError::UnknownOrderType(t),
        PriceLevelError::MissingField(f) => LevelError::MissingField(f),
        PriceLevelError::InvalidFieldValue { field, value } => LevelError::InvalidFieldValue { field, value },
        PriceLevelError::InvalidOperation { message } => LevelError::InvalidOperation { message },
        PriceLevelError::SerializationError { message } => LevelError::SerializationError { message },
        PriceLevelError::DeserializationError { message } => LevelError::DeserializationError { message },
        PriceLevelError::ChecksumMismatch { expected, actual } => LevelError::ChecksumMismatch { expected, actual },
    }
}

/// The errors that the order book reports.
#[derive(Debug)]
pub enum OrderBookError {
    /// An error from a price level.
    PriceLevelError(LevelError),
    /// The order is not in the book.
    OrderNotFound(String),
    /// An invalid price level.
    InvalidPriceLevel(u64),
    /// A post-only order would cross the opposite side.
    PriceCrossing {
        /// The order's price.
        price: u64,
        /// The order's side.
        side: Side,
        /// The best opposite price.
        opposite_price: u64,
    },
    /// Not enough opposite liquidity.
    InsufficientLiquidity {
        /// The incoming order's side.
        side: Side,
        /// The quantity asked for.
        requested: u64,
        /// The quantity available.
        available: u64,
    },
    /// The operation is not allowed.
    InvalidOperation {
        /// What went wrong.
        message: String,
    },
}

/// The decimal digit for `d` (below ten).
pub open spec fn digit_char(d: nat) -> char {
    if d == 0 { '0' } else if d == 1 { '1' } else if d == 2 { '2' } else if d == 3 { '3' }
    else if d == 4 { '4' } else if d == 5 { '5' } else if d == 6 { '6' } else if d == 7 { '7' }
    else if d == 8 { '8' } else { '9' }
}

/// The decimal writing of `n`, without leading zeros.
pub open spec fn decimal_text(n: nat) -> Seq<char>
    decreases n,
{
    if n < 10 {
        seq![digit_char(n)]
    } else {
        decimal_text(n / 10).push(digit_char(n % 10))
    }
}

/// The name of a side as messages write it.
pub open spec fn side_text(side: Side) -> Seq<char> {
    match side {
        Side::Buy => "BUY"@,
        Side::Sell => "SELL"@,
    }
}

/// The decimal digit for `d`, as a one-character string.
fn digit_str(d: u64) -> (r: &'static str)
    requires
        d < 10,
    ensures
        r@ == seq![digit_char(d as nat)],
{
    proof {
        reveal_strlit("0");
        reveal_strlit("1");
        reveal_strlit("2");
        reveal_strlit("3");
        reveal_strlit("4");
        reveal_strlit("5");
        reveal_strlit("6");
        reveal_strlit("7");
        reveal_strlit("8");
        reveal_strlit("9");
    }
    if d == 0 { "0" } else if d == 1 { "1" } else if d == 2 { "2" } else if d == 3 { "3" }
    else if d == 4 { "4" } else if d == 5 { "5" } else if d == 6 { "6" } else if d == 7 { "7" }
    else if d == 8 { "8" } else { "9" }
}

/// The decimal writing of `n`, without leading zeros.
fn decimal(n: u64) -> (r: String)
    ensures
        r@ == decimal_text(n as nat),
    decreases n,
{
    if n < 10 {
        String::from_str(digit_str(n))
    } else {
        let mut s = decimal(n / 10);
        s.append(digit_str(n % 10));
        proof {
            assert(decimal_text(n as nat) == decimal_text((n / 10) as nat).push(digit_char((n % 10) as nat)));
        }
        s
    }
}

/// The name of `side` as messages write it.
fn side_name(side: Side) -> (r: String)
    ensures
        r@ == side_text(side),
{
    match side {
        Side::Buy => String::from_str("BUY"),
        Side::Sell => String::from_str("SELL"),
    }
}

impl OrderBookError {
    /// The error's message.
    pub fn to_string(&self) -> (r: String)
        ensures
            match self {
                OrderBookError::PriceLevelError(e) => r@ == "Price level error: "@ + level_error_text(*e),
                OrderBookError::OrderNotFound(id) => r@ == "Order not found: "@ + id@,
                OrderBookError::InvalidPriceLevel(price) => r@ == "Invalid price level: "@ + decimal_text(*price as nat),
                OrderBookError::PriceCrossing { price, side, opposite_price } =>
                    r@ == "Price crossing: "@ + side_text(*side) + " "@ + decimal_text(*price as nat)
                        + " would cross opposite at "@ + decimal_text(*opposite_price as nat),
                OrderBookError::InsufficientLiquidity { side, requested, available } =>
                    r@ == "Insufficient liquidity for "@ + side_text(*side) + " order: requested "@
                        + decimal_text(*requested as nat) + ", available "@ + decimal_text(*available as nat),
                OrderBookError::InvalidOperation { message } => r@ == "Invalid operation: "@ + message@,
            },
    {
        match self {
            OrderBookError::PriceLevelError(err) => {
                let mut s = String::from_str("Price level error: ");
                s.append(err.message().as_str());
                s
            },
            OrderBookError::OrderNotFound(id) => {
                let mut s = String::from_str("Order not found: ");
                s.append(id.as_str());
                s
            },
            OrderBookError::InvalidPriceLevel(price) => {
                let mut s = String::from_str("Invalid price level: ");
                s.append(decimal(*price).as_str());
                s
            },
            OrderBookError::PriceCrossing { price, side, opposite_price } => {
                let mut s = String::from_str("Price crossing: ");
                s.append(side_name(*side).as_str());
                s.append(" ");
                s.append(decimal(*price).as_str());
                s.append(" would cross opposite at ");
                s.append(decimal(*opposite_price).as_str());
                s
            },
            OrderBookError::InsufficientLiquidity { side, requested, available } => {
                let mut s = String::from_str("Insufficient liquidity for ");
                s.append(side_name(*side).as_str());
                s.append(" order: requested ");
                s.append(decimal(*requested).as_str());
                s.append(", available ");
                s.append(decimal(*available).as_str());
                s
            },
            OrderBookError::InvalidOperation { message } => {
                let mut s = String::from_str("Invalid operation: ");
                s.append(message.as_str());
                s
            },
        }
    }
}

impl From<PriceLevelError> for OrderBookError {
    fn from(err: PriceLevelError) -> (r: Self) {
        OrderBookError::PriceLevelError(level_error_in(err))
    }
}

impl vstd::std_specs::convert::FromSpecImpl<PriceLevelError> for OrderBookError {
    /// The converted error's fields are read off an opaque value, so no
    /// spec conversion is claimed.
    open spec fn obeys_from_spec() -> bool {
        false
    }

    open spec fn from_spec(v: PriceLevelError) -> OrderBookError {
        vstd::pervasive::arbitrary()
    }
}

} // verus!
