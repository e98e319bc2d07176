//! The errors that the book returns: a stable numeric code and a message.

use vstd::prelude::*;
use vstd::string::*;

verus! {

/// The kinds of failure.
#[derive(Debug, Clone, Copy, PartialEq, Eq, Hash, Structural)]
#[non_exhaustive]
pub enum ErrorType {
    /// Anything without a kind of its own.
    Default,
    /// The price of a limit order is zero.
    InvalidPrice,
    /// A replacement names neither a new price nor a new quantity.
    InvalidPriceOrQuantity,
    /// The quantity of an order is zero.
    InvalidQuantity,
    /// Reserved.
    OrderAlredyExists,
    /// No resting order has the identifier.
    OrderNotFound,
    /// A post-only order would have matched on entry.
    OrderPostOnly,
    /// Reserved.
    OrderIOC,
    /// A fill-or-kill order cannot be filled in full.
    OrderFOK,
    /// Reserved.
    InsufficientQuantity,
    /// Reserved.
    InvalidPriceLevel,
    /// A market order met an empty opposite side.
    OrderBookEmpty,
}

impl ErrorType {
    /// The numeric code of the kind.
    pub open spec fn spec_code(self) -> u32 {
        match self {
            ErrorType::Default => 1000,
            ErrorType::InvalidQuantity => 1101,
            ErrorType::InvalidPrice => 1102,
            ErrorType::InvalidPriceOrQuantity => 1103,
            ErrorType::OrderPostOnly => 1104,
            ErrorType::OrderIOC => 1105,
            ErrorType::OrderFOK => 1106,
            ErrorType::OrderAlredyExists => 1109,
            ErrorType::OrderNotFound => 1110,
            ErrorType::OrderBookEmpty => 1200,
            ErrorType::InsufficientQuantity => 1201,
            ErrorType::InvalidPriceLevel => 1202,
        }
    }

    /// The standard message of the kind.
    pub open spec fn spec_message(self) -> Seq<char> {
        match self {
            ErrorType::Default => "Something wrong"@,
            ErrorType::InvalidQuantity => "Invalid order quantity"@,
            ErrorType::InvalidPrice => "Invalid order price"@,
            ErrorType::InvalidPriceOrQuantity => "Invalid order price or quantity"@,
            ErrorType::OrderPostOnly =>
                "Post Only order rejected: would execute immediately against existing orders"@,
            ErrorType::OrderIOC =>
                "IOC order rejected: no immediate liquidity available at requested price"@,
            ErrorType::OrderFOK =>
                "FOK order rejected: unable to fill entire quantity immediately"@,
            ErrorType::OrderAlredyExists => "Order already exists"@,
            ErrorType::OrderNotFound => "Order not found"@,
            ErrorType::OrderBookEmpty => "Order book is empty"@,
            ErrorType::InsufficientQuantity => "Insufficient quantity to calculate price"@,
            ErrorType::InvalidPriceLevel => "Invalid order price level"@,
        }
    }

    /// The error that stands for the kind: its code with its standard message.
    pub open spec fn error(self) -> ErrorModel {
        ErrorModel { code: self.spec_code(), message: self.spec_message() }
    }

    /// The numeric code of the kind.
    pub fn code(self) -> (code: u32)
        ensures
            code == self.spec_code(),
    {
        match self {
            ErrorType::Default => 1000,
            ErrorType::InvalidQuantity => 1101,
            ErrorType::InvalidPrice => 1102,
            ErrorType::InvalidPriceOrQuantity => 1103,
            ErrorType::OrderPostOnly => 1104,
            ErrorType::OrderIOC => 1105,
            ErrorType::OrderFOK => 1106,
            ErrorType::OrderAlredyExists => 1109,
            ErrorType::OrderNotFound => 1110,
            ErrorType::OrderBookEmpty => 1200,
            ErrorType::InsufficientQuantity => 1201,
            ErrorType::InvalidPriceLevel => 1202,
        }
    }

    /// The standard message of the kind.
    pub fn message(self) -> (message: &'static str)
        ensures
            message@ == self.spec_message(),
    {
        match self {
            ErrorType::Default => "Something wrong",
            ErrorType::InvalidQuantity => "Invalid order quantity",
            ErrorType::InvalidPrice => "Invalid order price",
            ErrorType::InvalidPriceOrQuantity => "Invalid order price or quantity",
            ErrorType::OrderPostOnly =>
                "Post Only order rejected: would execute immediately against existing orders",
            ErrorType::OrderIOC =>
                "IOC order rejected: no immediate liquidity available at requested price",
            ErrorType::OrderFOK => "FOK order rejected: unable to fill entire quantity immediately",
            ErrorType::OrderAlredyExists => "Order already exists",
            ErrorType::OrderNotFound => "Order not found",
            ErrorType::OrderBookEmpty => "Order book is empty",
            ErrorType::InsufficientQuantity => "Insufficient quantity to calculate price",
            ErrorType::InvalidPriceLevel => "Invalid order price level",
        }
    }
}

/// What an error holds, as plain values.
pub ghost struct ErrorModel {
    pub code: u32,
    pub message: Seq<char>,
}

/// An error of the book: a numeric code and a message.
#[derive(Debug, Clone, PartialEq, Eq)]
#[non_exhaustive]
pub struct OrderBookError {
    pub code: u32,
    pub message: String,
}

impl View for OrderBookError {
    type V = ErrorModel;

    open spec fn view(&self) -> ErrorModel {
        ErrorModel { code: self.code, message: self.message@ }
    }
}

/// The decimal digit `d` as a character.
pub open spec fn digit_char(d: nat) -> char {
    if d == 0 {
        '0'
    } else if d == 1 {
        '1'
    } else if d == 2 {
        '2'
    } else if d == 3 {
        '3'
    } else if d == 4 {
        '4'
    } else if d == 5 {
        '5'
    } else if d == 6 {
        '6'
    } else if d == 7 {
        '7'
    } else if d == 8 {
        '8'
    } else {
        '9'
    }
}

/// The decimal digits of `n`, most significant first, without leading zeros.
pub open spec fn decimal(n: nat) -> Seq<char>
    decreases n,
{
    if n < 10 {
        seq![digit_char(n)]
    } else {
        decimal(n / 10).push(digit_char(n % 10))
    }
}

/// The message that belongs to a code: the standard message of the kind with
/// that code, and `Unknown error (code)` for any other code. The codes 1200
/// and 1201 carry the messages of the two kinds that follow them.
pub open spec fn message_for_code(code: u32) -> Seq<char> {
    if code == 1000 {
        ErrorType::Default.spec_message()
    } else if code == 1101 {
        ErrorType::InvalidQuantity.spec_message()
    } else if code == 1102 {
        ErrorType::InvalidPrice.spec_message()
    } else if code == 1103 {
        ErrorType::InvalidPriceOrQuantity.spec_message()
    } else if code == 1104 {
        ErrorType::OrderPostOnly.spec_message()
    } else if code == 1105 {
        ErrorType::OrderIOC.spec_message()
    } else if code == 1106 {
        ErrorType::OrderFOK.spec_message()
    } else if code == 1109 {
        ErrorType::OrderAlredyExists.spec_message()
    } else if code == 1110 {
        ErrorType::OrderNotFound.spec_message()
    } else if code == 1200 {
        ErrorType::InsufficientQuantity.spec_message()
    } else if code == 1201 {
        ErrorType::InvalidPriceLevel.spec_message()
    } else {
        "Unknown error ("@ + decimal(code as nat) + ")"@
    }
}

/// The text of an error: the code in square brackets, a space, the message.
pub open spec fn error_text(e: ErrorModel) -> Seq<char> {
    "["@ + decimal(e.code as nat) + "] "@ + e.message
}

fn digit_str(d: u32) -> (s: &'static str)
    requires
        d < 10,
    ensures
        s@ == seq![digit_char(d as nat)],
{
    proof {
        reveal_strlit("0");
        reveal_strlit("1");
        reveal_strlit("2");
        reveal_strlit("3");
        reveal_strlit("4");
        reveal_strlit("5");
        reveal_strlit("6");
        reveal_strlit("7");
        reveal_strlit("8");
        reveal_strlit("9");
    }
    let s = if d == 0 {
        "0"
    } else if d == 1 {
        "1"
    } else if d == 2 {
        "2"
    } else if d == 3 {
        "3"
    } else if d == 4 {
        "4"
    } else if d == 5 {
        "5"
    } else if d == 6 {
        "6"
    } else if d == 7 {
        "7"
    } else if d == 8 {
        "8"
    } else {
        "9"
    };
    assert(s@ =~= seq![digit_char(d as nat)]);
    s
}

/// Appends the decimal digits of `n` to `out`.
pub fn push_decimal(out: &mut String, n: u64)
    ensures
        final(out)@ == old(out)@ + decimal(n as nat),
    decreases n,
{
    if n >= 10 {
        push_decimal(out, n / 10);
    }
    let d: u32 = (n % 10) as u32;
    out.append(digit_str(d));
    proof {
        if n >= 10 {
            assert(final(out)@ =~= old(out)@ + decimal(n as nat));
        } else {
            assert(final(out)@ =~= old(out)@ + decimal(n as nat));
        }
    }
}

/// The message that belongs to a code: the standard message of the kind with
/// that code, and `Unknown error (code)` for any other code.
pub fn default_message_for_code(code: u32) -> (message: String)
    ensures
        message@ == message_for_code(code),
{
    if code == 1000 {
        String::from_str(ErrorType::Default.message())
    } else if code == 1101 {
        String::from_str(ErrorType::InvalidQuantity.message())
    } else if code == 1102 {
        String::from_str(ErrorType::InvalidPrice.message())
    } else if code == 1103 {
        String::from_str(ErrorType::InvalidPriceOrQuantity.message())
    } else if code == 1104 {
        String::from_str(ErrorType::OrderPostOnly.message())
    } else if code == 1105 {
        String::from_str(ErrorType::OrderIOC.message())
    } else if code == 1106 {
        String::from_str(ErrorType::OrderFOK.message())
    } else if code == 1109 {
        String::from_str(ErrorType::OrderAlredyExists.message())
    } else if code == 1110 {
        String::from_str(ErrorType::OrderNotFound.message())
    } else if code == 1200 {
        String::from_str(ErrorType::InsufficientQuantity.message())
    } else if code == 1201 {
        String::from_str(ErrorType::InvalidPriceLevel.message())
    } else {
        let mut message = String::from_str("Unknown error (");
        push_decimal(&mut message, code as u64);
        message.append(")");
        message
    }
}

impl OrderBookError {
    /// An error with the given code and message.
    pub fn new(code: u32, message: &str) -> (e: Self)
        ensures
            e@ == (ErrorModel { code, message: message@ }),
    {
        OrderBookError { code, message: String::from_str(message) }
    }

    /// An error with the given code and the message that belongs to it.
    pub fn from_code(code: u32) -> (e: Self)
        ensures
            e@ == (ErrorModel { code, message: message_for_code(code) }),
    {
        OrderBookError { code, message: default_message_for_code(code) }
    }

    /// An error with the given message and the code of `ErrorType::Default`.
    pub fn from_message(message: &str) -> (e: Self)
        ensures
            e@ == (ErrorModel { code: 1000, message: message@ }),
    {
        OrderBookError { code: ErrorType::Default.code(), message: String::from_str(message) }
    }

    /// The same error with another message.
    pub fn with_message(self, message: &str) -> (e: Self)
        ensures
            e@ == (ErrorModel { code: self.code, message: message@ }),
    {
        OrderBookError { code: self.code, message: String::from_str(message) }
    }

    /// The error of a kind: its code with its standard message.
    pub fn from_type(t: ErrorType) -> (e: Self)
        ensures
            e@ == t.error(),
    {
        OrderBookError { code: t.code(), message: String::from_str(t.message()) }
    }

    /// The text of the error: the code in square brackets, a space, the
    /// message.
    pub fn to_string(&self) -> (text: String)
        ensures
            text@ == error_text(self@),
    {
        let mut text = String::from_str("[");
        push_decimal(&mut text, self.code as u64);
        text.append("] ");
        text.append(self.message.as_str());
        text
    }
}

/// What can be turned into an error: a kind, a code or a message.
pub trait IntoOrderBookError: Sized {
    /// The error that the value stands for.
    spec fn as_error(self) -> ErrorModel;

    /// Turns the value into the error that it stands for.
    fn into_error(self) -> (e: OrderBookError)
        ensures
            e@ == self.as_error(),
    ;
}

impl IntoOrderBookError for ErrorType {
    open spec fn as_error(self) -> ErrorModel {
        self.error()
    }

    fn into_error(self) -> (e: OrderBookError) {
        OrderBookError::from_type(self)
    }
}

impl IntoOrderBookError for u32 {
    open spec fn as_error(self) -> ErrorModel {
        ErrorModel { code: self, message: message_for_code(self) }
    }

    fn into_error(self) -> (e: OrderBookError) {
        OrderBookError::from_code(self)
    }
}

impl IntoOrderBookError for &str {
    open spec fn as_error(self) -> ErrorModel {
        ErrorModel { code: 1000, message: self@ }
    }

    fn into_error(self) -> (e: OrderBookError) {
        OrderBookError::from_message(self)
    }
}

impl IntoOrderBookError for String {
    open spec fn as_error(self) -> ErrorModel {
        ErrorModel { code: 1000, message: self@ }
    }

    fn into_error(self) -> (e: OrderBookError) {
        OrderBookError::from_message(self.as_str())
    }
}

/// Makes an error from a kind, a code or a message.
pub fn make_error<E: IntoOrderBookError>(e: E) -> (error: OrderBookError)
    ensures
        error@ == e.as_error(),
{
    e.into_error()
}

} // verus!
