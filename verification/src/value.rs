use vstd::prelude::*;
use crate::error::AppError;
use rust_decimal::Decimal;
use std::str::FromStr;

verus! {

/// The largest magnitude a mantissa may have: 96 bits, all set.
pub const MANTISSA_LIMIT: i128 = 0xFFFF_FFFF_FFFF_FFFF_FFFF_FFFF;

/// The largest number of fractional digits.
pub const SCALE_LIMIT: u32 = 28;

/// Whether `mantissa / 10^scale` is a number that a score can hold.
pub open spec fn representable(mantissa: int, scale: int) -> bool {
    &&& -MANTISSA_LIMIT <= mantissa <= MANTISSA_LIMIT
    &&& 0 <= scale <= SCALE_LIMIT
}

/// The canonical text of the decimal `mantissa / 10^scale`, as
/// `rust_decimal` prints it.
pub uninterp spec fn decimal_text(mantissa: int, scale: nat) -> Seq<char>;

/// The decimal that `rust_decimal` reads from `text`, as mantissa and
/// scale, or `None` where it reads none.
pub uninterp spec fn parsed_decimal(text: Seq<char>) -> Option<(int, nat)>;

/// Whether the canonical text of a decimal reads back as that decimal,
/// digit for digit.
pub open spec fn reads_back(value: (int, nat)) -> bool {
    parsed_decimal(decimal_text(value.0, value.1)) == Some(value)
}

/// Whether the canonical text of a decimal cannot be read at all.
pub open spec fn text_is_unreadable(value: (int, nat)) -> bool {
    parsed_decimal(decimal_text(value.0, value.1)) is None
}

/// Whether the canonical text of a decimal reads as another decimal.
pub open spec fn text_reads_otherwise(value: (int, nat)) -> bool {
    parsed_decimal(decimal_text(value.0, value.1)) matches Some(other) && other != value
}

/// An exact decimal number: the integer `mantissa` divided by ten to the
/// power `scale`. Two values are equal when both parts are, so `7.9` and
/// `7.90` are told apart.
#[derive(Clone, Copy, Debug, PartialEq, Eq)]
pub struct ScoreValue {
    mantissa: i128,
    scale: u32,
}

impl View for ScoreValue {
    type V = (int, nat);

    closed spec fn view(&self) -> (int, nat) {
        (self.mantissa as int, self.scale as nat)
    }
}

impl ScoreValue {
    #[verifier::type_invariant]
    spec fn within_limits(self) -> bool {
        representable(self.mantissa as int, self.scale as int)
    }

    /// The value `mantissa / 10^scale`, if it is representable.
    pub fn new(mantissa: i128, scale: u32) -> (r: Option<ScoreValue>)
        ensures
            r is Some <==> representable(mantissa as int, scale as int),
            r matches Some(v) ==> v@ == (mantissa as int, scale as nat),
    {
        if scale <= SCALE_LIMIT && -MANTISSA_LIMIT <= mantissa && mantissa <= MANTISSA_LIMIT {
            Some(ScoreValue { mantissa, scale })
        } else {
            None
        }
    }

    /// The integer that holds all the digits.
    pub fn mantissa(&self) -> (m: i128)
        ensures
            m == self@.0,
            representable(m as int, self@.1 as int),
    {
        proof {
            use_type_invariant(self);
        }
        self.mantissa
    }

    /// The number of digits after the decimal point.
    pub fn scale(&self) -> (s: u32)
        ensures
            s == self@.1,
            s <= SCALE_LIMIT,
    {
        proof {
            use_type_invariant(self);
        }
        self.scale
    }

    /// The canonical text under which the value is stored.
    pub fn to_text(&self) -> (text: String)
        ensures
            text@ == decimal_text(self@.0, self@.1),
    {
        proof {
            use_type_invariant(self);
        }
        print_decimal(self)
    }

    /// The text to store for the value. It is handed out only after it has
    /// been read back and has given the value again, so that whatever is
    /// stored decodes to exactly what was given. A text that cannot be read
    /// is a decoding error; one that reads as another value is a
    /// configuration error.
    pub fn to_stored_text(&self) -> (r: Result<String, AppError>)
        ensures
            r is Ok <==> reads_back(self@),
            r matches Ok(text) ==> text@ == decimal_text(self@.0, self@.1),
            r matches Err(AppError::Decoding(_)) <==> text_is_unreadable(self@),
            r matches Err(AppError::Configuration(_)) <==> text_reads_otherwise(self@),
    {
        let text = self.to_text();
        match ScoreValue::from_text(text.as_str()) {
            Ok(back) => {
                if back.mantissa == self.mantissa && back.scale == self.scale {
                    Ok(text)
                } else {
                    Err(
                        AppError::Configuration(
                            "the text of the score does not read back as the score".to_owned(),
                        ),
                    )
                }
            },
            Err(e) => Err(e),
        }
    }

    /// Reads a stored text back. The text of a decimal gives that decimal;
    /// any other text is a decoding error.
    pub fn from_text(text: &str) -> (r: Result<ScoreValue, AppError>)
        ensures
            match parsed_decimal(text@) {
                Some(parts) => r matches Ok(v) && v@ == parts,
                None => r matches Err(AppError::Decoding(_)),
            },
    {
        match read_decimal(text) {
            Ok(value) => Ok(value),
            Err(fault) => Err(AppError::Decoding(fault)),
        }
    }

    /// Values with the same mantissa and scale are the same value.
    pub proof fn view_is_injective(self, other: ScoreValue)
        requires
            self@ == other@,
        ensures
            self == other,
    {
    }
}

/// `Decimal::from_i128_with_scale` followed by `to_string`: the text that
/// `rust_decimal` prints for the decimal with these parts. The first call
/// panics outside the representable range, which `requires` excludes.
#[verifier::external_body]
fn print_decimal(value: &ScoreValue) -> (text: String)
    requires
        representable(value@.0, value@.1 as int),
    ensures
        text@ == decimal_text(value@.0, value@.1),
{
    Decimal::from_i128_with_scale(value.mantissa, value.scale).to_string()
}

/// `Decimal::from_str`, with the outcome taken apart by `mantissa` and
/// `scale`: what is read is a function of the text alone, and every decimal
/// of `rust_decimal` has a mantissa of at most 96 bits and a scale of at
/// most 28.
#[verifier::external_body]
fn read_decimal(text: &str) -> (r: Result<ScoreValue, rust_decimal::Error>)
    ensures
        match parsed_decimal(text@) {
            Some(parts) => r matches Ok(v) && v@ == parts,
            None => r is Err,
        },
        r matches Ok(v) ==> representable(v@.0, v@.1 as int),
{
    Decimal::from_str(text).map(|d| ScoreValue { mantissa: d.mantissa(), scale: d.scale() })
}

} // verus!
