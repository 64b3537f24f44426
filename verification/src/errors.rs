//! Errors of booking.
use vstd::prelude::*;
use vstd::string::StringExecFns;

verus! {

/// Why a single posting could not be booked.
#[derive(Clone, Debug, PartialEq, Eq, Structural)]
pub enum PostingBookingError {
    AmbiguousAutoPost,
    CannotInferAnything,
    CannotInferCurrency,
    CannotInferUnits,
    CannotInferPricePerUnit,
    CannotInferPriceCurrency,
    CannotInferPrice,
    NoPositionMatches,
    NotEnoughLotsToReduce,
    AmbiguousMatches,
    MultipleCostCurrenciesMatch,
    /// A sum or product of the posting's numbers does not fit in a decimal.
    NumberOverflow,
}

/// Why a transaction as a whole could not be booked.
#[derive(Clone, Debug)]
pub enum TransactionBookingError {
    /// The residual amounts, as `number currency` separated by commas.
    Unbalanced(String),
    CannotDetermineCurrencyForBalancing,
    AutoPostMultipleBuckets(Vec<String>),
    TooManyMissingNumbers,
    /// A sum of the transaction's numbers does not fit in a decimal.
    NumberOverflow,
}

/// Why booking failed.
#[derive(Clone, Debug)]
pub enum BookingError {
    Transaction(TransactionBookingError),
    /// The index of the posting, and why it failed.
    Posting(usize, PostingBookingError),
}

/// The description of a posting error.
pub open spec fn posting_error_text(e: PostingBookingError) -> Seq<char> {
    match e {
        PostingBookingError::AmbiguousAutoPost => "ambiguous auto-post"@,
        PostingBookingError::CannotInferAnything => "can't infer anything"@,
        PostingBookingError::CannotInferCurrency => "can't infer currency"@,
        PostingBookingError::CannotInferUnits => "can't infer units"@,
        PostingBookingError::CannotInferPricePerUnit => "can't infer price per-unit"@,
        PostingBookingError::CannotInferPriceCurrency => "can't infer price currency"@,
        PostingBookingError::CannotInferPrice => "can't infer price"@,
        PostingBookingError::NoPositionMatches => "no position matches"@,
        PostingBookingError::NotEnoughLotsToReduce => "not enough lots to reduce"@,
        PostingBookingError::AmbiguousMatches => "ambiguous matches"@,
        PostingBookingError::MultipleCostCurrenciesMatch => "multiple cost currencies match"@,
        PostingBookingError::NumberOverflow => "number overflow"@,
    }
}

impl PostingBookingError {
    /// A description of the error.
    pub fn message(&self) -> (r: String)
        ensures
            r@ == posting_error_text(*self),
    {
        match self {
            PostingBookingError::AmbiguousAutoPost => String::from_str("ambiguous auto-post"),
            PostingBookingError::CannotInferAnything => String::from_str("can't infer anything"),
            PostingBookingError::CannotInferCurrency => String::from_str("can't infer currency"),
            PostingBookingError::CannotInferUnits => String::from_str("can't infer units"),
            PostingBookingError::CannotInferPricePerUnit => String::from_str("can't infer price per-unit"),
            PostingBookingError::CannotInferPriceCurrency => String::from_str("can't infer price currency"),
            PostingBookingError::CannotInferPrice => String::from_str("can't infer price"),
            PostingBookingError::NoPositionMatches => String::from_str("no position matches"),
            PostingBookingError::NotEnoughLotsToReduce => String::from_str("not enough lots to reduce"),
            PostingBookingError::AmbiguousMatches => String::from_str("ambiguous matches"),
            PostingBookingError::MultipleCostCurrenciesMatch => String::from_str("multiple cost currencies match"),
            PostingBookingError::NumberOverflow => String::from_str("number overflow"),
        }
    }
}

/// The first `n` names, separated by commas.
pub open spec fn joined(names: Seq<String>, n: int) -> Seq<char>
    decreases n,
{
    if n <= 0 {
        Seq::empty()
    } else if n == 1 {
        names[0]@
    } else {
        joined(names, n - 1) + ", "@ + names[n - 1]@
    }
}

/// The description of a transaction error.
pub open spec fn transaction_error_text(e: TransactionBookingError) -> Seq<char> {
    match e {
        TransactionBookingError::Unbalanced(residuals) => "transaction does not balance: "@ + residuals@,
        TransactionBookingError::CannotDetermineCurrencyForBalancing => "can't determine currency for balancing"@,
        TransactionBookingError::AutoPostMultipleBuckets(buckets) => "auto-post with multiple buckets: "@ + joined(
            buckets@,
            buckets@.len() as int,
        ),
        TransactionBookingError::TooManyMissingNumbers => "too many missing numbers"@,
        TransactionBookingError::NumberOverflow => "number overflow"@,
    }
}

impl TransactionBookingError {
    /// A description of the error.
    pub fn message(&self) -> (r: String)
        ensures
            r@ == transaction_error_text(*self),
    {
        match self {
            TransactionBookingError::Unbalanced(residuals) => {
                let mut r = String::from_str("transaction does not balance: ");
                r.append(residuals.as_str());
                r
            },
            TransactionBookingError::CannotDetermineCurrencyForBalancing => String::from_str(
                "can't determine currency for balancing",
            ),
            TransactionBookingError::AutoPostMultipleBuckets(buckets) => {
                let mut r = String::from_str("auto-post with multiple buckets: ");
                let ghost prefix = r@;
                let mut i: usize = 0;
                while i < buckets.len()
                    invariant
                        i <= buckets@.len(),
                        r@ == prefix + joined(buckets@, i as int),
                    decreases buckets@.len() - i,
                {
                    if i > 0 {
                        r.append(", ");
                    }
                    r.append(buckets[i].as_str());
                    proof {
                        if i == 0 {
                            assert(r@ =~= prefix + joined(buckets@, i + 1));
                        } else {
                            assert(r@ =~= prefix + joined(buckets@, i + 1));
                        }
                    }
                    i = i + 1;
                }
                r
            },
            TransactionBookingError::TooManyMissingNumbers => String::from_str("too many missing numbers"),
            TransactionBookingError::NumberOverflow => String::from_str("number overflow"),
        }
    }
}

} // verus!
