//! Reconciled positions.
use vstd::prelude::*;
use crate::decimal::Decimal;

verus! {

/// One side of a trade, copied from the transaction that made it.
#[derive(Clone, Debug, PartialEq)]
pub struct Details {
    pub amount: Decimal,
    pub total_value: Decimal,
    pub price: Decimal,
    pub timestamp: String,
}

/// A position in one instrument: open while `closing_details` is `None`.
#[derive(Clone, Debug, PartialEq)]
pub struct Trade {
    pub currency: String,
    pub opening_details: Details,
    pub closing_details: Option<Details>,
}

/// The exact fraction `numerator / denominator`; the denominator may be zero.
#[derive(Clone, Copy, Debug, PartialEq, Eq, Structural)]
pub struct Ratio {
    pub numerator: i128,
    pub denominator: i128,
}

/// The relative gain of a closed trade: closing value less opening value, over opening value.
pub open spec fn gain_of(opening: Details, closing: Details) -> Ratio {
    Ratio {
        numerator: (closing.total_value.nanos - opening.total_value.nanos) as i128,
        denominator: opening.total_value.nanos as i128,
    }
}

impl Trade {
    pub fn is_open(&self) -> (r: bool)
        ensures
            r == (self.closing_details is None),
    {
        self.closing_details.is_none()
    }

    pub fn is_closed(&self) -> (r: bool)
        ensures
            r == (self.closing_details is Some),
    {
        self.closing_details.is_some()
    }

    /// The relative gain of the trade, or `None` while it is open.
    pub fn result(&self) -> (r: Option<Ratio>)
        ensures
            match self.closing_details {
                None => r is None,
                Some(c) => r == Some(gain_of(self.opening_details, c)),
            },
    {
        match &self.closing_details {
            None => None,
            Some(c) => {
                let open = self.opening_details.total_value.nanos as i128;
                Some(Ratio { numerator: c.total_value.nanos as i128 - open, denominator: open })
            },
        }
    }
}

} // verus!
