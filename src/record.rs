use vstd::prelude::*;

verus! {

/// Fixed-point resolution of prices and quantities: one unit is 10^-8 of a whole.
pub const UNITS_PER_WHOLE: u64 = 100_000_000;

/// Largest price or quantity, in units, that a record may carry (2^56 - 1).
///
/// The bound keeps every running aggregate of a full window inside `u128`.
pub const MAX_AMOUNT: u64 = 72_057_594_037_927_935;

/// Largest window capacity a storage may be created with.
pub const MAX_CAPACITY: usize = 65_536;

/// One aggregated trade event, validated and immutable.
///
/// `price` and `quantity` are fixed-point amounts in units of 10^-8;
/// `timestamp` is the event time in milliseconds since the Unix epoch, UTC.
#[derive(Debug)]
pub struct AggTrade {
    pub symbol: String,
    pub trade_id: u64,
    pub price: u64,
    pub quantity: u64,
    pub first_trade_id: u64,
    pub last_trade_id: u64,
    pub timestamp: u64,
    pub is_buyer_maker: bool,
}

impl AggTrade {
    /// The bounds every record kept in a window satisfies.
    pub open spec fn wf(&self) -> bool {
        &&& self.price <= MAX_AMOUNT
        &&& self.quantity <= MAX_AMOUNT
    }

    /// A field-by-field copy.
    pub fn duplicate(&self) -> (r: AggTrade)
        ensures
            r == *self,
    {
        AggTrade {
            symbol: self.symbol.clone(),
            trade_id: self.trade_id,
            price: self.price,
            quantity: self.quantity,
            first_trade_id: self.first_trade_id,
            last_trade_id: self.last_trade_id,
            timestamp: self.timestamp,
            is_buyer_maker: self.is_buyer_maker,
        }
    }
}

} // verus!
