use vstd::prelude::*;

use crate::amount::{amount_value, parse_amount};
use crate::record::AggTrade;

verus! {

/// The fields of one inbound trade frame, as decoded from its JSON body.
/// A field is `None` when the frame lacks it or holds a value of another JSON type.
pub struct RawAggTrade {
    /// `s`: symbol.
    pub symbol: Option<String>,
    /// `a`: aggregate trade id.
    pub trade_id: Option<u64>,
    /// `p`: price, a decimal numeral.
    pub price: Option<String>,
    /// `q`: quantity, a decimal numeral.
    pub quantity: Option<String>,
    /// `f`: first trade id.
    pub first_trade_id: Option<u64>,
    /// `l`: last trade id.
    pub last_trade_id: Option<u64>,
    /// `T`: event time, milliseconds since the Unix epoch.
    pub event_time: Option<u64>,
    /// `m`: whether the buyer is the maker.
    pub is_buyer_maker: Option<bool>,
}

/// A field of a trade frame.
#[derive(Debug, Clone, Copy, PartialEq, Eq, Structural)]
pub enum TradeField {
    Symbol,
    TradeId,
    Price,
    Quantity,
    FirstTradeId,
    LastTradeId,
    EventTime,
    BuyerMaker,
}

/// Why a frame gave no trade record.
#[derive(Debug, Clone, Copy, PartialEq, Eq, Structural)]
pub enum ParseError {
    /// The field is absent or of the wrong JSON type.
    Missing(TradeField),
    /// The price or quantity is no decimal numeral within the amount bound.
    NotANumber(TradeField),
    /// The event time lies outside the range of representable UTC instants.
    InvalidTimestamp,
    /// The price is zero.
    NonPositivePrice,
    /// The first trade id exceeds the last.
    InvertedTradeRange,
}

/// Whether chrono represents the UTC instant `ms` milliseconds after the Unix epoch.
pub uninterp spec fn utc_millis_representable(ms: int) -> bool;

/// Relies on chrono's `DateTime::<Utc>::from_timestamp_millis`, which returns
/// `Some` exactly for the instants within chrono's supported range.
#[verifier::external_body]
fn timestamp_representable(ms: i64) -> (r: bool)
    ensures
        r == utc_millis_representable(ms as int),
{
    chrono::DateTime::<chrono::Utc>::from_timestamp_millis(ms).is_some()
}

/// Whether an event time in milliseconds is a valid instant.
pub open spec fn event_time_valid(ms: u64) -> bool {
    ms <= i64::MAX && utc_millis_representable(ms as int)
}

/// The outcome of validating a frame: the first failing check in the order
/// event time, symbol, trade id, price, quantity, first and last trade id,
/// buyer-maker flag, positive price, trade range; else the record.
pub open spec fn parse_outcome(raw: RawAggTrade) -> Result<AggTrade, ParseError> {
    if raw.event_time.is_none() {
        Err(ParseError::Missing(TradeField::EventTime))
    } else if !event_time_valid(raw.event_time.unwrap()) {
        Err(ParseError::InvalidTimestamp)
    } else if raw.symbol.is_none() {
        Err(ParseError::Missing(TradeField::Symbol))
    } else if raw.trade_id.is_none() {
        Err(ParseError::Missing(TradeField::TradeId))
    } else if raw.price.is_none() {
        Err(ParseError::Missing(TradeField::Price))
    } else if amount_value(raw.price.unwrap()@).is_none() {
        Err(ParseError::NotANumber(TradeField::Price))
    } else if raw.quantity.is_none() {
        Err(ParseError::Missing(TradeField::Quantity))
    } else if amount_value(raw.quantity.unwrap()@).is_none() {
        Err(ParseError::NotANumber(TradeField::Quantity))
    } else if raw.first_trade_id.is_none() {
        Err(ParseError::Missing(TradeField::FirstTradeId))
    } else if raw.last_trade_id.is_none() {
        Err(ParseError::Missing(TradeField::LastTradeId))
    } else if raw.is_buyer_maker.is_none() {
        Err(ParseError::Missing(TradeField::BuyerMaker))
    } else if amount_value(raw.price.unwrap()@).unwrap() == 0 {
        Err(ParseError::NonPositivePrice)
    } else if raw.first_trade_id.unwrap() > raw.last_trade_id.unwrap() {
        Err(ParseError::InvertedTradeRange)
    } else {
        Ok(
            AggTrade {
                symbol: raw.symbol.unwrap(),
                trade_id: raw.trade_id.unwrap(),
                price: amount_value(raw.price.unwrap()@).unwrap(),
                quantity: amount_value(raw.quantity.unwrap()@).unwrap(),
                first_trade_id: raw.first_trade_id.unwrap(),
                last_trade_id: raw.last_trade_id.unwrap(),
                timestamp: raw.event_time.unwrap(),
                is_buyer_maker: raw.is_buyer_maker.unwrap(),
            },
        )
    }
}

/// Validates a decoded frame into a trade record, or says which check failed
/// first. Never yields a partly filled record.
pub fn parse_agg_trade(raw: RawAggTrade) -> (r: Result<AggTrade, ParseError>)
    ensures
        r == parse_outcome(raw),
        r matches Ok(t) ==> t.wf() && t.price > 0 && t.first_trade_id <= t.last_trade_id,
{
    let ghost raw0 = raw;
    let RawAggTrade {
        symbol,
        trade_id,
        price,
        quantity,
        first_trade_id,
        last_trade_id,
        event_time,
        is_buyer_maker,
    } = raw;
    let timestamp = match event_time {
        Some(ms) => ms,
        None => return Err(ParseError::Missing(TradeField::EventTime)),
    };
    if timestamp > i64::MAX as u64 || !timestamp_representable(timestamp as i64) {
        return Err(ParseError::InvalidTimestamp);
    }
    let symbol = match symbol {
        Some(s) => s,
        None => return Err(ParseError::Missing(TradeField::Symbol)),
    };
    let trade_id = match trade_id {
        Some(v) => v,
        None => return Err(ParseError::Missing(TradeField::TradeId)),
    };
    let price = match price {
        Some(p) => match parse_amount(p.as_str()) {
            Some(v) => v,
            None => return Err(ParseError::NotANumber(TradeField::Price)),
        },
        None => return Err(ParseError::Missing(TradeField::Price)),
    };
    let quantity = match quantity {
        Some(q) => match parse_amount(q.as_str()) {
            Some(v) => v,
            None => return Err(ParseError::NotANumber(TradeField::Quantity)),
        },
        None => return Err(ParseError::Missing(TradeField::Quantity)),
    };
    let first_trade_id = match first_trade_id {
        Some(v) => v,
        None => return Err(ParseError::Missing(TradeField::FirstTradeId)),
    };
    let last_trade_id = match last_trade_id {
        Some(v) => v,
        None => return Err(ParseError::Missing(TradeField::LastTradeId)),
    };
    let is_buyer_maker = match is_buyer_maker {
        Some(v) => v,
        None => return Err(ParseError::Missing(TradeField::BuyerMaker)),
    };
    if price == 0 {
        return Err(ParseError::NonPositivePrice);
    }
    if first_trade_id > last_trade_id {
        return Err(ParseError::InvertedTradeRange);
    }
    Ok(
        AggTrade {
            symbol,
            trade_id,
            price,
            quantity,
            first_trade_id,
            last_trade_id,
            timestamp,
            is_buyer_maker,
        },
    )
}

} // verus!
