use trade_stream::record::{AggTrade, UNITS_PER_WHOLE};
use trade_stream::storage::AggTradeStorage;

const U: u64 = UNITS_PER_WHOLE;

fn trade(id: u64, price: u64, quantity: u64, is_buyer_maker: bool) -> AggTrade {
    AggTrade {
        symbol: "BTCUSDT".to_string(),
        trade_id: id,
        price,
        quantity,
        first_trade_id: id,
        last_trade_id: id,
        timestamp: 1_700_000_000_000 + id,
        is_buyer_maker,
    }
}

fn storage_with(capacity: usize, prices_whole: &[u64]) -> AggTradeStorage {
    let mut s = AggTradeStorage::new(capacity);
    for (i, p) in prices_whole.iter().enumerate() {
        s.add_trade(trade(i as u64, p * U, U, i % 2 == 0));
    }
    s
}

#[test]
fn empty_storage_has_no_statistics() {
    let s = AggTradeStorage::new(4);
    assert!(s.get_trades().is_empty());
    assert_eq!(s.calculate_average_price(), None);
    assert_eq!(s.calculate_median_price(), None);
    assert_eq!(s.calculate_standard_deviation(), None);
    assert_eq!(s.calculate_vwap(), None);
    assert_eq!(s.calculate_max_price(), None);
    assert_eq!(s.calculate_min_price(), None);
    assert_eq!(s.calculate_buyer_maker_count(), (0, 0));
    assert_eq!(s.total_volume(), 0);
}

#[test]
fn evicting_the_maximum_rescans_it() {
    let mut s = storage_with(3, &[5, 3, 1]);
    assert_eq!(s.calculate_max_price(), Some(5 * U));
    assert_eq!(s.calculate_min_price(), Some(U));
    s.add_trade(trade(9, 2 * U, U, true));
    assert_eq!(s.calculate_max_price(), Some(3 * U));
    assert_eq!(s.calculate_min_price(), Some(U));
    let prices: Vec<u64> = s.get_trades().iter().map(|t| t.price).collect();
    assert_eq!(prices, vec![3 * U, U, 2 * U]);
}

#[test]
fn evicting_the_minimum_rescans_it() {
    let mut s = storage_with(2, &[1, 4]);
    s.add_trade(trade(7, 6 * U, U, false));
    assert_eq!(s.calculate_min_price(), Some(4 * U));
    assert_eq!(s.calculate_max_price(), Some(6 * U));
}

#[test]
fn single_distinct_price_window_rescans_both_bounds() {
    let mut s = storage_with(2, &[7, 7]);
    s.add_trade(trade(3, 9 * U, U, true));
    assert_eq!(s.calculate_max_price(), Some(9 * U));
    assert_eq!(s.calculate_min_price(), Some(7 * U));
    s.add_trade(trade(4, 8 * U, U, true));
    assert_eq!(s.calculate_min_price(), Some(8 * U));
}

#[test]
fn capacity_two_scenario_average_vwap_and_counts() {
    let mut s = AggTradeStorage::new(2);
    s.add_trade(trade(1, 100 * U, U, true));
    s.add_trade(trade(2, 200 * U, U, false));
    assert_eq!(s.calculate_average_price(), Some(150 * U));
    assert_eq!(s.calculate_vwap(), Some(150 * U));
    assert_eq!(s.calculate_buyer_maker_count(), (1, 1));
    s.add_trade(trade(3, 300 * U, U, true));
    assert_eq!(s.calculate_average_price(), Some(250 * U));
    assert_eq!(s.calculate_buyer_maker_count(), (1, 1));
    assert_eq!(s.calculate_vwap(), Some(250 * U));
    assert_eq!(s.get_trades().len(), 2);
    assert_eq!(s.get_trades()[0].trade_id, 2);
}

#[test]
fn window_never_exceeds_capacity_and_average_tracks_residents() {
    let capacity = 5;
    let mut s = AggTradeStorage::new(capacity);
    let mut added: Vec<u64> = Vec::new();
    for i in 0..40u64 {
        let price = (i * 37 % 101 + 1) * U;
        s.add_trade(trade(i, price, U, i % 3 == 0));
        added.push(price);
        assert!(s.get_trades().len() <= capacity);
        let resident = &added[added.len().saturating_sub(capacity)..];
        let mean = resident.iter().map(|p| *p as u128).sum::<u128>() / resident.len() as u128;
        assert_eq!(s.calculate_average_price(), Some(mean as u64));
        let kept: Vec<u64> = s.get_trades().iter().map(|t| t.price).collect();
        assert_eq!(kept, resident.to_vec());
    }
}

#[test]
fn median_odd_and_even() {
    let s = storage_with(5, &[9, 1, 5]);
    assert_eq!(s.calculate_median_price(), Some(5 * U));
    let s = storage_with(5, &[9, 1, 5, 2]);
    assert_eq!(s.calculate_median_price(), Some(35 * U / 10));
}

#[test]
fn standard_deviation_of_a_known_set() {
    let s = storage_with(8, &[2, 4, 4, 4, 5, 5, 7, 9]);
    assert_eq!(s.calculate_standard_deviation(), Some(2 * U));
    let s = storage_with(3, &[7]);
    assert_eq!(s.calculate_standard_deviation(), Some(0));
}

#[test]
fn vwap_weights_by_quantity_and_needs_volume() {
    let mut s = AggTradeStorage::new(4);
    s.add_trade(trade(1, 10 * U, 3 * U, true));
    s.add_trade(trade(2, 20 * U, U, false));
    assert_eq!(s.calculate_vwap(), Some(125 * U / 10));
    assert_eq!(s.total_volume(), 4 * U as u128);
    let mut z = AggTradeStorage::new(2);
    z.add_trade(trade(1, 10 * U, 0, true));
    assert_eq!(z.calculate_vwap(), None);
}

#[test]
fn ema_and_sma_need_period_samples() {
    let mut s = AggTradeStorage::new(10);
    s.add_trade(trade(1, U, U, true));
    assert_eq!(s.calculate_ema(2), None);
    assert_eq!(s.calculate_sma(2), None);
    s.add_trade(trade(2, 2 * U, U, true));
    assert_eq!(s.calculate_ema(2), Some(15 * U / 10));
    assert_eq!(s.calculate_sma(2), Some(15 * U / 10));
    s.add_trade(trade(3, 3 * U, U, true));
    assert_eq!(s.calculate_ema(2), Some(25 * U / 10));
    assert_eq!(s.calculate_sma(2), Some(25 * U / 10));
    assert_eq!(s.calculate_ema(0), None);
    assert_eq!(s.calculate_sma(0), None);
}

#[test]
fn rsi_is_hundred_without_falls() {
    let s = storage_with(10, &[1, 2, 2, 5]);
    assert_eq!(s.calculate_rsi(3), Some(100 * U));
    assert_eq!(s.calculate_rsi(4), None);
}

#[test]
fn rsi_balances_gains_and_losses() {
    let s = storage_with(10, &[1, 2, 1]);
    assert_eq!(s.calculate_rsi(2), Some(50 * U));
    let s = storage_with(10, &[4, 3, 1]);
    assert_eq!(s.calculate_rsi(2), Some(0));
}

#[test]
fn snapshot_collects_recent_trades_and_statistics() {
    let s = storage_with(30, &[3, 1, 4, 1, 5]);
    let snap = s.snapshot(2, 2, 2, 2);
    let recent: Vec<u64> = snap.trades.iter().map(|t| t.price).collect();
    assert_eq!(recent, vec![U, 5 * U]);
    assert_eq!(snap.price_points.len(), 5);
    assert_eq!(snap.price_points[2], (1_700_000_000_002, 4 * U));
    assert_eq!(snap.last_price, Some(5 * U));
    assert_eq!(snap.avg_price, s.calculate_average_price());
    assert_eq!(snap.median_price, Some(3 * U));
    assert_eq!(snap.max_price, Some(5 * U));
    assert_eq!(snap.min_price, Some(U));
    assert_eq!(snap.sma, Some(3 * U));
    assert_eq!(snap.buyer_maker_count, (3, 2));
}

#[test]
fn duplicate_copies_every_field() {
    let t = trade(5, 42 * U, 3, true);
    let d = t.duplicate();
    assert_eq!(d.symbol, t.symbol);
    assert_eq!(d.trade_id, 5);
    assert_eq!(d.price, 42 * U);
    assert_eq!(d.quantity, 3);
    assert_eq!(d.timestamp, t.timestamp);
    assert!(d.is_buyer_maker);
}
