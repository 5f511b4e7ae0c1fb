// Position-simulator tests, at scale 100 (a price of 100.00 is written
// 10000). Percentages are plain numbers.

use fuzzy_trade::backtest::{c_backtest, f_backtest, realizing_pos, Position, SimConfig};

fn config() -> SimConfig {
    SimConfig {
        threshold: 4000,    // signal >= 40.00 opens
        notional: 10000,    // 100.00 per entry
        capital: 100000,    // 1000.00 to start
        take_profit_pct: 20,
        stop_loss_pct: 10,
        rsi_low: 3000,      // RSI below 30.00 is oversold
        rsi_high: 7000,     // RSI above 70.00 is overbought
    }
}

#[test]
fn position_new_records_the_entry() {
    let p = Position::new(10000, 10000, 3);
    assert_eq!(p.at_price, 10000);
    assert_eq!(p.at_time, 3);
    assert_eq!(p.money, 10000);
    assert!(!p.realize);
}

#[test]
fn a_nine_percent_drop_does_not_stop_out() {
    // prices 100, 110, 91; signal opens at t=0; the later -9% move does
    // not reach the -10% stop, so the position stays open and the report
    // shows no realized trades
    let price = vec![10000, 11000, 9100];
    let signal = vec![4500, 0, 0];
    let r = f_backtest(&price, &signal, false, config());
    assert_eq!(r.total_positions, 1);
    assert_eq!(r.profit_count, 0);
    assert_eq!(r.loss_count, 0);
    assert_eq!(r.profit_total, 0);
    assert_eq!(r.loss_total, 0);
    assert_eq!(r.net, 0);
}

#[test]
fn a_twenty_percent_drop_stops_out() {
    // prices 100, 80; the -20% move passes the -10% stop; the loss is
    // (80 - 100) * (100 / 100) = -20.00
    let price = vec![10000, 8000];
    let signal = vec![4500, 0];
    let r = f_backtest(&price, &signal, false, config());
    assert_eq!(r.total_positions, 1);
    assert_eq!(r.profit_count, 0);
    assert_eq!(r.loss_count, 1);
    assert_eq!(r.profit_total, 0);
    assert_eq!(r.loss_total, -2000);
    assert_eq!(r.net, -2000);
}

#[test]
fn a_position_never_closes_on_its_entry_bar() {
    // a single-bar series: the entry bar itself is never scanned for an
    // exit, so the position stays open
    let price = vec![10000];
    let signal = vec![4500];
    let r = f_backtest(&price, &signal, false, config());
    assert_eq!(r.total_positions, 1);
    assert_eq!(r.profit_count, 0);
    assert_eq!(r.loss_count, 0);
    assert_eq!(r.net, 0);
}

#[test]
fn long_take_profit_closes_at_the_first_trigger() {
    // +25% passes the +20% take-profit: profit (125 - 100) * 1.0 = 25.00
    let price = vec![10000, 10500, 12500];
    let signal = vec![5000, 0, 0];
    let r = f_backtest(&price, &signal, false, config());
    assert_eq!(r.total_positions, 1);
    assert_eq!(r.profit_count, 1);
    assert_eq!(r.profit_total, 2500);
    assert_eq!(r.loss_count, 0);
    assert_eq!(r.net, 2500);
}

#[test]
fn short_profit_is_sign_inverted() {
    // short policy: a -25% move is a take-profit; PnL is the inverted
    // move, +25.00
    let price = vec![10000, 7500];
    let signal = vec![5000, 0];
    let r = f_backtest(&price, &signal, true, config());
    assert_eq!(r.total_positions, 1);
    assert_eq!(r.profit_count, 1);
    assert_eq!(r.profit_total, 2500);
    assert_eq!(r.loss_count, 0);
    assert_eq!(r.net, 2500);
}

#[test]
fn capital_limits_the_number_of_entries() {
    // 1000.00 of capital at 100.00 notional funds ten entries; the
    // eleventh signal finds no capital left
    let price = vec![10000; 12];
    let signal = vec![4500; 12];
    let r = f_backtest(&price, &signal, false, config());
    assert_eq!(r.total_positions, 10);
}

#[test]
fn realizing_pos_flags_closed_positions() {
    let price = vec![10000, 13000, 8000];
    let mut pos_list = vec![Position::new(10000, 10000, 0), Position::new(13000, 10000, 1)];
    let r = realizing_pos(&price, &mut pos_list, false, 20, 10);
    // the first position takes profit at t=1 (+30%); the second stops
    // out at t=2 (8000 from 13000 is -38%)
    assert_eq!(r.total_positions, 2);
    assert_eq!(r.profit_count, 1);
    assert_eq!(r.profit_total, 3000);
    assert_eq!(r.loss_count, 1);
    assert_eq!(r.loss_total, -3847); // (8000-13000)*10000/13000, floored
    assert_eq!(r.net, 3000 - 3847);
    assert!(pos_list[0].realize);
    assert!(pos_list[1].realize);
}

#[test]
fn band_policy_opens_long_deep_below_the_band() {
    // beta = (price - upper) / (2 * lower) = (100 - 200) / 100 = -1.0,
    // below the -0.9 bound, with RSI oversold: a long opens at t=0 and
    // takes profit at t=1 (+30%)
    let price = vec![10000, 13000];
    let rsi = vec![2000, 5000];
    let bb = vec![(20000, 5000), (20000, 5000)];
    let r = c_backtest(&price, &rsi, &bb, false, config());
    assert_eq!(r.total_positions, 1);
    assert_eq!(r.profit_count, 1);
    assert_eq!(r.profit_total, 3000);
    assert_eq!(r.net, 3000);
}

#[test]
fn band_policy_ignores_calm_readings() {
    // RSI in the middle band: no entry on either side
    let price = vec![10000, 13000];
    let rsi = vec![5000, 5000];
    let bb = vec![(20000, 5000), (20000, 5000)];
    let r = c_backtest(&price, &rsi, &bb, false, config());
    assert_eq!(r.total_positions, 0);
    let r = c_backtest(&price, &rsi, &bb, true, config());
    assert_eq!(r.total_positions, 0);
}

#[test]
fn band_policy_opens_short_above_the_band() {
    // beta = (100 - 90) / 100 = 0.1, inside (0, 0.9), RSI overbought: a
    // short opens at t=0; the -25% move is a short take-profit of +25.00
    let price = vec![10000, 7500];
    let rsi = vec![8000, 5000];
    let bb = vec![(9000, 5000), (9000, 5000)];
    let r = c_backtest(&price, &rsi, &bb, true, config());
    assert_eq!(r.total_positions, 1);
    assert_eq!(r.profit_count, 1);
    assert_eq!(r.profit_total, 2500);
    assert_eq!(r.net, 2500);
}
