use ticker::aggregate::{aggregate, history_entry, running_averages, Side, TradeRecord};
use ticker::config::{
    instrument_key, instruments_for, seed_state, seed_store, split_market, stream_name, Config,
    Instrument, Pair, StartupError,
};
use ticker::engine::{
    accepts_updates, deliver, deliver_all, next, normalize, Action, Command, LoopEvent, LoopState,
    Phase, PriceUpdate,
};
use ticker::parse::parse_price;
use ticker::percent::{price_percent, rounded_hundredths, DivideByZeroError, PercentChange};
use ticker::render::{format_percent, positive_negative, render, render_cell, Tone};
use ticker::store::{PriceState, PriceStore};

const TICK: u64 = 100_000_000;

fn trade(price: u64, quantity: u64, side: Side, sequence: u64) -> TradeRecord {
    TradeRecord { price, quantity, side, sequence }
}

fn state(entry: u64, current: u64) -> PriceState {
    PriceState { entry_price: entry, current_price: current, position_size: 0 }
}

fn update(symbol: &str, price: u64) -> PriceUpdate {
    PriceUpdate { symbol: symbol.to_string(), price }
}

fn btc() -> Instrument {
    Instrument { symbol: "btc".to_string(), base: "usdt".to_string(), entry_price: None }
}

fn percent(entry: u64, exit: u64) -> f64 {
    let c = price_percent(entry, exit).unwrap();
    c.numerator as f64 / c.denominator as f64
}

#[test]
fn percent_doubling_is_one_hundred() {
    assert_eq!(percent(5, 10), 100.0);
    assert_eq!(price_percent(5, 10), Ok(PercentChange { numerator: 500, denominator: 5 }));
}

#[test]
fn percent_halving_is_minus_fifty() {
    assert_eq!(percent(100, 50), -50.0);
}

#[test]
fn percent_unchanged_is_zero() {
    for x in [1u64, 7, 20000 * TICK, u64::MAX] {
        assert_eq!(percent(x, x), 0.0);
        assert_eq!(rounded_hundredths(x, x), 0);
    }
}

#[test]
fn percent_keeps_small_moves() {
    let up = price_percent(100000, 100001).unwrap();
    assert_eq!(up, PercentChange { numerator: 100, denominator: 100000 });
    assert!(percent(100000, 100001) > 0.0);
    assert!(percent(100000, 99999) < 0.0);
}

#[test]
fn percent_rounds_to_nearest_hundredth_for_display() {
    // 1/3 of a percent up: 0.333...% shows as 0.33%
    assert_eq!(rounded_hundredths(300, 301), 33);
    // 2/3 of a percent down rounds away from zero
    assert_eq!(rounded_hundredths(300, 298), -67);
    assert_eq!(rounded_hundredths(1, u64::MAX), (u64::MAX as i128 - 1) * 10000);
    assert_eq!(rounded_hundredths(100000, 100001), 0);
}

#[test]
fn percent_of_zero_entry_fails() {
    assert_eq!(price_percent(0, 10), Err(DivideByZeroError));
    assert!(price_percent(0, 0).is_err());
}

#[test]
fn vwap_of_two_buys() {
    let trades = vec![trade(10 * TICK, 1, Side::Buy, 1), trade(12 * TICK, 3, Side::Buy, 2)];
    let a = aggregate(&trades).unwrap();
    assert!(a.sell.is_empty());
    assert_eq!(a.buy.len(), 2);
    let last = a.buy[1];
    assert_eq!(last.quantity, 4);
    assert_eq!(last.price(), Some(115 * TICK as u128 / 10));
    assert_eq!(a.buy[0].price(), Some(10 * TICK as u128));
}

#[test]
fn vwap_of_no_trades_is_empty() {
    let a = aggregate(&Vec::new()).unwrap();
    assert!(a.buy.is_empty());
    assert!(a.sell.is_empty());
}

#[test]
fn vwap_keeps_order_within_each_side() {
    let trades = vec![
        trade(10, 2, Side::Buy, 1),
        trade(50, 1, Side::Sell, 2),
        trade(16, 1, Side::Buy, 3),
        trade(20, 3, Side::Sell, 4),
        trade(13, 3, Side::Buy, 5),
    ];
    let buy = running_averages(&trades, Side::Buy).unwrap();
    let sell = running_averages(&trades, Side::Sell).unwrap();
    let b: Vec<(u128, u128)> = buy.iter().map(|r| (r.quantity, r.notional)).collect();
    let s: Vec<(u128, u128)> = sell.iter().map(|r| (r.quantity, r.notional)).collect();
    assert_eq!(b, vec![(2, 20), (3, 36), (6, 75)]);
    assert_eq!(s, vec![(1, 50), (4, 110)]);
    assert_eq!(sell[1].price(), Some(27));
}

#[test]
fn vwap_of_zero_quantity_has_no_price() {
    let r = running_averages(&vec![trade(10, 0, Side::Sell, 1)], Side::Sell).unwrap();
    assert_eq!(r[0].price(), None);
}

#[test]
fn vwap_overflow_is_reported() {
    let big = trade(u64::MAX, u64::MAX, Side::Buy, 1);
    let trades = vec![big, big, big];
    assert!(running_averages(&trades, Side::Buy).is_none());
    assert!(running_averages(&trades, Side::Sell).unwrap().is_empty());
    assert!(aggregate(&trades).is_none());
}

#[test]
fn update_of_unseeded_symbol_is_rejected() {
    let mut store = PriceStore::new();
    store.seed("BTCUSDT".to_string(), state(5, 5)).unwrap();
    let err = store.apply_update(&"ETHUSDT".to_string(), 100).unwrap_err();
    assert_eq!(err.symbol, "ETHUSDT");
    assert_eq!(store.len(), 1);
    assert_eq!(store.get(&"BTCUSDT".to_string()), Some(state(5, 5)));
    assert_eq!(store.get(&"ETHUSDT".to_string()), None);
}

#[test]
fn seeding_twice_is_rejected() {
    let mut store = PriceStore::new();
    store.seed("BTCUSDT".to_string(), state(5, 5)).unwrap();
    let err = store.seed("BTCUSDT".to_string(), state(9, 9)).unwrap_err();
    assert_eq!(err.symbol, "BTCUSDT");
    assert_eq!(store.get(&"BTCUSDT".to_string()), Some(state(5, 5)));
}

#[test]
fn updates_change_only_current_price() {
    let mut store = PriceStore::new();
    store.seed("AAA".to_string(), PriceState { entry_price: 7, current_price: 8, position_size: 3 }).unwrap();
    store.seed("BBB".to_string(), state(4, 4)).unwrap();
    let dropped = deliver_all(
        &mut store,
        &vec![update("AAA", 1), update("CCC", 2), update("BBB", 9), update("AAA", 6)],
    );
    assert_eq!(dropped, 1);
    assert_eq!(
        store.get(&"AAA".to_string()),
        Some(PriceState { entry_price: 7, current_price: 6, position_size: 3 })
    );
    assert_eq!(store.get(&"BBB".to_string()), Some(state(4, 9)));
    assert_eq!(store.len(), 2);
}

#[test]
fn interleaved_listeners_end_at_their_last_price() {
    let symbols = ["AAA", "BBB", "CCC"];
    let mut store = PriceStore::new();
    for s in symbols {
        store.seed(s.to_string(), state(1, 1)).unwrap();
    }
    // each listener emits 1..=n for its own symbol; the merge interleaves them
    let mut merged = Vec::new();
    for step in 1..=5u64 {
        for (i, s) in symbols.iter().enumerate() {
            if step <= 3 + i as u64 {
                merged.push(update(s, step * 10 + i as u64));
            }
        }
    }
    deliver_all(&mut store, &merged);
    assert_eq!(store.get(&"AAA".to_string()).unwrap().current_price, 30);
    assert_eq!(store.get(&"BBB".to_string()).unwrap().current_price, 41);
    assert_eq!(store.get(&"CCC".to_string()).unwrap().current_price, 52);
}

#[test]
fn end_to_end_scenario() {
    let inst = Instrument {
        symbol: "BTC".to_string(),
        base: "USDT".to_string(),
        entry_price: Some(20000 * TICK),
    };
    let mut store = seed_store(&vec![inst], &vec![None], &vec![Some(20000 * TICK)]).unwrap();
    assert_eq!(deliver(&mut store, &update("BTCUSDT", 21000 * TICK)), Action::Render);
    assert_eq!(
        deliver(&mut store, &update("ETHUSDT", 100 * TICK)),
        Action::LogUnknown("ETHUSDT".to_string())
    );
    let st = store.get(&"BTCUSDT".to_string()).unwrap();
    assert_eq!(st.current_price, 21000 * TICK);
    assert_eq!(st.entry_price, 20000 * TICK);
    let cells = render(&store.snapshot()).unwrap();
    assert_eq!(cells.len(), 1);
    assert_eq!(cells[0].symbol, "BTCUSDT");
    assert_eq!(cells[0].percent, "+5.00%");
    assert_eq!(cells[0].tone, Tone::Positive);
}

#[test]
fn startup_without_snapshot_price_fails() {
    let r = seed_store(&vec![btc()], &vec![None], &vec![None]);
    assert_eq!(r.err(), Some(StartupError::SeedPriceUnavailable("BTCUSDT".to_string())));
}

#[test]
fn startup_with_zero_entry_fails() {
    let mut inst = btc();
    inst.entry_price = Some(0);
    let r = seed_store(&vec![inst], &vec![Some(9)], &vec![Some(5)]);
    assert_eq!(r.err(), Some(StartupError::SeedPriceUnavailable("BTCUSDT".to_string())));
}

#[test]
fn startup_with_duplicate_key_fails() {
    let other = Instrument { symbol: "BTC".to_string(), base: "USDT".to_string(), entry_price: None };
    let r = seed_store(&vec![btc(), other], &vec![None, None], &vec![Some(5), Some(6)]);
    assert_eq!(r.err(), Some(StartupError::DuplicateSeed("BTCUSDT".to_string())));
}

#[test]
fn startup_entry_defaults_to_snapshot() {
    let store = seed_store(&vec![btc()], &vec![None], &vec![Some(42)]).unwrap();
    assert_eq!(store.get(&"BTCUSDT".to_string()), Some(state(42, 42)));
    assert_eq!(seed_state(Some(7), Some(9), Some(42)), Some(state(7, 42)));
    assert_eq!(seed_state(None, Some(9), Some(42)), Some(state(9, 42)));
    assert_eq!(seed_state(None, Some(0), Some(42)), None);
    assert_eq!(seed_state(Some(7), Some(9), None), None);
}

#[test]
fn keys_and_stream_names() {
    let inst = Instrument { symbol: "Eth".to_string(), base: "btc".to_string(), entry_price: None };
    assert_eq!(instrument_key(&inst), "ETHBTC");
    assert_eq!(stream_name(&inst), "ethbtc@aggTrade");
    let accented = Instrument { symbol: "é".to_string(), base: "x".to_string(), entry_price: None };
    assert_eq!(instrument_key(&accented), "ÉX");
}

#[test]
fn market_names_are_split() {
    let pair = Pair { base: "USDT".to_string(), entry_price: Some(3) };
    let a = split_market(&"BTC_BUSD".to_string(), &pair);
    assert_eq!((a.symbol.as_str(), a.base.as_str(), a.entry_price), ("BTC", "BUSD", Some(3)));
    let b = split_market(&"ETH".to_string(), &pair);
    assert_eq!((b.symbol.as_str(), b.base.as_str()), ("ETH", "USDT"));
    let c = split_market(&"A_B_C".to_string(), &pair);
    assert_eq!((c.symbol.as_str(), c.base.as_str()), ("A", "B"));
}

#[test]
fn instruments_come_from_the_exchange_section() {
    let pair = Pair { base: "USDT".to_string(), entry_price: None };
    let config = Config {
        exchange: vec![
            ("kraken".to_string(), vec![("XRP".to_string(), pair.clone())]),
            ("binance".to_string(), vec![("BTC".to_string(), pair.clone()), ("ETH_BTC".to_string(), pair)]),
        ],
    };
    let v = instruments_for(&config, &"binance".to_string()).unwrap();
    let names: Vec<(String, String)> = v.iter().map(|i| (i.symbol.clone(), i.base.clone())).collect();
    assert_eq!(
        names,
        vec![("BTC".to_string(), "USDT".to_string()), ("ETH".to_string(), "BTC".to_string())]
    );
    assert!(instruments_for(&config, &"bitmex".to_string()).is_none());
    let twice = Config {
        exchange: vec![
            ("binance".to_string(), vec![("XRP".to_string(), Pair { base: "EUR".to_string(), entry_price: None })]),
            ("binance".to_string(), vec![]),
        ],
    };
    assert_eq!(instruments_for(&twice, &"binance".to_string()).unwrap().len(), 1);
}

#[test]
fn prices_parse_as_ticks() {
    assert_eq!(parse_price("20000.12"), Ok(2_000_012_000_000));
    assert_eq!(parse_price("0.00000001"), Ok(1));
    assert_eq!(parse_price("5."), Ok(5 * TICK));
    assert_eq!(parse_price("184467440737.09551615"), Ok(u64::MAX));
    assert_eq!(parse_price("1.000000000"), Ok(TICK));
    assert_eq!(parse_price("2.1234567800000"), Ok(212_345_678));
}

#[test]
fn malformed_prices_are_rejected() {
    for s in ["", ".5", "abc", "1.2.3", "1.123456789", "1.000000001", "1.0000000a", "-1", "184467440737.09551616", "1e5"] {
        assert!(parse_price(s).is_err(), "{}", s);
    }
}

#[test]
fn trade_messages_become_updates() {
    let u = normalize(&"BTCUSDT".to_string(), "21000.5").unwrap();
    assert_eq!(u.symbol, "BTCUSDT");
    assert_eq!(u.price, 2_100_050_000_000);
    assert!(normalize(&"BTCUSDT".to_string(), "n/a").is_err());
}

#[test]
fn percent_text_and_tone() {
    assert_eq!(format_percent(500), "+5.00%");
    assert_eq!(format_percent(-25), "-0.25%");
    assert_eq!(format_percent(0), "+0.00%");
    assert_eq!(format_percent(123456), "+1234.56%");
    let change = |n: i128, d: u64| PercentChange { numerator: n, denominator: d };
    assert_eq!(positive_negative(change(2, 100), "x".to_string()).tone, Tone::Positive);
    assert_eq!(positive_negative(change(1, 100), "x".to_string()).tone, Tone::Neutral);
    assert_eq!(positive_negative(change(-1, 100), "x".to_string()).tone, Tone::Neutral);
    assert_eq!(positive_negative(change(-2, 100), "x".to_string()).tone, Tone::Negative);
    assert_eq!(positive_negative(change(-2, 100), "x".to_string()).text, "x");
}

#[test]
fn tone_follows_the_exact_change() {
    // a 0.012% rise shows as +0.01% but is a gain
    let mut store = PriceStore::new();
    store.seed("AAA".to_string(), state(100000, 100012)).unwrap();
    store.seed("BBB".to_string(), state(100000, 99988)).unwrap();
    store.seed("CCC".to_string(), state(100000, 100010)).unwrap();
    let cells = render(&store.snapshot()).unwrap();
    assert_eq!((cells[0].percent.as_str(), cells[0].tone), ("+0.01%", Tone::Positive));
    assert_eq!((cells[1].percent.as_str(), cells[1].tone), ("-0.01%", Tone::Negative));
    assert_eq!((cells[2].percent.as_str(), cells[2].tone), ("+0.01%", Tone::Neutral));
}

#[test]
fn render_refuses_zero_entry() {
    let mut store = PriceStore::new();
    store.seed("AAA".to_string(), state(0, 5)).unwrap();
    assert!(render(&store.snapshot()).is_err());
    let snap = store.snapshot();
    assert!(render_cell(&snap[0]).is_err());
}

#[test]
fn loop_lifecycle() {
    let s = LoopState { phase: Phase::Starting, open_listeners: 0 };
    let (s, c) = next(s, LoopEvent::Started(2));
    assert_eq!((s.phase, s.open_listeners, c), (Phase::Listening, 2, Command::Nothing));
    assert!(accepts_updates(s.phase));
    let (s, c) = next(s, LoopEvent::ListenerClosed);
    assert_eq!((s.phase, s.open_listeners, c), (Phase::Listening, 1, Command::ReportDisconnect));
    let (s, c) = next(s, LoopEvent::Cancel);
    assert_eq!((s.phase, c), (Phase::Draining, Command::CloseListeners));
    assert!(!accepts_updates(s.phase));
    let (s, c) = next(s, LoopEvent::ListenerClosed);
    assert_eq!((s.phase, s.open_listeners, c), (Phase::Stopped, 0, Command::Nothing));
    let (s2, c) = next(s, LoopEvent::Started(4));
    assert_eq!((s2, c), (s, Command::Nothing));
}

#[test]
fn loop_aborts_or_times_out() {
    let s = LoopState { phase: Phase::Starting, open_listeners: 0 };
    assert_eq!(next(s, LoopEvent::StartFailed).1, Command::Abort);
    let d = LoopState { phase: Phase::Draining, open_listeners: 3 };
    let (s, c) = next(d, LoopEvent::Timeout);
    assert_eq!((s.phase, c), (Phase::Stopped, Command::ForceTerminate));
}

#[test]
fn history_seeds_entry_from_buy_average() {
    let trades = vec![
        trade(10 * TICK, 1, Side::Buy, 1),
        trade(99 * TICK, 5, Side::Sell, 2),
        trade(12 * TICK, 3, Side::Buy, 3),
    ];
    assert_eq!(history_entry(&trades), Some(115 * TICK / 10));
    assert_eq!(history_entry(&vec![trade(99, 5, Side::Sell, 1)]), None);
    assert_eq!(history_entry(&Vec::new()), None);
    assert_eq!(history_entry(&vec![trade(7, 0, Side::Buy, 1)]), None);
    let inst = btc();
    let store = seed_store(&vec![inst], &vec![history_entry(&trades)], &vec![Some(13 * TICK)]).unwrap();
    assert_eq!(store.get(&"BTCUSDT".to_string()), Some(state(115 * TICK / 10, 13 * TICK)));
}
