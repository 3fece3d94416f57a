use jybot_rs::backtest::{
    candles_url, iso, reversed, time_order, times_in_order, windows, Dir, HistoryPager, SignalResult,
    Tally,
};

#[test]
fn iso_epoch_and_known_times() {
    assert_eq!(iso(0), "1970-01-01T00:00:00Z");
    assert_eq!(iso(1725029869), "2024-08-30T14:57:49Z");
    assert_eq!(iso(951782400), "2000-02-29T00:00:00Z");
    assert_eq!(iso(946684799), "1999-12-31T23:59:59Z");
    assert_eq!(iso(253402300799), "9999-12-31T23:59:59Z");
}

#[test]
fn iso_negative_times_as_computed() {
    assert_eq!(iso(-1), "1970-01-01T00:00:-1Z");
    assert_eq!(iso(-86400), "1970-01-00T00:00:00Z");
    assert_eq!(iso(-172800 - 3661), "1970-01--1T-1:-1:-1Z");
}

#[test]
fn candles_request() {
    assert_eq!(
        candles_url(0, 60),
        "https://api.exchange.coinbase.com/products/BTC-USD/candles?granularity=60&start=1970-01-01T00:00:00Z&end=1970-01-01T00:01:00Z"
    );
}

#[test]
fn pager_walks_back_in_pages() {
    let mut p = HistoryPager::new(100_000 + 59, 1);
    assert_eq!(p.cursor, 100_020);
    assert_eq!(p.start_target, 100_020 - 86_400);
    let mut pages = Vec::new();
    while let Some(r) = p.next_range() {
        pages.push(r);
        p.advance();
    }
    assert_eq!(pages.len(), 5);
    assert_eq!(pages[0], (82_020, 100_020));
    assert_eq!(pages[4], (13_620, 28_020));
    for w in pages.windows(2) {
        assert_eq!(w[1].1, w[0].0);
    }
}

#[test]
fn time_order_sorts_and_keeps_first() {
    let t = vec![300, 0, 600, 0, 300];
    let o = time_order(&t);
    assert_eq!(o, vec![1, 0, 2]);
    assert_eq!(times_in_order(&t, &o), vec![0, 300, 600]);
}

#[test]
fn windows_on_boundaries() {
    let t: Vec<i64> = (0..12).map(|k| k * 60).collect();
    let w = windows(&t, 2);
    assert_eq!(w, vec![(0, 2, 5), (5, 7, 10)]);
    let w0 = windows(&t, 0);
    assert_eq!(w0, vec![(0, 0, 5), (5, 5, 10)]);
}

#[test]
fn windows_need_both_candles() {
    let t: Vec<i64> = vec![0, 60, 300, 600];
    assert_eq!(windows(&t, 2), Vec::<(usize, usize, usize)>::new());
    assert_eq!(windows(&t, 1), vec![(0, 1, 2)]);
}

#[test]
fn law_reversed_twice() {
    for d in [None, Some(Dir::Up), Some(Dir::Down)] {
        assert!(reversed(reversed(d)) == d);
    }
    assert!(reversed(Some(Dir::Up)) == Some(Dir::Down));
}

#[test]
fn signal_record_counts() {
    let mut r = SignalResult::new("m");
    r.record(Some(Dir::Up), Dir::Up);
    r.record(Some(Dir::Up), Dir::Down);
    r.record(None, Dir::Down);
    assert_eq!((r.trades, r.correct), (2, 1));
    assert_eq!(r.name, "m");
}

#[test]
fn law_always_up_matches_up_share() {
    let names = vec!["always-up".to_string(), "never".to_string()];
    let mut t = Tally::new(&names);
    for truth in [Dir::Up, Dir::Down, Dir::Up, Dir::Up] {
        t.record_window(truth, &vec![Some(Dir::Up), None]);
    }
    assert_eq!(t.windows, 4);
    assert_eq!(t.up_windows, 3);
    assert_eq!(t.results[0].trades, t.windows);
    assert_eq!(t.results[0].correct, t.up_windows);
    assert_eq!(t.results[1].trades, 0);
}

#[test]
fn pager_retries_after_rate_limit() {
    let mut p = HistoryPager::new(36_000, 1);
    let c = p.cursor;
    assert!(p.answered(429));
    assert_eq!(p.cursor, c);
    assert!(!p.answered(200));
    assert_eq!(p.cursor, c - 18_000);
}

#[test]
fn law_whole_run_relations() {
    let names = vec!["momentum".to_string(), "reversal".to_string(), "always-up".to_string()];
    let mut t = Tally::new(&names);
    let calls = [Some(Dir::Up), None, Some(Dir::Down), Some(Dir::Down), Some(Dir::Up)];
    let truths = [Dir::Up, Dir::Down, Dir::Down, Dir::Up, Dir::Down];
    let rows: Vec<(Dir, Vec<Option<Dir>>)> = calls
        .iter()
        .zip(truths.iter())
        .map(|(c, d)| (*d, vec![*c, reversed(*c), Some(Dir::Up)]))
        .collect();
    t.record_all(&rows);
    assert_eq!(t.windows, 5);
    assert_eq!(t.up_windows, 2);
    assert_eq!((t.results[2].trades, t.results[2].correct), (5, 2));
    assert_eq!(t.results[0].trades, t.results[1].trades);
    assert_eq!(t.results[0].correct + t.results[1].correct, t.results[0].trades);
}

#[test]
fn record_all_counts_each_signal() {
    let names = vec!["momentum".to_string(), "ma-cross".to_string()];
    let mut t = Tally::new(&names);
    let rows: Vec<(Dir, Vec<Option<Dir>>)> = vec![
        (Dir::Up, vec![Some(Dir::Up), None]),
        (Dir::Down, vec![None, Some(Dir::Up)]),
        (Dir::Down, vec![Some(Dir::Down), Some(Dir::Down)]),
        (Dir::Up, vec![Some(Dir::Down), None]),
        (Dir::Down, vec![Some(Dir::Up), None]),
    ];
    t.record_all(&rows);
    assert_eq!(t.windows, 5);
    assert_eq!(t.up_windows, 2);
    assert_eq!((t.results[0].trades, t.results[0].correct), (4, 2));
    assert_eq!((t.results[1].trades, t.results[1].correct), (2, 1));
    assert_eq!(t.results[1].name, "ma-cross");
}
