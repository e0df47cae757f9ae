use tx_gen::meter::{TpsMeter, TpsReport, WINDOW_SECS};

#[test]
fn meter_starts_empty() {
    let mut meter = TpsMeter::new();
    assert_eq!(meter.total(), 0);
    assert_eq!(meter.tick(), TpsReport { per_sec: 0, window_sum: 0, window_len: 1, total: 0 });
}

#[test]
fn second_is_counted_and_begun_anew() {
    let mut meter = TpsMeter::new();
    meter.record(3);
    meter.record(4);
    assert_eq!(meter.total(), 7);
    assert_eq!(meter.tick(), TpsReport { per_sec: 7, window_sum: 7, window_len: 1, total: 7 });
    meter.record(1);
    assert_eq!(meter.tick(), TpsReport { per_sec: 1, window_sum: 8, window_len: 2, total: 8 });
    assert_eq!(meter.tick(), TpsReport { per_sec: 0, window_sum: 8, window_len: 3, total: 8 });
}

#[test]
fn window_holds_the_last_ten_seconds() {
    let mut meter = TpsMeter::new();
    assert_eq!(WINDOW_SECS, 10);
    for second in 1..=10u32 {
        meter.record(second);
        let report = meter.tick();
        assert_eq!(report.window_len, second as usize);
    }
    meter.record(11);
    assert_eq!(meter.tick(), TpsReport { per_sec: 11, window_sum: 65, window_len: 10, total: 66 });
    meter.record(12);
    assert_eq!(meter.tick(), TpsReport { per_sec: 12, window_sum: 75, window_len: 10, total: 78 });
}
