use hockeyscraper::timing::{Timings, FASTEST_START};

#[test]
fn timings_start_empty() {
    let t = Timings::new();
    assert_eq!((t.slowest, t.fastest, t.total), (0, FASTEST_START, 0));
}

#[test]
fn timings_keep_slowest_fastest_and_total() {
    let mut t = Timings::new();
    for e in [30u128, 10, 50, 20] {
        t.record(e);
    }
    assert_eq!((t.slowest, t.fastest, t.total), (50, 10, 110));
}
