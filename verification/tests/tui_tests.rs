use local_ham_dashboard::tui::{
    after_poll, next_scroll_offset, poll_timeout, record_fetch, refresh_period_secs, TuiStep,
};

#[test]
fn scroll_steps_and_wraps() {
    assert_eq!(next_scroll_offset(0), 3);
    assert_eq!(next_scroll_offset(9998), 1);
    let mut s = 0;
    for _ in 0..100000 {
        s = next_scroll_offset(s);
        assert!(s < 10000);
    }
}

#[test]
fn timeout_is_what_is_left_of_the_tick() {
    assert_eq!(poll_timeout(1_000_000_000, 250_000_000), 750_000_000);
    assert_eq!(poll_timeout(1_000, 1_000), 0);
    assert_eq!(poll_timeout(1_000, 5_000), 0);
}

#[test]
fn q_quits() {
    assert_eq!(after_poll(Some('q'), 0, 10), TuiStep::Quit);
    assert_eq!(after_poll(Some('Q'), 0, 10), TuiStep::Continue { reset_tick: false });
    assert_eq!(after_poll(None, 10, 10), TuiStep::Continue { reset_tick: true });
    assert_eq!(after_poll(Some('x'), 11, 10), TuiStep::Continue { reset_tick: true });
}

#[test]
fn refresh_periods() {
    assert_eq!(refresh_period_secs(10), Some(600));
    assert_eq!(refresh_period_secs(0), Some(0));
    assert_eq!(refresh_period_secs(u64::MAX / 60 + 1), None);
}

#[test]
fn fetch_outcomes() {
    let mut slot: Option<u32> = Some(1);
    assert_eq!(record_fetch(&mut slot, Ok::<u32, String>(2)), None);
    assert_eq!(slot, Some(2));
    assert_eq!(record_fetch(&mut slot, Err::<u32, String>("down".to_string())), Some("down".to_string()));
    assert_eq!(slot, Some(2));
    let mut empty: Option<u32> = None;
    assert_eq!(record_fetch(&mut empty, Err::<u32, &str>("x")), Some("x"));
    assert_eq!(empty, None);
}

#[test]
fn scroll_after_k_ticks() {
    for start in [0usize, 5, 9999, 123456] {
        let mut s = start;
        for k in 1..30000usize {
            s = next_scroll_offset(s);
            assert_eq!(s, (start + 3 * k) % 10000);
        }
    }
}
