use bee::alert::{AlertState, Gate, SUPPRESSION_MINUTES};
use bee::clock::{Timestamp, MAX_SECONDS};
use chrono::{DateTime, TimeDelta, Utc};

fn at(secs: i64, nanos: u32) -> Timestamp {
    Timestamp::new(secs, nanos).unwrap()
}

const T: i64 = 1_700_000_000;

#[test]
fn timestamps_cover_the_epoch_to_the_year_9999() {
    assert!(Timestamp::new(0, 0).is_some());
    assert!(Timestamp::new(MAX_SECONDS, 999_999_999).is_some());
    assert!(Timestamp::new(-1, 0).is_none());
    assert!(Timestamp::new(MAX_SECONDS + 1, 0).is_none());
    assert!(Timestamp::new(0, 1_000_000_000).is_none());
    assert!(Timestamp::new(59, 1_500_000_000).is_none());
    let t = at(T, 123);
    assert_eq!(t.seconds(), T);
    assert_eq!(t.subsec_nanos(), 123);
    assert_eq!(MAX_SECONDS, "9999-12-31T23:59:59Z".parse::<DateTime<Utc>>().unwrap().timestamp());
}

#[test]
fn timestamps_are_those_of_the_calendar_library() {
    let now = Utc::now();
    let t = at(now.timestamp(), now.timestamp_subsec_nanos());
    assert_eq!(DateTime::from_timestamp(t.seconds(), t.subsec_nanos()).unwrap(), now);
}

#[test]
fn minutes_are_whole_and_rounded_towards_zero() {
    assert_eq!(at(T, 0).minutes_since(&at(T, 0)), 0);
    assert_eq!(at(T + 59, 999_999_999).minutes_since(&at(T, 0)), 0);
    assert_eq!(at(T + 60, 0).minutes_since(&at(T, 0)), 1);
    assert_eq!(at(T + 60, 0).minutes_since(&at(T, 1)), 0);
    assert_eq!(at(T + 3600, 0).minutes_since(&at(T, 0)), 60);
    assert_eq!(at(T + 3599, 999_999_999).minutes_since(&at(T, 0)), 59);
    assert_eq!(at(T + 3600, 5).minutes_since(&at(T, 6)), 59);
    assert_eq!(at(T, 0).minutes_since(&at(T + 59, 0)), 0);
    assert_eq!(at(T, 0).minutes_since(&at(T + 61, 0)), -1);
    assert_eq!(at(T, 1).minutes_since(&at(T + 120, 0)), -1);
    assert_eq!(at(T, 0).minutes_since(&at(T + 120, 0)), -2);
    assert_eq!(at(MAX_SECONDS, 999_999_999).minutes_since(&at(0, 0)), MAX_SECONDS / 60);
    assert_eq!(at(0, 0).minutes_since(&at(MAX_SECONDS, 999_999_999)), -(MAX_SECONDS / 60));
}

#[test]
fn minutes_agree_with_the_formula_on_scattered_points() {
    let mut state: u64 = 0x2545_F491_4F6C_DD1D;
    let mut next = move || {
        state ^= state << 13;
        state ^= state >> 7;
        state ^= state << 17;
        state
    };
    for _ in 0..20_000 {
        let a = at((next() % (MAX_SECONDS as u64 + 1)) as i64, (next() % 1_000_000_000) as u32);
        let near = next() % 2 == 0;
        let b = if near {
            let secs = (a.seconds() + (next() % 8000) as i64 - 4000).clamp(0, MAX_SECONDS);
            at(secs, (next() % 1_000_000_000) as u32)
        } else {
            at((next() % (MAX_SECONDS as u64 + 1)) as i64, (next() % 1_000_000_000) as u32)
        };
        let d = (a.seconds() as i128 * 1_000_000_000 + a.subsec_nanos() as i128)
            - (b.seconds() as i128 * 1_000_000_000 + b.subsec_nanos() as i128);
        assert_eq!(a.minutes_since(&b) as i128, d / 60_000_000_000);
    }
}

#[test]
fn text_is_that_of_the_calendar_library() {
    assert_eq!(at(0, 0).to_text(), "1970-01-01 00:00:00 UTC");
    assert_eq!(at(1_431_648_000, 0).to_text(), "2015-05-15 00:00:00 UTC");
    assert_eq!(at(947_638_923, 4_000_000).to_text(), "2000-01-12 01:02:03.004 UTC");
    assert_eq!(at(947_638_923, 4_000).to_text(), "2000-01-12 01:02:03.000004 UTC");
    assert_eq!(at(947_638_923, 4).to_text(), "2000-01-12 01:02:03.000000004 UTC");
    assert_eq!(at(MAX_SECONDS, 0).to_text(), "9999-12-31 23:59:59 UTC");
    let now = Utc::now();
    assert_eq!(at(now.timestamp(), now.timestamp_subsec_nanos()).to_text(), format!("{}", now));
}

#[test]
fn first_breach_is_authorized() {
    let state = AlertState::new();
    assert_eq!(state.last_alert_at(), None);
    assert_eq!(state.on_breach(at(0, 0)), Gate::Authorized);
    assert_eq!(state.on_breach(at(T, 5)), Gate::Authorized);
}

#[test]
fn breach_within_the_hour_is_suppressed() {
    assert_eq!(SUPPRESSION_MINUTES, 60);
    let state = AlertState::with_last_alert(at(T, 0));
    assert_eq!(state.on_breach(at(T, 0)), Gate::Suppressed);
    assert_eq!(state.on_breach(at(T + 59 * 60, 0)), Gate::Suppressed);
    assert_eq!(state.on_breach(at(T + 59 * 60 + 59, 999_999_999)), Gate::Suppressed);
    assert_eq!(state.on_breach(at(T - 7200, 0)), Gate::Suppressed);
}

#[test]
fn breach_after_the_hour_is_authorized() {
    let state = AlertState::with_last_alert(at(T, 500));
    assert_eq!(state.on_breach(at(T + 60 * 60, 499)), Gate::Suppressed);
    assert_eq!(state.on_breach(at(T + 60 * 60, 500)), Gate::Authorized);
    assert_eq!(state.on_breach(at(T + 61 * 60, 0)), Gate::Authorized);
    assert_eq!(state.on_breach(at(T + 86_400, 0)), Gate::Authorized);
}

#[test]
fn breach_answers_agree_with_the_calendar_library() {
    let last = DateTime::from_timestamp(T, 250).unwrap();
    let state = AlertState::with_last_alert(at(T, 250));
    for millis in [0i64, 1, 3_540_000, 3_599_999, 3_600_000, 3_600_001, 7_200_000] {
        let now = last + TimeDelta::try_milliseconds(millis).unwrap();
        let expected = if now.signed_duration_since(last).num_minutes() < 60 {
            Gate::Suppressed
        } else {
            Gate::Authorized
        };
        assert_eq!(state.on_breach(at(now.timestamp(), now.timestamp_subsec_nanos())), expected);
    }
}

#[test]
fn failed_delivery_leaves_the_state() {
    let mut fresh = AlertState::new();
    fresh.on_delivery(at(T, 0), false);
    assert_eq!(fresh, AlertState::new());
    assert_eq!(fresh.on_breach(at(T, 1)), Gate::Authorized);

    let mut old = AlertState::with_last_alert(at(T, 0));
    old.on_delivery(at(T + 4000, 0), false);
    assert_eq!(old.last_alert_at(), Some(at(T, 0)));
    assert_eq!(old.on_breach(at(T + 4000, 0)), Gate::Authorized);
    assert_eq!(old.on_breach(at(T + 4001, 0)), Gate::Authorized);
}

#[test]
fn successful_delivery_records_the_time_of_the_breach() {
    let mut state = AlertState::new();
    state.on_delivery(at(T, 7), true);
    assert_eq!(state.last_alert_at(), Some(at(T, 7)));
    assert_eq!(state.on_breach(at(T + 10, 0)), Gate::Suppressed);
    assert_eq!(state.on_breach(at(T + 3600, 6)), Gate::Suppressed);
    assert_eq!(state.on_breach(at(T + 3600, 7)), Gate::Authorized);
    state.on_delivery(at(T + 3600, 7), true);
    assert_eq!(state.last_alert_at(), Some(at(T + 3600, 7)));
}

#[test]
fn delivery_that_was_not_authorized_is_not_recorded() {
    let mut state = AlertState::with_last_alert(at(T, 0));
    state.on_delivery(at(T + 60, 0), true);
    assert_eq!(state.last_alert_at(), Some(at(T, 0)));
    state.on_delivery(at(T - 86_400, 0), true);
    assert_eq!(state.last_alert_at(), Some(at(T, 0)));
}
