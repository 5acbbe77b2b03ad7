use countdown_core::clock::{remaining_seconds, target_epoch_seconds};
use countdown_core::config::{default_config, load_position, save_position, Config};
use countdown_core::countdown::{countdown_time, days_remaining, header_text};
use countdown_core::json::{config_to_json, load_config, parse_config};
use countdown_core::milestone::{
    evaluate, is_notificated, notification_text, save_notification, MilestoneCache,
};
use countdown_core::scheduler::{show_window, tick, TickScheduler, TICK_INTERVAL_MS};
use countdown_core::text::int_to_string;

fn chars(s: &str) -> Vec<char> {
    s.chars().collect()
}

#[test]
fn countdown_zero_seconds() {
    assert_eq!(countdown_time(0), "00:00:00");
}

#[test]
fn countdown_two_days_and_change() {
    assert_eq!(countdown_time(86400 * 2 + 3661), "2 días, 01:01:01");
}

#[test]
fn countdown_negative_is_terminal() {
    assert_eq!(countdown_time(-1), "Esperanza en la Ciudad");
    assert_eq!(countdown_time(i64::MIN), "Esperanza en la Ciudad");
}

#[test]
fn countdown_more_values() {
    assert_eq!(countdown_time(59), "00:00:59");
    assert_eq!(countdown_time(60), "00:01:00");
    assert_eq!(countdown_time(86399), "23:59:59");
    assert_eq!(countdown_time(86400), "1 días, 00:00:00");
    assert_eq!(countdown_time(30 * 86400), "30 días, 00:00:00");
}

#[test]
fn header_only_after_target() {
    assert_eq!(header_text(-1).as_deref(), Some("¡Feliz Aniversario!"));
    assert_eq!(header_text(0), None);
    assert_eq!(header_text(5), None);
}

#[test]
fn days_remaining_truncates() {
    assert_eq!(days_remaining(0), 0);
    assert_eq!(days_remaining(86399), 0);
    assert_eq!(days_remaining(86400), 1);
    assert_eq!(days_remaining(30 * 86400 + 5), 30);
}

#[test]
fn evaluate_ignores_non_milestones() {
    let mut config = default_config();
    let mut cache = MilestoneCache::new();
    for days in [1i64, 2, 6, 8, 29, 31, 100, -1, -30] {
        let r = evaluate(&mut config, &mut cache, days);
        assert!(r.is_none());
        assert!(config.notified.is_empty());
    }
}

#[test]
fn evaluate_fires_each_milestone_exactly_once() {
    let mut config = default_config();
    let mut cache = MilestoneCache::new();
    for days in [30i64, 7, 0] {
        let first = evaluate(&mut config, &mut cache, days);
        assert!(first.is_some());
        let second = evaluate(&mut config, &mut cache, days);
        assert!(second.is_none());
    }
    assert_eq!(config.notified, vec![30, 7, 0]);
}

#[test]
fn notification_texts_match_table() {
    assert_eq!(
        notification_text(30).as_deref(),
        Some("¡Queda un mes para el gran aniversario!")
    );
    assert_eq!(
        notification_text(7).as_deref(),
        Some("¡Queda solo 1 semana para celebrar los 100 años!")
    );
    assert_eq!(
        notification_text(0).as_deref(),
        Some("¡Mañana es el gran aniversario de los 100 años!")
    );
    assert_eq!(notification_text(5), None);
    assert_eq!(notification_text(100), None);
}

#[test]
fn config_round_trip() {
    let config = Config {
        notified: vec![30, 7],
        x: 10,
        y: -20,
    };
    let text = config_to_json(&config);
    assert_eq!(
        text,
        "{\"notification\":{\"notified\":[30,7]},\"position\":{\"x\":10,\"y\":-20}}"
    );
    let reloaded = parse_config(&chars(&text)).expect("round trip must parse");
    assert_eq!(reloaded.notified, vec![30, 7]);
    assert_eq!(reloaded.x, 10);
    assert_eq!(reloaded.y, -20);
}

#[test]
fn config_round_trip_empty() {
    let config = default_config();
    let text = config_to_json(&config);
    let reloaded = parse_config(&chars(&text)).expect("round trip must parse");
    assert!(reloaded.notified.is_empty());
    assert_eq!((reloaded.x, reloaded.y), (0, 0));
}

#[test]
fn config_round_trip_extreme_values() {
    let config = Config {
        notified: vec![i64::MIN, i64::MAX, 0],
        x: i32::MIN,
        y: i32::MAX,
    };
    let text = config_to_json(&config);
    let reloaded = parse_config(&chars(&text)).expect("round trip must parse");
    assert_eq!(reloaded.notified, vec![i64::MIN, i64::MAX, 0]);
    assert_eq!((reloaded.x, reloaded.y), (i32::MIN, i32::MAX));
}

#[test]
fn parse_accepts_any_key_order() {
    let text = "{\"position\":{\"y\":5,\"x\":4},\"notification\":{\"notified\":[0]}}";
    let config = parse_config(&chars(text)).expect("reordered keys must parse");
    assert_eq!(config.notified, vec![0]);
    assert_eq!((config.x, config.y), (4, 5));
}

#[test]
fn parse_accepts_whitespace() {
    let text = " {\n  \"notification\": { \"notified\": [ 30 , 7 ] },\r\n  \"position\": { \"x\": 1, \"y\": 2 }\n}\n";
    let config = parse_config(&chars(text)).expect("whitespace must be tolerated");
    assert_eq!(config.notified, vec![30, 7]);
    assert_eq!((config.x, config.y), (1, 2));
}

#[test]
fn malformed_text_loads_default() {
    for text in [
        "",
        "not json",
        "{}",
        "{\"notification\":{\"notified\":[30,7]}}",
        "{\"notification\":{\"notified\":[30,]},\"position\":{\"x\":0,\"y\":0}}",
        "{\"notification\":{\"notified\":[9223372036854775808]},\"position\":{\"x\":0,\"y\":0}}",
        "{\"notification\":{\"notified\":[]},\"position\":{\"x\":2147483648,\"y\":0}}",
        "{\"notification\":{\"notified\":[1]},\"position\":{\"x\":0,\"y\":0}} trailing",
    ] {
        let config = load_config(&chars(text));
        assert!(config.notified.is_empty(), "default expected for {:?}", text);
        assert_eq!((config.x, config.y), (0, 0));
    }
}

#[test]
fn sentinel_position_takes_screen_default() {
    let text = "{\"notification\":{\"notified\":[30,7]},\"position\":{\"x\":0,\"y\":0}}";
    let config = load_config(&chars(text));
    assert_eq!(config.notified, vec![30, 7]);
    let pos = load_position(&config, 1920, 1080);
    assert_eq!(pos, (1920 - 285, 1080 - 150));
    assert_ne!(pos, (0, 0));
}

#[test]
fn stored_position_is_kept() {
    let mut config = default_config();
    save_position(&mut config, (100, 200));
    assert_eq!(load_position(&config, 1920, 1080), (100, 200));
    assert!(config.notified.is_empty());
}

#[test]
fn position_update_keeps_milestones() {
    let mut config = Config {
        notified: vec![30],
        x: 0,
        y: 0,
    };
    save_position(&mut config, (7, 8));
    assert_eq!(config.notified, vec![30]);
    assert_eq!((config.x, config.y), (7, 8));
}

#[test]
fn fired_milestone_survives_restart() {
    let mut config = default_config();
    let mut cache = MilestoneCache::new();
    let fired = evaluate(&mut config, &mut cache, 30);
    assert!(fired.is_some());
    let stored = config_to_json(&config);

    // A new process loads the stored text and seeds a fresh cache from it.
    let reloaded = load_config(&chars(&stored));
    let mut cache2 = MilestoneCache::from_config(&reloaded);
    assert!(is_notificated(&cache2, 30));
    let mut config2 = reloaded;
    let again = evaluate(&mut config2, &mut cache2, 30);
    assert!(again.is_none());
    assert_eq!(config2.notified, vec![30]);
}

#[test]
fn duplicate_days_on_disk_fire_nothing() {
    let text = "{\"notification\":{\"notified\":[30,30,7]},\"position\":{\"x\":0,\"y\":0}}";
    let mut config = load_config(&chars(text));
    assert_eq!(config.notified, vec![30, 30, 7]);
    let mut cache = MilestoneCache::from_config(&config);
    assert!(is_notificated(&cache, 30));
    assert!(is_notificated(&cache, 7));
    assert!(!is_notificated(&cache, 0));
    assert!(evaluate(&mut config, &mut cache, 30).is_none());
    assert!(evaluate(&mut config, &mut cache, 7).is_none());
}

#[test]
fn save_notification_updates_both_stores() {
    let mut config = default_config();
    let mut cache = MilestoneCache::new();
    save_notification(&mut config, &mut cache, 7);
    assert_eq!(config.notified, vec![7]);
    assert!(is_notificated(&cache, 7));
    assert!(!is_notificated(&cache, 30));
}

#[test]
fn thirty_days_before_target_fires_once() {
    let target = target_epoch_seconds().expect("fixed target must resolve");
    let now = target - 30 * 86400;
    let duration = remaining_seconds(target, now).expect("difference fits");
    assert_eq!(duration, 30 * 86400);

    let mut config = default_config();
    let mut cache = MilestoneCache::new();
    let (display, notification) = tick(&mut config, &mut cache, duration);
    assert_eq!(display, "30 días, 00:00:00");
    assert_eq!(
        notification.as_deref(),
        Some("¡Queda un mes para el gran aniversario!")
    );
    let (display2, notification2) = tick(&mut config, &mut cache, duration);
    assert_eq!(display2, "30 días, 00:00:00");
    assert!(notification2.is_none());
}

#[test]
fn target_epoch_is_fixed_instant() {
    // 2026-07-04 00:00:00 in America/Montevideo (UTC-3, no DST) is
    // 2026-07-04 03:00:00 UTC.
    assert_eq!(target_epoch_seconds(), Some(1783134000));
}

#[test]
fn tick_after_target_shows_terminal_text() {
    let mut config = default_config();
    let mut cache = MilestoneCache::new();
    let (display, notification) = tick(&mut config, &mut cache, -5);
    assert_eq!(display, "Esperanza en la Ciudad");
    assert!(notification.is_none());
    assert!(config.notified.is_empty());
}

#[test]
fn scheduler_toggles_with_visibility() {
    assert_eq!(TICK_INTERVAL_MS, 1000);
    let mut scheduler = TickScheduler::new();
    assert!(!scheduler.running);
    scheduler.start();
    assert!(scheduler.running);
    scheduler.start();
    assert!(scheduler.running);
    let visible = show_window(true, &mut scheduler);
    assert!(!visible);
    assert!(!scheduler.running);
    let visible = show_window(visible, &mut scheduler);
    assert!(visible);
    assert!(scheduler.running);
    scheduler.stop();
    scheduler.stop();
    assert!(!scheduler.running);
}

#[test]
fn int_text_matches_decimal() {
    assert_eq!(int_to_string(0), "0");
    assert_eq!(int_to_string(-123), "-123");
    assert_eq!(int_to_string(i64::MAX), "9223372036854775807");
    assert_eq!(int_to_string(i64::MIN), "-9223372036854775808");
}

#[test]
fn remaining_seconds_signs() {
    assert_eq!(remaining_seconds(10, 3), Some(7));
    assert_eq!(remaining_seconds(3, 10), Some(-7));
    assert_eq!(remaining_seconds(0, 0), Some(0));
    assert_eq!(remaining_seconds(i64::MIN, 1), None);
}
