use task_runtime::runtime::{setting_name, worker_count, Runtime};
use task_runtime::FutureType;

fn settings(runtime: Runtime) -> Vec<(&'static str, String)> {
    runtime
        .run()
        .settings
        .into_iter()
        .map(|setting| (setting.name, setting.value))
        .collect()
}

#[test]
fn a_new_runtime_leaves_two_cores_free() {
    assert_eq!(
        settings(Runtime::new(8)),
        vec![("HIGH_NUM", "6".to_string()), ("LOW_NUM", "1".to_string())]
    );
    assert_eq!(
        settings(Runtime::new(2)),
        vec![("HIGH_NUM", "0".to_string()), ("LOW_NUM", "1".to_string())]
    );
}

#[test]
fn the_counts_can_be_set() {
    assert_eq!(
        settings(Runtime::new(16).with_low_num(2).with_high_num(4)),
        vec![("HIGH_NUM", "4".to_string()), ("LOW_NUM", "2".to_string())]
    );
    assert_eq!(
        settings(Runtime::new(16).with_high_num(4).with_low_num(2)),
        vec![("HIGH_NUM", "4".to_string()), ("LOW_NUM", "2".to_string())]
    );
    assert_eq!(
        settings(Runtime::new(16).with_high_num(1).with_high_num(30)),
        vec![("HIGH_NUM", "30".to_string()), ("LOW_NUM", "1".to_string())]
    );
}

#[test]
fn a_launch_wakes_the_high_lane_and_then_the_low_lane() {
    assert_eq!(
        Runtime::new(4).run().warm_up,
        vec![FutureType::High, FutureType::Low]
    );
}

#[test]
fn each_lane_has_its_setting() {
    assert_eq!(setting_name(FutureType::High), "HIGH_NUM");
    assert_eq!(setting_name(FutureType::Low), "LOW_NUM");
}

#[test]
fn counts_are_read_back_from_their_text() {
    for n in [0, 1, 9, 10, 99, 1234567890, usize::MAX] {
        let launch = Runtime::new(2).with_high_num(n).with_low_num(n).run();
        assert_eq!(worker_count(&launch.settings[0].value), Some(n));
        assert_eq!(worker_count(&launch.settings[1].value), Some(n));
    }
}

#[test]
fn a_count_is_an_optional_plus_and_digits() {
    assert_eq!(worker_count("4"), Some(4));
    assert_eq!(worker_count("+4"), Some(4));
    assert_eq!(worker_count("007"), Some(7));
    assert_eq!(worker_count("18446744073709551615"), Some(18446744073709551615));
    assert_eq!(worker_count("0018446744073709551615"), Some(18446744073709551615));
}

#[test]
fn other_texts_are_no_count() {
    for text in [
        "", "+", "-", "-1", "-0", "++4", " 4", "4 ", "4a", "four", "1_000", "\u{664}",
        "18446744073709551616",
    ] {
        assert_eq!(worker_count(text), None);
    }
}
