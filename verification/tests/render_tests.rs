use cbstats::names::idx_to_name;
use cbstats::render::{center_str, dec_string, pad_left_str, rule_row_string, spaces_string, trunc_pad_str};

#[test]
fn decimal_rendering() {
    assert_eq!(dec_string(0), "0");
    assert_eq!(dec_string(7), "7");
    assert_eq!(dec_string(10), "10");
    assert_eq!(dec_string(1670), "1670");
    assert_eq!(dec_string(u64::MAX as u128), "18446744073709551615");
    assert_eq!(dec_string(u128::MAX), "340282366920938463463374607431768211455");
}

#[test]
fn padding_and_truncation() {
    assert_eq!(spaces_string(0), "");
    assert_eq!(spaces_string(3), "   ");
    assert_eq!(rule_row_string(4), "====");
    assert_eq!(pad_left_str("ab", 5), "   ab");
    assert_eq!(pad_left_str("abcdef", 5), "abcdef");
    assert_eq!(trunc_pad_str("cpu_offline", 10), "cpu_offlin");
    assert_eq!(trunc_pad_str("init", 10), "      init");
    assert_eq!(center_str("0", 5), "  0  ");
    assert_eq!(center_str("10", 5), " 10  ");
    assert_eq!(center_str("123456", 5), "123456");
}

#[test]
fn stat_names_in_declared_order() {
    let expected = [
        "(none)", "init", "exit", "init_task", "exit_task", "enable", "disable", "runnable",
        "running", "stopping", "quiescent", "select_cpu", "enqueue", "dequeue", "dispatch",
        "cpu_online", "cpu_offline",
    ];
    for (i, name) in expected.iter().enumerate() {
        assert_eq!(idx_to_name(i as u32), *name);
    }
    assert_eq!(idx_to_name(17), "[ unknown ]");
    assert_eq!(idx_to_name(u32::MAX), "[ unknown ]");
}
