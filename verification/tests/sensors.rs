use bc250_dashboard::{
    nvidia_fields, output_folder_setting, parse_trimmed_i32, parse_trimmed_i64, parse_trimmed_u32,
    parse_trimmed_u64,
};

#[test]
fn nvidia_line_gives_load_memory_and_temperature() {
    assert_eq!(
        nvidia_fields("37, 1024, 8192, 61\n"),
        Some((37, 1024u64 << 20, 8192u64 << 20, 61))
    );
}

#[test]
fn nvidia_reads_only_the_first_line_and_four_fields() {
    assert_eq!(
        nvidia_fields("5,6,7,-3,extra\r\n99, 1, 2, 3\n"),
        Some((5, 6u64 << 20, 7u64 << 20, -3))
    );
}

#[test]
fn nvidia_refuses_short_or_bad_lines() {
    assert_eq!(nvidia_fields(""), None);
    assert_eq!(nvidia_fields("37, 1024, 8192"), None);
    assert_eq!(nvidia_fields("[N/A], 1024, 8192, 61"), None);
    assert_eq!(nvidia_fields("37, 1024, 8192, 3000000000"), None);
    assert_eq!(nvidia_fields("-1, 1024, 8192, 61"), None);
}

#[test]
fn trimmed_numbers_follow_str_parse() {
    assert_eq!(parse_trimmed_u32(" 42\n"), Some(42));
    assert_eq!(parse_trimmed_u32("+7"), Some(7));
    assert_eq!(parse_trimmed_u32("4294967295"), Some(u32::MAX));
    assert_eq!(parse_trimmed_u32("4294967296"), None);
    assert_eq!(parse_trimmed_u32("-1"), None);
    assert_eq!(parse_trimmed_u32(""), None);
    assert_eq!(parse_trimmed_u32("+"), None);
    assert_eq!(parse_trimmed_u32("1 2"), None);
    assert_eq!(parse_trimmed_u64("18446744073709551615"), Some(u64::MAX));
    assert_eq!(parse_trimmed_u64("18446744073709551616"), None);
    assert_eq!(parse_trimmed_i64("\t-45000\n"), Some(-45000));
    assert_eq!(parse_trimmed_i64("-9223372036854775808"), Some(i64::MIN));
    assert_eq!(parse_trimmed_i64("9223372036854775808"), None);
    assert_eq!(parse_trimmed_i32("-2147483648"), Some(i32::MIN));
    assert_eq!(parse_trimmed_i32("-2147483649"), None);
    assert_eq!(parse_trimmed_i32("-"), None);
}

#[test]
fn output_folder_is_the_first_setting_trimmed() {
    let text = "fps\n  output_folder= /tmp/logs  \noutput_folder=/other\n";
    assert_eq!(output_folder_setting(text), Some("/tmp/logs".to_string()));
    assert_eq!(output_folder_setting("fps_limit=60\n"), None);
    assert_eq!(output_folder_setting("output_folder=\n"), Some(String::new()));
    assert_eq!(output_folder_setting("# output_folder=/x\n"), None);
}
