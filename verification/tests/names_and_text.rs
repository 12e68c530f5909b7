use cargo2junit::event::decode_line;
use cargo2junit::event::double_backslashes_exec;
use cargo2junit::event::is_candidate_exec;
use cargo2junit::event::Event;
use cargo2junit::names::format_suite_name;
use cargo2junit::names::split_name;
use cargo2junit::sanitize::bound_text;
use cargo2junit::sanitize::diagnostic_text;
use cargo2junit::sanitize::sanitize_text;

#[test]
fn name_with_module_path() {
    let (short, group) = split_name("mod_a::mod_b::test_x");
    assert_eq!(short, "test_x");
    assert_eq!(group, "mod_a::mod_b");
}

#[test]
fn name_without_separator() {
    let (short, group) = split_name("test_x");
    assert_eq!(short, "test_x");
    assert_eq!(group, "");
}

#[test]
fn name_split_is_greedy_from_the_left() {
    let (short, group) = split_name("a:::b");
    assert_eq!(short, ":b");
    assert_eq!(group, "a");
}

#[test]
fn empty_name_splits_to_empty_parts() {
    let (short, group) = split_name("");
    assert_eq!(short, "");
    assert_eq!(group, "");
}

#[test]
fn suite_names_carry_prefix_and_index() {
    assert_eq!(format_suite_name("cargo test", 0), "cargo test #0");
    assert_eq!(format_suite_name("cargo test", 17), "cargo test #17");
    assert_eq!(format_suite_name("x", 120), "x #120");
}

#[test]
fn short_text_is_kept_whole() {
    assert_eq!(bound_text("hello", 50), "hello");
    assert_eq!(bound_text("", 0), "");
}

#[test]
fn long_text_is_cut_in_the_middle() {
    // 60 characters, budget 50: the marker takes 17, so head and tail keep
    // (50 - 17) / 2 = 16 characters each.
    let text = "0123456789abcdef................................9876543210zyxwvu";
    let text = &text[..60];
    let bounded = bound_text(text, 50);
    assert!(bounded.contains("[...TRUNCATED...]"));
    assert_eq!(bounded.len(), 16 + 1 + 17 + 1 + 16);
    assert!(bounded.starts_with("0123456789abcdef"));
    assert!(bounded.ends_with(&text[60 - 16..]));
    assert_eq!(
        bounded,
        format!("{}\n[...TRUNCATED...]\n{}", &text[..16], &text[60 - 16..])
    );
}

#[test]
fn color_codes_are_stripped() {
    assert_eq!(sanitize_text("a\u{1b}[31mred\u{1b}[0mb"), "aredb");
    assert_eq!(sanitize_text("plain"), "plain");
    assert_eq!(sanitize_text("\u{1b}[1;32mbold green\u{1b}[m"), "bold green");
}

#[test]
fn unterminated_escape_swallows_the_rest() {
    assert_eq!(sanitize_text("a\u{1b}[31"), "a");
}

#[test]
fn lone_escape_passes_through() {
    assert_eq!(sanitize_text("a\u{1b}b"), "a\u{1b}b");
}

#[test]
fn diagnostic_merges_streams_with_newline() {
    let out = Some("out".to_string());
    let err = Some("err".to_string());
    assert_eq!(diagnostic_text(&out, &err, 65536), "out\nerr");
    assert_eq!(diagnostic_text(&out, &None, 65536), "out");
    assert_eq!(diagnostic_text(&None, &err, 65536), "err");
    assert_eq!(diagnostic_text(&None, &None, 65536), "");
}

#[test]
fn diagnostic_sanitizes_before_bounding() {
    let out = Some("\u{1b}[31mxyz\u{1b}[0m".to_string());
    assert_eq!(diagnostic_text(&out, &None, 65536), "xyz");
}

#[test]
fn candidate_lines_start_with_a_brace() {
    assert!(is_candidate_exec("{\"a\":1}"));
    assert!(is_candidate_exec("   {\"a\":1}"));
    assert!(is_candidate_exec("\t{"));
    assert!(!is_candidate_exec("running 1 test"));
    assert!(!is_candidate_exec(""));
    assert!(!is_candidate_exec("   "));
    assert!(!is_candidate_exec("x {"));
}

#[test]
fn doubling_backslashes() {
    assert_eq!(double_backslashes_exec("a\\b"), "a\\\\b");
    assert_eq!(double_backslashes_exec("no slashes"), "no slashes");
    assert_eq!(double_backslashes_exec("\\"), "\\\\");
}

#[test]
fn decoder_accepts_shapes_without_a_type_tag() {
    let r = decode_line("{\"event\":\"started\",\"test_count\":2}");
    assert!(matches!(r, Ok(Some(Event::SuiteStarted))));
    let r = decode_line("{\"event\":\"ok\",\"name\":\"t\"}");
    assert!(matches!(r, Ok(Some(Event::TestPassed { .. }))));
    // Without the count the suite shape fails and the test shape wins.
    let r = decode_line("{\"event\":\"started\",\"name\":\"t\"}");
    assert!(matches!(r, Ok(Some(Event::TestStarted { .. }))));
}

#[test]
fn decoder_rejects_unknown_shapes() {
    assert!(matches!(decode_line("not an event"), Ok(None)));
    assert!(decode_line("{\"event\":\"exploded\",\"name\":\"t\"}").is_err());
    assert!(decode_line("{\"event\":\"ok\"}").is_err());
    assert!(decode_line("{}").is_err());
    assert!(decode_line("{\"event\":\"ok\",\"name\":42}").is_err());
    assert!(decode_line("{\"event\":\"ok\",\"name\":\"t\",\"duration\":\"fast\"}").is_err());
}

#[test]
fn decoder_accepts_null_optional_fields() {
    let r = decode_line("{\"event\":\"ok\",\"name\":\"t\",\"duration\":null,\"exec_time\":null}");
    assert!(matches!(r, Ok(Some(Event::TestPassed { .. }))));
    let r = decode_line("{\"event\":\"failed\",\"name\":\"t\",\"stdout\":null}");
    assert!(matches!(r, Ok(Some(Event::TestFailed { .. }))));
}
