use claudexor_linux::ui::theme::{ago_at, parse_iso, span, status_word, until_at};

#[test]
fn iso_parsing() {
    assert_eq!(parse_iso("1970-01-01T00:00:00Z"), Some(0));
    assert_eq!(parse_iso("2026-07-19T12:00:00.000Z"), Some(1_784_462_400));
    assert_eq!(parse_iso("2026-07-19T14:00:00+02:00"), Some(1_784_462_400));
    assert_eq!(parse_iso("nope"), None);
}

#[test]
fn spans() {
    assert_eq!(span(5), "5s");
    assert_eq!(span(125), "2m");
    assert_eq!(span(3 * 3600 + 120), "3h 2m");
    assert_eq!(span(3 * 86_400), "3d");
}

#[test]
fn spans_ignore_the_sign() {
    assert_eq!(span(-59), "59s");
    assert_eq!(span(-3600), "1h 0m");
}

#[test]
fn iso_before_the_epoch_and_with_negative_offsets() {
    assert_eq!(parse_iso("1969-12-31T23:59:59Z"), Some(-1));
    assert_eq!(parse_iso("2000-03-01T00:00:00-01:30"), Some(951_868_800 + 5400));
    assert_eq!(parse_iso("2000-03-01T00:00:00"), Some(951_868_800));
    assert_eq!(parse_iso("2000-03-01 00:00:00"), None);
}

#[test]
fn relative_words() {
    let t = 1_784_462_400;
    assert_eq!(ago_at("2026-07-19T12:00:00Z", t + 10), "now");
    assert_eq!(ago_at("2026-07-19T12:00:00Z", t + 125), "2m ago");
    assert_eq!(ago_at("bad", t), "");
    assert_eq!(until_at("2026-07-19T12:00:00Z", t - 7200), "in 2h 0m");
    assert_eq!(until_at("2026-07-19T12:00:00Z", t), "now");
}

#[test]
fn zone_offsets_that_split_a_character_do_not_parse() {
    assert_eq!(parse_iso("2026-07-19T14:00:00+02:00"), Some(1_784_462_400));
    assert_eq!(parse_iso("2026-07-19T14:00:00+0é:00"), None);
    assert_eq!(parse_iso("2026-07-19T14:00:00+02é00"), None);
    assert_eq!(parse_iso("2026-07-19T12:00:00+aé:00"), None);
    assert_eq!(parse_iso("2026-07-19T14:00:00Z"), Some(1_784_469_600));
}

#[test]
fn status_words() {
    assert_eq!(status_word("running"), "Running");
    assert_eq!(status_word("completed"), "Done");
    assert_eq!(status_word("succeeded"), "Done");
    assert_eq!(status_word("needs_you"), "Needs your answer");
    assert_eq!(status_word("refused"), "Refused");
    assert_eq!(status_word("weird"), "Unknown");
}
