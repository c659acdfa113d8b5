use retrotls::daemon;
use retrotls::filter::{accepts_filter, choose_filter, filter_for};
use retrotls::logging;

fn is_filter(text: &str) -> bool {
    tracing_subscriber::EnvFilter::try_new(text).is_ok()
}

#[test]
fn the_filter_of_the_environment_wins() {
    assert_eq!(filter_for("debug", Some("warn,retrotls=trace")), "warn,retrotls=trace");
    assert_eq!(filter_for("debug", Some("")), "");
    assert_eq!(filter_for("debug", Some("retrotls=loud")), "debug");
    assert_eq!(filter_for("debug", None), "debug");
    assert_eq!(filter_for("retrotls=loud", None), "info");
    assert_eq!(filter_for("retrotls=loud", Some("retrotls=loud")), "info");
}

#[test]
fn a_filter_is_chosen() {
    assert_eq!(choose_filter(Some("e"), true, "l", true), "e");
    assert_eq!(choose_filter(Some("e"), false, "l", true), "l");
    assert_eq!(choose_filter(None, true, "l", true), "l");
    assert_eq!(choose_filter(Some("e"), false, "l", false), "info");
}

#[test]
fn a_text_cut_inside_a_character_is_no_filter() {
    for text in [
        "\u{a0}a=info",
        " \u{e9}=info",
        "\u{a0}[a]=info",
        "warn,\u{2003}b[c]=info",
        " a\u{e9}[c]",
        "\u{a0}a[b{c}]=info",
        "  \u{e9}=info",
        "  \u{e9}[a]=info",
    ] {
        assert!(!accepts_filter(text), "{text:?}");
        assert_eq!(filter_for(text, None), "info");
        assert_eq!(filter_for("debug", Some(text)), "debug");
        assert_eq!(filter_for(text, Some("warn")), "warn");
    }
}

#[test]
fn any_other_text_is_a_filter_if_it_is_taken_as_one() {
    for text in [
        "",
        " ",
        " warn",
        " a=info, b=warn",
        "\u{e9}=info",
        "\u{e9} =info",
        "a=info,\u{e9}=info",
        " \u{e9}",
        "\t\u{e9}\u{e9}",
        "warn, \u{e9}",
        "  [\u{e9}]",
        " a=\u{e9}",
        "\u{2003}\u{e9}",
        "\u{a0}[",
        "a[b{c=d}]=info",
        "a[b{\u{e9}=1}]=info",
        "  a[b{\u{e9}=1}]=info",
        "a[b{c=(}]=info",
        "a[b]]",
        "a[b{c}x]",
        "=info",
        "a=loud",
        "[a",
    ] {
        assert_eq!(accepts_filter(text), is_filter(text), "{text:?}");
        let held = if is_filter(text) { text } else { "info" };
        assert_eq!(filter_for(text, None), held);
        assert_eq!(logging::init_logging("info", true, Some(text)).filter, held);
        assert_eq!(daemon::init_logging("info", Some(text), "log", Ok(())).filter, held);
    }
    for text in [" \u{e9}", "\t\u{e9}\u{e9}", "warn, \u{e9}", "  [\u{e9}]"] {
        assert!(accepts_filter(text), "{text:?}");
    }
}
