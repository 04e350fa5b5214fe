//! End-to-end and component tests of the line filter and the highlighter.

use navcat::builder::{create_default_highlighter, HighlightBuilder};
use navcat::color::Category;
use navcat::filter::{LogFilter, LogFormat};
use navcat::filter_config::{Args, FilterConfig, TagCategories};
use navcat::highlight::{Match, MessageHighlighter, MessageProcessor};

fn b(s: &str) -> Vec<u8> {
    s.as_bytes().to_vec()
}

fn args_with(
    levels: &str,
    tags: &str,
    guidance: bool,
    routing: bool,
    mapmatching: bool,
    highlighted: &str,
    show: &str,
) -> Args {
    Args {
        file: None,
        logcat_levels: b(levels),
        tags: b(tags),
        add_tag: Vec::new(),
        no_tag_filter: false,
        guidance,
        routing,
        mapmatching,
        verbosity_level: b("none"),
        highlighted_items: b(highlighted),
        show_items: b(show),
    }
}

fn default_filter(levels: &str, tags: &str) -> LogFilter {
    LogFilter::new(FilterConfig::parse(&args_with(levels, tags, true, true, true, "", "")))
}

fn s(v: Vec<u8>) -> String {
    String::from_utf8(v).unwrap()
}

#[test]
fn detects_full_with_pid_tid_layout() {
    let parts: Vec<Vec<u8>> = "2024-01-15 10:23:45.123 +0000 1234 5678 E RouteReplanningStep: msg"
        .split_whitespace()
        .map(|t| b(t))
        .collect();
    assert_eq!(LogFilter::detect_format(&parts), LogFormat::FullWithPidTid);
    let (level_idx, tag_idx) = LogFilter::get_level_and_tag_indices(&parts);
    assert_eq!((level_idx, tag_idx), (5, 6));
    assert_eq!(parts[level_idx], b("E"));
    assert_eq!(parts[tag_idx], b("RouteReplanningStep:"));
}

#[test]
fn detects_full_layout() {
    let parts: Vec<Vec<u8>> = "2024-01-15 10:23:45 1234 5678 W RoutePlanner hello"
        .split_whitespace()
        .map(|t| b(t))
        .collect();
    assert_eq!(LogFilter::detect_format(&parts), LogFormat::Full);
    let (level_idx, tag_idx) = LogFilter::get_level_and_tag_indices(&parts);
    assert_eq!((level_idx, tag_idx), (4, 5));
    assert_eq!(parts[level_idx], b("W"));
    assert_eq!(parts[tag_idx], b("RoutePlanner"));
}

#[test]
fn detects_compact_and_short_layouts() {
    let compact: Vec<Vec<u8>> = "2024-01-15 10:23:45.123+0000 I Navigation: started"
        .split_whitespace()
        .map(|t| b(t))
        .collect();
    assert_eq!(LogFilter::detect_format(&compact), LogFormat::Compact);

    let short: Vec<Vec<u8>> = "01-15 10:23:45 1234 5678 D SomeTag message"
        .split_whitespace()
        .map(|t| b(t))
        .collect();
    assert_eq!(LogFilter::detect_format(&short), LogFormat::Short);

    let tiny: Vec<Vec<u8>> = "one two".split_whitespace().map(|t| b(t)).collect();
    assert_eq!(LogFilter::detect_format(&tiny), LogFormat::Short);
}

#[test]
fn contains_tag_matches_partial_names() {
    let tags = TagCategories::new(vec![b("Planner")]);
    assert!(tags.contains_tag(b("RoutePlanner").as_slice()));
    assert!(tags.contains_tag(b("routeplanner").as_slice()));

    let other = TagCategories::new(vec![b("Engine"), b("Step")]);
    assert!(!other.contains_tag(b("RoutePlanner").as_slice()));
}

#[test]
fn word_boundary_rejects_match_inside_word() {
    let highlighter = create_default_highlighter().build();
    let out = highlighter.highlight_message(b("the folder is old").as_slice());
    assert_eq!(s(out), "the folder is \x1b[33mold\x1b[0m");
}

#[test]
fn highlight_keeps_original_casing() {
    let highlighter = create_default_highlighter().build();
    let out = highlighter.highlight_message(b("Route UPDATED successfully").as_slice());
    assert_eq!(s(out), "\x1b[33mRoute\x1b[0m \x1b[33mUPDATED\x1b[0m successfully");
}

#[test]
fn custom_terms_outrank_builtin_categories() {
    let highlighter = create_default_highlighter().build();
    let plain = highlighter.highlight_message(b("an error came up").as_slice());
    assert_eq!(s(plain), "an \x1b[1;31merror\x1b[0m came up");

    let custom = create_default_highlighter()
        .add_custom_words(&["error"])
        .build();
    let highlighted = custom.highlight_message(b("an error came up").as_slice());
    assert_eq!(s(highlighted), "an \x1b[43merror\x1b[0m came up");
}

#[test]
fn custom_words_are_lowercased_on_the_way_in() {
    let highlighter = HighlightBuilder::new().add_custom_words(&["TRUCK"]).build();
    let out = highlighter.highlight_message(b("a Truck appeared").as_slice());
    assert_eq!(s(out), "a \x1b[43mTruck\x1b[0m appeared");
}

#[test]
fn strip_escapes_round_trips_highlighted_message() {
    let highlighter = create_default_highlighter().build();
    let message = b("deviation detected, should replan (route OLD=1)");
    let out = highlighter.highlight_message(message.as_slice());
    assert_ne!(out, message);
    let stripped = navcat::highlight::strip_escape_codes(out.as_slice());
    assert_eq!(stripped, message);
}

#[test]
fn strip_escapes_keeps_plain_text() {
    let plain = b("nothing colored here");
    assert_eq!(navcat::highlight::strip_escape_codes(plain.as_slice()), plain);
}

#[test]
fn highlighter_from_explicit_term_lists() {
    let highlighter =
        MessageHighlighter::new(vec![b("fail")], vec![b("ok")], vec![b("note")], vec![b("mine")]);
    let out = highlighter.highlight_message(b("fail ok note mine").as_slice());
    assert_eq!(
        s(out),
        "\x1b[1;31mfail\x1b[0m \x1b[1;32mok\x1b[0m \x1b[33mnote\x1b[0m \x1b[43mmine\x1b[0m"
    );
}

#[test]
fn resolved_matches_never_intersect() {
    let processor = MessageProcessor::new(b("0123456789").as_slice());
    let candidates = vec![
        Match::new(0, 5, Category::Success),
        Match::new(3, 8, Category::Error),
        Match::new(8, 10, Category::Event),
    ];
    let resolved = processor.resolve_overlapping_matches(candidates);
    assert_eq!(resolved.len(), 1);
    assert_eq!(resolved[0], Match::new(3, 8, Category::Error));
    for i in 0..resolved.len() {
        for j in (i + 1)..resolved.len() {
            assert!(resolved[i].end <= resolved[j].start || resolved[j].end <= resolved[i].start);
        }
    }
}

#[test]
fn priority_tie_keeps_earliest_match() {
    let highlighter = create_default_highlighter().build();
    let out = highlighter.highlight_message(b("deviation detected, should replan").as_slice());
    assert_eq!(
        s(out),
        "\x1b[1;31mdeviation\x1b[0m detected, \x1b[33mshould replan\x1b[0m"
    );
}

#[test]
fn end_to_end_pass_colors_level_tag_and_message() {
    let filter = default_filter("E", "RouteReplanningStep");
    let line = b("2024-01-15 10:23:45.123 +0000 1234 5678 E RouteReplanningStep: deviation detected, should replan");
    let out = filter.matches(line.as_slice()).expect("line should pass");
    assert_eq!(
        s(out),
        "2024-01-15 10:23:45.123 +0000 1234 5678 \x1b[31mE\x1b[0m \x1b[35mRouteReplanningStep:\x1b[0m \x1b[1;31mdeviation\x1b[0m detected, \x1b[33mshould replan\x1b[0m"
    );
}

#[test]
fn end_to_end_level_mismatch_drops() {
    let filter = default_filter("I", "RouteReplanningStep");
    let line = b("2024-01-15 10:23:45.123 +0000 1234 5678 E RouteReplanningStep: deviation detected, should replan");
    assert_eq!(filter.matches(line.as_slice()), None);
}

#[test]
fn end_to_end_exclude_substring_drops() {
    // guidance disabled: "guidance" joins the exclude list and wins over a
    // matching level and tag
    let args = args_with("E", "RouteReplanningStep", false, true, true, "", "");
    let filter = LogFilter::new(FilterConfig::parse(&args));
    let line =
        b("2024-01-15 10:23:45.123 +0000 1234 5678 E RouteReplanningStep: guidance recalculated");
    assert_eq!(filter.matches(line.as_slice()), None);
}

#[test]
fn blank_lines_drop_under_every_configuration() {
    let filters = [
        default_filter("E", "RouteReplanningStep"),
        default_filter("", ""),
        LogFilter::new(FilterConfig::parse(&args_with("I,D,E", "Planner", false, false, false, "x", "y"))),
    ];
    for filter in filters.iter() {
        assert_eq!(filter.matches(b("").as_slice()), None);
        assert_eq!(filter.matches(b("   \t  ").as_slice()), None);
    }
}

#[test]
fn show_items_act_as_allow_list() {
    let args = args_with("E", "Tag", true, true, true, "", "replan");
    let filter = LogFilter::new(FilterConfig::parse(&args));
    let hit = b("2024-01-15 10:23:45.123 +0000 1234 5678 E Tag: should replan now");
    let miss = b("2024-01-15 10:23:45.123 +0000 1234 5678 E Tag: nothing happened");
    assert!(filter.matches(hit.as_slice()).is_some());
    assert_eq!(filter.matches(miss.as_slice()), None);
}

#[test]
fn unknown_tag_drops_line() {
    let filter = default_filter("E", "Planner");
    let line = b("2024-01-15 10:23:45.123 +0000 1234 5678 E SomethingElse: deviation");
    assert_eq!(filter.matches(line.as_slice()), None);
}

#[test]
fn trailing_colons_are_stripped_from_tag() {
    let filter = default_filter("", "Navigation");
    let line = b("2024-01-15 10:23:45.123+0000 I Navigation:: started");
    assert!(filter.matches(line.as_slice()).is_some());
}

#[test]
fn too_few_tokens_drop_line() {
    let filter = default_filter("", "Tag");
    assert_eq!(filter.matches(b("just three tokens").as_slice()), None);
}

#[test]
fn end_to_end_full_layout_passes() {
    let filter = default_filter("W", "Planner");
    let line = b("2024-01-15 10:23:45 1234 5678 W RoutePlanner route updated");
    let out = filter.matches(line.as_slice()).expect("line should pass");
    assert_eq!(
        s(out),
        "2024-01-15 10:23:45 1234 5678 \x1b[33mW\x1b[0m \x1b[34mRoutePlanner\x1b[0m \x1b[33mroute\x1b[0m \x1b[33mupdated\x1b[0m"
    );
}

#[test]
fn end_to_end_short_layout_passes() {
    let filter = default_filter("D", "SomeTag");
    let line = b("01-15 10:23:45 1234 5678 D SomeTag: arrived");
    let out = filter.matches(line.as_slice()).expect("line should pass");
    assert_eq!(
        s(out),
        "01-15 10:23:45 1234 5678 \x1b[36mD\x1b[0m \x1b[34mSomeTag:\x1b[0m \x1b[1;32marrived\x1b[0m"
    );
}

#[test]
fn level_color_table() {
    assert_eq!(LogFilter::get_level_color(b("E").as_slice()), b("\x1b[31m"));
    assert_eq!(LogFilter::get_level_color(b("W").as_slice()), b("\x1b[33m"));
    assert_eq!(LogFilter::get_level_color(b("I").as_slice()), b("\x1b[32m"));
    assert_eq!(LogFilter::get_level_color(b("D").as_slice()), b("\x1b[36m"));
    assert_eq!(LogFilter::get_level_color(b("T").as_slice()), b("\x1b[35m"));
    assert_eq!(LogFilter::get_level_color(b("V").as_slice()), b("\x1b[0m"));
}

#[test]
fn tag_color_follows_category() {
    let tags = TagCategories::new(vec![b("TopClass"), b("SomeStep"), b("SomeEngine")]);
    let config = FilterConfig {
        levels: Vec::new(),
        tags,
        blacklisted_items: Vec::new(),
        highlighted_items: Vec::new(),
        show_items: Vec::new(),
    };
    let filter = LogFilter::new(config);
    assert_eq!(filter.get_tag_color(b("TopClass").as_slice()), b("\x1b[34m"));
    assert_eq!(filter.get_tag_color(b("SomeStep").as_slice()), b("\x1b[35m"));
    assert_eq!(filter.get_tag_color(b("SomeEngine").as_slice()), b("\x1b[36m"));
    assert_eq!(filter.get_tag_color(b("Mystery").as_slice()), b("\x1b[1;31m"));
}
