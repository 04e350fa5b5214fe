//! Tests of configuration parsing: level forms, tag splitting and the three
//! category toggles.

use navcat::filter_config::{Args, FilterConfig, TagCategories};
use navcat::logger::{LogLevel, Logger};

fn b(s: &str) -> Vec<u8> {
    s.as_bytes().to_vec()
}

fn base_args() -> Args {
    Args {
        file: None,
        logcat_levels: b("I,D,E"),
        tags: b("Planner,Match,Guidance,Other"),
        add_tag: Vec::new(),
        no_tag_filter: false,
        guidance: false,
        routing: false,
        mapmatching: false,
        verbosity_level: b("none"),
        highlighted_items: b(""),
        show_items: b(""),
    }
}

#[test]
fn to_levels_expands_short_and_long_forms() {
    let levels = FilterConfig::to_levels(b("I,E").as_slice());
    assert_eq!(levels, vec![b("I"), b("INFO"), b("E"), b("ERROR")]);

    let all = FilterConfig::to_levels(b("D,W,T").as_slice());
    assert_eq!(
        all,
        vec![b("D"), b("DEBUG"), b("W"), b("WARN"), b("T"), b("TRACE")]
    );
}

#[test]
fn to_levels_defaults_unknown_segments_to_info() {
    let levels = FilterConfig::to_levels(b("X").as_slice());
    assert_eq!(levels, vec![b("I"), b("INFO")]);
}

#[test]
fn to_tags_splits_and_trims() {
    let tags = FilterConfig::to_tags(b(" Planner , Match,Other ").as_slice());
    assert_eq!(tags, vec![b("Planner"), b("Match"), b("Other")]);
}

#[test]
fn tag_categories_partition_by_name() {
    let tags = TagCategories::new(vec![b("FooStep"), b("BarEngine"), b("Baz"), b("StepEngine")]);
    assert_eq!(tags.steps, vec![b("FooStep"), b("StepEngine")]);
    assert_eq!(tags.engines, vec![b("BarEngine")]);
    assert_eq!(tags.top_classes, vec![b("Baz")]);
    assert_eq!(
        tags.all_tags,
        vec![b("FooStep"), b("BarEngine"), b("Baz"), b("StepEngine")]
    );
}

#[test]
fn parse_with_all_toggles_off_prunes_tags_and_fills_blacklist() {
    let config = FilterConfig::parse(&base_args());
    assert_eq!(config.tags.all_tags, vec![b("Other")]);
    assert_eq!(
        config.blacklisted_items,
        vec![b("guidance"), b("instruction"), b("warning")]
    );
}

#[test]
fn parse_with_toggles_on_keeps_tags_and_empty_blacklist() {
    let mut args = base_args();
    args.guidance = true;
    args.routing = true;
    args.mapmatching = true;
    let config = FilterConfig::parse(&args);
    assert_eq!(
        config.tags.all_tags,
        vec![b("Planner"), b("Match"), b("Guidance"), b("Other")]
    );
    assert!(config.blacklisted_items.is_empty());
}

#[test]
fn parse_appends_extra_tags_before_toggles() {
    let mut args = base_args();
    args.guidance = true;
    args.routing = true;
    args.mapmatching = true;
    args.add_tag = vec![b("LocationService")];
    let config = FilterConfig::parse(&args);
    assert_eq!(
        config.tags.all_tags,
        vec![
            b("Planner"),
            b("Match"),
            b("Guidance"),
            b("Other"),
            b("LocationService")
        ]
    );
}

#[test]
fn parse_splits_highlight_and_show_items() {
    let mut args = base_args();
    args.highlighted_items = b("deviation, warning");
    args.show_items = b("error,replan ");
    let config = FilterConfig::parse(&args);
    assert_eq!(config.highlighted_items, vec![b("deviation"), b("warning")]);
    assert_eq!(config.show_items, vec![b("error"), b("replan")]);
}

#[test]
fn empty_item_strings_give_empty_lists() {
    let config = FilterConfig::parse(&base_args());
    assert!(config.highlighted_items.is_empty());
    assert!(config.show_items.is_empty());
}

#[test]
fn set_log_level_parses_verbosity_strings() {
    let mut logger = Logger::new(LogLevel::Off);
    logger.set_log_level(b("DEBUG").as_slice());
    assert_eq!(logger.level, LogLevel::Debug);
    logger.set_log_level(b("e").as_slice());
    assert_eq!(logger.level, LogLevel::Error);
    logger.set_log_level(b("Info").as_slice());
    assert_eq!(logger.level, LogLevel::Info);
    logger.set_log_level(b("garbage").as_slice());
    assert_eq!(logger.level, LogLevel::Off);
}

#[test]
fn logger_prints_at_or_below_configured_level() {
    let logger = Logger::new(LogLevel::Info);
    assert!(logger.logs(LogLevel::Error));
    assert!(logger.logs(LogLevel::Info));
    assert!(!logger.logs(LogLevel::Debug));

    let silent = Logger::new(LogLevel::Off);
    assert!(!silent.logs(LogLevel::Error));
}
