//! The line filter and colorizer: layout detection, level and tag checks,
//! and assembly of the colorized output line.

use vstd::prelude::*;

verus! {

use vstd::string::StringSliceAdditionalSpecFns;

use crate::builder::{
    create_default_highlighter, default_green_terms, default_red_terms, default_yellow_terms,
    lowered_views,
};
use crate::bytes::{
    all_digits, all_digits_exec, all_space, all_space_exec, contains_byte, contains_byte_exec,
    lower_seq, push_all, strip_trailing_colons, strip_trailing_colons_exec, to_lower_vec,
    tokenize, tokens_of, views_of,
};
use crate::color::reset_seq;
use crate::color::reset_code;
use crate::filter_config::{contains_any, contains_any_exec, spec_contains_tag, FilterConfig,
    TagCategories};
use crate::highlight::{spec_highlight_ok, MessageHighlighter};

/// The four positional layouts a log line may follow.
#[derive(Clone, Copy, Debug, PartialEq, Eq, Structural)]
pub enum LogFormat {
    /// `YYYY-MM-DD HH:MM:SS.mmm +TZ PID TID LEVEL TAG ...`
    FullWithPidTid,
    /// `YYYY-MM-DD HH:MM:SS PID TID LEVEL TAG ...`
    Full,
    /// `YYYY-MM-DD HH:MM:SS.mmm+TZ LEVEL TAG: MESSAGE`
    Compact,
    /// `MM-DD HH:MM:SS PID TID LEVEL TAG ...`, the fallback layout
    Short,
}

/// Layout detection over the whitespace tokens of a line: a 10-byte
/// hyphenated first token means a full date; milliseconds in the second
/// token and two all-digit tokens at 3 and 4 mean PID/TID follow the
/// timestamp; without milliseconds the all-digit test sits at 2 and 3.
/// Anything without a date-like first token is the short layout.
pub open spec fn spec_detect_format(toks: Seq<Seq<u8>>) -> LogFormat {
    if toks.len() < 3 {
        LogFormat::Short
    } else if contains_byte(toks[0], 45) && toks[0].len() == 10 {
        if contains_byte(toks[1], 46) {
            if toks.len() >= 7 && all_digits(toks[3]) && all_digits(toks[4]) {
                LogFormat::FullWithPidTid
            } else {
                LogFormat::Compact
            }
        } else {
            if toks.len() >= 6 && all_digits(toks[2]) && all_digits(toks[3]) {
                LogFormat::Full
            } else {
                LogFormat::Compact
            }
        }
    } else {
        LogFormat::Short
    }
}

/// Index of the level token under a layout.
pub open spec fn spec_level_index(f: LogFormat) -> int {
    match f {
        LogFormat::FullWithPidTid => 5,
        LogFormat::Full => 4,
        LogFormat::Short => 4,
        LogFormat::Compact => 2,
    }
}

/// Index of the tag token under a layout; always right after the level.
pub open spec fn spec_tag_index(f: LogFormat) -> int {
    match f {
        LogFormat::FullWithPidTid => 6,
        LogFormat::Full => 5,
        LogFormat::Short => 5,
        LogFormat::Compact => 3,
    }
}

/// The fixed color of a level token: `E` red, `W` yellow, `I` green, `D`
/// cyan, `T` magenta, anything else uncolored (reset).
pub open spec fn spec_level_color(tok: Seq<u8>) -> Seq<u8> {
    if tok == "E".spec_bytes() {
        seq![27u8, 91u8, 51u8, 49u8, 109u8]  // ESC[31m
    } else if tok == "W".spec_bytes() {
        seq![27u8, 91u8, 51u8, 51u8, 109u8]  // ESC[33m
    } else if tok == "I".spec_bytes() {
        seq![27u8, 91u8, 51u8, 50u8, 109u8]  // ESC[32m
    } else if tok == "D".spec_bytes() {
        seq![27u8, 91u8, 51u8, 54u8, 109u8]  // ESC[36m
    } else if tok == "T".spec_bytes() {
        seq![27u8, 91u8, 51u8, 53u8, 109u8]  // ESC[35m
    } else {
        reset_seq()
    }
}

/// The fixed color of a tag token by its category: top-level classes blue,
/// steps magenta, engines cyan, unrecognized tags bright red. A tag belongs
/// to the first list one of whose configured names occurs in it.
pub open spec fn spec_tag_color(tc: TagCategories, tag: Seq<u8>) -> Seq<u8> {
    if contains_any(tag, views_of(tc.top_classes@)) {
        seq![27u8, 91u8, 51u8, 52u8, 109u8]  // ESC[34m
    } else if contains_any(tag, views_of(tc.steps@)) {
        seq![27u8, 91u8, 51u8, 53u8, 109u8]  // ESC[35m
    } else if contains_any(tag, views_of(tc.engines@)) {
        seq![27u8, 91u8, 51u8, 54u8, 109u8]  // ESC[36m
    } else {
        seq![27u8, 91u8, 49u8, 59u8, 51u8, 49u8, 109u8]  // ESC[1;31m
    }
}

/// The level token is admitted: no level is configured, or some configured
/// level form equals it up to ASCII case.
pub open spec fn level_allowed(levels: Seq<Seq<u8>>, tok: Seq<u8>) -> bool {
    levels.len() == 0 || exists|k: int|
        0 <= k < levels.len() && lower_seq(levels[k]) == lower_seq(tok)
}

/// Tokens `from..to`, each followed by one space.
pub open spec fn join_spaced(toks: Seq<Seq<u8>>, from: int, to: int) -> Seq<u8>
    decreases to - from,
{
    if from >= to {
        Seq::empty()
    } else {
        join_spaced(toks, from, to - 1) + toks[to - 1] + seq![32u8]
    }
}

/// Tokens `from..to` joined with exactly one space between neighbours.
pub open spec fn join_tokens(toks: Seq<Seq<u8>>, from: int, to: int) -> Seq<u8>
    decreases to - from,
{
    if from >= to {
        Seq::empty()
    } else if to == from + 1 {
        toks[from]
    } else {
        join_tokens(toks, from, to - 1) + seq![32u8] + toks[to - 1]
    }
}

/// Join tokens `from..to` with single spaces.
pub fn join_range(parts: &Vec<Vec<u8>>, from: usize, to: usize) -> (r: Vec<u8>)
    requires
        from <= to <= parts@.len(),
    ensures
        r@ == join_tokens(views_of(parts@), from as int, to as int),
{
    let ghost tv = views_of(parts@);
    let mut out: Vec<u8> = Vec::new();
    let mut i: usize = from;
    while i < to
        invariant
            tv == views_of(parts@),
            tv.len() == parts@.len(),
            from <= i <= to <= parts@.len(),
            out@ == join_tokens(tv, from as int, i as int),
        decreases to - i,
    {
        proof {
            assert(tv[i as int] == parts@[i as int]@);
        }
        let ghost pre = out@;
        if i > from {
            out.push(32);
            push_all(&mut out, parts[i].as_slice());
            assert(out@ =~= pre + seq![32u8] + tv[i as int]);
        } else {
            push_all(&mut out, parts[i].as_slice());
            assert(out@ =~= tv[i as int]);
        }
        i = i + 1;
    }
    out
}

/// Is the token made of ASCII digits only, as a PID would be?
pub fn looks_like_pid(part: &[u8]) -> (r: bool)
    ensures
        r == all_digits(part@),
{
    all_digits_exec(part)
}

/// Is the token made of ASCII digits only, as a TID would be?
pub fn looks_like_tid(part: &[u8]) -> (r: bool)
    ensures
        r == all_digits(part@),
{
    all_digits_exec(part)
}

/// The line filter: level set, tag categories, include and exclude
/// substring lists, and the message highlighter.
pub struct LogFilter {
    pub levels: Vec<Vec<u8>>,
    pub tags: TagCategories,
    pub blacklisted_items: Vec<Vec<u8>>,
    pub show_items: Vec<Vec<u8>>,
    pub message_highlighter: MessageHighlighter,
}

/// One raw line passes the filter: it is not blank; if an include list is
/// configured some entry occurs in the lowercased line; no exclude entry
/// occurs in it; its layout leaves the tag index inside the tokens; the
/// level token is admitted; and the colon-stripped tag token matches the
/// configured tags.
pub open spec fn spec_passes(f: LogFilter, line: Seq<u8>) -> bool {
    let low = lower_seq(line);
    let toks = tokens_of(line);
    let fmt = spec_detect_format(toks);
    &&& !all_space(line)
    &&& (views_of(f.show_items@).len() == 0 || contains_any(low, views_of(f.show_items@)))
    &&& !contains_any(low, views_of(f.blacklisted_items@))
    &&& toks.len() > spec_tag_index(fmt)
    &&& level_allowed(views_of(f.levels@), toks[spec_level_index(fmt)])
    &&& spec_contains_tag(f.tags, strip_trailing_colons(toks[spec_tag_index(fmt)]))
}

/// The colorized line up to and including the tag token: tokens before the
/// level unchanged, the level and tag tokens wrapped in their colors, all
/// separated by single spaces.
pub open spec fn spec_line_prefix(f: LogFilter, line: Seq<u8>) -> Seq<u8> {
    let toks = tokens_of(line);
    let fmt = spec_detect_format(toks);
    let li = spec_level_index(fmt);
    let ti = spec_tag_index(fmt);
    join_spaced(toks, 0, li) + spec_level_color(toks[li]) + toks[li] + reset_seq() + seq![32u8]
        + join_spaced(toks, li + 1, ti) + spec_tag_color(f.tags, strip_trailing_colons(toks[ti]))
        + toks[ti] + reset_seq()
}

/// `out` is the colorized form of a passing line: the colored prefix, and,
/// when message tokens follow the tag, one space and a correct highlighting
/// of the message tokens rejoined with single spaces.
pub open spec fn spec_line_output(f: LogFilter, line: Seq<u8>, out: Seq<u8>) -> bool {
    let toks = tokens_of(line);
    let ti = spec_tag_index(spec_detect_format(toks));
    if toks.len() > ti + 1 {
        exists|h: Seq<u8>|
            spec_highlight_ok(f.message_highlighter, join_tokens(toks, ti + 1, toks.len() as int), h)
                && out == spec_line_prefix(f, line) + seq![32u8] + h
    } else {
        out == spec_line_prefix(f, line)
    }
}

impl LogFilter {
    /// The highlighter carries its categories correctly.
    pub open spec fn wf(self) -> bool {
        self.message_highlighter.wf()
    }

    /// Build the filter from a parsed configuration: the level, tag and
    /// substring lists are taken as they are, and the highlighter holds the
    /// default vocabulary plus the configured custom terms.
    pub fn new(config: FilterConfig) -> (r: Self)
        ensures
            r.wf(),
            r.levels == config.levels,
            r.tags == config.tags,
            r.blacklisted_items == config.blacklisted_items,
            r.show_items == config.show_items,
            views_of(r.message_highlighter.red_rule.terms@) == default_red_terms(),
            views_of(r.message_highlighter.green_rule.terms@) == default_green_terms(),
            views_of(r.message_highlighter.yellow_rule.terms@) == default_yellow_terms(),
            views_of(r.message_highlighter.custom_rule.terms@) == lowered_views(
                views_of(config.highlighted_items@),
            ),
    {
        let mut builder = create_default_highlighter();
        if config.highlighted_items.len() > 0 {
            builder = builder.add_custom_terms(&config.highlighted_items);
            assert(views_of(builder.custom_words@) =~= lowered_views(
                views_of(config.highlighted_items@),
            ));
        } else {
            assert(views_of(config.highlighted_items@) =~= Seq::<Seq<u8>>::empty());
            assert(views_of(builder.custom_words@) =~= lowered_views(
                views_of(config.highlighted_items@),
            ));
        }
        LogFilter {
            levels: config.levels,
            tags: config.tags,
            blacklisted_items: config.blacklisted_items,
            show_items: config.show_items,
            message_highlighter: builder.build(),
        }
    }

    /// The fixed ANSI color of a level token.
    pub fn get_level_color(level: &[u8]) -> (r: Vec<u8>)
        ensures
            r@ == spec_level_color(level@),
    {
        let mut v: Vec<u8> = Vec::new();
        v.push(27);
        v.push(91);
        if crate::bytes::bytes_eq(level, "E".as_bytes_vec().as_slice()) {
            v.push(51);
            v.push(49);
        } else if crate::bytes::bytes_eq(level, "W".as_bytes_vec().as_slice()) {
            v.push(51);
            v.push(51);
        } else if crate::bytes::bytes_eq(level, "I".as_bytes_vec().as_slice()) {
            v.push(51);
            v.push(50);
        } else if crate::bytes::bytes_eq(level, "D".as_bytes_vec().as_slice()) {
            v.push(51);
            v.push(54);
        } else if crate::bytes::bytes_eq(level, "T".as_bytes_vec().as_slice()) {
            v.push(51);
            v.push(53);
        } else {
            v.push(48);
            v.push(109);
            assert(v@ =~= spec_level_color(level@));
            return v;
        }
        v.push(109);
        assert(v@ =~= spec_level_color(level@));
        v
    }

    /// The fixed ANSI color of a tag token, by its configured category.
    pub fn get_tag_color(&self, tag: &[u8]) -> (r: Vec<u8>)
        ensures
            r@ == spec_tag_color(self.tags, tag@),
    {
        let mut v: Vec<u8> = Vec::new();
        v.push(27);
        v.push(91);
        if contains_any_exec(tag, &self.tags.top_classes) {
            v.push(51);
            v.push(52);
        } else if contains_any_exec(tag, &self.tags.steps) {
            v.push(51);
            v.push(53);
        } else if contains_any_exec(tag, &self.tags.engines) {
            v.push(51);
            v.push(54);
        } else {
            v.push(49);
            v.push(59);
            v.push(51);
            v.push(49);
        }
        v.push(109);
        assert(v@ =~= spec_tag_color(self.tags, tag@));
        v
    }

    /// Detect which layout the tokens of a line follow.
    pub fn detect_format(parts: &Vec<Vec<u8>>) -> (r: LogFormat)
        ensures
            r == spec_detect_format(views_of(parts@)),
    {
        let ghost tv = views_of(parts@);
        if parts.len() < 3 {
            return LogFormat::Short;
        }
        proof {
            assert(tv[0] == parts@[0]@);
            assert(tv[1] == parts@[1]@);
        }
        let t0 = &parts[0];
        if contains_byte_exec(t0.as_slice(), 45) && t0.len() == 10 {
            let t1 = &parts[1];
            if contains_byte_exec(t1.as_slice(), 46) {
                if parts.len() >= 7 {
                    proof {
                        assert(tv[3] == parts@[3]@);
                        assert(tv[4] == parts@[4]@);
                    }
                    if looks_like_pid(parts[3].as_slice()) && looks_like_tid(parts[4].as_slice()) {
                        return LogFormat::FullWithPidTid;
                    }
                }
                LogFormat::Compact
            } else {
                if parts.len() >= 6 {
                    proof {
                        assert(tv[2] == parts@[2]@);
                        assert(tv[3] == parts@[3]@);
                    }
                    if looks_like_pid(parts[2].as_slice()) && looks_like_tid(parts[3].as_slice()) {
                        return LogFormat::Full;
                    }
                }
                LogFormat::Compact
            }
        } else {
            LogFormat::Short
        }
    }

    /// The (level, tag) token indices of the detected layout.
    pub fn get_level_and_tag_indices(parts: &Vec<Vec<u8>>) -> (r: (usize, usize))
        ensures
            r.0 as int == spec_level_index(spec_detect_format(views_of(parts@))),
            r.1 as int == spec_tag_index(spec_detect_format(views_of(parts@))),
            r.0 < r.1,
    {
        match Self::detect_format(parts) {
            LogFormat::FullWithPidTid => (5, 6),
            LogFormat::Full => (4, 5),
            LogFormat::Short => (4, 5),
            LogFormat::Compact => (2, 3),
        }
    }
}

/// Does some configured level form equal the token up to ASCII case?
fn level_allowed_exec(levels: &Vec<Vec<u8>>, tok: &[u8]) -> (r: bool)
    ensures
        r == exists|k: int|
            0 <= k < views_of(levels@).len() && lower_seq(views_of(levels@)[k]) == lower_seq(tok@),
{
    let tok_lower = to_lower_vec(tok);
    let mut k: usize = 0;
    while k < levels.len()
        invariant
            tok_lower@ == lower_seq(tok@),
            k <= levels@.len(),
            forall|j: int|
                0 <= j < k ==> lower_seq(views_of(levels@)[j]) != lower_seq(tok@),
        decreases levels@.len() - k,
    {
        let lv_lower = to_lower_vec(levels[k].as_slice());
        if crate::bytes::bytes_eq(lv_lower.as_slice(), tok_lower.as_slice()) {
            assert(lower_seq(views_of(levels@)[k as int]) == lower_seq(tok@));
            return true;
        }
        k = k + 1;
    }
    false
}

impl LogFilter {
    /// Run one raw line through the filter: `None` when the line is
    /// dropped, otherwise the colorized line.
    pub fn matches(&self, line: &[u8]) -> (r: Option<Vec<u8>>)
        requires
            self.wf(),
        ensures
            (r is Some) == spec_passes(*self, line@),
            r matches Some(v) ==> spec_line_output(*self, line@, v@),
    {
        let ghost l = line@;
        if all_space_exec(line) {
            return None;
        }
        let low = to_lower_vec(line);
        if self.show_items.len() > 0 && !contains_any_exec(low.as_slice(), &self.show_items) {
            return None;
        }
        if contains_any_exec(low.as_slice(), &self.blacklisted_items) {
            return None;
        }
        let parts = tokenize(line);
        let ghost toks = views_of(parts@);
        let ghost fmt = spec_detect_format(toks);
        let idx = Self::get_level_and_tag_indices(&parts);
        let level_idx = idx.0;
        let tag_idx = idx.1;
        if parts.len() <= tag_idx {
            return None;
        }
        proof {
            assert(toks[level_idx as int] == parts@[level_idx as int]@);
            assert(toks[tag_idx as int] == parts@[tag_idx as int]@);
        }
        if self.levels.len() > 0 {
            if !level_allowed_exec(&self.levels, parts[level_idx].as_slice()) {
                proof {
                    assert(views_of(self.levels@).len() == self.levels@.len());
                    assert(!level_allowed(views_of(self.levels@), toks[spec_level_index(fmt)]));
                }
                return None;
            }
        }
        let line_tag = strip_trailing_colons_exec(parts[tag_idx].as_slice());
        if !self.tags.contains_tag(line_tag.as_slice()) {
            return None;
        }
        proof {
            assert(spec_passes(*self, l));
        }
        let mut out: Vec<u8> = Vec::new();
        let mut i: usize = 0;
        while i < level_idx
            invariant
                toks == views_of(parts@),
                toks.len() == parts@.len(),
                i <= level_idx,
                level_idx < tag_idx < parts@.len(),
                out@ == join_spaced(toks, 0, i as int),
            decreases level_idx - i,
        {
            proof {
                assert(toks[i as int] == parts@[i as int]@);
            }
            let ghost pre = out@;
            push_all(&mut out, parts[i].as_slice());
            out.push(32);
            proof {
                assert(out@ =~= pre + toks[i as int] + seq![32u8]);
            }
            i = i + 1;
        }
        let ghost stage1 = out@;
        let lc = Self::get_level_color(parts[level_idx].as_slice());
        push_all(&mut out, lc.as_slice());
        push_all(&mut out, parts[level_idx].as_slice());
        let rst = reset_code();
        push_all(&mut out, rst.as_slice());
        out.push(32);
        let ghost stage2 = out@;
        proof {
            assert(stage2 =~= stage1 + spec_level_color(toks[level_idx as int])
                + toks[level_idx as int] + reset_seq() + seq![32u8]);
        }
        let mut j: usize = level_idx + 1;
        while j < tag_idx
            invariant
                toks == views_of(parts@),
                toks.len() == parts@.len(),
                level_idx + 1 <= j <= tag_idx,
                tag_idx < parts@.len(),
                out@ == stage2 + join_spaced(toks, level_idx + 1, j as int),
            decreases tag_idx - j,
        {
            proof {
                assert(toks[j as int] == parts@[j as int]@);
            }
            let ghost pre = out@;
            push_all(&mut out, parts[j].as_slice());
            out.push(32);
            proof {
                assert(out@ =~= pre + toks[j as int] + seq![32u8]);
                assert(out@ =~= stage2 + (join_spaced(toks, level_idx + 1, j as int)
                    + toks[j as int] + seq![32u8]));
            }
            j = j + 1;
        }
        let tc = self.get_tag_color(line_tag.as_slice());
        push_all(&mut out, tc.as_slice());
        push_all(&mut out, parts[tag_idx].as_slice());
        let rst2 = reset_code();
        push_all(&mut out, rst2.as_slice());
        proof {
            assert(out@ =~= spec_line_prefix(*self, l));
        }
        if parts.len() > tag_idx + 1 {
            out.push(32);
            let ghost stage3 = out@;
            let message = join_range(&parts, tag_idx + 1, parts.len());
            let h = self.message_highlighter.highlight_message(message.as_slice());
            push_all(&mut out, h.as_slice());
            proof {
                assert(stage3 =~= spec_line_prefix(*self, l) + seq![32u8]);
                assert(out@ =~= spec_line_prefix(*self, l) + seq![32u8] + h@);
                assert(spec_highlight_ok(
                    self.message_highlighter,
                    join_tokens(toks, tag_idx + 1, toks.len() as int),
                    h@,
                ));
                assert(spec_line_output(*self, l, out@));
            }
            Some(out)
        } else {
            proof {
                assert(spec_line_output(*self, l, out@));
            }
            Some(out)
        }
    }
}

/// Under the two full layouts the detected level and tag indices point at
/// real tokens of the line: detection admits those layouts only when the
/// token count covers them, so re-extracting the level and tag reads the
/// very tokens the line holds at those positions.
pub proof fn lemma_full_format_indices(toks: Seq<Seq<u8>>)
    ensures
        spec_detect_format(toks) == LogFormat::FullWithPidTid ==> toks.len() >= 7
            && spec_level_index(spec_detect_format(toks)) == 5 && spec_tag_index(
            spec_detect_format(toks),
        ) == 6,
        spec_detect_format(toks) == LogFormat::Full ==> toks.len() >= 6 && spec_level_index(
            spec_detect_format(toks),
        ) == 4 && spec_tag_index(spec_detect_format(toks)) == 5,
{
}

/// A blank line is dropped under every configuration.
pub proof fn lemma_blank_line_drops(f: LogFilter, line: Seq<u8>)
    requires
        all_space(line),
    ensures
        !spec_passes(f, line),
{
}

} // verus!
