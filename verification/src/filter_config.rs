//! Filter configuration: tag classification and the translation of raw
//! comma-separated user options into the level, tag and substring lists the
//! filter engine consumes.

use vstd::prelude::*;

verus! {

use vstd::string::StrSliceExecFns;
use vstd::string::StringSliceAdditionalSpecFns;

use crate::bytes::{
    contains_bytes, contains_seq, copy_range, lower_seq, split_commas, split_commas_exec,
    to_lower_vec, trim_bytes, trim_spaces, views_of,
};

/// Some needle of `needles` occurs in `hay`.
pub open spec fn contains_any(hay: Seq<u8>, needles: Seq<Seq<u8>>) -> bool {
    exists|k: int| 0 <= k < needles.len() && contains_seq(hay, needles[k])
}

/// Does any of `needles` occur in `hay`?
pub fn contains_any_exec(hay: &[u8], needles: &Vec<Vec<u8>>) -> (r: bool)
    ensures
        r == contains_any(hay@, views_of(needles@)),
{
    let mut k: usize = 0;
    while k < needles.len()
        invariant
            k <= needles@.len(),
            forall|j: int| 0 <= j < k ==> !contains_seq(hay@, views_of(needles@)[j]),
        decreases needles@.len() - k,
    {
        if contains_bytes(hay, needles[k].as_slice()) {
            assert(contains_seq(hay@, views_of(needles@)[k as int]));
            return true;
        }
        k = k + 1;
    }
    false
}

/// A tag is a step tag when its name holds the substring `Step`.
pub open spec fn is_step_tag(t: Seq<u8>) -> bool {
    contains_seq(t, "Step".spec_bytes())
}

/// A tag is an engine tag when it is no step tag and holds `Engine`.
pub open spec fn is_engine_tag(t: Seq<u8>) -> bool {
    !is_step_tag(t) && contains_seq(t, "Engine".spec_bytes())
}

/// A tag is a top-level class when it holds neither `Step` nor `Engine`.
pub open spec fn is_top_tag(t: Seq<u8>) -> bool {
    !contains_seq(t, "Step".spec_bytes()) && !contains_seq(t, "Engine".spec_bytes())
}

/// The step tags of a tag list, in order.
pub open spec fn steps_of(ts: Seq<Seq<u8>>) -> Seq<Seq<u8>>
    decreases ts.len(),
{
    if ts.len() == 0 {
        Seq::empty()
    } else {
        let rest = steps_of(ts.drop_last());
        if is_step_tag(ts.last()) {
            rest.push(ts.last())
        } else {
            rest
        }
    }
}

/// The engine tags of a tag list, in order.
pub open spec fn engines_of(ts: Seq<Seq<u8>>) -> Seq<Seq<u8>>
    decreases ts.len(),
{
    if ts.len() == 0 {
        Seq::empty()
    } else {
        let rest = engines_of(ts.drop_last());
        if is_engine_tag(ts.last()) {
            rest.push(ts.last())
        } else {
            rest
        }
    }
}

/// The top-level class tags of a tag list, in order.
pub open spec fn tops_of(ts: Seq<Seq<u8>>) -> Seq<Seq<u8>>
    decreases ts.len(),
{
    if ts.len() == 0 {
        Seq::empty()
    } else {
        let rest = tops_of(ts.drop_last());
        if is_top_tag(ts.last()) {
            rest.push(ts.last())
        } else {
            rest
        }
    }
}

/// A tag belongs to exactly one of the three display categories.
pub proof fn lemma_tag_class_exclusive(t: Seq<u8>)
    ensures
        is_step_tag(t) || is_engine_tag(t) || is_top_tag(t),
        is_step_tag(t) ==> !is_engine_tag(t) && !is_top_tag(t),
        is_engine_tag(t) ==> !is_step_tag(t) && !is_top_tag(t),
        is_top_tag(t) ==> !is_step_tag(t) && !is_engine_tag(t),
{
}

/// The three category lists of a tag list partition it: together they hold
/// exactly as many tags as were configured, so with the class exclusivity
/// every configured tag appears in exactly one list.
pub proof fn lemma_tags_partition(ts: Seq<Seq<u8>>)
    ensures
        steps_of(ts).len() + engines_of(ts).len() + tops_of(ts).len() == ts.len(),
    decreases ts.len(),
{
    if ts.len() > 0 {
        lemma_tags_partition(ts.drop_last());
    }
}

/// The configured tags partitioned into three display categories: a tag
/// whose name holds `Step` is a step, else one holding `Engine` is an
/// engine, else it is a top-level class; `all_tags` keeps every tag.
pub struct TagCategories {
    pub top_classes: Vec<Vec<u8>>,
    pub steps: Vec<Vec<u8>>,
    pub engines: Vec<Vec<u8>>,
    pub all_tags: Vec<Vec<u8>>,
}

/// A log line's tag matches the configuration when the lowercased observed
/// tag holds some lowercased configured term as a substring.
pub open spec fn spec_contains_tag(tc: TagCategories, tag: Seq<u8>) -> bool {
    exists|k: int|
        0 <= k < tc.all_tags@.len() && contains_seq(
            lower_seq(tag),
            lower_seq(views_of(tc.all_tags@)[k]),
        )
}

impl TagCategories {
    /// Partition a configured tag list; every tag lands in exactly one of
    /// the three category lists and stays in `all_tags`.
    pub fn new(tags: Vec<Vec<u8>>) -> (r: Self)
        ensures
            views_of(r.all_tags@) == views_of(tags@),
            views_of(r.steps@) == steps_of(views_of(tags@)),
            views_of(r.engines@) == engines_of(views_of(tags@)),
            views_of(r.top_classes@) == tops_of(views_of(tags@)),
    {
        let ghost tv = views_of(tags@);
        let step_pat = "Step".as_bytes_vec();
        let engine_pat = "Engine".as_bytes_vec();
        let mut top_classes: Vec<Vec<u8>> = Vec::new();
        let mut steps: Vec<Vec<u8>> = Vec::new();
        let mut engines: Vec<Vec<u8>> = Vec::new();
        let mut i: usize = 0;
        while i < tags.len()
            invariant
                tv == views_of(tags@),
                tv.len() == tags@.len(),
                i <= tags@.len(),
                step_pat@ == "Step".spec_bytes(),
                engine_pat@ == "Engine".spec_bytes(),
                views_of(steps@) == steps_of(tv.subrange(0, i as int)),
                views_of(engines@) == engines_of(tv.subrange(0, i as int)),
                views_of(top_classes@) == tops_of(tv.subrange(0, i as int)),
            decreases tags@.len() - i,
        {
            proof {
                assert(tv.subrange(0, i + 1).drop_last() =~= tv.subrange(0, i as int));
                assert(tv.subrange(0, i + 1).last() == tv[i as int]);
                assert(tv[i as int] == tags@[i as int]@);
            }
            let tag = &tags[i];
            let copy = copy_range(tag.as_slice(), 0, tag.len());
            assert(copy@ =~= tag@);
            if contains_bytes(tag.as_slice(), step_pat.as_slice()) {
                Self::add_tag(copy, &mut steps);
                assert(views_of(steps@) =~= views_of(steps@.drop_last()).push(steps@.last()@));
            } else if contains_bytes(tag.as_slice(), engine_pat.as_slice()) {
                Self::add_tag(copy, &mut engines);
                assert(views_of(engines@) =~= views_of(engines@.drop_last()).push(
                    engines@.last()@,
                ));
            } else {
                Self::add_tag(copy, &mut top_classes);
                assert(views_of(top_classes@) =~= views_of(top_classes@.drop_last()).push(
                    top_classes@.last()@,
                ));
            }
            i = i + 1;
        }
        assert(tv.subrange(0, tv.len() as int) =~= tv);
        TagCategories { top_classes, steps, engines, all_tags: tags }
    }

    fn add_tag(tag: Vec<u8>, collection: &mut Vec<Vec<u8>>)
        ensures
            final(collection)@ == old(collection)@.push(tag),
    {
        collection.push(tag);
    }

    /// Does the observed tag match any configured term, case-insensitively?
    pub fn contains_tag(&self, tag: &[u8]) -> (r: bool)
        ensures
            r == spec_contains_tag(*self, tag@),
    {
        let tag_lower = to_lower_vec(tag);
        let mut k: usize = 0;
        while k < self.all_tags.len()
            invariant
                tag_lower@ == lower_seq(tag@),
                forall|j: int|
                    0 <= j < k ==> !contains_seq(
                        lower_seq(tag@),
                        lower_seq(views_of(self.all_tags@)[j]),
                    ),
                k <= self.all_tags@.len(),
            decreases self.all_tags@.len() - k,
        {
            let term_lower = to_lower_vec(self.all_tags[k].as_slice());
            if contains_bytes(tag_lower.as_slice(), term_lower.as_slice()) {
                assert(contains_seq(lower_seq(tag@), lower_seq(views_of(self.all_tags@)[k as int])));
                return true;
            }
            k = k + 1;
        }
        false
    }
}

/// The user options the configuration is parsed from, as plain values: the
/// comma-separated option strings exactly as given on the command line.
pub struct Args {
    pub file: Option<Vec<u8>>,
    pub logcat_levels: Vec<u8>,
    pub tags: Vec<u8>,
    pub add_tag: Vec<Vec<u8>>,
    pub no_tag_filter: bool,
    pub guidance: bool,
    pub routing: bool,
    pub mapmatching: bool,
    pub verbosity_level: Vec<u8>,
    pub highlighted_items: Vec<u8>,
    pub show_items: Vec<u8>,
}

/// The filter configuration consumed by the engine.
pub struct FilterConfig {
    pub levels: Vec<Vec<u8>>,
    pub tags: TagCategories,
    pub blacklisted_items: Vec<Vec<u8>>,
    pub highlighted_items: Vec<Vec<u8>>,
    pub show_items: Vec<Vec<u8>>,
}

/// The level forms one comma segment stands for: a known single-letter code
/// gives its short and long form; anything else defaults to info.
pub open spec fn level_forms(seg: Seq<u8>) -> Seq<Seq<u8>> {
    if seg == "D".spec_bytes() {
        seq!["D".spec_bytes(), "DEBUG".spec_bytes()]
    } else if seg == "E".spec_bytes() {
        seq!["E".spec_bytes(), "ERROR".spec_bytes()]
    } else if seg == "W".spec_bytes() {
        seq!["W".spec_bytes(), "WARN".spec_bytes()]
    } else if seg == "T".spec_bytes() {
        seq!["T".spec_bytes(), "TRACE".spec_bytes()]
    } else {
        seq!["I".spec_bytes(), "INFO".spec_bytes()]
    }
}

pub open spec fn levels_of_segments(segs: Seq<Seq<u8>>) -> Seq<Seq<u8>>
    decreases segs.len(),
{
    if segs.len() == 0 {
        Seq::empty()
    } else {
        levels_of_segments(segs.drop_last()) + level_forms(segs.last())
    }
}

/// The level set a comma-separated level string stands for.
pub open spec fn spec_to_levels(s: Seq<u8>) -> Seq<Seq<u8>> {
    levels_of_segments(split_commas(s))
}

/// Every item of `ts` trimmed of ASCII whitespace at both ends, in order.
pub open spec fn trimmed_of(ts: Seq<Seq<u8>>) -> Seq<Seq<u8>>
    decreases ts.len(),
{
    if ts.len() == 0 {
        Seq::empty()
    } else {
        trimmed_of(ts.drop_last()).push(trim_spaces(ts.last()))
    }
}

/// A comma-separated list split into its whitespace-trimmed items.
pub open spec fn spec_to_tags(s: Seq<u8>) -> Seq<Seq<u8>> {
    trimmed_of(split_commas(s))
}

/// The tags of `ts` in which none of `pats` occurs, in order.
pub open spec fn without_containing(ts: Seq<Seq<u8>>, pats: Seq<Seq<u8>>) -> Seq<Seq<u8>>
    decreases ts.len(),
{
    if ts.len() == 0 {
        Seq::empty()
    } else {
        let rest = without_containing(ts.drop_last(), pats);
        if !contains_any(ts.last(), pats) {
            rest.push(ts.last())
        } else {
            rest
        }
    }
}

pub open spec fn guidance_pats() -> Seq<Seq<u8>> {
    seq!["Guidance".spec_bytes(), "Warning".spec_bytes()]
}

pub open spec fn routing_pats() -> Seq<Seq<u8>> {
    seq!["Planner".spec_bytes()]
}

pub open spec fn mapmatching_pats() -> Seq<Seq<u8>> {
    seq!["Match".spec_bytes(), "Project".spec_bytes()]
}

/// The configured tag list after the three toggles: the split and trimmed
/// tag option plus the extra tags, with guidance, routing and map-matching
/// tags removed unless their toggle is set.
pub open spec fn spec_config_tags(a: Args) -> Seq<Seq<u8>> {
    let base = spec_to_tags(a.tags@) + views_of(a.add_tag@);
    let g = if a.guidance {
        base
    } else {
        without_containing(base, guidance_pats())
    };
    let r = if a.routing {
        g
    } else {
        without_containing(g, routing_pats())
    };
    if a.mapmatching {
        r
    } else {
        without_containing(r, mapmatching_pats())
    }
}

/// The exclude list: guidance-related noise unless guidance is enabled.
pub open spec fn spec_blacklist(a: Args) -> Seq<Seq<u8>> {
    if a.guidance {
        Seq::empty()
    } else {
        seq!["guidance".spec_bytes(), "instruction".spec_bytes(), "warning".spec_bytes()]
    }
}

/// An empty option string stands for no items at all; otherwise it is split
/// at commas and each item trimmed.
pub open spec fn spec_items(s: Seq<u8>) -> Seq<Seq<u8>> {
    if s.len() == 0 {
        Seq::empty()
    } else {
        spec_to_tags(s)
    }
}

/// Keep only the tags in which none of `pats` occurs.
fn remove_containing(tags: Vec<Vec<u8>>, pats: &Vec<Vec<u8>>) -> (r: Vec<Vec<u8>>)
    ensures
        views_of(r@) == without_containing(views_of(tags@), views_of(pats@)),
{
    let ghost tv = views_of(tags@);
    let mut out: Vec<Vec<u8>> = Vec::new();
    let mut i: usize = 0;
    while i < tags.len()
        invariant
            tv == views_of(tags@),
            tv.len() == tags@.len(),
            i <= tags@.len(),
            views_of(out@) == without_containing(tv.subrange(0, i as int), views_of(pats@)),
        decreases tags@.len() - i,
    {
        proof {
            assert(tv.subrange(0, i + 1).drop_last() =~= tv.subrange(0, i as int));
            assert(tv.subrange(0, i + 1).last() == tv[i as int]);
            assert(tv[i as int] == tags@[i as int]@);
        }
        let tag = &tags[i];
        if !contains_any_exec(tag.as_slice(), pats) {
            let copy = copy_range(tag.as_slice(), 0, tag.len());
            assert(copy@ =~= tag@);
            out.push(copy);
            assert(views_of(out@) =~= views_of(out@.drop_last()).push(out@.last()@));
        }
        i = i + 1;
    }
    assert(tv.subrange(0, tv.len() as int) =~= tv);
    out
}

impl FilterConfig {
    /// The level set a comma-separated level string stands for; unknown
    /// segments default to info.
    pub fn to_levels(levels_str: &[u8]) -> (r: Vec<Vec<u8>>)
        ensures
            views_of(r@) == spec_to_levels(levels_str@),
    {
        let segs = split_commas_exec(levels_str);
        let ghost sv = views_of(segs@);
        let mut out: Vec<Vec<u8>> = Vec::new();
        let mut i: usize = 0;
        while i < segs.len()
            invariant
                sv == views_of(segs@),
                sv.len() == segs@.len(),
                i <= segs@.len(),
                views_of(out@) == levels_of_segments(sv.subrange(0, i as int)),
            decreases segs@.len() - i,
        {
            proof {
                assert(sv.subrange(0, i + 1).drop_last() =~= sv.subrange(0, i as int));
                assert(sv.subrange(0, i + 1).last() == sv[i as int]);
                assert(sv[i as int] == segs@[i as int]@);
            }
            let ghost pre = views_of(out@);
            let seg = &segs[i];
            if crate::bytes::bytes_eq(seg.as_slice(), "D".as_bytes_vec().as_slice()) {
                out.push("D".as_bytes_vec());
                out.push("DEBUG".as_bytes_vec());
            } else if crate::bytes::bytes_eq(seg.as_slice(), "E".as_bytes_vec().as_slice()) {
                out.push("E".as_bytes_vec());
                out.push("ERROR".as_bytes_vec());
            } else if crate::bytes::bytes_eq(seg.as_slice(), "W".as_bytes_vec().as_slice()) {
                out.push("W".as_bytes_vec());
                out.push("WARN".as_bytes_vec());
            } else if crate::bytes::bytes_eq(seg.as_slice(), "T".as_bytes_vec().as_slice()) {
                out.push("T".as_bytes_vec());
                out.push("TRACE".as_bytes_vec());
            } else {
                out.push("I".as_bytes_vec());
                out.push("INFO".as_bytes_vec());
            }
            proof {
                assert(views_of(out@) =~= pre + level_forms(sv[i as int]));
                assert(views_of(out@) =~= levels_of_segments(sv.subrange(0, i + 1)));
            }
            i = i + 1;
        }
        assert(sv.subrange(0, sv.len() as int) =~= sv);
        out
    }

    /// Split a comma-separated tag list and trim each entry.
    pub fn to_tags(tags_str: &[u8]) -> (r: Vec<Vec<u8>>)
        ensures
            views_of(r@) == spec_to_tags(tags_str@),
    {
        let segs = split_commas_exec(tags_str);
        let ghost sv = views_of(segs@);
        let mut out: Vec<Vec<u8>> = Vec::new();
        let mut i: usize = 0;
        while i < segs.len()
            invariant
                sv == views_of(segs@),
                sv.len() == segs@.len(),
                i <= segs@.len(),
                views_of(out@) == trimmed_of(sv.subrange(0, i as int)),
            decreases segs@.len() - i,
        {
            proof {
                assert(sv.subrange(0, i + 1).drop_last() =~= sv.subrange(0, i as int));
                assert(sv.subrange(0, i + 1).last() == sv[i as int]);
                assert(sv[i as int] == segs@[i as int]@);
            }
            let ghost pre = out@;
            let trimmed = trim_bytes(segs[i].as_slice());
            let ghost tr = trimmed@;
            out.push(trimmed);
            proof {
                assert(views_of(out@) =~= views_of(pre).push(tr));
                assert(views_of(out@) =~= trimmed_of(sv.subrange(0, i + 1)));
            }
            i = i + 1;
        }
        assert(sv.subrange(0, sv.len() as int) =~= sv);
        out
    }

    /// Build the whole configuration from the raw options: levels and tags
    /// split from their comma strings, extra tags appended, the three
    /// toggles applied to tags and exclude list, and the item lists split
    /// and trimmed.
    pub fn parse(args: &Args) -> (r: Self)
        ensures
            views_of(r.levels@) == spec_to_levels(args.logcat_levels@),
            views_of(r.tags.all_tags@) == spec_config_tags(*args),
            views_of(r.tags.steps@) == steps_of(spec_config_tags(*args)),
            views_of(r.tags.engines@) == engines_of(spec_config_tags(*args)),
            views_of(r.tags.top_classes@) == tops_of(spec_config_tags(*args)),
            views_of(r.blacklisted_items@) == spec_blacklist(*args),
            views_of(r.highlighted_items@) == spec_items(args.highlighted_items@),
            views_of(r.show_items@) == spec_items(args.show_items@),
    {
        let levels = Self::to_levels(args.logcat_levels.as_slice());
        let mut tags = Self::to_tags(args.tags.as_slice());
        let mut blacklisted_items: Vec<Vec<u8>> = Vec::new();
        let mut highlighted_items: Vec<Vec<u8>> = Vec::new();
        let mut show_items: Vec<Vec<u8>> = Vec::new();

        let ghost base = spec_to_tags(args.tags@) + views_of(args.add_tag@);
        let mut i: usize = 0;
        while i < args.add_tag.len()
            invariant
                i <= args.add_tag@.len(),
                views_of(tags@) =~= spec_to_tags(args.tags@) + views_of(
                    args.add_tag@.subrange(0, i as int),
                ),
            decreases args.add_tag@.len() - i,
        {
            let extra = &args.add_tag[i];
            let copy = copy_range(extra.as_slice(), 0, extra.len());
            assert(copy@ =~= extra@);
            let ghost pre = tags@;
            let ghost cv = copy@;
            tags.push(copy);
            proof {
                assert(views_of(tags@) =~= views_of(pre).push(cv));
                assert(views_of(args.add_tag@.subrange(0, i + 1)) =~= views_of(
                    args.add_tag@.subrange(0, i as int),
                ).push(args.add_tag@[i as int]@));
                assert(views_of(tags@) =~= spec_to_tags(args.tags@) + views_of(
                    args.add_tag@.subrange(0, i + 1),
                ));
            }
            i = i + 1;
        }
        proof {
            assert(args.add_tag@.subrange(0, args.add_tag@.len() as int) =~= args.add_tag@);
            assert(views_of(tags@) =~= base);
        }

        if !args.guidance {
            let mut pats: Vec<Vec<u8>> = Vec::new();
            pats.push("Guidance".as_bytes_vec());
            pats.push("Warning".as_bytes_vec());
            assert(views_of(pats@) =~= guidance_pats());
            tags = remove_containing(tags, &pats);
            blacklisted_items.push("guidance".as_bytes_vec());
            blacklisted_items.push("instruction".as_bytes_vec());
            blacklisted_items.push("warning".as_bytes_vec());
            assert(views_of(blacklisted_items@) =~= spec_blacklist(*args));
        } else {
            assert(views_of(blacklisted_items@) =~= spec_blacklist(*args));
        }

        if !args.routing {
            let mut pats: Vec<Vec<u8>> = Vec::new();
            pats.push("Planner".as_bytes_vec());
            assert(views_of(pats@) =~= routing_pats());
            tags = remove_containing(tags, &pats);
        }

        if !args.mapmatching {
            let mut pats: Vec<Vec<u8>> = Vec::new();
            pats.push("Match".as_bytes_vec());
            pats.push("Project".as_bytes_vec());
            assert(views_of(pats@) =~= mapmatching_pats());
            tags = remove_containing(tags, &pats);
        }
        assert(views_of(tags@) == spec_config_tags(*args));

        if args.highlighted_items.len() > 0 {
            highlighted_items = Self::to_tags(args.highlighted_items.as_slice());
        }
        if args.show_items.len() > 0 {
            show_items = Self::to_tags(args.show_items.as_slice());
        }
        assert(views_of(highlighted_items@) =~= spec_items(args.highlighted_items@));
        assert(views_of(show_items@) =~= spec_items(args.show_items@));

        FilterConfig {
            levels,
            tags: TagCategories::new(tags),
            blacklisted_items,
            highlighted_items,
            show_items,
        }
    }
}

} // verus!
