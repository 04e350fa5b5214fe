//! Word-boundary-aware vocabulary matching over a message, overlap
//! resolution by category priority, and ANSI rendering of the survivors.

use vstd::prelude::*;

verus! {

use crate::bytes::{
    all_space, contains_seq, copy_range, is_boundary, is_boundary_byte, lower_seq, matches_at,
    occurs_at, push_all, to_lower_vec, views_of,
};
use crate::color::{
    category_color, category_color_code, priority, priority_exec, reset_code, reset_seq, Category,
};

/// One accepted occurrence of a vocabulary term: byte offsets into the
/// message, half open, and the category whose color it gets.
#[derive(Clone, Copy, Debug, PartialEq, Eq, Structural)]
pub struct Match {
    pub start: usize,
    pub end: usize,
    pub category: Category,
}

impl Match {
    pub fn new(start: usize, end: usize, category: Category) -> (r: Self)
        ensures
            r == (Match { start, end, category }),
    {
        Match { start, end, category }
    }
}

/// One vocabulary rule: a list of lowercase terms sharing one category.
#[derive(Clone, Debug)]
pub struct HighlightRule {
    pub terms: Vec<Vec<u8>>,
    pub category: Category,
}

/// The four vocabulary rules of the engine, one per category.
#[derive(Clone, Debug)]
pub struct MessageHighlighter {
    pub red_rule: HighlightRule,
    pub yellow_rule: HighlightRule,
    pub green_rule: HighlightRule,
    pub custom_rule: HighlightRule,
}

/// Both sides of `[s, e)` in `low` sit on a word boundary (or on an end of
/// the string).
pub open spec fn boundary_ok(low: Seq<u8>, s: int, e: int) -> bool {
    &&& (s == 0 || is_boundary(low[s - 1]))
    &&& (e == low.len() || is_boundary(low[e]))
}

/// `m` is an occurrence of some non-empty term of `terms` in the lowercased
/// message `low`, on word boundaries, carrying category `cat`.
pub open spec fn rule_match(low: Seq<u8>, terms: Seq<Seq<u8>>, cat: Category, m: Match) -> bool {
    exists|k: int|
        {
            &&& 0 <= k < terms.len()
            &&& terms[k].len() > 0
            &&& m.end == m.start + terms[k].len()
            &&& occurs_at(low, terms[k], m.start as int)
            &&& boundary_ok(low, m.start as int, m.end as int)
            &&& m.category == cat
        }
}

impl MessageHighlighter {
    /// Each rule carries the category its terms are highlighted with.
    pub open spec fn wf(self) -> bool {
        &&& self.red_rule.category == Category::Error
        &&& self.yellow_rule.category == Category::Event
        &&& self.green_rule.category == Category::Success
        &&& self.custom_rule.category == Category::Custom
    }

    /// Build a highlighter from four term lists, one per category. The terms
    /// are stored as given; callers lowercase them first.
    pub fn new(
        red_words: Vec<Vec<u8>>,
        green_words: Vec<Vec<u8>>,
        yellow_words: Vec<Vec<u8>>,
        custom_words: Vec<Vec<u8>>,
    ) -> (r: Self)
        ensures
            r.wf(),
            r.red_rule.terms == red_words,
            r.green_rule.terms == green_words,
            r.yellow_rule.terms == yellow_words,
            r.custom_rule.terms == custom_words,
    {
        MessageHighlighter {
            red_rule: HighlightRule { terms: red_words, category: Category::Error },
            yellow_rule: HighlightRule { terms: yellow_words, category: Category::Event },
            green_rule: HighlightRule { terms: green_words, category: Category::Success },
            custom_rule: HighlightRule { terms: custom_words, category: Category::Custom },
        }
    }
}

/// `m` is an occurrence of a term of one of the four rules.
pub open spec fn accepted_match(h: MessageHighlighter, low: Seq<u8>, m: Match) -> bool {
    ||| rule_match(low, views_of(h.red_rule.terms@), Category::Error, m)
    ||| rule_match(low, views_of(h.yellow_rule.terms@), Category::Event, m)
    ||| rule_match(low, views_of(h.green_rule.terms@), Category::Success, m)
    ||| rule_match(low, views_of(h.custom_rule.terms@), Category::Custom, m)
}

pub open spec fn sorted_by_start(ms: Seq<Match>) -> bool {
    forall|i: int, j: int| 0 <= i < j < ms.len() ==> ms[i].start <= ms[j].start
}

/// `ms` is the full list of accepted matches of `h` in `low`, in ascending
/// start order: every listed match is accepted, and every accepted match is
/// listed.
pub open spec fn candidate_list(h: MessageHighlighter, low: Seq<u8>, ms: Seq<Match>) -> bool {
    &&& sorted_by_start(ms)
    &&& forall|i: int| 0 <= i < ms.len() ==> accepted_match(h, low, #[trigger] ms[i])
    &&& forall|m: Match| accepted_match(h, low, m) ==> ms.contains(m)
}

/// A scratch view of one message: the original bytes for output slicing and
/// the lowercased copy that matching runs on.
pub struct MessageProcessor {
    pub message: Vec<u8>,
    pub message_lower: Vec<u8>,
}

impl MessageProcessor {
    pub open spec fn wf(self) -> bool {
        self.message_lower@ == lower_seq(self.message@)
    }

    pub fn new(message: &[u8]) -> (r: Self)
        ensures
            r.wf(),
            r.message@ == message@,
    {
        let owned = copy_range(message, 0, message.len());
        let lowered = to_lower_vec(message);
        assert(message@.subrange(0, message@.len() as int) =~= message@);
        MessageProcessor { message: owned, message_lower: lowered }
    }

    /// Do both sides of `[pos, pos + word_len)` sit on a word boundary?
    pub fn is_complete_match(&self, pos: usize, word_len: usize) -> (r: bool)
        requires
            pos + word_len <= self.message_lower@.len(),
        ensures
            r == boundary_ok(self.message_lower@, pos as int, pos + word_len),
    {
        let n = self.message_lower.len();
        let starts_at_boundary = pos == 0 || is_boundary_byte(self.message_lower[pos - 1]);
        let ends_at_boundary = pos + word_len == n || is_boundary_byte(
            self.message_lower[pos + word_len],
        );
        starts_at_boundary && ends_at_boundary
    }

    /// Append to `out` every match of a non-empty term of `terms` that starts
    /// at `p`, in term order.
    fn scan_rule_at(&self, out: &mut Vec<Match>, terms: &Vec<Vec<u8>>, cat: Category, p: usize)
        requires
            p <= self.message_lower@.len(),
        ensures
            final(out)@.len() >= old(out)@.len(),
            forall|i: int| 0 <= i < old(out)@.len() ==> final(out)@[i] == old(out)@[i],
            forall|i: int|
                old(out)@.len() <= i < final(out)@.len() ==> {
                    &&& (#[trigger] final(out)@[i]).start == p
                    &&& rule_match(self.message_lower@, views_of(terms@), cat, final(out)@[i])
                },
            forall|m: Match|
                rule_match(self.message_lower@, views_of(terms@), cat, m) && m.start == p
                    ==> final(out)@.contains(m),
    {
        let ghost low = self.message_lower@;
        let ghost tv = views_of(terms@);
        let n = self.message_lower.len();
        let mut k: usize = 0;
        while k < terms.len()
            invariant
                p <= low.len() <= usize::MAX,
                low == self.message_lower@,
                tv == views_of(terms@),
                tv.len() == terms@.len(),
                k <= terms@.len(),
                out@.len() >= old(out)@.len(),
                forall|i: int| 0 <= i < old(out)@.len() ==> out@[i] == old(out)@[i],
                forall|i: int|
                    old(out)@.len() <= i < out@.len() ==> {
                        &&& (#[trigger] out@[i]).start == p
                        &&& rule_match(low, tv, cat, out@[i])
                    },
                forall|kk: int|
                    0 <= kk < k && tv[kk].len() > 0 && occurs_at(low, tv[kk], p as int)
                        && boundary_ok(low, p as int, p + tv[kk].len()) ==> out@.contains(
                        Match { start: p, end: (p + tv[kk].len()) as usize, category: cat },
                    ),
            decreases terms@.len() - k,
        {
            proof {
                assert(tv[k as int] == terms@[k as int]@);
            }
            let term = &terms[k];
            if term.len() > 0 && matches_at(self.message_lower.as_slice(), term.as_slice(), p) {
                let tlen = term.len();
                if self.is_complete_match(p, tlen) {
                    let ghost prev = out@;
                    let m = Match { start: p, end: p + tlen, category: cat };
                    out.push(m);
                    proof {
                        assert(out@[prev.len() as int] == m);
                        assert(out@.contains(m));
                        assert(rule_match(low, tv, cat, m));
                        assert forall|x: Match| prev.contains(x) implies out@.contains(x) by {
                            let i = choose|i: int| 0 <= i < prev.len() && prev[i] == x;
                            assert(out@[i] == x);
                        }
                    }
                }
            }
            k = k + 1;
        }
        assert forall|m: Match|
            rule_match(low, tv, cat, m) && m.start == p implies out@.contains(m) by {
            let kk = choose|kk: int|
                {
                    &&& 0 <= kk < tv.len()
                    &&& tv[kk].len() > 0
                    &&& m.end == m.start + tv[kk].len()
                    &&& occurs_at(low, tv[kk], m.start as int)
                    &&& boundary_ok(low, m.start as int, m.end as int)
                    &&& m.category == cat
                };
            assert(out@.contains(
                Match { start: p, end: (p + tv[kk].len()) as usize, category: cat },
            ));
        }
    }

    /// All accepted matches of the four rules, in ascending start order; at
    /// one start position the rules are scanned error, event, success,
    /// custom.
    fn find_candidates(&self, highlighter: &MessageHighlighter) -> (r: Vec<Match>)
        requires
            highlighter.wf(),
        ensures
            candidate_list(*highlighter, self.message_lower@, r@),
    {
        let ghost low = self.message_lower@;
        let ghost h = *highlighter;
        let mut out: Vec<Match> = Vec::new();
        let mut p: usize = 0;
        while p < self.message_lower.len()
            invariant
                low == self.message_lower@,
                h == *highlighter,
                highlighter.wf(),
                p <= low.len(),
                forall|i: int| 0 <= i < out@.len() ==> (#[trigger] out@[i]).start < p,
                sorted_by_start(out@),
                forall|i: int| 0 <= i < out@.len() ==> accepted_match(h, low, #[trigger] out@[i]),
                forall|m: Match| accepted_match(h, low, m) && m.start < p ==> out@.contains(m),
            decreases low.len() - p,
        {
            let ghost o0 = out@;
            self.scan_rule_at(&mut out, &highlighter.red_rule.terms, Category::Error, p);
            let ghost o1 = out@;
            self.scan_rule_at(&mut out, &highlighter.yellow_rule.terms, Category::Event, p);
            let ghost o2 = out@;
            self.scan_rule_at(&mut out, &highlighter.green_rule.terms, Category::Success, p);
            let ghost o3 = out@;
            self.scan_rule_at(&mut out, &highlighter.custom_rule.terms, Category::Custom, p);
            proof {
                assert forall|i: int| 0 <= i < o1.len() implies out@[i] == o1[i] by {
                    assert(o2[i] == o1[i]);
                    assert(o3[i] == o2[i]);
                }
                assert forall|i: int| 0 <= i < o2.len() implies out@[i] == o2[i] by {
                    assert(o3[i] == o2[i]);
                }
                // every element appended this round starts at p and is accepted
                assert forall|i: int|
                    o0.len() <= i < out@.len() implies ((#[trigger] out@[i]).start == p
                    && accepted_match(h, low, out@[i])) by {}
                assert forall|m: Match|
                    accepted_match(h, low, m) && m.start < p + 1 implies out@.contains(m) by {
                    if m.start < p {
                        assert(o0.contains(m));
                        let i = choose|i: int| 0 <= i < o0.len() && o0[i] == m;
                        assert(o1[i] == o0[i]);
                        assert(out@[i] == m);
                    } else {
                        assert(m.start == p);
                        if rule_match(low, views_of(h.red_rule.terms@), Category::Error, m) {
                            assert(o1.contains(m));
                            let i = choose|i: int| 0 <= i < o1.len() && o1[i] == m;
                            assert(out@[i] == m);
                        } else if rule_match(
                            low,
                            views_of(h.yellow_rule.terms@),
                            Category::Event,
                            m,
                        ) {
                            assert(o2.contains(m));
                            let i = choose|i: int| 0 <= i < o2.len() && o2[i] == m;
                            assert(out@[i] == m);
                        } else if rule_match(
                            low,
                            views_of(h.green_rule.terms@),
                            Category::Success,
                            m,
                        ) {
                            assert(o3.contains(m));
                            let i = choose|i: int| 0 <= i < o3.len() && o3[i] == m;
                            assert(out@[i] == m);
                        } else {
                            assert(out@.contains(m));
                        }
                    }
                }
            }
            p = p + 1;
        }
        proof {
            assert forall|m: Match| accepted_match(h, low, m) implies out@.contains(m) by {
                lemma_accepted_bounds(h, low, m);
            }
        }
        out
    }
}

/// The highest-priority match of a non-empty group; on equal priority the
/// earliest listed match wins.
pub open spec fn best_of(g: Seq<Match>) -> Match
    recommends
        g.len() > 0,
    decreases g.len(),
{
    if g.len() <= 1 {
        g[0]
    } else {
        let b = best_of(g.drop_last());
        if priority(g.last().category) > priority(b.category) {
            g.last()
        } else {
            b
        }
    }
}

pub proof fn lemma_best_of_in(g: Seq<Match>)
    requires
        g.len() > 0,
    ensures
        g.contains(best_of(g)),
    decreases g.len(),
{
    if g.len() == 1 {
        assert(g[0] == best_of(g));
    } else {
        lemma_best_of_in(g.drop_last());
        if !(priority(g.last().category) > priority(best_of(g.drop_last()).category)) {
            let i = choose|i: int|
                0 <= i < g.drop_last().len() && g.drop_last()[i] == best_of(g.drop_last());
            assert(g[i] == best_of(g));
        } else {
            assert(g[g.len() - 1] == best_of(g));
        }
    }
}

/// Walk the sorted candidates, grouping every match whose start falls at or
/// before the running end of the open group; each maximal group survives as
/// its single highest-priority member.
pub open spec fn resolve_groups(ms: Seq<Match>, group: Seq<Match>, gend: int) -> Seq<Match>
    recommends
        group.len() > 0,
    decreases ms.len(),
{
    if ms.len() == 0 {
        seq![best_of(group)]
    } else if ms[0].start <= gend {
        resolve_groups(
            ms.drop_first(),
            group.push(ms[0]),
            if ms[0].end > gend {
                ms[0].end as int
            } else {
                gend
            },
        )
    } else {
        seq![best_of(group)] + resolve_groups(ms.drop_first(), seq![ms[0]], ms[0].end as int)
    }
}

/// Overlap resolution over a start-sorted candidate list.
pub open spec fn spec_resolve(ms: Seq<Match>) -> Seq<Match> {
    if ms.len() == 0 {
        Seq::empty()
    } else {
        resolve_groups(ms.drop_first(), seq![ms[0]], ms[0].end as int)
    }
}

/// The matches of `ms` lie in ascending order, pairwise disjoint, between
/// `from` and `len`: the rendering order of surviving matches.
pub open spec fn wf_chain(ms: Seq<Match>, from: int, len: int) -> bool
    decreases ms.len(),
{
    if ms.len() == 0 {
        from <= len
    } else {
        &&& from <= ms[0].start
        &&& ms[0].start <= ms[0].end <= len
        &&& wf_chain(ms.drop_first(), ms[0].end as int, len)
    }
}

pub proof fn lemma_wf_chain_weaken(ms: Seq<Match>, from: int, from2: int, len: int)
    requires
        wf_chain(ms, from, len),
        from2 <= from,
    ensures
        wf_chain(ms, from2, len),
{
}

/// In a well-formed chain any earlier match ends at or before any later
/// match starts.
pub proof fn lemma_wf_chain_disjoint(ms: Seq<Match>, from: int, len: int, i: int, j: int)
    requires
        wf_chain(ms, from, len),
        0 <= i < j < ms.len(),
    ensures
        ms[i].end <= ms[j].start,
        from <= ms[i].start <= ms[i].end <= len,
    decreases ms.len(),
{
    if i == 0 {
        lemma_wf_chain_disjoint_first(ms.drop_first(), ms[0].end as int, len, j - 1);
    } else {
        lemma_wf_chain_disjoint(ms.drop_first(), ms[0].end as int, len, i - 1, j - 1);
    }
}

proof fn lemma_wf_chain_disjoint_first(ms: Seq<Match>, from: int, len: int, j: int)
    requires
        wf_chain(ms, from, len),
        0 <= j < ms.len(),
    ensures
        from <= ms[j].start <= ms[j].end <= len,
    decreases j,
{
    if j > 0 {
        lemma_wf_chain_disjoint_first(ms.drop_first(), ms[0].end as int, len, j - 1);
    }
}

/// Grouped overlap resolution of a sorted list of in-bounds matches yields a
/// well-formed chain: ascending, pairwise disjoint, inside the message.
proof fn lemma_resolve_groups_wf(ms: Seq<Match>, group: Seq<Match>, gend: int, len: int)
    requires
        group.len() > 0,
        gend <= len,
        forall|i: int| 0 <= i < group.len() ==> (#[trigger] group[i]).start <= group[i].end <= gend,
        forall|i: int| 0 <= i < group.len() ==> group[0].start <= (#[trigger] group[i]).start,
        sorted_by_start(ms),
        forall|i: int| 0 <= i < ms.len() ==> (#[trigger] ms[i]).start <= ms[i].end <= len,
        forall|i: int| 0 <= i < ms.len() ==> group[0].start <= (#[trigger] ms[i]).start,
    ensures
        wf_chain(resolve_groups(ms, group, gend), group[0].start as int, len),
    decreases ms.len(),
{
    lemma_best_of_in(group);
    let b = best_of(group);
    if ms.len() == 0 {
        assert(wf_chain(seq![b].drop_first(), b.end as int, len));
    } else if ms[0].start <= gend {
        let g2 = group.push(ms[0]);
        let gend2: int = if ms[0].end > gend {
            ms[0].end as int
        } else {
            gend
        };
        assert(g2[0] == group[0]);
        assert forall|i: int| 0 <= i < g2.len() implies (#[trigger] g2[i]).start <= g2[i].end
            <= gend2 by {
            if i < group.len() {
                assert(g2[i] == group[i]);
            } else {
                assert(g2[i] == ms[0]);
            }
        }
        assert forall|i: int| 0 <= i < g2.len() implies g2[0].start <= (#[trigger] g2[i]).start by {
            if i < group.len() {
                assert(g2[i] == group[i]);
            } else {
                assert(g2[i] == ms[0]);
            }
        }
        lemma_resolve_groups_wf(ms.drop_first(), g2, gend2, len);
    } else {
        let rest = ms.drop_first();
        lemma_resolve_groups_wf(rest, seq![ms[0]], ms[0].end as int, len);
        let r2 = resolve_groups(rest, seq![ms[0]], ms[0].end as int);
        let r = seq![b] + r2;
        assert(r.drop_first() =~= r2);
        lemma_wf_chain_weaken(r2, ms[0].start as int, b.end as int, len);
        assert(wf_chain(r, group[0].start as int, len));
    }
}

/// Overlap resolution of a sorted in-bounds candidate list never emits two
/// intersecting matches: the survivors form a well-formed ascending chain,
/// and for any two of them the earlier ends at or before the later starts.
pub proof fn lemma_resolve_no_overlap(ms: Seq<Match>, len: int)
    requires
        len >= 0,
        sorted_by_start(ms),
        forall|i: int| 0 <= i < ms.len() ==> (#[trigger] ms[i]).start <= ms[i].end <= len,
    ensures
        wf_chain(spec_resolve(ms), 0, len),
        forall|i: int, j: int|
            0 <= i < j < spec_resolve(ms).len() ==> (#[trigger] spec_resolve(ms)[i]).end <= (
            #[trigger] spec_resolve(ms)[j]).start,
{
    if ms.len() == 0 {
        assert(wf_chain(spec_resolve(ms), 0, len));
    } else {
        let rest = ms.drop_first();
        lemma_resolve_groups_wf(rest, seq![ms[0]], ms[0].end as int, len);
        lemma_wf_chain_weaken(spec_resolve(ms), ms[0].start as int, 0, len);
    }
    assert forall|i: int, j: int| 0 <= i < j < spec_resolve(ms).len() implies (
    #[trigger] spec_resolve(ms)[i]).end <= (#[trigger] spec_resolve(ms)[j]).start by {
        lemma_wf_chain_disjoint(spec_resolve(ms), 0, len, i, j);
    }
}

/// The message rendered from `from` on: unmatched spans are echoed
/// byte-for-byte, every match is wrapped in its category color and a reset.
pub open spec fn render_from(msg: Seq<u8>, ms: Seq<Match>, from: int) -> Seq<u8>
    recommends
        0 <= from,
        wf_chain(ms, from, msg.len() as int),
    decreases ms.len(),
{
    if ms.len() == 0 {
        msg.subrange(from, msg.len() as int)
    } else {
        msg.subrange(from, ms[0].start as int) + category_color(ms[0].category) + msg.subrange(
            ms[0].start as int,
            ms[0].end as int,
        ) + reset_seq() + render_from(msg, ms.drop_first(), ms[0].end as int)
    }
}

/// `out` is a correct highlighting of `msg`: the accepted matches of `h`,
/// with overlaps resolved by priority, rendered over the original bytes.
pub open spec fn spec_highlight_ok(h: MessageHighlighter, msg: Seq<u8>, out: Seq<u8>) -> bool {
    exists|cands: Seq<Match>|
        candidate_list(h, lower_seq(msg), cands) && out == render_from(
            msg,
            spec_resolve(cands),
            0,
        )
}

impl MessageProcessor {
    /// The highest-priority match of a group; `None` only for an empty group.
    pub fn find_highest_priority_match(&self, matches: &Vec<Match>) -> (r: Option<Match>)
        ensures
            matches@.len() == 0 ==> r is None,
            matches@.len() > 0 ==> r == Some(best_of(matches@)),
    {
        if matches.len() == 0 {
            return None;
        }
        let mut best = matches[0];
        assert(matches@.subrange(0, 1) =~= seq![matches@[0]]);
        let mut k: usize = 1;
        while k < matches.len()
            invariant
                1 <= k <= matches@.len(),
                best == best_of(matches@.subrange(0, k as int)),
            decreases matches@.len() - k,
        {
            proof {
                assert(matches@.subrange(0, k + 1).drop_last() =~= matches@.subrange(0, k as int));
                assert(matches@.subrange(0, k + 1).last() == matches@[k as int]);
            }
            let m = matches[k];
            if priority_exec(m.category) > priority_exec(best.category) {
                best = m;
            }
            k = k + 1;
        }
        assert(matches@.subrange(0, matches@.len() as int) =~= matches@);
        Some(best)
    }

    /// Group overlapping matches and keep one match per maximal group, chosen
    /// by category priority.
    pub fn resolve_overlapping_matches(&self, matches: Vec<Match>) -> (r: Vec<Match>)
        ensures
            r@ == spec_resolve(matches@),
    {
        let ghost all = matches@;
        let mut resolved: Vec<Match> = Vec::new();
        if matches.len() == 0 {
            return resolved;
        }
        let mut group: Vec<Match> = Vec::new();
        group.push(matches[0]);
        let mut gend: usize = matches[0].end;
        let mut i: usize = 1;
        assert(group@ =~= seq![all[0]]);
        assert(all.skip(1) =~= all.drop_first());
        while i < matches.len()
            invariant
                matches@ == all,
                1 <= i <= all.len(),
                group@.len() > 0,
                spec_resolve(all) == resolved@ + resolve_groups(
                    all.skip(i as int),
                    group@,
                    gend as int,
                ),
            decreases all.len() - i,
        {
            proof {
                assert(all.skip(i as int).drop_first() =~= all.skip(i + 1));
                assert(all.skip(i as int)[0] == all[i as int]);
            }
            let ghost pre_group = group@;
            let ghost pre_resolved = resolved@;
            let ghost pre_gend = gend as int;
            let m = matches[i];
            if m.start <= gend {
                group.push(m);
                if m.end > gend {
                    gend = m.end;
                }
                assert(resolve_groups(all.skip(i as int), pre_group, pre_gend) == resolve_groups(
                    all.skip(i + 1),
                    group@,
                    gend as int,
                ));
            } else {
                if let Some(b) = self.find_highest_priority_match(&group) {
                    resolved.push(b);
                }
                let mut fresh: Vec<Match> = Vec::new();
                fresh.push(m);
                group = fresh;
                gend = m.end;
                proof {
                    assert(group@ =~= seq![m]);
                    assert(resolved@ =~= pre_resolved.push(best_of(pre_group)));
                    assert(resolve_groups(all.skip(i as int), pre_group, pre_gend) == seq![
                        best_of(pre_group),
                    ] + resolve_groups(all.skip(i + 1), group@, gend as int));
                    assert(pre_resolved + (seq![best_of(pre_group)] + resolve_groups(
                        all.skip(i + 1),
                        group@,
                        gend as int,
                    )) =~= resolved@ + resolve_groups(all.skip(i + 1), group@, gend as int));
                }
            }
            i = i + 1;
        }
        assert(all.skip(all.len() as int) =~= Seq::<Match>::empty());
        assert(resolve_groups(all.skip(all.len() as int), group@, gend as int) == seq![
            best_of(group@),
        ]);
        let ghost pre_resolved = resolved@;
        if let Some(b) = self.find_highest_priority_match(&group) {
            resolved.push(b);
        }
        assert(resolved@ =~= pre_resolved + seq![best_of(group@)]);
        resolved
    }

    /// All accepted matches of the message against the four rules, with
    /// overlaps already resolved: the survivors of `spec_resolve` over the
    /// full ascending candidate list.
    pub fn find_matches(&self, highlighter: &MessageHighlighter) -> (r: Vec<Match>)
        requires
            self.wf(),
            highlighter.wf(),
        ensures
            exists|cands: Seq<Match>|
                candidate_list(*highlighter, self.message_lower@, cands) && r@ == spec_resolve(
                    cands,
                ),
    {
        let cands = self.find_candidates(highlighter);
        let ghost cs = cands@;
        let r = self.resolve_overlapping_matches(cands);
        proof {
            assert(candidate_list(*highlighter, self.message_lower@, cs) && r@ == spec_resolve(
                cs,
            ));
        }
        r
    }

    /// Render the message around a well-formed chain of surviving matches.
    pub fn build_highlighted(&self, matches: Vec<Match>) -> (r: Vec<u8>)
        requires
            wf_chain(matches@, 0, self.message@.len() as int),
        ensures
            r@ == render_from(self.message@, matches@, 0),
    {
        let ghost msg = self.message@;
        let n = self.message.len();
        let mut out: Vec<u8> = Vec::new();
        let mut last_end: usize = 0;
        let mut i: usize = 0;
        assert(matches@.skip(0) =~= matches@);
        while i < matches.len()
            invariant
                msg == self.message@,
                i <= matches@.len(),
                last_end <= msg.len() <= usize::MAX,
                wf_chain(matches@.skip(i as int), last_end as int, msg.len() as int),
                render_from(msg, matches@, 0) == out@ + render_from(
                    msg,
                    matches@.skip(i as int),
                    last_end as int,
                ),
            decreases matches@.len() - i,
        {
            proof {
                assert(matches@.skip(i as int).drop_first() =~= matches@.skip(i + 1));
                assert(matches@.skip(i as int)[0] == matches@[i as int]);
            }
            let ghost pre_out = out@;
            let m = matches[i];
            let pre = copy_range(self.message.as_slice(), last_end, m.start);
            push_all(&mut out, pre.as_slice());
            let color = category_color_code(m.category);
            push_all(&mut out, color.as_slice());
            let mid = copy_range(self.message.as_slice(), m.start, m.end);
            push_all(&mut out, mid.as_slice());
            let rst = reset_code();
            push_all(&mut out, rst.as_slice());
            proof {
                assert(out@ =~= pre_out + (msg.subrange(last_end as int, m.start as int)
                    + category_color(m.category) + msg.subrange(m.start as int, m.end as int)
                    + reset_seq()));
                assert(pre_out + render_from(msg, matches@.skip(i as int), last_end as int) =~= out@
                    + render_from(msg, matches@.skip(i + 1), m.end as int));
            }
            last_end = m.end;
            i = i + 1;
        }
        let ghost pre_out = out@;
        let tail = copy_range(self.message.as_slice(), last_end, n);
        push_all(&mut out, tail.as_slice());
        proof {
            assert(matches@.skip(matches@.len() as int) =~= Seq::<Match>::empty());
            assert(out@ =~= pre_out + render_from(
                msg,
                matches@.skip(matches@.len() as int),
                last_end as int,
            ));
        }
        out
    }
}

impl MessageHighlighter {
    /// Highlight one message: every vocabulary occurrence on word boundaries
    /// is found, overlaps are resolved by category priority, and the
    /// survivors are wrapped in their colors; unmatched bytes are echoed
    /// unchanged.
    pub fn highlight_message(&self, message: &[u8]) -> (r: Vec<u8>)
        requires
            self.wf(),
        ensures
            spec_highlight_ok(*self, message@, r@),
    {
        let processor = MessageProcessor::new(message);
        let matches = processor.find_matches(self);
        proof {
            let cands = choose|cands: Seq<Match>|
                candidate_list(*self, processor.message_lower@, cands) && matches@ == spec_resolve(
                    cands,
                );
            assert forall|i: int| 0 <= i < cands.len() implies (#[trigger] cands[i]).start
                <= cands[i].end <= processor.message_lower@.len() by {
                lemma_accepted_bounds(*self, processor.message_lower@, cands[i]);
            }
            lemma_resolve_no_overlap(cands, processor.message_lower@.len() as int);
            assert(processor.message_lower@.len() == processor.message@.len());
        }
        processor.build_highlighted(matches)
    }
}

/// `s` holds no ESC byte, so no ANSI escape can begin in it.
pub open spec fn no_escapes(s: Seq<u8>) -> bool {
    forall|i: int| 0 <= i < s.len() ==> s[i] != 27
}

/// `s` with every ANSI escape run `ESC .. m` removed.
pub open spec fn strip_escapes(s: Seq<u8>) -> Seq<u8>
    decreases s.len(), 0int,
{
    if s.len() == 0 {
        Seq::empty()
    } else if s[0] == 27 {
        strip_escape_tail(s.drop_first())
    } else {
        seq![s[0]] + strip_escapes(s.drop_first())
    }
}

/// Inside an escape run: discard up to and including the closing `m`.
pub open spec fn strip_escape_tail(s: Seq<u8>) -> Seq<u8>
    decreases s.len(), 1int,
{
    if s.len() == 0 {
        Seq::empty()
    } else if s[0] == 109 {
        strip_escapes(s.drop_first())
    } else {
        strip_escape_tail(s.drop_first())
    }
}

/// Remove every ANSI escape run `ESC .. m` from `s`.
pub fn strip_escape_codes(s: &[u8]) -> (r: Vec<u8>)
    ensures
        r@ == strip_escapes(s@),
{
    let mut out: Vec<u8> = Vec::new();
    let mut in_escape = false;
    let mut i: usize = 0;
    assert(s@.skip(0) =~= s@);
    while i < s.len()
        invariant
            i <= s@.len(),
            !in_escape ==> strip_escapes(s@) == out@ + strip_escapes(s@.skip(i as int)),
            in_escape ==> strip_escapes(s@) == out@ + strip_escape_tail(s@.skip(i as int)),
        decreases s@.len() - i,
    {
        proof {
            assert(s@.skip(i as int).drop_first() =~= s@.skip(i + 1));
            assert(s@.skip(i as int)[0] == s@[i as int]);
        }
        let b = s[i];
        if in_escape {
            if b == 109 {
                in_escape = false;
            }
        } else {
            if b == 27 {
                in_escape = true;
            } else {
                let ghost pre = out@;
                out.push(b);
                assert(pre + (seq![b] + strip_escapes(s@.skip(i + 1))) =~= out@ + strip_escapes(
                    s@.skip(i + 1),
                ));
            }
        }
        i = i + 1;
    }
    assert(s@.skip(s@.len() as int) =~= Seq::<u8>::empty());
    assert(out@ =~= out@ + Seq::<u8>::empty());
    out
}

proof fn lemma_strip_no_esc(s: Seq<u8>)
    requires
        no_escapes(s),
    ensures
        strip_escapes(s) == s,
    decreases s.len(),
{
    if s.len() == 0 {
        assert(strip_escapes(s) =~= s);
    } else {
        lemma_strip_no_esc(s.drop_first());
        assert(seq![s[0]] + s.drop_first() =~= s);
    }
}

proof fn lemma_strip_concat_no_esc(a: Seq<u8>, b: Seq<u8>)
    requires
        no_escapes(a),
    ensures
        strip_escapes(a + b) == a + strip_escapes(b),
    decreases a.len(),
{
    if a.len() == 0 {
        assert(a + b =~= b);
        assert(a + strip_escapes(b) =~= strip_escapes(b));
    } else {
        assert((a + b).drop_first() =~= a.drop_first() + b);
        lemma_strip_concat_no_esc(a.drop_first(), b);
        assert((a + b)[0] == a[0]);
        assert(seq![a[0]] + (a.drop_first() + strip_escapes(b)) =~= a + strip_escapes(b));
    }
}

proof fn lemma_strip_tail_run(w: Seq<u8>, t: Seq<u8>)
    requires
        w.len() >= 1,
        w.last() == 109,
        forall|i: int| 0 <= i < w.len() - 1 ==> w[i] != 109,
    ensures
        strip_escape_tail(w + t) == strip_escapes(t),
    decreases w.len(),
{
    assert((w + t)[0] == w[0]);
    if w.len() == 1 {
        assert((w + t).drop_first() =~= t);
    } else {
        assert((w + t).drop_first() =~= w.drop_first() + t);
        assert(w.drop_first().last() == w.last());
        lemma_strip_tail_run(w.drop_first(), t);
    }
}

/// Stripping an escape run `ESC .. m` glued in front of `t` leaves
/// `strip_escapes(t)`.
proof fn lemma_strip_esc_run(c: Seq<u8>, t: Seq<u8>)
    requires
        c.len() >= 2,
        c[0] == 27,
        c.last() == 109,
        forall|i: int| 1 <= i < c.len() - 1 ==> c[i] != 109,
    ensures
        strip_escapes(c + t) == strip_escapes(t),
{
    assert((c + t)[0] == 27);
    assert((c + t).drop_first() =~= c.drop_first() + t);
    assert(c.drop_first().last() == c.last());
    lemma_strip_tail_run(c.drop_first(), t);
}

/// Every color escape of the engine is one clean `ESC .. m` run.
proof fn lemma_color_codes_clean(cat: Category)
    ensures
        category_color(cat).len() >= 2,
        category_color(cat)[0] == 27,
        category_color(cat).last() == 109,
        forall|i: int|
            1 <= i < category_color(cat).len() - 1 ==> #[trigger] category_color(cat)[i] != 109,
        reset_seq().len() >= 2,
        reset_seq()[0] == 27,
        reset_seq().last() == 109,
        forall|i: int| 1 <= i < reset_seq().len() - 1 ==> #[trigger] reset_seq()[i] != 109,
{
}

/// Removing every inserted escape from a rendered message reproduces the
/// message bytes exactly, provided the message itself holds no ESC byte.
proof fn lemma_render_strip(msg: Seq<u8>, ms: Seq<Match>, from: int)
    requires
        0 <= from,
        no_escapes(msg),
        wf_chain(ms, from, msg.len() as int),
    ensures
        strip_escapes(render_from(msg, ms, from)) == msg.subrange(from, msg.len() as int),
    decreases ms.len(),
{
    if ms.len() == 0 {
        lemma_strip_no_esc(msg.subrange(from, msg.len() as int));
    } else {
        let a = msg.subrange(from, ms[0].start as int);
        let c = category_color(ms[0].category);
        let b = msg.subrange(ms[0].start as int, ms[0].end as int);
        let r = reset_seq();
        let rest = render_from(msg, ms.drop_first(), ms[0].end as int);
        lemma_render_strip(msg, ms.drop_first(), ms[0].end as int);
        lemma_color_codes_clean(ms[0].category);
        assert(render_from(msg, ms, from) =~= a + (c + (b + (r + rest))));
        lemma_strip_concat_no_esc(a, c + (b + (r + rest)));
        lemma_strip_esc_run(c, b + (r + rest));
        lemma_strip_concat_no_esc(b, r + rest);
        lemma_strip_esc_run(r, rest);
        assert(a + (b + msg.subrange(ms[0].end as int, msg.len() as int)) =~= msg.subrange(
            from,
            msg.len() as int,
        ));
    }
}

/// Highlighting is idempotent on the unmatched residue: removing every
/// inserted escape code from a highlighted message reproduces the original
/// message byte for byte, for any message that holds no ESC byte of its own.
pub proof fn lemma_highlight_round_trip(h: MessageHighlighter, msg: Seq<u8>, out: Seq<u8>)
    requires
        spec_highlight_ok(h, msg, out),
        no_escapes(msg),
    ensures
        strip_escapes(out) == msg,
{
    let cands = choose|cands: Seq<Match>|
        candidate_list(h, lower_seq(msg), cands) && out == render_from(
            msg,
            spec_resolve(cands),
            0,
        );
    assert forall|i: int| 0 <= i < cands.len() implies (#[trigger] cands[i]).start <= cands[i].end
        <= lower_seq(msg).len() by {
        lemma_accepted_bounds(h, lower_seq(msg), cands[i]);
    }
    lemma_resolve_no_overlap(cands, msg.len() as int);
    lemma_render_strip(msg, spec_resolve(cands), 0);
    assert(msg.subrange(0, msg.len() as int) =~= msg);
}

/// An accepted match is a non-empty span inside the message.
pub proof fn lemma_accepted_bounds(h: MessageHighlighter, low: Seq<u8>, m: Match)
    requires
        accepted_match(h, low, m),
    ensures
        m.start < m.end <= low.len(),
{
    if rule_match(low, views_of(h.red_rule.terms@), Category::Error, m) {
        lemma_rule_match_bounds(low, views_of(h.red_rule.terms@), Category::Error, m);
    } else if rule_match(low, views_of(h.yellow_rule.terms@), Category::Event, m) {
        lemma_rule_match_bounds(low, views_of(h.yellow_rule.terms@), Category::Event, m);
    } else if rule_match(low, views_of(h.green_rule.terms@), Category::Success, m) {
        lemma_rule_match_bounds(low, views_of(h.green_rule.terms@), Category::Success, m);
    } else {
        lemma_rule_match_bounds(low, views_of(h.custom_rule.terms@), Category::Custom, m);
    }
}

proof fn lemma_rule_match_bounds(low: Seq<u8>, terms: Seq<Seq<u8>>, cat: Category, m: Match)
    requires
        rule_match(low, terms, cat, m),
    ensures
        m.start < m.end <= low.len(),
{
    let k = choose|k: int|
        {
            &&& 0 <= k < terms.len()
            &&& terms[k].len() > 0
            &&& m.end == m.start + terms[k].len()
            &&& occurs_at(low, terms[k], m.start as int)
            &&& boundary_ok(low, m.start as int, m.end as int)
            &&& m.category == cat
        };
}

} // verus!
