//! Fluent construction of a `MessageHighlighter` and the default
//! navigation-oriented vocabulary.

use vstd::prelude::*;

verus! {

use vstd::string::StrSliceExecFns;
use vstd::string::StringSliceAdditionalSpecFns;

use crate::bytes::{lower_seq, to_lower_vec, views_of};
use crate::highlight::MessageHighlighter;

/// The lowercased byte strings of a word list.
pub open spec fn lowered_words(words: Seq<&str>) -> Seq<Seq<u8>> {
    words.map_values(|w: &str| lower_seq(w.spec_bytes()))
}

/// Collects the term lists of the four categories before the highlighter is
/// built; every added word is lowercased on the way in.
pub struct HighlightBuilder {
    pub red_words: Vec<Vec<u8>>,
    pub green_words: Vec<Vec<u8>>,
    pub yellow_words: Vec<Vec<u8>>,
    pub custom_words: Vec<Vec<u8>>,
}

/// Append the lowercased bytes of every word of `words` to `dst`.
fn append_lowered(dst: &mut Vec<Vec<u8>>, words: &[&str])
    ensures
        views_of(final(dst)@) == views_of(old(dst)@) + lowered_words(words@),
{
    let mut i: usize = 0;
    while i < words.len()
        invariant
            i <= words@.len(),
            views_of(dst@) =~= views_of(old(dst)@) + lowered_words(words@.subrange(0, i as int)),
        decreases words@.len() - i,
    {
        let w: &str = words[i];
        let raw = w.as_bytes_vec();
        let lowered = to_lower_vec(raw.as_slice());
        let ghost pre = dst@;
        let ghost lv = lowered@;
        dst.push(lowered);
        proof {
            assert(lv == lower_seq(words@[i as int].spec_bytes()));
            assert(views_of(dst@) =~= views_of(pre).push(lv));
            assert(lowered_words(words@.subrange(0, i + 1)) =~= lowered_words(
                words@.subrange(0, i as int),
            ).push(lv));
            assert(views_of(dst@) =~= views_of(old(dst)@) + lowered_words(
                words@.subrange(0, i + 1),
            ));
        }
        i = i + 1;
    }
    assert(words@.subrange(0, words@.len() as int) =~= words@);
}

impl HighlightBuilder {
    pub fn new() -> (r: Self)
        ensures
            r.red_words@.len() == 0,
            r.green_words@.len() == 0,
            r.yellow_words@.len() == 0,
            r.custom_words@.len() == 0,
    {
        HighlightBuilder {
            red_words: Vec::new(),
            green_words: Vec::new(),
            yellow_words: Vec::new(),
            custom_words: Vec::new(),
        }
    }

    pub fn add_red_words(self, words: &[&str]) -> (r: Self)
        ensures
            views_of(r.red_words@) == views_of(self.red_words@) + lowered_words(words@),
            r.green_words == self.green_words,
            r.yellow_words == self.yellow_words,
            r.custom_words == self.custom_words,
    {
        let mut red = self.red_words;
        append_lowered(&mut red, words);
        HighlightBuilder {
            red_words: red,
            green_words: self.green_words,
            yellow_words: self.yellow_words,
            custom_words: self.custom_words,
        }
    }

    pub fn add_green_words(self, words: &[&str]) -> (r: Self)
        ensures
            views_of(r.green_words@) == views_of(self.green_words@) + lowered_words(words@),
            r.red_words == self.red_words,
            r.yellow_words == self.yellow_words,
            r.custom_words == self.custom_words,
    {
        let mut green = self.green_words;
        append_lowered(&mut green, words);
        HighlightBuilder {
            red_words: self.red_words,
            green_words: green,
            yellow_words: self.yellow_words,
            custom_words: self.custom_words,
        }
    }

    pub fn add_yellow_words(self, words: &[&str]) -> (r: Self)
        ensures
            views_of(r.yellow_words@) == views_of(self.yellow_words@) + lowered_words(words@),
            r.red_words == self.red_words,
            r.green_words == self.green_words,
            r.custom_words == self.custom_words,
    {
        let mut yellow = self.yellow_words;
        append_lowered(&mut yellow, words);
        HighlightBuilder {
            red_words: self.red_words,
            green_words: self.green_words,
            yellow_words: yellow,
            custom_words: self.custom_words,
        }
    }

    pub fn add_custom_words(self, words: &[&str]) -> (r: Self)
        ensures
            views_of(r.custom_words@) == views_of(self.custom_words@) + lowered_words(words@),
            r.red_words == self.red_words,
            r.green_words == self.green_words,
            r.yellow_words == self.yellow_words,
    {
        let mut custom = self.custom_words;
        append_lowered(&mut custom, words);
        HighlightBuilder {
            red_words: self.red_words,
            green_words: self.green_words,
            yellow_words: self.yellow_words,
            custom_words: custom,
        }
    }

    pub fn build(self) -> (r: MessageHighlighter)
        ensures
            r.wf(),
            r.red_rule.terms == self.red_words,
            r.green_rule.terms == self.green_words,
            r.yellow_rule.terms == self.yellow_words,
            r.custom_rule.terms == self.custom_words,
    {
        MessageHighlighter::new(
            self.red_words,
            self.green_words,
            self.yellow_words,
            self.custom_words,
        )
    }
}

/// Every byte string of `ts` lowercased, in order.
pub open spec fn lowered_views(ts: Seq<Seq<u8>>) -> Seq<Seq<u8>>
    decreases ts.len(),
{
    if ts.len() == 0 {
        Seq::empty()
    } else {
        lowered_views(ts.drop_last()).push(lower_seq(ts.last()))
    }
}

impl HighlightBuilder {
    /// Add custom terms given as raw byte strings; they are lowercased on
    /// the way in like every other word.
    pub fn add_custom_terms(self, words: &Vec<Vec<u8>>) -> (r: Self)
        ensures
            views_of(r.custom_words@) == views_of(self.custom_words@) + lowered_views(
                views_of(words@),
            ),
            r.red_words == self.red_words,
            r.green_words == self.green_words,
            r.yellow_words == self.yellow_words,
    {
        let ghost wv = views_of(words@);
        let mut custom = self.custom_words;
        let mut i: usize = 0;
        while i < words.len()
            invariant
                wv == views_of(words@),
                wv.len() == words@.len(),
                i <= words@.len(),
                views_of(custom@) == views_of(self.custom_words@) + lowered_views(
                    wv.subrange(0, i as int),
                ),
            decreases words@.len() - i,
        {
            proof {
                assert(wv.subrange(0, i + 1).drop_last() =~= wv.subrange(0, i as int));
                assert(wv.subrange(0, i + 1).last() == wv[i as int]);
                assert(wv[i as int] == words@[i as int]@);
            }
            let lowered = to_lower_vec(words[i].as_slice());
            let ghost pre = custom@;
            let ghost lv = lowered@;
            custom.push(lowered);
            proof {
                assert(views_of(custom@) =~= views_of(pre).push(lv));
                assert(views_of(custom@) =~= views_of(self.custom_words@) + lowered_views(
                    wv.subrange(0, i + 1),
                ));
            }
            i = i + 1;
        }
        assert(wv.subrange(0, wv.len() as int) =~= wv);
        HighlightBuilder {
            red_words: self.red_words,
            green_words: self.green_words,
            yellow_words: self.yellow_words,
            custom_words: custom,
        }
    }
}

/// The default vocabulary for errors and deviations.
pub open spec fn default_red_terms() -> Seq<Seq<u8>> {
    lowered_words(
        seq![
            "error",
            "removed",
            "unfollowed",
            "not followed",
            "unvisited",
            "deviation",
            "off-road",
            "off-route",
        ],
    )
}

/// The default vocabulary for positive messages.
pub open spec fn default_green_terms() -> Seq<Seq<u8>> {
    lowered_words(
        seq![
            "success",
            "created",
            "added",
            "followed",
            "following",
            "visited",
            "planned",
            "arrived",
            "departed",
            "started",
            "starting",
            "resumed",
            "resuming",
            "stopped",
            "stopping",
        ],
    )
}

/// The default vocabulary for navigation and map-matching events.
pub open spec fn default_yellow_terms() -> Seq<Seq<u8>> {
    lowered_words(
        seq![
            "warning",
            "updated",
            "changed",
            "segment",
            "old",
            "new",
            "map matching",
            "projected",
            "matchlocation",
            "matched",
            "replan",
            "should replan",
            "refresh",
            "back to route",
            "replanning",
            "language change",
            "increment",
            "progress",
            "current location",
            "distancealongroute",
            "traffic jam",
            "instruction",
            "guidance",
            "lane guidance",
            "lane level guidance",
            "route",
            "waypoint",
            "planning route",
        ],
    )
}

/// A builder preloaded with the default vocabulary of the three built-in
/// categories; no custom terms.
pub fn create_default_highlighter() -> (r: HighlightBuilder)
    ensures
        views_of(r.red_words@) == default_red_terms(),
        views_of(r.green_words@) == default_green_terms(),
        views_of(r.yellow_words@) == default_yellow_terms(),
        r.custom_words@.len() == 0,
{
    let red: [&str; 8] = [
        "error",
        "removed",
        "unfollowed",
        "not followed",
        "unvisited",
        "deviation",
        "off-road",
        "off-route",
    ];
    let green: [&str; 15] = [
        "success",
        "created",
        "added",
        "followed",
        "following",
        "visited",
        "planned",
        "arrived",
        "departed",
        "started",
        "starting",
        "resumed",
        "resuming",
        "stopped",
        "stopping",
    ];
    let yellow: [&str; 28] = [
        "warning",
        "updated",
        "changed",
        "segment",
        "old",
        "new",
        "map matching",
        "projected",
        "matchlocation",
        "matched",
        "replan",
        "should replan",
        "refresh",
        "back to route",
        "replanning",
        "language change",
        "increment",
        "progress",
        "current location",
        "distancealongroute",
        "traffic jam",
        "instruction",
        "guidance",
        "lane guidance",
        "lane level guidance",
        "route",
        "waypoint",
        "planning route",
    ];
    let b = HighlightBuilder::new().add_red_words(red.as_slice()).add_green_words(
        green.as_slice(),
    ).add_yellow_words(yellow.as_slice());
    proof {
        assert(views_of(b.red_words@) =~= default_red_terms());
        assert(views_of(b.green_words@) =~= default_green_terms());
        assert(views_of(b.yellow_words@) =~= default_yellow_terms());
    }
    b
}

} // verus!
