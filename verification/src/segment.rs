//! The segmenter: partitions a [`Tablet`]'s line range into shards on
//! separator lines. A line is a separator when it contains the fixed
//! token `-----`; each separator is consumed as a boundary and belongs to
//! no shard. A boundary drawn at the very edge of the window, or two
//! adjacent boundaries, would close a shard with no lines at all; such
//! degenerate shards are skipped, so every shard addresses at least one
//! line. A window with no separator lines yields the single shard equal
//! to the whole window.

use crate::tablet::Shard;
use crate::tablet::Tablet;
use crate::text::contains_pat;
use crate::text::has_match;
use crate::text::match_at;
use crate::transcript::Transcriptor;
use vstd::prelude::*;

verus! {

/// The in-band token that marks a boundary between shards.
pub open spec fn separator_token() -> Seq<char> {
    seq!['-', '-', '-', '-', '-']
}

/// A line is a separator when it contains the separator token anywhere.
pub open spec fn is_separator_line(line: Seq<char>) -> bool {
    has_match(line, separator_token())
}

/// Decides [`is_separator_line`].
pub fn line_is_separator(line: &str) -> (r: bool)
    ensures
        r == is_separator_line(line@),
{
    let sep: &str = "-----";
    proof {
        reveal_strlit("-----");
        assert(sep@ =~= separator_token());
    }
    contains_pat(line, sep)
}

/// The segmentation of the window `[lo, hi]` of `lines`: the ordered list
/// of the maximal runs of consecutive non-separator lines, each run given
/// as an inclusive index pair. Built by walking the window from the back:
/// a separator line is dropped, a non-separator line extends the run it
/// adjoins or opens a run of its own.
pub open spec fn segments(lines: Seq<Seq<char>>, lo: int, hi: int) -> Seq<(int, int)>
    decreases hi - lo + 1,
{
    if hi < lo {
        Seq::<(int, int)>::empty()
    } else {
        let rest = segments(lines, lo, hi - 1);
        if is_separator_line(lines[hi]) {
            rest
        } else if rest.len() > 0 && rest.last().1 == hi - 1 {
            rest.update(rest.len() - 1, (rest.last().0, hi))
        } else {
            rest.push((hi, hi))
        }
    }
}

/// Line `i` lies inside one of the listed segments.
pub open spec fn covered_by(segs: Seq<(int, int)>, i: int) -> bool {
    exists|k: int| 0 <= k < segs.len() && (#[trigger] segs[k]).0 <= i <= segs[k].1
}

/// The segment list seen as mathematical index pairs.
pub open spec fn seg_views(s: Seq<(usize, usize)>) -> Seq<(int, int)> {
    s.map_values(|p: (usize, usize)| (p.0 as int, p.1 as int))
}

/// Every segment of a segmentation is non-empty and lies within the
/// window, and the segments are in source order with at least one line —
/// the consumed separator — between two consecutive ones. In particular
/// the segments are pairwise disjoint, so no line lies in two of them.
pub proof fn lemma_segments_wf(lines: Seq<Seq<char>>, lo: int, hi: int)
    ensures
        forall|k: int|
            0 <= k < segments(lines, lo, hi).len() ==> lo <= (#[trigger] segments(lines, lo, hi)[k]).0
                <= segments(lines, lo, hi)[k].1 <= hi,
        forall|j: int, k: int|
            0 <= j < k < segments(lines, lo, hi).len() ==> (#[trigger] segments(lines, lo, hi)[j]).1
                + 1 < (#[trigger] segments(lines, lo, hi)[k]).0,
    decreases hi - lo + 1,
{
    if hi >= lo {
        lemma_segments_wf(lines, lo, hi - 1);
        let rest = segments(lines, lo, hi - 1);
        let cur = segments(lines, lo, hi);
        if is_separator_line(lines[hi]) {
        } else if rest.len() > 0 && rest.last().1 == hi - 1 {
            assert(forall|k: int| 0 <= k < cur.len() - 1 ==> cur[k] == rest[k]);
        } else {
            assert(forall|k: int| 0 <= k < cur.len() - 1 ==> cur[k] == rest[k]);
            if rest.len() > 0 {
                assert(rest.last().1 <= hi - 1);
                assert(rest.last().1 != hi - 1);
            }
        }
    }
}

/// Coverage: within the window, the segments of a segmentation cover
/// exactly the non-separator lines — a line lies in a segment if and only
/// if it is not a separator. Together with [`lemma_segments_wf`] this says
/// the ordered segments, with the separator lines between them, exactly
/// reconstruct the window with no gaps and no overlaps.
pub proof fn lemma_segments_cover(lines: Seq<Seq<char>>, lo: int, hi: int)
    ensures
        forall|i: int|
            lo <= i <= hi ==> (covered_by(segments(lines, lo, hi), i) <==> !is_separator_line(
                lines[i],
            )),
    decreases hi - lo + 1,
{
    if hi >= lo {
        lemma_segments_cover(lines, lo, hi - 1);
        lemma_segments_wf(lines, lo, hi - 1);
        let rest = segments(lines, lo, hi - 1);
        let cur = segments(lines, lo, hi);
        if is_separator_line(lines[hi]) {
            assert forall|i: int| lo <= i <= hi implies (covered_by(cur, i)
                <==> !is_separator_line(lines[i])) by {
                if i == hi {
                    assert(!covered_by(rest, hi)) by {
                        assert(forall|k: int|
                            0 <= k < rest.len() ==> (#[trigger] rest[k]).1 <= hi - 1);
                    }
                }
            }
        } else if rest.len() > 0 && rest.last().1 == hi - 1 {
            let ln = rest.len();
            assert forall|i: int| lo <= i <= hi implies (covered_by(cur, i)
                <==> !is_separator_line(lines[i])) by {
                if i == hi {
                    assert(cur[ln - 1].0 <= i <= cur[ln - 1].1);
                    assert(covered_by(cur, i));
                } else {
                    if covered_by(rest, i) {
                        let k = choose|k: int|
                            0 <= k < rest.len() && (#[trigger] rest[k]).0 <= i <= rest[k].1;
                        assert(cur[k].0 <= i <= cur[k].1);
                        assert(covered_by(cur, i));
                    }
                    if covered_by(cur, i) {
                        let k = choose|k: int| 0 <= k < cur.len() && (#[trigger] cur[k]).0 <= i <= cur[k].1;
                        if k == ln - 1 {
                            assert(rest[k].0 <= i <= rest[k].1);
                        } else {
                            assert(rest[k].0 <= i <= rest[k].1);
                        }
                        assert(covered_by(rest, i));
                    }
                }
            }
        } else {
            let ln = cur.len();
            assert forall|i: int| lo <= i <= hi implies (covered_by(cur, i)
                <==> !is_separator_line(lines[i])) by {
                if i == hi {
                    assert(cur[ln - 1].0 <= i <= cur[ln - 1].1);
                    assert(covered_by(cur, i));
                } else {
                    if covered_by(rest, i) {
                        let k = choose|k: int|
                            0 <= k < rest.len() && (#[trigger] rest[k]).0 <= i <= rest[k].1;
                        assert(cur[k].0 <= i <= cur[k].1);
                        assert(covered_by(cur, i));
                    }
                    if covered_by(cur, i) {
                        let k = choose|k: int| 0 <= k < cur.len() && (#[trigger] cur[k]).0 <= i <= cur[k].1;
                        assert(k < ln - 1 || cur[k] == (hi, hi));
                        assert(rest[k].0 <= i <= rest[k].1);
                        assert(covered_by(rest, i));
                    }
                }
            }
        }
    }
}

/// Separator elimination: every line addressed by any shard of a
/// segmentation is a non-separator line. A separator line is consumed as
/// a boundary and lies in no shard.
pub proof fn lemma_separator_eliminated(lines: Seq<Seq<char>>, lo: int, hi: int, k: int, i: int)
    requires
        0 <= k < segments(lines, lo, hi).len(),
        segments(lines, lo, hi)[k].0 <= i <= segments(lines, lo, hi)[k].1,
    ensures
        lo <= i <= hi,
        !is_separator_line(lines[i]),
{
    lemma_segments_wf(lines, lo, hi);
    lemma_segments_cover(lines, lo, hi);
    assert(covered_by(segments(lines, lo, hi), i));
}

/// Separator elimination carried to the rendered text, line by line: a
/// line that contains neither the separator token nor any of the tokens
/// the renderer rewrites (the doc-comment marker and the two fence
/// annotations) never renders to the separator token. A line the renderer
/// rewrites can fall outside this law: removing the marker from a line
/// such as `--//!---` joins its dashes into the separator token.
pub proof fn lemma_formatted_line_not_separator(line: Seq<char>)
    requires
        !is_separator_line(line),
        !has_match(line, crate::transcript::doc_marker()),
        !has_match(line, crate::transcript::fence_should_panic()),
        !has_match(line, crate::transcript::fence_no_run()),
    ensures
        crate::transcript::line_fmt_spec(line) != separator_token().push('\n'),
{
    crate::text::lemma_replaced_absent(line, crate::transcript::doc_marker(), Seq::<char>::empty());
    crate::text::lemma_replaced_absent(
        line,
        crate::transcript::fence_should_panic(),
        crate::transcript::fence_rust(),
    );
    crate::text::lemma_replaced_absent(
        line,
        crate::transcript::fence_no_run(),
        crate::transcript::fence_rust(),
    );
    crate::text::lemma_trimmed_no_match(line, separator_token());
    let t = crate::text::trimmed(line);
    assert(crate::transcript::line_fmt_spec(line) == t.push('\n'));
    if t.push('\n') == separator_token().push('\n') {
        assert(t =~= separator_token()) by {
            assert(t.len() == separator_token().len());
            assert(forall|k: int| 0 <= k < t.len() ==> t[k] == t.push('\n')[k]);
            assert(forall|k: int|
                0 <= k < separator_token().len() ==> separator_token()[k] == separator_token().push(
                    '\n',
                )[k]);
        }
        assert(match_at(t, separator_token(), 0)) by {
            assert(t.subrange(0, separator_token().len() as int) =~= separator_token());
        }
        assert(false);
    }
}

/// Round trip on no-separator input: a window with no separator lines
/// segments into exactly one segment equal to the whole window.
pub proof fn lemma_no_separator_single_segment(lines: Seq<Seq<char>>, lo: int, hi: int)
    requires
        lo <= hi,
        forall|i: int| lo <= i <= hi ==> !is_separator_line(#[trigger] lines[i]),
    ensures
        segments(lines, lo, hi) =~= seq![(lo, hi)],
    decreases hi - lo,
{
    if hi == lo {
        assert(segments(lines, lo, hi - 1) =~= Seq::<(int, int)>::empty());
    } else {
        lemma_no_separator_single_segment(lines, lo, hi - 1);
    }
}

impl Transcriptor {
    /// Finds the segments of the tablet's window in the document's lines:
    /// [`segments`] applied to the tablet's range.
    pub(crate) fn segmentation(tablet: &Tablet, lines: &Vec<String>) -> (segs: Vec<(usize, usize)>)
        requires
            tablet.wf(),
            tablet.end < lines@.len(),
        ensures
            seg_views(segs@) == segments(lines.deep_view(), tablet.start as int, tablet.end as int),
    {
        let ghost dv = lines.deep_view();
        let ghost lo = tablet.start as int;
        let mut segs: Vec<(usize, usize)> = Vec::new();
        let mut i: usize = tablet.start;
        proof {
            assert(seg_views(segs@) =~= segments(dv, lo, lo - 1));
        }
        while i <= tablet.end
            invariant
                tablet.wf(),
                tablet.end < lines@.len(),
                dv == lines.deep_view(),
                lo == tablet.start as int,
                tablet.start <= i <= tablet.end + 1,
                seg_views(segs@) == segments(dv, lo, i - 1),
            decreases tablet.end + 1 - i,
        {
            proof {
                lemma_segments_wf(dv, lo, i - 1);
            }
            let line_sep: bool = line_is_separator(lines[i].as_str());
            if !line_sep {
                let ln: usize = segs.len();
                if ln > 0 {
                    let last: (usize, usize) = segs[ln - 1];
                    proof {
                        assert(seg_views(segs@)[ln - 1] == (last.0 as int, last.1 as int));
                        assert(last.1 < i);
                    }
                    if last.1 + 1 == i {
                        segs.set(ln - 1, (last.0, i));
                        proof {
                            assert(seg_views(segs@) =~= segments(dv, lo, i - 1).update(
                                ln - 1,
                                (segments(dv, lo, i - 1).last().0, i as int),
                            ));
                        }
                    } else {
                        segs.push((i, i));
                        proof {
                            assert(seg_views(segs@) =~= segments(dv, lo, i - 1).push(
                                (i as int, i as int),
                            ));
                        }
                    }
                } else {
                    segs.push((i, i));
                    proof {
                        assert(seg_views(segs@) =~= segments(dv, lo, i - 1).push(
                            (i as int, i as int),
                        ));
                    }
                }
            }
            i = i + 1;
        }
        segs
    }
}

/// An iterator-like view of every [`Shard`] of one [`Tablet`], produced
/// once by segmentation and walked with [`Shards::next`].
#[derive(Debug)]
pub struct Shards {
    /// The tablet the shards were cut from.
    pub origin: Tablet,
    /// The shard ranges, in source order.
    pub segments: Vec<(usize, usize)>,
    /// How many shards have been handed out so far.
    pub pos: usize,
}

impl Shards {
    /// Hands out the next shard, in source order, or `None` when all
    /// shards have been handed out.
    pub fn next(&mut self) -> (r: Option<Shard>)
        ensures
            final(self).origin == old(self).origin,
            final(self).segments == old(self).segments,
            old(self).pos < old(self).segments@.len() ==> {
                &&& final(self).pos == old(self).pos + 1
                &&& r == (Some(
                    Tablet {
                        path: old(self).origin.path,
                        start: old(self).segments@[old(self).pos as int].0,
                        end: old(self).segments@[old(self).pos as int].1,
                    },
                ))
            },
            old(self).pos >= old(self).segments@.len() ==> {
                &&& final(self).pos == old(self).pos
                &&& r is None
            },
    {
        if self.pos < self.segments.len() {
            let seg: (usize, usize) = self.segments[self.pos];
            self.pos = self.pos + 1;
            Some(Tablet { path: self.origin.path.clone(), start: seg.0, end: seg.1 })
        } else {
            None
        }
    }
}

impl Tablet {
    /// Cuts this tablet into its shards, reading the separator lines out
    /// of the document's `lines`, and returns them as a [`Shards`]
    /// sequence positioned at the first shard.
    pub fn shards(&self, lines: &Vec<String>) -> (sh: Shards)
        requires
            self.wf(),
            self.end < lines@.len(),
        ensures
            sh.origin == *self,
            sh.pos == 0,
            seg_views(sh.segments@) == segments(
                lines.deep_view(),
                self.start as int,
                self.end as int,
            ),
    {
        Shards {
            origin: self.clone(),
            segments: Transcriptor::segmentation(self, lines),
            pos: 0,
        }
    }
}

} // verus!
