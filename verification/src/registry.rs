//! The catalog: turns an ordered collection of documents into the full
//! set of whole-document references, and, through the segmenter, into the
//! full set of all sub-sections across all documents. The list of
//! documents is an explicit configuration value handed in by the caller;
//! the library never touches the filesystem itself.

use crate::segment::seg_views;
use crate::segment::segments;
use crate::segment::Shards;
use crate::tablet::Shard;
use crate::tablet::Tablet;
use crate::tablet::TabletView;
use vstd::prelude::*;

verus! {

/// The mathematical value of a [`Document`]: a path and the document's
/// lines.
pub struct DocumentView {
    pub path: Seq<char>,
    pub lines: Seq<Seq<char>>,
}

/// One known document, held in memory: where it lives and its lines, in
/// order, without their line terminators.
#[derive(Debug)]
pub struct Document {
    /// Where the document lives.
    pub path: String,
    /// The document's lines, in order.
    pub lines: Vec<String>,
}

impl View for Document {
    type V = DocumentView;

    open spec fn view(&self) -> DocumentView {
        DocumentView { path: self.path@, lines: self.lines.deep_view() }
    }
}

impl DeepView for Document {
    type V = DocumentView;

    open spec fn deep_view(&self) -> DocumentView {
        self.view()
    }
}

/// The whole-document reference of one document: the full range
/// `[0, lineCount - 1]`.
pub open spec fn whole_tablet(d: DocumentView) -> TabletView {
    TabletView { path: d.path, start: 0, end: d.lines.len() - 1 }
}

/// What the catalog yields: one whole-document reference per document, in
/// the documents' order.
pub open spec fn catalog_view(docs: Seq<DocumentView>) -> Seq<TabletView> {
    docs.map_values(|d: DocumentView| whole_tablet(d))
}

/// The shards of one whole document, in source line order.
pub open spec fn shard_views(d: DocumentView) -> Seq<TabletView> {
    segments(d.lines, 0, d.lines.len() - 1).map_values(
        |p: (int, int)| TabletView { path: d.path, start: p.0, end: p.1 },
    )
}

/// What the heap yields: the concatenation, in document order, of every
/// document's shards.
pub open spec fn heap_view(docs: Seq<DocumentView>) -> Seq<TabletView>
    decreases docs.len(),
{
    if docs.len() == 0 {
        Seq::<TabletView>::empty()
    } else {
        shard_views(docs[0]) + heap_view(docs.subrange(1, docs.len() as int))
    }
}

/// Appending one more document to a prefix appends that document's shards
/// to the heap of the prefix.
proof fn lemma_heap_view_snoc(docs: Seq<DocumentView>, n: int)
    requires
        0 <= n < docs.len(),
    ensures
        heap_view(docs.subrange(0, n + 1)) == heap_view(docs.subrange(0, n)) + shard_views(
            docs[n],
        ),
    decreases n,
{
    let a = docs.subrange(0, n + 1);
    if n == 0 {
        assert(a.subrange(1, 1) =~= Seq::<DocumentView>::empty());
        assert(docs.subrange(0, 0) =~= Seq::<DocumentView>::empty());
        assert(heap_view(a) =~= heap_view(docs.subrange(0, 0)) + shard_views(docs[0]));
    } else {
        let t = docs.subrange(1, docs.len() as int);
        lemma_heap_view_snoc(t, n - 1);
        assert(a.subrange(1, n + 1) =~= t.subrange(0, n));
        assert(docs.subrange(0, n).subrange(1, n) =~= t.subrange(0, n - 1));
        assert(t.subrange(0, n - 1) =~= docs.subrange(0, n).subrange(1, n));
        assert(t[n - 1] == docs[n]);
        assert(heap_view(a) == shard_views(docs[0]) + heap_view(t.subrange(0, n)));
        assert(heap_view(docs.subrange(0, n)) == shard_views(docs[0]) + heap_view(
            t.subrange(0, n - 1),
        ));
        assert(heap_view(a) =~= heap_view(docs.subrange(0, n)) + shard_views(docs[n]));
    }
}

/// The collection of all known tablets and shards.
pub struct Registry;

impl Registry {
    /// Builds the whole-document reference of one document.
    fn tablet(doc: &Document) -> (t: Tablet)
        requires
            0 < doc.lines@.len(),
        ensures
            t@ == whole_tablet(doc@),
            t.path == doc.path,
            t.wf(),
    {
        let count: usize = doc.lines.len();
        Tablet { path: doc.path.clone(), start: 0, end: count - 1 }
    }

    /// All known tablets, one whole-document reference per document, in
    /// the documents' order.
    pub fn catalog(docs: &Vec<Document>) -> (r: Vec<Tablet>)
        requires
            forall|k: int| 0 <= k < docs@.len() ==> 0 < (#[trigger] docs@[k]).lines@.len(),
        ensures
            r.deep_view() == catalog_view(docs.deep_view()),
            forall|k: int| 0 <= k < r@.len() ==> (#[trigger] r@[k]).wf(),
    {
        let ghost dv = docs.deep_view();
        let mut r: Vec<Tablet> = Vec::new();
        let mut d: usize = 0;
        while d < docs.len()
            invariant
                forall|k: int| 0 <= k < docs@.len() ==> 0 < (#[trigger] docs@[k]).lines@.len(),
                dv == docs.deep_view(),
                0 <= d <= docs@.len(),
                r@.len() == d,
                forall|k: int| 0 <= k < d ==> (#[trigger] r@[k])@ == whole_tablet(dv[k]),
                forall|k: int| 0 <= k < d ==> (#[trigger] r@[k]).wf(),
            decreases docs@.len() - d,
        {
            let t: Tablet = Self::tablet(&docs[d]);
            proof {
                assert(t@ == whole_tablet(dv[d as int]));
            }
            r.push(t);
            d = d + 1;
        }
        proof {
            assert(r.deep_view() =~= catalog_view(dv));
        }
        r
    }

    /// All known shards: the concatenation, in document order, of every
    /// document's shards, each document segmented over its whole range.
    pub fn heap(docs: &Vec<Document>) -> (r: Vec<Shard>)
        requires
            forall|k: int| 0 <= k < docs@.len() ==> 0 < (#[trigger] docs@[k]).lines@.len(),
        ensures
            r.deep_view() == heap_view(docs.deep_view()),
            forall|k: int| 0 <= k < r@.len() ==> (#[trigger] r@[k]).wf(),
    {
        let ghost dv = docs.deep_view();
        let mut r: Vec<Shard> = Vec::new();
        let mut d: usize = 0;
        proof {
            assert(dv.subrange(0, 0) =~= Seq::<DocumentView>::empty());
            assert(r.deep_view() =~= heap_view(dv.subrange(0, 0)));
        }
        while d < docs.len()
            invariant
                forall|k: int| 0 <= k < docs@.len() ==> 0 < (#[trigger] docs@[k]).lines@.len(),
                dv == docs.deep_view(),
                0 <= d <= docs@.len(),
                r.deep_view() == heap_view(dv.subrange(0, d as int)),
                forall|k: int| 0 <= k < r@.len() ==> (#[trigger] r@[k]).wf(),
            decreases docs@.len() - d,
        {
            let doc: &Document = &docs[d];
            let t: Tablet = Self::tablet(doc);
            let mut sh: Shards = t.shards(&doc.lines);
            let ghost segv = segments(dv[d as int].lines, 0, dv[d as int].lines.len() - 1);
            proof {
                crate::segment::lemma_segments_wf(
                    dv[d as int].lines,
                    0,
                    dv[d as int].lines.len() - 1,
                );
                assert(shard_views(dv[d as int]).subrange(0, 0)
                    =~= Seq::<TabletView>::empty());
                assert(r.deep_view() + shard_views(dv[d as int]).subrange(0, 0) =~= r.deep_view());
            }
            let ghost before = r.deep_view();
            while sh.pos < sh.segments.len()
                invariant
                    dv == docs.deep_view(),
                    0 <= d < docs@.len(),
                    sh.origin == t,
                    t@ == whole_tablet(dv[d as int]),
                    t.wf(),
                    segv == segments(dv[d as int].lines, 0, dv[d as int].lines.len() - 1),
                    seg_views(sh.segments@) == segv,
                    forall|k: int|
                        0 <= k < segv.len() ==> 0 <= (#[trigger] segv[k]).0 <= segv[k].1
                            < usize::MAX,
                    0 <= sh.pos <= sh.segments@.len(),
                    r.deep_view() == before + shard_views(dv[d as int]).subrange(
                        0,
                        sh.pos as int,
                    ),
                    forall|k: int| 0 <= k < r@.len() ==> (#[trigger] r@[k]).wf(),
                decreases sh.segments@.len() - sh.pos,
            {
                let ghost p = sh.pos as int;
                let s: Option<Shard> = sh.next();
                let sv: Shard = s.unwrap();
                proof {
                    assert(seg_views(sh.segments@)[p] == (
                        sh.segments@[p].0 as int,
                        sh.segments@[p].1 as int,
                    ));
                    assert(sv@ == shard_views(dv[d as int])[p]);
                    assert(sv.wf());
                }
                let ghost rd = r.deep_view();
                r.push(sv);
                proof {
                    assert(r@[r@.len() - 1] == sv);
                    assert(r.deep_view() =~= rd.push(sv@));
                    assert(shard_views(dv[d as int]).subrange(0, p + 1) =~= shard_views(
                        dv[d as int],
                    ).subrange(0, p).push(shard_views(dv[d as int])[p]));
                    assert(r.deep_view() =~= before + shard_views(dv[d as int]).subrange(
                        0,
                        p + 1,
                    ));
                }
            }
            proof {
                assert(shard_views(dv[d as int]).subrange(
                    0,
                    shard_views(dv[d as int]).len() as int,
                ) =~= shard_views(dv[d as int]));
                lemma_heap_view_snoc(dv, d as int);
                assert(r.deep_view() =~= heap_view(dv.subrange(0, d + 1)));
            }
            d = d + 1;
        }
        proof {
            assert(dv.subrange(0, dv.len() as int) =~= dv);
        }
        r
    }
}

} // verus!
