//! The document reference: an immutable handle identifying a document by
//! path plus an inclusive start/end line range. A whole document and a
//! sub-section of one are the same type, distinguished only by how the
//! value was produced.

use vstd::prelude::*;
use vstd::string::StrSliceExecFns;

verus! {

/// The mathematical value of a [`Tablet`]: a path and an inclusive,
/// zero-based line range.
pub struct TabletView {
    pub path: Seq<char>,
    pub start: int,
    pub end: int,
}

/// A single document reference. `start` and `end` are zero-based line
/// indices, both inclusive; the referenced lines are handed in separately
/// wherever they are needed, so a `Tablet` owns no document data.
#[derive(Debug)]
pub struct Tablet {
    /// Where the referenced document lives.
    pub path: String,
    /// First addressed line, zero-based.
    pub start: usize,
    /// Last addressed line, inclusive.
    pub end: usize,
}

/// A sub-section reference. Logically one note of a [`Tablet`], but
/// structurally just a narrower range over the same path.
pub type Shard = Tablet;

impl View for Tablet {
    type V = TabletView;

    open spec fn view(&self) -> TabletView {
        TabletView { path: self.path@, start: self.start as int, end: self.end as int }
    }
}

impl DeepView for Tablet {
    type V = TabletView;

    open spec fn deep_view(&self) -> TabletView {
        self.view()
    }
}

impl TabletView {
    /// The range is sensible: it has at least one line and a finite length.
    pub open spec fn wf(self) -> bool {
        0 <= self.start <= self.end < usize::MAX
    }

    /// How many lines the reference addresses.
    pub open spec fn len(self) -> int {
        self.end - self.start + 1
    }
}

impl PartialEq for Tablet {
    fn eq(&self, other: &Tablet) -> (r: bool) {
        self.path == other.path && self.start == other.start && self.end == other.end
    }
}

impl vstd::std_specs::cmp::PartialEqSpecImpl for Tablet {
    open spec fn obeys_eq_spec() -> bool {
        true
    }

    open spec fn eq_spec(&self, other: &Tablet) -> bool {
        self.path@ == other.path@ && self.start == other.start && self.end == other.end
    }
}

impl Clone for Tablet {
    fn clone(&self) -> (r: Self)
        ensures
            r == *self,
    {
        Tablet { path: self.path.clone(), start: self.start, end: self.end }
    }
}

/// The position of the last occurrence of `c` in `s`, or `-1` if `c` does
/// not occur.
pub open spec fn last_index_of(s: Seq<char>, c: char) -> int
    decreases s.len(),
{
    if s.len() == 0 {
        -1
    } else if s[s.len() - 1] == c {
        s.len() - 1
    } else {
        last_index_of(s.subrange(0, s.len() - 1), c)
    }
}

/// `last_index_of` is pinned down by an occurrence with nothing after it,
/// or by the absence of any occurrence.
proof fn lemma_last_index_of(s: Seq<char>, c: char, i: int)
    requires
        -1 <= i < s.len(),
        i >= 0 ==> s[i] == c,
        forall|k: int| i < k < s.len() ==> s[k] != c,
    ensures
        last_index_of(s, c) == i,
    decreases s.len(),
{
    if s.len() > 0 && s[s.len() - 1] != c {
        lemma_last_index_of(s.subrange(0, s.len() - 1), c, i);
    }
}

/// The base name of `path`: everything after the last `/`.
pub open spec fn base_of(path: Seq<char>) -> Seq<char> {
    path.subrange(last_index_of(path, '/') + 1, path.len() as int)
}

/// The name a path yields: the base name without its extension, where the
/// extension is everything from the last `.` of the base name on, unless
/// that `.` is the base name's first character. A path whose base name is
/// empty yields no name.
pub open spec fn name_of(path: Seq<char>) -> Option<Seq<char>> {
    let base = base_of(path);
    if base.len() == 0 {
        None
    } else {
        let dot = last_index_of(base, '.');
        if dot <= 0 {
            Some(base)
        } else {
            Some(base.subrange(0, dot))
        }
    }
}

impl Tablet {
    /// The range is sensible: see [`TabletView::wf`].
    pub open spec fn wf(&self) -> bool {
        self@.wf()
    }

    /// Builds a reference to lines `start` through `end` (both inclusive)
    /// of the document at `path`.
    pub fn new(path: String, start: usize, end: usize) -> (t: Tablet)
        requires
            start <= end < usize::MAX,
        ensures
            t == (Tablet { path, start, end }),
            t.wf(),
    {
        Tablet { path, start, end }
    }

    /// The path to the document, as a string slice.
    pub fn path_str(&self) -> (r: &str)
        ensures
            r@ == self.path@,
    {
        self.path.as_str()
    }

    /// The path to the document.
    pub fn path(&self) -> (r: &String)
        ensures
            r@ == self.path@,
    {
        &self.path
    }

    /// Which line to start reading from.
    pub fn start(&self) -> (r: usize)
        ensures
            r == self.start,
    {
        self.start
    }

    /// Which line to stop reading on.
    pub fn end(&self) -> (r: usize)
        ensures
            r == self.end,
    {
        self.end
    }

    /// Count of addressed lines.
    pub fn length(&self) -> (r: usize)
        requires
            self.wf(),
        ensures
            r == self@.len(),
    {
        self.end - self.start + 1
    }

    /// The name of the document, derived from the file name in its path:
    /// the base name without extension ([`name_of`]). Yields `None` when
    /// the path has no extractable base name.
    pub fn name(&self) -> (r: Option<String>)
        ensures
            r is Some <==> name_of(self.path@) is Some,
            r matches Some(nm) ==> name_of(self.path@) == Some(nm@),
    {
        let p: &str = self.path.as_str();
        let n: usize = p.unicode_len();
        let mut j: usize = n;
        while j > 0 && p.get_char(j - 1) != '/'
            invariant
                n == p@.len(),
                0 <= j <= n,
                forall|k: int| j <= k < n ==> p@[k] != '/',
            decreases j,
        {
            j = j - 1;
        }
        proof {
            if j > 0 {
                lemma_last_index_of(p@, '/', j - 1);
            } else {
                lemma_last_index_of(p@, '/', -1);
            }
            assert(last_index_of(p@, '/') + 1 == j as int);
        }
        if j == n {
            proof {
                assert(base_of(p@).len() == 0);
            }
            return None;
        }
        let ghost base = base_of(p@);
        proof {
            assert(base =~= p@.subrange(j as int, n as int));
        }
        let mut d: usize = n;
        while d > j && p.get_char(d - 1) != '.'
            invariant
                n == p@.len(),
                j <= d <= n,
                forall|k: int| d <= k < n ==> p@[k] != '.',
            decreases d,
        {
            d = d - 1;
        }
        proof {
            if d > j {
                assert(base[d - 1 - j] == p@[d - 1]);
                assert forall|k: int| d - 1 - j < k < base.len() implies base[k] != '.' by {
                    assert(base[k] == p@[j + k]);
                }
                lemma_last_index_of(base, '.', d - 1 - j);
            } else {
                assert forall|k: int| 0 <= k < base.len() implies base[k] != '.' by {
                    assert(base[k] == p@[j + k]);
                }
                lemma_last_index_of(base, '.', -1);
            }
        }
        let r: &str = if d == j || d - 1 == j {
            p.substring_char(j, n)
        } else {
            p.substring_char(j, d - 1)
        };
        proof {
            if d as int - 1 - j as int > 0 {
                assert(p@.subrange(j as int, d - 1) =~= base.subrange(0, d - 1 - j));
            }
        }
        Some(r.to_owned())
    }
}

} // verus!
