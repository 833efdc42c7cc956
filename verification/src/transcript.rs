//! The renderer: reads the lines addressed by a [`Tablet`] and produces
//! one normalized markdown string. Per line, the doc-comment marker `//!`
//! is stripped wherever it occurs, the fenced-code annotations
//! ` ```should_panic ` and ` ```no_run ` are normalized to ` ```rust `,
//! and the line is trimmed; the accumulated text is trimmed as a whole.

use crate::tablet::Tablet;
use crate::text::replace_all;
use crate::text::replaced;
use crate::text::trim_str;
use crate::text::trimmed;
use vstd::prelude::*;

verus! {

/// The doc-comment marker token stripped from every line.
pub open spec fn doc_marker() -> Seq<char> {
    seq!['/', '/', '!']
}

/// The fence annotation that marks an example which should panic.
pub open spec fn fence_should_panic() -> Seq<char> {
    seq!['`', '`', '`', 's', 'h', 'o', 'u', 'l', 'd', '_', 'p', 'a', 'n', 'i', 'c']
}

/// The fence annotation that marks an example which should not run.
pub open spec fn fence_no_run() -> Seq<char> {
    seq!['`', '`', '`', 'n', 'o', '_', 'r', 'u', 'n']
}

/// The plain fence tag both special annotations are normalized to.
pub open spec fn fence_rust() -> Seq<char> {
    seq!['`', '`', '`', 'r', 'u', 's', 't']
}

/// One line's normalized form: markers stripped, fence annotations
/// normalized, the line trimmed, and a single newline appended.
pub open spec fn line_fmt_spec(line: Seq<char>) -> Seq<char> {
    trimmed(
        replaced(
            replaced(
                replaced(line, doc_marker(), Seq::<char>::empty()),
                fence_should_panic(),
                fence_rust(),
            ),
            fence_no_run(),
            fence_rust(),
        ),
    ).push('\n')
}

/// The concatenation of the normalized forms of `lines[lo ..= hi]`.
pub open spec fn rendered_upto(lines: Seq<Seq<char>>, lo: int, hi: int) -> Seq<char>
    decreases hi - lo + 1,
{
    if hi < lo {
        Seq::<char>::empty()
    } else {
        rendered_upto(lines, lo, hi - 1) + line_fmt_spec(lines[hi])
    }
}

/// What rendering the window `[lo, hi]` of `lines` yields: the normalized
/// lines concatenated, trimmed as a whole.
pub open spec fn render_spec(lines: Seq<Seq<char>>, lo: int, hi: int) -> Seq<char> {
    trimmed(rendered_upto(lines, lo, hi))
}

/// Idempotent rendering: the output of [`Transcriptor::read`] is a
/// function of the document lines and the addressed range alone, so
/// rendering the same reference twice yields identical output.
pub proof fn lemma_render_deterministic(
    lines: Seq<Seq<char>>,
    lo: int,
    hi: int,
    r1: Seq<char>,
    r2: Seq<char>,
)
    requires
        r1 == render_spec(lines, lo, hi),
        r2 == render_spec(lines, lo, hi),
    ensures
        r1 == r2,
{
}

/// The tool for reading tablets and shards in markdown form.
pub struct Transcriptor;

impl Transcriptor {
    /// Normalizes one line to match the markdown format: [`line_fmt_spec`].
    pub fn line_fmt(line: &str) -> (r: String)
        ensures
            r@ == line_fmt_spec(line@),
    {
        let marker: &str = "//!";
        let nothing: &str = "";
        let panic_pat: &str = "```should_panic";
        let no_run_pat: &str = "```no_run";
        let rust_tag: &str = "```rust";
        let newline: &str = "\n";
        proof {
            reveal_strlit("//!");
            reveal_strlit("");
            reveal_strlit("```should_panic");
            reveal_strlit("```no_run");
            reveal_strlit("```rust");
            reveal_strlit("\n");
            assert(marker@ =~= doc_marker());
            assert(nothing@ =~= Seq::<char>::empty());
            assert(panic_pat@ =~= fence_should_panic());
            assert(no_run_pat@ =~= fence_no_run());
            assert(rust_tag@ =~= fence_rust());
            assert(newline@ =~= seq!['\n']);
        }
        let s1: String = replace_all(line, marker, nothing);
        let s2: String = replace_all(s1.as_str(), panic_pat, rust_tag);
        let s3: String = replace_all(s2.as_str(), no_run_pat, rust_tag);
        let mut out: String = trim_str(s3.as_str()).to_owned();
        out.append(newline);
        proof {
            assert(out@ =~= line_fmt_spec(line@));
        }
        out
    }

    /// Reads the contents addressed by a [`Tablet`] (or shard) out of the
    /// document's `lines`, normalized to markdown: [`render_spec`].
    pub fn read(tablet: &Tablet, lines: &Vec<String>) -> (r: String)
        requires
            tablet.wf(),
            tablet.end < lines@.len(),
        ensures
            r@ == render_spec(lines.deep_view(), tablet.start as int, tablet.end as int),
    {
        let mut contents: String = String::new();
        let mut i: usize = tablet.start;
        while i <= tablet.end
            invariant
                tablet.wf(),
                tablet.end < lines@.len(),
                tablet.start <= i <= tablet.end + 1,
                contents@ == rendered_upto(lines.deep_view(), tablet.start as int, i - 1),
            decreases tablet.end + 1 - i,
        {
            let line: String = Self::line_fmt(lines[i].as_str());
            contents.append(line.as_str());
            i = i + 1;
        }
        trim_str(contents.as_str()).to_owned()
    }
}

} // verus!
