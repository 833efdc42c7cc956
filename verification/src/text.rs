//! Character-level primitives shared by the segmenter and the renderer:
//! whitespace trimming, substring search, and substring replacement, each
//! with a specification over `Seq<char>` and an executable form proved
//! against it.

use vstd::prelude::*;
use vstd::string::StrSliceExecFns;

verus! {

/// The characters that count as whitespace when a line or a rendered
/// document is trimmed: the Unicode `White_Space` set, the same set that
/// `str::trim` removes.
pub open spec fn is_space(c: char) -> bool {
    ||| c == ' '
    ||| c == '\u{9}'
    ||| c == '\u{A}'
    ||| c == '\u{B}'
    ||| c == '\u{C}'
    ||| c == '\u{D}'
    ||| c == '\u{85}'
    ||| c == '\u{A0}'
    ||| c == '\u{1680}'
    ||| c == '\u{2000}'
    ||| c == '\u{2001}'
    ||| c == '\u{2002}'
    ||| c == '\u{2003}'
    ||| c == '\u{2004}'
    ||| c == '\u{2005}'
    ||| c == '\u{2006}'
    ||| c == '\u{2007}'
    ||| c == '\u{2008}'
    ||| c == '\u{2009}'
    ||| c == '\u{200A}'
    ||| c == '\u{2028}'
    ||| c == '\u{2029}'
    ||| c == '\u{202F}'
    ||| c == '\u{205F}'
    ||| c == '\u{3000}'
}

/// Decides [`is_space`].
pub fn is_space_char(c: char) -> (r: bool)
    ensures
        r == is_space(c),
{
    c == ' ' || c == '\u{9}' || c == '\u{A}' || c == '\u{B}' || c == '\u{C}' || c == '\u{D}'
        || c == '\u{85}' || c == '\u{A0}' || c == '\u{1680}' || c == '\u{2000}' || c == '\u{2001}'
        || c == '\u{2002}' || c == '\u{2003}' || c == '\u{2004}' || c == '\u{2005}' || c
        == '\u{2006}' || c == '\u{2007}' || c == '\u{2008}' || c == '\u{2009}' || c == '\u{200A}'
        || c == '\u{2028}' || c == '\u{2029}' || c == '\u{202F}' || c == '\u{205F}' || c
        == '\u{3000}'
}

/// The pattern `pat` occurs in `s` starting at position `i`.
pub open spec fn match_at(s: Seq<char>, pat: Seq<char>, i: int) -> bool {
    &&& 0 <= i
    &&& i + pat.len() <= s.len()
    &&& s.subrange(i, i + pat.len() as int) == pat
}

/// The pattern `pat` occurs somewhere in `s`.
pub open spec fn has_match(s: Seq<char>, pat: Seq<char>) -> bool {
    exists|i: int| match_at(s, pat, i)
}

/// Decides [`match_at`] at one position.
pub fn match_at_exec(s: &str, pat: &str, i: usize) -> (r: bool)
    requires
        i + pat@.len() <= s@.len(),
    ensures
        r == match_at(s@, pat@, i as int),
{
    let n: usize = s.unicode_len();
    let m: usize = pat.unicode_len();
    let mut j: usize = 0;
    while j < m
        invariant
            n == s@.len(),
            m == pat@.len(),
            i + m <= s@.len(),
            0 <= j <= m,
            forall|k: int| 0 <= k < j ==> s@[i + k] == pat@[k],
        decreases m - j,
    {
        if s.get_char(i + j) != pat.get_char(j) {
            assert(s@.subrange(i as int, i + m) != pat@) by {
                assert(s@.subrange(i as int, i + m)[j as int] == s@[i + j]);
            }
            return false;
        }
        j = j + 1;
    }
    assert(s@.subrange(i as int, i + m) =~= pat@);
    true
}

/// Decides [`has_match`].
pub fn contains_pat(s: &str, pat: &str) -> (r: bool)
    ensures
        r == has_match(s@, pat@),
{
    let n: usize = s.unicode_len();
    let m: usize = pat.unicode_len();
    if m > n {
        assert(forall|i: int| !match_at(s@, pat@, i));
        return false;
    }
    if m == 0 {
        assert(match_at(s@, pat@, 0)) by {
            assert(s@.subrange(0, 0) =~= pat@);
        }
        return true;
    }
    let mut i: usize = 0;
    while i <= n - m
        invariant
            n == s@.len(),
            m == pat@.len(),
            1 <= m <= n,
            0 <= i <= n - m + 1,
            forall|k: int| 0 <= k < i ==> !match_at(s@, pat@, k),
        decreases n - i,
    {
        if match_at_exec(s, pat, i) {
            return true;
        }
        i = i + 1;
    }
    assert(forall|k: int| !match_at(s@, pat@, k)) by {
        assert(forall|k: int| k > n - m ==> !match_at(s@, pat@, k));
    }
    false
}

/// `s` with its leading whitespace removed.
pub open spec fn trim_start_rec(s: Seq<char>) -> Seq<char>
    decreases s.len(),
{
    if s.len() > 0 && is_space(s[0]) {
        trim_start_rec(s.subrange(1, s.len() as int))
    } else {
        s
    }
}

/// `s` with its trailing whitespace removed.
pub open spec fn trim_end_rec(s: Seq<char>) -> Seq<char>
    decreases s.len(),
{
    if s.len() > 0 && is_space(s[s.len() - 1]) {
        trim_end_rec(s.subrange(0, s.len() - 1))
    } else {
        s
    }
}

/// `s` with leading and trailing whitespace removed: what `str::trim`
/// leaves of `s`.
pub open spec fn trimmed(s: Seq<char>) -> Seq<char> {
    trim_end_rec(trim_start_rec(s))
}

/// If the first `a` characters of `s` are whitespace and the one after them
/// (if any) is not, trimming the start removes exactly those `a` characters.
proof fn lemma_trim_start_at(s: Seq<char>, a: int)
    requires
        0 <= a <= s.len(),
        forall|k: int| 0 <= k < a ==> is_space(s[k]),
        a < s.len() ==> !is_space(s[a]),
    ensures
        trim_start_rec(s) == s.subrange(a, s.len() as int),
    decreases a,
{
    if a == 0 {
        assert(s.subrange(0, s.len() as int) =~= s);
    } else {
        let t = s.subrange(1, s.len() as int);
        lemma_trim_start_at(t, a - 1);
        assert(t.subrange(a - 1, t.len() as int) =~= s.subrange(a, s.len() as int));
    }
}

/// If the characters of `s` from position `b` on are whitespace and the one
/// before them (if any) is not, trimming the end removes exactly them.
proof fn lemma_trim_end_at(s: Seq<char>, b: int)
    requires
        0 <= b <= s.len(),
        forall|k: int| b <= k < s.len() ==> is_space(s[k]),
        b > 0 ==> !is_space(s[b - 1]),
    ensures
        trim_end_rec(s) == s.subrange(0, b),
    decreases s.len() - b,
{
    if b == s.len() {
        if s.len() > 0 && is_space(s[s.len() - 1]) {
            let t = s.subrange(0, s.len() - 1);
            lemma_trim_end_at(t, b - 1);
        } else {
            assert(s.subrange(0, s.len() as int) =~= s);
        }
    } else {
        let t = s.subrange(0, s.len() - 1);
        lemma_trim_end_at(t, b);
        assert(t.subrange(0, b) =~= s.subrange(0, b));
    }
}

/// Removes leading and trailing whitespace, as `str::trim` does.
pub fn trim_str<'a>(s: &'a str) -> (r: &'a str)
    ensures
        r@ == trimmed(s@),
{
    let n: usize = s.unicode_len();
    let mut a: usize = 0;
    while a < n && is_space_char(s.get_char(a))
        invariant
            n == s@.len(),
            0 <= a <= n,
            forall|k: int| 0 <= k < a ==> is_space(s@[k]),
        decreases n - a,
    {
        a = a + 1;
    }
    proof {
        lemma_trim_start_at(s@, a as int);
    }
    if a == n {
        let empty: &str = "";
        proof {
            reveal_strlit("");
            assert(trim_start_rec(s@) =~= Seq::<char>::empty());
            assert(empty@ =~= trim_start_rec(s@));
        }
        return empty;
    }
    let mut b: usize = n;
    while is_space_char(s.get_char(b - 1))
        invariant
            n == s@.len(),
            a < n,
            !is_space(s@[a as int]),
            a < b <= n,
            forall|k: int| b <= k < n ==> is_space(s@[k]),
        decreases b,
    {
        b = b - 1;
    }
    let r: &str = s.substring_char(a, b);
    proof {
        let t = trim_start_rec(s@);
        lemma_trim_end_at(t, b - a);
        assert(t.subrange(0, b - a) =~= s@.subrange(a as int, b as int));
    }
    r
}

/// `s` with every occurrence of `pat` replaced by `rep`, scanning left to
/// right and never re-examining replaced text: what `str::replace` returns.
/// An empty pattern leaves `s` unchanged.
pub open spec fn replaced(s: Seq<char>, pat: Seq<char>, rep: Seq<char>) -> Seq<char>
    decreases s.len(),
{
    if pat.len() == 0 || s.len() < pat.len() {
        s
    } else if s.subrange(0, pat.len() as int) == pat {
        rep + replaced(s.subrange(pat.len() as int, s.len() as int), pat, rep)
    } else {
        seq![s[0]] + replaced(s.subrange(1, s.len() as int), pat, rep)
    }
}

/// A match inside a part of the text is a match in the whole.
proof fn lemma_match_in_subrange(s: Seq<char>, pat: Seq<char>, x: int, y: int, i: int)
    requires
        0 <= x <= y <= s.len(),
        match_at(s.subrange(x, y), pat, i),
    ensures
        match_at(s, pat, x + i),
{
    assert(s.subrange(x + i, x + i + pat.len() as int) =~= s.subrange(x, y).subrange(
        i,
        i + pat.len() as int,
    ));
}

/// Replacing a pattern that does not occur leaves the text unchanged.
pub proof fn lemma_replaced_absent(s: Seq<char>, pat: Seq<char>, rep: Seq<char>)
    requires
        !has_match(s, pat),
    ensures
        replaced(s, pat, rep) == s,
    decreases s.len(),
{
    if pat.len() == 0 || s.len() < pat.len() {
    } else {
        assert(!match_at(s, pat, 0));
        let t = s.subrange(1, s.len() as int);
        assert forall|i: int| !match_at(t, pat, i) by {
            if match_at(t, pat, i) {
                lemma_match_in_subrange(s, pat, 1, s.len() as int, i);
            }
        }
        lemma_replaced_absent(t, pat, rep);
        assert(seq![s[0]] + t =~= s);
    }
}

/// Trimming the start of a text in which a pattern does not occur cannot
/// make it occur.
proof fn lemma_trim_start_no_match(s: Seq<char>, pat: Seq<char>)
    requires
        !has_match(s, pat),
    ensures
        !has_match(trim_start_rec(s), pat),
    decreases s.len(),
{
    if s.len() > 0 && is_space(s[0]) {
        let t = s.subrange(1, s.len() as int);
        assert forall|i: int| !match_at(t, pat, i) by {
            if match_at(t, pat, i) {
                lemma_match_in_subrange(s, pat, 1, s.len() as int, i);
            }
        }
        lemma_trim_start_no_match(t, pat);
    }
}

/// Trimming the end of a text in which a pattern does not occur cannot
/// make it occur.
proof fn lemma_trim_end_no_match(s: Seq<char>, pat: Seq<char>)
    requires
        !has_match(s, pat),
    ensures
        !has_match(trim_end_rec(s), pat),
    decreases s.len(),
{
    if s.len() > 0 && is_space(s[s.len() - 1]) {
        let t = s.subrange(0, s.len() - 1);
        assert forall|i: int| !match_at(t, pat, i) by {
            if match_at(t, pat, i) {
                lemma_match_in_subrange(s, pat, 0, s.len() - 1, i);
            }
        }
        lemma_trim_end_no_match(t, pat);
    }
}

/// Trimming a text in which a pattern does not occur cannot make it
/// occur: what [`trimmed`] returns is a contiguous part of its input.
pub proof fn lemma_trimmed_no_match(s: Seq<char>, pat: Seq<char>)
    requires
        !has_match(s, pat),
    ensures
        !has_match(trimmed(s), pat),
{
    lemma_trim_start_no_match(s, pat);
    lemma_trim_end_no_match(trim_start_rec(s), pat);
}

/// Replaces every occurrence of `pat` in `s` by `rep`, as `str::replace`
/// does.
pub fn replace_all(s: &str, pat: &str, rep: &str) -> (r: String)
    requires
        pat@.len() >= 1,
    ensures
        r@ == replaced(s@, pat@, rep@),
{
    let n: usize = s.unicode_len();
    let m: usize = pat.unicode_len();
    let mut out: String = String::new();
    let mut i: usize = 0;
    proof {
        assert(s@.subrange(0, n as int) =~= s@);
        assert(out@ + replaced(s@, pat@, rep@) =~= replaced(s@, pat@, rep@));
    }
    while i < n
        invariant
            n == s@.len(),
            m == pat@.len(),
            m >= 1,
            0 <= i <= n,
            out@ + replaced(s@.subrange(i as int, n as int), pat@, rep@) == replaced(
                s@,
                pat@,
                rep@,
            ),
        decreases n - i,
    {
        let ghost tail = s@.subrange(i as int, n as int);
        if m <= n - i && match_at_exec(s, pat, i) {
            out.append(rep);
            i = i + m;
            proof {
                assert(tail.subrange(0, m as int) =~= s@.subrange(i - m, i as int));
                assert(tail.subrange(0, m as int) == pat@);
                assert(tail.subrange(m as int, tail.len() as int) =~= s@.subrange(
                    i as int,
                    n as int,
                ));
            }
        } else {
            let c: &str = s.substring_char(i, i + 1);
            out.append(c);
            i = i + 1;
            proof {
                if tail.len() >= m {
                    assert(tail.subrange(0, m as int) =~= s@.subrange(i - 1, i - 1 + m));
                    assert(tail.subrange(0, m as int) != pat@);
                }
                assert(c@ =~= seq![tail[0]]);
                assert(tail.subrange(1, tail.len() as int) =~= s@.subrange(i as int, n as int));
            }
        }
    }
    proof {
        assert(s@.subrange(n as int, n as int) =~= Seq::<char>::empty());
        assert(out@ =~= replaced(s@, pat@, rep@));
    }
    out
}

} // verus!
