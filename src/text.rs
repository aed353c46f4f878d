use vstd::prelude::*;
use vstd::string::StringExecFns;

verus! {

/// Character-wise equality of two strings.
pub fn text_eq(a: &str, b: &str) -> (r: bool)
    ensures
        r == (a@ == b@),
{
    let n = a.unicode_len();
    if n != b.unicode_len() {
        return false;
    }
    let mut i: usize = 0;
    while i < n
        invariant
            n == a@.len(),
            n == b@.len(),
            i <= n,
            a@.subrange(0, i as int) == b@.subrange(0, i as int),
        decreases n - i,
    {
        if a.get_char(i) != b.get_char(i) {
            return false;
        }
        assert(a@.subrange(0, i + 1) == a@.subrange(0, i as int).push(a@[i as int]));
        assert(b@.subrange(0, i + 1) == b@.subrange(0, i as int).push(b@[i as int]));
        i = i + 1;
    }
    assert(a@ == a@.subrange(0, n as int));
    assert(b@ == b@.subrange(0, n as int));
    true
}

} // verus!

verus! {

/// The characters that count as whitespace.
pub open spec fn is_space(c: char) -> bool {
    c == ' ' || c == '\t' || c == '\n' || c == '\r'
}

/// `s` without its leading whitespace.
pub open spec fn trim_start(s: Seq<char>) -> Seq<char>
    decreases s.len(),
{
    if s.len() > 0 && is_space(s[0]) {
        trim_start(s.drop_first())
    } else {
        s
    }
}

/// `s` without its trailing whitespace.
pub open spec fn trim_end(s: Seq<char>) -> Seq<char>
    decreases s.len(),
{
    if s.len() > 0 && is_space(s.last()) {
        trim_end(s.drop_last())
    } else {
        s
    }
}

/// The canonical form in which issue text is compared: surrounding whitespace
/// (spaces, tabs, line breaks) does not count as a change.
pub open spec fn canonical(s: Seq<char>) -> Seq<char> {
    trim_end(trim_start(s))
}

/// Whether two texts are equal once put in canonical form.
pub fn same_canonical(a: &str, b: &str) -> (r: bool)
    ensures
        r == (canonical(a@) == canonical(b@)),
{
    let ta = canonical_text(a);
    let tb = canonical_text(b);
    text_eq(ta, tb)
}

/// The canonical form of a text.
pub fn canonical_text(s: &str) -> (r: &str)
    ensures
        r@ == canonical(s@),
{
    let n = s.unicode_len();
    let mut i: usize = 0;
    assert(s@.subrange(0, n as int) == s@);
    while i < n && (s.get_char(i) == ' ' || s.get_char(i) == '\t' || s.get_char(i) == '\n'
        || s.get_char(i) == '\r')
        invariant
            n == s@.len(),
            i <= n,
            trim_start(s@) == trim_start(s@.subrange(i as int, n as int)),
        decreases n - i,
    {
        assert(s@.subrange(i as int, n as int).drop_first() == s@.subrange(i + 1, n as int));
        i = i + 1;
    }
    assert(trim_start(s@.subrange(i as int, n as int)) == s@.subrange(i as int, n as int));
    let mut j: usize = n;
    while j > i && (s.get_char(j - 1) == ' ' || s.get_char(j - 1) == '\t' || s.get_char(j - 1)
        == '\n' || s.get_char(j - 1) == '\r')
        invariant
            n == s@.len(),
            i <= j <= n,
            canonical(s@) == trim_end(s@.subrange(i as int, j as int)),
        decreases j - i,
    {
        assert(s@.subrange(i as int, j as int).drop_last() == s@.subrange(i as int, j - 1));
        j = j - 1;
    }
    s.substring_char(i, j)
}

} // verus!

verus! {

/// Whether `pat` occurs in `s` starting at character `at`.
pub fn occurs_at(s: &str, at: usize, pat: &str) -> (r: bool)
    ensures
        r == (at + pat@.len() <= s@.len() && s@.subrange(at as int, at + pat@.len()) == pat@),
{
    let n = s.unicode_len();
    let m = pat.unicode_len();
    if at > n || m > n - at {
        return false;
    }
    let mut i: usize = 0;
    while i < m
        invariant
            n == s@.len(),
            m == pat@.len(),
            at + m <= n,
            i <= m,
            s@.subrange(at as int, at + i) == pat@.subrange(0, i as int),
        decreases m - i,
    {
        if s.get_char(at + i) != pat.get_char(i) {
            assert(s@.subrange(at as int, at + m)[i as int] == s@[at + i]);
            return false;
        }
        assert(s@.subrange(at as int, at + i + 1) == s@.subrange(at as int, at + i).push(s@[at + i]));
        assert(pat@.subrange(0, i + 1) == pat@.subrange(0, i as int).push(pat@[i as int]));
        i = i + 1;
    }
    assert(pat@.subrange(0, m as int) == pat@);
    true
}

/// The two strings one after the other.
pub fn join(a: &str, b: &str) -> (r: String)
    ensures
        r@ == a@ + b@,
{
    let mut r = a.to_owned();
    r.append(b);
    r
}

} // verus!

verus! {

/// Whether a text is whitespace only.
pub open spec fn all_space(w: Seq<char>) -> bool {
    forall|i: int| 0 <= i < w.len() ==> is_space(#[trigger] w[i])
}

proof fn lemma_trim_end_spaces(x: Seq<char>, w: Seq<char>)
    requires
        all_space(w),
    ensures
        trim_end(x + w) == trim_end(x),
    decreases w.len(),
{
    if w.len() == 0 {
        assert(x + w =~= x);
    } else {
        assert((x + w).last() == w[w.len() - 1]);
        assert((x + w).drop_last() =~= x + w.drop_last());
        assert(all_space(w.drop_last())) by {
            assert forall|i: int| 0 <= i < w.drop_last().len() implies is_space(#[trigger] w.drop_last()[i]) by {
                assert(w.drop_last()[i] == w[i]);
            }
        }
        lemma_trim_end_spaces(x, w.drop_last());
    }
}

proof fn lemma_trim_start_all_space(w: Seq<char>)
    requires
        all_space(w),
    ensures
        trim_start(w).len() == 0,
    decreases w.len(),
{
    if w.len() > 0 {
        assert(is_space(w[0]));
        assert(all_space(w.drop_first())) by {
            assert forall|i: int| 0 <= i < w.drop_first().len() implies is_space(#[trigger] w.drop_first()[i]) by {
                assert(w.drop_first()[i] == w[i + 1]);
            }
        }
        lemma_trim_start_all_space(w.drop_first());
    }
}

/// Whitespace added at the end of a text leaves its canonical form as it was.
pub proof fn lemma_canonical_trailing_space(t: Seq<char>, w: Seq<char>)
    requires
        all_space(w),
    ensures
        canonical(t + w) == canonical(t),
    decreases t.len(),
{
    if t.len() == 0 {
        assert(t + w =~= w);
        lemma_trim_start_all_space(w);
        assert(trim_start(t) == t);
        assert(trim_end(trim_start(w)) == trim_start(w));
        assert(trim_start(w) =~= t);
    } else if is_space(t[0]) {
        assert((t + w)[0] == t[0]);
        assert((t + w).drop_first() =~= t.drop_first() + w);
        lemma_canonical_trailing_space(t.drop_first(), w);
    } else {
        assert((t + w)[0] == t[0]);
        lemma_trim_end_spaces(t, w);
    }
}

} // verus!
