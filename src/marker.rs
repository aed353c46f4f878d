//! The identity marker a tracking issue carries as the last line of its body:
//! `<!-- goal-identity: 2025h1/alpha -->`. Titles may be edited on the remote
//! side; the marker is what ties an issue to its goal.
use vstd::prelude::*;

use crate::goal::{Goal, GoalId, GoalIdView};
use crate::period::{parse_period, period_of};
use crate::text::{join, occurs_at};

verus! {

/// What a marker line starts with.
pub open spec fn mark_open() -> Seq<char> {
    "<!-- goal-identity: "@
}

/// What a marker line ends with.
pub open spec fn mark_close() -> Seq<char> {
    " -->"@
}

/// Where the last line of `s` starts.
pub open spec fn last_line_start(s: Seq<char>) -> int
    decreases s.len(),
{
    if s.len() == 0 {
        0
    } else if s.last() == '\n' {
        s.len() as int
    } else {
        last_line_start(s.drop_last())
    }
}

/// The identity a marker line names.
pub open spec fn marker_id(line: Seq<char>) -> Option<GoalIdView> {
    let p = mark_open().len() as int;
    let q = mark_close().len() as int;
    let n = line.len() as int;
    if n >= p + 8 + q && line.subrange(0, p) == mark_open() && line.subrange(n - q, n) == mark_close()
        && period_of(line.subrange(p, p + 6)).is_some() && line[p + 6] == '/' {
        Some(
            GoalIdView {
                period: period_of(line.subrange(p, p + 6)).unwrap(),
                slug: line.subrange(p + 7, n - q),
            },
        )
    } else {
        None
    }
}

/// An issue body split into its text and the identity its last line names.
pub open spec fn split_marker_spec(body: Seq<char>) -> Option<(Seq<char>, GoalIdView)> {
    let k = last_line_start(body);
    match marker_id(body.subrange(k, body.len() as int)) {
        Some(id) => Some((body.subrange(0, k), id)),
        None => None,
    }
}

/// Splits an issue body into its text and the identity of the goal it tracks.
pub fn split_marker(body: &str) -> (r: Option<(&str, GoalId)>)
    ensures
        match r {
            Some((text, id)) => split_marker_spec(body@) == Some((text@, id@)),
            None => split_marker_spec(body@).is_none(),
        },
{
    let n = body.unicode_len();
    let mut k: usize = n;
    assert(body@.subrange(0, n as int) == body@);
    while k > 0 && body.get_char(k - 1) != '\n'
        invariant
            n == body@.len(),
            k <= n,
            last_line_start(body@) == last_line_start(body@.subrange(0, k as int)),
        decreases k,
    {
        assert(body@.subrange(0, k as int).drop_last() == body@.subrange(0, k - 1));
        k = k - 1;
    }
    assert(last_line_start(body@.subrange(0, k as int)) == k);
    let line = body.substring_char(k, n);
    let ln = line.unicode_len();
    let opening = "<!-- goal-identity: ";
    let closing = " -->";
    let p = opening.unicode_len();
    let q = closing.unicode_len();
    if p > ln || 8 > ln - p || q > ln - p - 8 {
        return None;
    }
    if !occurs_at(line, 0, opening) || !occurs_at(line, ln - q, closing) {
        return None;
    }
    let period = match parse_period(line.substring_char(p, p + 6)) {
        Some(pd) => pd,
        None => return None,
    };
    if line.get_char(p + 6) != '/' {
        return None;
    }
    let slug = line.substring_char(p + 7, ln - q).to_owned();
    Some((body.substring_char(0, k), GoalId { period, slug }))
}

/// The body of the tracking issue for a goal: its text, a blank line, then its marker.
pub fn issue_body(g: &Goal) -> (r: String)
    requires
        g.id.period.year < 10000,
    ensures
        exists|label: Seq<char>|
            period_of(label) == Some(g.id.period) && r@ == g.body@ + "\n\n"@ + mark_open() + label
                + "/"@ + g.id.slug@ + mark_close(),
{
    let label = g.id.period.label();
    let a = join(g.body.as_str(), "\n\n");
    let b = join(a.as_str(), "<!-- goal-identity: ");
    let c = join(b.as_str(), label.as_str());
    let d = join(c.as_str(), "/");
    let e = join(d.as_str(), g.id.slug.as_str());
    let f = join(e.as_str(), " -->");
    assert(f@ == g.body@ + "\n\n"@ + mark_open() + label@ + "/"@ + g.id.slug@ + mark_close());
    f
}

proof fn lemma_last_line_start(pre: Seq<char>, line: Seq<char>)
    requires
        pre.len() > 0,
        pre.last() == '\n',
        forall|i: int| 0 <= i < line.len() ==> #[trigger] line[i] != '\n',
    ensures
        last_line_start(pre + line) == pre.len(),
    decreases line.len(),
{
    if line.len() == 0 {
        assert(pre + line =~= pre);
    } else {
        assert((pre + line).drop_last() =~= pre + line.drop_last());
        assert(line[line.len() - 1] != '\n');
        lemma_last_line_start(pre, line.drop_last());
    }
}

/// Reading back the body written for a goal's issue gives the goal's text (with
/// the blank line before the marker) and its identity, whatever the text holds,
/// as long as the identity's slug is one non-empty line.
pub proof fn lemma_marker_round_trip(text: Seq<char>, label: Seq<char>, id: GoalIdView)
    requires
        period_of(label) == Some(id.period),
        id.slug.len() > 0,
        forall|i: int| 0 <= i < id.slug.len() ==> #[trigger] id.slug[i] != '\n',
    ensures
        split_marker_spec(text + "\n\n"@ + mark_open() + label + "/"@ + id.slug + mark_close())
            == Some((text + "\n\n"@, id)),
{
    reveal_strlit("\n\n");
    reveal_strlit("<!-- goal-identity: ");
    reveal_strlit(" -->");
    reveal_strlit("/");
    let pre = text + "\n\n"@;
    let line = mark_open() + label + "/"@ + id.slug + mark_close();
    let body = text + "\n\n"@ + mark_open() + label + "/"@ + id.slug + mark_close();
    assert(body =~= pre + line);
    assert forall|i: int| 0 <= i < line.len() implies #[trigger] line[i] != '\n' by {
        let p = mark_open().len() as int;
        if i < p {
            assert(line[i] == mark_open()[i]);
        } else if i < p + 6 {
            assert(line[i] == label[i - p]);
        } else if i == p + 6 {
            assert(line[i] == '/');
        } else if i < p + 7 + id.slug.len() {
            assert(line[i] == id.slug[i - p - 7]);
        } else {
            assert(line[i] == mark_close()[i - p - 7 - id.slug.len()]);
        }
    }
    lemma_last_line_start(pre, line);
    assert(body.subrange(pre.len() as int, body.len() as int) =~= line);
    assert(body.subrange(0, pre.len() as int) =~= pre);
    let p = mark_open().len() as int;
    let q = mark_close().len() as int;
    let n = line.len() as int;
    assert(line.subrange(0, p) =~= mark_open());
    assert(line.subrange(n - q, n) =~= mark_close());
    assert(line.subrange(p, p + 6) =~= label);
    assert(line.subrange(p + 7, n - q) =~= id.slug);
}

} // verus!
