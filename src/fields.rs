//! Metadata lines of a goal document: `title: ..`, `owner: ..` (once per
//! owner), `status: ..` and `tracking: <issue number>`.
use vstd::prelude::*;
use vstd::string::StringExecFns;

use crate::period::{digit_value, is_digit};
use crate::text::{all_space, is_space, occurs_at};

verus! {

/// The keys a metadata line may start with.
#[derive(Clone, Copy, Debug, PartialEq, Eq, Structural)]
pub enum FieldKey {
    Title,
    Owner,
    Status,
    Tracking,
}

/// The key a metadata line starts with, and where its value starts.
pub open spec fn field_key(line: Seq<char>) -> Option<(FieldKey, int)> {
    if line.len() >= 7 && line.subrange(0, 7) == "title: "@ {
        Some((FieldKey::Title, 7))
    } else if line.len() >= 7 && line.subrange(0, 7) == "owner: "@ {
        Some((FieldKey::Owner, 7))
    } else if line.len() >= 8 && line.subrange(0, 8) == "status: "@ {
        Some((FieldKey::Status, 8))
    } else if line.len() >= 10 && line.subrange(0, 10) == "tracking: "@ {
        Some((FieldKey::Tracking, 10))
    } else {
        None
    }
}

/// Reads a metadata line into its key and value.
pub fn parse_field_line(line: &str) -> (r: Option<(FieldKey, &str)>)
    ensures
        match r {
            Some((k, v)) => field_key(line@) is Some && k == field_key(line@).unwrap().0 && v@
                == line@.subrange(field_key(line@).unwrap().1, line@.len() as int),
            None => field_key(line@) is None,
        },
{
    proof {
        reveal_strlit("title: ");
        reveal_strlit("owner: ");
        reveal_strlit("status: ");
        reveal_strlit("tracking: ");
    }
    let n = line.unicode_len();
    if occurs_at(line, 0, "title: ") {
        Some((FieldKey::Title, line.substring_char(7, n)))
    } else if occurs_at(line, 0, "owner: ") {
        Some((FieldKey::Owner, line.substring_char(7, n)))
    } else if occurs_at(line, 0, "status: ") {
        Some((FieldKey::Status, line.substring_char(8, n)))
    } else if occurs_at(line, 0, "tracking: ") {
        Some((FieldKey::Tracking, line.substring_char(10, n)))
    } else {
        None
    }
}

/// The value of a string of decimal digits.
pub open spec fn decimal_value(s: Seq<char>) -> int
    decreases s.len(),
{
    if s.len() == 0 {
        0
    } else {
        decimal_value(s.drop_last()) * 10 + digit_value(s.last())
    }
}

/// Whether every character is a decimal digit.
pub open spec fn all_digits(s: Seq<char>) -> bool {
    forall|i: int| 0 <= i < s.len() ==> is_digit(#[trigger] s[i])
}

/// The issue number a `tracking` value names: one or more decimal digits whose
/// value fits in 64 bits.
pub open spec fn issue_number_of(s: Seq<char>) -> Option<u64> {
    if s.len() > 0 && all_digits(s) && decimal_value(s) <= u64::MAX {
        Some(decimal_value(s) as u64)
    } else {
        None
    }
}

proof fn lemma_decimal_nonneg(s: Seq<char>)
    requires
        all_digits(s),
    ensures
        decimal_value(s) >= 0,
    decreases s.len(),
{
    if s.len() > 0 {
        assert(is_digit(s[s.len() - 1]));
        lemma_decimal_nonneg(s.drop_last());
    }
}

/// Reads an issue number.
pub fn parse_issue_number(s: &str) -> (r: Option<u64>)
    ensures
        r == issue_number_of(s@),
{
    let n = s.unicode_len();
    if n == 0 {
        return None;
    }
    let mut acc: u64 = 0;
    let mut i: usize = 0;
    assert(s@.subrange(0, 0) =~= Seq::<char>::empty());
    while i < n
        invariant
            n == s@.len(),
            i <= n,
            all_digits(s@.subrange(0, i as int)),
            acc as int == decimal_value(s@.subrange(0, i as int)),
        decreases n - i,
    {
        let c = s.get_char(i);
        assert(s@.subrange(0, i + 1).drop_last() == s@.subrange(0, i as int));
        if !('0' <= c && c <= '9') {
            assert(!all_digits(s@)) by {
                assert(!is_digit(s@[i as int]));
            }
            return None;
        }
        let d: u64 = (c as u32 - '0' as u32) as u64;
        assert(all_digits(s@.subrange(0, i + 1))) by {
            assert forall|j: int| 0 <= j < i + 1 implies is_digit(#[trigger] s@.subrange(0, i + 1)[j]) by {
                if j < i {
                    assert(s@.subrange(0, i + 1)[j] == s@.subrange(0, i as int)[j]);
                }
            }
        }
        if acc > (u64::MAX - d) / 10 {
            proof {
                assert(decimal_value(s@.subrange(0, i + 1)) > u64::MAX);
                lemma_decimal_prefix_bound(s@, i as int + 1);
            }
            return None;
        }
        acc = acc * 10 + d;
        i = i + 1;
    }
    assert(s@.subrange(0, n as int) == s@);
    Some(acc)
}

/// A string of digits has a value at least that of each of its prefixes.
proof fn lemma_decimal_prefix_bound(s: Seq<char>, k: int)
    requires
        0 <= k <= s.len(),
        all_digits(s.subrange(0, k)),
    ensures
        all_digits(s) ==> decimal_value(s) >= decimal_value(s.subrange(0, k)),
    decreases s.len() - k,
{
    if k < s.len() && all_digits(s) {
        assert(all_digits(s.subrange(0, k + 1))) by {
            assert forall|j: int| 0 <= j < k + 1 implies is_digit(#[trigger] s.subrange(0, k + 1)[j]) by {
                assert(s.subrange(0, k + 1)[j] == s[j]);
            }
        }
        assert(s.subrange(0, k + 1).drop_last() == s.subrange(0, k));
        lemma_decimal_nonneg(s.subrange(0, k));
        lemma_decimal_prefix_bound(s, k + 1);
    } else if k == s.len() {
        assert(s.subrange(0, k) == s);
    }
}

} // verus!

verus! {

/// The decimal digits of `n`, without sign or leading zeros.
fn render_number(n: u64) -> (r: String)
    ensures
        issue_number_of(r@) == Some(n),
    decreases n,
{
    let mut r = if n < 10 {
        String::new()
    } else {
        render_number(n / 10)
    };
    let ghost before = r@;
    r.append(crate::period::digit_text((n % 10) as u32));
    proof {
        let d = r@.last();
        assert(r@.drop_last() =~= before);
        if n < 10 {
            assert(before.len() == 0);
            assert(decimal_value(before) == 0);
        }
        assert(digit_value(d) == n % 10);
        if n >= 10 {
            lemma_decimal_nonneg(before);
        }
        assert(decimal_value(before) == n / 10);
        assert(decimal_value(r@) == decimal_value(before) * 10 + digit_value(d));
        assert(decimal_value(r@) == n) by {
            assert(n == (n / 10) * 10 + n % 10);
        }
        assert(all_digits(r@)) by {
            assert forall|i: int| 0 <= i < r@.len() implies is_digit(#[trigger] r@[i]) by {
                if i < before.len() {
                    assert(r@[i] == before[i]);
                }
            }
        }
    }
    r
}

/// The metadata line that records a goal's tracking issue.
pub fn tracking_line(n: u64) -> (r: String)
    ensures
        field_key(r@) == Some((FieldKey::Tracking, 10int)),
        issue_number_of(r@.subrange(10, r@.len() as int)) == Some(n),
{
    let digits = render_number(n);
    let r = crate::text::join("tracking: ", digits.as_str());
    proof {
        reveal_strlit("tracking: ");
        reveal_strlit("title: ");
        reveal_strlit("owner: ");
        reveal_strlit("status: ");
        assert(r@.subrange(0, 10) == "tracking: "@);
        assert(r@.subrange(10, r@.len() as int) == digits@);
        assert(r@.subrange(0, 7) != "title: "@ && r@.subrange(0, 7) != "owner: "@
            && r@.subrange(0, 8) != "status: "@) by {
            assert(r@.subrange(0, 7)[0] == 't' && r@.subrange(0, 7)[1] == 'r');
            assert(r@.subrange(0, 8)[0] == 't');
        }
    }
    r
}

} // verus!

verus! {

/// The metadata of a goal document, gathered line by line.
#[derive(Clone, Debug)]
pub struct Metadata {
    pub title: Option<String>,
    pub owners: Vec<String>,
    pub status: Option<String>,
    pub tracking: Option<u64>,
}

/// Why a metadata line was refused.
#[derive(Clone, Copy, Debug, PartialEq, Eq, Structural)]
pub enum MetadataError {
    /// The line starts with no known key.
    UnknownKey,
    /// The `tracking` value is not an issue number.
    BadTracking,
}

/// The value part of a metadata line with a known key.
pub open spec fn field_value(line: Seq<char>) -> Seq<char> {
    line.subrange(field_key(line).unwrap().1, line.len() as int)
}

impl Metadata {
    /// Metadata with no field set.
    pub fn new() -> (r: Metadata)
        ensures
            r.title.is_none(),
            r.owners@.len() == 0,
            r.status.is_none(),
            r.tracking.is_none(),
    {
        Metadata { title: None, owners: Vec::new(), status: None, tracking: None }
    }

    /// Takes in one metadata line. A `title`, `status` or `tracking` line sets
    /// that field (a later line wins); each `owner` line adds an owner. A refused
    /// line leaves the metadata as it was.
    pub fn add_line(&mut self, line: &str) -> (r: Result<(), MetadataError>)
        ensures
            match field_key(line@) {
                None => r == Err::<(), MetadataError>(MetadataError::UnknownKey),
                Some((FieldKey::Tracking, _)) => match issue_number_of(field_value(line@)) {
                    Some(n) => r is Ok && final(self).tracking == Some(n),
                    None => r == Err::<(), MetadataError>(MetadataError::BadTracking),
                },
                Some(_) => r is Ok,
            },
            r is Err ==> final(self).title == old(self).title && final(self).owners@ == old(self).owners@
                && final(self).status == old(self).status && final(self).tracking == old(self).tracking,
            field_key(line@) == Some((FieldKey::Title, 7int)) ==> final(self).title is Some
                && final(self).title.unwrap()@ == field_value(line@),
            field_key(line@) != Some((FieldKey::Title, 7int)) ==> final(self).title == old(self).title,
            field_key(line@) == Some((FieldKey::Status, 8int)) ==> final(self).status is Some
                && final(self).status.unwrap()@ == field_value(line@),
            field_key(line@) != Some((FieldKey::Status, 8int)) ==> final(self).status == old(self).status,
            field_key(line@) == Some((FieldKey::Owner, 7int)) ==> final(self).owners@.len() == old(
                self,
            ).owners@.len() + 1 && final(self).owners@.subrange(0, old(self).owners@.len() as int)
                == old(self).owners@ && final(self).owners@.last()@ == field_value(line@),
            field_key(line@) != Some((FieldKey::Owner, 7int)) ==> final(self).owners@ == old(self).owners@,
            !(field_key(line@) is Some && field_key(line@).unwrap().0 == FieldKey::Tracking)
                ==> final(self).tracking == old(self).tracking,
    {
        proof {
            reveal_strlit("title: ");
            reveal_strlit("owner: ");
            reveal_strlit("status: ");
            reveal_strlit("tracking: ");
        }
        match parse_field_line(line) {
            None => Err(MetadataError::UnknownKey),
            Some((FieldKey::Title, v)) => {
                self.title = Some(v.to_owned());
                Ok(())
            },
            Some((FieldKey::Owner, v)) => {
                self.owners.push(v.to_owned());
                Ok(())
            },
            Some((FieldKey::Status, v)) => {
                self.status = Some(v.to_owned());
                Ok(())
            },
            Some((FieldKey::Tracking, v)) => match parse_issue_number(v) {
                Some(n) => {
                    self.tracking = Some(n);
                    Ok(())
                },
                None => Err(MetadataError::BadTracking),
            },
        }
    }
}

} // verus!

verus! {

/// How many characters the first line of `s` has (up to its line break, if any).
pub open spec fn line_end(s: Seq<char>) -> nat
    decreases s.len(),
{
    if s.len() == 0 || s[0] == '\n' {
        0
    } else {
        1 + line_end(s.drop_first())
    }
}

/// A goal document split into its metadata lines (those before the first line
/// that is empty or whitespace only) and its body (everything after that line).
pub open spec fn split_doc(s: Seq<char>) -> (Seq<Seq<char>>, Seq<char>)
    decreases s.len(),
{
    if s.len() == 0 {
        (Seq::empty(), Seq::empty())
    } else {
        let e = line_end(s) as int;
        let line = s.subrange(0, e);
        let rest = if e < s.len() {
            s.subrange(e + 1, s.len() as int)
        } else {
            Seq::empty()
        };
        if all_space(line) {
            (Seq::empty(), rest)
        } else {
            (seq![line] + split_doc(rest).0, split_doc(rest).1)
        }
    }
}

/// The characters of each line.
pub open spec fn line_views(lines: Seq<&str>) -> Seq<Seq<char>> {
    lines.map_values(|l: &str| l@)
}

/// Splits a goal document into its metadata lines and its body.
pub fn split_document(text: &str) -> (r: (Vec<&str>, &str))
    ensures
        line_views(r.0@) == split_doc(text@).0,
        r.1@ == split_doc(text@).1,
{
    let n = text.unicode_len();
    let mut pos: usize = 0;
    let mut header: Vec<&str> = Vec::new();
    assert(text@.subrange(0, n as int) == text@);
    assert(line_views(header@) =~= Seq::<Seq<char>>::empty());
    while pos < n
        invariant
            n == text@.len(),
            pos <= n,
            split_doc(text@) == (line_views(header@) + split_doc(text@.subrange(pos as int, n as int)).0,
                split_doc(text@.subrange(pos as int, n as int)).1),
        decreases n - pos,
    {
        let ghost sp = text@.subrange(pos as int, n as int);
        let mut e: usize = pos;
        let mut blank = true;
        assert(text@.subrange(pos as int, pos as int) =~= Seq::<char>::empty());
        while e < n && text.get_char(e) != '\n'
            invariant
                n == text@.len(),
                pos <= e <= n,
                sp == text@.subrange(pos as int, n as int),
                line_end(sp) == (e - pos) + line_end(text@.subrange(e as int, n as int)),
                blank == all_space(text@.subrange(pos as int, e as int)),
            decreases n - e,
        {
            let c = text.get_char(e);
            assert(text@.subrange(e as int, n as int).drop_first() =~= text@.subrange(e + 1, n as int));
            assert(all_space(text@.subrange(pos as int, e + 1)) == (all_space(
                text@.subrange(pos as int, e as int),
            ) && is_space(c))) by {
                let a = text@.subrange(pos as int, e as int);
                let b = text@.subrange(pos as int, e + 1);
                assert(b =~= a.push(c));
                if all_space(a) && is_space(c) {
                    assert forall|i: int| 0 <= i < b.len() implies is_space(#[trigger] b[i]) by {
                        if i < a.len() {
                            assert(b[i] == a[i]);
                        }
                    }
                }
                if all_space(b) {
                    assert(b[b.len() - 1] == c);
                    assert forall|i: int| 0 <= i < a.len() implies is_space(#[trigger] a[i]) by {
                        assert(b[i] == a[i]);
                    }
                }
            }
            blank = blank && (c == ' ' || c == '\t' || c == '\n' || c == '\r');
            e = e + 1;
        }
        assert(line_end(text@.subrange(e as int, n as int)) == 0);
        assert(line_end(sp) == e - pos);
        assert(sp.subrange(0, (e - pos) as int) =~= text@.subrange(pos as int, e as int));
        let line = text.substring_char(pos, e);
        if e < n {
            assert(sp.subrange((e - pos) + 1, sp.len() as int) =~= text@.subrange(e + 1, n as int));
        }
        if blank {
            if e < n {
                return (header, text.substring_char(e + 1, n));
            } else {
                assert(text@.subrange(n as int, n as int) =~= Seq::<char>::empty());
                return (header, text.substring_char(n, n));
            }
        }
        let ghost hv = line_views(header@);
        header.push(line);
        assert(line_views(header@) =~= hv.push(line@));
        if e < n {
            pos = e + 1;
        } else {
            assert(text@.subrange(n as int, n as int) =~= Seq::<char>::empty());
            pos = n;
        }
        assert(hv.push(line@) + split_doc(text@.subrange(pos as int, n as int)).0 =~= hv + (seq![line@]
            + split_doc(text@.subrange(pos as int, n as int)).0));
    }
    assert(text@.subrange(n as int, n as int) =~= Seq::<char>::empty());
    assert(line_views(header@) + Seq::<Seq<char>>::empty() =~= line_views(header@));
    (header, text.substring_char(n, n))
}

} // verus!

verus! {

/// Whether a metadata line records a tracking issue.
pub open spec fn is_tracking_line(l: Seq<char>) -> bool {
    field_key(l) is Some && field_key(l).unwrap().0 == FieldKey::Tracking
}

/// The lines that are not tracking lines, in their order.
pub open spec fn without_tracking(ls: Seq<Seq<char>>) -> Seq<Seq<char>>
    decreases ls.len(),
{
    if ls.len() == 0 {
        ls
    } else if is_tracking_line(ls.last()) {
        without_tracking(ls.drop_last())
    } else {
        without_tracking(ls.drop_last()).push(ls.last())
    }
}

/// The lines written one after the other, each ended by a line break.
pub open spec fn render_lines(ls: Seq<Seq<char>>) -> Seq<char>
    decreases ls.len(),
{
    if ls.len() == 0 {
        Seq::empty()
    } else {
        render_lines(ls.drop_last()) + ls.last() + seq!['\n']
    }
}

/// A line that can stand in a document's metadata.
pub open spec fn header_line(l: Seq<char>) -> bool {
    &&& !all_space(l)
    &&& forall|i: int| 0 <= i < l.len() ==> #[trigger] l[i] != '\n'
}

proof fn lemma_line_end_facts(s: Seq<char>)
    ensures
        line_end(s) <= s.len(),
        forall|i: int| 0 <= i < line_end(s) ==> #[trigger] s[i] != '\n',
        line_end(s) < s.len() ==> s[line_end(s) as int] == '\n',
    decreases s.len(),
{
    if s.len() > 0 && s[0] != '\n' {
        lemma_line_end_facts(s.drop_first());
        assert forall|i: int| 0 <= i < line_end(s) implies #[trigger] s[i] != '\n' by {
            if i > 0 {
                assert(s[i] == s.drop_first()[i - 1]);
            }
        }
    }
}

proof fn lemma_line_end_of(l: Seq<char>, rest: Seq<char>)
    requires
        forall|i: int| 0 <= i < l.len() ==> #[trigger] l[i] != '\n',
    ensures
        line_end(l + seq!['\n'] + rest) == l.len(),
    decreases l.len(),
{
    if l.len() == 0 {
        assert((l + seq!['\n'] + rest)[0] == '\n');
    } else {
        assert((l + seq!['\n'] + rest).drop_first() =~= l.drop_first() + seq!['\n'] + rest);
        assert forall|i: int| 0 <= i < l.drop_first().len() implies #[trigger] l.drop_first()[i] != '\n' by {
            assert(l.drop_first()[i] == l[i + 1]);
        }
        lemma_line_end_of(l.drop_first(), rest);
    }
}

proof fn lemma_split_cons(l: Seq<char>, rest: Seq<char>)
    requires
        header_line(l),
    ensures
        split_doc(l + seq!['\n'] + rest) == (seq![l] + split_doc(rest).0, split_doc(rest).1),
{
    let s = l + seq!['\n'] + rest;
    lemma_line_end_of(l, rest);
    assert(s.subrange(0, l.len() as int) =~= l);
    assert(s.subrange(l.len() as int + 1, s.len() as int) =~= rest);
    if s.len() == 0 {
        assert(false);
    }
}

proof fn lemma_split_blank(body: Seq<char>)
    ensures
        split_doc(seq!['\n'] + body) == (Seq::<Seq<char>>::empty(), body),
{
    let s = seq!['\n'] + body;
    assert(line_end(s) == 0);
    assert(s.subrange(0, 0) =~= Seq::<char>::empty());
    assert(all_space(s.subrange(0, 0)));
    assert(s.subrange(1, s.len() as int) =~= body);
}

proof fn lemma_split_rendered(ls: Seq<Seq<char>>, tail: Seq<char>)
    requires
        forall|i: int| 0 <= i < ls.len() ==> header_line(#[trigger] ls[i]),
    ensures
        split_doc(render_lines(ls) + tail) == (ls + split_doc(tail).0, split_doc(tail).1),
    decreases ls.len(),
{
    if ls.len() == 0 {
        assert(render_lines(ls) + tail =~= tail);
        assert(ls + split_doc(tail).0 =~= split_doc(tail).0);
    } else {
        let last = ls.last();
        let t2 = last + seq!['\n'] + tail;
        assert(render_lines(ls) + tail =~= render_lines(ls.drop_last()) + t2);
        assert(header_line(ls[ls.len() - 1]));
        lemma_split_cons(last, tail);
        lemma_split_rendered(ls.drop_last(), t2);
        assert(ls.drop_last() + (seq![last] + split_doc(tail).0) =~= ls + split_doc(tail).0);
    }
}

proof fn lemma_split_lines_are_header_lines(s: Seq<char>)
    ensures
        forall|i: int| 0 <= i < split_doc(s).0.len() ==> header_line(#[trigger] split_doc(s).0[i]),
    decreases s.len(),
{
    if s.len() > 0 {
        lemma_line_end_facts(s);
        let e = line_end(s) as int;
        let line = s.subrange(0, e);
        let rest = if e < s.len() {
            s.subrange(e + 1, s.len() as int)
        } else {
            Seq::empty()
        };
        if !all_space(line) {
            lemma_split_lines_are_header_lines(rest);
            assert forall|i: int| 0 <= i < split_doc(s).0.len() implies header_line(#[trigger] split_doc(s).0[i]) by {
                if i == 0 {
                    assert(split_doc(s).0[0] == line);
                    assert forall|j: int| 0 <= j < line.len() implies #[trigger] line[j] != '\n' by {
                        assert(line[j] == s[j]);
                    }
                } else {
                    assert(split_doc(s).0[i] == split_doc(rest).0[i - 1]);
                }
            }
        }
    }
}

proof fn lemma_without_tracking_header(ls: Seq<Seq<char>>)
    requires
        forall|i: int| 0 <= i < ls.len() ==> header_line(#[trigger] ls[i]),
    ensures
        forall|i: int| 0 <= i < without_tracking(ls).len() ==> header_line(#[trigger] without_tracking(ls)[i]),
    decreases ls.len(),
{
    if ls.len() > 0 {
        assert forall|i: int| 0 <= i < ls.drop_last().len() implies header_line(#[trigger] ls.drop_last()[i]) by {
            assert(ls.drop_last()[i] == ls[i]);
        }
        lemma_without_tracking_header(ls.drop_last());
        assert(header_line(ls[ls.len() - 1]));
        let w = without_tracking(ls.drop_last());
        if !is_tracking_line(ls.last()) {
            assert forall|i: int| 0 <= i < w.push(ls.last()).len() implies header_line(#[trigger] w.push(ls.last())[i]) by {
                if i < w.len() {
                    assert(w.push(ls.last())[i] == w[i]);
                }
            }
        }
    }
}

/// The document with its tracking issue set to `n`: the metadata keeps every
/// line that is not a tracking line, in order, and ends with one tracking line
/// for `n`; a blank line and the body as it was follow.
pub fn with_tracking(doc: &str, n: u64) -> (r: String)
    ensures
        exists|t: Seq<char>|
            #[trigger] is_tracking_line(t) && issue_number_of(field_value(t)) == Some(n)
                && split_doc(r@).0 == without_tracking(split_doc(doc@).0).push(t),
        split_doc(r@).1 == split_doc(doc@).1,
{
    let (header, body) = split_document(doc);
    let ghost hv = split_doc(doc@).0;
    proof {
        lemma_split_lines_are_header_lines(doc@);
    }
    let mut r = String::new();
    let mut i: usize = 0;
    assert(without_tracking(hv.subrange(0, 0)) =~= Seq::<Seq<char>>::empty());
    assert(render_lines(Seq::<Seq<char>>::empty()) =~= Seq::<char>::empty());
    while i < header.len()
        invariant
            i <= header@.len(),
            line_views(header@) == hv,
            r@ == render_lines(without_tracking(hv.subrange(0, i as int))),
        decreases header@.len() - i,
    {
        let line = header[i];
        assert(hv[i as int] == line@);
        assert(hv.subrange(0, i + 1).drop_last() =~= hv.subrange(0, i as int));
        let ghost before = r@;
        let ghost prev = without_tracking(hv.subrange(0, i as int));
        proof {
            reveal_strlit("\n");
        }
        match parse_field_line(line) {
            Some((FieldKey::Tracking, _)) => {
                assert(is_tracking_line(line@));
                assert(without_tracking(hv.subrange(0, i + 1)) == prev);
            },
            _ => {
                assert(!is_tracking_line(line@));
                r.append(line);
                r.append("\n");
                assert(without_tracking(hv.subrange(0, i + 1)) == prev.push(line@));
                assert(prev.push(line@).drop_last() =~= prev);
                assert(r@ =~= render_lines(prev.push(line@)));
            },
        }
        i = i + 1;
    }
    assert(hv.subrange(0, header@.len() as int) =~= hv);
    let kept = Ghost(without_tracking(hv));
    let t = tracking_line(n);
    r.append(t.as_str());
    r.append("\n");
    r.append("\n");
    r.append(body);
    proof {
        reveal_strlit("\n");
        lemma_without_tracking_header(hv);
        let tl = t@;
        assert(tl[0] == 't' && tl.len() > 10) by {
            reveal_strlit("tracking: ");
            assert(tl.subrange(0, 10) == "tracking: "@);
            assert(tl.subrange(0, 10)[0] == tl[0]);
        }
        assert(header_line(tl)) by {
            assert(!is_space(tl[0]));
            assert(all_digits(field_value(tl)));
            assert(field_value(tl) == tl.subrange(10, tl.len() as int));
            reveal_strlit("tracking: ");
            assert forall|j: int| 0 <= j < tl.len() implies #[trigger] tl[j] != '\n' by {
                if j < 10 {
                    assert(tl[j] == tl.subrange(0, 10)[j]);
                } else {
                    assert(tl[j] == tl.subrange(10, tl.len() as int)[j - 10]);
                    assert(is_digit(field_value(tl)[j - 10]));
                }
            }
        }
        assert(is_tracking_line(tl));
        let all = kept@.push(tl);
        assert forall|j: int| 0 <= j < all.len() implies header_line(#[trigger] all[j]) by {
            if j < kept@.len() {
                assert(all[j] == kept@[j]);
            }
        }
        lemma_split_blank(body@);
        assert(all.drop_last() =~= kept@);
        assert(r@ =~= render_lines(all) + (seq!['\n'] + body@));
        lemma_split_rendered(all, seq!['\n'] + body@);
        assert(all + Seq::<Seq<char>>::empty() =~= all);
    }
    r
}

} // verus!
