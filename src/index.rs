use vstd::prelude::*;

use crate::goal::{GoalId, GoalIdView};
use crate::marker::{split_marker, split_marker_spec};
use crate::period::{parse_period, period_of};

verus! {

/// A tracking issue as the index keeps it: the identity marker already read out
/// of its body, and whether it carries the label of its goal's milestone period.
#[derive(Clone, Debug)]
pub struct RemoteIssue {
    pub number: u64,
    pub id: GoalId,
    pub title: String,
    pub text: String,
    pub open: bool,
    pub labelled: bool,
}

pub struct IssueView {
    pub number: u64,
    pub title: Seq<char>,
    pub text: Seq<char>,
    pub open: bool,
    pub labelled: bool,
}

impl View for RemoteIssue {
    type V = IssueView;

    open spec fn view(&self) -> IssueView {
        IssueView {
            number: self.number,
            title: self.title@,
            text: self.text@,
            open: self.open,
            labelled: self.labelled,
        }
    }
}

/// No two identities share an issue number.
pub open spec fn injective(m: Map<GoalIdView, IssueView>) -> bool {
    forall|a: GoalIdView, b: GoalIdView|
        m.contains_key(a) && m.contains_key(b) && a != b ==> #[trigger] m[a].number
            != #[trigger] m[b].number
}

/// Whether some identity already holds issue `n`.
pub open spec fn number_taken(m: Map<GoalIdView, IssueView>, n: u64) -> bool {
    exists|k: GoalIdView| m.contains_key(k) && #[trigger] m[k].number == n
}

/// The issue recorded for an identity, if any.
pub open spec fn lookup_spec(m: Map<GoalIdView, IssueView>, k: GoalIdView) -> Option<IssueView> {
    if m.contains_key(k) {
        Some(m[k])
    } else {
        None
    }
}

/// The tracking issues of a repository, keyed by goal identity.
pub struct IssueIndex {
    issues: Vec<RemoteIssue>,
    keys: Ghost<Map<GoalIdView, IssueView>>,
}

impl View for IssueIndex {
    type V = Map<GoalIdView, IssueView>;

    closed spec fn view(&self) -> Map<GoalIdView, IssueView> {
        self.keys@
    }
}

impl IssueIndex {
    /// The index's invariant: records and keys agree, and neither identities
    /// nor numbers repeat.
    pub closed spec fn wf(&self) -> bool {
        &&& forall|i: int|
            0 <= i < self.issues@.len() ==> self.keys@.contains_key(#[trigger] self.issues@[i].id@)
                && self.keys@[self.issues@[i].id@] == self.issues@[i]@
        &&& forall|k: GoalIdView|
            #[trigger] self.keys@.contains_key(k) ==> exists|i: int|
                0 <= i < self.issues@.len() && #[trigger] self.issues@[i].id@ == k
        &&& forall|i: int, j: int|
            0 <= i < self.issues@.len() && 0 <= j < self.issues@.len() && i != j ==> (
            #[trigger] self.issues@[i]).id@ != (#[trigger] self.issues@[j]).id@
                && self.issues@[i].number != self.issues@[j].number
    }

    /// A well-formed index maps distinct identities to distinct issues.
    pub proof fn lemma_injective(&self)
        requires
            self.wf(),
        ensures
            injective(self@),
    {
        assert forall|a: GoalIdView, b: GoalIdView|
            self@.contains_key(a) && self@.contains_key(b) && a != b implies #[trigger] self@[a].number
                != #[trigger] self@[b].number by {
            let i = choose|i: int| 0 <= i < self.issues@.len() && #[trigger] self.issues@[i].id@ == a;
            let j = choose|j: int| 0 <= j < self.issues@.len() && #[trigger] self.issues@[j].id@ == b;
            assert(self.issues@[i].number != self.issues@[j].number);
        }
    }

    /// An empty index.
    pub fn new() -> (r: IssueIndex)
        ensures
            r.wf(),
            r@ == Map::<GoalIdView, IssueView>::empty(),
    {
        IssueIndex { issues: Vec::new(), keys: Ghost(Map::empty()) }
    }

    /// How many issues the index holds.
    pub fn len(&self) -> (r: usize)
        requires
            self.wf(),
        ensures
            r == self@.len(),
    {
        proof {
            self.lemma_dom_len();
        }
        self.issues.len()
    }

    proof fn lemma_dom_len(&self)
        requires
            self.wf(),
        ensures
            self@.len() == self.issues@.len(),
            self@.dom().finite(),
    {
        let ids = Seq::new(self.issues@.len(), |i: int| self.issues@[i].id@);
        assert(ids.no_duplicates()) by {
            assert forall|i: int, j: int| 0 <= i < ids.len() && 0 <= j < ids.len() && i != j
                implies ids[i] != ids[j] by {
                assert(self.issues@[i].id@ != self.issues@[j].id@);
            }
        }
        ids.unique_seq_to_set();
        assert(ids.to_set() =~= self@.dom()) by {
            assert forall|k: GoalIdView| self@.dom().contains(k) implies ids.to_set().contains(k) by {
                let i = choose|i: int| 0 <= i < self.issues@.len() && #[trigger] self.issues@[i].id@ == k;
                assert(ids[i] == k);
            }
        }
    }

    fn position(&self, id: &GoalId) -> (r: Option<usize>)
        requires
            self.wf(),
        ensures
            match r {
                Some(i) => i < self.issues@.len() && self.issues@[i as int].id@ == id@,
                None => !self@.contains_key(id@),
            },
    {
        let mut i: usize = 0;
        while i < self.issues.len()
            invariant
                self.wf(),
                i <= self.issues@.len(),
                forall|j: int| 0 <= j < i ==> self.issues@[j].id@ != id@,
            decreases self.issues@.len() - i,
        {
            if self.issues[i].id.same(id) {
                return Some(i);
            }
            i = i + 1;
        }
        None
    }

    fn number_position(&self, n: u64) -> (r: Option<usize>)
        requires
            self.wf(),
        ensures
            match r {
                Some(i) => i < self.issues@.len() && self.issues@[i as int].number == n,
                None => !number_taken(self@, n),
            },
    {
        let mut i: usize = 0;
        while i < self.issues.len()
            invariant
                self.wf(),
                i <= self.issues@.len(),
                forall|j: int| 0 <= j < i ==> self.issues@[j].number != n,
            decreases self.issues@.len() - i,
        {
            if self.issues[i].number == n {
                return Some(i);
            }
            i = i + 1;
        }
        proof {
            if number_taken(self@, n) {
                let k = choose|k: GoalIdView| self@.contains_key(k) && #[trigger] self@[k].number == n;
                let j = choose|j: int| 0 <= j < self.issues@.len() && #[trigger] self.issues@[j].id@ == k;
                assert(self.issues@[j].number == n);
            }
        }
        None
    }

    /// The issue that tracks the goal with this identity, if any.
    pub fn lookup(&self, id: &GoalId) -> (r: Option<&RemoteIssue>)
        requires
            self.wf(),
        ensures
            match r {
                Some(x) => lookup_spec(self@, id@) == Some(x@) && x.id@ == id@,
                None => lookup_spec(self@, id@).is_none(),
            },
    {
        match self.position(id) {
            Some(i) => Some(&self.issues[i]),
            None => None,
        }
    }

    /// Whether some identity already holds issue `n`.
    pub fn holds_number(&self, n: u64) -> (r: bool)
        requires
            self.wf(),
        ensures
            r == number_taken(self@, n),
    {
        match self.number_position(n) {
            Some(i) => {
                assert(self@.contains_key(self.issues@[i as int].id@));
                assert(self@[self.issues@[i as int].id@].number == n);
                true
            },
            None => false,
        }
    }

    /// Adds an issue whose identity and number are both new to the index; any
    /// other issue is left out and the index stays as it was.
    pub fn add(&mut self, issue: RemoteIssue) -> (added: bool)
        requires
            old(self).wf(),
        ensures
            final(self).wf(),
            added == (!old(self)@.contains_key(issue.id@) && !number_taken(old(self)@, issue.number)),
            added ==> final(self)@ == old(self)@.insert(issue.id@, issue@),
            !added ==> final(self)@ == old(self)@,
    {
        match self.position(&issue.id) {
            Some(i) => {
                assert(self@.contains_key(self.issues@[i as int].id@));
                return false;
            },
            None => {},
        }
        match self.number_position(issue.number) {
            Some(i) => {
                assert(self@.contains_key(self.issues@[i as int].id@));
                assert(self@[self.issues@[i as int].id@].number == issue.number);
                return false;
            },
            None => {},
        }
        let ghost old_keys = self.keys@;
        let ghost k = issue.id@;
        let ghost v = issue@;
        let ghost old_issues = self.issues@;
        self.issues.push(issue);
        self.keys = Ghost(self.keys@.insert(k, v));
        proof {
            assert forall|q: GoalIdView| #[trigger] self.keys@.contains_key(q) implies exists|i: int|
                0 <= i < self.issues@.len() && #[trigger] self.issues@[i].id@ == q by {
                if q != k {
                    let i = choose|i: int| 0 <= i < old_issues.len() && #[trigger] old_issues[i].id@ == q;
                    assert(self.issues@[i].id@ == q);
                } else {
                    assert(self.issues@[old_issues.len() as int].id@ == q);
                }
            }
            assert forall|i: int, j: int|
                0 <= i < self.issues@.len() && 0 <= j < self.issues@.len() && i != j implies (
                #[trigger] self.issues@[i]).id@ != (#[trigger] self.issues@[j]).id@
                    && self.issues@[i].number != self.issues@[j].number by {
                let last = old_issues.len() as int;
                if i == last {
                    assert(old_keys.contains_key(old_issues[j].id@));
                    assert(old_keys[old_issues[j].id@].number == old_issues[j].number);
                } else if j == last {
                    assert(old_keys.contains_key(old_issues[i].id@));
                    assert(old_keys[old_issues[i].id@].number == old_issues[i].number);
                }
            }
        }
        true
    }

    /// Replaces the record of the issue tracking `id` (if there is one) with
    /// `title`, `text` and the period label, keeping its number and state.
    pub fn set_content(&mut self, id: &GoalId, title: String, text: String)
        requires
            old(self).wf(),
        ensures
            final(self).wf(),
            old(self)@.contains_key(id@) ==> final(self)@ == old(self)@.insert(
                id@,
                IssueView { title: title@, text: text@, labelled: true, ..old(self)@[id@] },
            ),
            !old(self)@.contains_key(id@) ==> final(self)@ == old(self)@,
    {
        match self.position(id) {
            Some(i) => {
                let mut issue = self.issues[i].clone_issue();
                issue.title = title;
                issue.text = text;
                issue.labelled = true;
                self.replace(i, issue);
            },
            None => {},
        }
    }

    /// Records the issue tracking `id` (if there is one) as closed.
    pub fn set_closed(&mut self, id: &GoalId)
        requires
            old(self).wf(),
        ensures
            final(self).wf(),
            old(self)@.contains_key(id@) ==> final(self)@ == old(self)@.insert(
                id@,
                IssueView { open: false, ..old(self)@[id@] },
            ),
            !old(self)@.contains_key(id@) ==> final(self)@ == old(self)@,
    {
        match self.position(id) {
            Some(i) => {
                let mut issue = self.issues[i].clone_issue();
                issue.open = false;
                self.replace(i, issue);
            },
            None => {},
        }
    }

    fn replace(&mut self, i: usize, issue: RemoteIssue)
        requires
            old(self).wf(),
            i < old(self).issues@.len(),
            issue.id@ == old(self).issues@[i as int].id@,
            issue.number == old(self).issues@[i as int].number,
        ensures
            final(self).wf(),
            final(self)@ == old(self)@.insert(issue.id@, issue@),
    {
        let ghost k = issue.id@;
        let ghost v = issue@;
        let ghost old_issues = self.issues@;
        self.issues.set(i, issue);
        self.keys = Ghost(self.keys@.insert(k, v));
        proof {
            assert forall|j: int| 0 <= j < self.issues@.len() implies self.keys@.contains_key(
                #[trigger] self.issues@[j].id@) && self.keys@[self.issues@[j].id@]
                == self.issues@[j]@ by {
                if j != i {
                    assert(old_issues[j].id@ != old_issues[i as int].id@);
                }
            }
            assert forall|q: GoalIdView| #[trigger] self.keys@.contains_key(q) implies exists|j: int|
                0 <= j < self.issues@.len() && #[trigger] self.issues@[j].id@ == q by {
                let j = choose|j: int| 0 <= j < old_issues.len() && #[trigger] old_issues[j].id@ == q;
                assert(self.issues@[j].id@ == q);
            }
            assert forall|a: int, b: int|
                0 <= a < self.issues@.len() && 0 <= b < self.issues@.len() && a != b implies (
                #[trigger] self.issues@[a]).id@ != (#[trigger] self.issues@[b]).id@
                    && self.issues@[a].number != self.issues@[b].number by {
                assert(old_issues[a].id@ != old_issues[b].id@);
            }
        }
    }
}

impl RemoteIssue {
    /// A copy of the issue.
    pub fn clone_issue(&self) -> (r: RemoteIssue)
        ensures
            r@ == self@,
            r.id@ == self.id@,
    {
        RemoteIssue {
            number: self.number,
            id: self.id.duplicate(),
            title: self.title.clone(),
            text: self.text.clone(),
            open: self.open,
            labelled: self.labelled,
        }
    }
}

/// Whether issue `n` is held by an identity other than `k`.
pub open spec fn held_by_other(m: Map<GoalIdView, IssueView>, k: GoalIdView, n: u64) -> bool {
    exists|w: GoalIdView| m.contains_key(w) && w != k && #[trigger] m[w].number == n
}

/// The record kept for identity `k` is that of the `i`-th listed issue, and
/// every earlier issue naming `k` was left out because its number belongs to
/// another identity.
pub open spec fn kept_first(listed: Seq<ListedIssue>, m: Map<GoalIdView, IssueView>, k: GoalIdView, i: int) -> bool {
    &&& 0 <= i < listed.len()
    &&& record_of(listed[i]) == Some((k, m[k]))
    &&& forall|j: int|
        0 <= j < i && (#[trigger] record_of(listed[j])) is Some && record_of(listed[j]).unwrap().0 == k
            ==> held_by_other(m, k, listed[j].number)
}

/// A tracking issue as the remote tracker lists it.
#[derive(Clone, Debug)]
pub struct ListedIssue {
    pub number: u64,
    pub title: String,
    pub body: String,
    pub open: bool,
    pub labels: Vec<String>,
}

/// Whether one of the labels names the milestone period `p`.
pub open spec fn has_period_label(labels: Seq<String>, p: crate::period::MilestonePeriod) -> bool {
    exists|i: int| 0 <= i < labels.len() && period_of(#[trigger] labels[i]@) == Some(p)
}

/// The index record a listed issue gives, keyed by the identity in its marker.
pub open spec fn record_of(l: ListedIssue) -> Option<(GoalIdView, IssueView)> {
    match split_marker_spec(l.body@) {
        Some((text, id)) => Some(
            (
                id,
                IssueView {
                    number: l.number,
                    title: l.title@,
                    text,
                    open: l.open,
                    labelled: has_period_label(l.labels@, id.period),
                },
            ),
        ),
        None => None,
    }
}

fn labels_name(labels: &Vec<String>, p: crate::period::MilestonePeriod) -> (r: bool)
    ensures
        r == has_period_label(labels@, p),
{
    let mut i: usize = 0;
    while i < labels.len()
        invariant
            i <= labels@.len(),
            forall|j: int| 0 <= j < i ==> period_of(#[trigger] labels@[j]@) != Some(p),
        decreases labels@.len() - i,
    {
        if parse_period(labels[i].as_str()) == Some(p) {
            return true;
        }
        i = i + 1;
    }
    false
}

impl IssueIndex {
    /// Builds the index from the issues listed for a repository. Issues without
    /// a marker are not goal-tracking issues and are left out. An issue whose
    /// identity or number is already kept is left out too: of several issues that
    /// name one identity, the first whose number is still free is kept.
    pub fn from_listing(listed: &Vec<ListedIssue>) -> (r: IssueIndex)
        ensures
            r.wf(),
            forall|k: GoalIdView|
                #[trigger] r@.contains_key(k) ==> exists|i: int| kept_first(listed@, r@, k, i),
            forall|i: int|
                0 <= i < listed@.len() && (#[trigger] record_of(listed@[i])).is_some() ==> r@.contains_key(
                    record_of(listed@[i]).unwrap().0,
                ) || number_taken(r@, listed@[i].number),
    {
        let mut index = IssueIndex::new();
        let mut i: usize = 0;
        while i < listed.len()
            invariant
                index.wf(),
                i <= listed@.len(),
                forall|k: GoalIdView|
                    #[trigger] index@.contains_key(k) ==> exists|j: int| j < i && kept_first(listed@, index@, k, j),
                forall|j: int|
                    0 <= j < i && (#[trigger] record_of(listed@[j])).is_some() ==> index@.contains_key(
                        record_of(listed@[j]).unwrap().0,
                    ) || number_taken(index@, listed@[j].number),
            decreases listed@.len() - i,
        {
            let l = &listed[i];
            match split_marker(l.body.as_str()) {
                Some((text, id)) => {
                    let labelled = labels_name(&l.labels, id.period);
                    let issue = RemoteIssue {
                        number: l.number,
                        id,
                        title: l.title.clone(),
                        text: text.to_owned(),
                        open: l.open,
                        labelled,
                    };
                    let ghost before = index@;
                    let ghost key = issue.id@;
                    let ghost val = issue@;
                    let added = index.add(issue);
                    proof {
                        if added {
                            assert forall|k: GoalIdView| #[trigger] index@.contains_key(k) implies exists|j: int|
                                j < i + 1 && kept_first(listed@, index@, k, j) by {
                                if k == key {
                                    assert forall|j: int|
                                        0 <= j < i && (#[trigger] record_of(listed@[j])) is Some
                                            && record_of(listed@[j]).unwrap().0 == k implies held_by_other(
                                        index@,
                                        k,
                                        listed@[j].number,
                                    ) by {
                                        let w = choose|w: GoalIdView| before.contains_key(w) && #[trigger] before[w].number == listed@[j].number;
                                        assert(index@.contains_key(w) && w != k && index@[w].number == listed@[j].number);
                                    }
                                    assert(kept_first(listed@, index@, k, i as int));
                                } else {
                                    assert(before.contains_key(k));
                                    let j0 = choose|j: int| j < i && kept_first(listed@, before, k, j);
                                    assert forall|j: int|
                                        0 <= j < j0 && (#[trigger] record_of(listed@[j])) is Some
                                            && record_of(listed@[j]).unwrap().0 == k implies held_by_other(
                                        index@,
                                        k,
                                        listed@[j].number,
                                    ) by {
                                        assert(held_by_other(before, k, listed@[j].number));
                                        let w = choose|w: GoalIdView| before.contains_key(w) && w != k && #[trigger] before[w].number == listed@[j].number;
                                        assert(index@.contains_key(w) && index@[w].number == listed@[j].number);
                                    }
                                    assert(kept_first(listed@, index@, k, j0));
                                }
                            }
                            assert forall|j: int|
                                0 <= j < i + 1 && (#[trigger] record_of(listed@[j])).is_some() implies index@.contains_key(
                                    record_of(listed@[j]).unwrap().0,
                                ) || number_taken(index@, listed@[j].number) by {
                                if j < i && !before.contains_key(record_of(listed@[j]).unwrap().0) {
                                    let w = choose|w: GoalIdView| before.contains_key(w) && #[trigger] before[w].number == listed@[j].number;
                                    assert(index@[w].number == listed@[j].number);
                                }
                            }
                        } else {
                            if !before.contains_key(key) {
                                assert(number_taken(index@, listed@[i as int].number));
                            }
                        }
                    }
                },
                None => {},
            }
            i = i + 1;
        }
        index
    }
}

} // verus!
