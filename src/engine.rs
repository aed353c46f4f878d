use vstd::prelude::*;

use crate::goal::{Goal, GoalIdView, is_finished, status_is_finished};
use crate::index::{IssueIndex, IssueView, RemoteIssue, injective, lookup_spec, number_taken};
use crate::index::{ListedIssue, has_period_label, record_of};
use crate::marker::{lemma_marker_round_trip, mark_close, mark_open};
use crate::period::period_of;
use crate::text::{all_space, canonical, lemma_canonical_trailing_space, same_canonical};

verus! {

/// Whether remote mutations are carried out or only reported.
#[derive(Clone, Copy, Debug, PartialEq, Eq, Structural)]
pub enum Mode {
    DryRun,
    Commit,
}

/// What one goal needs done to its tracking issue.
#[derive(Clone, Copy, Debug, PartialEq, Eq, Structural)]
pub enum Action {
    Create,
    Update(u64),
    Close(u64),
    UpToDate(u64),
}

/// Whether an issue already says what the goal says: same title, same text up
/// to surrounding whitespace, and the goal's milestone-period label.
pub open spec fn content_matches(g: Goal, r: IssueView) -> bool {
    r.title == g.title@ && canonical(r.text) == canonical(g.body@) && r.labelled
}

/// The action a goal needs, given the issue (if any) that tracks it.
pub open spec fn plan_spec(g: Goal, found: Option<IssueView>) -> Action {
    match found {
        None => Action::Create,
        Some(r) => if is_finished(g.status) {
            if r.open {
                Action::Close(r.number)
            } else {
                Action::UpToDate(r.number)
            }
        } else if content_matches(g, r) {
            Action::UpToDate(r.number)
        } else {
            Action::Update(r.number)
        },
    }
}

/// The action the goal needs against the index.
pub open spec fn plan_in(g: Goal, m: Map<GoalIdView, IssueView>) -> Action {
    plan_spec(g, lookup_spec(m, g.id@))
}

/// Decides what the goal needs done to its tracking issue.
pub fn plan(g: &Goal, index: &IssueIndex) -> (r: Action)
    requires
        index.wf(),
    ensures
        r == plan_in(*g, index@),
{
    match index.lookup(&g.id) {
        None => Action::Create,
        Some(issue) => {
            if status_is_finished(g.status) {
                if issue.open {
                    Action::Close(issue.number)
                } else {
                    Action::UpToDate(issue.number)
                }
            } else if issue.title == g.title && same_canonical(issue.text.as_str(), g.body.as_str())
                && issue.labelled {
                Action::UpToDate(issue.number)
            } else {
                Action::Update(issue.number)
            }
        },
    }
}

/// What the index holds for a goal once a successful `action` has been carried
/// out; `created` is the number the remote side gave a new issue.
pub open spec fn after_success(
    m: Map<GoalIdView, IssueView>,
    g: Goal,
    action: Action,
    created: u64,
) -> Map<GoalIdView, IssueView> {
    match action {
        Action::Create => m.insert(
            g.id@,
            IssueView { number: created, title: g.title@, text: g.body@, open: true, labelled: true },
        ),
        Action::Update(_) => m.insert(
            g.id@,
            IssueView { title: g.title@, text: g.body@, labelled: true, ..m[g.id@] },
        ),
        Action::Close(_) => m.insert(g.id@, IssueView { open: false, ..m[g.id@] }),
        Action::UpToDate(_) => m,
    }
}

/// Once the action a goal needs has succeeded, the goal needs nothing more, and
/// every goal of another identity needs what it needed before. So a run that
/// stopped or failed part way can be run again: what was done is found up to date,
/// and only what was not done is tried again. (A finished goal that had no issue
/// is the one exception: its new issue still has to be closed.)
pub proof fn lemma_success_settles(m: Map<GoalIdView, IssueView>, g: Goal, created: u64, h: Goal)
    requires
        !(plan_in(g, m) is UpToDate),
        plan_in(g, m) is Create ==> !number_taken(m, created) && !is_finished(g.status),
    ensures
        plan_in(g, after_success(m, g, plan_in(g, m), created)) is UpToDate,
        h.id@ != g.id@ ==> plan_in(h, after_success(m, g, plan_in(g, m), created)) == plan_in(h, m),
{
}

/// Recording a new issue under a number that no identity holds keeps the map injective.
pub proof fn lemma_success_keeps_injective(m: Map<GoalIdView, IssueView>, g: Goal, created: u64)
    requires
        injective(m),
        !(plan_in(g, m) is UpToDate),
        plan_in(g, m) is Create ==> !number_taken(m, created),
    ensures
        injective(after_success(m, g, plan_in(g, m), created)),
{
    let m2 = after_success(m, g, plan_in(g, m), created);
    assert forall|a: GoalIdView, b: GoalIdView|
        m2.contains_key(a) && m2.contains_key(b) && a != b implies #[trigger] m2[a].number
            != #[trigger] m2[b].number by {
        if a != g.id@ && b != g.id@ {
            assert(m[a].number != m[b].number);
        } else if plan_in(g, m) is Create {
            if a == g.id@ {
                assert(m[b].number == m2[b].number);
            } else {
                assert(m[a].number == m2[a].number);
            }
        } else {
            assert(m[a].number == m2[a].number && m[b].number == m2[b].number);
        }
    }
}

/// One line of the run's report.
#[derive(Clone, Copy, Debug, PartialEq, Eq, Structural)]
pub enum Entry {
    WouldCreate,
    WouldUpdate(u64),
    WouldClose(u64),
    Created(u64),
    Updated(u64),
    Closed(u64),
    UpToDate(u64),
    Failed,
}

/// The entry for a goal that needs no remote call in this mode.
pub open spec fn offline_entry(a: Action) -> Entry {
    match a {
        Action::Create => Entry::WouldCreate,
        Action::Update(n) => Entry::WouldUpdate(n),
        Action::Close(n) => Entry::WouldClose(n),
        Action::UpToDate(n) => Entry::UpToDate(n),
    }
}

/// A remote mutation the caller is asked to carry out for goal `goal`.
#[derive(Clone, Copy, Debug, PartialEq, Eq, Structural)]
pub struct Request {
    pub goal: usize,
    pub action: Action,
}

/// What came of a requested remote mutation.
#[derive(Clone, Copy, Debug, PartialEq, Eq, Structural)]
pub enum Outcome {
    /// The issue was created and given this number.
    Created(u64),
    /// The update or the closing went through.
    Done,
    /// The remote call failed.
    Failed,
}

/// Whether an outcome counts as success for the pending action.
pub open spec fn succeeded(m: Map<GoalIdView, IssueView>, a: Action, o: Outcome) -> bool {
    match (a, o) {
        (Action::Create, Outcome::Created(n)) => !number_taken(m, n),
        (Action::Update(_), Outcome::Done) => true,
        (Action::Close(_), Outcome::Done) => true,
        _ => false,
    }
}

/// The issue number an outcome reports, if it reports one.
pub open spec fn created_number(o: Outcome) -> u64 {
    match o {
        Outcome::Created(n) => n,
        _ => 0,
    }
}

/// The report entry for a carried-out action.
pub open spec fn committed_entry(m: Map<GoalIdView, IssueView>, a: Action, o: Outcome) -> Entry {
    if succeeded(m, a, o) {
        match a {
            Action::Create => Entry::Created(created_number(o)),
            Action::Update(n) => Entry::Updated(n),
            Action::Close(n) => Entry::Closed(n),
            Action::UpToDate(n) => Entry::UpToDate(n),
        }
    } else {
        Entry::Failed
    }
}

/// The decisions of one synchronisation run, goal after goal. The caller asks
/// for the next request, carries it out against the remote tracker, and hands
/// back what came of it.
pub struct Reconciler {
    goals: Vec<Goal>,
    index: IssueIndex,
    mode: Mode,
    next: usize,
    report: Vec<Entry>,
    pending: Option<Action>,
}

impl Reconciler {
    /// The goals of the run, in the order they are dealt with.
    pub closed spec fn goals(&self) -> Seq<Goal> {
        self.goals@
    }

    /// The tracking issues as the run knows them.
    pub closed spec fn issues(&self) -> Map<GoalIdView, IssueView> {
        self.index@
    }

    /// The run's mode.
    pub closed spec fn mode_of(&self) -> Mode {
        self.mode
    }

    /// How many goals have been dealt with.
    pub closed spec fn done(&self) -> nat {
        self.next as nat
    }

    /// The report so far, one entry per goal dealt with.
    pub closed spec fn entries(&self) -> Seq<Entry> {
        self.report@
    }

    /// The action whose outcome the run waits for, if any.
    pub closed spec fn awaiting(&self) -> Option<Action> {
        self.pending
    }

    /// The run's invariant.
    pub closed spec fn wf(&self) -> bool {
        &&& self.index.wf()
        &&& self.next <= self.goals@.len()
        &&& self.report@.len() == self.next
        &&& match self.pending {
            Some(a) => self.next < self.goals@.len() && self.mode == Mode::Commit && a == plan_in(
                self.goals@[self.next as int],
                self.index@,
            ) && !(a is UpToDate),
            None => true,
        }
    }

    /// The report holds one entry for each goal dealt with, and no more goals
    /// are dealt with than the run has.
    pub proof fn lemma_report_per_goal(&self)
        requires
            self.wf(),
        ensures
            self.entries().len() == self.done(),
            self.done() <= self.goals().len(),
            self.awaiting() is Some ==> self.done() < self.goals().len(),
    {
    }

    /// The identities of the index never share an issue number.
    pub proof fn lemma_injective(&self)
        requires
            self.wf(),
        ensures
            injective(self.issues()),
    {
        self.index.lemma_injective();
    }

    /// Starts a run over `goals` against the issues of `index`.
    pub fn new(goals: Vec<Goal>, index: IssueIndex, mode: Mode) -> (r: Reconciler)
        requires
            index.wf(),
        ensures
            r.wf(),
            r.goals() == goals@,
            r.issues() == index@,
            r.mode_of() == mode,
            r.done() == 0,
            r.entries().len() == 0,
            r.awaiting().is_none(),
            r.entries().len() == r.done(),
    {
        Reconciler { goals, index, mode, next: 0, report: Vec::new(), pending: None }
    }

    /// Goes through the goals that need no remote call (all of them in a dry run),
    /// reporting each, and stops at the first mutation to carry out. In a dry run no
    /// request ever comes and the index is never touched.
    pub fn next_request(&mut self) -> (r: Option<Request>)
        requires
            old(self).wf(),
            old(self).awaiting().is_none(),
        ensures
            final(self).wf(),
            final(self).goals() == old(self).goals(),
            final(self).issues() == old(self).issues(),
            final(self).mode_of() == old(self).mode_of(),
            old(self).done() <= final(self).done(),
            final(self).entries().subrange(0, old(self).done() as int) == old(self).entries(),
            forall|j: int| 0 <= j < old(self).done() ==> #[trigger] final(self).entries()[j] == old(self).entries()[j],
            final(self).entries().len() == final(self).done(),
            final(self).done() <= final(self).goals().len(),
            forall|j: int|
                old(self).done() <= j < final(self).done() ==> final(self).entries()[j]
                    == offline_entry(plan_in(#[trigger] old(self).goals()[j], old(self).issues())),
            old(self).mode_of() == Mode::Commit ==> forall|j: int|
                old(self).done() <= j < final(self).done() ==> plan_in(
                    #[trigger] old(self).goals()[j],
                    old(self).issues(),
                ) is UpToDate,
            old(self).mode_of() == Mode::DryRun ==> r.is_none(),
            (forall|j: int|
                old(self).done() <= j < old(self).goals().len() ==> plan_in(
                    #[trigger] old(self).goals()[j],
                    old(self).issues(),
                ) is UpToDate) ==> r.is_none(),
            match r {
                None => final(self).done() == final(self).goals().len() && final(self).awaiting().is_none(),
                Some(req) => req.goal == final(self).done() && final(self).awaiting() == Some(req.action)
                    && req.action == plan_in(final(self).goals()[req.goal as int], final(self).issues())
                    && !(req.action is UpToDate),
            },
    {
        let ghost start = self.next as int;
        let ghost old_report = self.report@;
        while self.next < self.goals.len()
            invariant
                self.wf(),
                self.pending.is_none(),
                self.goals@ == old(self).goals@,
                self.index@ == old(self).index@,
                self.mode == old(self).mode,
                start == old(self).next,
                start <= self.next,
                old_report == old(self).report@,
                self.report@.subrange(0, start) == old_report,
                forall|j: int|
                    start <= j < self.next ==> self.report@[j] == offline_entry(
                        plan_in(#[trigger] self.goals@[j], self.index@),
                    ),
                self.mode == Mode::Commit ==> forall|j: int|
                    start <= j < self.next ==> plan_in(#[trigger] self.goals@[j], self.index@) is UpToDate,
            decreases self.goals@.len() - self.next,
        {
            let a = plan(&self.goals[self.next], &self.index);
            let offline = match a {
                Action::UpToDate(_) => true,
                _ => self.mode == Mode::DryRun,
            };
            if !offline {
                self.pending = Some(a);
                return Some(Request { goal: self.next, action: a });
            }
            let e = match a {
                Action::Create => Entry::WouldCreate,
                Action::Update(n) => Entry::WouldUpdate(n),
                Action::Close(n) => Entry::WouldClose(n),
                Action::UpToDate(n) => Entry::UpToDate(n),
            };
            self.report.push(e);
            self.next = self.next + 1;
        }
        None
    }

    /// Takes what came of the pending request, records it in the index and the
    /// report, and moves on to the next goal. A failure is reported and leaves the
    /// index as it was; so does a new issue number that another identity holds.
    pub fn finish(&mut self, outcome: Outcome)
        requires
            old(self).wf(),
            old(self).awaiting().is_some(),
        ensures
            final(self).wf(),
            final(self).goals() == old(self).goals(),
            final(self).mode_of() == old(self).mode_of(),
            final(self).done() == old(self).done() + 1,
            final(self).awaiting().is_none(),
            final(self).entries().len() == final(self).done(),
            final(self).done() <= final(self).goals().len(),
            final(self).entries() == old(self).entries().push(
                committed_entry(old(self).issues(), old(self).awaiting().unwrap(), outcome),
            ),
            final(self).issues() == if succeeded(old(self).issues(), old(self).awaiting().unwrap(), outcome) {
                after_success(
                    old(self).issues(),
                    old(self).goals()[old(self).done() as int],
                    old(self).awaiting().unwrap(),
                    created_number(outcome),
                )
            } else {
                old(self).issues()
            },
    {
        let a = match self.pending {
            Some(a) => a,
            None => Action::Create,
        };
        let k = self.next;
        let len = self.goals.len();
        assert(k < len);
        let g = &self.goals[k];
        let e = match (a, outcome) {
            (Action::Create, Outcome::Created(n)) => {
                let issue = RemoteIssue {
                    number: n,
                    id: g.id.duplicate(),
                    title: g.title.clone(),
                    text: g.body.clone(),
                    open: true,
                    labelled: true,
                };
                if self.index.add(issue) {
                    Entry::Created(n)
                } else {
                    Entry::Failed
                }
            },
            (Action::Update(n), Outcome::Done) => {
                self.index.set_content(&g.id, g.title.clone(), g.body.clone());
                Entry::Updated(n)
            },
            (Action::Close(n), Outcome::Done) => {
                self.index.set_closed(&g.id);
                Entry::Closed(n)
            },
            _ => Entry::Failed,
        };
        self.report.push(e);
        self.next = k + 1;
        self.pending = None;
    }
}

/// The words a report line starts with.
pub open spec fn entry_words(e: Entry) -> Seq<char> {
    match e {
        Entry::WouldCreate => "would create issue"@,
        Entry::WouldUpdate(_) => "would update issue"@,
        Entry::WouldClose(_) => "would close issue"@,
        Entry::Created(_) => "created issue"@,
        Entry::Updated(_) => "updated issue"@,
        Entry::Closed(_) => "closed"@,
        Entry::UpToDate(_) => "up to date"@,
        Entry::Failed => "failed"@,
    }
}

/// The report line for a goal: what was (or would be) done, then its title.
pub fn report_line(e: Entry, title: &str) -> (r: String)
    ensures
        r@ == entry_words(e) + ": "@ + title@,
{
    let words = match e {
        Entry::WouldCreate => "would create issue",
        Entry::WouldUpdate(_) => "would update issue",
        Entry::WouldClose(_) => "would close issue",
        Entry::Created(_) => "created issue",
        Entry::Updated(_) => "updated issue",
        Entry::Closed(_) => "closed",
        Entry::UpToDate(_) => "up to date",
        Entry::Failed => "failed",
    };
    let head = crate::text::join(words, ": ");
    crate::text::join(head.as_str(), title)
}

impl Reconciler {
    /// The goals of the run.
    pub fn goals_ref(&self) -> (r: &Vec<Goal>)
        ensures
            r@ == self.goals(),
    {
        &self.goals
    }

    /// The report so far: one entry per goal dealt with, in order.
    pub fn report(&self) -> (r: &Vec<Entry>)
        ensures
            r@ == self.entries(),
    {
        &self.report
    }

    /// Ends the run, giving back the index as the run has left it.
    pub fn into_index(self) -> (r: IssueIndex)
        requires
            self.wf(),
        ensures
            r@ == self.issues(),
            r.wf(),
    {
        self.index
    }

    /// The index as the run has left it.
    pub fn index(&self) -> (r: &IssueIndex)
        requires
            self.wf(),
        ensures
            r@ == self.issues(),
            r.wf(),
    {
        &self.index
    }
}

/// An issue written for an unfinished goal (its title, the body made for the
/// goal, and its period's label) is read back from a fresh listing of the
/// tracker as that goal's issue, and up to date: a run that follows a
/// successful creation or update asks for nothing more for that goal.
pub proof fn lemma_written_issue_is_up_to_date(g: Goal, l: ListedIssue, label: Seq<char>)
    requires
        !is_finished(g.status),
        period_of(label) == Some(g.id.period),
        g.id.slug@.len() > 0,
        forall|i: int| 0 <= i < g.id.slug@.len() ==> #[trigger] g.id.slug@[i] != '\n',
        l.title@ == g.title@,
        l.body@ == g.body@ + "\n\n"@ + mark_open() + label + "/"@ + g.id.slug@ + mark_close(),
        has_period_label(l.labels@, g.id.period),
    ensures
        record_of(l) is Some,
        record_of(l).unwrap().0 == g.id@,
        plan_spec(g, Some(record_of(l).unwrap().1)) is UpToDate,
{
    lemma_marker_round_trip(g.body@, label, g.id@);
    reveal_strlit("\n\n");
    assert(all_space("\n\n"@));
    lemma_canonical_trailing_space(g.body@, "\n\n"@);
}

/// Whether the `i`-th step of a run goes through: the goal needs a change, the
/// remote call succeeded (`ok`), and a new issue's number is not already held.
pub open spec fn step_applies(m: Map<GoalIdView, IssueView>, g: Goal, ok: bool, created: u64) -> bool {
    ok && !(plan_in(g, m) is UpToDate) && (plan_in(g, m) is Create ==> !number_taken(m, created))
}

/// The index after a Commit run over `gs`, as `finish` records it goal by goal:
/// goal `i`'s remote call succeeded where `ok[i]` holds, and `created[i]` is the
/// number a creation for it returned.
pub open spec fn run_result(
    m: Map<GoalIdView, IssueView>,
    gs: Seq<Goal>,
    ok: Seq<bool>,
    created: Seq<u64>,
) -> Map<GoalIdView, IssueView>
    decreases gs.len(),
{
    if gs.len() == 0 {
        m
    } else {
        let prev = run_result(m, gs.drop_last(), ok.drop_last(), created.drop_last());
        let g = gs.last();
        if step_applies(prev, g, ok.last(), created.last()) {
            after_success(prev, g, plan_in(g, prev), created.last())
        } else {
            prev
        }
    }
}

/// Whether goal `j`'s step in the run went through.
pub open spec fn applied_in_run(
    m: Map<GoalIdView, IssueView>,
    gs: Seq<Goal>,
    ok: Seq<bool>,
    created: Seq<u64>,
    j: int,
) -> bool {
    step_applies(
        run_result(m, gs.subrange(0, j), ok.subrange(0, j), created.subrange(0, j)),
        gs[j],
        ok[j],
        created[j],
    )
}

/// Identities that no goal of `gs` has.
pub open spec fn foreign_to(gs: Seq<Goal>, h: Goal) -> bool {
    forall|i: int| 0 <= i < gs.len() ==> (#[trigger] gs[i]).id@ != h.id@
}

/// Goals with pairwise distinct identities.
pub open spec fn distinct_ids(gs: Seq<Goal>) -> bool {
    forall|i: int, j: int| 0 <= i < gs.len() && 0 <= j < gs.len() && i != j ==> (#[trigger] gs[i]).id@
        != (#[trigger] gs[j]).id@
}

proof fn lemma_run_leaves_others(m: Map<GoalIdView, IssueView>, gs: Seq<Goal>, ok: Seq<bool>, created: Seq<u64>, h: Goal)
    requires
        foreign_to(gs, h),
    ensures
        plan_in(h, run_result(m, gs, ok, created)) == plan_in(h, m),
    decreases gs.len(),
{
    if gs.len() > 0 {
        let prev = run_result(m, gs.drop_last(), ok.drop_last(), created.drop_last());
        assert(foreign_to(gs.drop_last(), h)) by {
            assert forall|i: int| 0 <= i < gs.drop_last().len() implies (#[trigger] gs.drop_last()[i]).id@ != h.id@ by {
                assert(gs.drop_last()[i] == gs[i]);
            }
        }
        lemma_run_leaves_others(m, gs.drop_last(), ok.drop_last(), created.drop_last(), h);
        let g = gs.last();
        assert(g.id@ != h.id@);
        if step_applies(prev, g, ok.last(), created.last()) {
            let m2 = after_success(prev, g, plan_in(g, prev), created.last());
            assert(lookup_spec(m2, h.id@) == lookup_spec(prev, h.id@));
        }
    }
}

/// After a Commit run in which some remote calls failed, a second run finds every
/// goal whose change went through up to date, and every other goal needing just
/// what it needed before the first run: so the second run retries exactly the
/// goals that failed and leaves the rest alone. (A finished goal that had no
/// issue is the one exception: its new issue still has to be closed.)
pub proof fn lemma_rerun_after_partial_failure(
    m: Map<GoalIdView, IssueView>,
    gs: Seq<Goal>,
    ok: Seq<bool>,
    created: Seq<u64>,
    j: int,
)
    requires
        distinct_ids(gs),
        ok.len() == gs.len(),
        created.len() == gs.len(),
        0 <= j < gs.len(),
    ensures
        applied_in_run(m, gs, ok, created, j) && !(plan_in(gs[j], m) is Create && is_finished(gs[j].status))
            ==> plan_in(gs[j], run_result(m, gs, ok, created)) is UpToDate,
        !applied_in_run(m, gs, ok, created, j) ==> plan_in(gs[j], run_result(m, gs, ok, created))
            == plan_in(gs[j], m),
    decreases gs.len(),
{
    let n = gs.len() as int;
    let gs1 = gs.drop_last();
    let ok1 = ok.drop_last();
    let cr1 = created.drop_last();
    let prev = run_result(m, gs1, ok1, cr1);
    let g = gs.last();
    assert(gs.subrange(0, n - 1) =~= gs1);
    assert(ok.subrange(0, n - 1) =~= ok1);
    assert(created.subrange(0, n - 1) =~= cr1);
    // goal j sees, before its own step, the index as the goals before it left it
    let gj = gs.subrange(0, j);
    assert(foreign_to(gj, gs[j])) by {
        assert forall|i: int| 0 <= i < gj.len() implies (#[trigger] gj[i]).id@ != gs[j].id@ by {
            assert(gj[i] == gs[i]);
        }
    }
    lemma_run_leaves_others(m, gj, ok.subrange(0, j), created.subrange(0, j), gs[j]);
    if j < n - 1 {
        assert(distinct_ids(gs1)) by {
            assert forall|a: int, b: int| 0 <= a < gs1.len() && 0 <= b < gs1.len() && a != b implies (
            #[trigger] gs1[a]).id@ != (#[trigger] gs1[b]).id@ by {
                assert(gs1[a] == gs[a] && gs1[b] == gs[b]);
            }
        }
        assert(gs1.subrange(0, j) =~= gs.subrange(0, j));
        assert(ok1.subrange(0, j) =~= ok.subrange(0, j));
        assert(cr1.subrange(0, j) =~= created.subrange(0, j));
        assert(gs1[j] == gs[j] && ok1[j] == ok[j] && cr1[j] == created[j]);
        lemma_rerun_after_partial_failure(m, gs1, ok1, cr1, j);
        assert(g.id@ != gs[j].id@);
        if step_applies(prev, g, ok.last(), created.last()) {
            let m2 = after_success(prev, g, plan_in(g, prev), created.last());
            assert(lookup_spec(m2, gs[j].id@) == lookup_spec(prev, gs[j].id@));
        }
    } else {
        assert(gs[j] == g);
        if applied_in_run(m, gs, ok, created, j) && !(plan_in(gs[j], m) is Create && is_finished(gs[j].status)) {
            lemma_success_settles(prev, g, created.last(), g);
        }
    }
}

} // verus!
