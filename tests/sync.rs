use goal_sync::engine::{report_line, Action, Entry, Mode, Outcome, Reconciler, Request};
use goal_sync::fields::{
    parse_field_line, parse_issue_number, split_document, tracking_line, with_tracking, FieldKey, Metadata,
    MetadataError,
};
use goal_sync::goal::{load_goal, parse_status, Goal, LoadError, Status};
use goal_sync::index::{IssueIndex, ListedIssue};
use goal_sync::marker::{issue_body, split_marker};
use goal_sync::period::{is_period_dir, parse_period, MilestonePeriod};
use goal_sync::text::same_canonical;

fn goal(dir: &str, stem: &str, title: &str, status: &str, body: &str) -> Goal {
    load_goal(
        dir,
        stem,
        Some(title.to_string()),
        vec!["alice".to_string()],
        Some(status.to_string()),
        body.to_string(),
        None,
    )
    .unwrap()
}

fn listed(number: u64, g: &Goal, open: bool) -> ListedIssue {
    ListedIssue {
        number,
        title: g.title.clone(),
        body: issue_body(g),
        open,
        labels: vec!["C-tracking-issue".to_string(), g.id.period.label()],
    }
}

fn run_commit(r: &mut Reconciler, outcomes: &mut dyn FnMut(Request) -> Outcome) -> usize {
    let mut calls = 0;
    while let Some(req) = r.next_request() {
        calls += 1;
        let o = outcomes(req);
        r.finish(o);
    }
    calls
}

#[test]
fn dry_run_reports_creation() {
    let g = goal("2025h1", "alpha", "Alpha", "Proposed", "Alpha body");
    let mut r = Reconciler::new(vec![g], IssueIndex::new(), Mode::DryRun);
    assert!(r.next_request().is_none());
    assert_eq!(r.report(), &vec![Entry::WouldCreate]);
    assert_eq!(report_line(r.report()[0], "Alpha"), "would create issue: Alpha");
    assert_eq!(r.index().len(), 0);
}

#[test]
fn commit_creates_issue_and_records_number() {
    let g = goal("2025h1", "alpha", "Alpha", "Proposed", "Alpha body");
    let mut r = Reconciler::new(vec![g.clone()], IssueIndex::new(), Mode::Commit);
    let req = r.next_request().unwrap();
    assert_eq!(req, Request { goal: 0, action: Action::Create });
    r.finish(Outcome::Created(101));
    assert!(r.next_request().is_none());
    assert_eq!(r.report(), &vec![Entry::Created(101)]);
    assert_eq!(report_line(r.report()[0], "Alpha"), "created issue: Alpha");
    assert_eq!(r.index().lookup(&g.id).unwrap().number, 101);
    assert_eq!(tracking_line(101), "tracking: 101");
}

#[test]
fn rerun_after_creation_is_up_to_date() {
    let g = goal("2025h1", "alpha", "Alpha", "Proposed", "Alpha body");
    let index = IssueIndex::from_listing(&vec![listed(101, &g, true)]);
    let mut r = Reconciler::new(vec![g], index, Mode::Commit);
    let calls = run_commit(&mut r, &mut |_| Outcome::Failed);
    assert_eq!(calls, 0);
    assert_eq!(r.report(), &vec![Entry::UpToDate(101)]);
    assert_eq!(report_line(r.report()[0], "Alpha"), "up to date: Alpha");
}

#[test]
fn completed_goal_closes_open_issue() {
    let before = goal("2025h1", "alpha", "Alpha", "Proposed", "Alpha body");
    let index = IssueIndex::from_listing(&vec![listed(101, &before, true)]);
    let g = goal("2025h1", "alpha", "Alpha", "Completed", "Alpha body");
    let mut r = Reconciler::new(vec![g.clone()], index, Mode::Commit);
    let req = r.next_request().unwrap();
    assert_eq!(req.action, Action::Close(101));
    r.finish(Outcome::Done);
    assert!(r.next_request().is_none());
    assert_eq!(r.report(), &vec![Entry::Closed(101)]);
    assert_eq!(report_line(r.report()[0], "Alpha"), "closed: Alpha");
    assert!(!r.index().lookup(&g.id).unwrap().open);
}

#[test]
fn consistent_index_needs_no_mutation() {
    let a = goal("2025h1", "alpha", "Alpha", "Accepted", "A");
    let b = goal("2025h1", "beta", "Beta", "In progress", "B");
    let c = goal("2024h2", "gamma", "Gamma", "Not accepted", "C");
    let index = IssueIndex::from_listing(&vec![
        listed(1, &a, true),
        listed(2, &b, true),
        listed(3, &c, false),
    ]);
    let mut r = Reconciler::new(vec![a, b, c], index, Mode::Commit);
    let calls = run_commit(&mut r, &mut |_| Outcome::Failed);
    assert_eq!(calls, 0);
    assert_eq!(r.report(), &vec![Entry::UpToDate(1), Entry::UpToDate(2), Entry::UpToDate(3)]);
}

#[test]
fn dry_run_leaves_index_alone() {
    let a = goal("2025h1", "alpha", "Alpha", "Accepted", "new text");
    let old_a = goal("2025h1", "alpha", "Old alpha", "Accepted", "old text");
    let b = goal("2025h1", "beta", "Beta", "Completed", "B");
    let c = goal("2025h1", "gamma", "Gamma", "Proposed", "C");
    let index = IssueIndex::from_listing(&vec![listed(1, &old_a, true), listed(2, &b, true)]);
    let mut r = Reconciler::new(vec![a.clone(), b.clone(), c.clone()], index, Mode::DryRun);
    assert!(r.next_request().is_none());
    assert_eq!(
        r.report(),
        &vec![Entry::WouldUpdate(1), Entry::WouldClose(2), Entry::WouldCreate]
    );
    let index = r.into_index();
    assert_eq!(index.len(), 2);
    assert_eq!(index.lookup(&a.id).unwrap().title, "Old alpha");
    assert!(index.lookup(&b.id).unwrap().open);
    assert!(index.lookup(&c.id).is_none());
}

#[test]
fn failed_goal_is_retried_on_rerun() {
    let goals = vec![
        goal("2025h1", "alpha", "Alpha", "Proposed", "A"),
        goal("2025h1", "beta", "Beta", "Proposed", "B"),
        goal("2025h1", "gamma", "Gamma", "Proposed", "C"),
    ];
    let mut r = Reconciler::new(goals.clone(), IssueIndex::new(), Mode::Commit);
    let mut next = 100;
    let calls = run_commit(&mut r, &mut |req| {
        if req.goal == 1 {
            Outcome::Failed
        } else {
            next += 1;
            Outcome::Created(next)
        }
    });
    assert_eq!(calls, 3);
    assert_eq!(r.report(), &vec![Entry::Created(101), Entry::Failed, Entry::Created(102)]);
    let index = r.into_index();
    let mut r = Reconciler::new(goals, index, Mode::Commit);
    let mut requests = Vec::new();
    let calls = run_commit(&mut r, &mut |req| {
        requests.push(req);
        Outcome::Created(103)
    });
    assert_eq!(calls, 1);
    assert_eq!(requests, vec![Request { goal: 1, action: Action::Create }]);
    assert_eq!(
        r.report(),
        &vec![Entry::UpToDate(101), Entry::Created(103), Entry::UpToDate(102)]
    );
}

#[test]
fn reused_issue_number_is_refused() {
    let a = goal("2025h1", "alpha", "Alpha", "Proposed", "A");
    let b = goal("2025h1", "beta", "Beta", "Proposed", "B");
    let index = IssueIndex::from_listing(&vec![listed(7, &a, true)]);
    let mut r = Reconciler::new(vec![a, b.clone()], index, Mode::Commit);
    let calls = run_commit(&mut r, &mut |_| Outcome::Created(7));
    assert_eq!(calls, 1);
    assert_eq!(r.report(), &vec![Entry::UpToDate(7), Entry::Failed]);
    assert!(r.index().lookup(&b.id).is_none());
}

#[test]
fn changed_title_is_updated_not_recreated() {
    let before = goal("2025h1", "alpha", "Alpha", "Accepted", "A");
    let index = IssueIndex::from_listing(&vec![listed(5, &before, true)]);
    let g = goal("2025h1", "alpha", "Alpha renamed", "Accepted", "A");
    let mut r = Reconciler::new(vec![g.clone()], index, Mode::Commit);
    assert_eq!(r.next_request().unwrap().action, Action::Update(5));
    r.finish(Outcome::Done);
    assert_eq!(r.report(), &vec![Entry::Updated(5)]);
    assert_eq!(r.index().lookup(&g.id).unwrap().title, "Alpha renamed");
}

#[test]
fn whitespace_only_change_is_up_to_date() {
    let before = goal("2025h1", "alpha", "Alpha", "Accepted", "Some text\n");
    let index = IssueIndex::from_listing(&vec![listed(5, &before, true)]);
    let g = goal("2025h1", "alpha", "Alpha", "Accepted", "\n  Some text  \n\n");
    let mut r = Reconciler::new(vec![g], index, Mode::Commit);
    assert!(r.next_request().is_none());
    assert_eq!(r.report(), &vec![Entry::UpToDate(5)]);
    assert!(same_canonical(" a b\t\n", "a b"));
    assert!(!same_canonical("a  b", "a b"));
}

#[test]
fn missing_label_triggers_update() {
    let g = goal("2025h1", "alpha", "Alpha", "Accepted", "A");
    let issue = ListedIssue {
        number: 9,
        title: "Alpha".to_string(),
        body: issue_body(&g),
        open: true,
        labels: vec!["2024h2".to_string()],
    };
    let index = IssueIndex::from_listing(&vec![issue]);
    let mut r = Reconciler::new(vec![g], index, Mode::DryRun);
    assert!(r.next_request().is_none());
    assert_eq!(r.report(), &vec![Entry::WouldUpdate(9)]);
}

#[test]
fn identity_ignores_title_but_not_location() {
    let a1 = goal("2025h1", "alpha", "Alpha", "Proposed", "A");
    let a2 = goal("2025h1", "alpha", "Alpha", "Proposed", "A");
    let renamed = goal("2025h1", "alpha", "Something else", "Proposed", "A");
    let moved = goal("2025h2", "alpha", "Alpha", "Proposed", "A");
    let other = goal("2025h1", "beta", "Alpha", "Proposed", "A");
    assert!(a1.id.same(&a2.id));
    assert!(a1.id.same(&renamed.id));
    assert!(!a1.id.same(&moved.id));
    assert!(!a1.id.same(&other.id));
}

#[test]
fn duplicate_markers_keep_first_issue() {
    let a = goal("2025h1", "alpha", "Alpha", "Proposed", "A");
    let b = goal("2025h1", "beta", "Beta", "Proposed", "B");
    let plain = ListedIssue {
        number: 3,
        title: "Unrelated".to_string(),
        body: "no marker here".to_string(),
        open: true,
        labels: vec![],
    };
    let index = IssueIndex::from_listing(&vec![
        plain,
        listed(4, &a, true),
        listed(5, &a, true),
        listed(4, &b, true),
    ]);
    assert_eq!(index.len(), 1);
    assert_eq!(index.lookup(&a.id).unwrap().number, 4);
    assert!(index.lookup(&b.id).is_none());
    assert!(index.holds_number(4));
    assert!(!index.holds_number(3));
}

#[test]
fn marker_round_trip() {
    let g = goal("2024h2", "parallel-front-end", "Parallel front end", "Accepted", "Text.");
    let body = issue_body(&g);
    assert_eq!(
        body,
        "Text.\n\n<!-- goal-identity: 2024h2/parallel-front-end -->"
    );
    let (text, id) = split_marker(&body).unwrap();
    assert_eq!(text, "Text.\n\n");
    assert!(id.same(&g.id));
    assert!(split_marker("Text.\n<!-- goal-identity: 2024h3/x -->").is_none());
    assert!(split_marker("<!-- goal-identity: 2024h2/ -->").is_none());
    assert!(split_marker("<!-- goal-identity: 2024h2/x -->\ntrailing").is_none());
}

#[test]
fn period_names() {
    assert_eq!(parse_period("2025h1"), Some(MilestonePeriod { year: 2025, second_half: false }));
    assert_eq!(parse_period("0999h2"), Some(MilestonePeriod { year: 999, second_half: true }));
    assert_eq!(parse_period("2025h3"), None);
    assert_eq!(parse_period("2025H1"), None);
    assert_eq!(parse_period("202h1"), None);
    assert_eq!(parse_period("x2025h1"), None);
    assert!(is_period_dir("2024h2"));
    assert!(!is_period_dir("src"));
    assert_eq!(MilestonePeriod { year: 42, second_half: true }.label(), "0042h2");
}

#[test]
fn statuses() {
    assert_eq!(parse_status("Proposed"), Some(Status::Proposed));
    assert_eq!(parse_status("Accepted"), Some(Status::Accepted));
    assert_eq!(parse_status("In progress"), Some(Status::InProgress));
    assert_eq!(parse_status("Completed"), Some(Status::Completed));
    assert_eq!(parse_status("Not accepted"), Some(Status::NotAccepted));
    assert_eq!(parse_status("completed"), None);
}

#[test]
fn load_errors_name_the_field() {
    let owners = || vec!["alice".to_string()];
    let t = || Some("T".to_string());
    let st = || Some("Proposed".to_string());
    let b = || "b".to_string();
    assert_eq!(load_goal("src", "a", t(), owners(), st(), b(), None).unwrap_err(), LoadError::NotInPeriodDir);
    assert_eq!(load_goal("2025h1", "", t(), owners(), st(), b(), None).unwrap_err(), LoadError::EmptyFileStem);
    assert_eq!(load_goal("2025h1", "a", None, owners(), st(), b(), None).unwrap_err(), LoadError::MissingTitle);
    assert_eq!(
        load_goal("2025h1", "a", Some(String::new()), owners(), st(), b(), None).unwrap_err(),
        LoadError::MissingTitle
    );
    assert_eq!(load_goal("2025h1", "a", t(), vec![], st(), b(), None).unwrap_err(), LoadError::MissingOwners);
    assert_eq!(load_goal("2025h1", "a", t(), owners(), None, b(), None).unwrap_err(), LoadError::MissingStatus);
    assert_eq!(
        load_goal("2025h1", "a", t(), owners(), Some("Done".to_string()), b(), None).unwrap_err(),
        LoadError::UnknownStatus
    );
    let g = load_goal("2025h1", "a", t(), owners(), st(), b(), Some(12)).unwrap();
    assert_eq!(g.tracking, Some(12));
    assert_eq!(g.status, Status::Proposed);
    assert_eq!(g.id.slug, "a");
}

#[test]
fn metadata_lines() {
    assert_eq!(parse_field_line("title: Alpha"), Some((FieldKey::Title, "Alpha")));
    assert_eq!(parse_field_line("owner: alice"), Some((FieldKey::Owner, "alice")));
    assert_eq!(parse_field_line("status: In progress"), Some((FieldKey::Status, "In progress")));
    assert_eq!(parse_field_line("tracking: 101"), Some((FieldKey::Tracking, "101")));
    assert_eq!(parse_field_line("Title: Alpha"), None);
    assert_eq!(parse_field_line("title:Alpha"), None);
    assert_eq!(parse_issue_number("101"), Some(101));
    assert_eq!(parse_issue_number("18446744073709551615"), Some(u64::MAX));
    assert_eq!(parse_issue_number("18446744073709551616"), None);
    assert_eq!(parse_issue_number(""), None);
    assert_eq!(parse_issue_number("1a"), None);
    assert_eq!(tracking_line(0), "tracking: 0");
    assert_eq!(tracking_line(u64::MAX), "tracking: 18446744073709551615");
    assert_eq!(tracking_line(1000), "tracking: 1000");
}

#[test]
fn metadata_gathered_from_lines() {
    let mut m = Metadata::new();
    assert_eq!(m.add_line("title: Alpha"), Ok(()));
    assert_eq!(m.add_line("owner: alice"), Ok(()));
    assert_eq!(m.add_line("owner: bob"), Ok(()));
    assert_eq!(m.add_line("status: Proposed"), Ok(()));
    assert_eq!(m.add_line("tracking: 101"), Ok(()));
    assert_eq!(m.add_line("tracking: x"), Err(MetadataError::BadTracking));
    assert_eq!(m.add_line("| Owner | alice |"), Err(MetadataError::UnknownKey));
    assert_eq!(m.title.as_deref(), Some("Alpha"));
    assert_eq!(m.owners, vec!["alice".to_string(), "bob".to_string()]);
    assert_eq!(m.status.as_deref(), Some("Proposed"));
    assert_eq!(m.tracking, Some(101));
    let g = load_goal("2025h1", "alpha", m.title, m.owners, m.status, "body".to_string(), m.tracking).unwrap();
    assert_eq!(g.tracking, Some(101));
    assert_eq!(g.title, "Alpha");
}

#[test]
fn document_split_at_first_blank_line() {
    let doc = "title: Alpha\nowner: alice\nstatus: Proposed\n\nBody line\n\nmore";
    let (header, body) = split_document(doc);
    assert_eq!(header, vec!["title: Alpha", "owner: alice", "status: Proposed"]);
    assert_eq!(body, "Body line\n\nmore");
    let (header, body) = split_document("title: A\n   \nrest");
    assert_eq!(header, vec!["title: A"]);
    assert_eq!(body, "rest");
    let (header, body) = split_document("title: A");
    assert_eq!(header, vec!["title: A"]);
    assert_eq!(body, "");
    let (header, body) = split_document("");
    assert!(header.is_empty());
    assert_eq!(body, "");
}

#[test]
fn tracking_reference_written_back() {
    let doc = "title: Alpha\nowner: alice\nstatus: Proposed\n\nBody\n";
    let out = with_tracking(doc, 101);
    assert_eq!(out, "title: Alpha\nowner: alice\nstatus: Proposed\ntracking: 101\n\nBody\n");
    let again = with_tracking(&out, 202);
    assert_eq!(again, "title: Alpha\nowner: alice\nstatus: Proposed\ntracking: 202\n\nBody\n");
    let (header, body) = split_document(&again);
    let mut m = Metadata::new();
    for l in header {
        m.add_line(l).unwrap();
    }
    assert_eq!(m.tracking, Some(202));
    assert_eq!(m.title.as_deref(), Some("Alpha"));
    assert_eq!(body, "Body\n");
}
