use vstd::prelude::*;

use crate::period::{MilestonePeriod, lemma_period_names_distinct, parse_period, period_of};
use crate::text::text_eq;

verus! {

/// Where a goal stands.
#[derive(Clone, Copy, Debug, PartialEq, Eq, Structural)]
pub enum Status {
    Proposed,
    Accepted,
    InProgress,
    Completed,
    NotAccepted,
}

/// The status a metadata value names.
pub open spec fn status_named(s: Seq<char>) -> Option<Status> {
    if s == "Proposed"@ {
        Some(Status::Proposed)
    } else if s == "Accepted"@ {
        Some(Status::Accepted)
    } else if s == "In progress"@ {
        Some(Status::InProgress)
    } else if s == "Completed"@ {
        Some(Status::Completed)
    } else if s == "Not accepted"@ {
        Some(Status::NotAccepted)
    } else {
        None
    }
}

/// Reads a status from its metadata value.
pub fn parse_status(s: &str) -> (r: Option<Status>)
    ensures
        r == status_named(s@),
{
    if text_eq(s, "Proposed") {
        Some(Status::Proposed)
    } else if text_eq(s, "Accepted") {
        Some(Status::Accepted)
    } else if text_eq(s, "In progress") {
        Some(Status::InProgress)
    } else if text_eq(s, "Completed") {
        Some(Status::Completed)
    } else if text_eq(s, "Not accepted") {
        Some(Status::NotAccepted)
    } else {
        None
    }
}

/// Whether a goal with this status is finished, so that its tracking issue is closed.
pub open spec fn is_finished(s: Status) -> bool {
    s == Status::Completed || s == Status::NotAccepted
}

/// Whether a goal with this status is finished.
pub fn status_is_finished(s: Status) -> (r: bool)
    ensures
        r == is_finished(s),
{
    s == Status::Completed || s == Status::NotAccepted
}

/// The identity of a goal: its milestone period and the stem of its document's file name.
/// The title takes no part in it, so a renamed goal keeps its tracking issue.
#[derive(Clone, Debug)]
pub struct GoalId {
    pub period: MilestonePeriod,
    pub slug: String,
}

pub struct GoalIdView {
    pub period: MilestonePeriod,
    pub slug: Seq<char>,
}

impl View for GoalId {
    type V = GoalIdView;

    open spec fn view(&self) -> GoalIdView {
        GoalIdView { period: self.period, slug: self.slug@ }
    }
}

impl GoalId {
    /// Whether two identities are the same.
    pub fn same(&self, other: &GoalId) -> (r: bool)
        ensures
            r == (self@ == other@),
    {
        self.period == other.period && self.slug == other.slug
    }

    /// A copy of the identity.
    pub fn duplicate(&self) -> (r: GoalId)
        ensures
            r@ == self@,
    {
        GoalId { period: self.period, slug: self.slug.clone() }
    }
}

/// The identity of the document at `<period_dir>/<file_stem>.md`.
pub open spec fn identity_of(period_dir: Seq<char>, file_stem: Seq<char>) -> Option<GoalIdView> {
    match period_of(period_dir) {
        Some(p) => Some(GoalIdView { period: p, slug: file_stem }),
        None => None,
    }
}

/// One tracked initiative, as read from its document.
#[derive(Clone, Debug)]
pub struct Goal {
    pub id: GoalId,
    pub title: String,
    pub owners: Vec<String>,
    pub status: Status,
    pub body: String,
    pub tracking: Option<u64>,
}

/// Why a goal document could not be loaded.
#[derive(Clone, Copy, Debug, PartialEq, Eq, Structural)]
pub enum LoadError {
    NotInPeriodDir,
    EmptyFileStem,
    MissingTitle,
    MissingOwners,
    MissingStatus,
    UnknownStatus,
}

/// What loading a goal from its location and metadata gives.
pub open spec fn load_spec(
    period_dir: Seq<char>,
    file_stem: Seq<char>,
    title: Option<Seq<char>>,
    owner_count: nat,
    status: Option<Seq<char>>,
) -> Result<(GoalIdView, Status), LoadError> {
    if period_of(period_dir).is_none() {
        Err(LoadError::NotInPeriodDir)
    } else if file_stem.len() == 0 {
        Err(LoadError::EmptyFileStem)
    } else if title.is_none() || title.unwrap().len() == 0 {
        Err(LoadError::MissingTitle)
    } else if owner_count == 0 {
        Err(LoadError::MissingOwners)
    } else if status.is_none() {
        Err(LoadError::MissingStatus)
    } else if status_named(status.unwrap()).is_none() {
        Err(LoadError::UnknownStatus)
    } else {
        Ok((identity_of(period_dir, file_stem).unwrap(), status_named(status.unwrap()).unwrap()))
    }
}

/// The characters of an optional string.
pub open spec fn opt_view(s: Option<String>) -> Option<Seq<char>> {
    match s {
        Some(t) => Some(t@),
        None => None,
    }
}

/// Builds a goal from the location of its document and the metadata read from it.
/// A missing title, owner list or status is a load error.
pub fn load_goal(
    period_dir: &str,
    file_stem: &str,
    title: Option<String>,
    owners: Vec<String>,
    status: Option<String>,
    body: String,
    tracking: Option<u64>,
) -> (r: Result<Goal, LoadError>)
    ensures
        match (r, load_spec(period_dir@, file_stem@, opt_view(title), owners@.len(), opt_view(status))) {
            (Ok(g), Ok((id, st))) => g.id@ == id && g.status == st && g.title@ == opt_view(title).unwrap()
                && g.owners@ == owners@ && g.body@ == body@ && g.tracking == tracking,
            (Err(e), Err(e2)) => e == e2,
            _ => false,
        },
{
    let period = match parse_period(period_dir) {
        Some(p) => p,
        None => return Err(LoadError::NotInPeriodDir),
    };
    if file_stem.unicode_len() == 0 {
        return Err(LoadError::EmptyFileStem);
    }
    let title = match title {
        Some(t) => t,
        None => return Err(LoadError::MissingTitle),
    };
    if title.as_str().unicode_len() == 0 {
        return Err(LoadError::MissingTitle);
    }
    if owners.len() == 0 {
        return Err(LoadError::MissingOwners);
    }
    let status = match status {
        Some(s) => s,
        None => return Err(LoadError::MissingStatus),
    };
    let status = match parse_status(status.as_str()) {
        Some(s) => s,
        None => return Err(LoadError::UnknownStatus),
    };
    let slug = file_stem.to_owned();
    Ok(Goal { id: GoalId { period, slug }, title, owners, status, body, tracking })
}

/// A goal's identity depends on where its document lies and on nothing else (its
/// title takes no part): documents at one place have one identity, and documents
/// at two different places within milestone-period directories have two.
pub proof fn lemma_identity_stable(
    dir1: Seq<char>,
    stem1: Seq<char>,
    dir2: Seq<char>,
    stem2: Seq<char>,
)
    requires
        period_of(dir1).is_some(),
        period_of(dir2).is_some(),
    ensures
        (identity_of(dir1, stem1) == identity_of(dir2, stem2)) <==> (dir1 == dir2 && stem1 == stem2),
{
    if identity_of(dir1, stem1) == identity_of(dir2, stem2) {
        lemma_period_names_distinct(dir1, dir2);
    }
}

/// Renaming a goal (to another non-empty title) changes neither whether its
/// document loads nor the identity and status it loads with.
pub proof fn lemma_title_keeps_identity(
    period_dir: Seq<char>,
    file_stem: Seq<char>,
    title1: Seq<char>,
    title2: Seq<char>,
    owner_count: nat,
    status: Option<Seq<char>>,
)
    requires
        title1.len() > 0,
        title2.len() > 0,
    ensures
        load_spec(period_dir, file_stem, Some(title1), owner_count, status) == load_spec(
            period_dir,
            file_stem,
            Some(title2),
            owner_count,
            status,
        ),
{
}

} // verus!
