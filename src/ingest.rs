//! The decisions of one ingestion pass over a repository and over a batch
//! of repositories: whether to fetch at all, what identity to store when a
//! profile cannot be had, and how outcomes are counted.

use vstd::prelude::*;
use crate::fetcher::{Contributor, TransportError};

verus! {

/// A stored contributor count above which a repository is not fetched again.
pub const EXISTING_CONTRIBUTORS_THRESHOLD: i64 = 100;

/// Tasks in flight at once unless configured otherwise.
pub const DEFAULT_CONCURRENCY: usize = 1;

/// A contributor's profile on the hosting service.
pub struct GitHubUser {
    pub id: i64,
    pub login: String,
    pub avatar_url: Option<String>,
    pub name: Option<String>,
    pub email: Option<String>,
    pub company: Option<String>,
    pub location: Option<String>,
    pub bio: Option<String>,
    pub public_repos: Option<i32>,
    pub followers: Option<i32>,
    pub following: Option<i32>,
    pub created_at: Option<String>,
    pub updated_at: Option<String>,
}

/// How a repository's contributors are obtained.
#[derive(Debug, PartialEq, Eq, Structural)]
pub enum RepoPlan {
    /// Enough contributors are stored: report on them without fetching.
    UseStored,
    /// Fetch the contributors from the hosting service.
    FetchRemote,
}

/// Decides whether to fetch, from the number of contributors already
/// stored for the repository (`None` where the count could not be read,
/// which counts as none).
pub fn plan_repository(existing: Option<i64>) -> (r: RepoPlan)
    ensures
        r == (if existing matches Some(n) && n > EXISTING_CONTRIBUTORS_THRESHOLD {
            RepoPlan::UseStored
        } else {
            RepoPlan::FetchRemote
        }),
{
    match existing {
        Some(n) => if n > EXISTING_CONTRIBUTORS_THRESHOLD { RepoPlan::UseStored } else { RepoPlan::FetchRemote },
        None => RepoPlan::FetchRemote,
    }
}

/// The number of tasks let in flight at once: the configured number, and
/// at least one.
pub fn concurrency_limit(configured: Option<usize>) -> (r: usize)
    ensures
        r >= 1,
        r == match configured {
            Some(k) => if k >= 1 { k } else { 1 },
            None => DEFAULT_CONCURRENCY,
        },
{
    match configured {
        Some(k) => if k >= 1 { k } else { 1 },
        None => DEFAULT_CONCURRENCY,
    }
}

/// The identity to store for a fetched contributor: the profile where it
/// could be had, else a stand-in with the contributor's identity, login and
/// avatar and nothing else.
pub fn identity_for(contributor: &Contributor, profile: Result<GitHubUser, TransportError>) -> (r: GitHubUser)
    ensures
        match profile {
            Ok(u) => r == u,
            Err(_) => {
                &&& r.id == contributor.id
                &&& r.login@ == contributor.login@
                &&& r.avatar_url matches Some(a) && a@ == contributor.avatar_url@
                &&& r.name is None && r.email is None && r.company is None
                &&& r.location is None && r.bio is None
                &&& r.public_repos is None && r.followers is None && r.following is None
                &&& r.created_at is None && r.updated_at is None
            },
        },
{
    match profile {
        Ok(u) => u,
        Err(_) => GitHubUser {
            id: contributor.id,
            login: contributor.login.clone(),
            avatar_url: Some(contributor.avatar_url.clone()),
            name: None,
            email: None,
            company: None,
            location: None,
            bio: None,
            public_repos: None,
            followers: None,
            following: None,
            created_at: None,
            updated_at: None,
        },
    }
}

/// What became of one fetched contributor.
#[derive(Debug, PartialEq, Eq, Structural)]
pub enum ContributorOutcome {
    /// Identity and count stored, with the fetched profile.
    Stored,
    /// Identity and count stored, with a stand-in for the missing profile.
    StoredStandIn,
    /// The identity or the count could not be stored.
    Failed,
}

/// Counts of what became of the contributors of one repository.
#[derive(Debug, PartialEq, Eq, Structural)]
pub struct TaskTally {
    pub stored: usize,
    pub stand_ins: usize,
    pub failed: usize,
}

impl TaskTally {
    pub fn new() -> (r: Self)
        ensures
            r == (TaskTally { stored: 0, stand_ins: 0, failed: 0 }),
    {
        TaskTally { stored: 0, stand_ins: 0, failed: 0 }
    }

    /// All contributors counted so far.
    pub open spec fn total(&self) -> int {
        self.stored + self.stand_ins + self.failed
    }

    /// Counts one contributor's outcome; the other counts stay as they were.
    pub fn record(&mut self, outcome: ContributorOutcome)
        requires
            old(self).total() < usize::MAX,
        ensures
            final(self).total() == old(self).total() + 1,
            final(self).stored == old(self).stored + if outcome == ContributorOutcome::Stored { 1int } else { 0 },
            final(self).stand_ins == old(self).stand_ins + if outcome == ContributorOutcome::StoredStandIn {
                1int
            } else {
                0
            },
            final(self).failed == old(self).failed + if outcome == ContributorOutcome::Failed { 1int } else { 0 },
    {
        match outcome {
            ContributorOutcome::Stored => self.stored = self.stored + 1,
            ContributorOutcome::StoredStandIn => self.stand_ins = self.stand_ins + 1,
            ContributorOutcome::Failed => self.failed = self.failed + 1,
        }
    }
}

/// The outcome of one contributor from its two steps: whether a profile was
/// had and whether storing succeeded.
pub fn contributor_outcome(profile_found: bool, stored: bool) -> (r: ContributorOutcome)
    ensures
        r == (if !stored {
            ContributorOutcome::Failed
        } else if profile_found {
            ContributorOutcome::Stored
        } else {
            ContributorOutcome::StoredStandIn
        }),
{
    if !stored {
        ContributorOutcome::Failed
    } else if profile_found {
        ContributorOutcome::Stored
    } else {
        ContributorOutcome::StoredStandIn
    }
}

/// Where the ingest of the current contributor stands.
#[derive(Debug, PartialEq, Eq, Structural)]
pub enum IngestPhase {
    /// Its profile is to be fetched.
    AwaitProfile,
    /// Its identity is to be stored.
    AwaitUser { profile_found: bool },
    /// Its contribution count is to be stored.
    AwaitContribution { profile_found: bool },
}

/// Whether the current contributor's profile was had.
pub open spec fn profile_found_in(p: IngestPhase) -> bool {
    match p {
        IngestPhase::AwaitUser { profile_found } => profile_found,
        IngestPhase::AwaitContribution { profile_found } => profile_found,
        IngestPhase::AwaitProfile => false,
    }
}

/// Stores the fetched contributors of one repository one after another:
/// fetch the profile, store the identity (a stand-in where the profile
/// could not be had), store the count. A failure ends only the current
/// contributor; every contributor gets exactly one outcome.
pub struct ContributorIngest {
    contributors: Vec<Contributor>,
    index: usize,
    phase: IngestPhase,
    tally: TaskTally,
}

impl ContributorIngest {
    /// The contributors to store, in order.
    pub closed spec fn contributors(&self) -> Seq<Contributor> {
        self.contributors@
    }

    /// The position of the current contributor; all are handled when it
    /// reaches their number.
    pub closed spec fn index(&self) -> int {
        self.index as int
    }

    pub closed spec fn phase(&self) -> IngestPhase {
        self.phase
    }

    /// The outcomes so far.
    pub closed spec fn tally(&self) -> TaskTally {
        self.tally
    }

    /// Every handled contributor has one outcome, and a contributor is in
    /// progress only while one is left.
    pub closed spec fn wf(&self) -> bool {
        &&& self.index <= self.contributors@.len() <= usize::MAX
        &&& self.tally.total() == self.index
        &&& (self.index == self.contributors@.len() ==> self.phase == IngestPhase::AwaitProfile)
    }

    pub fn new(contributors: Vec<Contributor>) -> (r: Self)
        ensures
            r.wf(),
            r.contributors() == contributors@,
            r.index() == 0,
            r.phase() == IngestPhase::AwaitProfile,
            r.tally() == (TaskTally { stored: 0, stand_ins: 0, failed: 0 }),
    {
        assert(contributors@.len() == contributors.len());
        ContributorIngest { contributors, index: 0, phase: IngestPhase::AwaitProfile, tally: TaskTally::new() }
    }

    /// The contributor being stored, while one is left.
    pub fn current(&self) -> (r: Option<&Contributor>)
        requires
            self.wf(),
        ensures
            match r {
                Some(c) => self.index() < self.contributors().len() && *c == self.contributors()[self.index()],
                None => self.index() == self.contributors().len(),
            },
    {
        if self.index < self.contributors.len() {
            Some(&self.contributors[self.index])
        } else {
            None
        }
    }

    /// Once no contributor is left, each contributor has exactly one
    /// outcome: stored, stored with a stand-in, or failed.
    pub proof fn lemma_every_contributor_has_an_outcome(&self)
        requires
            self.wf(),
            self.index() == self.contributors().len(),
        ensures
            self.tally().total() == self.contributors().len(),
    {
    }

    /// The outcomes so far.
    pub fn outcomes(&self) -> (r: &TaskTally)
        ensures
            *r == self.tally(),
    {
        &self.tally
    }

    /// Takes the profile fetch's result and returns the identity to store:
    /// the profile, or a stand-in.
    pub fn profile_fetched(&mut self, profile: Result<GitHubUser, TransportError>) -> (r: GitHubUser)
        requires
            old(self).wf(),
            old(self).index() < old(self).contributors().len(),
            old(self).phase() == IngestPhase::AwaitProfile,
        ensures
            final(self).wf(),
            final(self).contributors() == old(self).contributors(),
            final(self).index() == old(self).index(),
            final(self).tally() == old(self).tally(),
            final(self).phase() == (IngestPhase::AwaitUser { profile_found: profile is Ok }),
            match profile {
                Ok(u) => r == u,
                Err(_) => {
                    let c = old(self).contributors()[old(self).index()];
                    &&& r.id == c.id
                    &&& r.login@ == c.login@
                    &&& r.avatar_url matches Some(a) && a@ == c.avatar_url@
                    &&& r.name is None && r.email is None && r.company is None
                    &&& r.location is None && r.bio is None
                    &&& r.public_repos is None && r.followers is None && r.following is None
                    &&& r.created_at is None && r.updated_at is None
                },
            },
    {
        let profile_found = profile.is_ok();
        let user = identity_for(&self.contributors[self.index], profile);
        self.phase = IngestPhase::AwaitUser { profile_found };
        user
    }

    /// Takes the identity store's result: the stored identity's key where it
    /// succeeded, with the count to store for it; else the contributor ends
    /// as failed and the next one is current.
    pub fn user_stored(&mut self, user_id: Option<i32>) -> (r: Option<(i32, i32)>)
        requires
            old(self).wf(),
            old(self).phase() matches IngestPhase::AwaitUser { .. },
        ensures
            final(self).wf(),
            final(self).contributors() == old(self).contributors(),
            old(self).index() < old(self).contributors().len(),
            match user_id {
                Some(id) => {
                    &&& r == Some((id, old(self).contributors()[old(self).index()].contributions))
                    &&& final(self).index() == old(self).index()
                    &&& final(self).tally() == old(self).tally()
                    &&& final(self).phase() == (IngestPhase::AwaitContribution {
                        profile_found: profile_found_in(old(self).phase()),
                    })
                },
                None => {
                    &&& r is None
                    &&& final(self).index() == old(self).index() + 1
                    &&& final(self).tally() == (TaskTally { failed: (old(self).tally().failed + 1) as usize, ..old(self).tally() })
                    &&& final(self).phase() == IngestPhase::AwaitProfile
                },
            },
    {
        let profile_found = match self.phase {
            IngestPhase::AwaitUser { profile_found } => profile_found,
            _ => false,
        };
        match user_id {
            Some(id) => {
                self.phase = IngestPhase::AwaitContribution { profile_found };
                Some((id, self.contributors[self.index].contributions))
            },
            None => {
                self.tally.record(ContributorOutcome::Failed);
                self.index = self.index + 1;
                self.phase = IngestPhase::AwaitProfile;
                None
            },
        }
    }

    /// Takes the count store's result; the contributor ends stored (with or
    /// without its profile) or failed, and the next one is current.
    pub fn contribution_stored(&mut self, stored: bool)
        requires
            old(self).wf(),
            old(self).phase() matches IngestPhase::AwaitContribution { .. },
        ensures
            final(self).wf(),
            final(self).contributors() == old(self).contributors(),
            old(self).index() < old(self).contributors().len(),
            final(self).index() == old(self).index() + 1,
            final(self).phase() == IngestPhase::AwaitProfile,
            ({
                let o = old(self).tally();
                let pf = profile_found_in(old(self).phase());
                final(self).tally() == if !stored {
                    TaskTally { failed: (o.failed + 1) as usize, ..o }
                } else if pf {
                    TaskTally { stored: (o.stored + 1) as usize, ..o }
                } else {
                    TaskTally { stand_ins: (o.stand_ins + 1) as usize, ..o }
                }
            }),
    {
        let profile_found = match self.phase {
            IngestPhase::AwaitContribution { profile_found } => profile_found,
            _ => false,
        };
        self.tally.record(contributor_outcome(profile_found, stored));
        self.index = self.index + 1;
        self.phase = IngestPhase::AwaitProfile;
    }
}

/// How one repository's task ended.
#[derive(Debug, PartialEq, Eq, Structural)]
pub enum TaskOutcome {
    /// Contributors were fetched or the stored ones reported on.
    Processed,
    /// The repository is not registered, so there was nothing to do.
    Skipped,
    /// The task ended in an error of its own.
    Failed,
}

/// Counts of how the tasks of a batch ended.
#[derive(Debug, PartialEq, Eq, Structural)]
pub struct BatchSummary {
    pub processed: usize,
    pub skipped: usize,
    pub failed: usize,
}

impl BatchSummary {
    pub fn new() -> (r: Self)
        ensures
            r == (BatchSummary { processed: 0, skipped: 0, failed: 0 }),
    {
        BatchSummary { processed: 0, skipped: 0, failed: 0 }
    }

    /// All tasks counted so far.
    pub open spec fn total(&self) -> int {
        self.processed + self.skipped + self.failed
    }

    /// Counts one task's outcome; the other counts stay as they were.
    pub fn record(&mut self, outcome: TaskOutcome)
        requires
            old(self).total() < usize::MAX,
        ensures
            final(self).total() == old(self).total() + 1,
            final(self).processed == old(self).processed + if outcome == TaskOutcome::Processed {
                1int
            } else {
                0
            },
            final(self).skipped == old(self).skipped + if outcome == TaskOutcome::Skipped { 1int } else { 0 },
            final(self).failed == old(self).failed + if outcome == TaskOutcome::Failed { 1int } else { 0 },
    {
        match outcome {
            TaskOutcome::Processed => self.processed = self.processed + 1,
            TaskOutcome::Skipped => self.skipped = self.skipped + 1,
            TaskOutcome::Failed => self.failed = self.failed + 1,
        }
    }
}

/// Where one repository's task stands: the step the caller is to perform
/// next, or how the task ended.
#[derive(Debug, PartialEq, Eq, Structural)]
pub enum TaskStep {
    /// Look the repository up among the registered ones.
    FindRepository,
    /// Count the contributors stored for it.
    CountStored { repository_id: i32 },
    /// Walk its commit listing.
    FetchContributors { repository_id: i32 },
    /// Store the fetched contributors.
    StoreContributors { repository_id: i32 },
    /// Report on the stored contributors and estimate their origin.
    Report { repository_id: i32 },
    /// The task is over.
    Finished(TaskOutcome),
}

/// What performing a step gave.
#[derive(Debug, PartialEq, Eq, Structural)]
pub enum TaskEvent {
    /// The lookup's result: the repository's key, if registered.
    Found(Option<i32>),
    /// The stored contributor count, `None` where it could not be read.
    Counted(Option<i64>),
    /// The listing was walked, completely or not.
    Fetched,
    /// The fetched contributors were handled.
    Stored,
    /// The report was made.
    Reported,
    /// The step failed in a way that ends the task.
    Failed,
}

/// The step after `step` when performing it gave `event`. An event that
/// does not answer the step leaves it unchanged; a finished task stays so.
pub open spec fn task_transition(step: TaskStep, event: TaskEvent) -> TaskStep {
    match (step, event) {
        (TaskStep::Finished(o), _) => TaskStep::Finished(o),
        (_, TaskEvent::Failed) => TaskStep::Finished(TaskOutcome::Failed),
        (TaskStep::FindRepository, TaskEvent::Found(None)) => TaskStep::Finished(TaskOutcome::Skipped),
        (TaskStep::FindRepository, TaskEvent::Found(Some(id))) => TaskStep::CountStored { repository_id: id },
        (TaskStep::CountStored { repository_id }, TaskEvent::Counted(n)) => {
            if n matches Some(k) && k > EXISTING_CONTRIBUTORS_THRESHOLD {
                TaskStep::Report { repository_id }
            } else {
                TaskStep::FetchContributors { repository_id }
            }
        },
        (TaskStep::FetchContributors { repository_id }, TaskEvent::Fetched) => TaskStep::StoreContributors {
            repository_id,
        },
        (TaskStep::StoreContributors { repository_id }, TaskEvent::Stored) => TaskStep::Report { repository_id },
        (TaskStep::Report { .. }, TaskEvent::Reported) => TaskStep::Finished(TaskOutcome::Processed),
        (s, _) => s,
    }
}

/// Advances one repository's task.
pub fn next_step(step: TaskStep, event: TaskEvent) -> (r: TaskStep)
    ensures
        r == task_transition(step, event),
{
    match (step, event) {
        (TaskStep::Finished(o), _) => TaskStep::Finished(o),
        (_, TaskEvent::Failed) => TaskStep::Finished(TaskOutcome::Failed),
        (TaskStep::FindRepository, TaskEvent::Found(None)) => TaskStep::Finished(TaskOutcome::Skipped),
        (TaskStep::FindRepository, TaskEvent::Found(Some(id))) => TaskStep::CountStored { repository_id: id },
        (TaskStep::CountStored { repository_id }, TaskEvent::Counted(n)) => {
            match plan_repository(n) {
                RepoPlan::UseStored => TaskStep::Report { repository_id },
                RepoPlan::FetchRemote => TaskStep::FetchContributors { repository_id },
            }
        },
        (TaskStep::FetchContributors { repository_id }, TaskEvent::Fetched) => TaskStep::StoreContributors {
            repository_id,
        },
        (TaskStep::StoreContributors { repository_id }, TaskEvent::Stored) => TaskStep::Report { repository_id },
        (TaskStep::Report { .. }, TaskEvent::Reported) => TaskStep::Finished(TaskOutcome::Processed),
        (s, _) => s,
    }
}

} // verus!
