//! A Jellyfin import run: the summary it builds album by album, and the tracker that lets
//! only one run at a time proceed while reporting the last completed run.
use vstd::prelude::*;

verus! {

/// One album that could not be imported, and why.
#[derive(Debug, Clone, PartialEq, Eq)]
pub struct Failure {
    pub name: String,
    pub reason: String,
}

/// The counts of an import run.
#[derive(Debug, Clone, PartialEq, Eq)]
pub struct Summary {
    pub total_scanned: u32,
    pub created: u32,
    pub linked: u32,
    pub skipped: u32,
    pub failed: u32,
    pub failures: Vec<Failure>,
}

/// Whether an import is running, and the summary of the last completed one.
#[derive(Debug, Clone, PartialEq, Eq)]
pub struct Status {
    pub running: bool,
    pub last_summary: Option<Summary>,
}

/// What resolving one Jellyfin album did.
#[derive(Debug, Clone, Copy, PartialEq, Eq, Structural)]
pub enum Outcome {
    Linked,
    Created,
    Skipped,
}

/// The state reported to clients.
#[derive(Debug, Clone, Copy, PartialEq, Eq, Structural)]
pub enum ImportStateKind {
    Idle,
    Running,
}

pub struct SummaryView {
    pub total_scanned: u32,
    pub created: u32,
    pub linked: u32,
    pub skipped: u32,
    pub failed: u32,
    pub failures: Seq<(Seq<char>, Seq<char>)>,
}

impl View for Failure {
    type V = (Seq<char>, Seq<char>);

    open spec fn view(&self) -> (Seq<char>, Seq<char>) {
        (self.name@, self.reason@)
    }
}

impl View for Summary {
    type V = SummaryView;

    open spec fn view(&self) -> SummaryView {
        SummaryView {
            total_scanned: self.total_scanned,
            created: self.created,
            linked: self.linked,
            skipped: self.skipped,
            failed: self.failed,
            failures: self.failures@.map_values(|f: Failure| f@),
        }
    }
}

pub open spec fn summary_opt_view(s: Option<Summary>) -> Option<SummaryView> {
    match s {
        Some(s) => Some(s@),
        None => None,
    }
}

impl Failure {
    pub fn copy(&self) -> (r: Failure)
        ensures
            r@ == self@,
    {
        Failure { name: self.name.clone(), reason: self.reason.clone() }
    }
}

impl Summary {
    /// The summary a run starts with, having listed `total_scanned` albums.
    pub fn new(total_scanned: u32) -> (r: Summary)
        ensures
            r@ == (SummaryView {
                total_scanned,
                created: 0,
                linked: 0,
                skipped: 0,
                failed: 0,
                failures: Seq::empty(),
            }),
    {
        let r = Summary {
            total_scanned,
            created: 0,
            linked: 0,
            skipped: 0,
            failed: 0,
            failures: Vec::new(),
        };
        assert(r@.failures =~= Seq::<(Seq<char>, Seq<char>)>::empty());
        r
    }

    pub fn copy(&self) -> (r: Summary)
        ensures
            r@ == self@,
    {
        let mut failures: Vec<Failure> = Vec::new();
        let mut i: usize = 0;
        while i < self.failures.len()
            invariant
                i <= self.failures@.len(),
                failures@.map_values(|f: Failure| f@) == self.failures@.take(i as int).map_values(
                    |f: Failure| f@,
                ),
            decreases self.failures.len() - i,
        {
            let ghost before = failures@;
            let f = self.failures[i].copy();
            failures.push(f);
            assert(self.failures@.take(i + 1) =~= self.failures@.take(i as int).push(self.failures@[i as int]));
            assert(failures@.map_values(|f: Failure| f@) =~= before.map_values(|f: Failure| f@).push(f@));
            assert(failures@.map_values(|f: Failure| f@) =~= self.failures@.take(i + 1).map_values(
                |f: Failure| f@,
            ));
            i = i + 1;
        }
        assert(self.failures@.take(self.failures@.len() as int) =~= self.failures@);
        Summary {
            total_scanned: self.total_scanned,
            created: self.created,
            linked: self.linked,
            skipped: self.skipped,
            failed: self.failed,
            failures,
        }
    }

    /// Counts an album that had no MusicBrainz release group and so was skipped.
    pub fn skip(&mut self)
        requires
            old(self).skipped < u32::MAX,
        ensures
            final(self)@ == (SummaryView { skipped: (old(self).skipped + 1) as u32, ..old(self)@ }),
    {
        self.skipped = self.skipped + 1;
    }

    /// Counts what resolving one album did; a failure is listed with the album's name.
    pub fn record(&mut self, name: String, result: Result<Outcome, String>)
        requires
            old(self).linked < u32::MAX,
            old(self).created < u32::MAX,
            old(self).skipped < u32::MAX,
            old(self).failed < u32::MAX,
        ensures
            final(self)@ == match result {
                Ok(Outcome::Linked) => SummaryView { linked: (old(self).linked + 1) as u32, ..old(self)@ },
                Ok(Outcome::Created) => SummaryView {
                    created: (old(self).created + 1) as u32,
                    ..old(self)@
                },
                Ok(Outcome::Skipped) => SummaryView {
                    skipped: (old(self).skipped + 1) as u32,
                    ..old(self)@
                },
                Err(reason) => SummaryView {
                    failed: (old(self).failed + 1) as u32,
                    failures: old(self)@.failures.push((name@, reason@)),
                    ..old(self)@
                },
            },
    {
        match result {
            Ok(Outcome::Linked) => self.linked = self.linked + 1,
            Ok(Outcome::Created) => self.created = self.created + 1,
            Ok(Outcome::Skipped) => self.skipped = self.skipped + 1,
            Err(reason) => {
                self.failed = self.failed + 1;
                let ghost before = self.failures@;
                self.failures.push(Failure { name, reason });
                assert(self.failures@.map_values(|f: Failure| f@) =~= before.map_values(
                    |f: Failure| f@,
                ).push((name@, reason@)));
            },
        }
    }
}

impl Status {
    /// The state reported to clients: running while a run is in progress, idle otherwise.
    pub fn state(&self) -> (r: ImportStateKind)
        ensures
            r == (if self.running {
                ImportStateKind::Running
            } else {
                ImportStateKind::Idle
            }),
    {
        if self.running {
            ImportStateKind::Running
        } else {
            ImportStateKind::Idle
        }
    }
}

/// Lets one import run at a time proceed, and keeps the last completed run's summary.
#[derive(Debug)]
pub struct ImportTracker {
    pub running: bool,
    pub last_summary: Option<Summary>,
}

fn copy_opt_summary(s: &Option<Summary>) -> (r: Option<Summary>)
    ensures
        summary_opt_view(r) == summary_opt_view(*s),
{
    match s {
        Some(s) => Some(s.copy()),
        None => None,
    }
}

impl Default for ImportTracker {
    fn default() -> (r: Self)
        ensures
            !r.running,
            r.last_summary is None,
    {
        ImportTracker { running: false, last_summary: None }
    }
}

impl ImportTracker {
    /// Starts a run when none is running. A request while one runs is refused with the
    /// current status: running, with the last completed run's summary.
    pub fn try_begin_import(&mut self) -> (r: Result<(), Status>)
        ensures
            old(self).running ==> (r matches Err(status) && status.running && summary_opt_view(
                status.last_summary,
            ) == summary_opt_view(old(self).last_summary)),
            old(self).running ==> final(self).running == old(self).running && summary_opt_view(
                final(self).last_summary,
            ) == summary_opt_view(old(self).last_summary),
            !old(self).running ==> r is Ok && final(self).running && summary_opt_view(
                final(self).last_summary,
            ) == summary_opt_view(old(self).last_summary),
    {
        if self.running {
            return Err(Status { running: true, last_summary: copy_opt_summary(&self.last_summary) });
        }
        self.running = true;
        Ok(())
    }

    /// Whether a run is in progress, and the last completed run's summary.
    pub fn status(&self) -> (r: Status)
        ensures
            r.running == self.running,
            summary_opt_view(r.last_summary) == summary_opt_view(self.last_summary),
    {
        Status { running: self.running, last_summary: copy_opt_summary(&self.last_summary) }
    }

    /// Ends the run, keeping its summary as the last completed one.
    pub fn finish(&mut self, summary: Summary)
        ensures
            !final(self).running,
            summary_opt_view(final(self).last_summary) == Some(summary@),
    {
        self.last_summary = Some(summary);
        self.running = false;
    }

    /// Ends a run that stopped before completing; the last summary stays.
    pub fn release(&mut self)
        ensures
            !final(self).running,
            summary_opt_view(final(self).last_summary) == summary_opt_view(old(self).last_summary),
    {
        self.running = false;
    }
}

} // verus!
