//! Running a batch of chapters to download, volumes to build or files to
//! send: one item at a time, a failure recorded against its item while the
//! run carries on, and a cancel honoured between items.
//!
//! The work on each item is the caller's; what is decided here is what comes
//! next and how each outcome is reported.
use vstd::prelude::*;

use crate::text::{decimal, decimal_of, push_all, push_str, string_of};

verus! {

/// What a batch does next.
#[derive(Debug, Clone, Copy, PartialEq, Eq, Structural)]
pub enum Step {
    /// Work on item `index`, pausing first when `pause` says so: every item
    /// after the first comes from the same host, and hammering it is rude.
    Work { index: usize, pause: bool },
    /// The run is over; `cancelled` when it was stopped before its end.
    Stop { cancelled: bool },
}

/// What a batch does next, with `index` items done out of `total` and
/// `cancelled` whether a cancel was asked for: a cancel is noticed between
/// items, so one asked for during the last item changes nothing.
pub open spec fn step_of(index: usize, total: usize, cancelled: bool) -> Step {
    if index >= total {
        Step::Stop { cancelled: false }
    } else if cancelled {
        Step::Stop { cancelled: true }
    } else {
        Step::Work { index, pause: index > 0 }
    }
}

/// What a batch does next.
pub fn next_step(index: usize, total: usize, cancelled: bool) -> (r: Step)
    ensures
        r == step_of(index, total, cancelled),
{
    if index >= total {
        Step::Stop { cancelled: false }
    } else if cancelled {
        Step::Stop { cancelled: true }
    } else {
        Step::Work { index, pause: index > 0 }
    }
}

/// One chapter of a download batch that failed, and why.
#[derive(Debug, Clone, PartialEq, Eq)]
pub struct BatchFailure {
    pub number: String,
    pub error: String,
}

/// What a download batch did.
#[derive(Debug, Clone, PartialEq, Eq)]
pub struct BatchReport {
    pub downloaded: Vec<String>,
    pub failed: Vec<BatchFailure>,
    pub cancelled: bool,
}

impl BatchReport {
    /// A report with nothing done yet.
    pub fn new() -> (r: BatchReport)
        ensures
            r.downloaded@.len() == 0,
            r.failed@.len() == 0,
            !r.cancelled,
    {
        BatchReport { downloaded: Vec::new(), failed: Vec::new(), cancelled: false }
    }

    /// Record what happened to chapter `number`: its label among the
    /// downloaded, or the error against it among the failed.
    pub fn record(&mut self, number: &str, outcome: Result<String, String>)
        ensures
            final(self).cancelled == old(self).cancelled,
            match outcome {
                Ok(label) => final(self).downloaded@ == old(self).downloaded@.push(label)
                    && final(self).failed@ == old(self).failed@,
                Err(e) => final(self).downloaded@ == old(self).downloaded@ && final(self).failed@.len()
                    == old(self).failed@.len() + 1 && final(self).failed@.drop_last()
                    == old(self).failed@ && final(self).failed@.last().number@ == number@
                    && final(self).failed@.last().error == e,
            },
    {
        match outcome {
            Ok(label) => self.downloaded.push(label),
            Err(error) => {
                self.failed.push(BatchFailure { number: String::from_str(number), error });
                assert(self.failed@.drop_last() =~= old(self).failed@);
            },
        }
    }
}

/// How a downloaded chapter is reported: its number and how many pages.
pub open spec fn downloaded_label_of(number: Seq<char>, pages: nat) -> Seq<char> {
    number + " ("@ + decimal_of(pages) + " pages)"@
}

/// How a downloaded chapter is reported.
pub fn downloaded_label(number: &str, pages: usize) -> (r: String)
    ensures
        r@ == downloaded_label_of(number@, pages as nat),
{
    let mut out: Vec<char> = Vec::new();
    push_str(&mut out, number);
    push_str(&mut out, " (");
    push_all(&mut out, &decimal(pages as u128));
    push_str(&mut out, " pages)");
    string_of(out.as_slice())
}

/// A chapter page that offers nothing that looks like a page is reported,
/// rather than stored empty.
pub fn check_found(url: &str, pages: usize) -> (r: Result<(), String>)
    ensures
        r is Ok <==> pages > 0,
        r matches Err(e) ==> e@ == "no page images found at "@ + url@,
{
    if pages == 0 {
        let mut out: Vec<char> = Vec::new();
        push_str(&mut out, "no page images found at ");
        push_str(&mut out, url);
        Err(string_of(out.as_slice()))
    } else {
        Ok(())
    }
}

/// What the app is told about a volume that was just written.
#[derive(Debug, Clone, PartialEq, Eq)]
pub struct BuiltVolume {
    pub volume: String,
    pub path: String,
    pub bytes: u64,
    pub pages: usize,
}

/// A volume of a build batch that failed, and why.
#[derive(Debug, Clone, PartialEq, Eq)]
pub struct BuildFailure {
    pub volume: String,
    pub error: String,
}

/// What a build batch did.
#[derive(Debug, Clone, PartialEq, Eq)]
pub struct BuildBatchReport {
    pub built: Vec<BuiltVolume>,
    pub failed: Vec<BuildFailure>,
    pub cancelled: bool,
}

impl BuildBatchReport {
    /// A report with nothing built yet.
    pub fn new() -> (r: BuildBatchReport)
        ensures
            r.built@.len() == 0,
            r.failed@.len() == 0,
            !r.cancelled,
    {
        BuildBatchReport { built: Vec::new(), failed: Vec::new(), cancelled: false }
    }

    /// Record what happened to volume `volume`: the written volume among the
    /// built, or the error against it among the failed. Twelve volumes are not
    /// lost because the fourth has an unreadable page.
    pub fn record(&mut self, volume: &str, outcome: Result<BuiltVolume, String>)
        ensures
            final(self).cancelled == old(self).cancelled,
            match outcome {
                Ok(b) => final(self).built@ == old(self).built@.push(b) && final(self).failed@
                    == old(self).failed@,
                Err(e) => final(self).built@ == old(self).built@ && final(self).failed@.len()
                    == old(self).failed@.len() + 1 && final(self).failed@.drop_last()
                    == old(self).failed@ && final(self).failed@.last().volume@ == volume@
                    && final(self).failed@.last().error == e,
            },
    {
        match outcome {
            Ok(b) => self.built.push(b),
            Err(error) => {
                self.failed.push(BuildFailure { volume: String::from_str(volume), error });
                assert(self.failed@.drop_last() =~= old(self).failed@);
            },
        }
    }
}

/// Where a build batch writes: the folder asked for, else the configured
/// one; with neither, the user is sent to the settings.
pub fn output_root(requested: Option<String>, configured: Option<String>) -> (r: Result<String, String>)
    ensures
        requested is Some ==> r == Ok::<String, String>(requested.unwrap()),
        requested is None && configured is Some ==> r == Ok::<String, String>(configured.unwrap()),
        requested is None && configured is None ==> (r matches Err(e) && e@
            == "no output folder is set — choose one in Settings"@),
{
    match requested {
        Some(root) => Ok(root),
        None => match configured {
            Some(root) => Ok(root),
            None => Err(String::from_str("no output folder is set — choose one in Settings")),
        },
    }
}

/// A volume with no page to write is refused before anything is written.
pub fn check_pages(volume: &str, pages: usize) -> (r: Result<(), String>)
    ensures
        r is Ok <==> pages > 0,
        r matches Err(e) ==> e@ == "volume "@ + volume@ + " has no pages"@,
{
    if pages == 0 {
        let mut out: Vec<char> = Vec::new();
        push_str(&mut out, "volume ");
        push_str(&mut out, volume);
        push_str(&mut out, " has no pages");
        Err(string_of(out.as_slice()))
    } else {
        Ok(())
    }
}

} // verus!
