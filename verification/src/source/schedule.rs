//! What collecting from files does when.

use vstd::prelude::*;

verus! {

/// What is to be done next.
#[derive(Clone, Copy, Debug, PartialEq, Eq, Structural)]
pub enum Task {
    /// Look for files.
    Scan {
        /// Whether this is the first look.
        first_pass: bool,
    },
    /// Drop the offsets of files that are not there any more.
    Prune,
    /// Read all files.
    Read,
    /// Let go of files that are finished, and drop their offsets as soon as no
    /// receipt is waited for.
    Tidy,
    /// Store the offsets.
    Save,
    /// Wait this many milliseconds, or until told to stop.
    Rest(u64),
    /// Send what is left, wait for receipts, and store the offsets.
    Finish,
}

/// What was done last.
#[derive(Clone, Copy, Debug, PartialEq, Eq, Structural)]
pub enum Done {
    /// A round, or nothing yet.
    Round,
    Scanned { first_pass: bool },
    Pruned,
    Read,
    Tidied { read_any: bool },
    Saved { read_any: bool },
}

/// Where the rounds of collecting stand.
#[derive(Clone, Copy, Debug, PartialEq, Eq, Structural)]
pub struct Schedule {
    pub done: Done,
    /// When files were last looked for, in milliseconds.
    pub last_scan: Option<u64>,
    /// When offsets were last stored, in milliseconds.
    pub last_save: u64,
    /// How often to look for new files, in milliseconds.
    pub scan_interval_ms: u64,
    /// How often to store offsets, in milliseconds.
    pub save_interval_ms: u64,
    /// How long to wait where there was nothing to read, in milliseconds.
    pub rest_ms: u64,
}

/// Whether something that is done every so often is to be done.
pub open spec fn due(last: Option<u64>, now: u64, interval_ms: u64) -> bool {
    match last {
        Some(at) => at + interval_ms <= now || interval_ms == 0,
        None => true,
    }
}

/// Whether it is time again for something that is done every so often; the first
/// time always is.
pub fn is_due(last: Option<u64>, now: u64, interval_ms: u64) -> (r: bool)
    ensures
        r == due(last, now, interval_ms),
{
    match last {
        Some(at) => now.saturating_sub(at) >= interval_ms,
        None => true,
    }
}

/// Whether the offsets of files that are not there any more are to be dropped:
/// after the first scan, and only if it found anything. Where it found nothing,
/// the directory may just not be there yet.
pub fn should_prune(first_pass: bool, watched: usize) -> (r: bool)
    ensures
        r == (first_pass && watched > 0),
{
    first_pass && watched > 0
}

impl Schedule {
    /// The start of a round: told to stop, all comes to an end; files are looked
    /// for when it is time, and then read.
    pub open spec fn round(self, now: u64, stop: bool) -> (Schedule, Task) {
        if stop {
            (self, Task::Finish)
        } else if due(self.last_scan, now, self.scan_interval_ms) {
            let first_pass = self.last_scan is None;
            (
                Schedule { done: Done::Scanned { first_pass }, ..self },
                Task::Scan { first_pass },
            )
        } else {
            (Schedule { done: Done::Read, ..self }, Task::Read)
        }
    }

    /// The end of a round: where nothing was read, there is a rest before the
    /// next one.
    pub open spec fn round_ends(self, now: u64, stop: bool, read_any: bool) -> (Schedule, Task) {
        if read_any {
            self.round(now, stop)
        } else {
            (Schedule { done: Done::Round, ..self }, Task::Rest(self.rest_ms))
        }
    }

    /// What comes next. `watched` is how many files are watched, and `read_any`
    /// whether the last reading gave an event.
    pub open spec fn follows(self, now: u64, stop: bool, watched: usize, read_any: bool) -> (
        Schedule,
        Task,
    ) {
        match self.done {
            Done::Round => self.round(now, stop),
            Done::Scanned { first_pass } => {
                let scanned = Schedule { last_scan: Some(now), ..self };
                if first_pass && watched > 0 {
                    (Schedule { done: Done::Pruned, ..scanned }, Task::Prune)
                } else {
                    (Schedule { done: Done::Read, ..scanned }, Task::Read)
                }
            },
            Done::Pruned => (Schedule { done: Done::Read, ..self }, Task::Read),
            Done::Read => (Schedule { done: Done::Tidied { read_any }, ..self }, Task::Tidy),
            Done::Tidied { read_any } => if due(Some(self.last_save), now, self.save_interval_ms) {
                (Schedule { done: Done::Saved { read_any }, ..self }, Task::Save)
            } else {
                self.round_ends(now, stop, read_any)
            },
            Done::Saved { read_any } => (Schedule { last_save: now, ..self }).round_ends(
                now,
                stop,
                read_any,
            ),
        }
    }

    /// Nothing has been done.
    pub fn new(
        now: u64,
        scan_interval_ms: u64,
        save_interval_ms: u64,
        rest_ms: u64,
    ) -> (r: Self)
        ensures
            r == (Schedule {
                done: Done::Round,
                last_scan: None,
                last_save: now,
                scan_interval_ms,
                save_interval_ms,
                rest_ms,
            }),
    {
        Schedule {
            done: Done::Round,
            last_scan: None,
            last_save: now,
            scan_interval_ms,
            save_interval_ms,
            rest_ms,
        }
    }

    fn start_round(&mut self, now: u64, stop: bool) -> (r: Task)
        ensures
            (*final(self), r) == old(self).round(now, stop),
    {
        if stop {
            return Task::Finish;
        }
        if is_due(self.last_scan, now, self.scan_interval_ms) {
            let first_pass = self.last_scan.is_none();
            self.done = Done::Scanned { first_pass };
            return Task::Scan { first_pass };
        }
        self.done = Done::Read;
        Task::Read
    }

    fn end_round(&mut self, now: u64, stop: bool, read_any: bool) -> (r: Task)
        ensures
            (*final(self), r) == old(self).round_ends(now, stop, read_any),
    {
        if read_any {
            return self.start_round(now, stop);
        }
        self.done = Done::Round;
        Task::Rest(self.rest_ms)
    }

    /// Settles what comes next.
    pub fn next(&mut self, now: u64, stop: bool, watched: usize, read_any: bool) -> (r: Task)
        ensures
            (*final(self), r) == old(self).follows(now, stop, watched, read_any),
    {
        match self.done {
            Done::Round => self.start_round(now, stop),
            Done::Scanned { first_pass } => {
                self.last_scan = Some(now);
                if should_prune(first_pass, watched) {
                    self.done = Done::Pruned;
                    Task::Prune
                } else {
                    self.done = Done::Read;
                    Task::Read
                }
            },
            Done::Pruned => {
                self.done = Done::Read;
                Task::Read
            },
            Done::Read => {
                self.done = Done::Tidied { read_any };
                Task::Tidy
            },
            Done::Tidied { read_any } => {
                if is_due(Some(self.last_save), now, self.save_interval_ms) {
                    self.done = Done::Saved { read_any };
                    return Task::Save;
                }
                self.end_round(now, stop, read_any)
            },
            Done::Saved { read_any } => {
                self.last_save = now;
                self.end_round(now, stop, read_any)
            },
        }
    }
}

} // verus!
