//! The scan engine: an admission-controlled pipeline over the job matrix.
//!
//! The engine makes no connection itself. It tells its driver which jobs to
//! launch, is told how each attempt ended, and answers with the job's result
//! and the job to launch in its place.
use crate::matrix::{JobMatrix, ScanJob, ScanJobView};
use crate::ports::{name_of, PortTable};
use crate::utils::{is_port_open, ConnectOutcome};
use std::collections::HashSet;
use vstd::prelude::*;
use vstd::string::*;

verus! {

broadcast use vstd::std_specs::hash::group_hash_axioms;

/// What became of one job.
#[derive(Clone, Debug, PartialEq, Eq)]
pub struct ScanResult {
    pub label: String,
    pub port: u16,
    pub open: bool,
    /// The port's service name, where the scan annotates its results.
    pub service: Option<String>,
}

/// A result as a plain value.
pub struct ScanResultView {
    pub label: Seq<char>,
    pub port: u16,
    pub open: bool,
    pub service: Option<Seq<char>>,
}

impl View for ScanResult {
    type V = ScanResultView;

    open spec fn view(&self) -> ScanResultView {
        ScanResultView {
            label: self.label@,
            port: self.port,
            open: self.open,
            service: match self.service {
                Some(name) => Some(name@),
                None => None,
            },
        }
    }
}

/// What the driver reports to the engine.
#[derive(Clone, Copy, Debug, PartialEq, Eq, Structural)]
pub enum ScanEvent {
    /// The scan is to begin.
    Start,
    /// The attempt for this job has ended.
    Finished { job: u128, outcome: ConnectOutcome },
}

/// What the engine asks of the driver in return.
#[derive(Clone, Debug, PartialEq, Eq)]
pub struct ScanAction {
    /// Attempts to begin now.
    pub launch: Vec<ScanJob>,
    /// The result of the job that has just ended.
    pub result: Option<ScanResult>,
    /// Whether every job has ended.
    pub done: bool,
}

/// Why the engine refused.
#[derive(Clone, Copy, Debug, PartialEq, Eq, Structural)]
pub enum ScanError {
    /// An engine that may run nothing at a time would never end.
    NoConcurrency,
    /// The scan has begun before.
    AlreadyStarted,
    /// No attempt for this job is outstanding.
    NotInFlight,
}

/// The state of the pipeline. Jobs are admitted in the order of the matrix:
/// those below `next` have been admitted, and of these the ones in `in_flight`
/// are outstanding and the others have ended.
pub struct ScannerView {
    pub total: nat,
    pub concurrent: nat,
    pub started: bool,
    pub next: nat,
    pub in_flight: Set<u128>,
    pub finished: nat,
}

impl ScannerView {
    /// A pipeline that has not begun.
    pub open spec fn idle(total: nat, concurrent: nat) -> ScannerView {
        ScannerView {
            total,
            concurrent,
            started: false,
            next: 0,
            in_flight: Set::empty(),
            finished: 0,
        }
    }

    /// The pool is as full as the cap and the remaining jobs allow, never
    /// fuller, and every admitted job is either outstanding or ended.
    pub open spec fn wf(self) -> bool {
        &&& self.concurrent >= 1
        &&& self.next <= self.total
        &&& self.in_flight.finite()
        &&& forall|job: u128| self.in_flight.contains(job) ==> job < self.next
        &&& self.finished + self.in_flight.len() == self.next
        &&& !self.started ==> self.next == 0
        &&& self.started ==> self.in_flight.len() == self.pool_size()
    }

    /// The size the pool is held at: the cap, or the number of jobs that have
    /// not ended where that is less.
    pub open spec fn pool_size(self) -> nat {
        if self.concurrent <= self.total - self.finished {
            self.concurrent
        } else {
            (self.total - self.finished) as nat
        }
    }

    /// How many jobs the start admits.
    pub open spec fn first_batch(self) -> nat {
        if self.concurrent <= self.total {
            self.concurrent
        } else {
            self.total
        }
    }

    /// Every job has ended.
    pub open spec fn done(self) -> bool {
        self.started && self.finished == self.total
    }

    /// The jobs whose result has been given out.
    pub open spec fn reported(self) -> Set<u128> {
        Set::new(|job: u128| job < self.next && !self.in_flight.contains(job))
    }

    /// The state after the start: the first jobs fill the pool.
    pub open spec fn start(self) -> ScannerView {
        ScannerView {
            started: true,
            next: self.first_batch(),
            in_flight: Set::new(|job: u128| job < self.first_batch()),
            ..self
        }
    }

    /// The state after the attempt for `job` has ended: the job leaves the
    /// pool and the next job, if one is left, takes its place at once.
    pub open spec fn finish(self, job: u128) -> ScannerView {
        if self.next < self.total {
            ScannerView {
                next: self.next + 1,
                in_flight: self.in_flight.remove(job).insert(self.next as u128),
                finished: self.finished + 1,
                ..self
            }
        } else {
            ScannerView {
                in_flight: self.in_flight.remove(job),
                finished: self.finished + 1,
                ..self
            }
        }
    }

    /// The state after `event`. A second start, and the end of an attempt that
    /// is not outstanding, change nothing.
    pub open spec fn apply(self, event: ScanEvent) -> ScannerView {
        match event {
            ScanEvent::Start => if self.started {
                self
            } else {
                self.start()
            },
            ScanEvent::Finished { job, .. } => if self.in_flight.contains(job) {
                self.finish(job)
            } else {
                self
            },
        }
    }

    /// The job whose result `event` makes the engine give out, if any.
    pub open spec fn emits(self, event: ScanEvent) -> Option<u128> {
        match event {
            ScanEvent::Start => None,
            ScanEvent::Finished { job, .. } => if self.in_flight.contains(job) {
                Some(job)
            } else {
                None
            },
        }
    }

    /// The jobs that `event` makes the engine launch, in the order of the
    /// matrix: the first batch at the start, and the next job that was never
    /// admitted when an outstanding attempt ends.
    pub open spec fn launches(self, event: ScanEvent) -> Seq<u128> {
        match event {
            ScanEvent::Start => if self.started {
                Seq::empty()
            } else {
                Seq::new(self.first_batch(), |i: int| i as u128)
            },
            ScanEvent::Finished { job, .. } => if self.in_flight.contains(job) && self.next
                < self.total {
                seq![self.next as u128]
            } else {
                Seq::empty()
            },
        }
    }

    /// The jobs below `bound` are `bound` many.
    pub proof fn lemma_initial_segment(bound: u128)
        ensures
            Set::new(|job: u128| job < bound).finite(),
            Set::new(|job: u128| job < bound).len() == bound,
        decreases bound,
    {
        let segment = Set::new(|job: u128| job < bound);
        if bound == 0 {
            assert(segment =~= Set::<u128>::empty());
        } else {
            let below = (bound - 1) as u128;
            Self::lemma_initial_segment(below);
            assert(segment =~= Set::new(|job: u128| job < below).insert(below));
        }
    }

    /// Starting an idle pipeline keeps it well formed.
    pub proof fn lemma_start_wf(self)
        requires
            self.wf(),
            !self.started,
            self.total <= u128::MAX,
        ensures
            self.start().wf(),
    {
        Self::lemma_initial_segment(self.first_batch() as u128);
        assert(self.in_flight.len() == 0);
    }

    /// Ending an outstanding attempt keeps the pipeline well formed.
    pub proof fn lemma_finish_wf(self, job: u128)
        requires
            self.wf(),
            self.in_flight.contains(job),
            self.total <= u128::MAX,
        ensures
            self.started,
            self.finish(job).wf(),
    {
        if !self.started {
            assert(self.in_flight.len() == 0);
            self.in_flight.lemma_len0_is_empty();
        }
    }
}

/// The result of a job whose attempt ended with `outcome`.
pub open spec fn result_of(
    job: ScanJobView,
    outcome: ConnectOutcome,
    services: Option<PortTable>,
) -> ScanResultView {
    ScanResultView {
        label: job.label,
        port: job.port,
        open: outcome == ConnectOutcome::Connected,
        service: match services {
            Some(table) => Some(name_of(table.names@, job.port)),
            None => None,
        },
    }
}

/// The places in the matrix of the jobs in `launch`.
pub open spec fn indices(launch: Seq<ScanJob>) -> Seq<u128> {
    Seq::new(launch.len(), |i: int| launch[i].index)
}

/// The jobs in `launch` as plain values.
pub open spec fn launched(launch: Seq<ScanJob>) -> Seq<ScanJobView> {
    Seq::new(launch.len(), |i: int| launch[i]@)
}

/// The engine of one scan.
pub struct Scanner {
    addrs: JobMatrix,
    services: Option<PortTable>,
    timeout: u64,
    concurrent: usize,
    started: bool,
    next: u128,
    in_flight: HashSet<u128>,
    finished: u128,
}

impl View for Scanner {
    type V = ScannerView;

    closed spec fn view(&self) -> ScannerView {
        ScannerView {
            total: self.addrs.count(),
            concurrent: self.concurrent as nat,
            started: self.started,
            next: self.next as nat,
            in_flight: self.in_flight@,
            finished: self.finished as nat,
        }
    }
}

impl Scanner {
    /// The engine's state is a well-formed pipeline.
    pub open spec fn wf(&self) -> bool {
        self@.wf()
    }

    /// The jobs of the scan.
    pub closed spec fn matrix(&self) -> JobMatrix {
        self.addrs
    }

    /// The table that results are annotated from, if they are.
    pub closed spec fn annotations(&self) -> Option<PortTable> {
        self.services
    }

    /// The time allowed to each attempt, in milliseconds.
    pub closed spec fn time_allowed(&self) -> u64 {
        self.timeout
    }

    /// An engine for the jobs of `addrs` that allows each attempt `timeout`
    /// milliseconds and keeps at most `concurrent` attempts outstanding.
    pub fn new(addrs: JobMatrix, timeout: u64, concurrent: usize) -> (scanner: Result<
        Scanner,
        ScanError,
    >)
        ensures
            match scanner {
                Ok(s) => {
                    &&& concurrent > 0
                    &&& s.wf()
                    &&& s@ == ScannerView::idle(addrs.count(), concurrent as nat)
                    &&& s.matrix() == addrs
                    &&& s.annotations() is None
                    &&& s.time_allowed() == timeout
                },
                Err(e) => concurrent == 0 && e == ScanError::NoConcurrency,
            },
    {
        if concurrent == 0 {
            return Err(ScanError::NoConcurrency);
        }
        Ok(
            Scanner {
                addrs,
                services: None,
                timeout,
                concurrent,
                started: false,
                next: 0,
                in_flight: HashSet::new(),
                finished: 0,
            },
        )
    }

    /// The same engine with every result annotated from `table`.
    pub fn annotated(self, table: PortTable) -> (scanner: Scanner)
        ensures
            scanner@ == self@,
            scanner.wf() == self.wf(),
            scanner.matrix() == self.matrix(),
            scanner.annotations() == Some(table),
            scanner.time_allowed() == self.time_allowed(),
    {
        Scanner {
            addrs: self.addrs,
            services: Some(table),
            timeout: self.timeout,
            concurrent: self.concurrent,
            started: self.started,
            next: self.next,
            in_flight: self.in_flight,
            finished: self.finished,
        }
    }

    /// The time allowed to each attempt, in milliseconds.
    pub fn timeout(&self) -> (timeout: u64)
        ensures
            timeout == self.time_allowed(),
    {
        self.timeout
    }

    /// The cap on outstanding attempts.
    pub fn concurrency(&self) -> (concurrent: usize)
        ensures
            concurrent == self@.concurrent,
    {
        self.concurrent
    }

    /// How many attempts are outstanding.
    pub fn outstanding(&self) -> (count: usize)
        ensures
            count == self@.in_flight.len(),
    {
        self.in_flight.len()
    }

    /// How many jobs have ended.
    pub fn finished(&self) -> (count: u128)
        ensures
            count == self@.finished,
    {
        self.finished
    }

    /// How many jobs the scan has.
    pub fn total(&self) -> (count: u128)
        ensures
            count == self@.total,
    {
        self.addrs.len()
    }

    /// Whether every job has ended.
    pub fn is_done(&self) -> (done: bool)
        ensures
            done == self@.done(),
    {
        self.started && self.finished == self.addrs.len()
    }

    /// Takes the driver's report and answers with what to do next.
    ///
    /// At the start the pool is filled with the first jobs of the matrix, as
    /// many as the cap allows. When an attempt ends, its result is given out,
    /// and the next job that was never admitted takes the free place. The
    /// answer says `done` once every job has ended. A second start, and a
    /// report for a job that is not outstanding, are refused and change
    /// nothing.
    pub fn run(&mut self, event: ScanEvent) -> (answer: Result<ScanAction, ScanError>)
        requires
            old(self).wf(),
        ensures
            final(self).wf(),
            final(self).matrix() == old(self).matrix(),
            final(self).annotations() == old(self).annotations(),
            final(self).time_allowed() == old(self).time_allowed(),
            final(self)@ == old(self)@.apply(event),
            answer matches Ok(action) ==> indices(action.launch@) == old(self)@.launches(event),
            match event {
                ScanEvent::Start => if old(self)@.started {
                    &&& answer == Err::<ScanAction, ScanError>(ScanError::AlreadyStarted)
                    &&& final(self)@ == old(self)@
                } else {
                    &&& answer matches Ok(action)
                    &&& final(self)@ == old(self)@.start()
                    &&& launched(action.launch@) == Seq::new(
                        old(self)@.first_batch(),
                        |i: int| old(self).matrix().job_at(i as nat),
                    )
                    &&& action.result is None
                    &&& action.done == final(self)@.done()
                },
                ScanEvent::Finished { job, outcome } => if !old(self)@.in_flight.contains(job) {
                    &&& answer == Err::<ScanAction, ScanError>(ScanError::NotInFlight)
                    &&& final(self)@ == old(self)@
                } else {
                    &&& answer matches Ok(action)
                    &&& final(self)@ == old(self)@.finish(job)
                    &&& action.result matches Some(result)
                    &&& result@ == result_of(
                        old(self).matrix().job_at(job as nat),
                        outcome,
                        old(self).annotations(),
                    )
                    &&& launched(action.launch@) == if old(self)@.next < old(self)@.total {
                        seq![old(self).matrix().job_at(old(self)@.next)]
                    } else {
                        Seq::empty()
                    }
                    &&& action.done == final(self)@.done()
                },
            },
    {
        let total: u128 = self.addrs.len();
        match event {
            ScanEvent::Start => {
                if self.started {
                    return Err(ScanError::AlreadyStarted);
                }
                proof {
                    old(self)@.lemma_start_wf();
                    assert(self.in_flight@.len() == 0);
                    self.in_flight@.lemma_len0_is_empty();
                }
                let mut launch: Vec<ScanJob> = Vec::new();
                self.started = true;
                while self.next < total && self.in_flight.len() < self.concurrent
                    invariant
                        self.addrs == old(self).addrs,
                        self.services == old(self).services,
                        self.timeout == old(self).timeout,
                        self.concurrent == old(self).concurrent,
                        self.finished == 0,
                        self.started,
                        total == self.addrs.count(),
                        self.next <= total,
                        self.next <= self.concurrent,
                        self.in_flight@.finite(),
                        self.in_flight@.len() == self.next,
                        forall|job: u128| self.in_flight@.contains(job) <==> job < self.next,
                        launch@.len() == self.next,
                        forall|i: int|
                            0 <= i < self.next ==> (#[trigger] launch@[i])@ == self.addrs.job_at(
                                i as nat,
                            ),
                    decreases total - self.next,
                {
                    launch.push(self.addrs.make_job(self.next));
                    self.in_flight.insert(self.next);
                    self.next = self.next + 1;
                }
                proof {
                    assert(self.next == old(self)@.first_batch());
                    assert(self.in_flight@ =~= old(self)@.start().in_flight);
                    assert(launched(launch@) =~= Seq::new(
                        old(self)@.first_batch(),
                        |i: int| old(self).matrix().job_at(i as nat),
                    ));
                    assert(indices(launch@) =~= old(self)@.launches(event));
                }
                Ok(ScanAction { launch, result: None, done: self.finished == total })
            },
            ScanEvent::Finished { job, outcome } => {
                if !self.in_flight.contains(&job) {
                    return Err(ScanError::NotInFlight);
                }
                proof {
                    old(self)@.lemma_finish_wf(job);
                }
                let result = self.scan_addr(job, outcome);
                self.in_flight.remove(&job);
                self.finished = self.finished + 1;
                let mut launch: Vec<ScanJob> = Vec::new();
                if self.next < total {
                    launch.push(self.addrs.make_job(self.next));
                    self.in_flight.insert(self.next);
                    self.next = self.next + 1;
                    assert(launched(launch@) =~= seq![old(self).matrix().job_at(old(self)@.next)]);
                } else {
                    assert(launched(launch@) =~= Seq::<ScanJobView>::empty());
                }
                assert(self.in_flight@ =~= old(self)@.finish(job).in_flight);
                assert(indices(launch@) =~= old(self)@.launches(event));
                Ok(ScanAction { launch, result, done: self.finished == total })
            },
        }
    }

    /// The result of `job`, whose attempt ended with `outcome`: the job's label
    /// and port, whether the port is open, and the port's service name where
    /// the scan annotates. Nothing where the scan has no such job.
    pub fn scan_addr(&self, job: u128, outcome: ConnectOutcome) -> (result: Option<ScanResult>)
        ensures
            match result {
                Some(result) => job < self.matrix().count() && result@ == result_of(
                    self.matrix().job_at(job as nat),
                    outcome,
                    self.annotations(),
                ),
                None => job >= self.matrix().count(),
            },
    {
        match self.addrs.job(job) {
            Some(scanned) => {
                let service = match &self.services {
                    Some(table) => Some(table.service_name(scanned.port)),
                    None => None,
                };
                Some(
                    ScanResult {
                        label: scanned.label,
                        port: scanned.port,
                        open: is_port_open(outcome),
                        service,
                    },
                )
            },
            None => None,
        }
    }
}

} // verus!
