//! What holds of the engine over any run of events: the pool never exceeds
//! its cap, and every job's result is given out exactly once.
use crate::scanner::{ScanEvent, ScannerView};
use vstd::prelude::*;

verus! {

/// The state that `events`, taken in order, lead to from `view`.
pub open spec fn after(view: ScannerView, events: Seq<ScanEvent>) -> ScannerView
    decreases events.len(),
{
    if events.len() == 0 {
        view
    } else {
        after(view, events.drop_last()).apply(events.last())
    }
}

/// The jobs whose results are given out while `events` are taken in order
/// from `view`, in the order in which they are given out.
pub open spec fn results(view: ScannerView, events: Seq<ScanEvent>) -> Seq<u128>
    decreases events.len(),
{
    if events.len() == 0 {
        Seq::empty()
    } else {
        let front = results(view, events.drop_last());
        match after(view, events.drop_last()).emits(events.last()) {
            Some(job) => front.push(job),
            None => front,
        }
    }
}

/// The jobs launched while `events` are taken in order from `view`, in the
/// order in which they are launched.
pub open spec fn admitted(view: ScannerView, events: Seq<ScanEvent>) -> Seq<u128>
    decreases events.len(),
{
    if events.len() == 0 {
        Seq::empty()
    } else {
        admitted(view, events.drop_last()) + after(view, events.drop_last()).launches(
            events.last(),
        )
    }
}

/// No event takes a well-formed pipeline out of well-formedness.
pub proof fn law_events_keep_pipeline_well_formed(view: ScannerView, event: ScanEvent)
    requires
        view.wf(),
        view.total <= u128::MAX,
    ensures
        view.apply(event).wf(),
        view.apply(event).total == view.total,
        view.apply(event).concurrent == view.concurrent,
{
    match event {
        ScanEvent::Start => {
            if !view.started {
                view.lemma_start_wf();
            }
        },
        ScanEvent::Finished { job, .. } => {
            if view.in_flight.contains(job) {
                view.lemma_finish_wf(job);
            }
        },
    }
}

/// Whatever the events and their order, the number of outstanding attempts
/// never exceeds the cap; once the scan has begun it is the cap exactly, or
/// the number of jobs that have not ended where that is less.
pub proof fn law_pool_never_exceeds_cap(total: nat, concurrent: nat, events: Seq<ScanEvent>)
    requires
        concurrent >= 1,
        total <= u128::MAX,
    ensures
        after(ScannerView::idle(total, concurrent), events).wf(),
        after(ScannerView::idle(total, concurrent), events).total == total,
        after(ScannerView::idle(total, concurrent), events).concurrent == concurrent,
        after(ScannerView::idle(total, concurrent), events).in_flight.len() <= concurrent,
        after(ScannerView::idle(total, concurrent), events).started ==> after(
            ScannerView::idle(total, concurrent),
            events,
        ).in_flight.len() == after(ScannerView::idle(total, concurrent), events).pool_size(),
    decreases events.len(),
{
    if events.len() > 0 {
        law_pool_never_exceeds_cap(total, concurrent, events.drop_last());
        law_events_keep_pipeline_well_formed(
            after(ScannerView::idle(total, concurrent), events.drop_last()),
            events.last(),
        );
    }
}

/// Until every job has ended an attempt is outstanding: a scan that has begun
/// never waits with an empty pool.
pub proof fn law_pool_never_empties_before_the_end(
    total: nat,
    concurrent: nat,
    events: Seq<ScanEvent>,
)
    requires
        concurrent >= 1,
        total <= u128::MAX,
        after(ScannerView::idle(total, concurrent), events).started,
        !after(ScannerView::idle(total, concurrent), events).done(),
    ensures
        after(ScannerView::idle(total, concurrent), events).in_flight.len() >= 1,
{
    law_pool_never_exceeds_cap(total, concurrent, events);
}

/// Whatever the events and their order, the jobs are launched in the order of
/// the matrix, each once: what has been launched is always the matrix's
/// first jobs, one after the other.
pub proof fn law_jobs_launched_once_in_order(total: nat, concurrent: nat, events: Seq<ScanEvent>)
    requires
        concurrent >= 1,
        total <= u128::MAX,
    ensures
        admitted(ScannerView::idle(total, concurrent), events) == Seq::new(
            after(ScannerView::idle(total, concurrent), events).next,
            |i: int| i as u128,
        ),
        admitted(ScannerView::idle(total, concurrent), events).no_duplicates(),
    decreases events.len(),
{
    let idle = ScannerView::idle(total, concurrent);
    law_pool_never_exceeds_cap(total, concurrent, events);
    if events.len() > 0 {
        law_jobs_launched_once_in_order(total, concurrent, events.drop_last());
        law_pool_never_exceeds_cap(total, concurrent, events.drop_last());
        let before = after(idle, events.drop_last());
        match events.last() {
            ScanEvent::Finished { job, .. } => {
                if before.in_flight.contains(job) {
                    before.lemma_finish_wf(job);
                }
            },
            ScanEvent::Start => {},
        }
    }
    assert(admitted(idle, events) =~= Seq::new(after(idle, events).next, |i: int| i as u128));
}

/// Whatever the events and their order, no job's result is given out twice,
/// the results given out are those of the jobs that were admitted and are no
/// longer outstanding, and when the engine says it is done there is exactly
/// one result for each job of the matrix.
pub proof fn law_every_job_reported_once(total: nat, concurrent: nat, events: Seq<ScanEvent>)
    requires
        concurrent >= 1,
        total <= u128::MAX,
    ensures
        results(ScannerView::idle(total, concurrent), events).no_duplicates(),
        results(ScannerView::idle(total, concurrent), events).len() == after(
            ScannerView::idle(total, concurrent),
            events,
        ).finished,
        forall|job: u128|
            results(ScannerView::idle(total, concurrent), events).contains(job) <==> after(
                ScannerView::idle(total, concurrent),
                events,
            ).reported().contains(job),
        after(ScannerView::idle(total, concurrent), events).done() ==> {
            &&& results(ScannerView::idle(total, concurrent), events).len() == total
            &&& forall|job: u128|
                job < total ==> results(ScannerView::idle(total, concurrent), events).contains(job)
        },
    decreases events.len(),
{
    let idle = ScannerView::idle(total, concurrent);
    let now = after(idle, events);
    let given = results(idle, events);
    law_pool_never_exceeds_cap(total, concurrent, events);
    if events.len() == 0 {
        assert forall|job: u128| given.contains(job) <==> now.reported().contains(job) by {}
    } else {
        let before = after(idle, events.drop_last());
        let front = results(idle, events.drop_last());
        let event = events.last();
        law_every_job_reported_once(total, concurrent, events.drop_last());
        law_pool_never_exceeds_cap(total, concurrent, events.drop_last());
        match before.emits(event) {
            Some(job) => {
                before.lemma_finish_wf(job);
                assert(before.reported().contains(job) == false);
                assert(!front.contains(job));
                assert(given == front.push(job));
                assert forall|x: u128| given.contains(x) <==> now.reported().contains(x) by {
                    if given.contains(x) {
                        let at = choose|at: int| 0 <= at < given.len() && given[at] == x;
                        if at < front.len() {
                            assert(front[at] == x);
                            assert(front.contains(x));
                            assert(before.reported().contains(x));
                        }
                    }
                    if now.reported().contains(x) {
                        if x != job {
                            assert(before.reported().contains(x));
                            assert(front.contains(x));
                            let at = choose|at: int| 0 <= at < front.len() && front[at] == x;
                            assert(given[at] == x);
                        } else {
                            assert(given[front.len() as int] == x);
                        }
                    }
                }
                assert(given.no_duplicates()) by {
                    assert forall|i: int, j: int|
                        0 <= i < given.len() && 0 <= j < given.len() && i != j implies given[i]
                        != given[j] by {
                        if i < front.len() && j < front.len() {
                            assert(front[i] != front[j]);
                        } else if i < front.len() {
                            assert(front.contains(front[i]));
                        } else if j < front.len() {
                            assert(front.contains(front[j]));
                        }
                    }
                }
            },
            None => {
                assert(given == front);
                assert forall|x: u128| given.contains(x) <==> now.reported().contains(x) by {
                    assert(front.contains(x) <==> before.reported().contains(x));
                    if !before.started && now.started {
                        assert(!before.reported().contains(x));
                        assert(!now.reported().contains(x));
                    }
                }
            },
        }
    }
    if now.done() {
        assert(now.in_flight.len() == 0);
        now.in_flight.lemma_len0_is_empty();
        assert forall|job: u128| job < total implies given.contains(job) by {
            assert(now.reported().contains(job));
        }
    }
}

} // verus!
