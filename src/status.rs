//! The UI-facing status, folded from the event stream one event at a time.
use vstd::prelude::*;

use crate::event::{Phase, ProgressEvent};

verus! {

/// What the controller shows, and what decides which actions are enabled.
#[derive(Debug)]
pub enum Status {
    Idle,
    Scanning,
    Running(Phase),
    Done,
    Failed(String),
}

/// The status after one event: `Started` enters its phase, `Completed` ends in
/// `Done`, `Failed` ends in `Failed` with its message; `Log` and `Progress` keep
/// the status as it is.
pub open spec fn next_status(s: Status, e: ProgressEvent) -> Status {
    match e {
        ProgressEvent::Log(_) => s,
        ProgressEvent::Started(p) => Status::Running(p),
        ProgressEvent::Progress(_, _) => s,
        ProgressEvent::Completed => Status::Done,
        ProgressEvent::Failed(m) => Status::Failed(m),
    }
}

/// The status after folding the events, in order, starting from `s`.
pub open spec fn fold_status(s: Status, events: Seq<ProgressEvent>) -> Status
    decreases events.len(),
{
    if events.len() == 0 {
        s
    } else {
        next_status(fold_status(s, events.drop_last()), events.last())
    }
}

/// `Idle`, `Done` and `Failed` are at rest: only there may a new operation begin.
pub open spec fn at_rest(s: Status) -> bool {
    s is Idle || s is Done || s is Failed
}

/// Folding a stream in two parts gives the status of folding it whole: the
/// status depends on the events seen so far and on nothing else.
pub proof fn lemma_fold_append(s: Status, a: Seq<ProgressEvent>, b: Seq<ProgressEvent>)
    ensures
        fold_status(s, a + b) == fold_status(fold_status(s, a), b),
    decreases b.len(),
{
    if b.len() == 0 {
        assert(a + b =~= a);
    } else {
        lemma_fold_append(s, a, b.drop_last());
        assert((a + b).drop_last() =~= a + b.drop_last());
        assert((a + b).last() == b.last());
    }
}

impl Status {
    /// A deep copy of the status.
    pub fn duplicate(&self) -> (r: Status)
        ensures
            r == *self,
    {
        match self {
            Status::Idle => Status::Idle,
            Status::Scanning => Status::Scanning,
            Status::Running(p) => Status::Running(*p),
            Status::Done => Status::Done,
            Status::Failed(m) => Status::Failed(m.clone()),
        }
    }

    /// Whether a new operation may begin from this status.
    pub fn is_at_rest(&self) -> (r: bool)
        ensures
            r == at_rest(*self),
    {
        match self {
            Status::Idle | Status::Done | Status::Failed(_) => true,
            _ => false,
        }
    }

    /// Whether this is `Done`.
    pub fn is_done(&self) -> (r: bool)
        ensures
            r == (*self is Done),
    {
        match self {
            Status::Done => true,
            _ => false,
        }
    }

    /// The phase running, if any.
    pub fn running_phase(&self) -> (r: Option<Phase>)
        ensures
            r == (match *self {
                Status::Running(p) => Some(p),
                _ => None,
            }),
    {
        match self {
            Status::Running(p) => Some(*p),
            _ => None,
        }
    }

    /// The failure message, if this is `Failed`.
    pub fn failure(&self) -> (r: Option<&String>)
        ensures
            r == (match *self {
                Status::Failed(m) => Some(&m),
                _ => None,
            }),
    {
        match self {
            Status::Failed(m) => Some(m),
            _ => None,
        }
    }

    /// The status after one more event.
    pub fn apply(self, e: &ProgressEvent) -> (r: Status)
        ensures
            r == next_status(self, *e),
    {
        match e {
            ProgressEvent::Log(_) => self,
            ProgressEvent::Started(p) => Status::Running(*p),
            ProgressEvent::Progress(_, _) => self,
            ProgressEvent::Completed => Status::Done,
            ProgressEvent::Failed(m) => Status::Failed(m.clone()),
        }
    }

    /// The status after folding the events, in order.
    pub fn fold(self, events: &Vec<ProgressEvent>) -> (r: Status)
        ensures
            r == fold_status(self, events@),
    {
        let ghost s0 = self;
        let mut s = self;
        let mut i: usize = 0;
        while i < events.len()
            invariant
                i <= events.len(),
                s == fold_status(s0, events@.subrange(0, i as int)),
            decreases events.len() - i,
        {
            proof {
                assert(events@.subrange(0, i as int + 1).drop_last() =~= events@.subrange(0, i as int));
            }
            s = s.apply(&events[i]);
            i += 1;
        }
        assert(events@.subrange(0, i as int) =~= events@);
        s
    }
}

} // verus!
