//! The dispatcher: at most one operation in flight, and the events it delivers.
use vstd::prelude::*;

use crate::config::OperationConfig;
use crate::event::{
    ends_terminal, is_terminal, terminal_count, terminal_only_last, Phase, ProgressEvent, FULL,
};

verus! {

/// The index of a phase among the six.
pub open spec fn phase_index(p: Phase) -> int {
    match p {
        Phase::Burning => 0,
        Phase::Verifying => 1,
        Phase::CreatingBootableSetup => 2,
        Phase::CreatingImage => 3,
        Phase::Ejecting => 4,
        Phase::Erasing => 5,
    }
}

fn phase_slot(p: Phase) -> (r: usize)
    ensures
        r == phase_index(p),
        r < 6,
{
    match p {
        Phase::Burning => 0,
        Phase::Verifying => 1,
        Phase::CreatingBootableSetup => 2,
        Phase::CreatingImage => 3,
        Phase::Ejecting => 4,
        Phase::Erasing => 5,
    }
}

/// The highest progress reported for phase `p` in the stream (0 when none).
pub open spec fn peak(s: Seq<ProgressEvent>, p: Phase) -> int
    decreases s.len(),
{
    if s.len() == 0 {
        0
    } else {
        let prev = peak(s.drop_last(), p);
        match s.last() {
            ProgressEvent::Progress(q, f) => if q == p && f > prev { f as int } else { prev },
            _ => prev,
        }
    }
}

/// An event as delivered after the stream `seen`: a progress value is capped at
/// `FULL` and raised to the highest value already delivered for its phase;
/// every other event is delivered as it came.
pub open spec fn settle(seen: Seq<ProgressEvent>, e: ProgressEvent) -> ProgressEvent {
    match e {
        ProgressEvent::Progress(p, f) => {
            let capped: int = if f > FULL { FULL as int } else { f as int };
            let v: int = if capped < peak(seen, p) { peak(seen, p) } else { capped };
            ProgressEvent::Progress(p, v as u16)
        },
        _ => e,
    }
}

/// What a poll delivers of the events `arrived`, after the stream `seen` of the
/// running invocation: each event settled, in order, up to and including the
/// first terminal one; what follows a terminal event is not delivered.
pub open spec fn deliver(seen: Seq<ProgressEvent>, arrived: Seq<ProgressEvent>) -> Seq<ProgressEvent>
    decreases arrived.len(),
{
    if arrived.len() == 0 {
        Seq::empty()
    } else {
        let d = deliver(seen, arrived.drop_last());
        if ends_terminal(d) {
            d
        } else {
            d.push(settle(seen + d, arrived.last()))
        }
    }
}

/// Progress values lie in `0..=FULL` and never go down within a phase.
pub open spec fn progress_in_order(s: Seq<ProgressEvent>) -> bool {
    &&& forall|i: int| 0 <= i < s.len() && (#[trigger] s[i]) is Progress ==> s[i]->Progress_1 <= FULL
    &&& forall|i: int, j: int|
        0 <= i < j < s.len() && (#[trigger] s[i]) is Progress && (#[trigger] s[j]) is Progress
            && s[i]->Progress_0 == s[j]->Progress_0 ==> s[i]->Progress_1 <= s[j]->Progress_1
}

/// When every progress value of a stream lies in `0..=FULL`, so does its peak
/// for each phase, and no value of that phase exceeds the peak.
proof fn lemma_peak(s: Seq<ProgressEvent>, p: Phase)
    requires
        forall|i: int| 0 <= i < s.len() && (#[trigger] s[i]) is Progress ==> s[i]->Progress_1 <= FULL,
    ensures
        0 <= peak(s, p) <= FULL,
        forall|i: int|
            0 <= i < s.len() && (#[trigger] s[i]) is Progress && s[i]->Progress_0 == p
                ==> s[i]->Progress_1 <= peak(s, p),
    decreases s.len(),
{
    if s.len() > 0 {
        let t = s.drop_last();
        assert forall|i: int| 0 <= i < t.len() && (#[trigger] t[i]) is Progress implies t[i]->Progress_1
            <= FULL by {
            assert(t[i] == s[i]);
        }
        lemma_peak(t, p);
        assert forall|i: int|
            0 <= i < s.len() && (#[trigger] s[i]) is Progress && s[i]->Progress_0 == p implies s[i]->Progress_1
            <= peak(s, p) by {
            if i < t.len() {
                assert(t[i] == s[i]);
            }
        }
    }
}

/// A stream whose terminal events can stand only last holds one terminal event
/// if it has ended and none otherwise.
proof fn lemma_terminal_count(s: Seq<ProgressEvent>)
    requires
        terminal_only_last(s),
    ensures
        terminal_count(s) == if ends_terminal(s) { 1nat } else { 0nat },
    decreases s.len(),
{
    if s.len() > 0 {
        let t = s.drop_last();
        assert forall|i: int| 0 <= i < t.len() - 1 implies !is_terminal(#[trigger] t[i]) by {
            assert(t[i] == s[i]);
        }
        lemma_terminal_count(t);
        if t.len() > 0 {
            assert(t.last() == s[s.len() - 2]);
        }
    }
}

/// The operations that run through the dispatcher.
#[derive(Clone, Copy, Debug, PartialEq, Eq, Structural)]
pub enum OperationKind {
    Burn,
    Verify,
    CreateBootableImage,
    Eject,
    Erase,
}

/// The phase an operation of this kind is in when it starts.
pub open spec fn initial_phase(k: OperationKind) -> Phase {
    match k {
        OperationKind::Burn => Phase::Burning,
        OperationKind::Verify => Phase::Verifying,
        OperationKind::CreateBootableImage => Phase::CreatingImage,
        OperationKind::Eject => Phase::Ejecting,
        OperationKind::Erase => Phase::Erasing,
    }
}

impl OperationKind {
    /// The phase an operation of this kind is in when it starts.
    pub fn initial_phase(self) -> (r: Phase)
        ensures
            r == initial_phase(self),
    {
        match self {
            OperationKind::Burn => Phase::Burning,
            OperationKind::Verify => Phase::Verifying,
            OperationKind::CreateBootableImage => Phase::CreatingImage,
            OperationKind::Eject => Phase::Ejecting,
            OperationKind::Erase => Phase::Erasing,
        }
    }
}

/// What a successful `start` hands to the execution context: the operation to
/// run and its own copy of the configuration.
#[derive(Debug)]
pub struct OperationHandle {
    pub kind: OperationKind,
    pub config: OperationConfig,
}

/// Delivering two batches one after the other delivers what one batch of both
/// would: the second batch is delivered after what the first one delivered,
/// and not at all once the first one has delivered a terminal event.
pub proof fn lemma_deliver_append(seen: Seq<ProgressEvent>, a: Seq<ProgressEvent>, b: Seq<ProgressEvent>)
    ensures
        deliver(seen, a + b) == if ends_terminal(deliver(seen, a)) {
            deliver(seen, a)
        } else {
            deliver(seen, a) + deliver(seen + deliver(seen, a), b)
        },
    decreases b.len(),
{
    let d = deliver(seen, a);
    if b.len() == 0 {
        assert(a + b =~= a);
        assert(d + deliver(seen + d, b) =~= d);
    } else {
        let b1 = b.drop_last();
        lemma_deliver_append(seen, a, b1);
        assert((a + b).drop_last() =~= a + b1);
        assert((a + b).last() == b.last());
        if !ends_terminal(d) {
            let e1 = deliver(seen + d, b1);
            assert(seen + d + e1 =~= seen + (d + e1));
            if e1.len() > 0 {
                assert((d + e1).last() == e1.last());
            } else {
                assert(d + e1 =~= d);
            }
            assert((d + e1).push(settle(seen + (d + e1), b.last())) =~= d + e1.push(
                settle(seen + d + e1, b.last()),
            ));
        }
    }
}

/// Raised by `start` while an operation is still in flight.
#[derive(Clone, Copy, Debug, PartialEq, Eq, Structural)]
pub struct AlreadyRunning;

/// Admits one operation at a time and filters the events streamed back by it.
pub struct Dispatcher {
    active: bool,
    peaks: Vec<u16>,
    launched: Ghost<bool>,
    seen: Ghost<Seq<ProgressEvent>>,
}

impl Dispatcher {
    /// Whether an operation is in flight: its terminal event is not yet delivered.
    pub closed spec fn active(&self) -> bool {
        self.active
    }

    /// Whether any operation was ever started.
    pub closed spec fn launched(&self) -> bool {
        self.launched@
    }

    /// The events delivered so far for the latest invocation.
    pub closed spec fn seen(&self) -> Seq<ProgressEvent> {
        self.seen@
    }

    /// The dispatcher's invariant.
    pub closed spec fn wf(&self) -> bool {
        &&& self.active == (self.launched@ && !ends_terminal(self.seen@))
        &&& !self.launched@ ==> self.seen@.len() == 0
        &&& terminal_only_last(self.seen@)
        &&& progress_in_order(self.seen@)
        &&& self.peaks@.len() == 6
        &&& forall|p: Phase| #[trigger] self.peaks@[phase_index(p)] == peak(self.seen@, p)
    }

    /// A dispatcher with nothing in flight.
    pub fn new() -> (r: Dispatcher)
        ensures
            r.wf(),
            !r.active(),
            !r.launched(),
            r.seen() == Seq::<ProgressEvent>::empty(),
    {
        Dispatcher {
            active: false,
            peaks: vec![0u16, 0u16, 0u16, 0u16, 0u16, 0u16],
            launched: Ghost(false),
            seen: Ghost(Seq::empty()),
        }
    }

    /// Starts an operation unless one is in flight. On success the latest
    /// invocation begins with no event delivered, and the handle carries the
    /// kind and a copy of the configuration; on `AlreadyRunning` nothing changes.
    pub fn start(&mut self, kind: OperationKind, config: &OperationConfig) -> (r: Result<
        OperationHandle,
        AlreadyRunning,
    >)
        requires
            old(self).wf(),
            config.wf(),
        ensures
            final(self).wf(),
            r is Err <==> old(self).active(),
            r is Err ==> final(self).active() == old(self).active() && final(self).launched()
                == old(self).launched() && final(self).seen() == old(self).seen(),
            r is Ok ==> final(self).active() && final(self).launched() && final(self).seen()
                == Seq::<ProgressEvent>::empty(),
            r is Ok ==> r->Ok_0.kind == kind && r->Ok_0.config == *config,
    {
        if self.active {
            return Err(AlreadyRunning);
        }
        self.active = true;
        self.peaks = vec![0u16, 0u16, 0u16, 0u16, 0u16, 0u16];
        self.launched = Ghost(true);
        self.seen = Ghost(Seq::empty());
        Ok(OperationHandle { kind, config: config.duplicate() })
    }

    /// One event as delivered now (see `settle`), noting a progress value as
    /// the new peak of its phase.
    fn settle_next(&mut self, e: &ProgressEvent) -> (r: ProgressEvent)
        requires
            old(self).wf(),
            old(self).active(),
        ensures
            r == settle(old(self).seen(), *e),
            final(self).active == old(self).active,
            final(self).launched == old(self).launched,
            final(self).seen == old(self).seen,
            final(self).peaks@.len() == 6,
            forall|p: Phase| #[trigger] final(self).peaks@[phase_index(p)] == peak(old(self).seen().push(r), p),
    {
        let ghost seen = self.seen@;
        proof {
            lemma_peak(seen, Phase::Burning);
        }
        match e {
            ProgressEvent::Progress(p, f) => {
                let k = phase_slot(*p);
                let pk = self.peaks[k];
                proof {
                    lemma_peak(seen, *p);
                }
                let capped: u16 = if *f > FULL { FULL } else { *f };
                let v: u16 = if capped < pk { pk } else { capped };
                self.peaks.set(k, v);
                let r = ProgressEvent::Progress(*p, v);
                proof {
                    let t = seen.push(r);
                    assert(t.drop_last() =~= seen);
                    assert forall|q: Phase| #[trigger] self.peaks@[phase_index(q)] == peak(t, q) by {
                        if q != *p {
                            assert(phase_index(q) != phase_index(*p));
                        }
                    }
                }
                r
            },
            _ => {
                let r = e.duplicate();
                proof {
                    let t = seen.push(r);
                    assert(t.drop_last() =~= seen);
                    assert forall|q: Phase| #[trigger] self.peaks@[phase_index(q)] == peak(t, q) by {
                    }
                }
                r
            },
        }
    }

    /// Drains the events that arrived since the last poll and returns those
    /// delivered: none when nothing is in flight, else the events settled, in
    /// order, up to and including the first terminal one, which ends the
    /// invocation. Never blocks.
    pub fn poll(&mut self, arrived: Vec<ProgressEvent>) -> (r: Vec<ProgressEvent>)
        requires
            old(self).wf(),
        ensures
            final(self).wf(),
            !old(self).active() ==> r@ == Seq::<ProgressEvent>::empty(),
            old(self).active() ==> r@ == deliver(old(self).seen(), arrived@),
            final(self).seen() == old(self).seen() + r@,
            final(self).active() == (old(self).active() && !ends_terminal(r@)),
            final(self).launched() == old(self).launched(),
            progress_in_order(final(self).seen()),
    {
        let mut out: Vec<ProgressEvent> = Vec::new();
        if !self.active {
            assert(self.seen@ + out@ =~= self.seen@);
            return out;
        }
        let ghost seen0 = self.seen@;
        let mut i: usize = 0;
        while i < arrived.len()
            invariant
                i <= arrived.len(),
                self.launched@,
                self.seen@ == seen0 + out@,
                out@ == deliver(seen0, arrived@.subrange(0, i as int)),
                self.active == !ends_terminal(out@),
                !ends_terminal(seen0),
                terminal_only_last(self.seen@),
                progress_in_order(self.seen@),
                self.peaks@.len() == 6,
                forall|p: Phase| #[trigger] self.peaks@[phase_index(p)] == peak(self.seen@, p),
            decreases arrived.len() - i,
        {
            let ghost pre = arrived@.subrange(0, i as int);
            let ghost post = arrived@.subrange(0, i as int + 1);
            assert(post.drop_last() =~= pre);
            assert(post.last() == arrived@[i as int]);
            if self.active {
                let ghost seen = self.seen@;
                let e = self.settle_next(&arrived[i]);
                proof {
                    let t = seen.push(e);
                    lemma_peak(seen, Phase::Burning);
                    if e is Progress {
                        lemma_peak(seen, e->Progress_0);
                    }
                    if out@.len() > 0 {
                        assert(out@.last() == seen.last());
                    } else if seen0.len() > 0 {
                        assert(seen0.last() == seen.last());
                    }
                    assert forall|k: int| 0 <= k < t.len() - 1 implies !is_terminal(#[trigger] t[k]) by {
                        assert(t[k] == seen[k]);
                        if k == seen.len() - 1 {
                            assert(seen.last() == seen[k]);
                        }
                    }
                    assert forall|a: int| 0 <= a < t.len() && (#[trigger] t[a]) is Progress implies t[a]->Progress_1
                        <= FULL by {
                        if a < seen.len() {
                            assert(t[a] == seen[a]);
                        }
                    }
                    assert forall|a: int, b: int|
                        0 <= a < b < t.len() && (#[trigger] t[a]) is Progress && (#[trigger] t[b]) is Progress
                            && t[a]->Progress_0 == t[b]->Progress_0 implies t[a]->Progress_1 <= t[b]->Progress_1 by {
                        assert(t[a] == seen[a]);
                        if b < seen.len() {
                            assert(t[b] == seen[b]);
                        }
                    }
                }
                if e.is_terminal() {
                    self.active = false;
                }
                self.seen = Ghost(self.seen@.push(e));
                out.push(e);
                assert(self.seen@ =~= seen0 + out@);
            }
            i += 1;
        }
        assert(arrived@.subrange(0, i as int) =~= arrived@);
        out
    }

    /// Once an invocation has ended, the events it delivered hold exactly one
    /// terminal event, and it is the last; while it runs they hold none.
    pub proof fn lemma_one_terminal_last(&self)
        requires
            self.wf(),
            self.launched(),
        ensures
            !self.active() ==> terminal_count(self.seen()) == 1 && is_terminal(self.seen().last()),
            self.active() ==> terminal_count(self.seen()) == 0,
    {
        lemma_terminal_count(self.seen@);
    }

    /// An operation is in flight exactly when one was started and its terminal
    /// event has not yet been delivered; so `start` is refused exactly then.
    pub proof fn lemma_active_until_drained(&self)
        requires
            self.wf(),
        ensures
            self.active() <==> (self.launched() && !ends_terminal(self.seen())),
            !self.launched() ==> !self.active(),
            self.active() ==> forall|i: int| 0 <= i < self.seen().len() ==> !is_terminal(#[trigger] self.seen()[i]),
    {
        if self.active {
            let s = self.seen@;
            assert forall|i: int| 0 <= i < s.len() implies !is_terminal(#[trigger] s[i]) by {
                if i == s.len() - 1 {
                    assert(s[i] == s.last());
                }
            }
        }
    }

    /// Within one invocation the progress values delivered lie in `0..=FULL`
    /// and, for each phase, never go down in order of arrival.
    pub proof fn lemma_progress_in_order(&self)
        requires
            self.wf(),
        ensures
            progress_in_order(self.seen()),
    {
    }

    /// Whether an operation is in flight.
    pub fn is_active(&self) -> (r: bool)
        ensures
            r == self.active(),
    {
        self.active
    }
}

} // verus!
