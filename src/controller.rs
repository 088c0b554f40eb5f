//! The controller's state: the status, the progress shown, the log lines and
//! the devices of the last scan, fed each tick with the events that arrived.
use vstd::prelude::*;
use vstd::string::StringExecFns;

use crate::config::{Device, OperationConfig};
use crate::dispatch::{
    deliver, initial_phase, lemma_deliver_append, progress_in_order, AlreadyRunning, Dispatcher, OperationHandle,
    OperationKind,
};
use crate::event::{ends_terminal, is_terminal, Phase, ProgressEvent, FULL};
use crate::status::{at_rest, fold_status, lemma_fold_append, Status};

verus! {

/// The log line an event adds, if any: a `Log` adds its text, a `Failed` adds
/// its message after `ERROR: `.
pub open spec fn log_line(e: ProgressEvent) -> Option<Seq<char>> {
    match e {
        ProgressEvent::Log(m) => Some(m@),
        ProgressEvent::Failed(m) => Some("ERROR: "@ + m@),
        _ => None,
    }
}

/// The log lines that the events add, in order.
pub open spec fn log_lines(events: Seq<ProgressEvent>) -> Seq<Seq<char>>
    decreases events.len(),
{
    if events.len() == 0 {
        Seq::empty()
    } else {
        let prev = log_lines(events.drop_last());
        match log_line(events.last()) {
            Some(l) => prev.push(l),
            None => prev,
        }
    }
}

/// The progress shown after the events: the value of the last `Progress`
/// event, or `p` when there is none.
pub open spec fn last_progress(p: u16, events: Seq<ProgressEvent>) -> u16
    decreases events.len(),
{
    if events.len() == 0 {
        p
    } else {
        match events.last() {
            ProgressEvent::Progress(_, f) => f,
            _ => last_progress(p, events.drop_last()),
        }
    }
}

/// The progress shown after two runs of events is that of the second run,
/// started from the progress shown after the first.
proof fn lemma_last_progress_append(p: u16, a: Seq<ProgressEvent>, b: Seq<ProgressEvent>)
    ensures
        last_progress(p, a + b) == last_progress(last_progress(p, a), b),
    decreases b.len(),
{
    if b.len() == 0 {
        assert(a + b =~= a);
    } else {
        lemma_last_progress_append(p, a, b.drop_last());
        assert((a + b).drop_last() =~= a + b.drop_last());
        assert((a + b).last() == b.last());
    }
}

/// The log lines of two runs of events are those of each, in order.
proof fn lemma_log_lines_append(a: Seq<ProgressEvent>, b: Seq<ProgressEvent>)
    ensures
        log_lines(a + b) == log_lines(a) + log_lines(b),
    decreases b.len(),
{
    if b.len() == 0 {
        assert(a + b =~= a);
        assert(log_lines(a) + log_lines(b) =~= log_lines(a));
    } else {
        lemma_log_lines_append(a, b.drop_last());
        assert((a + b).drop_last() =~= a + b.drop_last());
        assert((a + b).last() == b.last());
        let l = log_lines(a);
        let m = log_lines(b.drop_last());
        match log_line(b.last()) {
            Some(x) => {
                assert((l + m).push(x) =~= l + m.push(x));
            },
            None => {},
        }
    }
}

/// Whether the events of an invocation reach the controller in one tick or in
/// two makes no difference. With `seen` delivered so far, a tick with `a + b`
/// delivers what a tick with `a` and then a tick with `b` deliver together (the
/// second delivers nothing once the first delivered a terminal event), and the
/// status, the progress shown and the log lines come out the same.
pub proof fn lemma_split_ticks(
    seen: Seq<ProgressEvent>,
    s: Status,
    p: u16,
    a: Seq<ProgressEvent>,
    b: Seq<ProgressEvent>,
)
    ensures
        ({
            let whole = deliver(seen, a + b);
            let first = deliver(seen, a);
            let second = if ends_terminal(first) {
                Seq::<ProgressEvent>::empty()
            } else {
                deliver(seen + first, b)
            };
            &&& whole == first + second
            &&& fold_status(s, whole) == fold_status(fold_status(s, first), second)
            &&& last_progress(p, whole) == last_progress(last_progress(p, first), second)
            &&& log_lines(whole) == log_lines(first) + log_lines(second)
        }),
{
    let first = deliver(seen, a);
    let second = if ends_terminal(first) {
        Seq::<ProgressEvent>::empty()
    } else {
        deliver(seen + first, b)
    };
    lemma_deliver_append(seen, a, b);
    if ends_terminal(first) {
        assert(first + second =~= first);
    }
    lemma_fold_append(s, first, second);
    lemma_last_progress_append(p, first, second);
    lemma_log_lines_append(first, second);
}

/// Within a phase the progress shown never goes down: when it shows the value
/// of an event of phase `ph` already delivered, and the events delivered next
/// report progress of `ph` alone, it shows at least as much after them.
pub proof fn lemma_progress_shown_rises(seen: Seq<ProgressEvent>, k: int, ph: Phase, d: Seq<ProgressEvent>)
    requires
        progress_in_order(seen + d),
        0 <= k < seen.len(),
        seen[k] is Progress,
        seen[k]->Progress_0 == ph,
        forall|i: int| 0 <= i < d.len() && (#[trigger] d[i]) is Progress ==> d[i]->Progress_0 == ph,
    ensures
        last_progress(seen[k]->Progress_1, d) >= seen[k]->Progress_1,
    decreases d.len(),
{
    if d.len() > 0 {
        let t = seen + d;
        let d1 = d.drop_last();
        assert(seen + d1 =~= t.subrange(0, t.len() - 1));
        assert forall|i: int| 0 <= i < d1.len() && (#[trigger] d1[i]) is Progress implies d1[i]->Progress_0 == ph by {
            assert(d1[i] == d[i]);
        }
        let u = seen + d1;
        assert forall|i: int| 0 <= i < u.len() && (#[trigger] u[i]) is Progress implies u[i]->Progress_1 <= FULL by {
            assert(u[i] == t[i]);
        }
        assert forall|i: int, j: int|
            0 <= i < j < u.len() && (#[trigger] u[i]) is Progress && (#[trigger] u[j]) is Progress
                && u[i]->Progress_0 == u[j]->Progress_0 implies u[i]->Progress_1 <= u[j]->Progress_1 by {
            assert(u[i] == t[i]);
            assert(u[j] == t[j]);
        }
        lemma_progress_shown_rises(seen, k, ph, d1);
        assert(t[k] == seen[k]);
        assert(t[t.len() - 1] == d.last());
    }
}

/// Folding events none of which is terminal keeps a running status running.
proof fn lemma_fold_stays_running(s: Status, events: Seq<ProgressEvent>)
    requires
        s is Running,
        forall|i: int| 0 <= i < events.len() ==> !is_terminal(#[trigger] events[i]),
    ensures
        fold_status(s, events) is Running,
    decreases events.len(),
{
    if events.len() > 0 {
        let t = events.drop_last();
        assert forall|i: int| 0 <= i < t.len() implies !is_terminal(#[trigger] t[i]) by {
            assert(t[i] == events[i]);
        }
        lemma_fold_stays_running(s, t);
        assert(!is_terminal(events[events.len() - 1]));
    }
}

/// The state a controller keeps between ticks.
pub struct Controller {
    status: Status,
    progress: u16,
    logs: Vec<String>,
    devices: Vec<Device>,
    dispatcher: Dispatcher,
    base: Ghost<Status>,
}

impl Controller {
    /// The status shown.
    pub closed spec fn status_spec(&self) -> Status {
        self.status
    }

    /// The progress shown, in thousandths.
    pub closed spec fn progress_spec(&self) -> u16 {
        self.progress
    }

    /// The log lines, as character sequences.
    pub closed spec fn log_view(&self) -> Seq<Seq<char>> {
        self.logs@.map_values(|l: String| l@)
    }

    /// The devices of the last scan.
    pub closed spec fn device_list(&self) -> Seq<Device> {
        self.devices@
    }

    /// The dispatcher that admits operations.
    pub closed spec fn dispatcher_spec(&self) -> Dispatcher {
        self.dispatcher
    }

    /// The status in which the latest invocation began.
    pub closed spec fn base(&self) -> Status {
        self.base@
    }

    /// The controller's invariant: while an operation is in flight the status
    /// is the fold of the events it delivered, from the status it began in.
    pub closed spec fn wf(&self) -> bool {
        &&& self.dispatcher.wf()
        &&& self.dispatcher.active() ==> self.status == fold_status(self.base@, self.dispatcher.seen())
        &&& self.dispatcher.active() ==> self.base@ is Running
        &&& self.progress <= FULL
    }

    /// While an operation is in flight the status shown is the fold of the
    /// events it has delivered, from the status it began in: it depends on
    /// that prefix of events alone, however the events were split into ticks.
    pub proof fn lemma_status_is_fold(&self)
        requires
            self.wf(),
            self.dispatcher_spec().active(),
        ensures
            self.status_spec() == fold_status(self.base(), self.dispatcher_spec().seen()),
    {
    }

    /// While an operation is in flight the status is neither at rest nor
    /// `Scanning`; so the status is at rest exactly when actions are enabled.
    pub proof fn lemma_rest_means_nothing_in_flight(&self)
        requires
            self.wf(),
        ensures
            at_rest(self.status_spec()) ==> !self.dispatcher_spec().active(),
            self.status_spec() is Scanning ==> !self.dispatcher_spec().active(),
            self.progress_spec() <= FULL,
    {
        if self.dispatcher.active() {
            self.dispatcher.lemma_active_until_drained();
            lemma_fold_stays_running(self.base@, self.dispatcher.seen());
        }
    }

    /// A controller at rest, with no logs and no devices.
    pub fn new() -> (r: Controller)
        ensures
            r.wf(),
            r.status_spec() == Status::Idle,
            r.progress_spec() == 0,
            r.log_view() == Seq::<Seq<char>>::empty(),
            r.device_list() == Seq::<Device>::empty(),
            !r.dispatcher_spec().active(),
    {
        let r = Controller {
            status: Status::Idle,
            progress: 0,
            logs: Vec::new(),
            devices: Vec::new(),
            dispatcher: Dispatcher::new(),
            base: Ghost(Status::Idle),
        };
        assert(r.log_view() =~= Seq::<Seq<char>>::empty());
        r
    }

    /// The current status.
    pub fn status(&self) -> (r: &Status)
        ensures
            *r == self.status_spec(),
    {
        &self.status
    }

    /// The progress shown, in thousandths.
    pub fn progress(&self) -> (r: u16)
        ensures
            r == self.progress_spec(),
    {
        self.progress
    }

    /// The log lines so far.
    pub fn logs(&self) -> (r: &Vec<String>)
        ensures
            r@.map_values(|l: String| l@) == self.log_view(),
    {
        &self.logs
    }

    /// The devices of the last scan.
    pub fn devices(&self) -> (r: &Vec<Device>)
        ensures
            r@ == self.device_list(),
    {
        &self.devices
    }

    /// Whether an operation is in flight.
    pub fn is_active(&self) -> (r: bool)
        ensures
            r == self.dispatcher_spec().active(),
    {
        self.dispatcher.is_active()
    }

    /// Whether the user may begin a new operation or a scan: the status is at
    /// rest, and then nothing is in flight.
    pub fn actions_enabled(&self) -> (r: bool)
        requires
            self.wf(),
        ensures
            r == at_rest(self.status_spec()),
            r ==> !self.dispatcher_spec().active(),
    {
        proof {
            self.lemma_rest_means_nothing_in_flight();
        }
        self.status.is_at_rest()
    }

    /// Begins a scan when actions are enabled: the status becomes `Scanning`.
    /// Otherwise nothing changes. Returns whether the scan may go ahead.
    pub fn begin_scan(&mut self) -> (r: bool)
        requires
            old(self).wf(),
        ensures
            final(self).wf(),
            r == (at_rest(old(self).status_spec()) && !old(self).dispatcher_spec().active()),
            r ==> final(self).status_spec() == Status::Scanning,
            !r ==> final(self).status_spec() == old(self).status_spec(),
            final(self).progress_spec() == old(self).progress_spec(),
            final(self).log_view() == old(self).log_view(),
            final(self).device_list() == old(self).device_list(),
            final(self).dispatcher_spec() == old(self).dispatcher_spec(),
            final(self).base() == old(self).base(),
    {
        if self.actions_enabled() {
            proof {
                self.lemma_rest_means_nothing_in_flight();
            }
            self.status = Status::Scanning;
            true
        } else {
            false
        }
    }

    /// Ends a scan with what it returned: the status goes back to `Idle`
    /// whatever the outcome. The device list becomes the devices found, or
    /// empty on an error, whose message is returned once for display.
    pub fn finish_scan(&mut self, result: Result<Vec<Device>, String>) -> (r: Option<String>)
        requires
            old(self).wf(),
            old(self).status_spec() is Scanning,
        ensures
            final(self).wf(),
            final(self).status_spec() == Status::Idle,
            result is Ok ==> r is None && final(self).device_list() == result->Ok_0@,
            result is Err ==> r == Some(result->Err_0) && final(self).device_list()
                == Seq::<Device>::empty(),
            final(self).progress_spec() == old(self).progress_spec(),
            final(self).log_view() == old(self).log_view(),
            final(self).dispatcher_spec() == old(self).dispatcher_spec(),
    {
        proof {
            self.lemma_rest_means_nothing_in_flight();
        }
        self.status = Status::Idle;
        match result {
            Ok(found) => {
                self.devices = found;
                None
            },
            Err(message) => {
                self.devices = Vec::new();
                Some(message)
            },
        }
    }

    /// Starts an operation through the dispatcher, unless one is in flight or
    /// a scan is under way. On success the status is the kind's first phase
    /// and the progress shown is 0; on `AlreadyRunning` nothing changes.
    pub fn start(&mut self, kind: OperationKind, config: &OperationConfig) -> (r: Result<
        OperationHandle,
        AlreadyRunning,
    >)
        requires
            old(self).wf(),
            config.wf(),
        ensures
            final(self).wf(),
            r is Err <==> (old(self).dispatcher_spec().active() || old(self).status_spec() is Scanning),
            r is Err ==> final(self).status_spec() == old(self).status_spec()
                && final(self).progress_spec() == old(self).progress_spec()
                && final(self).dispatcher_spec() == old(self).dispatcher_spec(),
            r is Ok ==> final(self).status_spec() == Status::Running(initial_phase(kind))
                && final(self).progress_spec() == 0 && final(self).dispatcher_spec().active()
                && final(self).dispatcher_spec().seen() == Seq::<ProgressEvent>::empty()
                && r->Ok_0.kind == kind && r->Ok_0.config == *config,
            final(self).log_view() == old(self).log_view(),
            final(self).device_list() == old(self).device_list(),
    {
        if self.dispatcher.is_active() {
            return Err(AlreadyRunning);
        }
        match self.status {
            Status::Scanning => {
                return Err(AlreadyRunning);
            },
            _ => {},
        }
        let r = self.dispatcher.start(kind, config);
        match r {
            Ok(handle) => {
                self.status = Status::Running(kind.initial_phase());
                self.progress = 0;
                self.base = Ghost(Status::Running(initial_phase(kind)));
                Ok(handle)
            },
            Err(e) => Err(e),
        }
    }

    /// The log line for an event, if it adds one.
    fn line_of(e: &ProgressEvent) -> (r: Option<String>)
        ensures
            match r {
                Some(l) => log_line(*e) == Some(l@),
                None => log_line(*e) is None,
            },
    {
        match e {
            ProgressEvent::Log(m) => Some(m.clone()),
            ProgressEvent::Failed(m) => {
                let mut line = String::from_str("ERROR: ");
                line.append(m.as_str());
                Some(line)
            },
            _ => None,
        }
    }

    /// One tick: polls the dispatcher with the events that arrived since the
    /// last tick and folds those delivered, in order, into the status, the
    /// progress shown and the log. Returns the events delivered.
    pub fn tick(&mut self, arrived: Vec<ProgressEvent>) -> (r: Vec<ProgressEvent>)
        requires
            old(self).wf(),
        ensures
            final(self).wf(),
            !old(self).dispatcher_spec().active() ==> r@ == Seq::<ProgressEvent>::empty(),
            old(self).dispatcher_spec().active() ==> r@ == deliver(
                old(self).dispatcher_spec().seen(),
                arrived@,
            ),
            final(self).dispatcher_spec().seen() == old(self).dispatcher_spec().seen() + r@,
            final(self).dispatcher_spec().active() == (old(self).dispatcher_spec().active()
                && !ends_terminal(r@)),
            final(self).dispatcher_spec().launched() == old(self).dispatcher_spec().launched(),
            progress_in_order(final(self).dispatcher_spec().seen()),
            forall|i: int| 0 <= i < r@.len() && (#[trigger] r@[i]) is Progress ==> r@[i]->Progress_1 <= FULL,
            final(self).status_spec() == fold_status(old(self).status_spec(), r@),
            final(self).progress_spec() == last_progress(old(self).progress_spec(), r@),
            final(self).progress_spec() <= FULL,
            final(self).log_view() == old(self).log_view() + log_lines(r@),
            final(self).device_list() == old(self).device_list(),
            final(self).base() == old(self).base(),
    {
        let ghost seen0 = self.dispatcher.seen();
        let delivered = self.dispatcher.poll(arrived);
        let ghost d1 = self.dispatcher;
        assert forall|k: int| 0 <= k < delivered@.len() && (#[trigger] delivered@[k]) is Progress implies delivered@[k]->Progress_1
            <= FULL by {
            assert(delivered@[k] == self.dispatcher.seen()[seen0.len() + k]);
        }
        let ghost devices0 = self.devices@;
        let ghost base0 = self.base@;
        let ghost status0 = self.status;
        let ghost progress0 = self.progress;
        let ghost logs0 = self.log_view();
        let mut i: usize = 0;
        while i < delivered.len()
            invariant
                i <= delivered.len(),
                self.dispatcher == d1,
                self.progress <= FULL,
                forall|k: int| 0 <= k < delivered@.len() && (#[trigger] delivered@[k]) is Progress ==> delivered@[k]->Progress_1 <= FULL,
                self.devices@ == devices0,
                self.base@ == base0,
                self.status == fold_status(status0, delivered@.subrange(0, i as int)),
                self.progress == last_progress(progress0, delivered@.subrange(0, i as int)),
                self.log_view() == logs0 + log_lines(delivered@.subrange(0, i as int)),
            decreases delivered.len() - i,
        {
            let ghost pre = delivered@.subrange(0, i as int);
            let ghost post = delivered@.subrange(0, i as int + 1);
            assert(post.drop_last() =~= pre);
            assert(post.last() == delivered@[i as int]);
            let e = &delivered[i];
            let s = self.status.duplicate();
            self.status = s.apply(e);
            match e {
                ProgressEvent::Progress(_, f) => {
                    self.progress = *f;
                },
                _ => {},
            }
            let line = Controller::line_of(e);
            match line {
                Some(l) => {
                    let ghost before = self.logs@;
                    self.logs.push(l);
                    assert(self.logs@.map_values(|x: String| x@) =~= before.map_values(
                        |x: String| x@,
                    ).push(l@));
                },
                None => {},
            }
            i += 1;
        }
        assert(delivered@.subrange(0, i as int) =~= delivered@);
        proof {
            if self.dispatcher.active() {
                lemma_fold_append(self.base@, seen0, delivered@);
            }
        }
        delivered
    }
}

} // verus!
