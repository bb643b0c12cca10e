//! The relay state machine of the process supervisor: which notification each
//! output event of a supervised process becomes, on which channel, and when
//! the periodic stimulus write into the process's input stream is due.
use vstd::prelude::*;

verus! {

/// Exit details of a terminated supervised process, as the operating system
/// reports them: an exit code, a terminating signal, or neither.
#[derive(Clone, Copy, PartialEq, Eq, Debug)]
pub struct ExitInfo {
    pub code: Option<i32>,
    pub signal: Option<i32>,
}

/// One event from a supervised process's merged, ordered output source.
#[derive(Clone, PartialEq, Eq, Debug)]
pub enum OutputEvent {
    Stdout(String),
    Stderr(String),
    Terminated(ExitInfo),
}

/// One outbound notification to the interface layer. Each variant is
/// published on its own fixed channel, named by `channel_of`.
#[derive(Clone, PartialEq, Eq, Debug)]
pub enum Emission {
    Init,
    Pid(u32),
    Stdout(String),
    Stderr(String),
    Terminated(ExitInfo),
    Killed,
}

/// The fixed channel an emission is published on.
pub open spec fn channel_of(e: Emission) -> Seq<char> {
    match e {
        Emission::Init => "starnet-command-init"@,
        Emission::Pid(_) => "get-pid"@,
        Emission::Stdout(_) => "starnet-command-stdout"@,
        Emission::Stderr(_) => "starnet-command-err"@,
        Emission::Terminated(_) => "starnet-command-terminated"@,
        Emission::Killed => "starnet-killed"@,
    }
}

impl Emission {
    /// The channel this emission is published on, as `channel_of` names it.
    pub fn channel(&self) -> (r: &'static str)
        ensures
            r@ == channel_of(*self),
    {
        match self {
            Emission::Init => "starnet-command-init",
            Emission::Pid(_) => "get-pid",
            Emission::Stdout(_) => "starnet-command-stdout",
            Emission::Stderr(_) => "starnet-command-err",
            Emission::Terminated(_) => "starnet-command-terminated",
            Emission::Killed => "starnet-killed",
        }
    }
}

/// The fixed payload of the initialization notification.
pub fn init_payload() -> (r: &'static str)
    ensures
        r@ == "starnet init"@,
{
    "starnet init"
}

/// The fixed payload of the kill notification.
pub fn killed_payload() -> (r: &'static str)
    ensures
        r@ == "starnet_killed"@,
{
    "starnet_killed"
}

/// The fixed stimulus message periodically written into a supervised
/// process's input stream.
pub fn stimulus_message() -> (r: &'static str)
    ensures
        r@ == "message from Rust\n"@,
{
    "message from Rust\n"
}

/// How many relayed events trigger one stimulus write.
pub const STIMULUS_PERIOD: u32 = 4;

/// Counts the events relayed since the last stimulus write, scoped to one
/// supervised process's lifetime.
#[derive(Clone, Copy, PartialEq, Eq, Debug, Structural)]
pub struct LineCounter {
    pub count: u32,
}

impl LineCounter {
    /// The count stays below the stimulus period.
    pub open spec fn wf(self) -> bool {
        self.count < 4
    }

    /// A fresh counter for a newly started process.
    pub fn new() -> (r: Self)
        ensures
            r.wf(),
            r.count == 0,
    {
        LineCounter { count: 0 }
    }

    /// Records one relayed event: reports whether the stimulus write is now
    /// due (after every fourth event) and resets the count when it is.
    pub fn record_event(&mut self) -> (write_due: bool)
        requires
            old(self).wf(),
        ensures
            final(self).wf(),
            write_due == (old(self).count == 3),
            final(self).count == (if old(self).count == 3 {
                0int
            } else {
                old(self).count + 1
            }),
    {
        self.count = self.count + 1;
        if self.count == STIMULUS_PERIOD {
            self.count = 0;
            true
        } else {
            false
        }
    }
}

/// The emission that relays one output event: the original payload, on the
/// event's tag-specific channel.
pub open spec fn emission_of(e: OutputEvent) -> Emission {
    match e {
        OutputEvent::Stdout(line) => Emission::Stdout(line),
        OutputEvent::Stderr(line) => Emission::Stderr(line),
        OutputEvent::Terminated(info) => Emission::Terminated(info),
    }
}

/// One step of the relay loop: relays the event on its tag-specific channel,
/// carrying the original payload, and records it against the stimulus
/// counter, uniformly across all three event tags.
pub fn relay_step(counter: &mut LineCounter, event: OutputEvent) -> (r: (Emission, bool))
    requires
        old(counter).wf(),
    ensures
        final(counter).wf(),
        r.0 == emission_of(event),
        r.1 == (old(counter).count == 3),
        final(counter).count == (if old(counter).count == 3 {
            0int
        } else {
            old(counter).count + 1
        }),
{
    let write_due = counter.record_event();
    let emission = match event {
        OutputEvent::Stdout(line) => Emission::Stdout(line),
        OutputEvent::Stderr(line) => Emission::Stderr(line),
        OutputEvent::Terminated(info) => Emission::Terminated(info),
    };
    (emission, write_due)
}

/// The full outbound plan of one supervised run: the initialization
/// notification, the process-id notification, then one relayed emission per
/// output event, in delivery order.
pub open spec fn relay_plan(pid: u32, events: Seq<OutputEvent>) -> Seq<Emission> {
    seq![Emission::Init, Emission::Pid(pid)] + events.map_values(|e: OutputEvent| emission_of(e))
}

/// Whether the stimulus write is due right after relaying the event at index
/// `i`: after every fourth event.
pub open spec fn stimulus_due(i: int) -> bool {
    (i + 1) % 4 == 0
}

/// What one run of the relay loop does: every outbound emission in order, the
/// per-event stimulus schedule, and how many writes were attempted and
/// delivered.
pub struct DrivePlan {
    pub emissions: Vec<Emission>,
    pub writes: Vec<bool>,
    pub attempted: usize,
    pub delivered: usize,
}

/// Replays one supervised run's whole event source through the relay loop.
/// The emissions are the relay plan for the run; the stimulus write is due
/// after every fourth event, `len / 4` times in all. The writes are best
/// effort: against a closed input stream none is delivered, and nothing else
/// — neither the emissions, nor the schedule, nor the loop's completion —
/// depends on the input stream's state.
pub fn drive_events(pid: u32, events: Vec<OutputEvent>, input_closed: bool) -> (r: DrivePlan)
    ensures
        r.emissions@ == relay_plan(pid, events@),
        r.writes@.len() == events@.len(),
        forall|i: int| 0 <= i < events@.len() ==> r.writes@[i] == stimulus_due(i),
        r.attempted == events@.len() as int / 4,
        r.delivered == if input_closed {
            0int
        } else {
            events@.len() as int / 4
        },
{
    let ghost orig = events@;
    let mut queue = events;
    let n = queue.len();
    let mut emissions: Vec<Emission> = Vec::new();
    let mut writes: Vec<bool> = Vec::new();
    let mut attempted: usize = 0;
    let mut delivered: usize = 0;
    let mut counter = LineCounter::new();
    emissions.push(Emission::Init);
    emissions.push(Emission::Pid(pid));
    proof {
        assert(orig.subrange(0, 0) =~= Seq::<OutputEvent>::empty());
        assert(emissions@ =~= relay_plan(pid, orig.subrange(0, 0)));
    }
    let mut i: usize = 0;
    while i < n
        invariant
            i <= n,
            n == orig.len(),
            queue@ == orig.subrange(i as int, n as int),
            counter.wf(),
            counter.count as int == i as int % 4,
            emissions@ == relay_plan(pid, orig.subrange(0, i as int)),
            writes@.len() == i,
            forall|j: int| 0 <= j < i ==> writes@[j] == stimulus_due(j),
            attempted == i as int / 4,
            delivered == if input_closed {
                0int
            } else {
                i as int / 4
            },
        decreases n - i,
    {
        proof {
            assert(queue@.len() == n - i);
        }
        let event = queue.remove(0);
        proof {
            assert(event == orig[i as int]);
            assert(queue@ =~= orig.subrange(i + 1, n as int));
        }
        let (emission, write_due) = relay_step(&mut counter, event);
        emissions.push(emission);
        writes.push(write_due);
        if write_due {
            attempted = attempted + 1;
            if !input_closed {
                delivered = delivered + 1;
            }
        }
        proof {
            vstd::arithmetic::div_mod::lemma_fundamental_div_mod(i as int, 4);
            vstd::arithmetic::div_mod::lemma_fundamental_div_mod(i as int + 1, 4);
            assert(emissions@ =~= relay_plan(pid, orig.subrange(0, i as int + 1)));
            assert(write_due == stimulus_due(i as int));
        }
        i = i + 1;
    }
    proof {
        assert(orig.subrange(0, n as int) =~= orig);
    }
    DrivePlan { emissions, writes, attempted, delivered }
}

/// Law: draining one supervised process's output source yields exactly one
/// initialization notification first, exactly one process-id notification
/// second, then the process's output relayed in delivery order; and when the
/// source ends with its single termination record, the plan carries exactly
/// one terminated emission, in the last position.
pub proof fn lemma_channel_sequence(pid: u32, events: Seq<OutputEvent>)
    requires
        events.len() > 0,
        events.last() is Terminated,
        forall|i: int| 0 <= i < events.len() - 1 ==> !((#[trigger] events[i]) is Terminated),
    ensures
        relay_plan(pid, events).len() == events.len() + 2,
        relay_plan(pid, events)[0] == Emission::Init,
        relay_plan(pid, events)[1] == Emission::Pid(pid),
        forall|i: int|
            0 <= i < events.len() ==> relay_plan(pid, events)[2 + i] == emission_of(
                #[trigger] events[i],
            ),
        relay_plan(pid, events).last() is Terminated,
        forall|j: int|
            0 <= j < relay_plan(pid, events).len() - 1 ==> !((#[trigger] relay_plan(
                pid,
                events,
            )[j]) is Terminated),
{
    let plan = relay_plan(pid, events);
    assert forall|i: int| 0 <= i < events.len() implies plan[2 + i] == emission_of(
        events[i],
    ) by {
        assert(events.map_values(|e: OutputEvent| emission_of(e))[i] == emission_of(events[i]));
    }
    assert(plan.last() == emission_of(events.last()));
    assert forall|j: int| 0 <= j < plan.len() - 1 implies !(plan[j] is Terminated) by {
        if 2 <= j {
            assert(plan[j] == emission_of(events[j - 2]));
            assert(!(events[j - 2] is Terminated));
        }
    }
}

/// The lifecycle of one supervised process. Each start request creates a
/// fresh instance; nothing ever returns to `Idle`.
#[derive(Clone, Copy, PartialEq, Eq, Debug, Structural)]
pub enum RunState {
    Idle,
    Spawning,
    Running,
    Terminated,
    Killed,
}

/// What moves a supervised process's lifecycle forward.
#[derive(Clone, Copy, PartialEq, Eq, Debug, Structural)]
pub enum RunStep {
    StartRequested,
    Spawned,
    SourceExhausted,
    KilledExternally,
}

/// The allowed lifecycle transitions: a start request begins spawning, a
/// successful spawn starts the run, and a run ends either when its output
/// source is exhausted or when the process is killed externally.
pub open spec fn lifecycle_next(s: RunState, step: RunStep) -> Option<RunState> {
    match (s, step) {
        (RunState::Idle, RunStep::StartRequested) => Some(RunState::Spawning),
        (RunState::Spawning, RunStep::Spawned) => Some(RunState::Running),
        (RunState::Running, RunStep::SourceExhausted) => Some(RunState::Terminated),
        (RunState::Running, RunStep::KilledExternally) => Some(RunState::Killed),
        _ => None,
    }
}

/// Advances a supervised process's lifecycle by one step, exactly along the
/// transitions of `lifecycle_next`; any other step is refused.
pub fn advance_lifecycle(s: RunState, step: RunStep) -> (r: Option<RunState>)
    ensures
        r == lifecycle_next(s, step),
{
    match (s, step) {
        (RunState::Idle, RunStep::StartRequested) => Some(RunState::Spawning),
        (RunState::Spawning, RunStep::Spawned) => Some(RunState::Running),
        (RunState::Running, RunStep::SourceExhausted) => Some(RunState::Terminated),
        (RunState::Running, RunStep::KilledExternally) => Some(RunState::Killed),
        _ => None,
    }
}

/// Law: no lifecycle step ever returns to `Idle`, and the two end states are
/// final: nothing moves a terminated or killed run anywhere.
pub proof fn lemma_lifecycle_final_states(s: RunState, step: RunStep)
    ensures
        lifecycle_next(s, step) != Some(RunState::Idle),
        s == RunState::Terminated || s == RunState::Killed ==> lifecycle_next(s, step) is None,
{
}

/// The events of one of two concurrently supervised runs, in their delivery
/// order, within a merged delivery of both: `who` selects the run by its tag.
pub open spec fn project_run(merged: Seq<(bool, OutputEvent)>, who: bool) -> Seq<OutputEvent>
    decreases merged.len(),
{
    if merged.len() == 0 {
        Seq::empty()
    } else {
        let rest = project_run(merged.drop_last(), who);
        if merged.last().0 == who {
            rest.push(merged.last().1)
        } else {
            rest
        }
    }
}

/// Law: two concurrently supervised processes are independent. Their event
/// deliveries may interleave arbitrarily — `merged` is any interleaving, each
/// event tagged with the run it belongs to — yet each run's relayed output is
/// exactly the relay plan of its own events, internally ordered, and each
/// run's stimulus schedule counts its own events alone.
pub fn drive_interleaved(pid_a: u32, pid_b: u32, merged: Vec<(bool, OutputEvent)>) -> (r: (
    DrivePlan,
    DrivePlan,
))
    ensures
        r.0.emissions@ == relay_plan(pid_a, project_run(merged@, false)),
        r.1.emissions@ == relay_plan(pid_b, project_run(merged@, true)),
        r.0.writes@.len() == project_run(merged@, false).len(),
        r.1.writes@.len() == project_run(merged@, true).len(),
        forall|j: int|
            0 <= j < project_run(merged@, false).len() ==> r.0.writes@[j] == stimulus_due(j),
        forall|j: int|
            0 <= j < project_run(merged@, true).len() ==> r.1.writes@[j] == stimulus_due(j),
        r.0.attempted == project_run(merged@, false).len() as int / 4,
        r.1.attempted == project_run(merged@, true).len() as int / 4,
        r.0.delivered == r.0.attempted,
        r.1.delivered == r.1.attempted,
{
    let ghost orig = merged@;
    let mut queue = merged;
    let n = queue.len();
    let mut em_a: Vec<Emission> = Vec::new();
    let mut em_b: Vec<Emission> = Vec::new();
    let mut writes_a: Vec<bool> = Vec::new();
    let mut writes_b: Vec<bool> = Vec::new();
    let mut attempted_a: usize = 0;
    let mut attempted_b: usize = 0;
    let mut counter_a = LineCounter::new();
    let mut counter_b = LineCounter::new();
    em_a.push(Emission::Init);
    em_a.push(Emission::Pid(pid_a));
    em_b.push(Emission::Init);
    em_b.push(Emission::Pid(pid_b));
    proof {
        assert(orig.subrange(0, 0) =~= Seq::<(bool, OutputEvent)>::empty());
        assert(em_a@ =~= relay_plan(pid_a, project_run(orig.subrange(0, 0), false)));
        assert(em_b@ =~= relay_plan(pid_b, project_run(orig.subrange(0, 0), true)));
    }
    let mut i: usize = 0;
    while i < n
        invariant
            i <= n,
            n == orig.len(),
            queue@ == orig.subrange(i as int, n as int),
            counter_a.wf(),
            counter_b.wf(),
            counter_a.count as int == project_run(orig.subrange(0, i as int), false).len() as int
                % 4,
            counter_b.count as int == project_run(orig.subrange(0, i as int), true).len() as int
                % 4,
            em_a@ == relay_plan(pid_a, project_run(orig.subrange(0, i as int), false)),
            em_b@ == relay_plan(pid_b, project_run(orig.subrange(0, i as int), true)),
            writes_a@.len() == project_run(orig.subrange(0, i as int), false).len(),
            writes_b@.len() == project_run(orig.subrange(0, i as int), true).len(),
            writes_a@.len() + writes_b@.len() == i,
            forall|j: int| 0 <= j < writes_a@.len() ==> writes_a@[j] == stimulus_due(j),
            forall|j: int| 0 <= j < writes_b@.len() ==> writes_b@[j] == stimulus_due(j),
            attempted_a == project_run(orig.subrange(0, i as int), false).len() as int / 4,
            attempted_b == project_run(orig.subrange(0, i as int), true).len() as int / 4,
        decreases n - i,
    {
        proof {
            assert(queue@.len() == n - i);
        }
        let (tag, event) = queue.remove(0);
        proof {
            assert((tag, event) == orig[i as int]);
            assert(queue@ =~= orig.subrange(i + 1, n as int));
            assert(orig.subrange(0, i as int + 1).drop_last() =~= orig.subrange(0, i as int));
            assert(orig.subrange(0, i as int + 1).last() == orig[i as int]);
        }
        let ghost la = project_run(orig.subrange(0, i as int), false).len() as int;
        let ghost lb = project_run(orig.subrange(0, i as int), true).len() as int;
        if !tag {
            let (emission, write_due) = relay_step(&mut counter_a, event);
            em_a.push(emission);
            writes_a.push(write_due);
            if write_due {
                attempted_a = attempted_a + 1;
            }
            proof {
                vstd::arithmetic::div_mod::lemma_fundamental_div_mod(la, 4);
                vstd::arithmetic::div_mod::lemma_fundamental_div_mod(la + 1, 4);
                assert(em_a@ =~= relay_plan(
                    pid_a,
                    project_run(orig.subrange(0, i as int + 1), false),
                ));
                assert(write_due == stimulus_due(la));
            }
        } else {
            let (emission, write_due) = relay_step(&mut counter_b, event);
            em_b.push(emission);
            writes_b.push(write_due);
            if write_due {
                attempted_b = attempted_b + 1;
            }
            proof {
                vstd::arithmetic::div_mod::lemma_fundamental_div_mod(lb, 4);
                vstd::arithmetic::div_mod::lemma_fundamental_div_mod(lb + 1, 4);
                assert(em_b@ =~= relay_plan(
                    pid_b,
                    project_run(orig.subrange(0, i as int + 1), true),
                ));
                assert(write_due == stimulus_due(lb));
            }
        }
        i = i + 1;
    }
    proof {
        assert(orig.subrange(0, n as int) =~= orig);
    }
    let plan_a = DrivePlan { emissions: em_a, writes: writes_a, attempted: attempted_a, delivered: attempted_a };
    let plan_b = DrivePlan { emissions: em_b, writes: writes_b, attempted: attempted_b, delivered: attempted_b };
    (plan_a, plan_b)
}

} // verus!
