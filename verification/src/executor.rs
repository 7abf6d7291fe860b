//! The run semantics: what each process event is reported as, and how a run
//! walks its batches — a failing single command aborts the run, a parallel
//! group always completes and reports every member.
//!
//! Starting and awaiting processes is the unverified caller's work; it hands
//! each dispatched command's outcome back as a [`CmdEvent`]. The functions
//! here turn those events into reports, for every event value.

use vstd::prelude::*;
use vstd::string::StringExecFns;
use crate::command::{
    Batch, BatchModel, CmdModel, CommandSpec, batches_view, label_model, label_of,
};
use crate::dispatch::{interpreter_model, plan_model};

verus! {

/// What happened to one dispatched command: the OS refused to start it, it
/// was started without being awaited, or it was awaited and either its
/// captured standard-output bytes or an I/O failure came back.
#[derive(Debug, Clone, PartialEq, Eq)]
pub enum CmdEvent {
    SpawnFailed(String),
    Spawned,
    WaitOutput(Vec<u8>),
    WaitFailed(String),
}

/// The abstract value of a [`CmdEvent`].
pub enum EventModel {
    SpawnFailed(Seq<char>),
    Spawned,
    WaitOutput(Seq<u8>),
    WaitFailed(Seq<char>),
}

impl View for CmdEvent {
    type V = EventModel;

    open spec fn view(&self) -> EventModel {
        match self {
            CmdEvent::SpawnFailed(m) => EventModel::SpawnFailed(m@),
            CmdEvent::Spawned => EventModel::Spawned,
            CmdEvent::WaitOutput(b) => EventModel::WaitOutput(b@),
            CmdEvent::WaitFailed(m) => EventModel::WaitFailed(m@),
        }
    }
}

/// The body of one command's report: its captured output, the marker for a
/// process that was only started, or a failure with the OS message.
#[derive(Debug, Clone, PartialEq, Eq)]
pub enum ReportBody {
    Output(String),
    SpawnedMarker(String),
    StartFailure(String),
    WaitFailure(String),
}

/// The abstract value of a [`ReportBody`].
pub enum BodyModel {
    Output(Seq<char>),
    SpawnedMarker(Seq<char>),
    StartFailure(Seq<char>),
    WaitFailure(Seq<char>),
}

impl View for ReportBody {
    type V = BodyModel;

    open spec fn view(&self) -> BodyModel {
        match self {
            ReportBody::Output(o) => BodyModel::Output(o@),
            ReportBody::SpawnedMarker(m) => BodyModel::SpawnedMarker(m@),
            ReportBody::StartFailure(m) => BodyModel::StartFailure(m@),
            ReportBody::WaitFailure(m) => BodyModel::WaitFailure(m@),
        }
    }
}

/// What is reported for one command: its label and a body.
#[derive(Debug, Clone, PartialEq, Eq)]
pub struct CommandReport {
    pub label: String,
    pub body: ReportBody,
}

/// The abstract value of a [`CommandReport`].
pub struct ReportModel {
    pub label: Seq<char>,
    pub body: BodyModel,
}

impl View for CommandReport {
    type V = ReportModel;

    open spec fn view(&self) -> ReportModel {
        ReportModel { label: self.label@, body: self.body@ }
    }
}

/// The views of a sequence of events.
pub open spec fn events_view(s: Seq<CmdEvent>) -> Seq<EventModel> {
    s.map_values(|e: CmdEvent| e@)
}

/// The views of a sequence of reports.
pub open spec fn reports_view(s: Seq<CommandReport>) -> Seq<ReportModel> {
    s.map_values(|r: CommandReport| r@)
}

/// What `String::from_utf8_lossy` decodes the given bytes to; a function of
/// the bytes alone.
pub uninterp spec fn lossy_utf8(bytes: Seq<u8>) -> Seq<char>;

/// Relies on `String::from_utf8_lossy`: decodes the bytes as UTF-8, replacing
/// invalid sequences with the replacement character; the result depends on
/// the bytes alone.
#[verifier::external_body]
fn decode_lossy(bytes: &Vec<u8>) -> (r: String)
    ensures
        r@ == lossy_utf8(bytes@),
{
    String::from_utf8_lossy(bytes).into_owned()
}

/// Whether the event is a failure: the process could not be started, or
/// waiting for it (or reading its output) failed.
pub open spec fn is_failure(ev: EventModel) -> bool {
    match ev {
        EventModel::SpawnFailed(_) => true,
        EventModel::WaitFailed(_) => true,
        EventModel::Spawned => false,
        EventModel::WaitOutput(_) => false,
    }
}

/// Returns whether `ev` is a failure event.
pub fn event_is_failure(ev: &CmdEvent) -> (b: bool)
    ensures
        b == is_failure(ev@),
{
    match ev {
        CmdEvent::SpawnFailed(_) => true,
        CmdEvent::WaitFailed(_) => true,
        CmdEvent::Spawned => false,
        CmdEvent::WaitOutput(_) => false,
    }
}

/// The report for one command and the event its dispatch produced: the
/// command's label, and as body the decoded captured output, the marker
/// `spawned <label>`, or the failure with the OS message.
pub open spec fn report_model(c: CmdModel, ev: EventModel) -> ReportModel {
    ReportModel {
        label: label_model(c),
        body: match ev {
            EventModel::SpawnFailed(m) => BodyModel::StartFailure(m),
            EventModel::Spawned => BodyModel::SpawnedMarker("spawned "@ + label_model(c)),
            EventModel::WaitOutput(b) => BodyModel::Output(lossy_utf8(b)),
            EventModel::WaitFailed(m) => BodyModel::WaitFailure(m),
        },
    }
}

/// Builds the report for `spec` and the event its dispatch produced.
pub fn command_report(spec: &CommandSpec, event: CmdEvent) -> (r: CommandReport)
    ensures
        r@ == report_model(spec@, event@),
{
    let label = label_of(spec);
    let body = match event {
        CmdEvent::SpawnFailed(m) => ReportBody::StartFailure(m),
        CmdEvent::Spawned => ReportBody::SpawnedMarker(
            String::from_str("spawned ").concat(label.as_str()),
        ),
        CmdEvent::WaitOutput(bytes) => ReportBody::Output(decode_lossy(&bytes)),
        CmdEvent::WaitFailed(m) => ReportBody::WaitFailure(m),
    };
    CommandReport { label, body }
}

/// The text of a report's body.
pub open spec fn body_text(b: BodyModel) -> Seq<char> {
    match b {
        BodyModel::Output(o) => o,
        BodyModel::SpawnedMarker(m) => m,
        BodyModel::StartFailure(m) => "failed to start: "@ + m,
        BodyModel::WaitFailure(m) => "failed while waiting: "@ + m,
    }
}

/// One report rendered as text: the label, a line break, and the body.
pub open spec fn render_model(r: ReportModel) -> Seq<char> {
    r.label + "\n"@ + body_text(r.body)
}

/// Renders `r` as the text the runner emits for it, in one piece so that the
/// caller can print it atomically.
pub fn render_report(r: &CommandReport) -> (s: String)
    ensures
        s@ == render_model(r@),
{
    let mut s = r.label.clone();
    s.append("\n");
    match &r.body {
        ReportBody::Output(o) => s.append(o.as_str()),
        ReportBody::SpawnedMarker(m) => s.append(m.as_str()),
        ReportBody::StartFailure(m) => {
            s.append("failed to start: ");
            s.append(m.as_str());
        },
        ReportBody::WaitFailure(m) => {
            s.append("failed while waiting: ");
            s.append(m.as_str());
        },
    }
    s
}

/// How many commands a batch dispatches.
pub open spec fn batch_size(b: BatchModel) -> nat {
    match b {
        BatchModel::Single { cmd: _ } => 1,
        BatchModel::Parallel { cmds } => cmds.len(),
    }
}

/// How many commands a run of `bs` would dispatch if no batch aborted.
pub open spec fn total_size(bs: Seq<BatchModel>) -> nat
    decreases bs.len(),
{
    if bs.len() == 0 {
        0
    } else {
        batch_size(bs[0]) + total_size(bs.drop_first())
    }
}

/// The reports of a run and whether it aborted, given the batches and the
/// trace of events their commands would produce, one event per command in
/// dispatch order.
///
/// Batches run strictly in order. A single command is reported and, when its
/// event is a failure, aborts the run: no later command is dispatched and no
/// later event is read. A parallel group reports every member, one event
/// each, and never aborts the run — a member's failure is local data in its
/// report, so the group's other members and the later batches still run.
pub open spec fn run_model(bs: Seq<BatchModel>, evs: Seq<EventModel>) -> (Seq<ReportModel>, bool)
    decreases bs.len(),
{
    if bs.len() == 0 {
        (Seq::<ReportModel>::empty(), false)
    } else {
        match bs[0] {
            BatchModel::Single { cmd } => {
                if is_failure(evs[0]) {
                    (seq![report_model(cmd, evs[0])], true)
                } else {
                    let rest = run_model(bs.drop_first(), evs.drop_first());
                    (seq![report_model(cmd, evs[0])] + rest.0, rest.1)
                }
            },
            BatchModel::Parallel { cmds } => {
                let group = Seq::new(cmds.len(), |i: int| report_model(cmds[i], evs[i]));
                let rest = run_model(bs.drop_first(), evs.skip(cmds.len() as int));
                (group + rest.0, rest.1)
            },
        }
    }
}

fn run_from(batches: &Vec<Batch>, bi: usize, events: &mut Vec<CmdEvent>) -> (r: (
    Vec<CommandReport>,
    bool,
))
    requires
        bi <= batches@.len(),
        old(events)@.len() == total_size(batches_view(batches@).skip(bi as int)),
    ensures
        reports_view(r.0@) == run_model(
            batches_view(batches@).skip(bi as int),
            events_view(old(events)@),
        ).0,
        r.1 == run_model(batches_view(batches@).skip(bi as int), events_view(old(events)@)).1,
    decreases batches@.len() - bi,
{
    let ghost bv = batches_view(batches@);
    let ghost full = events@;
    if bi == batches.len() {
        proof {
            assert(bv.skip(bi as int) =~= Seq::<BatchModel>::empty());
        }
        (Vec::new(), false)
    } else {
        proof {
            assert(bv.skip(bi as int)[0] == batches@[bi as int]@);
            assert(bv.skip(bi as int).drop_first() =~= bv.skip(bi + 1));
        }
        match &batches[bi] {
            Batch::Single(cmd) => {
                let ev = events.remove(0);
                proof {
                    assert(events@ =~= full.drop_first());
                    assert(events_view(full)[0] == ev@);
                    assert(events_view(full.drop_first()) =~= events_view(full).drop_first());
                }
                let failed = event_is_failure(&ev);
                let rep = command_report(cmd, ev);
                let mut out: Vec<CommandReport> = Vec::new();
                out.push(rep);
                if failed {
                    proof {
                        assert(reports_view(out@) =~= seq![
                            report_model(batches@[bi as int]@->Single_cmd, events_view(full)[0]),
                        ]);
                    }
                    (out, true)
                } else {
                    let (mut more, aborted) = run_from(batches, bi + 1, events);
                    out.append(&mut more);
                    proof {
                        assert(reports_view(out@) =~= seq![
                            report_model(batches@[bi as int]@->Single_cmd, events_view(full)[0]),
                        ] + run_model(bv.skip(bi + 1), events_view(full).drop_first()).0);
                    }
                    (out, aborted)
                }
            },
            Batch::Parallel(cmds) => {
                let ghost cm = batches@[bi as int]@->Parallel_cmds;
                proof {
                    assert(bv.len() == batches@.len());
                    assert(bv.skip(bi as int).len() == bv.len() - bi);
                    assert(total_size(bv.skip(bi as int)) == batch_size(bv.skip(bi as int)[0])
                        + total_size(bv.skip(bi as int).drop_first()));
                }
                let mut out: Vec<CommandReport> = Vec::new();
                let mut j: usize = 0;
                while j < cmds.len()
                    invariant
                        j <= cmds.len(),
                        cm == batches@[bi as int]@->Parallel_cmds,
                        cm.len() == cmds@.len(),
                        cm.len() <= full.len(),
                        forall|k: int| 0 <= k < cmds@.len() ==> cm[k] == cmds@[k]@,
                        events@ =~= full.skip(j as int),
                        full.len() == total_size(bv.skip(bi as int)),
                        reports_view(out@) =~= Seq::new(
                            j as nat,
                            |i: int| report_model(cm[i], events_view(full)[i]),
                        ),
                    decreases cmds@.len() - j,
                {
                    proof {
                        assert(events_view(full).len() == full.len());
                        assert(events_view(full)[j as int] == full[j as int]@);
                    }
                    let ev = events.remove(0);
                    proof {
                        assert(full.skip(j as int)[0] == full[j as int]);
                        assert(full.skip(j as int).drop_first() =~= full.skip(j + 1));
                    }
                    let rep = command_report(&cmds[j], ev);
                    let ghost prev = out@;
                    let ghost repg = rep;
                    out.push(rep);
                    proof {
                        assert(ev@ == events_view(full)[j as int]);
                        assert(repg@ == report_model(cm[j as int], events_view(full)[j as int]));
                        assert(out@ == prev.push(repg));
                        assert(reports_view(prev).len() == prev.len());
                        assert(prev.len() == j as int);
                        assert(out@.len() == j + 1);
                        assert forall|i: int| 0 <= i < j + 1 implies reports_view(out@)[i]
                            == report_model(cm[i], events_view(full)[i]) by {
                            assert(reports_view(out@)[i] == out@[i]@);
                            if i < j {
                                assert(out@[i] == prev[i]);
                                assert(prev[i]@ == reports_view(prev)[i]);
                            } else {
                                assert(out@[i] == repg);
                            }
                        }
                        assert(reports_view(out@) =~= Seq::new(
                            (j + 1) as nat,
                            |i: int| report_model(cm[i], events_view(full)[i]),
                        ));
                    }
                    j += 1;
                }
                proof {
                    assert(events@ =~= full.skip(cmds@.len() as int));
                    assert(events_view(full.skip(cmds@.len() as int)) =~= events_view(full).skip(
                        cmds@.len() as int,
                    ));
                }
                let (mut more, aborted) = run_from(batches, bi + 1, events);
                out.append(&mut more);
                proof {
                    assert(reports_view(out@) =~= Seq::new(
                        cm.len(),
                        |i: int| report_model(cm[i], events_view(full)[i]),
                    ) + run_model(bv.skip(bi + 1), events_view(full).skip(cm.len() as int)).0);
                }
                (out, aborted)
            },
        }
    }
}

/// Law: a shell line is always awaited, and its planned invocation is the
/// host interpreter with its flag and the line's text verbatim.
pub proof fn lemma_shell_line_awaited(text: Seq<char>, windows: bool)
    ensures
        plan_model(CmdModel::Shell { text }, windows).should_wait,
        plan_model(CmdModel::Shell { text }, windows).program == interpreter_model(windows).0,
        plan_model(CmdModel::Shell { text }, windows).args == seq![
            interpreter_model(windows).1,
            text,
        ],
        label_model(CmdModel::Shell { text }) == text,
{
}

/// Law: a spawn-only direct execution is not awaited, and a started process
/// that is not awaited is reported with the `spawned <label>` marker.
pub proof fn lemma_spawn_only_not_awaited(
    program: Seq<char>,
    working_directory: Option<Seq<char>>,
    args: Seq<Seq<char>>,
    windows: bool,
)
    ensures
        ({
            let c = CmdModel::Direct { program, working_directory, args, spawn_only: true };
            &&& !plan_model(c, windows).should_wait
            &&& report_model(c, EventModel::Spawned).body == BodyModel::SpawnedMarker(
                "spawned "@ + label_model(c),
            )
        }),
{
}

/// Law: a direct execution that is not spawn-only is awaited, and the bytes
/// captured from an awaited process are reported, decoded, as the body.
pub proof fn lemma_awaited_output_reported(
    program: Seq<char>,
    working_directory: Option<Seq<char>>,
    args: Seq<Seq<char>>,
    windows: bool,
    bytes: Seq<u8>,
)
    ensures
        ({
            let c = CmdModel::Direct { program, working_directory, args, spawn_only: false };
            &&& plan_model(c, windows).should_wait
            &&& report_model(c, EventModel::WaitOutput(bytes)).body == BodyModel::Output(
                lossy_utf8(bytes),
            )
        }),
{
}

/// Law: a run of one parallel group of `n` commands consumes exactly its `n`
/// events, reports every command under its own label, never aborts, and the
/// reported labels are exactly the commands' labels as a multiset (the order
/// within a group is unconstrained).
pub proof fn lemma_parallel_group_complete(cmds: Seq<CmdModel>, evs: Seq<EventModel>)
    requires
        evs.len() == cmds.len(),
    ensures
        ({
            let r = run_model(seq![BatchModel::Parallel { cmds }], evs);
            &&& r.0.len() == cmds.len()
            &&& forall|i: int|
                0 <= i < cmds.len() ==> r.0[i] == report_model(cmds[i], evs[i])
            &&& r.0.map_values(|rm: ReportModel| rm.label).to_multiset() == cmds.map_values(
                |c: CmdModel| label_model(c),
            ).to_multiset()
            &&& r.1 == false
        }),
{
    let bs = seq![BatchModel::Parallel { cmds }];
    assert(bs.drop_first() =~= Seq::<BatchModel>::empty());
    assert(evs.skip(cmds.len() as int) =~= Seq::<EventModel>::empty());
    let r = run_model(bs, evs);
    let group = Seq::new(cmds.len(), |i: int| report_model(cmds[i], evs[i]));
    assert(bs[0] == BatchModel::Parallel { cmds });
    assert(run_model(bs.drop_first(), evs.skip(cmds.len() as int)) == run_model(
        Seq::<BatchModel>::empty(),
        Seq::<EventModel>::empty(),
    ));
    assert(run_model(Seq::<BatchModel>::empty(), Seq::<EventModel>::empty()).0
        == Seq::<ReportModel>::empty());
    assert(r.0 =~= group);
    assert(r.0.map_values(|rm: ReportModel| rm.label) =~= cmds.map_values(
        |c: CmdModel| label_model(c),
    ));
}

/// Law: in a run of two single batches whose first command's event is a
/// failure, the second command is never dispatched — only the first command's
/// report is produced, its event is the only one read, and the run aborts.
pub proof fn lemma_single_abort(a: CmdModel, b: CmdModel, evs: Seq<EventModel>)
    requires
        evs.len() >= 1,
        is_failure(evs[0]),
    ensures
        run_model(seq![BatchModel::Single { cmd: a }, BatchModel::Single { cmd: b }], evs).0
            == seq![report_model(a, evs[0])],
        run_model(seq![BatchModel::Single { cmd: a }, BatchModel::Single { cmd: b }], evs).1,
{
}

/// Runs the batches over the given event trace, one event per command in
/// dispatch order, and returns every command's report and whether the run
/// aborted on a failing single command.
pub fn execute_reports(batches: &Vec<Batch>, events: Vec<CmdEvent>) -> (r: (
    Vec<CommandReport>,
    bool,
))
    requires
        events@.len() == total_size(batches_view(batches@)),
    ensures
        reports_view(r.0@) == run_model(batches_view(batches@), events_view(events@)).0,
        r.1 == run_model(batches_view(batches@), events_view(events@)).1,
{
    let mut events = events;
    proof {
        assert(batches_view(batches@).skip(0) =~= batches_view(batches@));
    }
    run_from(batches, 0, &mut events)
}

} // verus!
