use batchrun::command::{Batch, CommandSpec};
use batchrun::executor::{
    CmdEvent, CommandReport, ReportBody, command_report, event_is_failure, execute_reports,
    render_report,
};

fn shell(text: &str) -> CommandSpec {
    CommandSpec::ShellLine(text.to_string())
}

#[test]
fn report_captured_output() {
    let r = command_report(&shell("echo hi"), CmdEvent::WaitOutput(b"hi\n".to_vec()));
    assert_eq!(r.label, "echo hi");
    assert_eq!(r.body, ReportBody::Output("hi\n".to_string()));
}

#[test]
fn report_invalid_utf8_is_replaced() {
    let r = command_report(&shell("x"), CmdEvent::WaitOutput(vec![0xff, 0xfe]));
    assert_eq!(r.body, ReportBody::Output("\u{fffd}\u{fffd}".to_string()));
}

#[test]
fn report_spawned_marker() {
    let spec = CommandSpec::DirectExecution {
        program: "prog".to_string(),
        working_directory: None,
        args: vec![],
        spawn_only: true,
    };
    let r = command_report(&spec, CmdEvent::Spawned);
    assert_eq!(r.body, ReportBody::SpawnedMarker("spawned prog in . with []".to_string()));
}

#[test]
fn report_start_failure() {
    let r = command_report(&shell("x"), CmdEvent::SpawnFailed("no such file".to_string()));
    assert_eq!(r.body, ReportBody::StartFailure("no such file".to_string()));
    let text = render_report(&r);
    assert_eq!(text, "x\nfailed to start: no such file");
}

#[test]
fn report_wait_failure() {
    let r = command_report(&shell("x"), CmdEvent::WaitFailed("broken pipe".to_string()));
    assert_eq!(r.body, ReportBody::WaitFailure("broken pipe".to_string()));
    let text = render_report(&r);
    assert_eq!(text, "x\nfailed while waiting: broken pipe");
}

#[test]
fn render_output_report() {
    let r = command_report(&shell("echo hi"), CmdEvent::WaitOutput(b"hi\n".to_vec()));
    assert_eq!(render_report(&r), "echo hi\nhi\n");
}

#[test]
fn failure_events_are_failures() {
    assert!(event_is_failure(&CmdEvent::SpawnFailed("e".to_string())));
    assert!(event_is_failure(&CmdEvent::WaitFailed("e".to_string())));
    assert!(!event_is_failure(&CmdEvent::Spawned));
    assert!(!event_is_failure(&CmdEvent::WaitOutput(vec![])));
}

#[test]
fn single_failure_aborts_and_skips_later_batches() {
    let batches = vec![Batch::Single(shell("bad")), Batch::Single(shell("good"))];
    let events = vec![
        CmdEvent::SpawnFailed("no such file".to_string()),
        CmdEvent::WaitOutput(b"never\n".to_vec()),
    ];
    let (reports, aborted) = execute_reports(&batches, events);
    assert!(aborted);
    assert_eq!(reports.len(), 1);
    assert_eq!(reports[0].label, "bad");
    assert_eq!(reports[0].body, ReportBody::StartFailure("no such file".to_string()));
}

#[test]
fn single_sequence_runs_in_order() {
    let batches = vec![Batch::Single(shell("one")), Batch::Single(shell("two"))];
    let events = vec![
        CmdEvent::WaitOutput(b"1\n".to_vec()),
        CmdEvent::WaitOutput(b"2\n".to_vec()),
    ];
    let (reports, aborted) = execute_reports(&batches, events);
    assert!(!aborted);
    assert_eq!(reports.len(), 2);
    assert_eq!(reports[0].label, "one");
    assert_eq!(reports[1].label, "two");
}

#[test]
fn parallel_group_reports_every_member() {
    let batches = vec![Batch::Parallel(vec![shell("a"), shell("b"), shell("c")])];
    let events = vec![
        CmdEvent::WaitOutput(b"a\n".to_vec()),
        CmdEvent::SpawnFailed("boom".to_string()),
        CmdEvent::WaitOutput(b"c\n".to_vec()),
    ];
    let (reports, aborted) = execute_reports(&batches, events);
    assert!(!aborted);
    assert_eq!(reports.len(), 3);
    let labels: Vec<String> = reports.iter().map(|r: &CommandReport| r.label.clone()).collect();
    assert!(labels.contains(&"a".to_string()));
    assert!(labels.contains(&"b".to_string()));
    assert!(labels.contains(&"c".to_string()));
}

#[test]
fn parallel_failure_does_not_stop_later_batches() {
    let batches = vec![
        Batch::Parallel(vec![shell("a"), shell("b")]),
        Batch::Single(shell("after")),
    ];
    let events = vec![
        CmdEvent::SpawnFailed("boom".to_string()),
        CmdEvent::WaitOutput(b"b\n".to_vec()),
        CmdEvent::WaitOutput(b"done\n".to_vec()),
    ];
    let (reports, aborted) = execute_reports(&batches, events);
    assert!(!aborted);
    assert_eq!(reports.len(), 3);
    assert_eq!(reports[2].label, "after");
    assert_eq!(reports[2].body, ReportBody::Output("done\n".to_string()));
}

#[test]
fn parallel_pair_both_outputs_present() {
    let batches = vec![Batch::Parallel(vec![shell("sleep 1 && echo a"), shell("echo b")])];
    let events = vec![
        CmdEvent::WaitOutput(b"a\n".to_vec()),
        CmdEvent::WaitOutput(b"b\n".to_vec()),
    ];
    let (reports, aborted) = execute_reports(&batches, events);
    assert!(!aborted);
    assert_eq!(reports.len(), 2);
    let rendered: Vec<String> = reports.iter().map(|r: &CommandReport| render_report(r)).collect();
    assert!(rendered.iter().any(|s: &String| s.contains("a\n")));
    assert!(rendered.iter().any(|s: &String| s.contains("b\n")));
}

#[test]
fn spawn_only_single_does_not_abort() {
    let spec = CommandSpec::DirectExecution {
        program: "prog".to_string(),
        working_directory: None,
        args: vec![],
        spawn_only: true,
    };
    let batches = vec![Batch::Single(spec), Batch::Single(shell("next"))];
    let events = vec![CmdEvent::Spawned, CmdEvent::WaitOutput(b"n\n".to_vec())];
    let (reports, aborted) = execute_reports(&batches, events);
    assert!(!aborted);
    assert_eq!(reports.len(), 2);
    assert_eq!(reports[0].body, ReportBody::SpawnedMarker("spawned prog in . with []".to_string()));
}
