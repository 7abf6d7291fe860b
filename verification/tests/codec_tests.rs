use batchrun::codec::{
    DecodeError, Doc, Field, batch_from_doc, batches_from_doc, batches_to_doc, cmd_from_doc,
};
use batchrun::command::{Batch, CommandSpec, label_of};
use batchrun::executor::{CmdEvent, ReportBody, command_report};

fn field(name: &str, value: Doc) -> Field {
    Field { name: name.to_string(), value }
}

fn shell(text: &str) -> CommandSpec {
    CommandSpec::ShellLine(text.to_string())
}

#[test]
fn round_trip_shell_batches() {
    let batches = vec![
        Batch::Single(shell("echo hi")),
        Batch::Parallel(vec![shell("a"), shell("b")]),
    ];
    let docs = batches_to_doc(&batches);
    let back = batches_from_doc(&docs);
    assert_eq!(back, Ok(batches));
}

#[test]
fn round_trip_direct_execution() {
    let batches = vec![
        Batch::Single(CommandSpec::DirectExecution {
            program: "prog".to_string(),
            working_directory: Some("/tmp".to_string()),
            args: vec!["a".to_string(), "b".to_string()],
            spawn_only: true,
        }),
        Batch::Single(CommandSpec::DirectExecution {
            program: "other".to_string(),
            working_directory: None,
            args: vec![],
            spawn_only: false,
        }),
    ];
    let docs = batches_to_doc(&batches);
    let back = batches_from_doc(&docs);
    assert_eq!(back, Ok(batches));
}

#[test]
fn decode_single_command_scenario() {
    // the document [{Single: {Command: "echo hi"}}]
    let docs = vec![Doc::Fields(vec![field(
        "Single",
        Doc::Fields(vec![field("Command", Doc::Text("echo hi".to_string()))]),
    )])];
    let batches = batches_from_doc(&docs).unwrap();
    assert_eq!(batches, vec![Batch::Single(shell("echo hi"))]);
    let Batch::Single(cmd) = &batches[0] else { panic!() };
    assert_eq!(label_of(cmd), "echo hi");
    let report = command_report(cmd, CmdEvent::WaitOutput(b"hi\n".to_vec()));
    assert_eq!(report.label, "echo hi");
    assert_eq!(report.body, ReportBody::Output("hi\n".to_string()));
}

#[test]
fn decode_bare_string_is_single_shell_line() {
    let docs = vec![Doc::Text("echo hi".to_string())];
    let batches = batches_from_doc(&docs).unwrap();
    assert_eq!(batches, vec![Batch::Single(shell("echo hi"))]);
}

#[test]
fn decode_bare_list_is_parallel_group() {
    let docs = vec![Doc::Items(vec![
        Doc::Text("a".to_string()),
        Doc::Text("b".to_string()),
    ])];
    let batches = batches_from_doc(&docs).unwrap();
    assert_eq!(batches, vec![Batch::Parallel(vec![shell("a"), shell("b")])]);
}

#[test]
fn decode_parallel_tag() {
    let docs = vec![Doc::Fields(vec![field(
        "Parallel",
        Doc::Items(vec![
            Doc::Fields(vec![field("Command", Doc::Text("a".to_string()))]),
            Doc::Text("b".to_string()),
        ]),
    )])];
    let batches = batches_from_doc(&docs).unwrap();
    assert_eq!(batches, vec![Batch::Parallel(vec![shell("a"), shell("b")])]);
}

#[test]
fn decode_execution_defaults() {
    let doc = Doc::Fields(vec![field(
        "Execution",
        Doc::Fields(vec![field("command", Doc::Text("prog".to_string()))]),
    )]);
    let cmd = cmd_from_doc(&doc).unwrap();
    assert_eq!(
        cmd,
        CommandSpec::DirectExecution {
            program: "prog".to_string(),
            working_directory: None,
            args: vec![],
            spawn_only: false,
        }
    );
}

#[test]
fn decode_execution_all_fields() {
    let doc = Doc::Fields(vec![field(
        "Execution",
        Doc::Fields(vec![
            field("command", Doc::Text("prog".to_string())),
            field("working_directory", Doc::Text("/srv".to_string())),
            field(
                "args",
                Doc::Items(vec![Doc::Text("x".to_string()), Doc::Text("y".to_string())]),
            ),
            field("spawn_only", Doc::Flag(true)),
        ]),
    )]);
    let cmd = cmd_from_doc(&doc).unwrap();
    assert_eq!(
        cmd,
        CommandSpec::DirectExecution {
            program: "prog".to_string(),
            working_directory: Some("/srv".to_string()),
            args: vec!["x".to_string(), "y".to_string()],
            spawn_only: true,
        }
    );
}

#[test]
fn decode_first_field_wins_and_unknown_ignored() {
    let doc = Doc::Fields(vec![field(
        "Execution",
        Doc::Fields(vec![
            field("command", Doc::Text("first".to_string())),
            field("command", Doc::Text("second".to_string())),
            field("color", Doc::Text("green".to_string())),
        ]),
    )]);
    let cmd = cmd_from_doc(&doc).unwrap();
    assert_eq!(
        cmd,
        CommandSpec::DirectExecution {
            program: "first".to_string(),
            working_directory: None,
            args: vec![],
            spawn_only: false,
        }
    );
}

#[test]
fn decode_rejects_flag_as_batch() {
    let docs = vec![Doc::Flag(true)];
    assert_eq!(batches_from_doc(&docs), Err(DecodeError::Malformed));
}

#[test]
fn decode_rejects_missing_command_field() {
    let doc = Doc::Fields(vec![field(
        "Execution",
        Doc::Fields(vec![field("spawn_only", Doc::Flag(true))]),
    )]);
    assert_eq!(cmd_from_doc(&doc), Err(DecodeError::Malformed));
}

#[test]
fn decode_rejects_non_text_argument() {
    let doc = Doc::Fields(vec![field(
        "Execution",
        Doc::Fields(vec![
            field("command", Doc::Text("prog".to_string())),
            field("args", Doc::Items(vec![Doc::Flag(false)])),
        ]),
    )]);
    assert_eq!(cmd_from_doc(&doc), Err(DecodeError::Malformed));
}

#[test]
fn decode_rejects_wrong_spawn_only_shape() {
    let doc = Doc::Fields(vec![field(
        "Execution",
        Doc::Fields(vec![
            field("command", Doc::Text("prog".to_string())),
            field("spawn_only", Doc::Text("yes".to_string())),
        ]),
    )]);
    assert_eq!(cmd_from_doc(&doc), Err(DecodeError::Malformed));
}

#[test]
fn decode_rejects_unknown_tag() {
    let doc = Doc::Fields(vec![field("Sequential", Doc::Text("x".to_string()))]);
    assert_eq!(batch_from_doc(&doc), Err(DecodeError::Malformed));
}
