use batchrun::command::CommandSpec;
use batchrun::dispatch::{dispatch_plan, interpreter_for};
use batchrun::command::label_of;

#[test]
fn interpreter_posix() {
    let (program, flag) = interpreter_for(false);
    assert_eq!(program, "sh");
    assert_eq!(flag, "-c");
}

#[test]
fn interpreter_windows() {
    let (program, flag) = interpreter_for(true);
    assert_eq!(program, "cmd");
    assert_eq!(flag, "/C");
}

#[test]
fn shell_line_plan_posix() {
    let spec = CommandSpec::ShellLine("echo X".to_string());
    let inv = dispatch_plan(&spec, false);
    assert_eq!(inv.program, "sh");
    assert_eq!(inv.args, vec!["-c".to_string(), "echo X".to_string()]);
    assert_eq!(inv.working_directory, None);
    assert!(inv.should_wait);
}

#[test]
fn shell_line_plan_windows() {
    let spec = CommandSpec::ShellLine("echo X".to_string());
    let inv = dispatch_plan(&spec, true);
    assert_eq!(inv.program, "cmd");
    assert_eq!(inv.args, vec!["/C".to_string(), "echo X".to_string()]);
    assert!(inv.should_wait);
}

#[test]
fn direct_plan_spawn_only_not_awaited() {
    let spec = CommandSpec::DirectExecution {
        program: "prog".to_string(),
        working_directory: Some("/tmp".to_string()),
        args: vec!["a".to_string()],
        spawn_only: true,
    };
    let inv = dispatch_plan(&spec, false);
    assert_eq!(inv.program, "prog");
    assert_eq!(inv.args, vec!["a".to_string()]);
    assert_eq!(inv.working_directory, Some("/tmp".to_string()));
    assert!(!inv.should_wait);
}

#[test]
fn direct_plan_waits_by_default() {
    let spec = CommandSpec::DirectExecution {
        program: "prog".to_string(),
        working_directory: None,
        args: vec![],
        spawn_only: false,
    };
    let inv = dispatch_plan(&spec, false);
    assert_eq!(inv.program, "prog");
    assert_eq!(inv.working_directory, None);
    assert!(inv.should_wait);
}

#[test]
fn label_of_shell_line_is_verbatim() {
    let spec = CommandSpec::ShellLine("echo hi".to_string());
    assert_eq!(label_of(&spec), "echo hi");
}

#[test]
fn label_of_direct_execution() {
    let spec = CommandSpec::DirectExecution {
        program: "prog".to_string(),
        working_directory: Some("/tmp".to_string()),
        args: vec!["a".to_string(), "b".to_string()],
        spawn_only: false,
    };
    assert_eq!(label_of(&spec), "prog in /tmp with [a, b]");
}

#[test]
fn label_of_direct_execution_defaults() {
    let spec = CommandSpec::DirectExecution {
        program: "prog".to_string(),
        working_directory: None,
        args: vec![],
        spawn_only: false,
    };
    assert_eq!(label_of(&spec), "prog in . with []");
}
