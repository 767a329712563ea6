use sshtunnel_manager::command::{
    command_failure_message, exit_status_message, failed_action_status, journal_line_from_output,
    join_words, last_line_args, listed_status, logs_args, show_args, show_failure_message,
    systemctl_args, unit_activity, UnitAction,
};
use sshtunnel_manager::TunnelStatus;

#[test]
fn systemctl_args_per_action() {
    let unit = "sshtunnel@demo.service";
    assert_eq!(systemctl_args(UnitAction::Start, unit), vec!["--user", "start", unit]);
    assert_eq!(systemctl_args(UnitAction::Stop, unit), vec!["--user", "stop", unit]);
    assert_eq!(
        systemctl_args(UnitAction::Status, unit),
        vec!["--user", "status", "--no-pager", unit]
    );
    assert_eq!(
        systemctl_args(UnitAction::Enable, unit),
        vec!["--user", "enable", "--now", unit]
    );
    assert_eq!(
        systemctl_args(UnitAction::Disable, unit),
        vec!["--user", "disable", "--now", unit]
    );
}

#[test]
fn show_and_journal_args() {
    assert_eq!(
        show_args("u.service"),
        vec![
            "--user",
            "show",
            "u.service",
            "--property=ActiveState",
            "--property=SubState",
            "--property=Result",
            "--property=ExecMainStatus",
            "--property=ExecMainCode"
        ]
    );
    assert_eq!(
        last_line_args("u.service"),
        vec!["--user", "-u", "u.service", "-n", "1", "--no-pager", "-o", "cat"]
    );
}

#[test]
fn logs_args_with_and_without_follow() {
    assert_eq!(
        logs_args("u.service", 100, false),
        vec!["--user", "-u", "u.service", "-n", "100", "--no-pager"]
    );
    assert_eq!(
        logs_args("u.service", 0, true),
        vec!["--user", "-u", "u.service", "-n", "0", "--no-pager", "-f"]
    );
    let big = logs_args("u", usize::MAX, false);
    assert_eq!(big[4], usize::MAX.to_string());
}

#[test]
fn join_words_spaces() {
    assert_eq!(join_words(&[]), "");
    assert_eq!(join_words(&["a"]), "a");
    assert_eq!(join_words(&["--user", "start", "x"]), "--user start x");
}

#[test]
fn command_failure_message_prefers_stderr() {
    let args = ["--user", "start", "sshtunnel@a.service"];
    assert_eq!(
        command_failure_message("systemctl", &args, "exit status: 5", "  Unit not found.\n", "out"),
        "systemctl --user start sshtunnel@a.service exited with status exit status: 5: Unit not found."
    );
    assert_eq!(
        command_failure_message("systemctl", &args, "exit status: 1", " \n", " some output "),
        "systemctl --user start sshtunnel@a.service exited with status exit status: 1: some output"
    );
    assert_eq!(
        command_failure_message("systemctl", &args, "exit status: 1", "", "\t"),
        "systemctl --user start sshtunnel@a.service exited with status exit status: 1"
    );
    assert_eq!(
        command_failure_message("true", &[], "exit status: 1", "", ""),
        "true  exited with status exit status: 1"
    );
}

#[test]
fn exit_and_show_failure_messages() {
    assert_eq!(
        exit_status_message("journalctl", "exit status: 1"),
        "journalctl exited with status exit status: 1"
    );
    assert_eq!(
        show_failure_message("u.service", "exit status: 1", " Failed to connect to bus\n"),
        "systemctl --user show u.service failed (exit status: 1): Failed to connect to bus"
    );
}

#[test]
fn journal_line_from_output_cases() {
    assert_eq!(journal_line_from_output(true, "  last line \n"), "last line");
    assert_eq!(journal_line_from_output(false, "ignored"), "");
}

#[test]
fn unit_activity_cases() {
    assert_eq!(unit_activity(false, ""), "inactive");
    assert_eq!(unit_activity(true, ""), "unknown");
    assert_eq!(unit_activity(false, "  \n"), "unknown");
    assert_eq!(unit_activity(false, "failed\n"), "failed");
    assert_eq!(unit_activity(true, "active\n"), "active");
}

#[test]
fn failed_action_status_cases() {
    let known = TunnelStatus { status: "connecting".into(), message: String::new() };
    let kept = failed_action_status(Some(known), "boom");
    assert_eq!(kept.status, "connecting");
    assert_eq!(kept.message, "");
    let fallback = failed_action_status(None, "systemctl --user start x exited with status 1");
    assert_eq!(fallback.status, "failed");
    assert_eq!(fallback.message, "systemctl --user start x exited with status 1");
}

#[test]
fn listed_status_cases() {
    let st = TunnelStatus { status: "connected".into(), message: String::new() };
    assert_eq!(listed_status(Some(st)), "connected");
    assert_eq!(listed_status(None), "disconnected");
}
