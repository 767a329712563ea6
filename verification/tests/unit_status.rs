use sshtunnel_manager::systemd::{apply_journal_line, parse_unit_props};
use sshtunnel_manager::{
    blank_as_default, friendly_failure_message, host_key_failure_message, map_systemd_status,
    TunnelStatus, UnitProps,
};

#[test]
fn maps_active_to_connected() {
    let status = map_systemd_status(&UnitProps {
        active_state: "active".into(),
        sub_state: "running".into(),
        ..UnitProps::default()
    });
    assert_eq!(status.status, "connected");
    assert!(status.message.is_empty());
}

#[test]
fn maps_failed_with_message() {
    let status = map_systemd_status(&UnitProps {
        active_state: "failed".into(),
        result: "exit-code".into(),
        exec_main_code: Some(1),
        exec_main_status: Some(255),
        ..UnitProps::default()
    });
    assert_eq!(status.status, "failed");
    assert!(status.message.contains("exit_status=255"));
}

#[test]
fn rewrites_unknown_host_key_failure_to_actionable_message() {
    let msg = host_key_failure_message("Host key verification failed.").expect("message");
    assert!(msg.contains("Host key not trusted yet"));
    assert!(msg.contains("Accept New"));
}

#[test]
fn prefers_journal_line_over_generic_systemd_failure() {
    let msg = friendly_failure_message(
        "systemd result=exit-code exit_status=255",
        "Connection refused",
    );
    assert_eq!(msg, "Connection refused");
}

fn props(active: &str) -> UnitProps {
    UnitProps {
        active_state: active.into(),
        ..UnitProps::default()
    }
}

#[test]
fn maps_each_active_state() {
    assert_eq!(map_systemd_status(&props("activating")).status, "connecting");
    assert_eq!(map_systemd_status(&props("inactive")).status, "disconnected");
    assert_eq!(map_systemd_status(&props("")).status, "disconnected");
    assert_eq!(map_systemd_status(&props("deactivating")).status, "disconnected");
    assert_eq!(map_systemd_status(&props("failed")).status, "failed");
}

#[test]
fn failed_message_exact_texts() {
    let full = map_systemd_status(&UnitProps {
        active_state: "failed".into(),
        result: "exit-code".into(),
        exec_main_code: Some(1),
        exec_main_status: Some(255),
        ..UnitProps::default()
    });
    assert_eq!(full.message, "systemd result=exit-code exec_code=1 exit_status=255");

    let no_code = map_systemd_status(&UnitProps {
        active_state: "failed".into(),
        exec_main_status: Some(-12),
        ..UnitProps::default()
    });
    assert_eq!(no_code.message, "systemd result=failed exit_status=-12");

    let result_only = map_systemd_status(&UnitProps {
        active_state: "failed".into(),
        result: "timeout".into(),
        sub_state: "failed".into(),
        ..UnitProps::default()
    });
    assert_eq!(result_only.message, "systemd result=timeout");

    let sub_only = map_systemd_status(&UnitProps {
        active_state: "failed".into(),
        sub_state: "dead".into(),
        ..UnitProps::default()
    });
    assert_eq!(sub_only.message, "systemd substate=dead");

    let nothing = map_systemd_status(&props("failed"));
    assert_eq!(nothing.message, "");
}

#[test]
fn message_only_for_failed_units() {
    let status = map_systemd_status(&UnitProps {
        active_state: "activating".into(),
        result: "exit-code".into(),
        exec_main_status: Some(3),
        ..UnitProps::default()
    });
    assert_eq!(status.status, "connecting");
    assert_eq!(status.message, "");
}

#[test]
fn extreme_exit_codes_render_in_decimal() {
    let status = map_systemd_status(&UnitProps {
        active_state: "failed".into(),
        exec_main_code: Some(i32::MIN),
        exec_main_status: Some(i32::MAX),
        ..UnitProps::default()
    });
    assert_eq!(
        status.message,
        "systemd result=failed exec_code=-2147483648 exit_status=2147483647"
    );
}

#[test]
fn blank_as_default_picks_default_only_when_empty() {
    assert_eq!(blank_as_default("", "failed"), "failed");
    assert_eq!(blank_as_default("exit-code", "failed"), "exit-code");
    assert_eq!(blank_as_default(" ", "failed"), " ");
}

#[test]
fn parses_systemctl_show_output() {
    let text = "ActiveState=failed\nSubState=failed\nResult=exit-code\nExecMainStatus=255\nExecMainCode=1\n";
    let p = parse_unit_props(text);
    assert_eq!(p.active_state, "failed");
    assert_eq!(p.sub_state, "failed");
    assert_eq!(p.result, "exit-code");
    assert_eq!(p.exec_main_status, Some(255));
    assert_eq!(p.exec_main_code, Some(1));
}

#[test]
fn parse_trims_keeps_last_and_ignores_noise() {
    let text = "junk line\r\n  ActiveState = active \r\nActiveState=activating\nOther=1\nResult=a=b\nExecMainStatus=+7\nExecMainCode= -3 ";
    let p = parse_unit_props(text);
    assert_eq!(p.active_state, "activating");
    assert_eq!(p.sub_state, "");
    assert_eq!(p.result, "a=b");
    assert_eq!(p.exec_main_status, Some(7));
    assert_eq!(p.exec_main_code, Some(-3));
}

#[test]
fn parse_rejects_bad_numbers() {
    let p = parse_unit_props("ExecMainStatus=2147483648\nExecMainCode=12x");
    assert_eq!(p.exec_main_status, None);
    assert_eq!(p.exec_main_code, None);
    let q = parse_unit_props("ExecMainStatus=-2147483648\nExecMainCode=-");
    assert_eq!(q.exec_main_status, Some(i32::MIN));
    assert_eq!(q.exec_main_code, None);
    let r = parse_unit_props("ExecMainStatus=0000000000000000042\nExecMainCode=");
    assert_eq!(r.exec_main_status, Some(42));
    assert_eq!(r.exec_main_code, None);
}

#[test]
fn parse_of_empty_output_is_default() {
    let p = parse_unit_props("");
    assert_eq!(p.active_state, "");
    assert_eq!(p.exec_main_status, None);
    assert_eq!(map_systemd_status(&p).status, "disconnected");
}

#[test]
fn host_key_messages() {
    assert!(host_key_failure_message("The AUTHENTICITY OF HOST 'x' can't be established.")
        .unwrap()
        .contains("Host key not trusted yet"));
    assert!(host_key_failure_message("Are you sure you want to continue connecting (yes/no)?")
        .is_some());
    assert_eq!(
        host_key_failure_message("WARNING: REMOTE HOST IDENTIFICATION HAS CHANGED!").unwrap(),
        "Host key changed. Verify the server and remove/update the old known_hosts entry before reconnecting."
    );
    assert_eq!(host_key_failure_message("Connection refused"), None);
    assert_eq!(host_key_failure_message(""), None);
}

#[test]
fn friendly_message_cases() {
    // host key advice wins over anything systemd says
    assert!(friendly_failure_message("bad", "Host key verification failed.")
        .starts_with("Host key not trusted yet"));
    // a specific systemd message is kept over the journal line
    assert_eq!(friendly_failure_message("  systemd substate=dead ", "boom"), "systemd substate=dead");
    // blank systemd message: the journal line, trimmed
    assert_eq!(friendly_failure_message("   ", "  boom \n"), "boom");
    // blank journal: the systemd message, trimmed
    assert_eq!(friendly_failure_message(" systemd result=timeout ", "  "), "systemd result=timeout");
    // both blank
    assert_eq!(friendly_failure_message(" ", "\t"), "");
}

#[test]
fn journal_line_only_rewrites_failed_status() {
    let failed = TunnelStatus {
        status: "failed".into(),
        message: "systemd result=exit-code exit_status=255".into(),
    };
    let rewritten = apply_journal_line(failed, " ssh: connect to host x port 22: Connection refused ");
    assert_eq!(rewritten.status, "failed");
    assert_eq!(rewritten.message, "ssh: connect to host x port 22: Connection refused");

    let connected = TunnelStatus { status: "connected".into(), message: String::new() };
    let same = apply_journal_line(connected, "anything");
    assert_eq!(same.status, "connected");
    assert_eq!(same.message, "");
}

#[test]
fn is_failed_reads_status_word() {
    assert!(TunnelStatus { status: "failed".into(), message: String::new() }.is_failed());
    assert!(!TunnelStatus { status: "connected".into(), message: String::new() }.is_failed());
}
