//! The `systemctl` and `journalctl` invocations that drive tunnels, and what
//! their exit status and output are taken to mean.
use vstd::prelude::*;

use crate::number::{nat_digits, usize_decimal};
use crate::systemd::TunnelStatus;
use crate::text::{chars_of, copy_string, is_blank, string_from_chars, trim, trim_str};

verus! {

/// What is asked of a tunnel's systemd user unit.
#[derive(Debug, Clone, Copy, PartialEq, Eq)]
pub enum UnitAction {
    Start,
    Stop,
    Status,
    Enable,
    Disable,
}

/// The texts of a list of strings.
pub open spec fn texts(v: Seq<String>) -> Seq<Seq<char>> {
    v.map_values(|s: String| s@)
}

/// The texts of a list of string slices.
pub open spec fn str_texts(v: Seq<&str>) -> Seq<Seq<char>> {
    v.map_values(|s: &str| s@)
}

/// The words joined with single spaces.
pub open spec fn join_spaced(words: Seq<Seq<char>>) -> Seq<char>
    decreases words.len(),
{
    if words.len() == 0 {
        Seq::<char>::empty()
    } else if words.len() == 1 {
        words[0]
    } else {
        join_spaced(words.drop_last()) + " "@ + words.last()
    }
}

/// The `systemctl` arguments for an action on a unit.
pub open spec fn action_args(action: UnitAction, unit: Seq<char>) -> Seq<Seq<char>> {
    match action {
        UnitAction::Start => seq!["--user"@, "start"@, unit],
        UnitAction::Stop => seq!["--user"@, "stop"@, unit],
        UnitAction::Status => seq!["--user"@, "status"@, "--no-pager"@, unit],
        UnitAction::Enable => seq!["--user"@, "enable"@, "--now"@, unit],
        UnitAction::Disable => seq!["--user"@, "disable"@, "--now"@, unit],
    }
}

/// The detail of a failed command: its trimmed error output, else its
/// trimmed standard output, else nothing.
pub open spec fn output_detail(stderr: Seq<char>, stdout: Seq<char>) -> Seq<char> {
    if trim(stderr).len() > 0 {
        trim(stderr)
    } else if trim(stdout).len() > 0 {
        trim(stdout)
    } else {
        Seq::<char>::empty()
    }
}

/// The error text for a command that exited unsuccessfully.
pub open spec fn command_failure_text(
    program: Seq<char>,
    args: Seq<Seq<char>>,
    status: Seq<char>,
    stderr: Seq<char>,
    stdout: Seq<char>,
) -> Seq<char> {
    let base = program + " "@ + join_spaced(args) + " exited with status "@ + status;
    let detail = output_detail(stderr, stdout);
    if detail.len() == 0 {
        base
    } else {
        base + ": "@ + detail
    }
}

/// What `systemctl --user is-active` reports about a unit.
pub open spec fn activity_text(success: bool, stdout: Seq<char>) -> Seq<char> {
    if !success && stdout.len() == 0 {
        "inactive"@
    } else if trim(stdout).len() == 0 {
        "unknown"@
    } else {
        trim(stdout)
    }
}

fn push_word(v: &mut Vec<String>, w: &str)
    ensures
        texts(final(v)@) == texts(old(v)@).push(w@),
{
    v.push(String::from_str(w));
    assert(texts(final(v)@) =~= texts(old(v)@).push(w@));
}

/// The `systemctl` arguments for an action on a unit: `--user`, the verb,
/// `--no-pager` for a status query, `--now` for enabling and disabling,
/// then the unit.
pub fn systemctl_args(action: UnitAction, unit: &str) -> (r: Vec<String>)
    ensures
        texts(r@) == action_args(action, unit@),
{
    let mut r: Vec<String> = Vec::new();
    push_word(&mut r, "--user");
    match action {
        UnitAction::Start => {
            push_word(&mut r, "start");
        },
        UnitAction::Stop => {
            push_word(&mut r, "stop");
        },
        UnitAction::Status => {
            push_word(&mut r, "status");
            push_word(&mut r, "--no-pager");
        },
        UnitAction::Enable => {
            push_word(&mut r, "enable");
            push_word(&mut r, "--now");
        },
        UnitAction::Disable => {
            push_word(&mut r, "disable");
            push_word(&mut r, "--now");
        },
    }
    push_word(&mut r, unit);
    assert(texts(r@) =~= action_args(action, unit@));
    r
}

/// The `systemctl` arguments that print the properties a status is computed
/// from.
pub fn show_args(unit: &str) -> (r: Vec<String>)
    ensures
        texts(r@) == seq![
            "--user"@,
            "show"@,
            unit@,
            "--property=ActiveState"@,
            "--property=SubState"@,
            "--property=Result"@,
            "--property=ExecMainStatus"@,
            "--property=ExecMainCode"@,
        ],
{
    let mut r: Vec<String> = Vec::new();
    push_word(&mut r, "--user");
    push_word(&mut r, "show");
    push_word(&mut r, unit);
    push_word(&mut r, "--property=ActiveState");
    push_word(&mut r, "--property=SubState");
    push_word(&mut r, "--property=Result");
    push_word(&mut r, "--property=ExecMainStatus");
    push_word(&mut r, "--property=ExecMainCode");
    r
}

/// The `journalctl` arguments that print a unit's last log line, bare.
pub fn last_line_args(unit: &str) -> (r: Vec<String>)
    ensures
        texts(r@) == seq![
            "--user"@,
            "-u"@,
            unit@,
            "-n"@,
            "1"@,
            "--no-pager"@,
            "-o"@,
            "cat"@,
        ],
{
    let mut r: Vec<String> = Vec::new();
    push_word(&mut r, "--user");
    push_word(&mut r, "-u");
    push_word(&mut r, unit);
    push_word(&mut r, "-n");
    push_word(&mut r, "1");
    push_word(&mut r, "--no-pager");
    push_word(&mut r, "-o");
    push_word(&mut r, "cat");
    r
}

/// The `journalctl` arguments that show a unit's last `lines` log lines,
/// following the log when asked to.
pub fn logs_args(unit: &str, lines: usize, follow: bool) -> (r: Vec<String>)
    ensures
        texts(r@) == seq!["--user"@, "-u"@, unit@, "-n"@, nat_digits(lines as nat), "--no-pager"@]
            + if follow {
            seq!["-f"@]
        } else {
            Seq::<Seq<char>>::empty()
        },
{
    let mut r: Vec<String> = Vec::new();
    push_word(&mut r, "--user");
    push_word(&mut r, "-u");
    push_word(&mut r, unit);
    push_word(&mut r, "-n");
    let count = string_from_chars(&usize_decimal(lines));
    push_word(&mut r, count.as_str());
    push_word(&mut r, "--no-pager");
    if follow {
        push_word(&mut r, "-f");
    }
    assert(texts(r@) =~= seq!["--user"@, "-u"@, unit@, "-n"@, nat_digits(lines as nat), "--no-pager"@]
        + if follow {
        seq!["-f"@]
    } else {
        Seq::<Seq<char>>::empty()
    });
    r
}

/// The words joined with single spaces.
pub fn join_words(words: &[&str]) -> (r: String)
    ensures
        r@ == join_spaced(str_texts(words@)),
{
    let mut r = String::new();
    let mut i: usize = 0;
    while i < words.len()
        invariant
            i <= words.len(),
            r@ == join_spaced(str_texts(words@.take(i as int))),
        decreases words.len() - i,
    {
        let ghost before = str_texts(words@.take(i as int));
        assert(str_texts(words@.take(i + 1)).drop_last() =~= before);
        assert(str_texts(words@.take(i + 1)).last() == words@[i as int]@);
        if i > 0 {
            r.append(" ");
        } else {
            assert(str_texts(words@.take(1)) =~= seq![words@[0]@]);
        }
        r.append(words[i]);
        i = i + 1;
    }
    assert(words@.take(words.len() as int) =~= words@);
    r
}

/// The error text for a command that exited unsuccessfully:
/// "`program args` exited with status `status`", followed by ": " and the
/// trimmed error output (or, if that is blank, the trimmed standard output)
/// when there is any.
pub fn command_failure_message(
    program: &str,
    args: &[&str],
    status: &str,
    stderr: &str,
    stdout: &str,
) -> (r: String)
    ensures
        r@ == command_failure_text(program@, str_texts(args@), status@, stderr@, stdout@),
{
    let mut r = String::from_str(program);
    r.append(" ");
    let joined = join_words(args);
    r.append(joined.as_str());
    r.append(" exited with status ");
    r.append(status);
    let err = trim_str(stderr);
    let out = trim_str(stdout);
    if !err.as_str().is_empty() {
        r.append(": ");
        r.append(err.as_str());
    } else if !out.as_str().is_empty() {
        r.append(": ");
        r.append(out.as_str());
    }
    r
}

/// The error text for a command, run with its output shown to the user,
/// that exited unsuccessfully.
pub fn exit_status_message(program: &str, status: &str) -> (r: String)
    ensures
        r@ == program@ + " exited with status "@ + status@,
{
    let mut r = String::from_str(program);
    r.append(" exited with status ");
    r.append(status);
    r
}

/// The last journal line of a unit from `journalctl`'s run: the trimmed
/// output if it succeeded, else nothing.
pub fn journal_line_from_output(success: bool, stdout: &str) -> (r: String)
    ensures
        r@ == if success {
            trim(stdout@)
        } else {
            Seq::<char>::empty()
        },
{
    if success {
        trim_str(stdout)
    } else {
        String::new()
    }
}

/// What `systemctl --user is-active` reports: `inactive` when it failed
/// without printing anything, `unknown` when its output is blank, else its
/// trimmed output.
pub fn unit_activity(success: bool, stdout: &str) -> (r: String)
    ensures
        r@ == activity_text(success, stdout@),
{
    if !success && stdout.is_empty() {
        return String::from_str("inactive");
    }
    if is_blank(stdout) {
        return String::from_str("unknown");
    }
    trim_str(stdout)
}

/// The status announced for a unit that could not be started or stopped:
/// its current status where that could be read, else `failed` with the
/// error text.
pub fn failed_action_status(current: Option<TunnelStatus>, error: &str) -> (r: TunnelStatus)
    ensures
        match current {
            Some(st) => r.status@ == st.status@ && r.message@ == st.message@,
            None => r.status@ == "failed"@ && r.message@ == error@,
        },
{
    match current {
        Some(st) => st,
        None => TunnelStatus { status: String::from_str("failed"), message: String::from_str(error) },
    }
}

/// A listed profile's status where it could be read, else `disconnected`.
pub fn listed_status(current: Option<TunnelStatus>) -> (r: String)
    ensures
        match current {
            Some(st) => r@ == st.status@,
            None => r@ == "disconnected"@,
        },
{
    match current {
        Some(st) => st.status,
        None => String::from_str("disconnected"),
    }
}

/// The error text when `systemctl show` itself failed for a unit:
/// "systemctl --user show `unit` failed (`status`): `stderr`", the error
/// output trimmed.
pub fn show_failure_message(unit: &str, status: &str, stderr: &str) -> (r: String)
    ensures
        r@ == "systemctl --user show "@ + unit@ + " failed ("@ + status@ + "): "@ + trim(stderr@),
{
    let mut r = String::from_str("systemctl --user show ");
    r.append(unit);
    r.append(" failed (");
    r.append(status);
    r.append("): ");
    let t = trim_str(stderr);
    r.append(t.as_str());
    r
}

} // verus!
