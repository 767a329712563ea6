//! The state of a tunnel's systemd user unit: reading the `Key=Value` text
//! of `systemctl show`, and mapping the unit state to a tunnel status.
use vstd::prelude::*;

use crate::failure::{failure_text, friendly_failure_message};
use crate::number::{int_decimal, i32_decimal, parse_i32, parse_i32_text};
use crate::text::{
    chars_of, count_before, find_char, string_from_chars, trim,
    trim_bounds, vec_range,
};

verus! {

/// The properties of a unit that the status is computed from.
#[derive(Debug, Clone)]
pub struct UnitProps {
    pub active_state: String,
    pub sub_state: String,
    pub result: String,
    pub exec_main_status: Option<i32>,
    pub exec_main_code: Option<i32>,
}

impl Default for UnitProps {
    fn default() -> (r: Self)
        ensures
            r.active_state@ == Seq::<char>::empty(),
            r.sub_state@ == Seq::<char>::empty(),
            r.result@ == Seq::<char>::empty(),
            r.exec_main_status is None,
            r.exec_main_code is None,
    {
        UnitProps {
            active_state: String::new(),
            sub_state: String::new(),
            result: String::new(),
            exec_main_status: None,
            exec_main_code: None,
        }
    }
}

/// A tunnel's status word (`connected`, `connecting`, `failed` or
/// `disconnected`) and, for a failed one, a message.
#[derive(Debug, Clone)]
pub struct TunnelStatus {
    pub status: String,
    pub message: String,
}

/// The lines of `s`, split at each `\n` (a text without one is one line).
pub open spec fn split_lines(s: Seq<char>) -> Seq<Seq<char>>
    decreases s.len(),
{
    if s.len() == 0 {
        seq![Seq::<char>::empty()]
    } else {
        let prev = split_lines(s.drop_last());
        if s.last() == '\n' {
            prev.push(Seq::<char>::empty())
        } else {
            prev.update(prev.len() - 1, prev.last().push(s.last()))
        }
    }
}

/// The trimmed key and value of a `Key=Value` line, split at its first `=`.
pub open spec fn line_entry(line: Seq<char>) -> Option<(Seq<char>, Seq<char>)> {
    let p = count_before(line, '=');
    if p >= line.len() {
        None
    } else {
        Some((trim(line.take(p as int)), trim(line.skip(p + 1 as int))))
    }
}

/// The value given to `key` by the last of `lines` that names it.
pub open spec fn last_value(lines: Seq<Seq<char>>, key: Seq<char>) -> Option<Seq<char>>
    decreases lines.len(),
{
    if lines.len() == 0 {
        None
    } else {
        match line_entry(lines.last()) {
            Some(kv) if kv.0 == key => Some(kv.1),
            _ => last_value(lines.drop_last(), key),
        }
    }
}

/// The value that the `systemctl show` text gives to `key`.
pub open spec fn shown_value(text: Seq<char>, key: Seq<char>) -> Option<Seq<char>> {
    last_value(split_lines(text), key)
}

pub open spec fn or_empty(v: Option<Seq<char>>) -> Seq<char> {
    match v {
        Some(s) => s,
        None => Seq::<char>::empty(),
    }
}

pub open spec fn shown_number(text: Seq<char>, key: Seq<char>) -> Option<i32> {
    match shown_value(text, key) {
        Some(v) => parse_i32_text(v),
        None => None,
    }
}

/// The unit properties that the `systemctl show` text describes.
pub open spec fn props_described(props: UnitProps, text: Seq<char>) -> bool {
    &&& props.active_state@ == or_empty(shown_value(text, "ActiveState"@))
    &&& props.sub_state@ == or_empty(shown_value(text, "SubState"@))
    &&& props.result@ == or_empty(shown_value(text, "Result"@))
    &&& props.exec_main_status == shown_number(text, "ExecMainStatus"@)
    &&& props.exec_main_code == shown_number(text, "ExecMainCode"@)
}

proof fn lemma_split_lines_nonempty(s: Seq<char>)
    ensures
        split_lines(s).len() >= 1,
    decreases s.len(),
{
    if s.len() > 0 {
        lemma_split_lines_nonempty(s.drop_last());
    }
}

/// The values found so far for the properties that are read.
struct Found {
    active_state: Option<Vec<char>>,
    sub_state: Option<Vec<char>>,
    result: Option<Vec<char>>,
    exec_main_status: Option<Vec<char>>,
    exec_main_code: Option<Vec<char>>,
}

spec fn view_opt(v: Option<Vec<char>>) -> Option<Seq<char>> {
    match v {
        Some(x) => Some(x@),
        None => None,
    }
}

spec fn found_matches(f: Found, lines: Seq<Seq<char>>) -> bool {
    &&& view_opt(f.active_state) == last_value(lines, "ActiveState"@)
    &&& view_opt(f.sub_state) == last_value(lines, "SubState"@)
    &&& view_opt(f.result) == last_value(lines, "Result"@)
    &&& view_opt(f.exec_main_status) == last_value(lines, "ExecMainStatus"@)
    &&& view_opt(f.exec_main_code) == last_value(lines, "ExecMainCode"@)
}

fn same_chars(a: &Vec<char>, b: &str) -> (r: bool)
    ensures
        r == (a@ == b@),
{
    let bv = chars_of(b);
    if a.len() != bv.len() {
        return false;
    }
    let mut i: usize = 0;
    while i < a.len()
        invariant
            a.len() == bv.len(),
            bv@ == b@,
            i <= a.len(),
            forall|k: int| 0 <= k < i ==> a@[k] == bv@[k],
        decreases a.len() - i,
    {
        if a[i] != bv[i] {
            assert(a@[i as int] != bv@[i as int]);
            return false;
        }
        i = i + 1;
    }
    assert(a@ =~= bv@);
    true
}

/// The trimmed key and value of one line, if it has an `=`.
fn entry_of(line: &Vec<char>) -> (r: Option<(Vec<char>, Vec<char>)>)
    ensures
        match r {
            Some(kv) => line_entry(line@) == Some((kv.0@, kv.1@)),
            None => line_entry(line@) is None,
        },
{
    let p = find_char(line, '=');
    if p >= line.len() {
        return None;
    }
    let key_raw = vec_range(line, 0, p);
    let val_raw = vec_range(line, p + 1, line.len());
    assert(key_raw@ =~= line@.take(p as int));
    assert(val_raw@ =~= line@.skip(p + 1));
    let (ka, kb) = trim_bounds(&key_raw);
    let (va, vb) = trim_bounds(&val_raw);
    Some((vec_range(&key_raw, ka, kb), vec_range(&val_raw, va, vb)))
}

proof fn lemma_key_lengths()
    ensures
        "ActiveState"@.len() == 11,
        "SubState"@.len() == 8,
        "Result"@.len() == 6,
        "ExecMainStatus"@.len() == 14,
        "ExecMainCode"@.len() == 12,
{
    reveal_strlit("ActiveState");
    reveal_strlit("SubState");
    reveal_strlit("Result");
    reveal_strlit("ExecMainStatus");
    reveal_strlit("ExecMainCode");
}

/// Records one line in the values found so far.
fn note_line(found: &mut Found, line: &Vec<char>, Ghost(lines): Ghost<Seq<Seq<char>>>)
    requires
        found_matches(*old(found), lines),
    ensures
        found_matches(*final(found), lines.push(line@)),
{
    proof {
        lemma_key_lengths();
    }
    let ghost all = lines.push(line@);
    assert(all.drop_last() =~= lines);
    assert(all.last() == line@);
    let e = entry_of(line);
    match e {
        Some((k, v)) => {
            assert(line_entry(line@) == Some((k@, v@)));
            if same_chars(&k, "ActiveState") {
                found.active_state = Some(v);
            } else if same_chars(&k, "SubState") {
                found.sub_state = Some(v);
            } else if same_chars(&k, "Result") {
                found.result = Some(v);
            } else if same_chars(&k, "ExecMainStatus") {
                found.exec_main_status = Some(v);
            } else if same_chars(&k, "ExecMainCode") {
                found.exec_main_code = Some(v);
            }
        },
        None => {},
    }
}

fn number_of(v: &Option<Vec<char>>) -> (r: Option<i32>)
    ensures
        r == match view_opt(*v) {
            Some(s) => parse_i32_text(s),
            None => None,
        },
{
    match v {
        Some(s) => parse_i32(s),
        None => None,
    }
}

fn text_of(v: &Option<Vec<char>>) -> (r: String)
    ensures
        r@ == or_empty(view_opt(*v)),
{
    match v {
        Some(s) => string_from_chars(s),
        None => String::new(),
    }
}

/// Reads the unit properties from the text that `systemctl show` printed.
/// Each property takes the trimmed value of the last line whose trimmed key
/// (the text before the line's first `=`) names it; a missing one is empty,
/// and a number that does not parse as an `i32` is absent.
pub fn parse_unit_props(text: &str) -> (props: UnitProps)
    ensures
        props_described(props, text@),
{
    let s = chars_of(text);
    let mut found = Found {
        active_state: None,
        sub_state: None,
        result: None,
        exec_main_status: None,
        exec_main_code: None,
    };
    let mut cur: Vec<char> = Vec::new();
    let mut i: usize = 0;
    assert(s@.take(0) =~= Seq::<char>::empty());
    while i < s.len()
        invariant
            i <= s.len(),
            split_lines(s@.take(i as int)).len() >= 1,
            cur@ == split_lines(s@.take(i as int)).last(),
            found_matches(found, split_lines(s@.take(i as int)).drop_last()),
        decreases s.len() - i,
    {
        let ghost prev = split_lines(s@.take(i as int));
        assert(s@.take(i + 1).drop_last() =~= s@.take(i as int));
        assert(s@.take(i + 1).last() == s@[i as int]);
        let c = s[i];
        if c == '\n' {
            note_line(&mut found, &cur, Ghost(prev.drop_last()));
            assert(prev.drop_last().push(cur@) =~= prev);
            assert(split_lines(s@.take(i + 1)).drop_last() =~= prev);
            cur = Vec::new();
        } else {
            cur.push(c);
            assert(split_lines(s@.take(i + 1)).drop_last() =~= prev.drop_last());
        }
        proof {
            lemma_split_lines_nonempty(s@.take(i + 1));
        }
        i = i + 1;
    }
    let ghost lines = split_lines(s@.take(i as int));
    note_line(&mut found, &cur, Ghost(lines.drop_last()));
    assert(lines.drop_last().push(cur@) =~= lines);
    assert(s@.take(i as int) =~= text@);
    UnitProps {
        active_state: text_of(&found.active_state),
        sub_state: text_of(&found.sub_state),
        result: text_of(&found.result),
        exec_main_status: number_of(&found.exec_main_status),
        exec_main_code: number_of(&found.exec_main_code),
    }
}


/// `value`, or `default` where `value` is empty.
pub open spec fn or_default(value: Seq<char>, default: Seq<char>) -> Seq<char> {
    if value.len() == 0 {
        default
    } else {
        value
    }
}

/// The tunnel status word for a unit's `ActiveState`.
pub open spec fn status_word(active_state: Seq<char>) -> Seq<char> {
    if active_state == "active"@ {
        "connected"@
    } else if active_state == "activating"@ {
        "connecting"@
    } else if active_state == "failed"@ {
        "failed"@
    } else {
        "disconnected"@
    }
}

/// systemd's own summary of why a unit failed.
pub open spec fn failure_summary(props: UnitProps) -> Seq<char> {
    match props.exec_main_status {
        Some(code) => match props.exec_main_code {
            Some(exec_code) => "systemd result="@ + or_default(props.result@, "failed"@)
                + " exec_code="@ + int_decimal(exec_code as int) + " exit_status="@
                + int_decimal(code as int),
            None => "systemd result="@ + or_default(props.result@, "failed"@) + " exit_status="@
                + int_decimal(code as int),
        },
        None => if props.result@.len() > 0 {
            "systemd result="@ + props.result@
        } else if props.sub_state@.len() > 0 {
            "systemd substate="@ + props.sub_state@
        } else {
            Seq::<char>::empty()
        },
    }
}

/// The message for a unit: its failure summary if it failed, else nothing.
pub open spec fn status_message(props: UnitProps) -> Seq<char> {
    if props.active_state@ == "failed"@ {
        failure_summary(props)
    } else {
        Seq::<char>::empty()
    }
}

/// `value`, or `default` where `value` is empty.
pub fn blank_as_default<'a>(value: &'a str, default: &'a str) -> (r: &'a str)
    ensures
        r@ == or_default(value@, default@),
{
    if value.is_empty() {
        default
    } else {
        value
    }
}

fn push_decimal(s: &mut String, x: i32)
    ensures
        final(s)@ == old(s)@ + int_decimal(x as int),
{
    let digits = i32_decimal(x);
    let t = string_from_chars(&digits);
    s.append(t.as_str());
}

/// The tunnel status for a unit's properties: `active` is `connected`,
/// `activating` is `connecting`, `failed` is `failed`, anything else is
/// `disconnected`; only a failed unit gets a message, systemd's summary.
pub fn map_systemd_status(props: &UnitProps) -> (st: TunnelStatus)
    ensures
        st.status@ == status_word(props.active_state@),
        st.message@ == status_message(*props),
{
    let is_failed = props.active_state == String::from_str("failed");
    let status = if props.active_state == String::from_str("active") {
        String::from_str("connected")
    } else if props.active_state == String::from_str("activating") {
        String::from_str("connecting")
    } else if is_failed {
        String::from_str("failed")
    } else {
        String::from_str("disconnected")
    };
    let mut message = String::new();
    if is_failed {
        match props.exec_main_status {
            Some(code) => {
                message = String::from_str("systemd result=");
                message.append(blank_as_default(props.result.as_str(), "failed"));
                match props.exec_main_code {
                    Some(exec_code) => {
                        message.append(" exec_code=");
                        push_decimal(&mut message, exec_code);
                    },
                    None => {},
                }
                message.append(" exit_status=");
                push_decimal(&mut message, code);
            },
            None => {
                if !props.result.as_str().is_empty() {
                    message = String::from_str("systemd result=");
                    message.append(props.result.as_str());
                } else if !props.sub_state.as_str().is_empty() {
                    message = String::from_str("systemd substate=");
                    message.append(props.sub_state.as_str());
                }
            },
        }
    }
    TunnelStatus { status, message }
}

impl TunnelStatus {
    /// Whether the status word is `failed`.
    pub fn is_failed(&self) -> (r: bool)
        ensures
            r == (self.status@ == "failed"@),
    {
        self.status == String::from_str("failed")
    }
}

/// The status once the unit's last journal line is known: a failed tunnel's
/// message becomes the user-facing failure message; any other status stays.
pub fn apply_journal_line(status: TunnelStatus, journal_line: &str) -> (r: TunnelStatus)
    ensures
        r.status@ == status.status@,
        r.message@ == if status.status@ == "failed"@ {
            failure_text(status.message@, journal_line@)
        } else {
            status.message@
        },
{
    if status.is_failed() {
        let message = friendly_failure_message(status.message.as_str(), journal_line);
        TunnelStatus { status: status.status, message }
    } else {
        status
    }
}

/// Only a failed tunnel carries a message: whatever a unit's properties,
/// a status word other than `failed` comes with an empty message.
pub proof fn lemma_message_only_when_failed(props: UnitProps)
    ensures
        status_word(props.active_state@) != "failed"@ ==> status_message(props).len() == 0,
        status_word(props.active_state@) == "connected"@ || status_word(props.active_state@)
            == "connecting"@ || status_word(props.active_state@) == "failed"@ || status_word(
            props.active_state@,
        ) == "disconnected"@,
{
    reveal_strlit("active");
    reveal_strlit("activating");
    reveal_strlit("failed");
    assert("active"@[0] != "failed"@[0]);
    assert("activating"@.len() != "failed"@.len());
}

} // verus!
