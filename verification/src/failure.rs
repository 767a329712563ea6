//! Turning a failed tunnel's diagnostics into one message a user can act on.
use vstd::prelude::*;

use crate::text::{
    ascii_lower, ascii_lowercase, chars_of, contains_chars, contains_text, is_blank,
    lemma_trim_fixed, lemma_trim_idempotent, str_contains, trim, trim_str,
};

verus! {

/// Advice when ssh refused an unknown host key.
pub open spec fn untrusted_host_key_text() -> Seq<char> {
    "Host key not trusted yet. Connect once in a terminal or set Host Key Policy to 'Accept New'."@
}

/// Advice when the server's host key differs from the recorded one.
pub open spec fn changed_host_key_text() -> Seq<char> {
    "Host key changed. Verify the server and remove/update the old known_hosts entry before reconnecting."@
}

/// The advice for a log line that reports a host key problem, matched
/// without regard to ASCII case.
pub open spec fn host_key_advice(line: Seq<char>) -> Option<Seq<char>> {
    let lower = ascii_lower(line);
    if contains_text(lower, "host key verification failed"@) || contains_text(
        lower,
        "authenticity of host"@,
    ) || contains_text(lower, "are you sure you want to continue connecting"@) {
        Some(untrusted_host_key_text())
    } else if contains_text(lower, "remote host identification has changed"@) {
        Some(changed_host_key_text())
    } else {
        None
    }
}

/// The message shown for a failed tunnel, from systemd's summary and the
/// unit's last journal line: host key advice first, then the journal line
/// where systemd only says something generic, then systemd's summary, else
/// the journal line.
pub open spec fn failure_text(systemd_message: Seq<char>, journal_line: Seq<char>) -> Seq<char> {
    match host_key_advice(journal_line) {
        Some(advice) => advice,
        None => {
            if trim(journal_line).len() > 0 && (trim(systemd_message).len() == 0 || contains_text(
                systemd_message,
                "systemd result="@,
            )) {
                trim(journal_line)
            } else if trim(systemd_message).len() > 0 {
                trim(systemd_message)
            } else {
                trim(journal_line)
            }
        },
    }
}

/// Advice for a journal line that reports a host key problem, if it does.
pub fn host_key_failure_message(line: &str) -> (r: Option<String>)
    ensures
        r matches Some(m) ==> host_key_advice(line@) == Some(m@),
        r is None ==> host_key_advice(line@) is None,
{
    let chars = chars_of(line);
    let lower = ascii_lowercase(&chars);
    if contains_chars(&lower, &chars_of("host key verification failed")) || contains_chars(
        &lower,
        &chars_of("authenticity of host"),
    ) || contains_chars(&lower, &chars_of("are you sure you want to continue connecting")) {
        return Some(
            String::from_str(
                "Host key not trusted yet. Connect once in a terminal or set Host Key Policy to 'Accept New'.",
            ),
        );
    }
    if contains_chars(&lower, &chars_of("remote host identification has changed")) {
        return Some(
            String::from_str(
                "Host key changed. Verify the server and remove/update the old known_hosts entry before reconnecting.",
            ),
        );
    }
    None
}

/// The message shown for a failed tunnel (see `failure_text`).
pub fn friendly_failure_message(systemd_message: &str, journal_line: &str) -> (r: String)
    ensures
        r@ == failure_text(systemd_message@, journal_line@),
{
    if let Some(msg) = host_key_failure_message(journal_line) {
        return msg;
    }
    let journal_blank = is_blank(journal_line);
    let systemd_blank = is_blank(systemd_message);
    if !journal_blank && (systemd_blank || str_contains(systemd_message, "systemd result=")) {
        return trim_str(journal_line);
    }
    if !systemd_blank {
        return trim_str(systemd_message);
    }
    trim_str(journal_line)
}

/// A message for a failed tunnel never starts or ends with whitespace.
pub proof fn lemma_failure_text_trimmed(systemd_message: Seq<char>, journal_line: Seq<char>)
    ensures
        trim(failure_text(systemd_message, journal_line)) == failure_text(
            systemd_message,
            journal_line,
        ),
{
    match host_key_advice(journal_line) {
        Some(advice) => {
            reveal_strlit(
                "Host key not trusted yet. Connect once in a terminal or set Host Key Policy to 'Accept New'.",
            );
            reveal_strlit(
                "Host key changed. Verify the server and remove/update the old known_hosts entry before reconnecting.",
            );
            lemma_trim_fixed(advice);
        },
        None => {
            lemma_trim_idempotent(journal_line);
            lemma_trim_idempotent(systemd_message);
        },
    }
}

/// A journal line that reports a host key problem always wins over whatever
/// systemd says.
pub proof fn lemma_host_key_advice_wins(systemd_message: Seq<char>, journal_line: Seq<char>)
    requires
        host_key_advice(journal_line) is Some,
    ensures
        failure_text(systemd_message, journal_line) == host_key_advice(journal_line)->0,
{
}

/// A failed tunnel always has something to show when either source has
/// anything to say: the message is empty only if both the systemd summary
/// and the journal line are blank.
pub proof fn lemma_failure_text_nonempty(systemd_message: Seq<char>, journal_line: Seq<char>)
    requires
        trim(systemd_message).len() > 0 || trim(journal_line).len() > 0,
    ensures
        failure_text(systemd_message, journal_line).len() > 0,
{
    reveal_strlit(
        "Host key not trusted yet. Connect once in a terminal or set Host Key Policy to 'Accept New'.",
    );
    reveal_strlit(
        "Host key changed. Verify the server and remove/update the old known_hosts entry before reconnecting.",
    );
}

/// Each phrase that means an unknown host key (matched without regard to
/// ASCII case) gets the advice to trust the key first, whatever else the
/// line says.
pub proof fn lemma_untrusted_phrases(line: Seq<char>)
    ensures
        contains_text(ascii_lower(line), "host key verification failed"@) ==> host_key_advice(line)
            == Some(
            "Host key not trusted yet. Connect once in a terminal or set Host Key Policy to 'Accept New'."@,
        ),
        contains_text(ascii_lower(line), "authenticity of host"@) ==> host_key_advice(line) == Some(
            "Host key not trusted yet. Connect once in a terminal or set Host Key Policy to 'Accept New'."@,
        ),
        contains_text(ascii_lower(line), "are you sure you want to continue connecting"@)
            ==> host_key_advice(line) == Some(
            "Host key not trusted yet. Connect once in a terminal or set Host Key Policy to 'Accept New'."@,
        ),
{
}

/// A line reporting a changed host identification, and none of the
/// unknown-key phrases, gets the advice to check the server and update
/// `known_hosts`; a line with none of the phrases gets no advice.
pub proof fn lemma_changed_and_absent_phrases(line: Seq<char>)
    ensures
        !contains_text(ascii_lower(line), "host key verification failed"@) && !contains_text(
            ascii_lower(line),
            "authenticity of host"@,
        ) && !contains_text(ascii_lower(line), "are you sure you want to continue connecting"@)
            ==> {
            &&& contains_text(ascii_lower(line), "remote host identification has changed"@)
                ==> host_key_advice(line) == Some(
                "Host key changed. Verify the server and remove/update the old known_hosts entry before reconnecting."@,
            )
            &&& !contains_text(ascii_lower(line), "remote host identification has changed"@)
                ==> host_key_advice(line) is None
        },
{
}

} // verus!
