//! The command-line table of profiles and the choice of where the tunnel
//! runner reads its profile from.
use vstd::prelude::*;

use crate::text::{chars_of, string_from_chars};

verus! {

/// `n` spaces.
pub open spec fn spaces(n: nat) -> Seq<char> {
    Seq::new(n, |i: int| ' ')
}

/// `s` left-aligned in a column of `width` characters: padded with spaces
/// on the right when shorter, unchanged when not.
pub open spec fn pad_right(s: Seq<char>, width: nat) -> Seq<char> {
    if s.len() < width {
        s + spaces((width - s.len()) as nat)
    } else {
        s
    }
}

/// One line of the profile table: the id in 24 columns, the status in 12,
/// the autostart flag in 5, then the name.
pub open spec fn table_line(
    id: Seq<char>,
    status: Seq<char>,
    auto: Seq<char>,
    name: Seq<char>,
) -> Seq<char> {
    pad_right(id, 24) + " "@ + pad_right(status, 12) + " "@ + pad_right(auto, 5) + " "@ + name
}

/// The table's autostart column for a profile.
pub open spec fn autostart_word(autostart: bool) -> Seq<char> {
    if autostart {
        "yes"@
    } else {
        "no"@
    }
}

/// Appends `s`, left-aligned in `width` columns, to `out`.
fn push_padded(out: &mut Vec<char>, s: &str, width: usize)
    ensures
        final(out)@ == old(out)@ + pad_right(s@, width as nat),
{
    let chars = chars_of(s);
    let mut i: usize = 0;
    while i < chars.len()
        invariant
            i <= chars.len(),
            chars@ == s@,
            out@ == old(out)@ + s@.take(i as int),
        decreases chars.len() - i,
    {
        out.push(chars[i]);
        i = i + 1;
        assert(out@ =~= old(out)@ + s@.take(i as int));
    }
    assert(s@.take(chars.len() as int) =~= s@);
    let mut k: usize = chars.len();
    while k < width
        invariant
            chars.len() <= k,
            k <= width || k == chars.len(),
            chars@ == s@,
            out@ == old(out)@ + s@ + spaces((k - chars.len()) as nat),
        decreases width - k,
    {
        out.push(' ');
        k = k + 1;
        assert(out@ =~= old(out)@ + s@ + spaces((k - chars.len()) as nat));
    }
    if chars.len() < width {
        assert(k == width);
    } else {
        assert(spaces(0) =~= Seq::<char>::empty());
        assert(out@ =~= old(out)@ + s@);
    }
}

fn push_text(out: &mut Vec<char>, s: &str)
    ensures
        final(out)@ == old(out)@ + s@,
{
    push_padded(out, s, 0);
}

/// One line of the profile table.
pub fn table_row(id: &str, status: &str, auto: &str, name: &str) -> (r: String)
    ensures
        r@ == table_line(id@, status@, auto@, name@),
{
    let mut out: Vec<char> = Vec::new();
    push_padded(&mut out, id, 24);
    push_text(&mut out, " ");
    push_padded(&mut out, status, 12);
    push_text(&mut out, " ");
    push_padded(&mut out, auto, 5);
    push_text(&mut out, " ");
    push_text(&mut out, name);
    assert(out@ =~= table_line(id@, status@, auto@, name@));
    string_from_chars(&out)
}

/// The table's heading line.
pub fn table_header() -> (r: String)
    ensures
        r@ == table_line("ID"@, "STATUS"@, "AUTO"@, "NAME"@),
{
    table_row("ID", "STATUS", "AUTO", "NAME")
}

/// The table line for a profile with the given unit state.
pub fn profile_table_row(id: &str, status: &str, autostart: bool, name: &str) -> (r: String)
    ensures
        r@ == table_line(id@, status@, autostart_word(autostart), name@),
{
    let auto = if autostart {
        "yes"
    } else {
        "no"
    };
    table_row(id, status, auto, name)
}

/// What the profile table says when there is no profile, naming the
/// directory that was searched.
pub fn no_profiles_message(dir: &str) -> (r: String)
    ensures
        r@ == "No profiles found in "@ + dir@,
{
    let mut r = String::from_str("No profiles found in ");
    r.append(dir);
    r
}

/// Where the tunnel runner reads its profile from.
pub enum ProfileSource<P> {
    /// A profile id, looked up among the stored profiles.
    Id(String),
    /// An explicit path to a profile file.
    Path(P),
}

/// The profile source named on the runner's command line; the id and the
/// path exclude each other. Without either, the error explains what is
/// missing.
pub fn select_profile_source<P>(id: Option<String>, path: Option<P>) -> (r: Result<
    ProfileSource<P>,
    String,
>)
    requires
        !(id is Some && path is Some),
    ensures
        match (id, path) {
            (Some(i), None) => r matches Ok(ProfileSource::Id(x)) && x@ == i@,
            (None, Some(p)) => r matches Ok(ProfileSource::Path(x)) && x == p,
            _ => r matches Err(e) && e@ == "missing profile id (or use --profile-path <path>)"@,
        },
{
    match (id, path) {
        (Some(i), None) => Ok(ProfileSource::Id(i)),
        (None, Some(p)) => Ok(ProfileSource::Path(p)),
        _ => Err(String::from_str("missing profile id (or use --profile-path <path>)")),
    }
}

} // verus!
