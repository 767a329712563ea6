//! Turning what the profile editor holds into a profile's parts: the id
//! (typed, or derived from the name), optional fields, forwards, and the
//! check that no two profiles share a name.
use vstd::prelude::*;

use crate::text::{
    ascii_lower_char, chars_of, is_blank, string_from_chars, string_from_range, to_ascii_lower_char,
    trim, trim_str,
};

verus! {

pub open spec fn is_slug_alnum(c: char) -> bool {
    ('0' <= c && c <= '9') || ('a' <= c && c <= 'z')
}

/// One step of building a slug from a name: a character that is ASCII
/// alphanumeric once lowercased is kept (lowercased); any other character
/// becomes a dash, unless the slug already ends in one.
pub open spec fn slug_step(acc: (Seq<char>, bool), c: char) -> (Seq<char>, bool) {
    let l = ascii_lower_char(c);
    if is_slug_alnum(l) {
        (acc.0.push(l), false)
    } else if !acc.1 {
        (acc.0.push('-'), true)
    } else {
        acc
    }
}

/// The slug of `s` before its dashes at both ends are removed, and whether
/// it ends in a dash.
pub open spec fn slug_raw(s: Seq<char>) -> (Seq<char>, bool)
    decreases s.len(),
{
    if s.len() == 0 {
        (Seq::<char>::empty(), false)
    } else {
        slug_step(slug_raw(s.drop_last()), s.last())
    }
}

/// `s` without leading dashes.
pub open spec fn strip_leading_dashes(s: Seq<char>) -> Seq<char>
    decreases s.len(),
{
    if s.len() > 0 && s[0] == '-' {
        strip_leading_dashes(s.drop_first())
    } else {
        s
    }
}

/// `s` without trailing dashes.
pub open spec fn strip_trailing_dashes(s: Seq<char>) -> Seq<char>
    decreases s.len(),
{
    if s.len() > 0 && s.last() == '-' {
        strip_trailing_dashes(s.drop_last())
    } else {
        s
    }
}

/// The profile id derived from a name: lowercase ASCII letters and digits,
/// runs of anything else as one dash, no dash at either end; `profile` when
/// nothing is left.
pub open spec fn slug_of(name: Seq<char>) -> Seq<char> {
    let t = strip_trailing_dashes(strip_leading_dashes(slug_raw(name).0));
    if t.len() == 0 {
        "profile"@
    } else {
        t
    }
}

/// A well-formed slug: only lowercase ASCII letters, digits and dashes, never
/// two dashes in a row, and no dash at either end.
pub open spec fn is_clean_slug(t: Seq<char>) -> bool {
    &&& forall|i: int| 0 <= i < t.len() ==> is_slug_alnum(#[trigger] t[i]) || t[i] == '-'
    &&& forall|i: int| 0 <= i < t.len() - 1 ==> !(#[trigger] t[i] == '-' && t[i + 1] == '-')
    &&& t.len() > 0 ==> t[0] != '-' && t.last() != '-'
}

/// The profile id derived from a name (see `slug_of`).
pub fn slugify_profile_id(name: &str) -> (r: String)
    ensures
        r@ == slug_of(name@),
{
    let chars = chars_of(name);
    let mut out: Vec<char> = Vec::new();
    let mut last_dash = false;
    let mut i: usize = 0;
    while i < chars.len()
        invariant
            i <= chars.len(),
            chars@ == name@,
            (out@, last_dash) == slug_raw(name@.take(i as int)),
        decreases chars.len() - i,
    {
        assert(name@.take(i + 1).drop_last() =~= name@.take(i as int));
        let c = to_ascii_lower_char(chars[i]);
        if ('0' <= c && c <= '9') || ('a' <= c && c <= 'z') {
            out.push(c);
            last_dash = false;
        } else if !last_dash {
            out.push('-');
            last_dash = true;
        }
        i = i + 1;
    }
    assert(name@.take(chars.len() as int) =~= name@);
    let mut a: usize = 0;
    assert(out@.skip(0) =~= out@);
    while a < out.len() && out[a] == '-'
        invariant
            a <= out.len(),
            strip_leading_dashes(out@) == strip_leading_dashes(out@.skip(a as int)),
        decreases out.len() - a,
    {
        assert(out@.skip(a as int).drop_first() =~= out@.skip(a + 1));
        a = a + 1;
    }
    assert(strip_leading_dashes(out@) == out@.skip(a as int));
    let mut b: usize = out.len();
    assert(out@.skip(a as int) =~= out@.subrange(a as int, b as int));
    while b > a && out[b - 1] == '-'
        invariant
            a <= b <= out.len(),
            strip_trailing_dashes(strip_leading_dashes(out@)) == strip_trailing_dashes(
                out@.subrange(a as int, b as int),
            ),
        decreases b,
    {
        assert(out@.subrange(a as int, b as int).drop_last() =~= out@.subrange(a as int, b - 1));
        b = b - 1;
    }
    if a == b {
        String::from_str("profile")
    } else {
        string_from_range(&out, a, b)
    }
}

proof fn lemma_slug_raw_shape(s: Seq<char>)
    ensures
        forall|i: int|
            0 <= i < slug_raw(s).0.len() ==> is_slug_alnum(#[trigger] slug_raw(s).0[i])
                || slug_raw(s).0[i] == '-',
        forall|i: int|
            0 <= i < slug_raw(s).0.len() - 1 ==> !(#[trigger] slug_raw(s).0[i] == '-'
                && slug_raw(s).0[i + 1] == '-'),
        slug_raw(s).1 == (slug_raw(s).0.len() > 0 && slug_raw(s).0.last() == '-'),
    decreases s.len(),
{
    if s.len() > 0 {
        lemma_slug_raw_shape(s.drop_last());
        let prev = slug_raw(s.drop_last()).0;
        let cur = slug_raw(s).0;
        assert forall|i: int| 0 <= i < cur.len() implies is_slug_alnum(#[trigger] cur[i])
            || cur[i] == '-' by {
            if i < prev.len() {
                assert(cur[i] == prev[i]);
            }
        }
        assert forall|i: int| 0 <= i < cur.len() - 1 implies !(#[trigger] cur[i] == '-' && cur[i
            + 1] == '-') by {
            if i + 1 < prev.len() {
                assert(cur[i] == prev[i] && cur[i + 1] == prev[i + 1]);
            } else if i + 1 == prev.len() && cur.len() > prev.len() {
                assert(cur[i] == prev[i]);
            }
        }
    }
}

proof fn lemma_strip_leading(s: Seq<char>)
    ensures
        strip_leading_dashes(s).len() <= s.len(),
        strip_leading_dashes(s) == s.skip(s.len() - strip_leading_dashes(s).len()),
        strip_leading_dashes(s).len() > 0 ==> strip_leading_dashes(s)[0] != '-',
    decreases s.len(),
{
    if s.len() > 0 && s[0] == '-' {
        lemma_strip_leading(s.drop_first());
        assert(s.drop_first().skip(s.drop_first().len() - strip_leading_dashes(s).len())
            =~= s.skip(s.len() - strip_leading_dashes(s).len()));
    } else {
        assert(s.skip(0) =~= s);
    }
}

proof fn lemma_strip_trailing(s: Seq<char>)
    ensures
        strip_trailing_dashes(s).len() <= s.len(),
        strip_trailing_dashes(s) == s.take(strip_trailing_dashes(s).len() as int),
        strip_trailing_dashes(s).len() > 0 ==> strip_trailing_dashes(s).last() != '-',
    decreases s.len(),
{
    if s.len() > 0 && s.last() == '-' {
        lemma_strip_trailing(s.drop_last());
        assert(s.drop_last().take(strip_trailing_dashes(s).len() as int) =~= s.take(
            strip_trailing_dashes(s).len() as int,
        ));
    } else {
        assert(s.take(s.len() as int) =~= s);
    }
}

/// `c` is not an ASCII letter or digit, so it separates words of a name.
pub open spec fn is_separator(c: char) -> bool {
    !is_slug_alnum(ascii_lower_char(c))
}

/// `s` holds at least one ASCII letter or digit.
pub open spec fn has_word_char(s: Seq<char>) -> bool {
    exists|i: int| 0 <= i < s.len() && is_slug_alnum(#[trigger] ascii_lower_char(s[i]))
}

pub open spec fn has_non_dash(s: Seq<char>) -> bool {
    exists|i: int| 0 <= i < s.len() && #[trigger] s[i] != '-'
}

/// The slug steps over `v`, starting from `acc`.
pub open spec fn slug_run(acc: (Seq<char>, bool), v: Seq<char>) -> (Seq<char>, bool)
    decreases v.len(),
{
    if v.len() == 0 {
        acc
    } else {
        slug_step(slug_run(acc, v.drop_last()), v.last())
    }
}

proof fn lemma_raw_is_run(s: Seq<char>)
    ensures
        slug_raw(s) == slug_run((Seq::<char>::empty(), false), s),
    decreases s.len(),
{
    if s.len() > 0 {
        lemma_raw_is_run(s.drop_last());
    }
}

proof fn lemma_run_concat(acc: (Seq<char>, bool), u: Seq<char>, v: Seq<char>)
    ensures
        slug_run(acc, u + v) == slug_run(slug_run(acc, u), v),
    decreases v.len(),
{
    if v.len() == 0 {
        assert(u + v =~= u);
    } else {
        assert((u + v).drop_last() =~= u + v.drop_last());
        assert((u + v).last() == v.last());
        lemma_run_concat(acc, u, v.drop_last());
    }
}

proof fn lemma_run_prefix(a: Seq<char>, d: bool, v: Seq<char>)
    ensures
        slug_run((a, d), v).0 == a + slug_run((Seq::<char>::empty(), d), v).0,
        slug_run((a, d), v).1 == slug_run((Seq::<char>::empty(), d), v).1,
    decreases v.len(),
{
    if v.len() == 0 {
        assert(a + Seq::<char>::empty() =~= a);
    } else {
        lemma_run_prefix(a, d, v.drop_last());
        let r = slug_run((Seq::<char>::empty(), d), v.drop_last()).0;
        let l = ascii_lower_char(v.last());
        assert((a + r).push(l) =~= a + r.push(l));
        assert((a + r).push('-') =~= a + r.push('-'));
    }
}

proof fn lemma_strip_leading_push(s: Seq<char>, x: char)
    requires
        x != '-' || has_non_dash(s),
    ensures
        strip_leading_dashes(s.push(x)) == strip_leading_dashes(s).push(x),
    decreases s.len(),
{
    if s.len() == 0 {
        assert(s.push(x) =~= seq![x]);
        assert(seq![x].drop_first() =~= Seq::<char>::empty());
    } else if s[0] == '-' {
        assert(s.push(x).drop_first() =~= s.drop_first().push(x));
        if x == '-' {
            let i = choose|i: int| 0 <= i < s.len() && #[trigger] s[i] != '-';
            assert(s.drop_first()[i - 1] != '-');
        }
        lemma_strip_leading_push(s.drop_first(), x);
    }
}

proof fn lemma_strip_leading_concat(a: Seq<char>, b: Seq<char>)
    requires
        has_non_dash(a),
    ensures
        strip_leading_dashes(a + b) == strip_leading_dashes(a) + b,
    decreases a.len(),
{
    if a[0] == '-' {
        assert((a + b).drop_first() =~= a.drop_first() + b);
        let i = choose|i: int| 0 <= i < a.len() && #[trigger] a[i] != '-';
        assert(a.drop_first()[i - 1] != '-');
        lemma_strip_leading_concat(a.drop_first(), b);
    } else {
        assert((a + b)[0] == a[0]);
    }
}

proof fn lemma_strip_trailing_concat(a: Seq<char>, b: Seq<char>)
    requires
        has_non_dash(b),
    ensures
        strip_trailing_dashes(a + b) == a + strip_trailing_dashes(b),
    decreases b.len(),
{
    if b.last() == '-' {
        assert((a + b).drop_last() =~= a + b.drop_last());
        let i = choose|i: int| 0 <= i < b.len() && #[trigger] b[i] != '-';
        assert(b.drop_last()[i] != '-');
        lemma_strip_trailing_concat(a, b.drop_last());
    } else {
        assert((a + b).last() == b.last());
    }
}

proof fn lemma_strip_leading_nonempty(s: Seq<char>)
    requires
        has_non_dash(s),
    ensures
        strip_leading_dashes(s).len() > 0,
        has_non_dash(strip_leading_dashes(s)),
    decreases s.len(),
{
    if s[0] == '-' {
        let i = choose|i: int| 0 <= i < s.len() && #[trigger] s[i] != '-';
        assert(s.drop_first()[i - 1] != '-');
        lemma_strip_leading_nonempty(s.drop_first());
    } else {
        assert(strip_leading_dashes(s)[0] != '-');
    }
}

proof fn lemma_strip_trailing_nonempty(s: Seq<char>)
    requires
        s.len() > 0,
        s[0] != '-',
    ensures
        strip_trailing_dashes(s).len() > 0,
    decreases s.len(),
{
    if s.last() == '-' {
        assert(s.drop_last()[0] == s[0]);
        lemma_strip_trailing_nonempty(s.drop_last());
    }
}

proof fn lemma_word_char_survives(s: Seq<char>)
    requires
        has_word_char(s),
    ensures
        has_non_dash(slug_raw(s).0),
    decreases s.len(),
{
    let r = slug_raw(s).0;
    let prev = slug_raw(s.drop_last()).0;
    if is_slug_alnum(ascii_lower_char(s.last())) {
        assert(r.last() != '-');
        assert(r[r.len() - 1] != '-');
    } else {
        let i = choose|i: int| 0 <= i < s.len() && is_slug_alnum(#[trigger] ascii_lower_char(s[i]));
        assert(i < s.len() - 1);
        assert(s.drop_last()[i] == s[i]);
        lemma_word_char_survives(s.drop_last());
        let j = choose|j: int| 0 <= j < prev.len() && #[trigger] prev[j] != '-';
        assert(r[j] == prev[j]);
    }
}

/// Starting right after a separator suppresses only the dash that a name's
/// leading separators would give.
proof fn lemma_run_after_separator(v: Seq<char>)
    ensures
        slug_run((Seq::<char>::empty(), true), v).0 == strip_leading_dashes(slug_raw(v).0),
        v.len() > 0 ==> slug_run((Seq::<char>::empty(), true), v).1 == slug_raw(v).1
            && slug_raw(v).0.len() > 0,
    decreases v.len(),
{
    if v.len() > 0 {
        let w = v.drop_last();
        let c = v.last();
        let l = ascii_lower_char(c);
        lemma_run_after_separator(w);
        lemma_slug_raw_shape(w);
        let r0w = slug_raw(w);
        let r1w = slug_run((Seq::<char>::empty(), true), w);
        if is_slug_alnum(l) {
            assert(l != '-');
            lemma_strip_leading_push(r0w.0, l);
        } else if w.len() == 0 {
            assert(r0w.0 =~= Seq::<char>::empty());
            assert(slug_raw(v).0 =~= seq!['-']);
            assert(seq!['-'].drop_first() =~= Seq::<char>::empty());
            assert(strip_leading_dashes(seq!['-']) == strip_leading_dashes(Seq::<char>::empty()));
        } else if !r0w.1 {
            assert(r0w.0[r0w.0.len() - 1] != '-');
            lemma_strip_leading_push(r0w.0, '-');
        }
    }
}

/// After a name with a word in it and one separator, what follows comes after
/// the name's own slug and a single dash.
proof fn lemma_after_word_and_separator(x: Seq<char>, c: char, z: Seq<char>)
    requires
        has_word_char(x),
        is_separator(c),
    ensures
        strip_leading_dashes(slug_step(slug_raw(x), c).0 + z) == strip_trailing_dashes(
            strip_leading_dashes(slug_raw(x).0),
        ) + seq!['-'] + z,
{
    let xr = slug_raw(x).0;
    let dx = slug_raw(x).1;
    lemma_slug_raw_shape(x);
    lemma_word_char_survives(x);
    let xp = slug_step(slug_raw(x), c).0;
    let sl = strip_leading_dashes(xr);
    lemma_strip_leading(xr);
    lemma_strip_leading_nonempty(xr);
    let m = xr.len() - sl.len();
    assert(sl.last() == xr.last()) by {
        assert(sl[sl.len() - 1] == xr[m + sl.len() - 1]);
    }
    if dx {
        assert(xp == xr);
        assert(has_non_dash(xp));
        lemma_strip_leading_concat(xp, z);
        assert(sl.len() >= 2);
        assert(sl[sl.len() - 2] == xr[xr.len() - 2]);
        assert(sl[sl.len() - 2] != '-');
        let sd = sl.drop_last();
        assert(sd.last() != '-');
        assert(strip_trailing_dashes(sl) == strip_trailing_dashes(sd));
        assert(strip_trailing_dashes(sd) == sd);
        assert(sd.push('-') =~= sl);
        assert(sl + z =~= sd + seq!['-'] + z);
    } else {
        assert(xp == xr.push('-'));
        let i = choose|i: int| 0 <= i < xr.len() && #[trigger] xr[i] != '-';
        assert(xp[i] != '-');
        lemma_strip_leading_concat(xp, z);
        lemma_strip_leading_push(xr, '-');
        assert(sl.last() != '-');
        assert(strip_trailing_dashes(sl) == sl);
        assert(sl.push('-') + z =~= sl + seq!['-'] + z);
    }
}

/// Every run of characters that are not ASCII letters or digits between two
/// words of a name becomes one dash: the slug of `x`, a separator, then `y`
/// (both holding a letter or digit) is the slug of `x`, a dash, and the slug
/// of `y`.
pub proof fn lemma_slug_separates_words(x: Seq<char>, c: char, y: Seq<char>)
    requires
        has_word_char(x),
        is_separator(c),
        has_word_char(y),
    ensures
        slug_of(x + seq![c] + y) == slug_of(x) + seq!['-'] + slug_of(y),
{
    let e = Seq::<char>::empty();
    let name = x + seq![c] + y;
    lemma_raw_is_run(name);
    lemma_raw_is_run(x);
    lemma_run_concat((e, false), x + seq![c], y);
    lemma_run_concat((e, false), x, seq![c]);
    assert(seq![c].drop_last() =~= e);
    assert(seq![c].last() == c);
    assert(slug_run(slug_raw(x), seq![c].drop_last()) == slug_raw(x));
    assert(slug_run(slug_raw(x), seq![c]) == slug_step(slug_raw(x), c));
    let xs = slug_step(slug_raw(x), c);
    assert(xs.1);
    lemma_run_prefix(xs.0, true, y);
    lemma_run_after_separator(y);
    let yr = slug_raw(y).0;
    let sly = strip_leading_dashes(yr);
    assert(slug_raw(name).0 == xs.0 + sly);
    lemma_after_word_and_separator(x, c, sly);
    let slx = strip_leading_dashes(slug_raw(x).0);
    let tx = strip_trailing_dashes(slx);
    lemma_word_char_survives(y);
    lemma_strip_leading_nonempty(yr);
    lemma_strip_trailing_concat(tx + seq!['-'], sly);
    let ty = strip_trailing_dashes(sly);
    assert(strip_trailing_dashes(strip_leading_dashes(slug_raw(name).0)) == tx + seq!['-'] + ty);
    lemma_word_char_survives(x);
    lemma_strip_leading_nonempty(slug_raw(x).0);
    lemma_strip_leading(slug_raw(x).0);
    lemma_strip_trailing_nonempty(slx);
    lemma_strip_leading(yr);
    lemma_strip_trailing_nonempty(sly);
    assert((tx + seq!['-'] + ty).len() > 0);
}

/// A slug derived from a name is always well formed and never empty.
pub proof fn lemma_slug_is_clean(name: Seq<char>)
    ensures
        is_clean_slug(slug_of(name)),
        slug_of(name).len() > 0,
{
    let raw = slug_raw(name).0;
    lemma_slug_raw_shape(name);
    let l = strip_leading_dashes(raw);
    lemma_strip_leading(raw);
    let t = strip_trailing_dashes(l);
    lemma_strip_trailing(l);
    let off = raw.len() - l.len();
    assert forall|i: int| 0 <= i < t.len() implies t[i] == raw[off + i] by {
        assert(t[i] == l[i]);
        assert(l[i] == raw[off + i]);
    }
    if t.len() == 0 {
        reveal_strlit("profile");
    } else {
        assert(t[0] == l[0]);
        assert forall|i: int| 0 <= i < t.len() - 1 implies !(#[trigger] t[i] == '-' && t[i + 1]
            == '-') by {
            assert(t[i] == raw[off + i] && t[i + 1] == raw[off + i + 1]);
        }
        assert forall|i: int| 0 <= i < t.len() implies is_slug_alnum(#[trigger] t[i]) || t[i]
            == '-' by {
            assert(t[i] == raw[off + i]);
        }
    }
}

proof fn lemma_clean_slug_raw(t: Seq<char>)
    requires
        forall|i: int| 0 <= i < t.len() ==> is_slug_alnum(#[trigger] t[i]) || t[i] == '-',
        forall|i: int| 0 <= i < t.len() - 1 ==> !(#[trigger] t[i] == '-' && t[i + 1] == '-'),
        t.len() > 0 ==> t[0] != '-',
    ensures
        slug_raw(t) == (t, t.len() > 0 && t.last() == '-'),
    decreases t.len(),
{
    if t.len() > 0 {
        let p = t.drop_last();
        assert forall|i: int| 0 <= i < p.len() implies is_slug_alnum(#[trigger] p[i]) || p[i]
            == '-' by {
            assert(p[i] == t[i]);
        }
        assert forall|i: int| 0 <= i < p.len() - 1 implies !(#[trigger] p[i] == '-' && p[i + 1]
            == '-') by {
            assert(p[i] == t[i] && p[i + 1] == t[i + 1]);
        }
        if p.len() > 0 {
            assert(p[0] == t[0]);
        }
        lemma_clean_slug_raw(p);
        let c = t.last();
        assert(ascii_lower_char(c) == c);
        if c == '-' {
            assert(p.len() > 0);
            assert(p.last() == t[t.len() - 2]);
        }
        assert(p.push(c) =~= t);
    }
}

/// Deriving an id from an id changes nothing: a slug is its own slug.
pub proof fn lemma_slug_idempotent(name: Seq<char>)
    ensures
        slug_of(slug_of(name)) == slug_of(name),
{
    let t = slug_of(name);
    lemma_slug_is_clean(name);
    lemma_clean_slug_raw(t);
    assert(strip_leading_dashes(t) == t);
    assert(strip_trailing_dashes(t) == t);
}

/// The trimmed text of an optional field, or nothing if it is blank.
pub fn trim_optional(text: &str) -> (r: Option<String>)
    ensures
        match r {
            Some(s) => trim(text@).len() > 0 && s@ == trim(text@),
            None => trim(text@).len() == 0,
        },
{
    let t = trim_str(text);
    if t.as_str().is_empty() {
        None
    } else {
        Some(t)
    }
}

/// The id a profile is saved under: the trimmed id field, or, when that is
/// blank and the trimmed name is not, the slug of the trimmed name.
pub open spec fn resolved_id(id_text: Seq<char>, name_text: Seq<char>) -> Option<Seq<char>> {
    if trim(id_text).len() > 0 {
        Some(trim(id_text))
    } else if trim(name_text).len() > 0 {
        Some(slug_of(trim(name_text)))
    } else {
        None
    }
}

/// The id a profile is saved under (see `resolved_id`); without one the
/// profile cannot be saved.
pub fn resolve_profile_id(id_text: &str, name_text: &str) -> (r: Result<String, String>)
    ensures
        match r {
            Ok(id) => resolved_id(id_text@, name_text@) == Some(id@),
            Err(e) => resolved_id(id_text@, name_text@) is None && e@
                == "Profile ID is required"@,
        },
{
    let id = trim_str(id_text);
    if !id.as_str().is_empty() {
        return Ok(id);
    }
    let name = trim_str(name_text);
    if !name.as_str().is_empty() {
        return Ok(slugify_profile_id(name.as_str()));
    }
    Err(String::from_str("Profile ID is required"))
}

/// Another profile (an id other than `current_id`) already uses `name`,
/// both compared trimmed.
pub open spec fn name_taken_at(
    entries: Seq<(Seq<char>, Seq<char>)>,
    current_id: Seq<char>,
    name: Seq<char>,
    i: int,
) -> bool {
    0 <= i < entries.len() && entries[i].0 != current_id && trim(entries[i].1) == trim(name)
}

pub open spec fn entry_texts(entries: Seq<(String, String)>) -> Seq<(Seq<char>, Seq<char>)> {
    entries.map_values(|e: (String, String)| (e.0@, e.1@))
}

fn same_text(a: &str, b: &str) -> (r: bool)
    ensures
        r == (a@ == b@),
{
    String::from_str(a) == String::from_str(b)
}

/// Checks that no other profile already uses the name. On a clash the error
/// names the trimmed name and the id of the first profile that has it.
pub fn ensure_unique_name(current_id: &str, name: &str, entries: &Vec<(String, String)>) -> (r:
    Result<(), String>)
    ensures
        match r {
            Ok(()) => forall|i: int|
                !name_taken_at(entry_texts(entries@), current_id@, name@, i),
            Err(e) => exists|i: int|
                {
                    &&& name_taken_at(entry_texts(entries@), current_id@, name@, i)
                    &&& forall|j: int|
                        0 <= j < i ==> !name_taken_at(entry_texts(entries@), current_id@, name@, j)
                    &&& e@ == "profile name '"@ + trim(name@) + "' is already used by id '"@
                        + entries@[i].0@ + "'"@
                },
        },
{
    let target = trim_str(name);
    let mut i: usize = 0;
    while i < entries.len()
        invariant
            i <= entries.len(),
            target@ == trim(name@),
            forall|j: int| 0 <= j < i ==> !name_taken_at(entry_texts(entries@), current_id@, name@, j),
        decreases entries.len() - i,
    {
        let other = trim_str(entries[i].1.as_str());
        let ghost et = entry_texts(entries@);
        assert(et[i as int] == (entries@[i as int].0@, entries@[i as int].1@));
        if !same_text(entries[i].0.as_str(), current_id) && same_text(other.as_str(), target.as_str()) {
            let mut e = String::from_str("profile name '");
            e.append(target.as_str());
            e.append("' is already used by id '");
            e.append(entries[i].0.as_str());
            e.append("'");
            assert(name_taken_at(et, current_id@, name@, i as int));
            return Err(e);
        }
        i = i + 1;
    }
    Ok(())
}

/// The labels of a forward row's port, host and second port fields, for a
/// remote (`-R`) or local (`-L`) forward.
pub fn forward_labels(kind: &str) -> (r: (String, String, String))
    ensures
        kind@ == "remote"@ ==> r.0@ == "Remote Port"@ && r.1@ == "Local Host"@ && r.2@
            == "Local Port"@,
        kind@ != "remote"@ ==> r.0@ == "Local Port"@ && r.1@ == "Remote Host"@ && r.2@
            == "Remote Port"@,
{
    if same_text(kind, "remote") {
        (String::from_str("Remote Port"), String::from_str("Local Host"), String::from_str("Local Port"))
    } else {
        (String::from_str("Local Port"), String::from_str("Remote Host"), String::from_str("Remote Port"))
    }
}

/// A port forward as the editor describes it.
#[derive(Debug, Clone)]
pub enum ForwardSpec {
    /// `-L [bind:]local_port:remote_host:remote_port`
    Local { bind_address: Option<String>, local_port: u16, remote_host: String, remote_port: u16 },
    /// `-R [bind:]remote_port:local_host:local_port`
    Remote { bind_address: Option<String>, remote_port: u16, local_host: String, local_port: u16 },
}

pub open spec fn opt_text(o: Option<String>) -> Option<Seq<char>> {
    match o {
        Some(s) => Some(s@),
        None => None,
    }
}

/// The forward that an editor row describes: a `remote` row is a remote
/// forward, any other a local one; the first port, the trimmed host and the
/// second port go to the fields in the order the row labels them, and a
/// blank bind address is none.
pub open spec fn row_forward(
    r: ForwardSpec,
    kind: Seq<char>,
    bind_text: Seq<char>,
    port1: u16,
    host_text: Seq<char>,
    port2: u16,
) -> bool {
    let bind = if trim(bind_text).len() > 0 {
        Some(trim(bind_text))
    } else {
        None
    };
    match r {
        ForwardSpec::Remote { bind_address, remote_port, local_host, local_port } => {
            &&& kind == "remote"@
            &&& remote_port == port1
            &&& local_port == port2
            &&& local_host@ == trim(host_text)
            &&& opt_text(bind_address) == bind
        },
        ForwardSpec::Local { bind_address, local_port, remote_host, remote_port } => {
            &&& kind != "remote"@
            &&& local_port == port1
            &&& remote_port == port2
            &&& remote_host@ == trim(host_text)
            &&& opt_text(bind_address) == bind
        },
    }
}

/// The forward that an editor row describes (see `row_forward`).
pub fn forward_from_row(kind: &str, bind_text: &str, port1: u16, host_text: &str, port2: u16) -> (r:
    ForwardSpec)
    ensures
        row_forward(r, kind@, bind_text@, port1, host_text@, port2),
{
    let bind_address = trim_optional(bind_text);
    let host = trim_str(host_text);
    if same_text(kind, "remote") {
        ForwardSpec::Remote { bind_address, remote_port: port1, local_host: host, local_port: port2 }
    } else {
        ForwardSpec::Local { bind_address, local_port: port1, remote_host: host, remote_port: port2 }
    }
}

/// A forward's bind address, whichever way it points.
pub open spec fn forward_bind(r: ForwardSpec) -> Option<String> {
    match r {
        ForwardSpec::Remote { bind_address, .. } => bind_address,
        ForwardSpec::Local { bind_address, .. } => bind_address,
    }
}

/// For every row kind, a bind field with text is kept (trimmed) and a blank
/// one means no bind address; a `remote` row is a remote forward and any other
/// a local one, with the row's ports and trimmed host in the fields that its
/// labels name.
pub proof fn lemma_forward_row_fields(
    r: ForwardSpec,
    kind: Seq<char>,
    bind_text: Seq<char>,
    port1: u16,
    host_text: Seq<char>,
    port2: u16,
)
    requires
        row_forward(r, kind, bind_text, port1, host_text, port2),
    ensures
        trim(bind_text).len() > 0 ==> forward_bind(r) is Some && forward_bind(r)->0@ == trim(
            bind_text,
        ),
        trim(bind_text).len() == 0 ==> forward_bind(r) is None,
        kind == "remote"@ ==> (r is Remote && r->Remote_remote_port == port1
            && r->Remote_local_port == port2 && r->Remote_local_host@ == trim(host_text)),
        kind != "remote"@ ==> (r is Local && r->Local_local_port == port1
            && r->Local_remote_port == port2 && r->Local_remote_host@ == trim(host_text)),
{
}

/// A typed id that is not blank is the id, trimmed and otherwise unchanged;
/// only a blank id field falls back to the slug of the trimmed name, and with
/// both blank there is no id.
pub proof fn lemma_resolved_id_prefers_typed(id_text: Seq<char>, name_text: Seq<char>)
    ensures
        trim(id_text).len() > 0 ==> resolved_id(id_text, name_text) == Some(trim(id_text)),
        trim(id_text).len() == 0 && trim(name_text).len() > 0 ==> resolved_id(id_text, name_text)
            == Some(slug_of(trim(name_text))),
        trim(id_text).len() == 0 && trim(name_text).len() == 0 ==> resolved_id(id_text, name_text)
            is None,
{
}

} // verus!
