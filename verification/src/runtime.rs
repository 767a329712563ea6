//! The profile list that the editor shows: stored profiles merged with what
//! the backend reports, in display order, and the texts and switches derived
//! from it.
use vstd::prelude::*;

use crate::order::{
    compare_texts, lemma_text_lt_first_difference, lemma_text_lt_irreflexive,
    lemma_text_lt_proper_prefix, lemma_text_lt_total, lemma_text_lt_transitive, text_lt,
};
use crate::text::{chars_of, copy_string, trim, trim_str};

verus! {

/// A profile as the editor lists it.
#[derive(Debug, Clone)]
pub struct RuntimeProfile {
    pub id: String,
    pub name: String,
    pub status: String,
    pub autostart: bool,
    pub last_error: String,
}

/// The result of one refresh: whether the backend answered, and the profiles.
#[derive(Debug, Clone)]
pub struct RefreshSnapshot {
    pub backend_available: bool,
    pub profiles: Vec<RuntimeProfile>,
}

/// What `str::to_lowercase` gives for a text (full Unicode lowercasing).
pub uninterp spec fn unicode_lowercase(text: Seq<char>) -> Seq<char>;

/// The Unicode lowercase form of a text.
/// Trusted: `str::to_lowercase`, whose result depends on the text alone; the
/// Unicode tables it follows are not stated here, only named.
#[verifier::external_body]
fn lowercase(s: &str) -> (r: String)
    ensures
        r@ == unicode_lowercase(s@),
{
    s.to_lowercase()
}

/// What a listing holds for one id: name, status and autostart flag.
pub type ListedEntry = (Seq<char>, Seq<char>, bool);

pub open spec fn local_view(local: Seq<(String, String, bool)>) -> Seq<(Seq<char>, Seq<char>, bool)> {
    local.map_values(|e: (String, String, bool)| (e.0@, e.1@, e.2))
}

pub open spec fn rows_view(rows: Seq<(String, String, String, bool)>) -> Seq<
    (Seq<char>, Seq<char>, Seq<char>, bool),
> {
    rows.map_values(|r: (String, String, String, bool)| (r.0@, r.1@, r.2@, r.3))
}

/// The stored profiles `(id, name, autostart)`, each `disconnected`; a later
/// entry with the same id replaces an earlier one.
pub open spec fn local_entries(local: Seq<(Seq<char>, Seq<char>, bool)>) -> Map<
    Seq<char>,
    ListedEntry,
>
    decreases local.len(),
{
    if local.len() == 0 {
        Map::empty()
    } else {
        let e = local.last();
        local_entries(local.drop_last()).insert(e.0, (e.1, "disconnected"@, e.2))
    }
}

/// The entries once the backend's rows `(id, name, status, autostart)` are
/// applied: a row sets name, status and autostart of its id, adding the id
/// where it was not stored.
pub open spec fn with_backend(
    m: Map<Seq<char>, ListedEntry>,
    rows: Seq<(Seq<char>, Seq<char>, Seq<char>, bool)>,
) -> Map<Seq<char>, ListedEntry>
    decreases rows.len(),
{
    if rows.len() == 0 {
        m
    } else {
        let r = rows.last();
        with_backend(m, rows.drop_last()).insert(r.0, (r.1, r.2, r.3))
    }
}

/// The entries of a refresh: the stored profiles, updated by the backend's
/// rows when it answered.
pub open spec fn refresh_entries(
    local: Seq<(String, String, bool)>,
    backend: Option<Vec<(String, String, String, bool)>>,
) -> Map<Seq<char>, ListedEntry> {
    match backend {
        Some(rows) => with_backend(local_entries(local_view(local)), rows_view(rows@)),
        None => local_entries(local_view(local)),
    }
}

pub open spec fn entry_of_profile(p: RuntimeProfile) -> ListedEntry {
    (p.name@, p.status@, p.autostart)
}

/// The profile is the entry of its id, with no error recorded yet.
pub open spec fn fits(p: RuntimeProfile, m: Map<Seq<char>, ListedEntry>) -> bool {
    &&& m.contains_key(p.id@)
    &&& m[p.id@] == entry_of_profile(p)
    &&& p.last_error@.len() == 0
}

pub open spec fn ids_distinct(s: Seq<RuntimeProfile>) -> bool {
    forall|i: int, j: int|
        0 <= i < s.len() && 0 <= j < s.len() && i != j ==> #[trigger] s[i].id@ != #[trigger] s[j].id@
}

pub open spec fn lists_id(s: Seq<RuntimeProfile>, k: Seq<char>) -> bool {
    exists|i: int| 0 <= i < s.len() && #[trigger] s[i].id@ == k
}

/// `s` lists each id of `m` exactly once, as its entry.
pub open spec fn lists_exactly(s: Seq<RuntimeProfile>, m: Map<Seq<char>, ListedEntry>) -> bool {
    &&& ids_distinct(s)
    &&& forall|i: int| 0 <= i < s.len() ==> fits(#[trigger] s[i], m)
    &&& forall|k: Seq<char>| #[trigger] m.contains_key(k) ==> lists_id(s, k)
}

/// Display order: by lowercased name, then by id.
pub open spec fn listed_before(p: RuntimeProfile, q: RuntimeProfile) -> bool {
    key_id_before(unicode_lowercase(p.name@), p.id@, unicode_lowercase(q.name@), q.id@)
}

pub open spec fn in_display_order(s: Seq<RuntimeProfile>) -> bool {
    forall|i: int, j: int| 0 <= i < j < s.len() ==> listed_before(#[trigger] s[i], #[trigger] s[j])
}

/// Order by key, then by id.
pub open spec fn key_id_before(ka: Seq<char>, ia: Seq<char>, kb: Seq<char>, ib: Seq<char>) -> bool {
    text_lt(ka, kb) || (ka == kb && text_lt(ia, ib))
}

proof fn lemma_key_id_transitive(
    ka: Seq<char>,
    ia: Seq<char>,
    kb: Seq<char>,
    ib: Seq<char>,
    kc: Seq<char>,
    ic: Seq<char>,
)
    requires
        key_id_before(ka, ia, kb, ib),
        key_id_before(kb, ib, kc, ic),
    ensures
        key_id_before(ka, ia, kc, ic),
{
    if text_lt(ka, kb) && text_lt(kb, kc) {
        lemma_text_lt_transitive(ka, kb, kc);
    } else if text_lt(ka, kb) {
    } else if text_lt(kb, kc) {
    } else {
        lemma_text_lt_transitive(ia, ib, ic);
    }
}

proof fn lemma_key_id_total(ka: Seq<char>, ia: Seq<char>, kb: Seq<char>, ib: Seq<char>)
    requires
        ia != ib,
    ensures
        key_id_before(ka, ia, kb, ib) || key_id_before(kb, ib, ka, ia),
{
    if ka != kb {
        lemma_text_lt_total(ka, kb);
    } else {
        lemma_text_lt_total(ia, ib);
    }
}

/// Display order is transitive.
pub proof fn lemma_listed_before_transitive(p: RuntimeProfile, q: RuntimeProfile, r: RuntimeProfile)
    requires
        listed_before(p, q),
        listed_before(q, r),
    ensures
        listed_before(p, r),
{
    lemma_key_id_transitive(
        unicode_lowercase(p.name@),
        p.id@,
        unicode_lowercase(q.name@),
        q.id@,
        unicode_lowercase(r.name@),
        r.id@,
    );
}

/// Two profiles with different ids are always in display order one way or
/// the other.
pub proof fn lemma_listed_before_total(p: RuntimeProfile, q: RuntimeProfile)
    requires
        p.id@ != q.id@,
    ensures
        listed_before(p, q) || listed_before(q, p),
{
    lemma_key_id_total(unicode_lowercase(p.name@), p.id@, unicode_lowercase(q.name@), q.id@);
}

/// Display order follows the lowercased names letter by letter: a name whose
/// lowercase form is a proper prefix of another's comes first.
pub proof fn lemma_display_order_prefix_first(p: RuntimeProfile, q: RuntimeProfile)
    requires
        unicode_lowercase(p.name@).len() < unicode_lowercase(q.name@).len(),
        unicode_lowercase(p.name@) == unicode_lowercase(q.name@).take(
            unicode_lowercase(p.name@).len() as int,
        ),
    ensures
        listed_before(p, q),
        !listed_before(q, p),
{
    let kp = unicode_lowercase(p.name@);
    let kq = unicode_lowercase(q.name@);
    lemma_text_lt_proper_prefix(kp, kq);
    assert(kp != kq);
    if text_lt(kq, kp) {
        lemma_text_lt_transitive(kp, kq, kp);
        lemma_text_lt_irreflexive(kp);
    }
}

/// At the first position where the lowercased names differ, the profile with
/// the smaller character comes first.
pub proof fn lemma_display_order_first_difference(p: RuntimeProfile, q: RuntimeProfile, k: int)
    requires
        0 <= k < unicode_lowercase(p.name@).len(),
        k < unicode_lowercase(q.name@).len(),
        unicode_lowercase(p.name@).take(k) == unicode_lowercase(q.name@).take(k),
        unicode_lowercase(p.name@)[k] < unicode_lowercase(q.name@)[k],
    ensures
        listed_before(p, q),
        !listed_before(q, p),
{
    let kp = unicode_lowercase(p.name@);
    let kq = unicode_lowercase(q.name@);
    lemma_text_lt_first_difference(kp, kq, k);
    assert(kp != kq) by {
        assert(kp[k] != kq[k]);
    }
    if text_lt(kq, kp) {
        lemma_text_lt_transitive(kp, kq, kp);
        lemma_text_lt_irreflexive(kp);
    }
}

/// Profiles whose names lowercase alike are ordered by id, letter by letter:
/// an id that is a proper prefix of the other comes first, else the smaller
/// character at the first difference decides.
pub proof fn lemma_display_order_same_name(p: RuntimeProfile, q: RuntimeProfile, k: int)
    requires
        unicode_lowercase(p.name@) == unicode_lowercase(q.name@),
        0 <= k <= p.id@.len(),
        k <= q.id@.len(),
        p.id@.take(k) == q.id@.take(k),
        (k == p.id@.len() && k < q.id@.len()) || (k < p.id@.len() && k < q.id@.len() && p.id@[k]
            < q.id@[k]),
    ensures
        listed_before(p, q),
        !listed_before(q, p),
{
    if k == p.id@.len() {
        assert(p.id@ =~= q.id@.take(k));
        lemma_text_lt_proper_prefix(p.id@, q.id@);
    } else {
        lemma_text_lt_first_difference(p.id@, q.id@, k);
    }
    lemma_text_lt_irreflexive(unicode_lowercase(p.name@));
    if text_lt(q.id@, p.id@) {
        lemma_text_lt_transitive(p.id@, q.id@, p.id@);
        lemma_text_lt_irreflexive(p.id@);
    }
}

fn new_profile(id: &String, name: &String, status: &String, autostart: bool) -> (p: RuntimeProfile)
    ensures
        p.id@ == id@,
        p.name@ == name@,
        p.status@ == status@,
        p.autostart == autostart,
        p.last_error@.len() == 0,
{
    RuntimeProfile {
        id: copy_string(id),
        name: copy_string(name),
        status: copy_string(status),
        autostart,
        last_error: String::new(),
    }
}

/// Sets the entry of an id, adding the id if it is not listed.
fn upsert(
    items: &mut Vec<RuntimeProfile>,
    p: RuntimeProfile,
    Ghost(m): Ghost<Map<Seq<char>, ListedEntry>>,
)
    requires
        lists_exactly(old(items)@, m),
        p.last_error@.len() == 0,
    ensures
        lists_exactly(final(items)@, m.insert(p.id@, entry_of_profile(p))),
{
    let ghost m2 = m.insert(p.id@, entry_of_profile(p));
    let mut j: usize = 0;
    while j < items.len() && !(items[j].id == p.id)
        invariant
            j <= items.len(),
            forall|t: int| 0 <= t < j ==> items@[t].id@ != p.id@,
        decreases items.len() - j,
    {
        j = j + 1;
    }
    let ghost before = items@;
    if j < items.len() {
        items.set(j, p);
        assert forall|i: int| 0 <= i < items@.len() implies fits(#[trigger] items@[i], m2) by {
            if i != j {
                assert(items@[i] == before[i]);
                assert(fits(before[i], m));
                assert(before[i].id@ != before[j as int].id@);
            }
        }
        assert forall|k: Seq<char>| #[trigger] m2.contains_key(k) implies lists_id(items@, k) by {
            if k == items@[j as int].id@ {
                assert(items@[j as int].id@ == k);
            } else {
                assert(m.contains_key(k));
                assert(lists_id(before, k));
                let i = choose|i: int| 0 <= i < before.len() && #[trigger] before[i].id@ == k;
                assert(items@[i] == before[i]);
            }
        }
        assert forall|a: int, b: int|
            0 <= a < items@.len() && 0 <= b < items@.len() && a != b implies #[trigger] items@[a].id@
            != #[trigger] items@[b].id@ by {
            if a != j && b != j {
                assert(items@[a] == before[a] && items@[b] == before[b]);
            } else if a == j {
                assert(items@[b] == before[b]);
                assert(before[b].id@ != before[a].id@);
            } else {
                assert(items@[a] == before[a]);
                assert(before[a].id@ != before[b].id@);
            }
        }
    } else {
        items.push(p);
        assert forall|i: int| 0 <= i < items@.len() implies fits(#[trigger] items@[i], m2) by {
            if i < before.len() {
                assert(items@[i] == before[i]);
                assert(fits(before[i], m));
            }
        }
        assert forall|k: Seq<char>| #[trigger] m2.contains_key(k) implies lists_id(items@, k) by {
            if k == items@[before.len() as int].id@ {
            } else {
                assert(m.contains_key(k));
                assert(lists_id(before, k));
                let i = choose|i: int| 0 <= i < before.len() && #[trigger] before[i].id@ == k;
                assert(items@[i] == before[i]);
            }
        }
        assert forall|a: int, b: int|
            0 <= a < items@.len() && 0 <= b < items@.len() && a != b implies #[trigger] items@[a].id@
            != #[trigger] items@[b].id@ by {
            if a < before.len() && b < before.len() {
                assert(items@[a] == before[a] && items@[b] == before[b]);
            } else if a < before.len() {
                assert(items@[a] == before[a]);
            } else {
                assert(items@[b] == before[b]);
            }
        }
    }
}

/// A profile paired with its sort key.
pub type KeyedProfile = (String, RuntimeProfile);

/// `a` comes before `b`: by key, then by id.
pub open spec fn keyed_before(a: KeyedProfile, b: KeyedProfile) -> bool {
    key_id_before(a.0@, a.1.id@, b.0@, b.1.id@)
}

pub open spec fn keyed_ids_distinct(s: Seq<KeyedProfile>) -> bool {
    forall|i: int, j: int|
        0 <= i < s.len() && 0 <= j < s.len() && i != j ==> #[trigger] s[i].1.id@ != #[trigger] s[j].1.id@
}

/// Whether the pair with key `ka` and id `ia` comes before the one with key
/// `kb` and id `ib`.
fn comes_before(ka: &Vec<char>, ia: &Vec<char>, kb: &Vec<char>, ib: &Vec<char>) -> (r: bool)
    ensures
        r == key_id_before(ka@, ia@, kb@, ib@),
{
    let c = compare_texts(ka, kb);
    if c < 0 {
        true
    } else if c > 0 {
        false
    } else {
        compare_texts(ia, ib) < 0
    }
}

/// Puts profiles, each paired with its sort key and all with different ids,
/// in order of key, then id. The result holds the same pairs.
pub fn order_by_keys(keyed: Vec<KeyedProfile>) -> (r: Vec<KeyedProfile>)
    requires
        keyed_ids_distinct(keyed@),
    ensures
        r.len() == keyed.len(),
        keyed_ids_distinct(r@),
        forall|i: int| 0 <= i < r.len() ==> keyed@.contains(#[trigger] r@[i]),
        forall|j: int| 0 <= j < keyed.len() ==> r@.contains(#[trigger] keyed@[j]),
        forall|i: int, j: int| 0 <= i < j < r.len() ==> keyed_before(#[trigger] r@[i], #[trigger] r@[j]),
{
    let ghost k0 = keyed@;
    let mut rem = keyed;
    let mut kc: Vec<Vec<char>> = Vec::new();
    let mut idc: Vec<Vec<char>> = Vec::new();
    let mut i: usize = 0;
    while i < rem.len()
        invariant
            rem@ == k0,
            i <= rem.len(),
            kc.len() == i,
            idc.len() == i,
            forall|t: int| 0 <= t < i ==> #[trigger] kc@[t]@ == rem@[t].0@,
            forall|t: int| 0 <= t < i ==> #[trigger] idc@[t]@ == rem@[t].1.id@,
        decreases rem.len() - i,
    {
        kc.push(chars_of(rem[i].0.as_str()));
        idc.push(chars_of(rem[i].1.id.as_str()));
        i = i + 1;
    }
    let mut out: Vec<KeyedProfile> = Vec::new();
    proof {
        assert forall|j: int| 0 <= j < k0.len() implies out@.contains(#[trigger] k0[j]) || rem@.contains(
            k0[j],
        ) by {
            assert(rem@[j] == k0[j]);
        }
        assert forall|t: int| 0 <= t < rem@.len() implies k0.contains(#[trigger] rem@[t]) by {
            assert(k0[t] == rem@[t]);
        }
    }
    while rem.len() > 0
        invariant
            out.len() + rem.len() == k0.len(),
            kc.len() == rem.len(),
            idc.len() == rem.len(),
            forall|t: int| 0 <= t < rem.len() ==> #[trigger] kc@[t]@ == rem@[t].0@,
            forall|t: int| 0 <= t < rem.len() ==> #[trigger] idc@[t]@ == rem@[t].1.id@,
            keyed_ids_distinct(out@),
            keyed_ids_distinct(rem@),
            forall|a: int, b: int|
                0 <= a < out.len() && 0 <= b < rem.len() ==> #[trigger] out@[a].1.id@
                    != #[trigger] rem@[b].1.id@,
            forall|t: int| 0 <= t < out.len() ==> k0.contains(#[trigger] out@[t]),
            forall|t: int| 0 <= t < rem.len() ==> k0.contains(#[trigger] rem@[t]),
            forall|j: int| 0 <= j < k0.len() ==> out@.contains(#[trigger] k0[j]) || rem@.contains(k0[j]),
            forall|a: int, b: int| 0 <= a < b < out.len() ==> keyed_before(#[trigger] out@[a], #[trigger] out@[b]),
            forall|a: int, b: int|
                0 <= a < out.len() && 0 <= b < rem.len() ==> keyed_before(#[trigger] out@[a], #[trigger] rem@[b]),
        decreases rem.len(),
    {
        let mut best: usize = 0;
        let mut j: usize = 1;
        while j < rem.len()
            invariant
                best < j <= rem.len(),
                kc.len() == rem.len(),
                idc.len() == rem.len(),
                forall|t: int| 0 <= t < rem.len() ==> #[trigger] kc@[t]@ == rem@[t].0@,
                forall|t: int| 0 <= t < rem.len() ==> #[trigger] idc@[t]@ == rem@[t].1.id@,
                keyed_ids_distinct(rem@),
                forall|t: int| 0 <= t < j && t != best ==> keyed_before(rem@[best as int], #[trigger] rem@[t]),
            decreases rem.len() - j,
        {
            let ghost old_best = best;
            assert(kc@[j as int]@ == rem@[j as int].0@);
            assert(idc@[j as int]@ == rem@[j as int].1.id@);
            assert(kc@[best as int]@ == rem@[best as int].0@);
            assert(idc@[best as int]@ == rem@[best as int].1.id@);
            if comes_before(&kc[j], &idc[j], &kc[best], &idc[best]) {
                proof {
                    assert forall|t: int| 0 <= t < j + 1 && t != j implies keyed_before(
                        rem@[j as int],
                        #[trigger] rem@[t],
                    ) by {
                        if t != old_best {
                            let x = rem@[j as int];
                            let y = rem@[old_best as int];
                            let z = rem@[t];
                            lemma_key_id_transitive(x.0@, x.1.id@, y.0@, y.1.id@, z.0@, z.1.id@);
                        }
                    }
                }
                best = j;
            } else {
                proof {
                    let x = rem@[j as int];
                    let y = rem@[best as int];
                    assert(x.1.id@ != y.1.id@);
                    lemma_key_id_total(x.0@, x.1.id@, y.0@, y.1.id@);
                }
            }
            j = j + 1;
        }
        let ghost r0 = rem@;
        let ghost o0 = out@;
        proof {
            r0.remove_ensures(best as int);
            kc@.remove_ensures(best as int);
            idc@.remove_ensures(best as int);
        }
        let _k = kc.remove(best);
        let _d = idc.remove(best);
        let p = rem.remove(best);
        out.push(p);
        proof {
            assert(out@[o0.len() as int] == r0[best as int]);
            assert forall|t: int| 0 <= t < out@.len() implies k0.contains(#[trigger] out@[t]) by {
                if t < o0.len() {
                    assert(out@[t] == o0[t]);
                }
            }
            assert forall|t: int| 0 <= t < rem@.len() implies k0.contains(#[trigger] rem@[t]) by {
                if t < best {
                    assert(rem@[t] == r0[t]);
                } else {
                    assert(rem@[t] == r0[t + 1]);
                }
            }
            assert forall|t: int| 0 <= t < rem@.len() implies #[trigger] kc@[t]@ == rem@[t].0@ by {
                if t < best {
                    assert(rem@[t] == r0[t]);
                } else {
                    assert(rem@[t] == r0[t + 1]);
                }
            }
            assert forall|t: int| 0 <= t < rem@.len() implies #[trigger] idc@[t]@ == rem@[t].1.id@ by {
                if t < best {
                    assert(rem@[t] == r0[t]);
                } else {
                    assert(rem@[t] == r0[t + 1]);
                }
            }
            assert forall|a: int, b: int|
                0 <= a < rem@.len() && 0 <= b < rem@.len() && a != b implies #[trigger] rem@[a].1.id@
                != #[trigger] rem@[b].1.id@ by {
                let a0 = if a < best { a } else { a + 1 };
                let b0 = if b < best { b } else { b + 1 };
                assert(rem@[a] == r0[a0] && rem@[b] == r0[b0]);
            }
            assert forall|a: int, b: int|
                0 <= a < out@.len() && 0 <= b < out@.len() && a != b implies #[trigger] out@[a].1.id@
                != #[trigger] out@[b].1.id@ by {
                if a < o0.len() && b < o0.len() {
                    assert(out@[a] == o0[a] && out@[b] == o0[b]);
                } else if a < o0.len() {
                    assert(out@[a] == o0[a]);
                } else {
                    assert(out@[b] == o0[b]);
                }
            }
            assert forall|a: int, b: int|
                0 <= a < out@.len() && 0 <= b < rem@.len() implies #[trigger] out@[a].1.id@
                != #[trigger] rem@[b].1.id@ by {
                let b0 = if b < best { b } else { b + 1 };
                assert(rem@[b] == r0[b0]);
                if a < o0.len() {
                    assert(out@[a] == o0[a]);
                }
            }
            assert forall|j: int| 0 <= j < k0.len() implies out@.contains(#[trigger] k0[j])
                || rem@.contains(k0[j]) by {
                if o0.contains(k0[j]) {
                    let i = choose|i: int| 0 <= i < o0.len() && o0[i] == k0[j];
                    assert(out@[i] == o0[i]);
                } else {
                    let i = choose|i: int| 0 <= i < r0.len() && r0[i] == k0[j];
                    if i == best {
                        assert(out@[o0.len() as int] == k0[j]);
                    } else if i < best {
                        assert(rem@[i] == r0[i]);
                    } else {
                        assert(rem@[i - 1] == r0[i]);
                    }
                }
            }
            assert forall|a: int, b: int| 0 <= a < b < out@.len() implies keyed_before(
                #[trigger] out@[a],
                #[trigger] out@[b],
            ) by {
                assert(out@[a] == o0[a]);
                if b < o0.len() {
                    assert(out@[b] == o0[b]);
                }
            }
            assert forall|a: int, b: int|
                0 <= a < out@.len() && 0 <= b < rem@.len() implies keyed_before(
                #[trigger] out@[a],
                #[trigger] rem@[b],
            ) by {
                let b0 = if b < best { b } else { b + 1 };
                assert(rem@[b] == r0[b0]);
                if a < o0.len() {
                    assert(out@[a] == o0[a]);
                } else {
                    assert(b0 != best);
                }
            }
        }
    }
    proof {
        assert forall|j: int| 0 <= j < k0.len() implies out@.contains(#[trigger] k0[j]) by {
            if rem@.contains(k0[j]) {
                let i = choose|i: int| 0 <= i < rem@.len() && rem@[i] == k0[j];
            }
        }
    }
    out
}

/// Puts the listed profiles in display order.
fn sort_for_display(items: Vec<RuntimeProfile>, Ghost(m): Ghost<Map<Seq<char>, ListedEntry>>) -> (r:
    Vec<RuntimeProfile>)
    requires
        lists_exactly(items@, m),
    ensures
        lists_exactly(r@, m),
        in_display_order(r@),
{
    let ghost i0 = items@;
    let mut items = items;
    let mut keyed: Vec<KeyedProfile> = Vec::new();
    while items.len() > 0
        invariant
            keyed.len() + items.len() == i0.len(),
            items@ == i0.skip(keyed.len() as int),
            forall|t: int| 0 <= t < keyed.len() ==> #[trigger] keyed@[t].1 == i0[t],
            forall|t: int| 0 <= t < keyed.len() ==> #[trigger] keyed@[t].0@ == unicode_lowercase(keyed@[t].1.name@),
        decreases items.len(),
    {
        proof {
            items@.remove_ensures(0);
        }
        let p = items.remove(0);
        let key = lowercase(p.name.as_str());
        keyed.push((key, p));
        assert(items@ =~= i0.skip(keyed.len() as int));
    }
    assert(keyed_ids_distinct(keyed@)) by {
        assert forall|a: int, b: int|
            0 <= a < keyed@.len() && 0 <= b < keyed@.len() && a != b implies #[trigger] keyed@[a].1.id@
            != #[trigger] keyed@[b].1.id@ by {
            assert(keyed@[a].1 == i0[a] && keyed@[b].1 == i0[b]);
        }
    }
    let ghost kd = keyed@;
    let mut sorted = order_by_keys(keyed);
    let ghost s0 = sorted@;
    let mut out: Vec<RuntimeProfile> = Vec::new();
    while sorted.len() > 0
        invariant
            out.len() + sorted.len() == s0.len(),
            sorted@ == s0.skip(out.len() as int),
            forall|t: int| 0 <= t < out.len() ==> #[trigger] out@[t] == s0[t].1,
        decreases sorted.len(),
    {
        proof {
            sorted@.remove_ensures(0);
        }
        let (_key, p) = sorted.remove(0);
        out.push(p);
        assert(sorted@ =~= s0.skip(out.len() as int));
    }
    proof {
        assert forall|t: int| 0 <= t < out@.len() implies fits(#[trigger] out@[t], m) && #[trigger] s0[t].0@
            == unicode_lowercase(out@[t].name@) by {
            assert(kd.contains(s0[t]));
            let j = choose|j: int| 0 <= j < kd.len() && kd[j] == s0[t];
            assert(kd[j].1 == i0[j]);
            assert(fits(i0[j], m));
        }
        assert forall|a: int, b: int|
            0 <= a < out@.len() && 0 <= b < out@.len() && a != b implies #[trigger] out@[a].id@
            != #[trigger] out@[b].id@ by {
            assert(out@[a] == s0[a].1 && out@[b] == s0[b].1);
        }
        assert forall|k: Seq<char>| #[trigger] m.contains_key(k) implies lists_id(out@, k) by {
            let j = choose|j: int| 0 <= j < i0.len() && #[trigger] i0[j].id@ == k;
            assert(kd[j].1 == i0[j]);
            assert(s0.contains(kd[j]));
            let t = choose|t: int| 0 <= t < s0.len() && s0[t] == kd[j];
            assert(out@[t] == s0[t].1);
        }
        assert forall|a: int, b: int| 0 <= a < b < out@.len() implies listed_before(
            #[trigger] out@[a],
            #[trigger] out@[b],
        ) by {
            assert(keyed_before(s0[a], s0[b]));
            assert(out@[a] == s0[a].1 && out@[b] == s0[b].1);
            assert(s0[a].0@ == unicode_lowercase(out@[a].name@));
            assert(s0[b].0@ == unicode_lowercase(out@[b].name@));
        }
    }
    out
}

/// The profile list of a refresh, from the stored profiles
/// `(id, name, autostart)` and, when the backend answered, its rows
/// `(id, name, status, autostart)`: each id once, stored profiles as
/// `disconnected`, the backend's view of name, status and autostart where
/// it has one, in display order (lowercased name, then id), no errors
/// recorded yet.
pub fn merge_refresh(
    local: &Vec<(String, String, bool)>,
    backend: &Option<Vec<(String, String, String, bool)>>,
) -> (snap: RefreshSnapshot)
    ensures
        snap.backend_available == (backend is Some),
        lists_exactly(snap.profiles@, refresh_entries(local@, *backend)),
        in_display_order(snap.profiles@),
{
    let mut items: Vec<RuntimeProfile> = Vec::new();
    let disconnected = String::from_str("disconnected");
    let mut i: usize = 0;
    while i < local.len()
        invariant
            i <= local.len(),
            disconnected@ == "disconnected"@,
            lists_exactly(items@, local_entries(local_view(local@.take(i as int)))),
        decreases local.len() - i,
    {
        let ghost m = local_entries(local_view(local@.take(i as int)));
        assert(local_view(local@.take(i + 1)).drop_last() =~= local_view(local@.take(i as int)));
        let p = new_profile(&local[i].0, &local[i].1, &disconnected, local[i].2);
        upsert(&mut items, p, Ghost(m));
        i = i + 1;
    }
    assert(local@.take(local.len() as int) =~= local@);
    let ghost base = local_entries(local_view(local@));
    let available = match backend {
        Some(rows) => {
            let mut j: usize = 0;
            while j < rows.len()
                invariant
                    j <= rows.len(),
                    lists_exactly(items@, with_backend(base, rows_view(rows@.take(j as int)))),
                decreases rows.len() - j,
            {
                let ghost m = with_backend(base, rows_view(rows@.take(j as int)));
                assert(rows_view(rows@.take(j + 1)).drop_last() =~= rows_view(rows@.take(j as int)));
                let p = new_profile(&rows[j].0, &rows[j].1, &rows[j].2, rows[j].3);
                upsert(&mut items, p, Ghost(m));
                j = j + 1;
            }
            assert(rows@.take(rows.len() as int) =~= rows@);
            true
        },
        None => false,
    };
    let ghost m = refresh_entries(local@, *backend);
    let profiles = sort_for_display(items, Ghost(m));
    RefreshSnapshot { backend_available: available, profiles }
}

impl RuntimeProfile {
    /// Whether the profile's status is `failed`.
    pub fn is_failed(&self) -> (r: bool)
        ensures
            r == (self.status@ == "failed"@),
    {
        self.status == String::from_str("failed")
    }
}

impl RefreshSnapshot {
    /// Records the last journal line of profile `i` as its error, where that
    /// profile failed; nothing else changes.
    pub fn record_last_error(&mut self, i: usize, line: String)
        requires
            i < old(self).profiles.len(),
        ensures
            final(self).backend_available == old(self).backend_available,
            final(self).profiles.len() == old(self).profiles.len(),
            forall|t: int|
                0 <= t < old(self).profiles.len() && t != i ==> #[trigger] final(self).profiles@[t]
                    == old(self).profiles@[t],
            final(self).profiles@[i as int].id@ == old(self).profiles@[i as int].id@,
            final(self).profiles@[i as int].name@ == old(self).profiles@[i as int].name@,
            final(self).profiles@[i as int].status@ == old(self).profiles@[i as int].status@,
            final(self).profiles@[i as int].autostart == old(self).profiles@[i as int].autostart,
            final(self).profiles@[i as int].last_error@ == if old(self).profiles@[i as int].status@
                == "failed"@ {
                line@
            } else {
                old(self).profiles@[i as int].last_error@
            },
    {
        if self.profiles[i].is_failed() {
            let old_p = &self.profiles[i];
            let p = RuntimeProfile {
                id: copy_string(&old_p.id),
                name: copy_string(&old_p.name),
                status: copy_string(&old_p.status),
                autostart: old_p.autostart,
                last_error: line,
            };
            self.profiles.set(i, p);
        }
    }
}

/// The line under a profile's name: id and status, `autostart` when set,
/// and, for a failed profile with a recorded error, the error on a line of
/// its own.
pub open spec fn subtitle_text(p: RuntimeProfile) -> Seq<char> {
    let base = p.id@ + "  \u{2022}  "@ + p.status@;
    let with_auto = if p.autostart {
        base + "  \u{2022}  autostart"@
    } else {
        base
    };
    if p.status@ == "failed"@ && p.last_error@.len() > 0 {
        with_auto + "\n"@ + p.last_error@
    } else {
        with_auto
    }
}

/// The line under a profile's name in the list (see `subtitle_text`).
pub fn profile_subtitle(p: &RuntimeProfile) -> (r: String)
    ensures
        r@ == subtitle_text(*p),
{
    let mut r = copy_string(&p.id);
    r.append("  \u{2022}  ");
    r.append(p.status.as_str());
    if p.autostart {
        r.append("  \u{2022}  autostart");
    }
    if p.is_failed() && !p.last_error.as_str().is_empty() {
        r.append("\n");
        r.append(p.last_error.as_str());
    }
    r
}

/// The first listed profile with the id, if any.
pub open spec fn first_with_id(s: Seq<RuntimeProfile>, id: Seq<char>) -> Option<int> {
    if exists|i: int| 0 <= i < s.len() && #[trigger] s[i].id@ == id {
        Some(
            choose|i: int|
                0 <= i < s.len() && #[trigger] s[i].id@ == id && forall|j: int|
                    0 <= j < i ==> s[j].id@ != id,
        )
    } else {
        None
    }
}

/// The status and error lines shown for the selected profile: no selection
/// reads as disconnected, an unlisted one as unknown, a listed one shows its
/// status and, when it failed with a recorded error, that error.
pub open spec fn section_texts(selected: Option<Seq<char>>, s: Seq<RuntimeProfile>) -> (
    Seq<char>,
    Seq<char>,
) {
    match selected {
        None => ("Status: disconnected"@, Seq::<char>::empty()),
        Some(id) => {
            if exists|i: int| 0 <= i < s.len() && #[trigger] s[i].id@ == id {
                let i = choose|i: int|
                    0 <= i < s.len() && #[trigger] s[i].id@ == id && forall|j: int|
                        0 <= j < i ==> s[j].id@ != id;
                let p = s[i];
                (
                    "Status: "@ + p.status@,
                    if p.status@ == "failed"@ && p.last_error@.len() > 0 {
                        "Last error: "@ + p.last_error@
                    } else {
                        Seq::<char>::empty()
                    },
                )
            } else {
                ("Status: unknown"@, Seq::<char>::empty())
            }
        },
    }
}

pub open spec fn opt_view(o: Option<String>) -> Option<Seq<char>> {
    match o {
        Some(s) => Some(s@),
        None => None,
    }
}

/// The status and error lines for the selected profile (see `section_texts`).
pub fn runtime_section(selected: &Option<String>, profiles: &Vec<RuntimeProfile>) -> (r: (
    String,
    String,
))
    ensures
        (r.0@, r.1@) == section_texts(opt_view(*selected), profiles@),
{
    match selected {
        None => (String::from_str("Status: disconnected"), String::new()),
        Some(id) => {
            let mut i: usize = 0;
            while i < profiles.len() && !(profiles[i].id == *id)
                invariant
                    i <= profiles.len(),
                    forall|j: int| 0 <= j < i ==> profiles@[j].id@ != id@,
                decreases profiles.len() - i,
            {
                i = i + 1;
            }
            if i == profiles.len() {
                (String::from_str("Status: unknown"), String::new())
            } else {
                let ghost s = profiles@;
                proof {
                    let c = choose|c: int|
                        0 <= c < s.len() && #[trigger] s[c].id@ == id@ && forall|j: int|
                            0 <= j < c ==> s[j].id@ != id@;
                    assert(0 <= i < s.len() && s[i as int].id@ == id@ && forall|j: int|
                        0 <= j < i ==> s[j].id@ != id@);
                    if c < i {
                        assert(s[c].id@ != id@);
                    } else if c > i {
                        assert(s[i as int].id@ != id@);
                    }
                }
                let p = &profiles[i];
                let mut status_line = String::from_str("Status: ");
                status_line.append(p.status.as_str());
                let error_line = if p.is_failed() && !p.last_error.as_str().is_empty() {
                    let mut e = String::from_str("Last error: ");
                    e.append(p.last_error.as_str());
                    e
                } else {
                    String::new()
                };
                (status_line, error_line)
            }
        },
    }
}

/// Connect and disconnect are offered only while the backend answers and a
/// profile id is at hand.
pub fn actions_enabled(backend_available: bool, selected: &Option<String>) -> (r: bool)
    ensures
        r == (backend_available && match selected {
            Some(id) => id@.len() > 0,
            None => false,
        }),
{
    match selected {
        Some(id) => backend_available && !id.as_str().is_empty(),
        None => false,
    }
}

/// The profile the editor acts on: the trimmed id field when it is not
/// blank, else the profile selected in the list.
pub fn editor_id_or_selected(id_text: &str, selected: &Option<String>) -> (r: Option<String>)
    ensures
        trim(id_text@).len() > 0 ==> opt_view(r) == Some(trim(id_text@)),
        trim(id_text@).len() == 0 ==> opt_view(r) == opt_view(*selected),
{
    let t = trim_str(id_text);
    if !t.as_str().is_empty() {
        return Some(t);
    }
    match selected {
        Some(s) => Some(copy_string(s)),
        None => None,
    }
}

/// The backend line of the editor after a refresh.
pub fn backend_status_text(backend_available: bool) -> (r: String)
    ensures
        r@ == if backend_available {
            "Backend: available"@
        } else {
            "Backend: unavailable (editing still works)"@
        },
{
    if backend_available {
        String::from_str("Backend: available")
    } else {
        String::from_str("Backend: unavailable (editing still works)")
    }
}

/// What the editor shows once a backend action ends.
#[derive(Debug, Clone)]
pub struct ActionFeedback {
    /// The text of the validation line.
    pub validation: String,
    /// Whether the validation line shows an error.
    pub is_error: bool,
    /// The new text of the backend line, if it changes.
    pub status_line: Option<String>,
}

/// What the editor shows once the action `label` ended: on success an empty
/// validation line and "`label` succeeded" on the backend line; on failure
/// "`label` failed: `error`" as an error, the backend line unchanged.
pub fn action_feedback(label: &str, result: &Result<(), String>) -> (r: ActionFeedback)
    ensures
        match result {
            Ok(()) => r.validation@.len() == 0 && !r.is_error && opt_view(r.status_line) == Some(
                label@ + " succeeded"@,
            ),
            Err(e) => r.validation@ == label@ + " failed: "@ + e@ && r.is_error && r.status_line
                is None,
        },
{
    match result {
        Ok(()) => {
            let mut s = String::from_str(label);
            s.append(" succeeded");
            ActionFeedback { validation: String::new(), is_error: false, status_line: Some(s) }
        },
        Err(e) => {
            let mut v = String::from_str(label);
            v.append(" failed: ");
            v.append(e.as_str());
            ActionFeedback { validation: v, is_error: true, status_line: None }
        },
    }
}

/// The text of the backend line when a refresh failed.
pub fn refresh_failed_text(error: &str) -> (r: String)
    ensures
        r@ == "Backend refresh failed: "@ + error@,
{
    let mut r = String::from_str("Backend refresh failed: ");
    r.append(error);
    r
}

/// Whether a refresh is running: at most one runs at a time.
pub struct RefreshGate {
    in_flight: bool,
}

impl RefreshGate {
    pub closed spec fn busy(&self) -> bool {
        self.in_flight
    }

    /// A gate with no refresh running.
    pub fn new() -> (g: Self)
        ensures
            !g.busy(),
    {
        RefreshGate { in_flight: false }
    }

    /// Begins a refresh unless one is in progress, returning whether it
    /// began; afterwards a refresh is in progress.
    pub fn try_begin(&mut self) -> (granted: bool)
        ensures
            granted == !old(self).busy(),
            final(self).busy(),
    {
        let was = self.in_flight;
        self.in_flight = true;
        !was
    }

    /// Records that the running refresh ended.
    pub fn finish(&mut self)
        ensures
            !final(self).busy(),
    {
        self.in_flight = false;
    }
}


} // verus!
