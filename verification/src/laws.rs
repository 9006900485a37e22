//! The laws the library obeys, each stated over the specification
//! functions that the executable contracts are written against.

use crate::catalog::artist_title_pred;
use crate::catalog::catalog_wf;
use crate::catalog::count_matches;
use crate::catalog::first_match;
use crate::catalog::found_or_not;
use crate::catalog::has_id;
use crate::catalog::has_path;
use crate::catalog::id_pred;
use crate::catalog::idx_of_id;
use crate::catalog::lemma_count_pos_first_some;
use crate::catalog::lemma_count_zero;
use crate::catalog::lemma_first_match_found;
use crate::catalog::lemma_first_match_none;
use crate::catalog::path_pred;
use crate::catalog::spec_add;
use crate::catalog::spec_remove;
use crate::catalog::spec_resolve;
use crate::catalog::title_pred;
use crate::catalog::with_id;
use crate::catalog::CatalogView;
use crate::errors::ErrorKind;
use crate::numeral::int_token_value;
use crate::numeral::is_int_token;
use crate::playback::controller_inv;
use crate::playback::step_pause;
use crate::playback::step_play;
use crate::playback::step_resume;
use crate::playback::step_stop;
use crate::playback::ControllerView;
use crate::text::is_space;
use crate::text::lemma_first_index_of_found;
use crate::text::lemma_first_index_of_none;
use crate::text::ltrim;
use crate::text::rtrim;
use crate::text::trim;
use crate::track::TrackView;
use vstd::prelude::*;

verus! {

/// Law: in a well-formed catalog, any integer token denoting a record's
/// id resolves to exactly that record, whatever the hint and the probe.
pub proof fn lemma_resolve_by_id(
    c: CatalogView,
    k: int,
    token: Seq<char>,
    hint: Option<Seq<char>>,
    probe: Option<Seq<char>>,
)
    requires
        catalog_wf(c),
        0 <= k < c.tracks.len(),
        is_int_token(token),
        int_token_value(token) == c.tracks[k].id,
    ensures
        spec_resolve(c.tracks, token, hint, probe) == Ok::<TrackView, ErrorKind>(c.tracks[k]),
{
    let id = c.tracks[k].id;
    let p = id_pred(id);
    assert(int_token_value(token) as i64 == id);
    assert forall|m: int| 0 <= m < k implies !p(#[trigger] c.tracks[m]) by {
        assert(c.tracks[m].id != c.tracks[k].id);
    }
    assert(p(c.tracks[k]));
    lemma_first_match_found(c.tracks, p, k);
}

/// Law: in a well-formed catalog, a non-integer token whose disk probe
/// yields a record's normalized path resolves to exactly that record.
pub proof fn lemma_resolve_by_path(c: CatalogView, k: int, token: Seq<char>, hint: Option<Seq<char>>)
    requires
        catalog_wf(c),
        0 <= k < c.tracks.len(),
        !is_int_token(token),
    ensures
        spec_resolve(c.tracks, token, hint, Some(c.tracks[k].path)) == Ok::<TrackView, ErrorKind>(
            c.tracks[k],
        ),
{
    let p = path_pred(c.tracks[k].path);
    assert forall|m: int| 0 <= m < k implies !p(#[trigger] c.tracks[m]) by {
        assert(c.tracks[m].path != c.tracks[k].path);
    }
    assert(p(c.tracks[k]));
    lemma_first_match_found(c.tracks, p, k);
}

/// A successful add preserves catalog well-formedness.
pub proof fn lemma_add_preserves_wf(c: CatalogView, d: TrackView)
    requires
        catalog_wf(c),
        c.next_id < i64::MAX,
    ensures
        catalog_wf(spec_add(c, d).0),
{
    if !has_path(c.tracks, d.path) {
        let c1 = spec_add(c, d).0;
        assert(c1.tracks == c.tracks.push(with_id(d, c.next_id)));
        assert forall|i: int|
            0 <= i < c1.tracks.len() implies 1 <= (#[trigger] c1.tracks[i]).id && c1.tracks[i].id
            < c1.next_id by {
            if i < c.tracks.len() {
                assert(c1.tracks[i] == c.tracks[i]);
            }
        }
        assert forall|i: int, j: int|
            0 <= i < j < c1.tracks.len() implies (#[trigger] c1.tracks[i]).id != (
        #[trigger] c1.tracks[j]).id by {
            if j == c.tracks.len() {
                assert(c1.tracks[i] == c.tracks[i]);
            }
        }
        assert forall|i: int, j: int|
            0 <= i < j < c1.tracks.len() implies (#[trigger] c1.tracks[i]).path != (
        #[trigger] c1.tracks[j]).path by {
            if j == c.tracks.len() {
                assert(c1.tracks[i] == c.tracks[i]);
            }
        }
    }
}

/// Law: after a successful add, the returned id and the record's
/// normalized path both resolve to the record just added.
pub proof fn lemma_add_then_resolve(
    c: CatalogView,
    d: TrackView,
    token_id: Seq<char>,
    token_path: Seq<char>,
    hint: Option<Seq<char>>,
    hint2: Option<Seq<char>>,
    probe: Option<Seq<char>>,
)
    requires
        catalog_wf(c),
        c.next_id < i64::MAX,
        spec_add(c, d).1 is Ok,
        is_int_token(token_id),
        int_token_value(token_id) == spec_add(c, d).1->Ok_0,
        !is_int_token(token_path),
    ensures
        catalog_wf(spec_add(c, d).0),
        spec_resolve(spec_add(c, d).0.tracks, token_id, hint, probe) == Ok::<
            TrackView,
            ErrorKind,
        >(with_id(d, c.next_id)),
        spec_resolve(spec_add(c, d).0.tracks, token_path, hint2, Some(d.path)) == Ok::<
            TrackView,
            ErrorKind,
        >(with_id(d, c.next_id)),
{
    lemma_add_preserves_wf(c, d);
    let c1 = spec_add(c, d).0;
    let k = c.tracks.len() as int;
    assert(c1.tracks[k] == with_id(d, c.next_id));
    lemma_resolve_by_id(c1, k, token_id, hint, probe);
    lemma_resolve_by_path(c1, k, token_path, hint2);
}

/// Law: adding the same normalized path twice leaves exactly one record
/// with that path; the second add reports `DuplicatePath` and changes
/// nothing.
pub proof fn lemma_duplicate_add(c: CatalogView, d: TrackView, e: TrackView)
    requires
        catalog_wf(c),
        spec_add(c, d).1 is Ok,
        e.path == d.path,
    ensures
        spec_add(spec_add(c, d).0, e).1 == Err::<i64, ErrorKind>(ErrorKind::DuplicatePath),
        spec_add(spec_add(c, d).0, e).0 == spec_add(c, d).0,
        count_matches(spec_add(c, d).0.tracks, path_pred(d.path)) == 1,
{
    let c1 = spec_add(c, d).0;
    let x = with_id(d, c.next_id);
    assert(c1.tracks == c.tracks.push(x));
    assert(c1.tracks[c.tracks.len() as int] == x);
    assert(has_path(c1.tracks, e.path));
    let p = path_pred(d.path);
    assert(!has_path(c.tracks, d.path));
    assert forall|k: int| 0 <= k < c.tracks.len() implies !p(#[trigger] c.tracks[k]) by {
        if c.tracks[k].path == d.path {
            assert(has_path(c.tracks, d.path));
        }
    }
    lemma_count_zero(c.tracks, p);
    assert(c1.tracks.drop_last() =~= c.tracks);
    assert(c1.tracks.last() == x);
    assert(p(x));
    assert(count_matches(c1.tracks, p) == 1);
}

/// Whether every character of `s` is trimmable whitespace.
pub open spec fn all_spaces(s: Seq<char>) -> bool {
    forall|k: int| 0 <= k < s.len() ==> is_space(#[trigger] s[k])
}

pub proof fn lemma_ltrim_space_prefix(ws: Seq<char>, s: Seq<char>)
    requires
        all_spaces(ws),
    ensures
        ltrim(ws + s) == ltrim(s),
    decreases ws.len(),
{
    if ws.len() == 0 {
        assert(ws + s =~= s);
    } else {
        let u = ws + s;
        assert(u[0] == ws[0]);
        assert(is_space(u[0]));
        assert(u.drop_first() =~= ws.drop_first() + s);
        assert forall|k: int|
            0 <= k < ws.drop_first().len() implies is_space(#[trigger] ws.drop_first()[k]) by {
            assert(ws.drop_first()[k] == ws[k + 1]);
        }
        lemma_ltrim_space_prefix(ws.drop_first(), s);
    }
}

pub proof fn lemma_rtrim_space_suffix(s: Seq<char>, ws: Seq<char>)
    requires
        all_spaces(ws),
    ensures
        rtrim(s + ws) == rtrim(s),
    decreases ws.len(),
{
    if ws.len() == 0 {
        assert(s + ws =~= s);
    } else {
        let u = s + ws;
        assert(u.last() == ws.last());
        assert(is_space(u.last()));
        assert(u.drop_last() =~= s + ws.drop_last());
        assert forall|k: int|
            0 <= k < ws.drop_last().len() implies is_space(#[trigger] ws.drop_last()[k]) by {
            assert(ws.drop_last()[k] == ws[k]);
        }
        lemma_rtrim_space_suffix(s, ws.drop_last());
    }
}

/// Whitespace padding around an already-trimmed core trims away.
pub proof fn lemma_trim_padded(ws1: Seq<char>, mid: Seq<char>, ws2: Seq<char>)
    requires
        all_spaces(ws1),
        all_spaces(ws2),
        mid.len() == 0 || (!is_space(mid[0]) && !is_space(mid.last())),
    ensures
        trim(ws1 + mid + ws2) == mid,
{
    assert(ws1 + mid + ws2 =~= ws1 + (mid + ws2));
    lemma_ltrim_space_prefix(ws1, mid + ws2);
    if mid.len() == 0 {
        assert(mid + ws2 =~= ws2);
        assert(ws2 =~= ws2 + Seq::<char>::empty());
        lemma_ltrim_space_prefix(ws2, Seq::<char>::empty());
        assert(ltrim(Seq::<char>::empty()) =~= Seq::<char>::empty());
        assert(rtrim(Seq::<char>::empty()) =~= Seq::<char>::empty());
        assert(trim(ws1 + mid + ws2) =~= mid);
    } else {
        assert((mid + ws2)[0] == mid[0]);
        assert(ltrim(mid + ws2) == mid + ws2);
        lemma_rtrim_space_suffix(mid, ws2);
        assert(rtrim(mid) == mid);
    }
}

/// Law: a token that puts an artist and a title around the first `-`,
/// with any whitespace padding, resolves to the first record carrying
/// exactly that artist and title (NotFound when there is none).
pub proof fn lemma_resolve_artist_title(
    c: CatalogView,
    ws1: Seq<char>,
    a: Seq<char>,
    ws2: Seq<char>,
    ws3: Seq<char>,
    t: Seq<char>,
    ws4: Seq<char>,
    hint: Option<Seq<char>>,
)
    requires
        all_spaces(ws1),
        all_spaces(ws2),
        all_spaces(ws3),
        all_spaces(ws4),
        forall|k: int| 0 <= k < a.len() ==> #[trigger] a[k] != '-',
        a.len() == 0 || (!is_space(a[0]) && !is_space(a.last())),
        t.len() == 0 || (!is_space(t[0]) && !is_space(t.last())),
        !is_int_token(ws1 + a + ws2 + seq!['-'] + ws3 + t + ws4),
    ensures
        spec_resolve(c.tracks, ws1 + a + ws2 + seq!['-'] + ws3 + t + ws4, hint, None)
            == found_or_not(first_match(c.tracks, artist_title_pred(a, t))),
{
    let token = ws1 + a + ws2 + seq!['-'] + ws3 + t + ws4;
    let j = ws1.len() + a.len() + ws2.len();
    assert(token[j as int] == '-');
    assert forall|k: int| 0 <= k < j implies token[k] != '-' by {
        if k < ws1.len() {
            assert(token[k] == ws1[k]);
            assert(is_space(ws1[k]));
        } else if k < ws1.len() + a.len() {
            assert(token[k] == a[k - ws1.len()]);
        } else {
            assert(token[k] == ws2[k - ws1.len() - a.len()]);
            assert(is_space(ws2[k - ws1.len() - a.len()]));
        }
    }
    lemma_first_index_of_found(token, '-', j as int);
    assert(token.take(j as int) =~= ws1 + a + ws2);
    assert(token.skip(j as int + 1) =~= ws3 + t + ws4);
    lemma_trim_padded(ws1, a, ws2);
    lemma_trim_padded(ws3, t, ws4);
}

/// Law: when at least two records share a title, a bare-title token
/// without a hint is ambiguous; a hint narrowing to exactly one record
/// yields the narrowed match; a hint narrowing to none yields NotFound.
pub proof fn lemma_title_disambiguation(
    c: CatalogView,
    token: Seq<char>,
    ti: Seq<char>,
    h: Seq<char>,
)
    requires
        !is_int_token(token),
        forall|k: int| 0 <= k < token.len() ==> #[trigger] token[k] != '-',
        trim(token) == ti,
        count_matches(c.tracks, title_pred(ti)) >= 2,
    ensures
        spec_resolve(c.tracks, token, None, None) == Err::<TrackView, ErrorKind>(
            ErrorKind::Ambiguous,
        ),
        count_matches(c.tracks, artist_title_pred(h, ti)) == 1 ==> spec_resolve(
            c.tracks,
            token,
            Some(h),
            None,
        ) == found_or_not(first_match(c.tracks, artist_title_pred(h, ti))) && spec_resolve(
            c.tracks,
            token,
            Some(h),
            None,
        ) is Ok,
        count_matches(c.tracks, artist_title_pred(h, ti)) == 0 ==> spec_resolve(
            c.tracks,
            token,
            Some(h),
            None,
        ) == Err::<TrackView, ErrorKind>(ErrorKind::NotFound),
{
    lemma_first_index_of_none(token, '-');
    if count_matches(c.tracks, artist_title_pred(h, ti)) == 1 {
        lemma_count_pos_first_some(c.tracks, artist_title_pred(h, ti));
    }
}

/// Law: after removing an id from a well-formed catalog, resolving that
/// id fails NotFound, whatever the hint and the probe.
pub proof fn lemma_remove_then_resolve(
    c: CatalogView,
    id: i64,
    token: Seq<char>,
    hint: Option<Seq<char>>,
    probe: Option<Seq<char>>,
)
    requires
        catalog_wf(c),
        is_int_token(token),
        int_token_value(token) == id,
    ensures
        spec_resolve(spec_remove(c, id).tracks, token, hint, probe) == Err::<
            TrackView,
            ErrorKind,
        >(ErrorKind::NotFound),
{
    let s1 = spec_remove(c, id).tracks;
    let p = id_pred(id);
    assert(int_token_value(token) as i64 == id);
    if has_id(c.tracks, id) {
        let j = idx_of_id(c.tracks, id);
        assert(0 <= j < c.tracks.len() && c.tracks[j].id == id);
        assert(s1 == c.tracks.remove(j));
        assert forall|k: int| 0 <= k < s1.len() implies !p(#[trigger] s1[k]) by {
            let k0 = if k < j {
                k
            } else {
                k + 1
            };
            assert(s1[k] == c.tracks[k0]);
            if c.tracks[k0].id == id {
                if k0 < j {
                    assert(c.tracks[k0].id != c.tracks[j].id);
                } else {
                    assert(c.tracks[j].id != c.tracks[k0].id);
                }
            }
        }
        lemma_first_match_none(s1, p);
    } else {
        assert(s1 == c.tracks);
        assert forall|k: int| 0 <= k < s1.len() implies !p(#[trigger] s1[k]) by {
            if c.tracks[k].id == id {
                assert(has_id(c.tracks, id));
            }
        }
        lemma_first_match_none(s1, p);
    }
}

/// Law: an id the catalog has ever assigned is never reassigned —
/// removal keeps the id fence where it is, and a later successful add
/// returns the fence value, above every id assigned before.
pub proof fn lemma_id_never_reassigned(c: CatalogView, id: i64, d: TrackView, other: i64)
    requires
        catalog_wf(c),
        c.next_id < i64::MAX,
        id < c.next_id,
    ensures
        spec_remove(c, other).next_id == c.next_id,
        spec_add(c, d).0.next_id >= c.next_id,
        spec_add(c, d).1 matches Ok(i) ==> i == c.next_id && i != id,
{
}

/// Law: `pause` from `Idle` reports `InvalidState` and does not
/// transition.
pub proof fn lemma_pause_idle(m: ControllerView)
    requires
        controller_inv(m),
        m.state is Idle,
    ensures
        step_pause(m).0 == m,
        step_pause(m).1 == Err::<(), ErrorKind>(ErrorKind::InvalidState),
{
}

/// Law: two successful plays leave the controller playing the second
/// track, passing only through states that satisfy the controller
/// invariant.
pub proof fn lemma_play_then_play(m: ControllerView, a: i64, b: i64)
    requires
        controller_inv(m),
    ensures
        ({
            let m1 = step_play(m, a, true).0;
            let m2 = step_play(m1, b, true).0;
            controller_inv(m1) && controller_inv(m2) && m2.state is Playing && m2.active == Some(
                b,
            )
        }),
{
}

/// Law: every controller step preserves the controller invariant.
pub proof fn lemma_steps_preserve_inv(m: ControllerView, id: i64, opened: bool)
    requires
        controller_inv(m),
    ensures
        controller_inv(step_play(m, id, opened).0),
        controller_inv(step_pause(m).0),
        controller_inv(step_resume(m).0),
        controller_inv(step_stop(m).0),
{
}

} // verus!
