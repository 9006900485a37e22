use crate::errors::ErrorKind;
use crate::numeral::int_token_value;
use crate::numeral::is_int_token;
use crate::numeral::parse_i64;
use crate::text::find_char;
use crate::text::first_index_of;
use crate::text::trim;
use crate::text::trim_str;
use crate::text::str_eq;
use crate::track::TrackData;
use crate::track::TrackView;
use vstd::prelude::*;

verus! {

/// The mathematical values of a sequence of records.
pub open spec fn tracks_view(v: Seq<TrackData>) -> Seq<TrackView> {
    v.map_values(|t: TrackData| t@)
}

pub open spec fn has_id(s: Seq<TrackView>, id: i64) -> bool {
    exists|i: int| 0 <= i < s.len() && (#[trigger] s[i]).id == id
}

pub open spec fn has_path(s: Seq<TrackView>, p: Seq<char>) -> bool {
    exists|i: int| 0 <= i < s.len() && (#[trigger] s[i]).path == p
}

/// The index of the record carrying `id` (unique in a well-formed
/// catalog).
pub open spec fn idx_of_id(s: Seq<TrackView>, id: i64) -> int {
    choose|i: int| 0 <= i < s.len() && (#[trigger] s[i]).id == id
}

pub open spec fn id_pred(id: i64) -> spec_fn(TrackView) -> bool {
    |t: TrackView| t.id == id
}

pub open spec fn path_pred(p: Seq<char>) -> spec_fn(TrackView) -> bool {
    |t: TrackView| t.path == p
}

pub open spec fn artist_title_pred(a: Seq<char>, ti: Seq<char>) -> spec_fn(TrackView) -> bool {
    |t: TrackView| t.artist == a && t.title == ti
}

pub open spec fn title_pred(ti: Seq<char>) -> spec_fn(TrackView) -> bool {
    |t: TrackView| t.title == ti
}

/// The first record matching `p`, scanning in catalog order.
pub open spec fn first_match(s: Seq<TrackView>, p: spec_fn(TrackView) -> bool) -> Option<
    TrackView,
>
    decreases s.len(),
{
    if s.len() == 0 {
        None
    } else if p(s[0]) {
        Some(s[0])
    } else {
        first_match(s.drop_first(), p)
    }
}

/// How many records match `p`.
pub open spec fn count_matches(s: Seq<TrackView>, p: spec_fn(TrackView) -> bool) -> nat
    decreases s.len(),
{
    if s.len() == 0 {
        0
    } else {
        count_matches(s.drop_last(), p) + if p(s.last()) {
            1nat
        } else {
            0nat
        }
    }
}

pub proof fn lemma_first_match_found(s: Seq<TrackView>, p: spec_fn(TrackView) -> bool, j: int)
    requires
        0 <= j < s.len(),
        p(s[j]),
        forall|k: int| 0 <= k < j ==> !p(#[trigger] s[k]),
    ensures
        first_match(s, p) == Some(s[j]),
    decreases j,
{
    if j > 0 {
        let st = s.drop_first();
        assert forall|k: int| 0 <= k < j - 1 implies !p(#[trigger] st[k]) by {
            assert(st[k] == s[k + 1]);
        }
        lemma_first_match_found(st, p, j - 1);
    }
}

pub proof fn lemma_first_match_none(s: Seq<TrackView>, p: spec_fn(TrackView) -> bool)
    requires
        forall|k: int| 0 <= k < s.len() ==> !p(#[trigger] s[k]),
    ensures
        first_match(s, p) is None,
    decreases s.len(),
{
    if s.len() > 0 {
        let st = s.drop_first();
        assert forall|k: int| 0 <= k < st.len() implies !p(#[trigger] st[k]) by {
            assert(st[k] == s[k + 1]);
        }
        lemma_first_match_none(st, p);
    }
}

/// Appending a record changes the first match only when there was none.
pub proof fn lemma_first_match_push(s: Seq<TrackView>, p: spec_fn(TrackView) -> bool, x: TrackView)
    ensures
        first_match(s.push(x), p) == (match first_match(s, p) {
            Some(t) => Some(t),
            None => if p(x) {
                Some(x)
            } else {
                None
            },
        }),
    decreases s.len(),
{
    let sp = s.push(x);
    if s.len() == 0 {
        assert(sp.len() == 1);
        assert(sp[0] == x);
        if p(x) {
            assert(first_match(sp, p) == Some(x));
        } else {
            assert(sp.drop_first() =~= Seq::<TrackView>::empty());
            assert(first_match(Seq::<TrackView>::empty(), p) is None);
            assert(first_match(sp, p) is None);
        }
        assert(first_match(s, p) is None);
    } else {
        assert(sp[0] == s[0]);
        if p(s[0]) {
            assert(first_match(sp, p) == Some(s[0]));
            assert(first_match(s, p) == Some(s[0]));
        } else {
            assert(sp.drop_first() =~= s.drop_first().push(x));
            lemma_first_match_push(s.drop_first(), p, x);
            assert(first_match(sp, p) == first_match(s.drop_first().push(x), p));
            assert(first_match(s, p) == first_match(s.drop_first(), p));
        }
    }
}

/// What a first match means: it is a matching record, nothing before it
/// matches, and absence of a match means no record matches.
pub proof fn lemma_first_match_props(s: Seq<TrackView>, p: spec_fn(TrackView) -> bool)
    ensures
        match first_match(s, p) {
            None => forall|k: int| 0 <= k < s.len() ==> !p(#[trigger] s[k]),
            Some(t) => exists|j: int|
                0 <= j < s.len() && #[trigger] s[j] == t && p(t) && (forall|k: int|
                    0 <= k < j ==> !p(#[trigger] s[k])),
        },
    decreases s.len(),
{
    if s.len() > 0 && !p(s[0]) {
        let st = s.drop_first();
        lemma_first_match_props(st, p);
        assert(forall|k: int| 0 <= k < st.len() ==> #[trigger] st[k] == s[k + 1]);
        match first_match(s, p) {
            None => {
                assert forall|k: int| 0 <= k < s.len() implies !p(#[trigger] s[k]) by {
                    if k > 0 {
                        assert(st[k - 1] == s[k]);
                    }
                }
            },
            Some(t) => {
                let j = choose|j: int|
                    0 <= j < st.len() && #[trigger] st[j] == t && p(t) && (forall|k: int|
                        0 <= k < j ==> !p(#[trigger] st[k]));
                assert(s[j + 1] == t);
                assert forall|k: int| 0 <= k < j + 1 implies !p(#[trigger] s[k]) by {
                    if k > 0 {
                        assert(st[k - 1] == s[k]);
                    }
                }
            },
        }
    }
}

/// No record matches exactly when the count is zero.
pub proof fn lemma_count_zero(s: Seq<TrackView>, p: spec_fn(TrackView) -> bool)
    ensures
        (count_matches(s, p) == 0) <==> (forall|k: int| 0 <= k < s.len() ==> !p(#[trigger] s[k])),
    decreases s.len(),
{
    if s.len() > 0 {
        let sd = s.drop_last();
        lemma_count_zero(sd, p);
        assert(s.last() == s[s.len() - 1]);
        if (forall|k: int| 0 <= k < s.len() ==> !p(#[trigger] s[k])) {
            assert forall|k: int| 0 <= k < sd.len() implies !p(#[trigger] sd[k]) by {
                assert(sd[k] == s[k]);
            }
            assert(count_matches(s, p) == 0);
        }
        if count_matches(s, p) == 0 {
            assert forall|k: int| 0 <= k < s.len() implies !p(#[trigger] s[k]) by {
                if k < s.len() - 1 {
                    assert(sd[k] == s[k]);
                }
            }
        }
    }
}

/// A positive count guarantees a first match.
pub proof fn lemma_count_pos_first_some(s: Seq<TrackView>, p: spec_fn(TrackView) -> bool)
    requires
        count_matches(s, p) > 0,
    ensures
        first_match(s, p) is Some,
        p(first_match(s, p)->Some_0),
{
    lemma_count_zero(s, p);
    lemma_first_match_props(s, p);
    if first_match(s, p) is None {
        assert(count_matches(s, p) == 0);
    }
}

/// A lookup result: the first match, or `NotFound`.
pub open spec fn found_or_not(m: Option<TrackView>) -> Result<TrackView, ErrorKind> {
    match m {
        Some(t) => Ok(t),
        None => Err(ErrorKind::NotFound),
    }
}

/// Whether an executable lookup result returns exactly what the model
/// result denotes.
pub open spec fn resolution_matches(
    r: Result<TrackData, ErrorKind>,
    m: Result<TrackView, ErrorKind>,
) -> bool {
    match (r, m) {
        (Ok(t), Ok(v)) => t@ == v,
        (Err(e), Err(f)) => e == f,
        _ => false,
    }
}

pub open spec fn opt_str_view(h: Option<&str>) -> Option<Seq<char>> {
    match h {
        Some(x) => Some(x@),
        None => None,
    }
}

/// Bare-title resolution: a unique title match wins; several matches ask
/// the artist hint to narrow, and fail `Ambiguous` without one (or with
/// one that still leaves several), `NotFound` with one that leaves none.
pub open spec fn resolve_by_title(
    s: Seq<TrackView>,
    ti: Seq<char>,
    hint: Option<Seq<char>>,
) -> Result<TrackView, ErrorKind> {
    let n = count_matches(s, title_pred(ti));
    if n == 0 {
        Err(ErrorKind::NotFound)
    } else if n == 1 {
        found_or_not(first_match(s, title_pred(ti)))
    } else {
        match hint {
            None => Err(ErrorKind::Ambiguous),
            Some(h) => {
                let m = count_matches(s, artist_title_pred(h, ti));
                if m == 0 {
                    Err(ErrorKind::NotFound)
                } else if m == 1 {
                    found_or_not(first_match(s, artist_title_pred(h, ti)))
                } else {
                    Err(ErrorKind::Ambiguous)
                }
            },
        }
    }
}

/// The resolution policy, in strict priority order. `probe` carries the
/// normalized absolute path when the token names a file that exists on
/// disk, `None` otherwise. Once a rule's pattern applies, later rules are
/// not attempted, even if the rule finds nothing:
/// an integer token is an id lookup; a token naming an existing file is a
/// path lookup; a token containing `-` is split at the first `-` into an
/// artist and a title, both trimmed; anything else is a trimmed bare
/// title, disambiguated by the artist hint.
pub open spec fn spec_resolve(
    s: Seq<TrackView>,
    token: Seq<char>,
    hint: Option<Seq<char>>,
    probe: Option<Seq<char>>,
) -> Result<TrackView, ErrorKind> {
    if is_int_token(token) {
        found_or_not(first_match(s, id_pred(int_token_value(token) as i64)))
    } else {
        match probe {
            Some(p) => found_or_not(first_match(s, path_pred(p))),
            None => {
                let j = first_index_of(token, '-');
                if j >= 0 {
                    let a = trim(token.take(j));
                    let ti = trim(token.skip(j + 1));
                    found_or_not(first_match(s, artist_title_pred(a, ti)))
                } else {
                    resolve_by_title(s, trim(token), hint)
                }
            },
        }
    }
}

/// The mathematical value of a [`Catalog`].
pub ghost struct CatalogView {
    pub tracks: Seq<TrackView>,
    pub next_id: i64,
}

/// Catalog well-formedness: ids are at least 1, below the next free id,
/// and unique; paths are unique.
pub open spec fn catalog_wf(c: CatalogView) -> bool {
    &&& 1 <= c.next_id
    &&& forall|i: int|
        0 <= i < c.tracks.len() ==> 1 <= (#[trigger] c.tracks[i]).id && c.tracks[i].id
            < c.next_id
    &&& forall|i: int, j: int|
        0 <= i < j < c.tracks.len() ==> (#[trigger] c.tracks[i]).id != (#[trigger] c.tracks[j]).id
    &&& forall|i: int, j: int|
        0 <= i < j < c.tracks.len() ==> (#[trigger] c.tracks[i]).path != (
        #[trigger] c.tracks[j]).path
}

pub open spec fn with_id(d: TrackView, id: i64) -> TrackView {
    TrackView { id: id, path: d.path, title: d.title, artist: d.artist, album: d.album }
}

/// Adding a record: a duplicate path is rejected and changes nothing;
/// otherwise the record is appended with the next free id, which is
/// returned, and the next free id moves past it (so ids are never
/// reassigned).
pub open spec fn spec_add(c: CatalogView, d: TrackView) -> (CatalogView, Result<i64, ErrorKind>) {
    if has_path(c.tracks, d.path) {
        (c, Err(ErrorKind::DuplicatePath))
    } else {
        (
            (CatalogView {
                tracks: c.tracks.push(with_id(d, c.next_id)),
                next_id: (c.next_id + 1) as i64,
            }),
            Ok(c.next_id),
        )
    }
}

/// Removing by id: the record carrying `id` disappears, the order of the
/// others is kept; removing an absent id changes nothing. The next free
/// id is untouched.
pub open spec fn spec_remove(c: CatalogView, id: i64) -> CatalogView {
    if has_id(c.tracks, id) {
        CatalogView { tracks: c.tracks.remove(idx_of_id(c.tracks, id)), next_id: c.next_id }
    } else {
        c
    }
}

/// The persisted set of track records: an in-memory snapshot of the
/// catalog, with stable unique ids and de-duplicated normalized paths.
/// Enumeration order is insertion order.
pub struct Catalog {
    tracks: Vec<TrackData>,
    next_id: i64,
}

impl View for Catalog {
    type V = CatalogView;

    closed spec fn view(&self) -> CatalogView {
        CatalogView { tracks: tracks_view(self.tracks@), next_id: self.next_id }
    }
}

impl Catalog {
    /// An empty catalog; the first assigned id will be 1.
    pub fn new() -> (c: Catalog)
        ensures
            c@.tracks.len() == 0,
            c@.next_id == 1,
            catalog_wf(c@),
    {
        let c = Catalog { tracks: Vec::new(), next_id: 1 };
        proof {
            assert(c@.tracks =~= Seq::<TrackView>::empty());
        }
        c
    }

    /// The id the next successful add will assign.
    pub fn next_id(&self) -> (r: i64)
        ensures
            r == self@.next_id,
    {
        self.next_id
    }

    /// The full snapshot, in insertion order.
    pub fn tracks(&self) -> (r: &Vec<TrackData>)
        ensures
            tracks_view(r@) == self@.tracks,
    {
        &self.tracks
    }

    /// Whether some record already carries this normalized path.
    pub fn contains_path(&self, path: &str) -> (r: bool)
        ensures
            r == has_path(self@.tracks, path@),
    {
        let n = self.tracks.len();
        let mut i: usize = 0;
        while i < n
            invariant
                i <= n,
                n == self.tracks.len(),
                forall|k: int| 0 <= k < i ==> (#[trigger] self@.tracks[k]).path != path@,
            decreases n - i,
        {
            if str_eq(self.tracks[i].path.as_str(), path) {
                proof {
                    assert(self@.tracks[i as int].path == path@);
                }
                return true;
            }
            i += 1;
        }
        false
    }

    /// Add a record, ignoring its incoming id: per [`spec_add`].
    /// The bound on `next_id` is a machine limit; the id counter must not
    /// wrap.
    pub fn add(&mut self, data: TrackData) -> (r: Result<i64, ErrorKind>)
        requires
            catalog_wf(old(self)@),
            old(self)@.next_id < i64::MAX,
        ensures
            catalog_wf(final(self)@),
            final(self)@ == spec_add(old(self)@, data@).0,
            r == spec_add(old(self)@, data@).1,
    {
        let ghost c0 = self@;
        let ghost d = data@;
        if self.contains_path(data.path.as_str()) {
            return Err(ErrorKind::DuplicatePath);
        }
        let id = self.next_id;
        let rec = TrackData {
            id: id,
            path: data.path,
            title: data.title,
            artist: data.artist,
            album: data.album,
        };
        self.tracks.push(rec);
        self.next_id = id + 1;
        proof {
            assert(self@.tracks =~= c0.tracks.push(with_id(d, c0.next_id)));
            let c1 = self@;
            assert forall|i: int|
                0 <= i < c1.tracks.len() implies 1 <= (#[trigger] c1.tracks[i]).id
                && c1.tracks[i].id < c1.next_id by {
                if i < c0.tracks.len() {
                    assert(c1.tracks[i] == c0.tracks[i]);
                }
            }
            assert forall|i: int, j: int|
                0 <= i < j < c1.tracks.len() implies (#[trigger] c1.tracks[i]).path != (
            #[trigger] c1.tracks[j]).path by {
                if j == c0.tracks.len() {
                    assert(!has_path(c0.tracks, d.path));
                    assert(c1.tracks[i] == c0.tracks[i]);
                }
            }
        }
        Ok(id)
    }

    /// Remove the record carrying `id`, if any: per [`spec_remove`].
    /// Removing an absent id is a no-op.
    pub fn remove(&mut self, id: i64)
        requires
            catalog_wf(old(self)@),
        ensures
            catalog_wf(final(self)@),
            final(self)@ == spec_remove(old(self)@, id),
    {
        let ghost c0 = self@;
        let n = self.tracks.len();
        let mut i: usize = 0;
        while i < n
            invariant
                i <= n,
                n == self.tracks.len(),
                self@ == c0,
                c0 == old(self)@,
                catalog_wf(c0),
                forall|k: int| 0 <= k < i ==> (#[trigger] c0.tracks[k]).id != id,
            decreases n - i,
        {
            if self.tracks[i].id == id {
                proof {
                    assert(c0.tracks[i as int].id == id);
                    assert(has_id(c0.tracks, id));
                    let j = idx_of_id(c0.tracks, id);
                    assert(0 <= j < c0.tracks.len() && c0.tracks[j].id == id);
                    if j < i {
                        assert(c0.tracks[j].id != id);
                    }
                    if j > i {
                        assert(c0.tracks[i as int].id != c0.tracks[j].id);
                    }
                    assert(j == i as int);
                }
                self.tracks.remove(i);
                proof {
                    assert(self@.tracks =~= c0.tracks.remove(i as int));
                    let c1 = self@;
                    assert forall|a: int, b: int|
                        0 <= a < b < c1.tracks.len() implies (#[trigger] c1.tracks[a]).id != (
                    #[trigger] c1.tracks[b]).id by {
                        let a0 = if a < i as int {
                            a
                        } else {
                            a + 1
                        };
                        let b0 = if b < i as int {
                            b
                        } else {
                            b + 1
                        };
                        assert(c1.tracks[a] == c0.tracks[a0]);
                        assert(c1.tracks[b] == c0.tracks[b0]);
                    }
                    assert forall|a: int, b: int|
                        0 <= a < b < c1.tracks.len() implies (#[trigger] c1.tracks[a]).path != (
                    #[trigger] c1.tracks[b]).path by {
                        let a0 = if a < i as int {
                            a
                        } else {
                            a + 1
                        };
                        let b0 = if b < i as int {
                            b
                        } else {
                            b + 1
                        };
                        assert(c1.tracks[a] == c0.tracks[a0]);
                        assert(c1.tracks[b] == c0.tracks[b0]);
                    }
                    assert forall|k: int|
                        0 <= k < c1.tracks.len() implies 1 <= (#[trigger] c1.tracks[k]).id
                        && c1.tracks[k].id < c1.next_id by {
                        let k0 = if k < i as int {
                            k
                        } else {
                            k + 1
                        };
                        assert(c1.tracks[k] == c0.tracks[k0]);
                    }
                }
                return;
            }
            i += 1;
        }
        proof {
            assert(!has_id(c0.tracks, id));
        }
    }

    /// Look a record up by its id.
    pub fn track_by_id(&self, id: i64) -> (r: Result<TrackData, ErrorKind>)
        ensures
            resolution_matches(r, found_or_not(first_match(self@.tracks, id_pred(id)))),
    {
        let n = self.tracks.len();
        let mut i: usize = 0;
        while i < n
            invariant
                i <= n,
                n == self.tracks.len(),
                forall|k: int| 0 <= k < i ==> !id_pred(id)(#[trigger] self@.tracks[k]),
            decreases n - i,
        {
            if self.tracks[i].id == id {
                proof {
                    lemma_first_match_found(self@.tracks, id_pred(id), i as int);
                }
                return Ok(self.tracks[i].duplicate());
            }
            i += 1;
        }
        proof {
            lemma_first_match_none(self@.tracks, id_pred(id));
        }
        Err(ErrorKind::NotFound)
    }

    /// Look a record up by its exact normalized path.
    pub fn track_by_path(&self, path: &str) -> (r: Result<TrackData, ErrorKind>)
        ensures
            resolution_matches(r, found_or_not(first_match(self@.tracks, path_pred(path@)))),
    {
        let n = self.tracks.len();
        let mut i: usize = 0;
        while i < n
            invariant
                i <= n,
                n == self.tracks.len(),
                forall|k: int| 0 <= k < i ==> !path_pred(path@)(#[trigger] self@.tracks[k]),
            decreases n - i,
        {
            if str_eq(self.tracks[i].path.as_str(), path) {
                proof {
                    lemma_first_match_found(self@.tracks, path_pred(path@), i as int);
                }
                return Ok(self.tracks[i].duplicate());
            }
            i += 1;
        }
        proof {
            lemma_first_match_none(self@.tracks, path_pred(path@));
        }
        Err(ErrorKind::NotFound)
    }

    /// Look a record up by exact artist and title (both already trimmed
    /// by the caller).
    pub fn track_by_artist_and_title(&self, artist: &str, title: &str) -> (r: Result<
        TrackData,
        ErrorKind,
    >)
        ensures
            resolution_matches(
                r,
                found_or_not(first_match(self@.tracks, artist_title_pred(artist@, title@))),
            ),
    {
        let n = self.tracks.len();
        let mut i: usize = 0;
        while i < n
            invariant
                i <= n,
                n == self.tracks.len(),
                forall|k: int|
                    0 <= k < i ==> !artist_title_pred(artist@, title@)(
                        #[trigger] self@.tracks[k],
                    ),
            decreases n - i,
        {
            if str_eq(self.tracks[i].artist.as_str(), artist) && str_eq(
                self.tracks[i].title.as_str(),
                title,
            ) {
                proof {
                    lemma_first_match_found(
                        self@.tracks,
                        artist_title_pred(artist@, title@),
                        i as int,
                    );
                }
                return Ok(self.tracks[i].duplicate());
            }
            i += 1;
        }
        proof {
            lemma_first_match_none(self@.tracks, artist_title_pred(artist@, title@));
        }
        Err(ErrorKind::NotFound)
    }

    /// Bare-title resolution with optional artist disambiguation, per
    /// [`resolve_by_title`]. `title` is expected already trimmed.
    pub fn track_by_title(&self, title: &str, artist_hint: Option<&str>) -> (r: Result<
        TrackData,
        ErrorKind,
    >)
        ensures
            resolution_matches(
                r,
                resolve_by_title(self@.tracks, title@, opt_str_view(artist_hint)),
            ),
    {
        let ghost s = self@.tracks;
        let ghost p = title_pred(title@);
        let n = self.tracks.len();
        let mut i: usize = 0;
        let mut cnt: usize = 0;
        let mut fst: Option<usize> = None;
        while i < n
            invariant
                i <= n,
                n == self.tracks.len(),
                s == self@.tracks,
                p == title_pred(title@),
                cnt == count_matches(s.take(i as int), p),
                cnt <= i,
                match fst {
                    Some(j) => j < i && first_match(s.take(i as int), p) == Some(s[j as int])
                        && p(s[j as int]),
                    None => first_match(s.take(i as int), p) is None,
                },
            decreases n - i,
        {
            proof {
                assert(s.take(i as int + 1).drop_last() =~= s.take(i as int));
                assert(s.take(i as int + 1).last() == s[i as int]);
                assert(s.take(i as int).push(s[i as int]) =~= s.take(i as int + 1));
                lemma_first_match_push(s.take(i as int), p, s[i as int]);
            }
            if str_eq(self.tracks[i].title.as_str(), title) {
                cnt += 1;
                if fst.is_none() {
                    fst = Some(i);
                }
            }
            i += 1;
        }
        proof {
            assert(s.take(n as int) =~= s);
        }
        if cnt == 0 {
            return Err(ErrorKind::NotFound);
        }
        if cnt == 1 {
            proof {
                lemma_count_pos_first_some(s, p);
                assert(fst is Some);
            }
            let j = fst.unwrap();
            return Ok(self.tracks[j].duplicate());
        }
        match artist_hint {
            None => Err(ErrorKind::Ambiguous),
            Some(h) => {
                let ghost q = artist_title_pred(h@, title@);
                let mut i2: usize = 0;
                let mut cnt2: usize = 0;
                let mut fst2: Option<usize> = None;
                while i2 < n
                    invariant
                        i2 <= n,
                        n == self.tracks.len(),
                        s == self@.tracks,
                        q == artist_title_pred(h@, title@),
                        cnt2 == count_matches(s.take(i2 as int), q),
                        cnt2 <= i2,
                        match fst2 {
                            Some(j) => j < i2 && first_match(s.take(i2 as int), q) == Some(
                                s[j as int],
                            ) && q(s[j as int]),
                            None => first_match(s.take(i2 as int), q) is None,
                        },
                    decreases n - i2,
                {
                    proof {
                        assert(s.take(i2 as int + 1).drop_last() =~= s.take(i2 as int));
                        assert(s.take(i2 as int + 1).last() == s[i2 as int]);
                        assert(s.take(i2 as int).push(s[i2 as int]) =~= s.take(i2 as int + 1));
                        lemma_first_match_push(s.take(i2 as int), q, s[i2 as int]);
                    }
                    if str_eq(self.tracks[i2].artist.as_str(), h) && str_eq(
                        self.tracks[i2].title.as_str(),
                        title,
                    ) {
                        cnt2 += 1;
                        if fst2.is_none() {
                            fst2 = Some(i2);
                        }
                    }
                    i2 += 1;
                }
                proof {
                    assert(s.take(n as int) =~= s);
                }
                if cnt2 == 0 {
                    Err(ErrorKind::NotFound)
                } else if cnt2 == 1 {
                    proof {
                        lemma_count_pos_first_some(s, q);
                        assert(fst2 is Some);
                    }
                    let j = fst2.unwrap();
                    Ok(self.tracks[j].duplicate())
                } else {
                    Err(ErrorKind::Ambiguous)
                }
            },
        }
    }

    /// Resolve a free-form token against the catalog, the disk probe
    /// already performed: per [`spec_resolve`].
    pub fn resolve_with_probe(
        &self,
        token: &str,
        artist_hint: Option<&str>,
        probe: Option<&str>,
    ) -> (r: Result<TrackData, ErrorKind>)
        ensures
            resolution_matches(
                r,
                spec_resolve(
                    self@.tracks,
                    token@,
                    opt_str_view(artist_hint),
                    opt_str_view(probe),
                ),
            ),
    {
        match parse_i64(token) {
            Some(v) => self.track_by_id(v),
            None => {
                match probe {
                    Some(p) => self.track_by_path(p),
                    None => {
                        match find_char(token, '-') {
                            Some(j) => {
                                proof {
                                    crate::text::lemma_first_index_of_props(token@, '-');
                                }
                                let n = token.unicode_len();
                                let left = token.substring_char(0, j);
                                let right = token.substring_char(j + 1, n);
                                let left_t = trim_str(left);
                                let right_t = trim_str(right);
                                proof {
                                    assert(left@ =~= token@.take(j as int));
                                    assert(right@ =~= token@.skip(j as int + 1));
                                }
                                self.track_by_artist_and_title(left_t, right_t)
                            },
                            None => self.track_by_title(trim_str(token), artist_hint),
                        }
                    },
                }
            },
        }
    }
}

} // verus!
