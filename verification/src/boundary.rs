use crate::catalog::catalog_wf;
use crate::catalog::has_path;
use crate::catalog::opt_str_view;
use crate::catalog::resolution_matches;
use crate::catalog::spec_add;
use crate::catalog::spec_resolve;
use crate::catalog::Catalog;
use crate::errors::ErrorKind;
use crate::track::TrackData;
use crate::track::TrackView;
use id3::TagLike;
use path_absolutize::Absolutize;
use vstd::prelude::*;

verus! {

/// Relies on `std::path::Path::exists`: whether `token` names a file on
/// disk right now. The result depends on the filesystem, so nothing is
/// promised of it.
#[verifier::external_body]
fn path_exists(token: &str) -> bool {
    std::path::Path::new(token).exists()
}

/// Relies on `path_absolutize::Absolutize::absolutize`: `token` as an
/// absolute, normalized path, or `None` when it cannot be formed. The
/// result depends on the process's working directory, so nothing is
/// promised of it.
#[verifier::external_body]
fn absolutize_path(token: &str) -> Option<String> {
    match std::path::Path::new(token).absolutize() {
        Ok(p) => p.to_str().map(|s| s.to_string()),
        Err(_) => None,
    }
}

/// Relies on `id3::Tag::read_from_path` and the `TagLike` accessors
/// `title`, `artist` and `album`: the tag strings of the file at `path`,
/// an empty string standing for an absent frame, or `None` when the file
/// carries no readable tag at all. The result depends on what is on
/// disk, so nothing is promised of it.
#[verifier::external_body]
fn read_tags(path: &str) -> Option<(String, String, String)> {
    match id3::Tag::read_from_path(path) {
        Ok(tag) => {
            let title = tag.title().unwrap_or("").to_string();
            let artist = tag.artist().unwrap_or("").to_string();
            let album = tag.album().unwrap_or("").to_string();
            Some((title, artist, album))
        },
        Err(_) => None,
    }
}

impl Catalog {
    /// Resolve a free-form user token — an id, an existing file's path,
    /// an `"artist - title"` pair, or a bare title — to exactly one
    /// record. Whether the token names an existing file is the disk's
    /// decision, so the result is that of [`spec_resolve`] for the probe
    /// outcome the disk produced.
    pub fn track_by_unknown_format(&self, token: &str, artist_hint: Option<&str>) -> (r: Result<
        TrackData,
        ErrorKind,
    >)
        ensures
            exists|probe: Option<Seq<char>>|
                #![auto]
                resolution_matches(
                    r,
                    spec_resolve(self@.tracks, token@, opt_str_view(artist_hint), probe),
                ),
    {
        let probe: Option<String> = if path_exists(token) {
            absolutize_path(token)
        } else {
            None
        };
        match probe {
            Some(p) => {
                let r = self.resolve_with_probe(token, artist_hint, Some(p.as_str()));
                proof {
                    assert(resolution_matches(
                        r,
                        spec_resolve(
                            self@.tracks,
                            token@,
                            opt_str_view(artist_hint),
                            Some(p@),
                        ),
                    ));
                }
                r
            },
            None => {
                let r = self.resolve_with_probe(token, artist_hint, None);
                proof {
                    assert(resolution_matches(
                        r,
                        spec_resolve(
                            self@.tracks,
                            token@,
                            opt_str_view(artist_hint),
                            None::<Seq<char>>,
                        ),
                    ));
                }
                r
            },
        }
    }

    /// Add the track at `token`'s path: normalize the path, reject a
    /// duplicate, read the file's tags, insert per [`spec_add`]. The disk
    /// decides the normalized path and the tags, so a successful add is
    /// stated as [`spec_add`] of some record carrying the returned id; a
    /// failed one leaves the catalog unchanged and reports
    /// `DuplicatePath` for an already-cataloged path, `TagReadError`
    /// when no tag could be read or no normalized path formed.
    pub fn add_from_path(&mut self, token: &str) -> (r: Result<i64, ErrorKind>)
        requires
            catalog_wf(old(self)@),
            old(self)@.next_id < i64::MAX,
        ensures
            catalog_wf(final(self)@),
            match r {
                Ok(id) => exists|d: TrackView|
                    #![auto]
                    spec_add(old(self)@, d).1 == Ok::<i64, ErrorKind>(id) && final(self)@
                        == spec_add(old(self)@, d).0,
                Err(e) => final(self)@ == old(self)@ && (e == ErrorKind::DuplicatePath || e
                    == ErrorKind::TagReadError),
            },
    {
        let abs = match absolutize_path(token) {
            Some(a) => a,
            None => {
                return Err(ErrorKind::TagReadError);
            },
        };
        if self.contains_path(abs.as_str()) {
            return Err(ErrorKind::DuplicatePath);
        }
        let ghost c0 = self@;
        let ghost p0 = abs@;
        let tags = match read_tags(abs.as_str()) {
            Some(t) => t,
            None => {
                return Err(ErrorKind::TagReadError);
            },
        };
        let (title, artist, album) = tags;
        let data = TrackData { id: 0, path: abs, title: title, artist: artist, album: album };
        let ghost d = data@;
        let r = self.add(data);
        proof {
            assert(!has_path(c0.tracks, p0));
            assert(d.path == p0);
            assert(r == spec_add(c0, d).1);
            assert(r matches Ok(id) ==> spec_add(c0, d).1 == Ok::<i64, ErrorKind>(id));
        }
        r
    }
}

} // verus!
