use vstd::prelude::*;

verus! {

/// One catalog entry: a track on disk together with the metadata read from
/// its tags. `id` is assigned by the catalog on insertion and is stable for
/// the record's lifetime; `path` is the absolute, normalized path that acts
/// as the de-duplication key. An empty string in `title`, `artist` or
/// `album` stands for an absent tag.
#[derive(Clone, Debug, PartialEq, Eq)]
pub struct TrackData {
    pub id: i64,
    pub path: String,
    pub title: String,
    pub artist: String,
    pub album: String,
}

/// The mathematical value of a [`TrackData`].
pub ghost struct TrackView {
    pub id: i64,
    pub path: Seq<char>,
    pub title: Seq<char>,
    pub artist: Seq<char>,
    pub album: Seq<char>,
}

impl View for TrackData {
    type V = TrackView;

    open spec fn view(&self) -> TrackView {
        TrackView {
            id: self.id,
            path: self.path@,
            title: self.title@,
            artist: self.artist@,
            album: self.album@,
        }
    }
}

impl TrackData {
    /// An owned copy with the same mathematical value.
    pub fn duplicate(&self) -> (r: TrackData)
        ensures
            r@ == self@,
    {
        TrackData {
            id: self.id,
            path: self.path.clone(),
            title: self.title.clone(),
            artist: self.artist.clone(),
            album: self.album.clone(),
        }
    }
}

} // verus!
