use impact::Catalog;
use impact::ErrorKind;
use impact::TrackData;

fn td(path: &str, title: &str, artist: &str, album: &str) -> TrackData {
    TrackData {
        id: 0,
        path: path.to_string(),
        title: title.to_string(),
        artist: artist.to_string(),
        album: album.to_string(),
    }
}

#[test]
fn add_assigns_sequential_ids_from_one() {
    let mut c = Catalog::new();
    let a = c.add(td("/music/a.mp3", "A", "X", "")).unwrap();
    let b = c.add(td("/music/b.mp3", "B", "X", "")).unwrap();
    assert_eq!(a, 1);
    assert_eq!(b, 2);
}

#[test]
fn add_ignores_incoming_id() {
    let mut c = Catalog::new();
    let mut d = td("/music/a.mp3", "A", "X", "");
    d.id = 77;
    let id = c.add(d).unwrap();
    assert_eq!(id, 1);
    assert_eq!(c.track_by_id(1).unwrap().title, "A");
}

#[test]
fn add_duplicate_path_rejected_and_catalog_unchanged() {
    let mut c = Catalog::new();
    c.add(td("/music/song.mp3", "Song", "Band", "Demo")).unwrap();
    let second = c.add(td("/music/song.mp3", "Other", "Other", ""));
    assert_eq!(second, Err(ErrorKind::DuplicatePath));
    assert_eq!(c.tracks().len(), 1);
    assert_eq!(c.tracks()[0].title, "Song");
}

#[test]
fn tracks_keep_insertion_order() {
    let mut c = Catalog::new();
    c.add(td("/m/1.mp3", "One", "X", "")).unwrap();
    c.add(td("/m/2.mp3", "Two", "X", "")).unwrap();
    c.add(td("/m/3.mp3", "Three", "X", "")).unwrap();
    let ids: Vec<i64> = c.tracks().iter().map(|t| t.id).collect();
    assert_eq!(ids, vec![1, 2, 3]);
}

#[test]
fn contains_path_reports_presence() {
    let mut c = Catalog::new();
    c.add(td("/m/x.mp3", "X", "", "")).unwrap();
    assert!(c.contains_path("/m/x.mp3"));
    assert!(!c.contains_path("/m/y.mp3"));
}

#[test]
fn remove_deletes_and_keeps_order() {
    let mut c = Catalog::new();
    c.add(td("/m/1.mp3", "One", "X", "")).unwrap();
    c.add(td("/m/2.mp3", "Two", "X", "")).unwrap();
    c.add(td("/m/3.mp3", "Three", "X", "")).unwrap();
    c.remove(2);
    let ids: Vec<i64> = c.tracks().iter().map(|t| t.id).collect();
    assert_eq!(ids, vec![1, 3]);
    assert_eq!(c.track_by_id(2), Err(ErrorKind::NotFound));
}

#[test]
fn remove_absent_id_is_noop() {
    let mut c = Catalog::new();
    c.add(td("/m/1.mp3", "One", "X", "")).unwrap();
    c.remove(9);
    assert_eq!(c.tracks().len(), 1);
}

#[test]
fn removed_id_is_never_reassigned() {
    let mut c = Catalog::new();
    let first = c.add(td("/m/1.mp3", "One", "X", "")).unwrap();
    c.remove(first);
    let second = c.add(td("/m/2.mp3", "Two", "X", "")).unwrap();
    assert_eq!(second, 2);
    assert_ne!(second, first);
    let third = c.add(td("/m/1.mp3", "One", "X", "")).unwrap();
    assert_eq!(third, 3);
}

#[test]
fn duplicate_copies_every_field() {
    let d = TrackData {
        id: 4,
        path: "/m/p.mp3".to_string(),
        title: "T".to_string(),
        artist: "A".to_string(),
        album: "L".to_string(),
    };
    let e = d.duplicate();
    assert_eq!(d, e);
}

#[test]
fn add_from_path_unreadable_file_fails_and_changes_nothing() {
    let mut c = Catalog::new();
    let r = c.add_from_path("/nonexistent-for-sure/none.mp3");
    assert_eq!(r, Err(ErrorKind::TagReadError));
    assert_eq!(c.tracks().len(), 0);
}
