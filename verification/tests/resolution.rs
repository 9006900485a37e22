use impact::Catalog;
use impact::ErrorKind;
use impact::TrackData;

fn td(path: &str, title: &str, artist: &str, album: &str) -> TrackData {
    TrackData {
        id: 0,
        path: path.to_string(),
        title: title.to_string(),
        artist: artist.to_string(),
        album: album.to_string(),
    }
}

fn sample() -> Catalog {
    let mut c = Catalog::new();
    c.add(td("/music/song.mp3", "Song", "Band", "Demo")).unwrap();
    c.add(td("/music/other.mp3", "Other", "Band", "Demo")).unwrap();
    c.add(td("/music/song2.mp3", "Song", "Second Band", "")).unwrap();
    c
}

#[test]
fn id_token_resolves_by_id() {
    let c = sample();
    let t = c.resolve_with_probe("2", None, None).unwrap();
    assert_eq!(t.id, 2);
    assert_eq!(t.title, "Other");
}

#[test]
fn id_token_with_plus_sign_and_leading_zeros() {
    let c = sample();
    assert_eq!(c.resolve_with_probe("+2", None, None).unwrap().id, 2);
    assert_eq!(c.resolve_with_probe("002", None, None).unwrap().id, 2);
}

#[test]
fn unknown_id_fails_not_found_without_trying_later_rules() {
    let c = sample();
    // "9" is an integer token, so the id rule decides even though no
    // record has id 9 and a title lookup is never attempted.
    assert_eq!(c.resolve_with_probe("9", None, None), Err(ErrorKind::NotFound));
}

#[test]
fn negative_integer_token_is_an_id_lookup_not_a_split() {
    let c = sample();
    // "-5" parses as an integer, so it is not split at its '-'.
    assert_eq!(c.resolve_with_probe("-5", None, None), Err(ErrorKind::NotFound));
}

#[test]
fn probe_resolves_by_normalized_path() {
    let c = sample();
    let t = c.resolve_with_probe("song.mp3", None, Some("/music/song.mp3")).unwrap();
    assert_eq!(t.id, 1);
}

#[test]
fn probe_with_uncataloged_path_fails_not_found() {
    let c = sample();
    let r = c.resolve_with_probe("stray.mp3", None, Some("/music/stray.mp3"));
    assert_eq!(r, Err(ErrorKind::NotFound));
}

#[test]
fn artist_title_pair_resolves() {
    let c = sample();
    let t = c.resolve_with_probe("Band - Other", None, None).unwrap();
    assert_eq!(t.id, 2);
}

#[test]
fn artist_title_pair_ignores_whitespace_padding() {
    let c = sample();
    assert_eq!(c.resolve_with_probe("Band-Other", None, None).unwrap().id, 2);
    assert_eq!(c.resolve_with_probe("  Band   -   Other  ", None, None).unwrap().id, 2);
    assert_eq!(c.resolve_with_probe("\tBand -\nOther\t", None, None).unwrap().id, 2);
}

#[test]
fn artist_title_pair_is_case_sensitive_exact_match() {
    let c = sample();
    assert_eq!(c.resolve_with_probe("band - Other", None, None), Err(ErrorKind::NotFound));
    assert_eq!(c.resolve_with_probe("Band - Wrong", None, None), Err(ErrorKind::NotFound));
}

#[test]
fn split_happens_at_the_first_dash() {
    let mut c = Catalog::new();
    c.add(td("/music/b.mp3", "DC - Back in Black", "AC", "")).unwrap();
    let t = c.resolve_with_probe("AC - DC - Back in Black", None, None).unwrap();
    assert_eq!(t.id, 1);
}

#[test]
fn bare_title_unique_match_resolves() {
    let c = sample();
    let t = c.resolve_with_probe("Other", None, None).unwrap();
    assert_eq!(t.id, 2);
}

#[test]
fn bare_title_is_trimmed() {
    let c = sample();
    assert_eq!(c.resolve_with_probe("   Other  ", None, None).unwrap().id, 2);
}

#[test]
fn bare_title_no_match_fails_not_found() {
    let c = sample();
    assert_eq!(c.resolve_with_probe("Nothing", None, None), Err(ErrorKind::NotFound));
}

#[test]
fn shared_title_without_hint_is_ambiguous() {
    let c = sample();
    assert_eq!(c.resolve_with_probe("Song", None, None), Err(ErrorKind::Ambiguous));
}

#[test]
fn shared_title_with_correct_hint_resolves() {
    let c = sample();
    let t = c.resolve_with_probe("Song", Some("Second Band"), None).unwrap();
    assert_eq!(t.id, 3);
    let t = c.resolve_with_probe("Song", Some("Band"), None).unwrap();
    assert_eq!(t.id, 1);
}

#[test]
fn shared_title_with_wrong_hint_fails_not_found() {
    let c = sample();
    assert_eq!(c.resolve_with_probe("Song", Some("Wrong"), None), Err(ErrorKind::NotFound));
}

#[test]
fn shared_title_with_hint_still_ambiguous_when_artist_repeats() {
    let mut c = sample();
    c.add(td("/music/song3.mp3", "Song", "Band", "")).unwrap();
    assert_eq!(c.resolve_with_probe("Song", Some("Band"), None), Err(ErrorKind::Ambiguous));
}

#[test]
fn unique_title_wins_before_hint_matters() {
    let c = sample();
    // A unique title match resolves even with a hint naming another artist:
    // the hint only narrows when several records share the title.
    let t = c.resolve_with_probe("Other", Some("Nobody"), None).unwrap();
    assert_eq!(t.id, 2);
}

#[test]
fn huge_number_is_not_an_integer_token() {
    let mut c = Catalog::new();
    c.add(td("/m/n.mp3", "99999999999999999999", "X", "")).unwrap();
    // Twenty nines overflow an i64, so the token falls through to the
    // bare-title rule and finds the record by title.
    let t = c.resolve_with_probe("99999999999999999999", None, None).unwrap();
    assert_eq!(t.id, 1);
}

#[test]
fn empty_artist_half_matches_empty_artist() {
    let mut c = Catalog::new();
    c.add(td("/m/u.mp3", "Untagged", "", "")).unwrap();
    let t = c.resolve_with_probe(" - Untagged", None, None).unwrap();
    assert_eq!(t.id, 1);
}

#[test]
fn unknown_format_lookup_without_a_file_on_disk() {
    let c = sample();
    // None of these tokens names an existing file, so the disk probe is
    // empty and resolution proceeds by id, pair and title.
    assert_eq!(c.track_by_unknown_format("1", None).unwrap().id, 1);
    assert_eq!(c.track_by_unknown_format("Band - Other", None).unwrap().id, 2);
    assert_eq!(c.track_by_unknown_format("Song", None), Err(ErrorKind::Ambiguous));
    assert_eq!(c.track_by_unknown_format("Song", Some("Band")).unwrap().id, 1);
}

#[test]
fn scenario_add_resolve_remove() {
    let mut c = Catalog::new();
    let id = c.add(td("/music/song.mp3", "Song", "Band", "Demo")).unwrap();
    assert_eq!(id, 1);
    assert_eq!(c.tracks().len(), 1);
    let by_id = c.resolve_with_probe("1", None, None).unwrap();
    assert_eq!(by_id.title, "Song");
    assert_eq!(by_id.artist, "Band");
    assert_eq!(by_id.album, "Demo");
    let by_path = c.resolve_with_probe("song.mp3", None, Some("/music/song.mp3")).unwrap();
    assert_eq!(by_path.id, 1);
    c.remove(1);
    assert_eq!(c.resolve_with_probe("1", None, None), Err(ErrorKind::NotFound));
}

#[test]
fn lookup_helpers_find_first_match() {
    let c = sample();
    assert_eq!(c.track_by_id(3).unwrap().path, "/music/song2.mp3");
    assert_eq!(c.track_by_path("/music/other.mp3").unwrap().id, 2);
    assert_eq!(c.track_by_artist_and_title("Band", "Song").unwrap().id, 1);
    assert_eq!(c.track_by_title("Other", None).unwrap().id, 2);
}
