use id3::TagLike;
use verbose::id3_tag::Id3Fields;
use verbose::track::Track;

fn fields(title: Option<&str>) -> Id3Fields {
    Id3Fields {
        title: title.map(String::from),
        album: Some("Album".to_string()),
        artist: Some("Artist".to_string()),
        genre: None,
        year: Some(1999),
        duration: Some(4321),
        first_picture: Some(vec![1, 2, 3]),
    }
}

fn id3_bytes(title: &str) -> Vec<u8> {
    let mut tag = id3::Tag::new();
    tag.set_title(title);
    tag.set_artist("Someone");
    tag.set_year(2001);
    let mut out = Vec::new();
    tag.write_to(&mut out, id3::Version::Id3v24).unwrap();
    out
}

fn dff_with_id3(id3: &[u8]) -> Vec<u8> {
    let mut c = b"ID3 ".to_vec();
    c.extend_from_slice(&(id3.len() as u64).to_be_bytes());
    c.extend_from_slice(id3);
    if id3.len() % 2 == 1 {
        c.push(0);
    }
    let mut rest = b"DSD ".to_vec();
    rest.extend_from_slice(&c);
    let mut v = b"FRM8".to_vec();
    v.extend_from_slice(&(rest.len() as u64).to_be_bytes());
    v.extend_from_slice(&rest);
    v
}

#[test]
fn empty_track_is_named_after_the_file() {
    let t = Track::empty_track("/music/album/song.dsf");
    assert_eq!(t.name, "song.dsf");
    assert_eq!(t.path, "/music/album/song.dsf");
    assert_eq!(t.year, 0);
    assert!(t.cover_bytes.is_empty());
}

#[test]
fn empty_track_of_a_path_without_file_name() {
    let t = Track::empty_track("/");
    assert_eq!(t.name, "");
    assert_eq!(t.path, "/");
    let t = Track::empty_track("music/..");
    assert_eq!(t.name, "");
}

#[test]
fn default_track_is_empty() {
    let t = Track::default();
    assert_eq!(t.name, "");
    assert_eq!(t.bit_depth, 0);
    assert_eq!(t.duration_ms, 0);
}

#[test]
fn dsd_extensions() {
    assert!(Track::has_dsd_extension("a/b.dsf"));
    assert!(Track::has_dsd_extension("a/b.dff"));
    assert!(Track::has_dsd_extension("b.dsd"));
    assert!(!Track::has_dsd_extension("a/b.flac"));
    assert!(!Track::has_dsd_extension("a/dsf"));
}

#[test]
fn dsd_info_from_dsf_tag() {
    let t = Track::extract_dsd_info("/m/x.dsf", Some(fields(Some("Song"))), None).unwrap();
    assert_eq!(t.name, "Song");
    assert_eq!(t.album_name, "Album");
    assert_eq!(t.artist_name, "Artist");
    assert_eq!(t.genre, "");
    assert_eq!(t.year, 1999);
    assert_eq!(t.duration_ms, 4321);
    assert_eq!(t.bit_depth, 1);
    assert_eq!(t.sample_rate, 0);
    assert_eq!(t.channels, 0);
    assert_eq!(t.overall_bitrate, 0);
    assert_eq!(t.cover_bytes, vec![1, 2, 3]);
    assert_eq!(t.path, "/m/x.dsf");
}

#[test]
fn dsd_info_title_falls_back_to_file_name() {
    let t = Track::extract_dsd_info("/m/x.dsf", Some(fields(None)), None).unwrap();
    assert_eq!(t.name, "x.dsf");
}

#[test]
fn dsd_info_negative_year_wraps() {
    let mut f = fields(None);
    f.year = Some(-1);
    let t = Track::extract_dsd_info("/m/x.dsf", Some(f), None).unwrap();
    assert_eq!(t.year, u32::MAX);
}

#[test]
fn dsd_info_without_tag_is_none() {
    assert!(Track::extract_dsd_info("/m/x.dsf", None, None).is_none());
}

#[test]
fn dsd_info_from_dff_id3_chunk() {
    let content = dff_with_id3(&id3_bytes("From Chunk"));
    let t = Track::extract_dsd_info("/m/y.dff", None, Some(&content)).unwrap();
    assert_eq!(t.name, "From Chunk");
    assert_eq!(t.artist_name, "Someone");
    assert_eq!(t.year, 2001);
    assert_eq!(t.album_name, "");
}

#[test]
fn dsd_info_from_dff_chunk_without_tag() {
    let content = dff_with_id3(b"not a tag at all");
    assert!(Track::extract_dsd_info("/m/y.dff", None, Some(&content)).is_none());
}

#[test]
fn new_ignores_other_files() {
    assert!(Track::new("/m/a.flac", None, None, None).is_none());
}

#[test]
fn new_prefers_the_dsd_tag() {
    let t = Track::new("/m/a.dsf", Some(fields(Some("Tagged"))), None, Some(Track::empty_track("/other"))).unwrap();
    assert_eq!(t.name, "Tagged");
}

#[test]
fn new_falls_back_to_discovery_then_empty() {
    let g = Track::from_discovered("/m/a.dsd", Some("Disc".to_string()), None, None, None, Some(10), Some(5));
    let t = Track::new("/m/a.dsd", None, None, Some(g)).unwrap();
    assert_eq!(t.name, "Disc");
    assert_eq!(t.album_name, "m");
    assert_eq!(t.duration_ms, 10);
    assert_eq!(t.overall_bitrate, 5);
    let e = Track::new("/m/a.dsd", None, None, None).unwrap();
    assert_eq!(e.name, "a.dsd");
    assert_eq!(e.path, "/m/a.dsd");
}

#[test]
fn discovered_track_fallbacks() {
    let t = Track::from_discovered("/music/Best Of/01.dsf", None, None, None, None, None, None);
    assert_eq!(t.name, "01.dsf");
    assert_eq!(t.album_name, "Best Of");
    assert_eq!(t.artist_name, "");
    assert_eq!(t.duration_ms, 0);
    assert_eq!(t.overall_bitrate, 0);
    let t = Track::from_discovered("x.dsf", None, Some("Given".to_string()), Some("A".to_string()), Some("G".to_string()), None, None);
    assert_eq!(t.album_name, "Given");
    assert_eq!(t.artist_name, "A");
    assert_eq!(t.genre, "G");
}

#[test]
fn law_new_track_keeps_path() {
    for p in ["/m/a.dsf", "rel/b.dff", "c.dsd"] {
        let t = Track::new(p, None, None, None).unwrap();
        assert_eq!(t.path, p);
    }
}

#[test]
fn new_ignores_paths_that_only_end_in_dff() {
    assert!(Track::new("/music/song.sdff", None, None, None).is_none());
    assert!(Track::new("/x/readmedff", None, None, None).is_none());
}
