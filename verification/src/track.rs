//! An audio track and the metadata the library reads for it.
use vstd::prelude::*;

use crate::dsdiff::dff_metadata_spec;
use crate::id3_tag::{id3_read_from, read_id3_tag, Id3Fields, Id3FieldsView};
use crate::path::{file_name, file_name_spec, lemma_file_name_exists, parent_name, parent_name_spec};
use crate::text::{chars_of, ends_with, ends_with_spec};

verus! {

/// What the library knows of one audio track.
#[derive(Debug, Clone)]
pub struct Track {
    pub name: String,
    pub album_name: String,
    pub artist_name: String,
    pub genre: String,
    pub path: String,
    pub year: u32,
    pub bit_depth: u8,
    pub sample_rate: u32,
    pub channels: u8,
    pub overall_bitrate: u32,
    pub cover_bytes: Vec<u8>,
    pub offset_ms: u64,
    pub duration_ms: u64,
}

/// A track as plain values.
pub struct TrackView {
    pub name: Seq<char>,
    pub album_name: Seq<char>,
    pub artist_name: Seq<char>,
    pub genre: Seq<char>,
    pub path: Seq<char>,
    pub year: u32,
    pub bit_depth: u8,
    pub sample_rate: u32,
    pub channels: u8,
    pub overall_bitrate: u32,
    pub cover_bytes: Seq<u8>,
    pub offset_ms: u64,
    pub duration_ms: u64,
}

impl View for Track {
    type V = TrackView;

    open spec fn view(&self) -> TrackView {
        TrackView {
            name: self.name@,
            album_name: self.album_name@,
            artist_name: self.artist_name@,
            genre: self.genre@,
            path: self.path@,
            year: self.year,
            bit_depth: self.bit_depth,
            sample_rate: self.sample_rate,
            channels: self.channels,
            overall_bitrate: self.overall_bitrate,
            cover_bytes: self.cover_bytes@,
            offset_ms: self.offset_ms,
            duration_ms: self.duration_ms,
        }
    }
}

/// The track with every text empty, every number zero and no cover.
pub open spec fn default_track_view() -> TrackView {
    TrackView {
        name: Seq::empty(),
        album_name: Seq::empty(),
        artist_name: Seq::empty(),
        genre: Seq::empty(),
        path: Seq::empty(),
        year: 0,
        bit_depth: 0,
        sample_rate: 0,
        channels: 0,
        overall_bitrate: 0,
        cover_bytes: Seq::empty(),
        offset_ms: 0,
        duration_ms: 0,
    }
}

impl Default for Track {
    fn default() -> (r: Track)
        ensures
            r@ == default_track_view(),
    {
        Track {
            name: String::new(),
            album_name: String::new(),
            artist_name: String::new(),
            genre: String::new(),
            path: String::new(),
            year: 0,
            bit_depth: 0,
            sample_rate: 0,
            channels: 0,
            overall_bitrate: 0,
            cover_bytes: Vec::new(),
            offset_ms: 0,
            duration_ms: 0,
        }
    }
}

/// The text if there is one, else the fallback.
pub open spec fn text_or(o: Option<Seq<char>>, fallback: Seq<char>) -> Seq<char> {
    match o {
        Some(t) => t,
        None => fallback,
    }
}

/// The file name of a path, or the empty text where it has none.
pub open spec fn file_name_or_empty(path: Seq<char>) -> Seq<char> {
    text_or(file_name_spec(path), Seq::empty())
}

/// The track that stands for a file of which nothing is known but its path:
/// named after the file, every other field empty.
pub open spec fn empty_track_view(path: Seq<char>) -> TrackView {
    TrackView { name: file_name_or_empty(path), path: path, ..default_track_view() }
}

/// A file name with one of the DSD extensions `.dsf`, `.dff` or `.dsd`.
pub open spec fn is_dsd_name(name: Seq<char>) -> bool {
    ends_with_spec(name, ".dsf"@) || ends_with_spec(name, ".dff"@) || ends_with_spec(name, ".dsd"@)
}

/// The track read from the ID3 tag of a DSD file at `path` whose file name is `fname`:
/// the tag's texts (the title falling back to the file name), its year and duration,
/// the data of its first picture as cover, one bit per sample and a zero bitrate.
pub open spec fn dsd_track_view(path: Seq<char>, tag: Id3FieldsView, fname: Seq<char>) -> TrackView {
    TrackView {
        name: text_or(tag.title, fname),
        album_name: text_or(tag.album, Seq::empty()),
        artist_name: text_or(tag.artist, Seq::empty()),
        genre: text_or(tag.genre, Seq::empty()),
        path: path,
        year: (match tag.year {
            Some(y) => y,
            None => 0,
        }) as u32,
        bit_depth: 1,
        sample_rate: 0,
        channels: 0,
        overall_bitrate: 0,
        cover_bytes: match tag.first_picture {
            Some(p) => p,
            None => Seq::empty(),
        },
        offset_ms: 0,
        duration_ms: (match tag.duration {
            Some(d) => d,
            None => 0,
        }) as u64,
    }
}

pub open spec fn fields_view(o: Option<Id3Fields>) -> Option<Id3FieldsView> {
    match o {
        Some(f) => Some(f@),
        None => None,
    }
}

pub open spec fn content_view(o: Option<&[u8]>) -> Option<Seq<u8>> {
    match o {
        Some(c) => Some(c@),
        None => None,
    }
}

/// The ID3 tag of a DSD file: the one read from the DSF file if there is one; else,
/// for a path ending with `dff`, the tag in the ID3 chunk of the DSDIFF content.
pub open spec fn dsd_tag_spec(path: Seq<char>, dsf_tag: Option<Id3FieldsView>, dff_content: Option<
    Seq<u8>,
>) -> Option<Id3FieldsView> {
    match dsf_tag {
        Some(t) => Some(t),
        None => if ends_with_spec(path, "dff"@) {
            match dff_content {
                Some(c) => match dff_metadata_spec(c) {
                    Ok(m) => match m.id3_raw {
                        Some(raw) => id3_read_from(raw),
                        None => None,
                    },
                    Err(_) => None,
                },
                None => None,
            }
        } else {
            None
        },
    }
}

/// The DSDIFF content can be read and holds an ID3 chunk, wherever the tag is sought in it.
pub open spec fn dff_fallback_readable(path: Seq<char>, dsf_tag: Option<Id3FieldsView>, dff_content: Option<
    Seq<u8>,
>) -> bool {
    dsf_tag is None && ends_with_spec(path, "dff"@) ==> match dff_content {
        Some(c) => match dff_metadata_spec(c) {
            Ok(m) => m.id3_raw is Some,
            Err(_) => false,
        },
        None => false,
    }
}

/// What `Track::extract_dsd_info` gives: the track of the DSD tag, if one is found.
pub open spec fn dsd_info_spec(path: Seq<char>, dsf_tag: Option<Id3FieldsView>, dff_content: Option<
    Seq<u8>,
>) -> Option<TrackView> {
    match dsd_tag_spec(path, dsf_tag, dff_content) {
        Some(t) => Some(dsd_track_view(path, t, file_name_or_empty(path))),
        None => None,
    }
}

pub open spec fn track_view_opt(o: Option<Track>) -> Option<TrackView> {
    match o {
        Some(t) => Some(t@),
        None => None,
    }
}

/// What `Track::new` gives: for a file name with a DSD extension, the track of its
/// ID3 tag, else the track from discovery, else the empty track; otherwise nothing.
pub open spec fn new_track_spec(
    path: Seq<char>,
    dsf_tag: Option<Id3FieldsView>,
    dff_content: Option<Seq<u8>>,
    discovered: Option<TrackView>,
) -> Option<TrackView> {
    if is_dsd_name(file_name_or_empty(path)) {
        match dsd_info_spec(path, dsf_tag, dff_content) {
            Some(v) => Some(v),
            None => match discovered {
                Some(g) => Some(g),
                None => Some(empty_track_view(path)),
            },
        }
    } else {
        None
    }
}

/// The track that GStreamer's discovery gives: the title falling back to the file
/// name, the album to the name of the parent directory, artist and genre to empty
/// texts, duration and bitrate of the first audio stream to zero.
pub open spec fn discovered_track_view(
    path: Seq<char>,
    title: Option<Seq<char>>,
    album: Option<Seq<char>>,
    artist: Option<Seq<char>>,
    genre: Option<Seq<char>>,
    duration_ms: Option<u64>,
    first_audio_bitrate: Option<u32>,
) -> TrackView {
    TrackView {
        name: text_or(title, file_name_or_empty(path)),
        album_name: text_or(album, text_or(parent_name_spec(path), Seq::empty())),
        artist_name: text_or(artist, Seq::empty()),
        genre: text_or(genre, Seq::empty()),
        path: path,
        duration_ms: match duration_ms {
            Some(d) => d,
            None => 0,
        },
        overall_bitrate: match first_audio_bitrate {
            Some(b) => b,
            None => 0,
        },
        ..default_track_view()
    }
}

fn text_or_else(o: Option<String>, fallback: String) -> (r: String)
    ensures
        r@ == text_or(crate::id3_tag::text_view(o), fallback@),
{
    match o {
        Some(t) => t,
        None => fallback,
    }
}

fn text_or_empty(o: Option<String>) -> (r: String)
    ensures
        r@ == text_or(crate::id3_tag::text_view(o), Seq::empty()),
{
    match o {
        Some(t) => t,
        None => String::new(),
    }
}

fn copy_str(s: &str) -> (r: String)
    ensures
        r@ == s@,
{
    s.to_owned()
}

impl Track {
    /// The track of a file about which nothing was read: named after the file
    /// (empty where the path has no file name), with the path, every other field empty.
    pub fn empty_track(path: &str) -> (r: Track)
        ensures
            r@ == empty_track_view(path@),
    {
        let name = match file_name(path) {
            Some(n) => n,
            None => String::new(),
        };
        let d = Track::default();
        Track { name, path: copy_str(path), ..d }
    }

    /// Whether the file name of `path` ends with a DSD extension.
    pub fn has_dsd_extension(path: &str) -> (r: bool)
        requires
            file_name_spec(path@) is Some,
        ensures
            r == is_dsd_name(file_name_or_empty(path@)),
    {
        let name = match file_name(path) {
            Some(n) => n,
            None => String::new(),
        };
        let cs = chars_of(name.as_str());
        ends_with(cs.as_slice(), ".dsf") || ends_with(cs.as_slice(), ".dff") || ends_with(
            cs.as_slice(),
            ".dsd",
        )
    }

    /// The track of a DSD file built from its ID3 tag. `dsf_tag` is the tag the DSF
    /// reader found in the file, if any; `dff_content` is the content of the file,
    /// read where there is no such tag and the path ends with `dff`, to take the tag
    /// from its DSDIFF ID3 chunk. `None` where no tag is found.
    pub fn extract_dsd_info(path: &str, dsf_tag: Option<Id3Fields>, dff_content: Option<&[u8]>) -> (r:
        Option<Track>)
        requires
            dsf_tag is Some ==> file_name_spec(path@) is Some,
            dff_fallback_readable(path@, fields_view(dsf_tag), content_view(dff_content)),
        ensures
            track_view_opt(r) == dsd_info_spec(path@, fields_view(dsf_tag), content_view(dff_content)),
    {
        let cs = chars_of(path);
        let from_dff = dsf_tag.is_none();
        let tag = match dsf_tag {
            Some(t) => Some(t),
            None => {
                if ends_with(cs.as_slice(), "dff") {
                    match dff_content {
                        Some(content) => match Track::extract_dff_metadata(content) {
                            Ok(m) => match m.id3_raw {
                                Some(raw) => read_id3_tag(raw.as_slice()),
                                None => None,
                            },
                            Err(_) => None,
                        },
                        None => None,
                    }
                } else {
                    None
                }
            },
        };
        match tag {
            None => None,
            Some(t) => {
                proof {
                    if from_dff {
                        reveal_strlit("dff");
                        let s = path@;
                        assert(s.subrange(s.len() - 3, s.len() as int)[2] == 'f');
                        lemma_file_name_exists(s);
                    }
                }
                let fname = match file_name(path) {
                    Some(n) => n,
                    None => String::new(),
                };
                let year = (match t.year {
                    Some(y) => y,
                    None => 0,
                }) as u32;
                let duration_ms = (match t.duration {
                    Some(d) => d,
                    None => 0,
                }) as u64;
                let sample_rate: u32 = 0;
                let channels: u8 = 0;
                let bit_depth: u8 = 1;
                let overall_bitrate = (sample_rate as u64 * channels as u64 * bit_depth as u64) as u32;
                let cover_bytes = match t.first_picture {
                    Some(p) => p,
                    None => Vec::new(),
                };
                let d = Track::default();
                Some(
                    Track {
                        name: text_or_else(t.title, fname),
                        album_name: text_or_empty(t.album),
                        artist_name: text_or_empty(t.artist),
                        genre: text_or_empty(t.genre),
                        path: copy_str(path),
                        sample_rate,
                        channels,
                        bit_depth,
                        year,
                        duration_ms,
                        overall_bitrate,
                        cover_bytes,
                        ..d
                    },
                )
            },
        }
    }

    /// The track built from what GStreamer's discoverer read of the file at `path`:
    /// its title, album, artist and genre tags, its duration in milliseconds and the
    /// bitrate of its first audio stream.
    pub fn from_discovered(
        path: &str,
        title: Option<String>,
        album: Option<String>,
        artist: Option<String>,
        genre: Option<String>,
        duration_ms: Option<u64>,
        first_audio_bitrate: Option<u32>,
    ) -> (r: Track)
        requires
            file_name_spec(path@) is Some,
            album is None ==> parent_name_spec(path@) is Some,
        ensures
            r@ == discovered_track_view(
                path@,
                crate::id3_tag::text_view(title),
                crate::id3_tag::text_view(album),
                crate::id3_tag::text_view(artist),
                crate::id3_tag::text_view(genre),
                duration_ms,
                first_audio_bitrate,
            ),
    {
        let fname = match file_name(path) {
            Some(n) => n,
            None => String::new(),
        };
        let name = text_or_else(title, fname);
        let album_name = match album {
            Some(a) => a,
            None => match parent_name(path) {
                Some(p) => p,
                None => String::new(),
            },
        };
        let d = Track::default();
        Track {
            name,
            album_name,
            artist_name: text_or_empty(artist),
            genre: text_or_empty(genre),
            path: copy_str(path),
            duration_ms: match duration_ms {
                Some(x) => x,
                None => 0,
            },
            overall_bitrate: match first_audio_bitrate {
                Some(b) => b,
                None => 0,
            },
            ..d
        }
    }

    /// The track of the audio file at `path`, which must have a file name. A file
    /// with a DSD extension (`.dsf`, `.dff`, `.dsd`) gets the track built from its
    /// ID3 tag (see `extract_dsd_info`, given `dsf_tag` and `dff_content`); where no
    /// tag is found, the track GStreamer's discovery gave (`discovered`); where that
    /// failed too, the empty track of the path. Any other file gives `None`.
    pub fn new(path: &str, dsf_tag: Option<Id3Fields>, dff_content: Option<&[u8]>, discovered: Option<
        Track,
    >) -> (r: Option<Track>)
        requires
            file_name_spec(path@) is Some,
            is_dsd_name(file_name_or_empty(path@)) ==> dff_fallback_readable(
                path@,
                fields_view(dsf_tag),
                content_view(dff_content),
            ),
        ensures
            track_view_opt(r) == new_track_spec(
                path@,
                fields_view(dsf_tag),
                content_view(dff_content),
                track_view_opt(discovered),
            ),
    {
        if Track::has_dsd_extension(path) {
            match Track::extract_dsd_info(path, dsf_tag, dff_content) {
                Some(t) => Some(t),
                None => match discovered {
                    Some(g) => Some(g),
                    None => Some(Track::empty_track(path)),
                },
            }
        } else {
            None
        }
    }
}

/// The track built from an ID3 tag carries the tag's fields: whenever a tag is found
/// for a DSD file (the DSF tag, or the one in the ID3 chunk of its DSDIFF content),
/// `Track::extract_dsd_info` gives a track whose name is the tag's title (the file
/// name where it has none), whose album, artist and genre are the tag's where it has
/// them (else empty), whose year and duration are the tag's (else zero), whose cover
/// is the data of the tag's first picture (else empty), with the file's path and one
/// bit per sample.
pub proof fn law_dsd_track_carries_tag_fields(
    path: Seq<char>,
    dsf_tag: Option<Id3FieldsView>,
    dff_content: Option<Seq<u8>>,
)
    requires
        dsd_tag_spec(path, dsf_tag, dff_content) is Some,
    ensures
        ({
            let t = dsd_tag_spec(path, dsf_tag, dff_content)->0;
            &&& dsd_info_spec(path, dsf_tag, dff_content) is Some
            &&& dsd_info_spec(path, dsf_tag, dff_content) matches Some(v) && {
                &&& t.title matches Some(s) ==> v.name == s
                &&& t.title is None ==> v.name == file_name_or_empty(path)
                &&& t.album matches Some(s) ==> v.album_name == s
                &&& t.album is None ==> v.album_name == Seq::<char>::empty()
                &&& t.artist matches Some(s) ==> v.artist_name == s
                &&& t.artist is None ==> v.artist_name == Seq::<char>::empty()
                &&& t.genre matches Some(s) ==> v.genre == s
                &&& t.genre is None ==> v.genre == Seq::<char>::empty()
                &&& t.year matches Some(y) ==> (0 <= y ==> v.year == y)
                &&& t.year is None ==> v.year == 0
                &&& t.duration matches Some(d) ==> v.duration_ms == d
                &&& t.duration is None ==> v.duration_ms == 0
                &&& t.first_picture matches Some(p) ==> v.cover_bytes == p
                &&& t.first_picture is None ==> v.cover_bytes == Seq::<u8>::empty()
                &&& v.path == path
                &&& v.bit_depth == 1
            }
        }),
{
}

/// The tag found for a DSD file is its DSF tag wherever the DSF reader found one;
/// where it found none and the path ends with `dff`, it is the tag read from the ID3
/// chunk of the DSDIFF content.
pub proof fn law_dsd_tag_source(path: Seq<char>, dsf_tag: Option<Id3FieldsView>, dff_content: Option<Seq<u8>>)
    ensures
        dsf_tag matches Some(t) ==> dsd_tag_spec(path, dsf_tag, dff_content) == Some(t),
        dsf_tag is None && ends_with_spec(path, "dff"@) ==> (dff_content matches Some(c) ==> (
        dff_metadata_spec(c) matches Ok(m) ==> (m.id3_raw matches Some(raw) ==> dsd_tag_spec(
            path,
            dsf_tag,
            dff_content,
        ) == id3_read_from(raw)))),
        dsf_tag is None && !ends_with_spec(path, "dff"@) ==> dsd_tag_spec(path, dsf_tag, dff_content) is None,
{
}

/// For a file with a DSD extension, `Track::new` gives the track that
/// `Track::extract_dsd_info` gives for the same path, DSF tag and DSDIFF content
/// whenever that one finds a tag; where it finds none, the track from discovery if
/// there is one, else the empty track of the path. A file without a DSD extension
/// gives no track.
pub proof fn law_new_track_is_dsd_info(
    path: Seq<char>,
    dsf_tag: Option<Id3FieldsView>,
    dff_content: Option<Seq<u8>>,
    discovered: Option<TrackView>,
)
    ensures
        is_dsd_name(file_name_or_empty(path)) ==> (dsd_info_spec(path, dsf_tag, dff_content) matches Some(v)
            ==> new_track_spec(path, dsf_tag, dff_content, discovered) == Some(v)),
        is_dsd_name(file_name_or_empty(path)) && dsd_info_spec(path, dsf_tag, dff_content) is None ==> (
        discovered matches Some(g) ==> new_track_spec(path, dsf_tag, dff_content, discovered) == Some(g)),
        is_dsd_name(file_name_or_empty(path)) && dsd_info_spec(path, dsf_tag, dff_content) is None
            && discovered is None ==> new_track_spec(path, dsf_tag, dff_content, discovered) == Some(
            empty_track_view(path),
        ),
        !is_dsd_name(file_name_or_empty(path)) ==> new_track_spec(path, dsf_tag, dff_content, discovered)
            is None,
{
}

/// The track `Track::new` gives for a path carries that path, wherever the track
/// from discovery, if one is given, was made for that path too.
pub proof fn law_new_track_keeps_path(
    path: Seq<char>,
    dsf_tag: Option<Id3FieldsView>,
    dff_content: Option<Seq<u8>>,
    discovered: Option<TrackView>,
)
    requires
        discovered matches Some(g) ==> g.path == path,
    ensures
        new_track_spec(path, dsf_tag, dff_content, discovered) matches Some(v) ==> v.path == path,
{
}

} // verus!
