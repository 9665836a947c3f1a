//! The fields of an ID3 tag that a track is built from.
use vstd::prelude::*;

use id3::TagLike;

verus! {

/// What the library reads of an ID3 tag: its text frames, its year (TYER),
/// its duration (TLEN) and the data of its first picture.
#[derive(Debug, Clone)]
pub struct Id3Fields {
    pub title: Option<String>,
    pub album: Option<String>,
    pub artist: Option<String>,
    pub genre: Option<String>,
    pub year: Option<i32>,
    pub duration: Option<u32>,
    pub first_picture: Option<Vec<u8>>,
}

/// The fields of an ID3 tag as plain values.
pub struct Id3FieldsView {
    pub title: Option<Seq<char>>,
    pub album: Option<Seq<char>>,
    pub artist: Option<Seq<char>>,
    pub genre: Option<Seq<char>>,
    pub year: Option<i32>,
    pub duration: Option<u32>,
    pub first_picture: Option<Seq<u8>>,
}

pub open spec fn text_view(o: Option<String>) -> Option<Seq<char>> {
    match o {
        Some(s) => Some(s@),
        None => None,
    }
}

impl View for Id3Fields {
    type V = Id3FieldsView;

    open spec fn view(&self) -> Id3FieldsView {
        Id3FieldsView {
            title: text_view(self.title),
            album: text_view(self.album),
            artist: text_view(self.artist),
            genre: text_view(self.genre),
            year: self.year,
            duration: self.duration,
            first_picture: match self.first_picture {
                Some(v) => Some(v@),
                None => None,
            },
        }
    }
}

/// The fields of the tag that `id3::v1v2::read_from` reads from `bytes`
/// (an ID3v2 tag, else an ID3v1 tag), or `None` where it fails.
pub uninterp spec fn id3_read_from(bytes: Seq<u8>) -> Option<Id3FieldsView>;

/// `id3::v1v2::read_from` on the bytes of an ID3 chunk: the fields of the tag it
/// reads, or `None` where it returns an error. The result is a function of the
/// bytes alone; what it is on given bytes is left to the id3 crate.
#[verifier::external_body]
pub(crate) fn read_id3_tag(bytes: &[u8]) -> (r: Option<Id3Fields>)
    ensures
        match r {
            Some(f) => id3_read_from(bytes@) == Some(f@),
            None => id3_read_from(bytes@) is None,
        },
{
    match id3::v1v2::read_from(std::io::Cursor::new(bytes)) {
        Ok(tag) => Some(Id3Fields {
            title: tag.title().map(String::from),
            album: tag.album().map(String::from),
            artist: tag.artist().map(String::from),
            genre: tag.genre().map(String::from),
            year: tag.year(),
            duration: tag.duration(),
            first_picture: tag.pictures().next().map(|p| p.data.clone()),
        }),
        Err(_) => None,
    }
}

} // verus!
