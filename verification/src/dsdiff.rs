//! The metadata of a DSDIFF (`.dff`) file: its native text tags and its raw ID3 chunk.
//!
//! A DSDIFF file is `"FRM8"`, a 64-bit big-endian size, the form type `"DSD "`, then
//! chunks, each a 4-byte id, a 64-bit big-endian size and that many bytes, padded to an
//! even length. The `"DIIN"` chunk holds sub-chunks of the same shape; those with a
//! known id hold a 32-bit big-endian count followed by that many bytes of text.
//! The parser reads the file as a stream that can seek anywhere up to `i64::MAX`,
//! as `std::fs::File` does: a read past the end fails, a seek past `i64::MAX` fails.
use vstd::prelude::*;

use byteorder::ByteOrder;

use crate::text::{is_trim_of, is_trimmed, law_trim_leaves_no_whitespace, trim};
use crate::track::Track;

verus! {

/// The furthest position a file can seek to (`i64::MAX`).
pub const SEEK_LIMIT: u64 = 0x7fff_ffff_ffff_ffffu64;

/// Why the metadata of a DSDIFF file could not be read.
#[derive(Debug, Clone, Copy, PartialEq, Eq)]
pub enum DffError {
    /// The file ends inside its header (an `UnexpectedEof` read error).
    UnexpectedEof,
    /// The file does not start with `"FRM8"` (an `InvalidData` error).
    MissingFrm8,
    /// The form type is not `"DSD "` (an `InvalidData` error).
    WrongFormType,
    /// A size read from the file makes a position overflow 64 bits, where the
    /// reader's arithmetic overflows.
    ArithmeticOverflow,
    /// An `"ID3 "` chunk is larger than any buffer can be, where the reader's
    /// allocation overflows.
    CapacityOverflow,
}

/// The native tags of a DSDIFF file, each name once with its text bytes, and the
/// content of its last readable `"ID3 "` chunk.
#[derive(Debug, Clone)]
pub struct DsdiffMetadata {
    pub tags: Vec<(String, Vec<u8>)>,
    pub id3_raw: Option<Vec<u8>>,
}

/// The metadata as plain values: each tag name mapped to its text bytes.
pub struct DsdiffMetadataView {
    pub tags: Map<Seq<char>, Seq<u8>>,
    pub id3_raw: Option<Seq<u8>>,
}

/// The map that the tag list stands for: the pairs inserted in order.
pub open spec fn tags_view(v: Seq<(String, Vec<u8>)>) -> Map<Seq<char>, Seq<u8>>
    decreases v.len(),
{
    if v.len() == 0 {
        Map::empty()
    } else {
        tags_view(v.drop_last()).insert(v.last().0@, v.last().1@)
    }
}

/// No tag name occurs twice.
pub open spec fn keys_distinct(v: Seq<(String, Vec<u8>)>) -> bool {
    forall|i: int, j: int| 0 <= i < j < v.len() ==> v[i].0@ != v[j].0@
}

pub open spec fn bytes_view(o: Option<Vec<u8>>) -> Option<Seq<u8>> {
    match o {
        Some(v) => Some(v@),
        None => None,
    }
}

impl View for DsdiffMetadata {
    type V = DsdiffMetadataView;

    open spec fn view(&self) -> DsdiffMetadataView {
        DsdiffMetadataView { tags: tags_view(self.tags@), id3_raw: bytes_view(self.id3_raw) }
    }
}

impl Default for DsdiffMetadata {
    fn default() -> (r: DsdiffMetadata)
        ensures
            r.wf(),
            r@.tags == Map::<Seq<char>, Seq<u8>>::empty(),
            r@.id3_raw is None,
    {
        let r = DsdiffMetadata { tags: Vec::new(), id3_raw: None };
        assert(tags_view(r.tags@) =~= Map::empty());
        r
    }
}

impl DsdiffMetadata {
    /// Each tag name occurs once in the tag list.
    pub open spec fn wf(&self) -> bool {
        keys_distinct(self.tags@)
    }

    /// The tags as text: each tag name with the text its bytes decode to
    /// (`decoded[i]` for `tags[i]`), trimmed of whitespace at both ends.
    pub fn text_tags(&self, decoded: &Vec<String>) -> (r: Vec<(String, String)>)
        requires
            decoded@.len() == self.tags@.len(),
        ensures
            r@.len() == self.tags@.len(),
            forall|i: int|
                0 <= i < r@.len() ==> #[trigger] r@[i].0@ == self.tags@[i].0@ && is_trim_of(
                    r@[i].1@,
                    decoded@[i]@,
                ) && is_trimmed(r@[i].1@),
    {
        let mut r: Vec<(String, String)> = Vec::new();
        let mut i: usize = 0;
        while i < self.tags.len()
            invariant
                decoded@.len() == self.tags@.len(),
                i <= self.tags@.len(),
                r@.len() == i,
                forall|k: int|
                    0 <= k < i ==> #[trigger] r@[k].0@ == self.tags@[k].0@ && is_trim_of(
                        r@[k].1@,
                        decoded@[k]@,
                    ) && is_trimmed(r@[k].1@),
            decreases self.tags@.len() - i,
        {
            let name = self.tags[i].0.clone();
            let text = trim(decoded[i].as_str());
            proof {
                law_trim_leaves_no_whitespace(text@, decoded@[i as int]@);
            }
            r.push((name, text));
            i = i + 1;
        }
        r
    }
}

/// The unsigned 64-bit number whose big-endian bytes start `b`.
pub open spec fn be_u64_spec(b: Seq<u8>) -> u64 {
    (b[0] as int * 0x100_0000_0000_0000 + b[1] as int * 0x1_0000_0000_0000
        + b[2] as int * 0x100_0000_0000 + b[3] as int * 0x1_0000_0000 + b[4] as int * 0x100_0000
        + b[5] as int * 0x1_0000 + b[6] as int * 0x100 + b[7] as int) as u64
}

/// The unsigned 32-bit number whose big-endian bytes start `b`.
pub open spec fn be_u32_spec(b: Seq<u8>) -> u32 {
    (b[0] as int * 0x100_0000 + b[1] as int * 0x1_0000 + b[2] as int * 0x100 + b[3] as int) as u32
}

/// `BigEndian::read_u64` of the byteorder crate.
#[verifier::external_body]
fn read_be_u64(buf: &[u8]) -> (r: u64)
    requires
        buf@.len() >= 8,
    ensures
        r == be_u64_spec(buf@),
{
    byteorder::BigEndian::read_u64(buf)
}

/// `BigEndian::read_u32` of the byteorder crate.
#[verifier::external_body]
fn read_be_u32(buf: &[u8]) -> (r: u32)
    requires
        buf@.len() >= 4,
    ensures
        r == be_u32_spec(buf@),
{
    byteorder::BigEndian::read_u32(buf)
}

/// The four bytes of a chunk id.
pub open spec fn id4(a: u8, b: u8, c: u8, d: u8) -> Seq<u8> {
    seq![a, b, c, d]
}

/// The tag name that a DIIN sub-chunk id stands for.
pub open spec fn dff_tag_name(id: Seq<u8>) -> Option<Seq<char>> {
    if id == id4(0x44, 0x49, 0x41, 0x52) {
        Some(seq!['a', 'r', 't', 'i', 's', 't'])
    } else if id == id4(0x44, 0x49, 0x54, 0x49) {
        Some(seq!['t', 'i', 't', 'l', 'e'])
    } else if id == id4(0x44, 0x49, 0x41, 0x4c) {
        Some(seq!['a', 'l', 'b', 'u', 'm'])
    } else if id == id4(0x44, 0x49, 0x47, 0x4e) {
        Some(seq!['g', 'e', 'n', 'r', 'e'])
    } else if id == id4(0x44, 0x49, 0x43, 0x52) {
        Some(seq!['c', 'o', 'p', 'y', 'r', 'i', 'g', 'h', 't'])
    } else if id == id4(0x44, 0x49, 0x46, 0x43) {
        Some(seq!['c', 'o', 'm', 'm', 'e', 'n', 't'])
    } else {
        None
    }
}

/// The tags after one known sub-chunk with data at `dpos` and size `size`: its
/// text count, then at most `size - 4` bytes of text, when the file holds them.
pub open spec fn with_sub_chunk_text(
    data: Seq<u8>,
    key: Seq<char>,
    dpos: int,
    size: int,
    tags: Map<Seq<char>, Seq<u8>>,
) -> Map<Seq<char>, Seq<u8>> {
    if size >= 4 && dpos + 4 <= data.len() {
        let count = be_u32_spec(data.subrange(dpos, dpos + 4)) as int;
        let n = if count < size - 4 { count } else { size - 4 };
        if dpos + 4 + n <= data.len() {
            tags.insert(key, data.subrange(dpos + 4, dpos + 4 + n))
        } else {
            tags
        }
    } else {
        tags
    }
}

/// The tags read from the sub-chunks of a DIIN chunk, from position `pos` to `end`;
/// `None` where the reader's arithmetic overflows.
pub open spec fn sub_chunks(data: Seq<u8>, pos: int, end: int, tags: Map<Seq<char>, Seq<u8>>) -> Option<
    Map<Seq<char>, Seq<u8>>,
>
    decreases SEEK_LIMIT - pos,
{
    if pos + 12 > end || pos + 12 > data.len() {
        Some(tags)
    } else {
        let size = be_u64_spec(data.subrange(pos + 4, pos + 12)) as int;
        let dpos = pos + 12;
        let tags2 = match dff_tag_name(data.subrange(pos, pos + 4)) {
            Some(key) => with_sub_chunk_text(data, key, dpos, size, tags),
            None => tags,
        };
        let padded = size + size % 2;
        if padded > u64::MAX || dpos + padded > u64::MAX {
            None
        } else if dpos + padded > SEEK_LIMIT {
            Some(tags2)
        } else {
            sub_chunks(data, dpos + padded, end, tags2)
        }
    }
}

/// The tags and ID3 content after reading the data of the chunk whose header is at
/// `pos`: a `DIIN` chunk adds its sub-chunks' tags, an `ID3 ` chunk that the file
/// holds whole becomes the ID3 content, any other chunk changes nothing.
pub open spec fn chunk_body(
    data: Seq<u8>,
    pos: int,
    tags: Map<Seq<char>, Seq<u8>>,
    id3: Option<Seq<u8>>,
) -> Result<(Map<Seq<char>, Seq<u8>>, Option<Seq<u8>>), DffError> {
    let id = data.subrange(pos, pos + 4);
    let size = be_u64_spec(data.subrange(pos + 4, pos + 12)) as int;
    let dpos = pos + 12;
    if id == id4(0x44, 0x49, 0x49, 0x4e) {
        if dpos + size > u64::MAX {
            Err(DffError::ArithmeticOverflow)
        } else {
            match sub_chunks(data, dpos, dpos + size, tags) {
                Some(t) => Ok((t, id3)),
                None => Err(DffError::ArithmeticOverflow),
            }
        }
    } else if id == id4(0x49, 0x44, 0x33, 0x20) {
        let n = (size as usize) as int;
        if n > isize::MAX {
            Err(DffError::CapacityOverflow)
        } else if dpos + n <= data.len() {
            Ok((tags, Some(data.subrange(dpos, dpos + n))))
        } else {
            Ok((tags, id3))
        }
    } else {
        Ok((tags, id3))
    }
}

/// The tags and ID3 chunk read from the chunks from position `pos` to `end`.
pub open spec fn chunks(
    data: Seq<u8>,
    pos: int,
    end: int,
    tags: Map<Seq<char>, Seq<u8>>,
    id3: Option<Seq<u8>>,
) -> Result<(Map<Seq<char>, Seq<u8>>, Option<Seq<u8>>), DffError>
    decreases SEEK_LIMIT - pos,
{
    if pos + 12 > end || pos + 12 > data.len() {
        Ok((tags, id3))
    } else {
        let size = be_u64_spec(data.subrange(pos + 4, pos + 12)) as int;
        let dpos = pos + 12;
        match chunk_body(data, pos, tags, id3) {
            Err(e) => Err(e),
            Ok((t2, i2)) => {
                let padded = size + size % 2;
                if padded > u64::MAX || dpos + padded > u64::MAX {
                    Err(DffError::ArithmeticOverflow)
                } else if dpos + padded > SEEK_LIMIT {
                    Ok((t2, i2))
                } else {
                    chunks(data, dpos + padded, end, t2, i2)
                }
            }
        }
    }
}

/// What reading the metadata of a DSDIFF file with content `data` gives.
pub open spec fn dff_metadata_spec(data: Seq<u8>) -> Result<DsdiffMetadataView, DffError> {
    if data.len() < 4 {
        Err(DffError::UnexpectedEof)
    } else if data.subrange(0, 4) != id4(0x46, 0x52, 0x4d, 0x38) {
        Err(DffError::MissingFrm8)
    } else if data.len() < 16 {
        Err(DffError::UnexpectedEof)
    } else if data.subrange(12, 16) != id4(0x44, 0x53, 0x44, 0x20) {
        Err(DffError::WrongFormType)
    } else {
        let size = be_u64_spec(data.subrange(4, 12)) as int;
        if 12 + size > u64::MAX {
            Err(DffError::ArithmeticOverflow)
        } else {
            match chunks(data, 16, 12 + size, Map::empty(), None) {
                Ok((t, i)) => Ok(DsdiffMetadataView { tags: t, id3_raw: i }),
                Err(e) => Err(e),
            }
        }
    }
}

/// Whether the four bytes at `at` in `data` are `a b c d`.
fn id_is(data: &[u8], at: usize, a: u8, b: u8, c: u8, d: u8) -> (r: bool)
    requires
        at + 4 <= data@.len(),
    ensures
        r == (data@.subrange(at as int, at + 4) == id4(a, b, c, d)),
{
    let r = data[at] == a && data[at + 1] == b && data[at + 2] == c && data[at + 3] == d;
    proof {
        let s = data@.subrange(at as int, at + 4);
        if r {
            assert(s =~= id4(a, b, c, d));
        } else {
            assert(s != id4(a, b, c, d)) by {
                if s == id4(a, b, c, d) {
                    assert(s[0] == a && s[1] == b && s[2] == c && s[3] == d);
                }
            }
        }
    }
    r
}

/// Replacing the pair of a name that occurs once is inserting the name anew.
proof fn lemma_tags_view_update(v: Seq<(String, Vec<u8>)>, i: int, x: (String, Vec<u8>))
    requires
        keys_distinct(v),
        0 <= i < v.len(),
        v[i].0@ == x.0@,
    ensures
        tags_view(v.update(i, x)) == tags_view(v).insert(x.0@, x.1@),
    decreases v.len(),
{
    let u = v.update(i, x);
    if i == v.len() - 1 {
        assert(u.drop_last() =~= v.drop_last());
        assert(tags_view(u) =~= tags_view(v).insert(x.0@, x.1@));
    } else {
        assert(u.drop_last() =~= v.drop_last().update(i, x));
        lemma_tags_view_update(v.drop_last(), i, x);
        assert(v.last().0@ != x.0@);
        assert(tags_view(u) =~= tags_view(v).insert(x.0@, x.1@));
    }
}

/// Sets the text of tag `key`, replacing the text it had (`HashMap::insert`).
fn insert_tag(tags: &mut Vec<(String, Vec<u8>)>, key: String, text: Vec<u8>)
    requires
        keys_distinct(old(tags)@),
    ensures
        keys_distinct(final(tags)@),
        tags_view(final(tags)@) == tags_view(old(tags)@).insert(key@, text@),
{
    let mut i: usize = 0;
    while i < tags.len()
        invariant
            tags@ == old(tags)@,
            keys_distinct(old(tags)@),
            i <= tags@.len(),
            forall|j: int| 0 <= j < i ==> tags@[j].0@ != key@,
        decreases tags@.len() - i,
    {
        if tags[i].0 == key {
            let ghost k = key@;
            let ghost t = text@;
            proof {
                lemma_tags_view_update(tags@, i as int, (key, text));
            }
            tags.set(i, (key, text));
            assert(tags_view(tags@) == tags_view(old(tags)@).insert(k, t));
            return;
        }
        i = i + 1;
    }
    tags.push((key, text));
    assert(tags@.drop_last() =~= old(tags)@);
}

/// The tags read from the DIIN sub-chunks between `start` and `end`; `false` where
/// the reader's arithmetic overflows.
fn read_sub_chunks(data: &[u8], start: u64, end: u64, tags: &mut Vec<(String, Vec<u8>)>) -> (ok: bool)
    requires
        keys_distinct(old(tags)@),
    ensures
        keys_distinct(final(tags)@),
        ok == sub_chunks(data@, start as int, end as int, tags_view(old(tags)@)) is Some,
        ok ==> sub_chunks(data@, start as int, end as int, tags_view(old(tags)@)) == Some(
            tags_view(final(tags)@),
        ),
{
    let ulen = data.len();
    let len = ulen as u64;
    let mut pos = start;
    loop
        invariant
            ulen == data@.len(),
            len == ulen,
            keys_distinct(tags@),
            sub_chunks(data@, pos as int, end as int, tags_view(tags@)) == sub_chunks(
                data@,
                start as int,
                end as int,
                tags_view(old(tags)@),
            ),
        decreases SEEK_LIMIT - pos,
    {
        if end < 12 || pos > end - 12 || len < 12 || pos > len - 12 {
            return true;
        }
        let p = pos as usize;
        let size = read_be_u64(&data[p + 4..p + 12]);
        let dpos = pos + 12;
        let ghost before = tags_view(tags@);
        match Track::normalize_dff_tag(&data[p..p + 4]) {
            Some(name) => {
                if size >= 4 && len >= 4 && dpos <= len - 4 {
                    let d = dpos as usize;
                    let count = read_be_u32(&data[d..d + 4]) as u64;
                    let n = if count < size - 4 {
                        count
                    } else {
                        size - 4
                    };
                    if n <= len - 4 - dpos {
                        let m = n as usize;
                        let text = vstd::slice::slice_to_vec(&data[d + 4..d + 4 + m]);
                        insert_tag(tags, name.to_owned(), text);
                    }
                }
                assert(tags_view(tags@) == with_sub_chunk_text(
                    data@,
                    dff_tag_name(data@.subrange(pos as int, pos + 4)).unwrap(),
                    dpos as int,
                    size as int,
                    before,
                ));
            },
            None => {},
        }
        if size == u64::MAX {
            return false;
        }
        let padded = size + size % 2;
        if padded > u64::MAX - dpos {
            return false;
        }
        let target = dpos + padded;
        if target > SEEK_LIMIT {
            return true;
        }
        pos = target;
    }
}

/// The metadata read from the chunks between position `16` and `end`.
fn read_chunks(data: &[u8], end: u64) -> (r: Result<DsdiffMetadata, DffError>)
    ensures
        match (r, chunks(data@, 16, end as int, Map::empty(), None)) {
            (Ok(m), Ok((t, i))) => m.wf() && m@.tags == t && m@.id3_raw == i,
            (Err(e), Err(f)) => e == f,
            _ => false,
        },
{
    let ulen = data.len();
    let len = ulen as u64;
    let mut pos: u64 = 16;
    let mut tags: Vec<(String, Vec<u8>)> = Vec::new();
    let mut id3_raw: Option<Vec<u8>> = None;
    assert(tags_view(tags@) =~= Map::empty());
    loop
        invariant
            ulen == data@.len(),
            len == ulen,
            keys_distinct(tags@),
            chunks(data@, pos as int, end as int, tags_view(tags@), bytes_view(id3_raw)) == chunks(
                data@,
                16,
                end as int,
                Map::empty(),
                None,
            ),
        decreases SEEK_LIMIT - pos,
    {
        if end < 12 || pos > end - 12 || len < 12 || pos > len - 12 {
            return Ok(DsdiffMetadata { tags, id3_raw });
        }
        let p = pos as usize;
        let size = read_be_u64(&data[p + 4..p + 12]);
        let dpos = pos + 12;
        if id_is(data, p, 0x44, 0x49, 0x49, 0x4e) {
            if size > u64::MAX - dpos {
                return Err(DffError::ArithmeticOverflow);
            }
            if !read_sub_chunks(data, dpos, dpos + size, &mut tags) {
                return Err(DffError::ArithmeticOverflow);
            }
        } else if id_is(data, p, 0x49, 0x44, 0x33, 0x20) {
            let n = size as usize;
            if n > isize::MAX as usize {
                return Err(DffError::CapacityOverflow);
            }
            if n <= ulen - (dpos as usize) {
                let d = dpos as usize;
                id3_raw = Some(vstd::slice::slice_to_vec(&data[d..d + n]));
            }
        }
        if size == u64::MAX {
            return Err(DffError::ArithmeticOverflow);
        }
        let padded = size + size % 2;
        if padded > u64::MAX - dpos {
            return Err(DffError::ArithmeticOverflow);
        }
        let target = dpos + padded;
        if target > SEEK_LIMIT {
            return Ok(DsdiffMetadata { tags, id3_raw });
        }
        pos = target;
    }
}

/// One of the six names of native DSDIFF tags.
pub open spec fn is_dff_tag_name(k: Seq<char>) -> bool {
    exists|id: Seq<u8>| #[trigger] dff_tag_name(id) == Some(k)
}

/// Every name of a tag map is a native tag name.
pub open spec fn names_known(tags: Map<Seq<char>, Seq<u8>>) -> bool {
    forall|k: Seq<char>| #[trigger] tags.dom().contains(k) ==> is_dff_tag_name(k)
}

/// The ID3 content is absent, or a run of bytes of `data`.
pub open spec fn is_run_of(data: Seq<u8>, o: Option<Seq<u8>>) -> bool {
    o is Some ==> contains_run(data, o->0)
}

/// `r` is a run of consecutive bytes of `data`.
pub open spec fn contains_run(data: Seq<u8>, r: Seq<u8>) -> bool {
    exists|i: int| 0 <= i && i + r.len() <= data.len() && #[trigger] data.subrange(i, i + r.len()) == r
}

proof fn lemma_sub_chunks_names(data: Seq<u8>, pos: int, end: int, tags: Map<Seq<char>, Seq<u8>>)
    requires
        names_known(tags),
    ensures
        sub_chunks(data, pos, end, tags) matches Some(t) ==> names_known(t),
    decreases SEEK_LIMIT - pos,
{
    if pos + 12 > end || pos + 12 > data.len() {
    } else {
        let size = be_u64_spec(data.subrange(pos + 4, pos + 12)) as int;
        let dpos = pos + 12;
        let id = data.subrange(pos, pos + 4);
        let tags2 = match dff_tag_name(id) {
            Some(key) => with_sub_chunk_text(data, key, dpos, size, tags),
            None => tags,
        };
        assert(names_known(tags2)) by {
            if let Some(key) = dff_tag_name(id) {
                assert(is_dff_tag_name(key));
            }
        }
        let padded = size + size % 2;
        if padded > u64::MAX || dpos + padded > u64::MAX {
        } else if dpos + padded > SEEK_LIMIT {
        } else {
            lemma_sub_chunks_names(data, dpos + padded, end, tags2);
        }
    }
}

proof fn lemma_chunks_laws(
    data: Seq<u8>,
    pos: int,
    end: int,
    tags: Map<Seq<char>, Seq<u8>>,
    id3: Option<Seq<u8>>,
)
    requires
        names_known(tags),
        is_run_of(data, id3),
        0 <= pos,
    ensures
        chunks(data, pos, end, tags, id3) matches Ok((t, i)) ==> names_known(t) && is_run_of(data, i),
    decreases SEEK_LIMIT - pos,
{
    if pos + 12 > end || pos + 12 > data.len() {
    } else {
        let id = data.subrange(pos, pos + 4);
        let size = be_u64_spec(data.subrange(pos + 4, pos + 12)) as int;
        let dpos = pos + 12;
        if id == id4(0x44, 0x49, 0x49, 0x4e) {
            lemma_sub_chunks_names(data, dpos, dpos + size, tags);
        }
        let n = (size as usize) as int;
        let run = data.subrange(dpos, dpos + n);
        if n <= isize::MAX && dpos + n <= data.len() {
            assert(run.len() == n);
            assert(data.subrange(dpos, dpos + run.len()) == run);
            assert(contains_run(data, run));
        }
        if let Ok((t2, i2)) = chunk_body(data, pos, tags, id3) {
            let padded = size + size % 2;
            if padded > u64::MAX || dpos + padded > u64::MAX {
            } else if dpos + padded > SEEK_LIMIT {
            } else {
                lemma_chunks_laws(data, dpos + padded, end, t2, i2);
            }
        }
    }
}

/// Every tag read from a DSDIFF file has one of the six native tag names
/// (artist, title, album, genre, copyright, comment), and the ID3 content read
/// from it is a run of the file's bytes.
pub proof fn law_dff_metadata_shape(data: Seq<u8>)
    ensures
        dff_metadata_spec(data) matches Ok(m) ==> names_known(m.tags) && is_run_of(data, m.id3_raw),
{
    if data.len() >= 16 {
        let size = be_u64_spec(data.subrange(4, 12)) as int;
        lemma_chunks_laws(data, 16, 12 + size, Map::empty(), None);
    }
}

/// The walk of a DIIN chunk goes on past every whole sub-chunk, whatever its id:
/// from a sub-chunk at `pos` that fits in the chunk, the tags read are those read
/// from the next sub-chunk on, starting from the tags so far with this sub-chunk's
/// text added where its id is a native tag name, and unchanged where it is not. So a
/// sub-chunk with an unknown id in front of the others leaves the tags read unchanged.
pub proof fn law_sub_chunk_walk_goes_on(data: Seq<u8>, pos: int, end: int, tags: Map<Seq<char>, Seq<u8>>)
    requires
        0 <= pos,
        pos + 12 <= end,
        pos + 12 <= data.len(),
        pos + 12 + be_u64_spec(data.subrange(pos + 4, pos + 12)) + be_u64_spec(
            data.subrange(pos + 4, pos + 12),
        ) % 2 <= SEEK_LIMIT,
    ensures
        ({
            let size = be_u64_spec(data.subrange(pos + 4, pos + 12)) as int;
            let next = pos + 12 + size + size % 2;
            &&& dff_tag_name(data.subrange(pos, pos + 4)) is None ==> sub_chunks(data, pos, end, tags)
                == sub_chunks(data, next, end, tags)
            &&& dff_tag_name(data.subrange(pos, pos + 4)) matches Some(key) ==> sub_chunks(
                data,
                pos,
                end,
                tags,
            ) == sub_chunks(data, next, end, with_sub_chunk_text(data, key, pos + 12, size, tags))
        }),
{
}

/// A native tag sub-chunk whose data at `dpos` holds a 32-bit count and whose text
/// the file holds sets its tag to the bytes right after the count: as many as the
/// count says, but never more than the sub-chunk's size less the four count bytes.
/// A sub-chunk too small for a count, or whose text runs past the end of the file,
/// leaves the tags as they were.
pub proof fn law_sub_chunk_text(
    data: Seq<u8>,
    key: Seq<char>,
    dpos: int,
    size: int,
    tags: Map<Seq<char>, Seq<u8>>,
)
    requires
        0 <= dpos,
    ensures
        ({
            let count = be_u32_spec(data.subrange(dpos, dpos + 4)) as int;
            let n = if count < size - 4 { count } else { size - 4 };
            &&& size >= 4 && dpos + 4 + n <= data.len() ==> with_sub_chunk_text(data, key, dpos, size, tags)
                == tags.insert(key, data.subrange(dpos + 4, dpos + 4 + n))
            &&& size >= 4 && dpos + 4 + n <= data.len() ==> n <= count && n <= size - 4
            &&& size < 4 || dpos + 4 > data.len() || dpos + 4 + n > data.len() ==> with_sub_chunk_text(
                data,
                key,
                dpos,
                size,
                tags,
            ) == tags
        }),
{
}

impl Track {
    /// Reads the native tags and the raw ID3 chunk of a DSDIFF file whose content is
    /// `data`, walking it as a seekable stream (see the module documentation).
    pub fn extract_dff_metadata(data: &[u8]) -> (r: Result<DsdiffMetadata, DffError>)
        ensures
            match (r, dff_metadata_spec(data@)) {
                (Ok(m), Ok(v)) => m.wf() && m@ == v,
                (Err(e), Err(f)) => e == f,
                _ => false,
            },
    {
        if data.len() < 4 {
            return Err(DffError::UnexpectedEof);
        }
        if !id_is(data, 0, 0x46, 0x52, 0x4d, 0x38) {
            return Err(DffError::MissingFrm8);
        }
        if data.len() < 16 {
            return Err(DffError::UnexpectedEof);
        }
        let size = read_be_u64(&data[4..12]);
        if !id_is(data, 12, 0x44, 0x53, 0x44, 0x20) {
            return Err(DffError::WrongFormType);
        }
        if size > u64::MAX - 12 {
            return Err(DffError::ArithmeticOverflow);
        }
        read_chunks(data, 12 + size)
    }

    /// The name of the native DSDIFF tag that a DIIN sub-chunk id stands for.
    pub fn normalize_dff_tag(id: &[u8]) -> (r: Option<&'static str>)
        ensures
            r matches Some(s) ==> dff_tag_name(id@) == Some(s@),
            r is None ==> dff_tag_name(id@) is None,
    {
        if id.len() != 4 {
            assert(dff_tag_name(id@) is None) by {
                assert(id4(0x44, 0x49, 0x41, 0x52).len() == 4);
            }
            return None;
        }
        if id_is(id, 0, 0x44, 0x49, 0x41, 0x52) {
            assert(id@.subrange(0, 4) =~= id@);
            proof { reveal_strlit("artist"); }
            Some("artist")
        } else if id_is(id, 0, 0x44, 0x49, 0x54, 0x49) {
            assert(id@.subrange(0, 4) =~= id@);
            proof { reveal_strlit("title"); }
            Some("title")
        } else if id_is(id, 0, 0x44, 0x49, 0x41, 0x4c) {
            assert(id@.subrange(0, 4) =~= id@);
            proof { reveal_strlit("album"); }
            Some("album")
        } else if id_is(id, 0, 0x44, 0x49, 0x47, 0x4e) {
            assert(id@.subrange(0, 4) =~= id@);
            proof { reveal_strlit("genre"); }
            Some("genre")
        } else if id_is(id, 0, 0x44, 0x49, 0x43, 0x52) {
            assert(id@.subrange(0, 4) =~= id@);
            proof { reveal_strlit("copyright"); }
            Some("copyright")
        } else if id_is(id, 0, 0x44, 0x49, 0x46, 0x43) {
            assert(id@.subrange(0, 4) =~= id@);
            proof { reveal_strlit("comment"); }
            Some("comment")
        } else {
            assert(id@.subrange(0, 4) =~= id@);
            None
        }
    }
}

} // verus!
