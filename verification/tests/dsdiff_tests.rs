use verbose::dsdiff::{DffError, DsdiffMetadata};
use verbose::track::Track;

fn chunk(id: &[u8; 4], body: &[u8]) -> Vec<u8> {
    let mut v = id.to_vec();
    v.extend_from_slice(&(body.len() as u64).to_be_bytes());
    v.extend_from_slice(body);
    if body.len() % 2 == 1 {
        v.push(0);
    }
    v
}

fn text_sub_chunk(id: &[u8; 4], text: &[u8]) -> Vec<u8> {
    let mut body = (text.len() as u32).to_be_bytes().to_vec();
    body.extend_from_slice(text);
    chunk(id, &body)
}

fn dff_file(chunks: &[Vec<u8>]) -> Vec<u8> {
    let mut rest = b"DSD ".to_vec();
    for c in chunks {
        rest.extend_from_slice(c);
    }
    let mut v = b"FRM8".to_vec();
    v.extend_from_slice(&(rest.len() as u64).to_be_bytes());
    v.extend_from_slice(&rest);
    v
}

fn tag<'a>(m: &'a DsdiffMetadata, key: &str) -> Option<&'a Vec<u8>> {
    m.tags.iter().find(|(k, _)| k == key).map(|(_, v)| v)
}

#[test]
fn normalize_known_and_unknown_ids() {
    assert_eq!(Track::normalize_dff_tag(b"DIAR"), Some("artist"));
    assert_eq!(Track::normalize_dff_tag(b"DITI"), Some("title"));
    assert_eq!(Track::normalize_dff_tag(b"DIAL"), Some("album"));
    assert_eq!(Track::normalize_dff_tag(b"DIGN"), Some("genre"));
    assert_eq!(Track::normalize_dff_tag(b"DICR"), Some("copyright"));
    assert_eq!(Track::normalize_dff_tag(b"DIFC"), Some("comment"));
    assert_eq!(Track::normalize_dff_tag(b"DIXX"), None);
    assert_eq!(Track::normalize_dff_tag(b"DIA"), None);
}

#[test]
fn header_errors() {
    assert_eq!(Track::extract_dff_metadata(b"FRM").unwrap_err(), DffError::UnexpectedEof);
    assert_eq!(Track::extract_dff_metadata(b"RIFF0000000000000000").unwrap_err(), DffError::MissingFrm8);
    assert_eq!(Track::extract_dff_metadata(b"FRM800000000").unwrap_err(), DffError::UnexpectedEof);
    let mut wrong = b"FRM8".to_vec();
    wrong.extend_from_slice(&4u64.to_be_bytes());
    wrong.extend_from_slice(b"WAVE");
    assert_eq!(Track::extract_dff_metadata(&wrong).unwrap_err(), DffError::WrongFormType);
}

#[test]
fn form_size_overflow() {
    let mut v = b"FRM8".to_vec();
    v.extend_from_slice(&u64::MAX.to_be_bytes());
    v.extend_from_slice(b"DSD ");
    assert_eq!(Track::extract_dff_metadata(&v).unwrap_err(), DffError::ArithmeticOverflow);
}

#[test]
fn empty_form_has_no_tags() {
    let m = Track::extract_dff_metadata(&dff_file(&[])).unwrap();
    assert!(m.tags.is_empty());
    assert!(m.id3_raw.is_none());
}

#[test]
fn native_tags_are_read() {
    let diin = chunk(
        b"DIIN",
        &[text_sub_chunk(b"DIAR", b"Artist"), text_sub_chunk(b"DITI", b"Title!"), text_sub_chunk(b"EMID", b"xyz")]
            .concat(),
    );
    let file = dff_file(&[chunk(b"PROP", b"abc"), diin]);
    let m = Track::extract_dff_metadata(&file).unwrap();
    assert_eq!(m.tags.len(), 2);
    assert_eq!(tag(&m, "artist").unwrap().as_slice(), b"Artist");
    assert_eq!(tag(&m, "title").unwrap().as_slice(), b"Title!");
    assert!(m.id3_raw.is_none());
}

#[test]
fn odd_sized_sub_chunks_are_padded() {
    let diin = chunk(b"DIIN", &[text_sub_chunk(b"DIAL", b"A"), text_sub_chunk(b"DIGN", b"Jazz")].concat());
    let m = Track::extract_dff_metadata(&dff_file(&[diin])).unwrap();
    assert_eq!(tag(&m, "album").unwrap().as_slice(), b"A");
    assert_eq!(tag(&m, "genre").unwrap().as_slice(), b"Jazz");
}

#[test]
fn repeated_tag_keeps_last_text_once() {
    let diin = chunk(b"DIIN", &[text_sub_chunk(b"DIAR", b"First"), text_sub_chunk(b"DIAR", b"Second")].concat());
    let m = Track::extract_dff_metadata(&dff_file(&[diin])).unwrap();
    assert_eq!(m.tags.len(), 1);
    assert_eq!(tag(&m, "artist").unwrap().as_slice(), b"Second");
}

#[test]
fn text_count_is_capped_by_sub_chunk_size() {
    // count says 100 bytes, the sub-chunk holds 4 + 3
    let mut body = 100u32.to_be_bytes().to_vec();
    body.extend_from_slice(b"abc");
    let diin = chunk(b"DIIN", &chunk(b"DIFC", &body));
    let m = Track::extract_dff_metadata(&dff_file(&[diin])).unwrap();
    assert_eq!(tag(&m, "comment").unwrap().as_slice(), b"abc");
}

#[test]
fn sub_chunk_smaller_than_count_field_is_skipped() {
    let diin = chunk(b"DIIN", &chunk(b"DICR", b"ab"));
    let m = Track::extract_dff_metadata(&dff_file(&[diin])).unwrap();
    assert!(m.tags.is_empty());
}

#[test]
fn id3_chunk_is_read_and_last_one_wins() {
    let file = dff_file(&[chunk(b"ID3 ", b"first"), chunk(b"ID3 ", b"second")]);
    let m = Track::extract_dff_metadata(&file).unwrap();
    assert_eq!(m.id3_raw.unwrap(), b"second".to_vec());
}

#[test]
fn truncated_id3_chunk_is_ignored() {
    let mut file = dff_file(&[chunk(b"ID3 ", b"whole")]);
    let mut bad = b"ID3 ".to_vec();
    bad.extend_from_slice(&1000u64.to_be_bytes());
    bad.extend_from_slice(b"short");
    file.extend_from_slice(&bad);
    let len = (file.len() - 12) as u64;
    file[4..12].copy_from_slice(&len.to_be_bytes());
    let m = Track::extract_dff_metadata(&file).unwrap();
    assert_eq!(m.id3_raw.unwrap(), b"whole".to_vec());
}

#[test]
fn chunks_past_the_form_end_are_ignored() {
    let mut file = dff_file(&[]);
    file.extend_from_slice(&chunk(b"ID3 ", b"outside"));
    let m = Track::extract_dff_metadata(&file).unwrap();
    assert!(m.id3_raw.is_none());
}

#[test]
fn huge_id3_chunk_overflows_capacity() {
    let mut c = b"ID3 ".to_vec();
    c.extend_from_slice(&(u64::MAX - 1).to_be_bytes());
    let mut file = b"FRM8".to_vec();
    file.extend_from_slice(&1000u64.to_be_bytes());
    file.extend_from_slice(b"DSD ");
    file.extend_from_slice(&c);
    assert_eq!(Track::extract_dff_metadata(&file).unwrap_err(), DffError::CapacityOverflow);
}

#[test]
fn sub_chunk_size_overflows() {
    let mut sub = b"DIAR".to_vec();
    sub.extend_from_slice(&u64::MAX.to_be_bytes());
    let mut diin = b"DIIN".to_vec();
    diin.extend_from_slice(&(sub.len() as u64).to_be_bytes());
    diin.extend_from_slice(&sub);
    let file = dff_file(&[diin]);
    assert_eq!(Track::extract_dff_metadata(&file).unwrap_err(), DffError::ArithmeticOverflow);
}

#[test]
fn chunk_size_overflows() {
    let mut c = b"PROP".to_vec();
    c.extend_from_slice(&u64::MAX.to_be_bytes());
    let mut file = b"FRM8".to_vec();
    file.extend_from_slice(&1000u64.to_be_bytes());
    file.extend_from_slice(b"DSD ");
    file.extend_from_slice(&c);
    assert_eq!(Track::extract_dff_metadata(&file).unwrap_err(), DffError::ArithmeticOverflow);
}

#[test]
fn seek_past_limit_ends_reading() {
    // a chunk whose padded end lies past i64::MAX stops the walk
    let mut c = b"PROP".to_vec();
    c.extend_from_slice(&(i64::MAX as u64).to_be_bytes());
    let mut file = b"FRM8".to_vec();
    file.extend_from_slice(&u64::MAX.wrapping_sub(100).to_be_bytes());
    file.extend_from_slice(b"DSD ");
    file.extend_from_slice(&c);
    let m = Track::extract_dff_metadata(&file).unwrap();
    assert!(m.tags.is_empty());
}

#[test]
fn law_tag_names_are_native_names() {
    let diin = chunk(
        b"DIIN",
        &[
            text_sub_chunk(b"DIAR", b"a"),
            text_sub_chunk(b"DICR", b"c"),
            text_sub_chunk(b"ABCD", b"x"),
            text_sub_chunk(b"DIFC", b"d"),
        ]
        .concat(),
    );
    let file = dff_file(&[diin, chunk(b"ID3 ", b"tagbytes")]);
    let m = Track::extract_dff_metadata(&file).unwrap();
    let names = ["artist", "title", "album", "genre", "copyright", "comment"];
    for (k, _) in &m.tags {
        assert!(names.contains(&k.as_str()));
    }
    let raw = m.id3_raw.unwrap();
    assert!(file.windows(raw.len()).any(|w| w == raw.as_slice()));
}

#[test]
fn default_metadata_is_empty() {
    let m = DsdiffMetadata::default();
    assert!(m.tags.is_empty());
    assert!(m.id3_raw.is_none());
}

#[test]
fn tag_texts_are_trimmed() {
    let diin = chunk(b"DIIN", &[text_sub_chunk(b"DIAR", b"  Artist \n"), text_sub_chunk(b"DITI", b"\tT i t l e")].concat());
    let m = Track::extract_dff_metadata(&dff_file(&[diin])).unwrap();
    let decoded: Vec<String> = m.tags.iter().map(|(_, t)| String::from_utf8(t.clone()).unwrap()).collect();
    let texts = m.text_tags(&decoded);
    assert_eq!(texts.len(), 2);
    for ((k, v), (name, raw)) in texts.iter().zip(m.tags.iter()) {
        assert_eq!(k, name);
        assert_eq!(v.as_str(), String::from_utf8(raw.clone()).unwrap().trim());
    }
    assert!(texts.contains(&("artist".to_string(), "Artist".to_string())));
    assert!(texts.contains(&("title".to_string(), "T i t l e".to_string())));
}
