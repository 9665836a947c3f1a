//! The library side of a DSD music player: the index of the music folders with the
//! change dates they had, the tracks read from DSD files (their ID3 tags, and the
//! native tags of DSDIFF files), and the Unix path rules they rest on.
pub mod dsdiff;
pub mod id3_tag;
pub mod indexed_fs;
pub mod library_parser;
pub mod path;
pub mod text;
pub mod track;
