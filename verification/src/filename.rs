//! Filename-derived metadata: splits an image filename into a display
//! name and an artist, and synthesizes a compact identifier from the
//! artist's final word and the raw name token.

use vstd::prelude::*;
use crate::text::{
    ascii_lower, find, find_pat, find_last_char, last_index_of, last_space_token,
    lemma_last_index_of_from_some, lemma_rfind_from_some, lemma_find_from_some,
    replace_underscores, rfind, rfind_pat, to_ascii_lower, trailing_token, underscores_to_spaces,
};

verus! {

/// The token that separates the name half of a filename stem from the
/// artist half.
pub open spec fn name_artist_delimiter() -> Seq<char> {
    "_drawn_by_"@
}

/// The token that ends the artist segment, letting a filename carry extra
/// suffix metadata after the artist name.
pub open spec fn artist_suffix_delimiter() -> Seq<char> {
    "__"@
}

/// The final component of a path: everything after its last `/`.
pub open spec fn base_name_of(s: Seq<char>) -> Seq<char> {
    match last_index_of(s, '/') {
        Some(i) => s.skip(i + 1),
        None => s,
    }
}

/// A file name without its extension: everything before the last `.`,
/// except that a name whose only `.` leads it is kept whole.
pub open spec fn stem_of_name(name: Seq<char>) -> Seq<char> {
    match last_index_of(name, '.') {
        Some(d) => if d == 0 {
            name
        } else {
            name.take(d)
        },
        None => name,
    }
}

/// The stem of a filename: path prefix and extension removed.
pub open spec fn stem_of(s: Seq<char>) -> Seq<char> {
    stem_of_name(base_name_of(s))
}

/// Metadata derived from one source filename.
#[derive(Debug)]
pub struct ParsedName {
    /// The name half of the stem, underscores turned to spaces.
    pub display_name: String,
    /// The artist segment, underscores turned to spaces.
    pub artist: String,
    /// The artist's final word, lowercased, joined by an underscore to the
    /// raw (underscore-separated) name token.
    pub synthetic_id: String,
}

/// The mathematical content of a `ParsedName`.
pub ghost struct ParsedNameView {
    pub display_name: Seq<char>,
    pub artist: Seq<char>,
    pub synthetic_id: Seq<char>,
}

impl View for ParsedName {
    type V = ParsedNameView;

    open spec fn view(&self) -> ParsedNameView {
        ParsedNameView {
            display_name: self.display_name@,
            artist: self.artist@,
            synthetic_id: self.synthetic_id@,
        }
    }
}

/// What parsing a stem yields: `None` when the delimiter is absent;
/// otherwise the stem splits at the delimiter's last occurrence, the
/// artist segment ends at the first `__`, and the identifier joins the
/// artist's lowercased final word to the raw name token.
pub open spec fn spec_parse_stem(stem: Seq<char>) -> Option<ParsedNameView> {
    match rfind(stem, name_artist_delimiter()) {
        None => None,
        Some(i) => {
            let name_part = stem.take(i);
            let artist_part = stem.skip(i + name_artist_delimiter().len());
            let artist_seg = match find(artist_part, artist_suffix_delimiter()) {
                Some(j) => artist_part.take(j),
                None => artist_part,
            };
            let artist = underscores_to_spaces(artist_seg);
            Some(
                ParsedNameView {
                    display_name: underscores_to_spaces(name_part),
                    artist: artist,
                    synthetic_id: ascii_lower(last_space_token(artist)) + "_"@ + name_part,
                },
            )
        },
    }
}

/// What parsing a filename yields: its stem, parsed.
pub open spec fn spec_parse_filename(filename: Seq<char>) -> Option<ParsedNameView> {
    spec_parse_stem(stem_of(filename))
}

/// The stem of a filename: path prefix and extension removed.
pub fn file_stem<'a>(s: &'a str) -> (r: &'a str)
    ensures
        r@ == stem_of(s@),
{
    let n: usize = s.unicode_len();
    let name: &str = match find_last_char(s, '/') {
        Some(i) => {
            proof {
                lemma_last_index_of_from_some(s@, '/', s@.len() - 1, i as int);
            }
            let t = s.substring_char(i + 1, n);
            proof {
                assert(t@ =~= s@.skip(i + 1));
            }
            t
        },
        None => s,
    };
    match find_last_char(name, '.') {
        Some(d) => {
            proof {
                lemma_last_index_of_from_some(name@, '.', name@.len() - 1, d as int);
            }
            if d == 0 {
                name
            } else {
                let t = name.substring_char(0, d);
                proof {
                    assert(t@ =~= name@.take(d as int));
                }
                t
            }
        },
        None => name,
    }
}

/// Parse a source filename into its derived metadata.
///
/// Returns `Some` exactly when the stem contains the name/artist
/// delimiter; the result is then pinned down by `spec_parse_filename`.
/// A filename without the delimiter yields `None` and never an error.
pub fn parse_filename(filename: &str) -> (r: Option<ParsedName>)
    ensures
        r is Some <==> spec_parse_filename(filename@) is Some,
        r matches Some(p) ==> Some(p@) == spec_parse_filename(filename@),
{
    let stem = file_stem(filename);
    let n: usize = stem.unicode_len();
    match rfind_pat(stem, "_drawn_by_") {
        None => None,
        Some(i) => {
            proof {
                lemma_rfind_from_some(
                    stem@,
                    name_artist_delimiter(),
                    stem@.len() - name_artist_delimiter().len(),
                    i as int,
                );
            }
            let delim_len: usize = "_drawn_by_".unicode_len();
            let name_part = stem.substring_char(0, i);
            let artist_part = stem.substring_char(i + delim_len, n);
            proof {
                assert(name_part@ =~= stem@.take(i as int));
                assert(artist_part@ =~= stem@.skip(i + name_artist_delimiter().len()));
            }
            let artist_seg = match find_pat(artist_part, "__") {
                Some(j) => {
                    proof {
                        lemma_find_from_some(artist_part@, artist_suffix_delimiter(), 0, j as int);
                    }
                    let t = artist_part.substring_char(0, j);
                    proof {
                        assert(t@ =~= artist_part@.take(j as int));
                    }
                    t
                },
                None => artist_part,
            };
            let display_name = replace_underscores(name_part);
            let artist = replace_underscores(artist_seg);
            let token = trailing_token(artist.as_str());
            let lowered = to_ascii_lower(token);
            let synthetic_id = lowered.concat("_").concat(name_part);
            Some(ParsedName { display_name, artist, synthetic_id })
        },
    }
}

} // verus!
