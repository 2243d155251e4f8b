//! The manifest accumulator: one `Painting` record per produced crop,
//! gathered in order into a `PaintingsList` with its header fields.

use vstd::prelude::*;
use crate::filename::{parse_filename, spec_parse_filename};

verus! {

/// One produced-artifact record of the manifest.
#[derive(Debug)]
pub struct Painting {
    pub id: String,
    pub filename: String,
    pub name: String,
    pub artist: String,
    pub width: u32,
    pub height: u32,
}

/// The mathematical content of a `Painting`.
#[verifier::ext_equal]
pub ghost struct PaintingView {
    pub id: Seq<char>,
    pub filename: Seq<char>,
    pub name: Seq<char>,
    pub artist: Seq<char>,
    pub width: u32,
    pub height: u32,
}

impl View for Painting {
    type V = PaintingView;

    open spec fn view(&self) -> PaintingView {
        PaintingView {
            id: self.id@,
            filename: self.filename@,
            name: self.name@,
            artist: self.artist@,
            width: self.width,
            height: self.height,
        }
    }
}

/// The record a `Painting` falls back to when its filename has no
/// name/artist delimiter: empty strings and zero dimensions.
pub open spec fn placeholder_painting() -> PaintingView {
    PaintingView {
        id: Seq::<char>::empty(),
        filename: Seq::<char>::empty(),
        name: Seq::<char>::empty(),
        artist: Seq::<char>::empty(),
        width: 0,
        height: 0,
    }
}

impl Default for Painting {
    /// The structurally-default record: empty strings, zero dimensions.
    fn default() -> (r: Self)
        ensures
            r@ == placeholder_painting(),
    {
        Painting {
            id: String::new(),
            filename: String::new(),
            name: String::new(),
            artist: String::new(),
            width: 0,
            height: 0,
        }
    }
}

impl Painting {
    /// Build the record for one produced crop. The display name and the
    /// artist come from parsing `original_filename`; the id and the output
    /// filename are the caller's. A filename without the name/artist
    /// delimiter yields the placeholder record instead.
    pub fn new(
        original_filename: String,
        width: u32,
        height: u32,
        painting_id: String,
        image_filename: String,
    ) -> (r: Self)
        ensures
            spec_parse_filename(original_filename@) matches Some(m) ==> r@ == (PaintingView {
                id: painting_id@,
                filename: image_filename@,
                name: m.display_name,
                artist: m.artist,
                width: width,
                height: height,
            }),
            spec_parse_filename(original_filename@) is None ==> r@ == placeholder_painting(),
    {
        match parse_filename(original_filename.as_str()) {
            Some(parsed) => Painting {
                id: painting_id,
                filename: image_filename,
                name: parsed.display_name,
                artist: parsed.artist,
                width,
                height,
            },
            None => Painting::default(),
        }
    }
}

/// The manifest: header fields plus the ordered record sequence.
#[derive(Debug)]
pub struct PaintingsList {
    pub schema: String,
    pub version: String,
    pub id: String,
    pub name: String,
    pub description: String,
    pub paintings: Vec<Painting>,
}

/// The mathematical content of a `PaintingsList`.
#[verifier::ext_equal]
pub ghost struct PaintingsListView {
    pub schema: Seq<char>,
    pub version: Seq<char>,
    pub id: Seq<char>,
    pub name: Seq<char>,
    pub description: Seq<char>,
    pub paintings: Seq<PaintingView>,
}

impl View for PaintingsList {
    type V = PaintingsListView;

    open spec fn view(&self) -> PaintingsListView {
        PaintingsListView {
            schema: self.schema@,
            version: self.version@,
            id: self.id@,
            name: self.name@,
            description: self.description@,
            paintings: self.paintings@.map_values(|p: Painting| p@),
        }
    }
}

impl Default for PaintingsList {
    /// The placeholder header values and an empty record sequence.
    fn default() -> (r: Self)
        ensures
            r@.schema == "https://example.com/painting-schema.json"@,
            r@.version == "1.0"@,
            r@.id == "default_id"@,
            r@.name == "Default Paintings List"@,
            r@.description == "A default list of paintings."@,
            r@.paintings == Seq::<PaintingView>::empty(),
    {
        let r = PaintingsList {
            schema: String::from_str("https://example.com/painting-schema.json"),
            version: String::from_str("1.0"),
            id: String::from_str("default_id"),
            name: String::from_str("Default Paintings List"),
            description: String::from_str("A default list of paintings."),
            paintings: Vec::new(),
        };
        proof {
            assert(r@.paintings =~= Seq::<PaintingView>::empty());
        }
        r
    }
}

impl PaintingsList {
    pub fn set_schema(&mut self, schema: String)
        ensures
            final(self)@ == (PaintingsListView { schema: schema@, ..old(self)@ }),
    {
        self.schema = schema;
    }

    pub fn set_version(&mut self, version: String)
        ensures
            final(self)@ == (PaintingsListView { version: version@, ..old(self)@ }),
    {
        self.version = version;
    }

    pub fn set_id(&mut self, id: String)
        ensures
            final(self)@ == (PaintingsListView { id: id@, ..old(self)@ }),
    {
        self.id = id;
    }

    pub fn set_name(&mut self, name: String)
        ensures
            final(self)@ == (PaintingsListView { name: name@, ..old(self)@ }),
    {
        self.name = name;
    }

    pub fn set_description(&mut self, description: String)
        ensures
            final(self)@ == (PaintingsListView { description: description@, ..old(self)@ }),
    {
        self.description = description;
    }

    /// Append one record at the end of the sequence; the header and the
    /// earlier records stay as they were. Records are kept exactly as
    /// given: two records may carry the same id and both are kept, so a
    /// caller that needs unique ids must choose them itself.
    pub fn add_painting(&mut self, painting: Painting)
        ensures
            final(self)@ == (PaintingsListView {
                paintings: old(self)@.paintings.push(painting@),
                ..old(self)@
            }),
    {
        let ghost before = self@;
        self.paintings.push(painting);
        proof {
            assert(self@.paintings =~= before.paintings.push(painting@));
        }
    }
}

} // verus!
