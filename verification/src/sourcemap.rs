//! The source map: its fields, its invariants, and how a JSON document is
//! decoded into one.

use crate::json::{json_document, member, read_json, Json};
use vstd::prelude::*;
use vstd::string::*;

verus! {

/// A field that a source map document must hold.
#[derive(Debug, Clone, Copy, PartialEq, Eq)]
pub enum Field {
    Version,
    Sources,
    SourcesContent,
}

impl Field {
    /// The key under which the field stands in a document.
    pub open spec fn key(self) -> Seq<char> {
        match self {
            Field::Version => "version"@,
            Field::Sources => "sources"@,
            Field::SourcesContent => "sourcesContent"@,
        }
    }

    /// The key under which the field stands in a document.
    pub fn name(&self) -> (name: &'static str)
        ensures
            name@ == self.key(),
    {
        match self {
            Field::Version => "version",
            Field::Sources => "sources",
            Field::SourcesContent => "sourcesContent",
        }
    }
}

/// Why a text is no source map document at all.
#[derive(Debug, PartialEq, Eq)]
pub enum Malformed {
    /// The text is not JSON. Holds the parser's description.
    NotJson(String),
    /// The text is JSON, but its top level is not an object.
    NotAnObject,
    /// The field is there, but its value has the wrong shape: `version` is no
    /// integer from 0 to 255, or a list is no array of strings.
    WrongShape(Field),
}

/// Why a text was refused as a source map.
#[derive(Debug, PartialEq, Eq)]
pub enum ParseError {
    MalformedDocument(Malformed),
    /// A required field is absent. Of several, the first in the order
    /// `version`, `sources`, `sourcesContent` is named.
    MissingField(Field),
    /// `sources` is there and empty.
    EmptySourceMap,
    /// `sources` and `sourcesContent` differ in length.
    LengthMismatch,
}

/// How the description of every error of decoding starts.
pub open spec fn decoding_failed() -> Seq<char> {
    "failed to parse JSON body into sourcemap structure: "@
}

impl Malformed {
    /// What is wrong with the text.
    pub open spec fn description(self) -> Seq<char> {
        match self {
            Malformed::NotJson(detail) => detail@,
            Malformed::NotAnObject => "expected an object"@,
            Malformed::WrongShape(field) => "invalid type for field `"@ + field.key() + "`"@,
        }
    }
}

impl ParseError {
    /// The description of the error.
    pub open spec fn description(self) -> Seq<char> {
        match self {
            ParseError::MalformedDocument(cause) => decoding_failed() + cause.description(),
            ParseError::MissingField(field) => decoding_failed() + ("missing field `"@
                + field.key() + "`"@),
            ParseError::EmptySourceMap => "sourcemap contains no source files"@,
            ParseError::LengthMismatch => {
                "number of source files does not equal number of content entries"@
            },
        }
    }

    /// Describes the error for a reader.
    pub fn message(&self) -> (text: String)
        ensures
            text@ == self.description(),
    {
        match self {
            ParseError::MalformedDocument(cause) => {
                let mut text = "failed to parse JSON body into sourcemap structure: ".to_owned();
                match cause {
                    Malformed::NotJson(detail) => {
                        text.append(detail.as_str());
                    },
                    Malformed::NotAnObject => {
                        text.append("expected an object");
                    },
                    Malformed::WrongShape(field) => {
                        text.append("invalid type for field `");
                        text.append(field.name());
                        text.append("`");
                    },
                }
                assert(text@ =~= self.description());
                text
            },
            ParseError::MissingField(field) => {
                let mut text = "failed to parse JSON body into sourcemap structure: ".to_owned();
                text.append("missing field `");
                text.append(field.name());
                text.append("`");
                assert(text@ =~= self.description());
                text
            },
            ParseError::EmptySourceMap => "sourcemap contains no source files".to_owned(),
            ParseError::LengthMismatch => {
                "number of source files does not equal number of content entries".to_owned()
            },
        }
    }
}

/// A source map as a mathematical value.
pub struct SourceMapView {
    pub version: u8,
    pub sources: Seq<Seq<char>>,
    pub sources_content: Seq<Seq<char>>,
}

/// The character sequences that a list of strings holds.
pub open spec fn texts(strings: Seq<String>) -> Seq<Seq<char>> {
    Seq::new(strings.len(), |i: int| strings[i]@)
}

/// The version that a value stands for: an integer from 0 to 255.
pub open spec fn version_of(value: Json) -> Option<u8> {
    match value {
        Json::Number(Some(n)) => if n <= u8::MAX {
            Some(n as u8)
        } else {
            None
        },
        _ => None,
    }
}

/// Whether every value of the sequence is a string.
pub open spec fn all_text(items: Seq<Json>) -> bool {
    forall|i: int| 0 <= i < items.len() ==> (#[trigger] items[i]) is Text
}

/// The list of strings that a value stands for: an array whose items are all strings.
pub open spec fn text_list(value: Json) -> Option<Seq<Seq<char>>> {
    match value {
        Json::Array(items) => if all_text(items@) {
            Some(Seq::new(items@.len(), |i: int| items@[i]->Text_0@))
        } else {
            None
        },
        _ => None,
    }
}

/// Whether `value` has the shape that `field` asks for.
pub open spec fn shaped(field: Field, value: Json) -> bool {
    match field {
        Field::Version => version_of(value) is Some,
        Field::Sources => text_list(value) is Some,
        Field::SourcesContent => text_list(value) is Some,
    }
}

/// Whether the object holds `field` with a value of the wrong shape.
pub open spec fn misshaped(members: Seq<(String, Json)>, field: Field) -> bool {
    match member(members, field.key()) {
        Some(value) => !shaped(field, value),
        None => false,
    }
}

/// What decoding the members of a top-level object gives. Members that a
/// source map does not name are passed over. A field of the wrong shape is
/// reported before one that is absent, and of several fields the first in the
/// order `version`, `sources`, `sourcesContent`.
pub open spec fn decoded_members(members: Seq<(String, Json)>) -> Result<
    SourceMapView,
    ParseError,
> {
    let version = member(members, Field::Version.key());
    let sources = member(members, Field::Sources.key());
    let contents = member(members, Field::SourcesContent.key());
    if misshaped(members, Field::Version) {
        Err(ParseError::MalformedDocument(Malformed::WrongShape(Field::Version)))
    } else if misshaped(members, Field::Sources) {
        Err(ParseError::MalformedDocument(Malformed::WrongShape(Field::Sources)))
    } else if misshaped(members, Field::SourcesContent) {
        Err(ParseError::MalformedDocument(Malformed::WrongShape(Field::SourcesContent)))
    } else if version is None {
        Err(ParseError::MissingField(Field::Version))
    } else if sources is None {
        Err(ParseError::MissingField(Field::Sources))
    } else if contents is None {
        Err(ParseError::MissingField(Field::SourcesContent))
    } else {
        let map = SourceMapView {
            version: version_of(version->0)->0,
            sources: text_list(sources->0)->0,
            sources_content: text_list(contents->0)->0,
        };
        if map.sources.len() == 0 {
            Err(ParseError::EmptySourceMap)
        } else if map.sources.len() != map.sources_content.len() {
            Err(ParseError::LengthMismatch)
        } else {
            Ok(map)
        }
    }
}

/// What decoding a JSON document gives: the source map it describes, or the
/// reason why it describes none.
pub open spec fn decoded(document: Json) -> Result<SourceMapView, ParseError> {
    match document {
        Json::Object(members) => decoded_members(members@),
        _ => Err(ParseError::MalformedDocument(Malformed::NotAnObject)),
    }
}

/// What parsing a text gives.
pub open spec fn parsed(text: Seq<char>) -> Result<SourceMapView, ParseError> {
    match json_document(text) {
        Ok(document) => decoded(document),
        Err(description) => Err(ParseError::MalformedDocument(Malformed::NotJson(description))),
    }
}

/// Whether `outcome` is `expected`, a source map taken by its view.
pub open spec fn yields(
    outcome: Result<SourceMap, ParseError>,
    expected: Result<SourceMapView, ParseError>,
) -> bool {
    match outcome {
        Ok(map) => expected == Ok::<SourceMapView, ParseError>(map@),
        Err(error) => expected == Err::<SourceMapView, ParseError>(error),
    }
}

/// The files that a source map embeds: their identifiers and, at the
/// same positions, their contents.
#[derive(Debug)]
pub struct SourceMap {
    version: u8,
    sources: Vec<String>,
    sources_content: Vec<String>,
}

impl View for SourceMap {
    type V = SourceMapView;

    closed spec fn view(&self) -> SourceMapView {
        SourceMapView {
            version: self.version,
            sources: texts(self.sources@),
            sources_content: texts(self.sources_content@),
        }
    }
}

/// The error for a field whose value has the wrong shape.
fn wrong_shape(field: Field) -> (error: ParseError)
    ensures
        error == ParseError::MalformedDocument(Malformed::WrongShape(field)),
{
    ParseError::MalformedDocument(Malformed::WrongShape(field))
}

/// Reads the version out of a value.
fn read_version(value: &Json) -> (version: Option<u8>)
    ensures
        version == version_of(*value),
{
    match value {
        Json::Number(Some(n)) => if *n <= 255 {
            Some(*n as u8)
        } else {
            None
        },
        _ => None,
    }
}

/// Reads a list of strings out of a value.
fn read_text_list(value: &Json) -> (list: Option<Vec<String>>)
    ensures
        match list {
            Some(strings) => text_list(*value) == Some(texts(strings@)),
            None => text_list(*value) is None,
        },
{
    match value {
        Json::Array(items) => {
            let mut strings: Vec<String> = Vec::new();
            let mut i: usize = 0;
            while i < items.len()
                invariant
                    i <= items.len(),
                    strings@.len() == i,
                    *value == Json::Array(*items),
                    forall|j: int| 0 <= j < i ==> (#[trigger] items@[j]) is Text,
                    forall|j: int| 0 <= j < i ==> (#[trigger] strings@[j])@ == items@[j]->Text_0@,
                decreases items.len() - i,
            {
                match &items[i] {
                    Json::Text(s) => {
                        strings.push(s.clone());
                    },
                    _ => {
                        assert(!(items@[i as int] is Text));
                        return None;
                    },
                }
                i = i + 1;
            }
            assert(texts(strings@) =~= Seq::new(items@.len(), |i: int| items@[i]->Text_0@));
            Some(strings)
        },
        _ => None,
    }
}

impl SourceMap {
    #[verifier::type_invariant]
    spec fn paired(self) -> bool {
        self.sources@.len() > 0 && self.sources@.len() == self.sources_content@.len()
    }

    /// Parses the text of a source map document.
    pub fn new(json: String) -> (outcome: Result<SourceMap, ParseError>)
        ensures
            yields(outcome, parsed(json@)),
    {
        match read_json(json.as_str()) {
            Ok(document) => SourceMap::from_json(&document),
            Err(description) => Err(ParseError::MalformedDocument(Malformed::NotJson(description))),
        }
    }

    /// Decodes a JSON document into a source map.
    pub fn from_json(document: &Json) -> (outcome: Result<SourceMap, ParseError>)
        ensures
            yields(outcome, decoded(*document)),
    {
        let members = match document {
            Json::Object(members) => members,
            _ => {
                return Err(ParseError::MalformedDocument(Malformed::NotAnObject));
            },
        };
        let version = match document.get("version") {
            Some(value) => match read_version(value) {
                Some(version) => Some(version),
                None => {
                    return Err(wrong_shape(Field::Version));
                },
            },
            None => None,
        };
        let sources = match document.get("sources") {
            Some(value) => match read_text_list(value) {
                Some(list) => Some(list),
                None => {
                    return Err(wrong_shape(Field::Sources));
                },
            },
            None => None,
        };
        let sources_content = match document.get("sourcesContent") {
            Some(value) => match read_text_list(value) {
                Some(list) => Some(list),
                None => {
                    return Err(wrong_shape(Field::SourcesContent));
                },
            },
            None => None,
        };
        let version = match version {
            Some(version) => version,
            None => {
                return Err(ParseError::MissingField(Field::Version));
            },
        };
        let sources = match sources {
            Some(sources) => sources,
            None => {
                return Err(ParseError::MissingField(Field::Sources));
            },
        };
        let sources_content = match sources_content {
            Some(sources_content) => sources_content,
            None => {
                return Err(ParseError::MissingField(Field::SourcesContent));
            },
        };
        if sources.len() == 0 {
            return Err(ParseError::EmptySourceMap);
        }
        if sources.len() != sources_content.len() {
            return Err(ParseError::LengthMismatch);
        }
        Ok(SourceMap { version, sources, sources_content })
    }

    /// The identifiers of the embedded files, in the order of the document.
    pub fn sources(&self) -> (sources: &Vec<String>)
        ensures
            texts(sources@) == self@.sources,
            sources@.len() > 0,
    {
        proof {
            use_type_invariant(self);
        }
        &self.sources
    }

    /// The contents of the embedded files: the one at a position belongs to
    /// the identifier at that position.
    pub fn sources_content(&self) -> (contents: &Vec<String>)
        ensures
            texts(contents@) == self@.sources_content,
            contents@.len() == self@.sources.len(),
    {
        proof {
            use_type_invariant(self);
        }
        &self.sources_content
    }

    /// The version of the source map format that the document names.
    pub fn version(&self) -> (version: u8)
        ensures
            version == self@.version,
    {
        self.version
    }

    /// The warning that the version calls for: versions above 3 are accepted
    /// and flagged.
    pub fn version_warning(&self) -> (warning: Option<&'static str>)
        ensures
            warning is Some <==> self@.version > 3,
            warning is Some ==> warning->0@ == "detected untested version for sourcemap"@,
    {
        if self.version > 3 {
            Some("detected untested version for sourcemap")
        } else {
            None
        }
    }

    /// The entries of the source map, each identifier with its content, in
    /// the order of the document.
    pub fn into_pairs(self) -> (pairs: Vec<(String, String)>)
        ensures
            pairs@.len() == self@.sources.len(),
            forall|i: int|
                0 <= i < pairs@.len() ==> (#[trigger] pairs@[i]).0@ == self@.sources[i]
                    && pairs@[i].1@ == self@.sources_content[i],
    {
        proof {
            use_type_invariant(&self);
        }
        let mut pairs: Vec<(String, String)> = Vec::new();
        let mut i: usize = 0;
        while i < self.sources.len()
            invariant
                i <= self.sources@.len(),
                self.sources@.len() == self.sources_content@.len(),
                pairs@.len() == i,
                forall|j: int|
                    0 <= j < i ==> (#[trigger] pairs@[j]).0@ == self.sources@[j]@ && pairs@[j].1@
                        == self.sources_content@[j]@,
            decreases self.sources@.len() - i,
        {
            pairs.push((self.sources[i].clone(), self.sources_content[i].clone()));
            i = i + 1;
        }
        pairs
    }
}

/// A source map that was parsed holds at least one entry, and a content for
/// each identifier: a document whose lists differ in length is refused.
pub proof fn lemma_parsed_is_paired(text: Seq<char>)
    ensures
        match parsed(text) {
            Ok(map) => map.sources.len() > 0 && map.sources.len() == map.sources_content.len(),
            Err(_) => true,
        },
{
}

/// Two well-shaped lists of different lengths, the first not empty, are
/// refused as a length mismatch.
pub proof fn lemma_unequal_lists_are_a_mismatch(members: Seq<(String, Json)>)
    requires
        member(members, Field::Version.key()) is Some,
        member(members, Field::Sources.key()) is Some,
        member(members, Field::SourcesContent.key()) is Some,
        !misshaped(members, Field::Version),
        !misshaped(members, Field::Sources),
        !misshaped(members, Field::SourcesContent),
        text_list(member(members, Field::Sources.key())->0)->0.len() > 0,
        text_list(member(members, Field::Sources.key())->0)->0.len() != text_list(
            member(members, Field::SourcesContent.key())->0,
        )->0.len(),
    ensures
        decoded_members(members) == Err::<SourceMapView, ParseError>(ParseError::LengthMismatch),
{
}

/// A document without `sources`, whose other fields are well-shaped where
/// they are there, is refused for a missing field.
pub proof fn lemma_absent_sources_is_a_missing_field(members: Seq<(String, Json)>)
    requires
        member(members, Field::Sources.key()) is None,
        !misshaped(members, Field::Version),
        !misshaped(members, Field::SourcesContent),
    ensures
        decoded_members(members) is Err,
        decoded_members(members)->Err_0 is MissingField,
        member(members, Field::Version.key()) is Some ==> decoded_members(members) == Err::<
            SourceMapView,
            ParseError,
        >(ParseError::MissingField(Field::Sources)),
{
}

/// A document whose `sources` is an empty array, and whose other fields are
/// there and well-shaped, is refused as empty.
pub proof fn lemma_empty_sources_is_an_empty_map(members: Seq<(String, Json)>)
    requires
        member(members, Field::Version.key()) is Some,
        member(members, Field::SourcesContent.key()) is Some,
        !misshaped(members, Field::Version),
        !misshaped(members, Field::SourcesContent),
        member(members, Field::Sources.key()) matches Some(Json::Array(items)) && items@.len() == 0,
    ensures
        decoded_members(members) == Err::<SourceMapView, ParseError>(ParseError::EmptySourceMap),
{
}

} // verus!
