//! What the file `metadata.json` of a database says of its model.
use vstd::prelude::*;

use crate::json;
use crate::json::{number_at, parse, text_at};
use crate::server::dimensions_or_default;
use crate::status::{model_metadata, DEFAULT_EMBEDDING_DIMENSIONS};
use crate::text::{owned, str_eq};
use crate::types;

verus! {

/// What the file says, member by member; the file is one JSON document.
#[derive(Debug)]
pub struct Metadata {
    pub model: Option<String>,
    pub dimensions: Option<u64>,
    pub language: Option<String>,
}

/// The members of a document.
pub open spec fn tells(m: Metadata, document: serde_json::Value) -> bool {
    &&& types::opt_text(m.model) == json::member_text(document, "model_short_name"@)
    &&& m.dimensions == json::member_number(document, "dimensions"@)
    &&& types::opt_text(m.language) == json::member_text(document, "primary_language"@)
}

/// What a file with this content says; nothing where it is no JSON.
pub fn parse_metadata(content: &str) -> (r: Option<Metadata>)
    ensures
        match json::json_document(content@) {
            Some(d) => r matches Some(m) && tells(m, d),
            None => r is None,
        },
{
    match parse(content) {
        Some(d) => Some(
            Metadata {
                model: text_at(&d, "model_short_name"),
                dimensions: number_at(&d, "dimensions"),
                language: text_at(&d, "primary_language"),
            },
        ),
        None => None,
    }
}

/// The model, the dimensions and the language of a database, where the model and
/// the dimensions are recorded.
pub fn recorded_model(m: Metadata) -> (r: Option<(String, usize, Option<String>)>)
    ensures
        match (m.model, m.dimensions) {
            (Some(name), Some(d)) => r matches Some(x) && x.0@ == name@ && x.1 == d as usize
                && types::opt_text(x.2) == types::opt_text(m.language),
            _ => r is None,
        },
{
    match (m.model, m.dimensions) {
        (Some(name), Some(d)) => {
            let dims: usize = d as usize;
            Some((name, dims, m.language))
        },
        _ => None,
    }
}

/// The model, the dimensions and the language of a database; `content` is that
/// of the file, where it can be read.
pub fn read_metadata(content: Option<&str>) -> (r: Option<(String, usize, Option<String>)>)
    ensures
        match content {
            Some(c) => match json::json_document(c@) {
                Some(d) => match (
                    json::member_text(d, "model_short_name"@),
                    json::member_number(d, "dimensions"@),
                ) {
                    (Some(name), Some(n)) => r matches Some(x) && x.0@ == name && x.1 == n as usize
                        && types::opt_text(x.2) == json::member_text(d, "primary_language"@),
                    _ => r is None,
                },
                None => r is None,
            },
            None => r is None,
        },
{
    match content {
        Some(c) => match parse_metadata(c) {
            Some(m) => recorded_model(m),
            None => None,
        },
        None => None,
    }
}

/// A model that the program knows.
#[derive(Debug)]
pub struct KnownModel {
    pub name: String,
    pub dimensions: usize,
}

/// The dimensions of a model that the program knows.
pub open spec fn known_dimensions(known: Seq<KnownModel>, name: Seq<char>) -> Option<usize>
    decreases known.len(),
{
    if known.len() == 0 {
        None
    } else if known[0].name@ == name {
        Some(known[0].dimensions)
    } else {
        known_dimensions(known.skip(1), name)
    }
}

/// The dimensions of a model that the program knows.
pub fn dimensions_of(known: &Vec<KnownModel>, name: &str) -> (r: Option<usize>)
    ensures
        r == known_dimensions(known@, name@),
{
    let mut i: usize = 0;
    proof {
        assert(known@.skip(0) =~= known@);
    }
    while i < known.len()
        invariant
            i <= known.len(),
            known_dimensions(known@, name@) == known_dimensions(known@.skip(i as int), name@),
        decreases known.len() - i,
    {
        proof {
            assert(known@.skip(i as int)[0] == known@[i as int]);
            assert(known@.skip(i as int).skip(1) =~= known@.skip(i + 1));
        }
        if str_eq(known[i].name.as_str(), name) {
            return Some(known[i].dimensions);
        }
        i += 1;
    }
    None
}

/// The name and the dimensions of the model that the metadata speak of, if they
/// can be read. Dimensions that are not recorded are those of the model, and
/// where the program does not know it, the default.
pub open spec fn model_of(
    name: Option<Seq<char>>,
    dimensions: Option<u64>,
    known: Seq<KnownModel>,
) -> (Seq<char>, usize) {
    let n = match name {
        Some(x) => x,
        None => "unknown"@,
    };
    (
        n,
        match dimensions {
            Some(d) => if d as usize > 0 {
                d as usize
            } else {
                match known_dimensions(known, n) {
                    Some(k) => k,
                    None => DEFAULT_EMBEDDING_DIMENSIONS,
                }
            },
            None => match known_dimensions(known, n) {
                Some(k) => k,
                None => DEFAULT_EMBEDDING_DIMENSIONS,
            },
        },
    )
}

/// The name and the dimensions of the model that the metadata speak of.
pub fn model_from(m: Option<Metadata>, known: &Vec<KnownModel>) -> (r: (String, usize))
    ensures
        match m {
            Some(x) => (r.0@, r.1) == model_of(types::opt_text(x.model), x.dimensions, known@),
            None => r.0@ == "unknown"@ && r.1 == DEFAULT_EMBEDDING_DIMENSIONS,
        },
{
    match m {
        Some(x) => {
            let inferred = match &x.model {
                Some(n) => dimensions_of(known, n.as_str()),
                None => dimensions_of(known, "unknown"),
            };
            let dims = match x.dimensions {
                Some(d) => {
                    let n: usize = d as usize;
                    Some(n)
                },
                None => None,
            };
            model_metadata(true, x.model, dims, inferred)
        },
        None => model_metadata(false, None, None, None),
    }
}

/// The name and the dimensions of the model of a database; `content` is that of
/// the file, where it can be read.
pub fn read_model_metadata(content: Option<&str>, known: &Vec<KnownModel>) -> (r: (String, usize))
    ensures
        match content {
            Some(c) => match json::json_document(c@) {
                Some(d) => (r.0@, r.1) == model_of(
                    json::member_text(d, "model_short_name"@),
                    json::member_number(d, "dimensions"@),
                    known@,
                ),
                None => r.0@ == "unknown"@ && r.1 == DEFAULT_EMBEDDING_DIMENSIONS,
            },
            None => r.0@ == "unknown"@ && r.1 == DEFAULT_EMBEDDING_DIMENSIONS,
        },
{
    match content {
        Some(c) => model_from(parse_metadata(c), known),
        None => model_from(None, known),
    }
}

/// The dimensions with which the server opens the stores.
pub fn server_dimensions(content: Option<&str>) -> (r: usize)
    ensures
        r == (match content {
            Some(c) => match json::json_document(c@) {
                Some(d) => match json::member_number(d, "dimensions"@) {
                    Some(n) => n as usize,
                    None => DEFAULT_EMBEDDING_DIMENSIONS,
                },
                None => DEFAULT_EMBEDDING_DIMENSIONS,
            },
            None => DEFAULT_EMBEDDING_DIMENSIONS,
        }),
{
    let recorded: Option<usize> = match content {
        Some(c) => match parse_metadata(c) {
            Some(m) => match m.dimensions {
                Some(d) => {
                    let n: usize = d as usize;
                    Some(n)
                },
                None => None,
            },
            None => None,
        },
        None => None,
    };
    dimensions_or_default(recorded)
}

/// The model of a refresh, where none is recorded.
pub open spec fn refresh_model_text() -> Seq<char> {
    "minilm-l6-q"@
}

/// The model and the dimensions of a refresh.
pub fn refresh_model(m: Metadata) -> (r: (String, usize))
    ensures
        r.0@ == (match m.model {
            Some(n) => n@,
            None => refresh_model_text(),
        }),
        r.1 == (match m.dimensions {
            Some(d) => d as usize,
            None => 384,
        }),
{
    let name = match m.model {
        Some(n) => n,
        None => owned("minilm-l6-q"),
    };
    let dims: usize = match m.dimensions {
        Some(d) => d as usize,
        None => 384,
    };
    (name, dims)
}

/// Why a refresh cannot begin.
#[derive(Debug)]
pub enum MetadataError {
    /// There is no file: this is what is said.
    Missing(String),
    /// The file is no JSON.
    NoJson,
}

/// The model and the dimensions of a refresh; `content` is that of the file,
/// where there is one.
pub fn metadata_for_refresh(content: Option<&str>) -> (r: Result<(String, usize), MetadataError>)
    ensures
        match content {
            None => r matches Err(MetadataError::Missing(m)) && m@
                == "No metadata.json found in database"@,
            Some(c) => match json::json_document(c@) {
                None => r matches Err(MetadataError::NoJson),
                Some(d) => r matches Ok(x) && x.0@ == (match json::member_text(
                    d,
                    "model_short_name"@,
                ) {
                    Some(n) => n,
                    None => refresh_model_text(),
                }) && x.1 == (match json::member_number(d, "dimensions"@) {
                    Some(n) => n as usize,
                    None => 384,
                }),
            },
        },
{
    match content {
        None => Err(MetadataError::Missing(owned("No metadata.json found in database"))),
        Some(c) => match parse_metadata(c) {
            None => Err(MetadataError::NoJson),
            Some(m) => Ok(refresh_model(m)),
        },
    }
}

/// The model and the dimensions of a server; `content` is that of the file,
/// where there is one. Without a file, the model is the default one.
pub fn service_model(content: Option<&str>) -> (r: Result<(Option<String>, usize), MetadataError>)
    ensures
        match content {
            None => r matches Ok(x) && x.0 is None && x.1 == DEFAULT_EMBEDDING_DIMENSIONS,
            Some(c) => match json::json_document(c@) {
                None => r matches Err(MetadataError::NoJson),
                Some(d) => r matches Ok(x) && types::opt_text(x.0) == Some(
                    match json::member_text(d, "model_short_name"@) {
                        Some(n) => n,
                        None => "minilm-l6"@,
                    },
                ) && x.1 == (match json::member_number(d, "dimensions"@) {
                    Some(n) => n as usize,
                    None => DEFAULT_EMBEDDING_DIMENSIONS,
                }),
            },
        },
{
    match content {
        None => Ok((None, DEFAULT_EMBEDDING_DIMENSIONS)),
        Some(c) => match parse_metadata(c) {
            None => Err(MetadataError::NoJson),
            Some(m) => {
                let name = match m.model {
                    Some(n) => n,
                    None => owned("minilm-l6"),
                };
                let dims: usize = match m.dimensions {
                    Some(d) => d as usize,
                    None => DEFAULT_EMBEDDING_DIMENSIONS,
                };
                Ok((Some(name), dims))
            },
        },
    }
}

/// What metadata tell stands in the members of the document with these names.
pub proof fn law_members_of_metadata(m: Metadata, document: serde_json::Value)
    requires
        tells(m, document),
    ensures
        m.model is Some <==> json::member_text(document, "model_short_name"@) is Some,
        m.model is Some ==> json::member_text(document, "model_short_name"@) == Some(m.model->0@),
        m.dimensions == json::member_number(document, "dimensions"@),
        m.language is Some <==> json::member_text(document, "primary_language"@) is Some,
        m.language is Some ==> json::member_text(document, "primary_language"@) == Some(
            m.language->0@,
        ),
{
}

/// The dimensions of a model are those of the first known one with its name.
pub proof fn law_known_model(known: Seq<KnownModel>, name: Seq<char>, i: int)
    requires
        0 <= i <= known.len(),
        forall|j: int| 0 <= j < i ==> (#[trigger] known[j]).name@ != name,
    ensures
        i < known.len() && known[i].name@ == name ==> known_dimensions(known, name) == Some(
            known[i].dimensions,
        ),
        i == known.len() ==> known_dimensions(known, name) is None,
    decreases i,
{
    if i > 0 {
        let rest = known.skip(1);
        assert forall|j: int| 0 <= j < i - 1 implies (#[trigger] rest[j]).name@ != name by {
            assert(rest[j] == known[j + 1]);
        }
        assert(known[0].name@ != name);
        law_known_model(rest, name, i - 1);
        if i < known.len() {
            assert(rest[i - 1] == known[i]);
        }
    }
}

/// A model without a name is unknown. Dimensions that are recorded and not zero
/// count, else those of the known model, else 384.
pub proof fn law_model_of_metadata(name: Seq<char>, d: u64, known: Seq<KnownModel>)
    ensures
        model_of(None, Some(d), known).0 == "unknown"@,
        model_of(Some(name), Some(d), known).0 == name,
        0 < d <= usize::MAX ==> model_of(Some(name), Some(d), known).1 == d,
        known_dimensions(known, name) is Some ==> model_of(Some(name), None, known).1
            == known_dimensions(known, name)->0 && model_of(Some(name), Some(0), known).1
            == known_dimensions(known, name)->0,
        known_dimensions(known, name) is None ==> model_of(Some(name), None, known).1 == 384
            && model_of(Some(name), Some(0), known).1 == 384,
        refresh_model_text() == "minilm-l6-q"@,
{
}

/// A model is recorded only where both its name and its dimensions are. A refresh
/// without them goes by the usual model and 384 dimensions, and without a record
/// at all fails.
pub proof fn law_recorded_model(
    m: Metadata,
    r: Option<(String, usize, Option<String>)>,
    f: (String, usize),
    content: Option<&str>,
    e: Result<(String, usize), MetadataError>,
)
    requires
        call_ensures(recorded_model, (m,), r),
        call_ensures(refresh_model, (m,), f),
        call_ensures(metadata_for_refresh, (content,), e),
    ensures
        r is Some <==> m.model is Some && m.dimensions is Some,
        m.model is Some ==> f.0@ == m.model->0@,
        m.model is None ==> f.0@ == "minilm-l6-q"@,
        m.dimensions is None ==> f.1 == 384,
        content is None ==> e is Err && e->Err_0 is Missing,
        content is Some && json::json_document(content->0@) is None ==> e is Err
            && e->Err_0 is NoJson,
        content is Some && json::json_document(content->0@) is Some ==> e is Ok,
{
}

/// A record that is missing or cannot be read leaves the model unknown, with 384
/// dimensions.
pub proof fn law_unknown_model(
    content: Option<&str>,
    known: &Vec<KnownModel>,
    r: (String, usize),
    d: usize,
    s: Result<(Option<String>, usize), MetadataError>,
)
    requires
        call_ensures(read_model_metadata, (content, known), r),
        call_ensures(server_dimensions, (content,), d),
        call_ensures(service_model, (content,), s),
        content is Some ==> json::json_document(content->0@) is None,
    ensures
        r.0@ == "unknown"@,
        r.1 == 384,
        d == 384,
        s is Ok <==> content is None,
        s is Ok ==> s->Ok_0.0 is None && s->Ok_0.1 == 384,
{
}

} // verus!
