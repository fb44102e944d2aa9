use crate::generators;
use crate::id::Id;
use vstd::prelude::*;

verus! {

/// Failures of the link service and of its repositories.
#[derive(Debug, PartialEq, Eq, Clone, Copy, Structural)]
pub enum Error {
    InvalidShortenedPathLength,
    NonUniqueShortenedPath,
    InvalidCharSet,
    GeneratingQrCodeFailed,
    LinkNotFound,
    DataAccessError,
}

impl From<generators::Error> for Error {
    fn from(error: generators::Error) -> (r: Self) {
        match error {
            generators::Error::InvalidLength => Error::InvalidShortenedPathLength,
            generators::Error::InvalidCharSet => Error::InvalidCharSet,
            generators::Error::InvalidData => Error::GeneratingQrCodeFailed,
            generators::Error::RenderingFailed => Error::GeneratingQrCodeFailed,
        }
    }
}

impl vstd::std_specs::convert::FromSpecImpl<generators::Error> for Error {
    open spec fn obeys_from_spec() -> bool {
        true
    }

    open spec fn from_spec(error: generators::Error) -> Error {
        match error {
            generators::Error::InvalidLength => Error::InvalidShortenedPathLength,
            generators::Error::InvalidCharSet => Error::InvalidCharSet,
            generators::Error::InvalidData => Error::GeneratingQrCodeFailed,
            generators::Error::RenderingFailed => Error::GeneratingQrCodeFailed,
        }
    }
}

/// The longest path a link may have.
pub const MAX_SHORTENED_PATH_LENGTH: usize = 30;

/// A path of one to thirty characters.
pub open spec fn valid_path_length(path: Seq<char>) -> bool {
    1 <= path.len() <= MAX_SHORTENED_PATH_LENGTH
}

/// The error for a failure of the store: a broken uniqueness rule is a path conflict,
/// since the active-path rule is the one that writers can break; anything else is a
/// data access failure.
pub fn storage_error(unique_violation: bool) -> (r: Error)
    ensures
        r == if unique_violation {
            Error::NonUniqueShortenedPath
        } else {
            Error::DataAccessError
        },
{
    if unique_violation {
        Error::NonUniqueShortenedPath
    } else {
        Error::DataAccessError
    }
}

/// A short path that leads to `original_url`. Instants are microseconds since the
/// Unix epoch.
#[derive(Debug)]
pub struct Link {
    pub id: Id,
    pub original_url: String,
    pub shortened_path: String,
    pub is_active: bool,
    pub tags: Vec<String>,
    pub created_at: i64,
    pub expires_at: i64,
}

/// The value of a `Link`, with texts as character sequences.
pub struct LinkView {
    pub id: Seq<char>,
    pub original_url: Seq<char>,
    pub shortened_path: Seq<char>,
    pub is_active: bool,
    pub tags: Seq<Seq<char>>,
    pub created_at: i64,
    pub expires_at: i64,
}

pub open spec fn text_views(s: Seq<String>) -> Seq<Seq<char>> {
    s.map_values(|t: String| t@)
}

impl View for Link {
    type V = LinkView;

    open spec fn view(&self) -> LinkView {
        LinkView {
            id: self.id@,
            original_url: self.original_url@,
            shortened_path: self.shortened_path@,
            is_active: self.is_active,
            tags: text_views(self.tags@),
            created_at: self.created_at,
            expires_at: self.expires_at,
        }
    }
}

/// A copy of each text, in order.
pub fn clone_texts(texts: &Vec<String>) -> (r: Vec<String>)
    ensures
        text_views(r@) == text_views(texts@),
{
    let mut r: Vec<String> = Vec::new();
    let mut i: usize = 0;
    while i < texts.len()
        invariant
            i <= texts.len(),
            r@.len() == i,
            forall|k: int| 0 <= k < i ==> (#[trigger] r@[k])@ == texts@[k]@,
        decreases texts.len() - i,
    {
        let t = texts[i].clone();
        r.push(t);
        i = i + 1;
    }
    proof {
        assert(text_views(r@) =~= text_views(texts@));
    }
    r
}

impl Clone for Link {
    fn clone(&self) -> (r: Self)
        ensures
            r@ == self@,
    {
        Link {
            id: self.id.clone(),
            original_url: self.original_url.clone(),
            shortened_path: self.shortened_path.clone(),
            is_active: self.is_active,
            tags: clone_texts(&self.tags),
            created_at: self.created_at,
            expires_at: self.expires_at,
        }
    }
}

/// Relies on chrono's `Utc::now`: the current instant, in microseconds since the Unix
/// epoch.
#[verifier::external_body]
pub(crate) fn now_micros() -> (r: i64) {
    chrono::Utc::now().timestamp_micros()
}

impl Link {
    /// A link without tags, with a fresh identifier, created now.
    pub fn new(original_url: String, shortened_path: String, is_active: bool, expires_at: i64) -> (r: Self)
        ensures
            r@.original_url == original_url@,
            r@.shortened_path == shortened_path@,
            r@.is_active == is_active,
            r@.tags.len() == 0,
            r@.expires_at == expires_at,
            r@.id.len() == 32,
    {
        let id = Id::new();
        let created_at = now_micros();
        let r = Link {
            id,
            original_url,
            shortened_path,
            is_active,
            tags: Vec::new(),
            created_at,
            expires_at,
        };
        proof {
            assert(r@.tags =~= Seq::<Seq<char>>::empty());
        }
        r
    }
}

/// The changes that an update makes to a link: each present field is overwritten, and
/// the tags are always replaced.
#[derive(Debug)]
pub struct LinkPatch {
    pub original_url: Option<String>,
    pub is_active: Option<bool>,
    pub tags: Vec<String>,
    pub expires_at: Option<i64>,
}

} // verus!
