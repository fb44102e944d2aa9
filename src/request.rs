use crate::link::{valid_path_length, LinkPatch, MAX_SHORTENED_PATH_LENGTH};
use crate::pagination::PageRequest;
use crate::service::{char_set_named, CharSet};
use vstd::prelude::*;

verus! {

pub const DEFAULT_SHORTENED_PATH_LENGTH: usize = 6;

pub const DEFAULT_PAGE_INDEX: usize = 0;

pub const DEFAULT_PAGE_SIZE: usize = 10;

pub const MAX_TAG_COUNT: usize = 16;

/// A request to create a link; the instant is in microseconds since the Unix epoch.
#[derive(Debug)]
pub struct CreateLinkRequest {
    pub original_url: String,
    pub shortened_path: Option<String>,
    pub is_active: Option<bool>,
    pub expires_at: i64,
}

/// How a creation request without a path wants it generated.
#[derive(Debug)]
pub struct CreateLinkRequestParams {
    pub char_set: Option<String>,
    pub length: Option<usize>,
}

/// The answer to a creation request.
#[derive(Debug)]
pub struct CreateLinksResponse {
    pub shortened_path: String,
}

/// A request for a page of links, of all links or of those with every tag listed.
#[derive(Debug)]
pub struct FindLinksRequestParams {
    pub page_number: Option<usize>,
    pub page_size: Option<usize>,
    pub tags: Option<Vec<String>>,
}

/// A request to update a link; absent tags mean no tags.
#[derive(Debug)]
pub struct UpdateLinkRequest {
    pub original_url: Option<String>,
    pub is_active: Option<bool>,
    pub tags: Option<Vec<String>>,
    pub expires_at: Option<i64>,
}

/// The body of an answer that reports a refused request.
#[derive(Debug)]
pub struct ErrorBody {
    pub message: String,
}

impl ErrorBody {
    pub fn new(message: &str) -> (r: Self)
        ensures
            r.message@ == message@,
    {
        ErrorBody { message: message.to_owned() }
    }
}

/// Requests that are refused before the service is asked.
#[derive(Debug, PartialEq, Eq, Clone, Copy, Structural)]
pub enum RequestError {
    EmptyShortenedPath,
    ShortenedPathTooLong,
    TooManyTags,
    InvalidPage,
}

/// Where the path of a new link comes from.
#[derive(Debug)]
pub enum PathChoice {
    Given(String),
    Generated(CharSet, usize),
}

/// The character set that a creation request names: a set it names correctly, else
/// digits.
pub open spec fn requested_char_set(name: Option<String>) -> CharSet {
    match name {
        Some(n) => match char_set_named(n@) {
            Ok(c) => c,
            Err(_) => CharSet::Digits,
        },
        None => CharSet::Digits,
    }
}

impl CreateLinkRequest {
    /// Whether the new link is active: as requested, active by default.
    pub fn active(&self) -> (r: bool)
        ensures
            r == match self.is_active {
                Some(a) => a,
                None => true,
            },
    {
        match self.is_active {
            Some(a) => a,
            None => true,
        }
    }
}

/// The path of a new link: the requested one, of one to thirty characters; or, without
/// one, a generated one of the requested length (six by default, at most thirty) from
/// the requested character set (digits where none or no valid one is named).
pub fn choose_path(request: &CreateLinkRequest, params: &CreateLinkRequestParams) -> (r: Result<PathChoice, RequestError>)
    ensures
        match request.shortened_path {
            Some(p) => if p@.len() == 0 {
                r == Err::<PathChoice, RequestError>(RequestError::EmptyShortenedPath)
            } else if p@.len() > MAX_SHORTENED_PATH_LENGTH {
                r == Err::<PathChoice, RequestError>(RequestError::ShortenedPathTooLong)
            } else {
                r matches Ok(PathChoice::Given(q)) && q@ == p@ && valid_path_length(q@)
            },
            None => {
                let n = match params.length {
                    Some(n) => n,
                    None => DEFAULT_SHORTENED_PATH_LENGTH,
                };
                if n > MAX_SHORTENED_PATH_LENGTH {
                    r == Err::<PathChoice, RequestError>(RequestError::ShortenedPathTooLong)
                } else {
                    r matches Ok(PathChoice::Generated(c, m)) && m == n && m <= MAX_SHORTENED_PATH_LENGTH && c
                        == requested_char_set(params.char_set)
                }
            },
        },
{
    match &request.shortened_path {
        Some(path) => {
            let length = path.as_str().unicode_len();
            if length == 0 {
                Err(RequestError::EmptyShortenedPath)
            } else if length > MAX_SHORTENED_PATH_LENGTH {
                Err(RequestError::ShortenedPathTooLong)
            } else {
                Ok(PathChoice::Given(path.clone()))
            }
        },
        None => {
            let length = match params.length {
                Some(n) => n,
                None => DEFAULT_SHORTENED_PATH_LENGTH,
            };
            if length > MAX_SHORTENED_PATH_LENGTH {
                return Err(RequestError::ShortenedPathTooLong);
            }
            let char_set = match &params.char_set {
                Some(name) => match CharSet::from_name(name.as_str()) {
                    Ok(c) => c,
                    Err(_) => CharSet::Digits,
                },
                None => CharSet::Digits,
            };
            Ok(PathChoice::Generated(char_set, length))
        },
    }
}

impl FindLinksRequestParams {
    /// The requested page: page zero and ten links by default; pages must not be empty
    /// and their first link must have an index that fits in `usize`.
    pub fn page_request(&self) -> (r: Result<PageRequest, RequestError>)
        ensures
            ({
                let index = match self.page_number {
                    Some(i) => i,
                    None => DEFAULT_PAGE_INDEX,
                };
                let size = match self.page_size {
                    Some(s) => s,
                    None => DEFAULT_PAGE_SIZE,
                };
                if size > 0 && index * size <= usize::MAX {
                    r == Ok::<PageRequest, RequestError>(PageRequest { index, size }) && (PageRequest {
                        index,
                        size,
                    }).valid()
                } else {
                    r == Err::<PageRequest, RequestError>(RequestError::InvalidPage)
                }
            }),
    {
        let index = match self.page_number {
            Some(i) => i,
            None => DEFAULT_PAGE_INDEX,
        };
        let size = match self.page_size {
            Some(s) => s,
            None => DEFAULT_PAGE_SIZE,
        };
        if size == 0 || index > usize::MAX / size {
            proof {
                if size > 0 {
                    assert(index * size > usize::MAX) by (nonlinear_arith)
                        requires
                            size > 0,
                            index > usize::MAX / size,
                    {
                        assert(index >= usize::MAX / size + 1);
                        assert((usize::MAX / size + 1) * size > usize::MAX);
                    }
                }
            }
            return Err(RequestError::InvalidPage);
        }
        proof {
            assert(index * size <= usize::MAX) by (nonlinear_arith)
                requires
                    size > 0,
                    index <= usize::MAX / size,
            {
                assert(index * size <= (usize::MAX / size) * size);
            }
        }
        Ok(PageRequest { index, size })
    }

    /// Whether the request lists tags; without any, all links are listed.
    pub fn has_tags(&self) -> (r: bool)
        ensures
            r == (self.tags matches Some(t) && t@.len() > 0),
    {
        match &self.tags {
            Some(t) => t.len() > 0,
            None => false,
        }
    }
}

impl UpdateLinkRequest {
    /// The patch that the request asks for, with no tags where none are given; refused
    /// where it lists more than sixteen tags.
    pub fn into_patch(self) -> (r: Result<LinkPatch, RequestError>)
        ensures
            match self.tags {
                Some(t) if t@.len() > MAX_TAG_COUNT => r == Err::<LinkPatch, RequestError>(RequestError::TooManyTags),
                _ => r matches Ok(patch) && patch.original_url == self.original_url && patch.is_active
                    == self.is_active && patch.expires_at == self.expires_at && patch.tags@ == match self.tags {
                    Some(t) => t@,
                    None => Seq::empty(),
                },
            },
    {
        let tags = match self.tags {
            Some(t) => t,
            None => Vec::new(),
        };
        if tags.len() > MAX_TAG_COUNT {
            return Err(RequestError::TooManyTags);
        }
        Ok(LinkPatch { original_url: self.original_url, is_active: self.is_active, tags, expires_at: self.expires_at })
    }
}

} // verus!
