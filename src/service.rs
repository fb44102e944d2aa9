use crate::generators::generate_random_string;
use crate::id::Id;
use crate::link::{text_views, valid_path_length, Error, Link, LinkPatch, LinkView, MAX_SHORTENED_PATH_LENGTH};
use crate::pagination::{page_count, page_window, PageRequest, PageResponse};
use crate::repository::{
    active_path_taken, has_id, link_views, position_of_id, save_conflict, stored_row, tagged, text_equal, update_conflict,
    updated_row, lemma_with_names, LinkRepository,
};
use vstd::prelude::*;

verus! {

/// The character sets that generated paths draw from.
#[derive(Debug, Clone, Copy, PartialEq, Eq, Structural)]
pub enum CharSet {
    Letters,
    Digits,
    LettersAndDigits,
}

pub open spec fn upper_letters() -> Seq<char> {
    Seq::new(26, |i: int| ((65 + i) as u8) as char)
}

pub open spec fn decimal_digits() -> Seq<char> {
    Seq::new(10, |i: int| ((48 + i) as u8) as char)
}

impl CharSet {
    pub open spec fn spec_elements(self) -> Seq<char> {
        match self {
            CharSet::Letters => upper_letters(),
            CharSet::Digits => decimal_digits(),
            CharSet::LettersAndDigits => upper_letters() + decimal_digits(),
        }
    }

    /// The characters of the set: `A` to `Z`, `0` to `9`, or both, in that order.
    pub fn elements(&self) -> (r: Vec<char>)
        ensures
            r@ == self.spec_elements(),
    {
        let mut r: Vec<char> = Vec::new();
        if *self != CharSet::Digits {
            let mut c: u8 = 65;
            while c < 91
                invariant
                    65 <= c <= 91,
                    r@ =~= upper_letters().subrange(0, c - 65),
                decreases 91 - c,
            {
                r.push(c as char);
                c = c + 1;
            }
        }
        let ghost prefix = r@;
        if *self != CharSet::Letters {
            let mut c: u8 = 48;
            while c < 58
                invariant
                    48 <= c <= 58,
                    r@ =~= prefix + decimal_digits().subrange(0, c - 48),
                decreases 58 - c,
            {
                r.push(c as char);
                c = c + 1;
            }
        }
        proof {
            assert(upper_letters().subrange(0, 26) =~= upper_letters());
            assert(decimal_digits().subrange(0, 10) =~= decimal_digits());
        }
        r
    }
}

/// The set that `name` names, if it names one.
pub open spec fn char_set_named(name: Seq<char>) -> Result<CharSet, Error> {
    if name == "Letters"@ {
        Ok(CharSet::Letters)
    } else if name == "Digits"@ {
        Ok(CharSet::Digits)
    } else if name == "LettersAndDigits"@ {
        Ok(CharSet::LettersAndDigits)
    } else {
        Err(Error::InvalidCharSet)
    }
}

impl CharSet {
    /// The set named `name`: `Letters`, `Digits` or `LettersAndDigits`.
    pub fn from_name(name: &str) -> (r: Result<CharSet, Error>)
        ensures
            r == char_set_named(name@),
    {
        if text_equal(name, "Letters") {
            Ok(CharSet::Letters)
        } else if text_equal(name, "Digits") {
            Ok(CharSet::Digits)
        } else if text_equal(name, "LettersAndDigits") {
            Ok(CharSet::LettersAndDigits)
        } else {
            Err(Error::InvalidCharSet)
        }
    }
}

impl TryFrom<String> for CharSet {
    type Error = Error;

    fn try_from(value: String) -> (r: Result<CharSet, Error>) {
        CharSet::from_name(value.as_str())
    }
}

impl vstd::std_specs::convert::TryFromSpecImpl<String> for CharSet {
    open spec fn obeys_try_from_spec() -> bool {
        true
    }

    open spec fn try_from_spec(value: String) -> Result<CharSet, Error> {
        char_set_named(value@)
    }
}

/// What `str::to_lowercase` returns for a text.
pub uninterp spec fn lower_of(s: Seq<char>) -> Seq<char>;

/// Relies on std's `str::to_lowercase`: the lowercase mapping of the text, which depends
/// on its characters alone.
#[verifier::external_body]
fn lowercase(s: &str) -> (r: String)
    ensures
        r@ == lower_of(s@),
{
    s.to_lowercase()
}

/// Each text in lowercase, in order.
pub fn lowercase_all(texts: &Vec<String>) -> (r: Vec<String>)
    ensures
        text_views(r@) == text_views(texts@).map_values(|t: Seq<char>| lower_of(t)),
{
    let mut r: Vec<String> = Vec::new();
    let mut i: usize = 0;
    while i < texts.len()
        invariant
            i <= texts.len(),
            r@.len() == i,
            forall|k: int| 0 <= k < i ==> (#[trigger] r@[k])@ == lower_of(texts@[k]@),
        decreases texts.len() - i,
    {
        let t = lowercase(texts[i].as_str());
        r.push(t);
        i = i + 1;
    }
    proof {
        assert(text_views(r@) =~= text_views(texts@).map_values(|t: Seq<char>| lower_of(t)));
    }
    r
}

/// The link `row` after `patch`: each present field overwritten, and the tags replaced
/// by the patch's tags in lowercase.
pub open spec fn patched(row: LinkView, patch: &LinkPatch) -> LinkView {
    LinkView {
        id: row.id,
        original_url: match patch.original_url {
            Some(u) => u@,
            None => row.original_url,
        },
        shortened_path: row.shortened_path,
        is_active: match patch.is_active {
            Some(a) => a,
            None => row.is_active,
        },
        tags: text_views(patch.tags@).map_values(|t: Seq<char>| lower_of(t)),
        created_at: row.created_at,
        expires_at: match patch.expires_at {
            Some(e) => e,
            None => row.expires_at,
        },
    }
}

impl LinkPatch {
    /// `link` with each present field of the patch overwritten and its tags replaced by
    /// the patch's tags in lowercase.
    pub fn apply(&self, link: Link) -> (r: Link)
        ensures
            r@ == patched(link@, self),
    {
        let mut link = link;
        match &self.original_url {
            Some(original_url) => {
                link.original_url = original_url.clone();
            },
            None => {},
        }
        match self.is_active {
            Some(is_active) => {
                link.is_active = is_active;
            },
            None => {},
        }
        match self.expires_at {
            Some(expires_at) => {
                link.expires_at = expires_at;
            },
            None => {},
        }
        link.tags = lowercase_all(&self.tags);
        link
    }
}

/// A path of `length` characters drawn at random from `char_set`.
pub fn generate_shortened_path(char_set: CharSet, length: usize) -> (r: Result<String, Error>)
    ensures
        length == 0 ==> r == Err::<String, Error>(Error::InvalidShortenedPathLength),
        length > 0 ==> (r matches Ok(s) && s@.len() == length && forall|i: int|
            0 <= i < s@.len() ==> char_set.spec_elements().contains(#[trigger] s@[i])),
{
    let elements = char_set.elements();
    match generate_random_string(elements.as_slice(), length) {
        Ok(s) => Ok(s),
        Err(e) => Err(Error::from(e)),
    }
}

/// Creates a link without tags, with a fresh identifier, created now, and stores it.
/// Fails, storing nothing, where the link is active and an active link has its path, or
/// where the fresh identifier is already taken, or where the store fails.
pub fn create_link<R: LinkRepository>(
    original_url: String,
    shortened_path: String,
    is_active: bool,
    expires_at: i64,
    repository: &mut R,
) -> (r: Result<Link, Error>)
    requires
        old(repository).store().wf(),
        valid_path_length(shortened_path@),
    ensures
        final(repository).reliable() == old(repository).reliable(),
        final(repository).store().wf(),
        r matches Ok(l) ==> l@.original_url == original_url@ && l@.shortened_path == shortened_path@
            && l@.is_active == is_active && l@.tags.len() == 0 && l@.expires_at == expires_at
            && final(repository).store() == old(repository).store().after_save(l@),
        r is Err ==> final(repository).store() == old(repository).store() && (r == Err::<Link, Error>(
            Error::NonUniqueShortenedPath,
        ) || (r == Err::<Link, Error>(Error::DataAccessError) && !old(repository).reliable())),
        r == Err::<Link, Error>(Error::NonUniqueShortenedPath) ==> (is_active && active_path_taken(
            old(repository).store().links,
            shortened_path@,
        )) || exists|id: Seq<char>| id.len() == 32 && has_id(old(repository).store().links, id),
        is_active && active_path_taken(old(repository).store().links, shortened_path@) ==> r is Err,
        old(repository).reliable() && !(is_active && active_path_taken(old(repository).store().links, shortened_path@))
            && !(exists|id: Seq<char>| id.len() == 32 && has_id(old(repository).store().links, id)) ==> r is Ok,
{
    let link = Link::new(original_url, shortened_path, is_active, expires_at);
    let ghost view = link@;
    let r = repository.save(link);
    proof {
        if r == Err::<Link, Error>(Error::NonUniqueShortenedPath) || (old(repository).reliable()
            && !(is_active && active_path_taken(old(repository).store().links, view.shortened_path))
            && save_conflict(old(repository).store().links, view)) {
            if !(is_active && active_path_taken(old(repository).store().links, view.shortened_path)) {
                assert(has_id(old(repository).store().links, view.id));
            }
        }
        match &r {
            Ok(l) => {
                assert(stored_row(l@) == stored_row(view));
            },
            Err(_) => {},
        }
    }
    r
}

/// Creates a link with a path of `shortened_path_length` characters drawn at random from
/// `char_set`, as `create_link` does.
pub fn create_link_with_generated_path<R: LinkRepository>(
    original_url: String,
    char_set: CharSet,
    shortened_path_length: usize,
    is_active: bool,
    expires_at: i64,
    repository: &mut R,
) -> (r: Result<Link, Error>)
    requires
        old(repository).store().wf(),
        shortened_path_length <= MAX_SHORTENED_PATH_LENGTH,
    ensures
        final(repository).reliable() == old(repository).reliable(),
        final(repository).store().wf(),
        shortened_path_length == 0 ==> r == Err::<Link, Error>(Error::InvalidShortenedPathLength)
            && final(repository).store() == old(repository).store(),
        r matches Ok(l) ==> l@.original_url == original_url@ && l@.shortened_path.len() == shortened_path_length
            && (forall|i: int| 0 <= i < l@.shortened_path.len() ==> char_set.spec_elements().contains(#[trigger] l@.shortened_path[i]))
            && l@.is_active == is_active && l@.tags.len() == 0 && l@.expires_at == expires_at
            && final(repository).store() == old(repository).store().after_save(l@),
        shortened_path_length > 0 && r is Err ==> final(repository).store() == old(repository).store() && (r
            == Err::<Link, Error>(Error::NonUniqueShortenedPath) || (r == Err::<Link, Error>(Error::DataAccessError)
            && !old(repository).reliable())),
        shortened_path_length > 0 && r == Err::<Link, Error>(Error::NonUniqueShortenedPath) ==> (is_active
            && active_path_of_length(old(repository).store().links, shortened_path_length as nat)) || exists|id: Seq<char>|
            id.len() == 32 && has_id(old(repository).store().links, id),
        old(repository).reliable() && shortened_path_length > 0 && !(is_active && active_path_of_length(
            old(repository).store().links,
            shortened_path_length as nat,
        )) && !(exists|id: Seq<char>| id.len() == 32 && has_id(old(repository).store().links, id)) ==> r is Ok,
{
    let shortened_path = match generate_shortened_path(char_set, shortened_path_length) {
        Ok(s) => s,
        Err(e) => {
            return Err(e);
        },
    };
    let ghost path = shortened_path@;
    let r = create_link(original_url, shortened_path, is_active, expires_at, repository);
    proof {
        if is_active && active_path_taken(old(repository).store().links, path) {
            let links = old(repository).store().links;
            let i = choose|i: int| 0 <= i < links.len() && (#[trigger] links[i]).is_active && links[i].shortened_path == path;
            assert(links[i].shortened_path.len() == shortened_path_length);
        }
    }
    r
}

/// Some active link has a path of `length` characters.
pub open spec fn active_path_of_length(links: Seq<LinkView>, length: nat) -> bool {
    exists|i: int| 0 <= i < links.len() && (#[trigger] links[i]).is_active && links[i].shortened_path.len() == length
}

/// The active link with path `shortened_path`; inactive links are never returned.
pub fn find_link_by_shortened_path<R: LinkRepository>(shortened_path: &str, repository: &R) -> (r: Result<Option<Link>, Error>)
    requires
        repository.store().wf(),
    ensures
        repository.reliable() ==> r is Ok,
        r is Err ==> r == Err::<Option<Link>, Error>(Error::DataAccessError) && !repository.reliable(),
        r matches Ok(found) ==> match found {
            Some(l) => l@.is_active && l@.shortened_path == shortened_path@ && repository.store().links.contains(l@),
            None => !active_path_taken(repository.store().links, shortened_path@),
        },
{
    repository.find_by_shortened_path(shortened_path)
}

/// A page of all links, newest first.
pub fn find_links<R: LinkRepository>(page_request: &PageRequest, repository: &R) -> (r: Result<PageResponse<Link>, Error>)
    requires
        repository.store().wf(),
        page_request.valid(),
    ensures
        repository.reliable() ==> r is Ok,
        r is Err ==> r == Err::<PageResponse<Link>, Error>(Error::DataAccessError) && !repository.reliable(),
        r matches Ok(page) ==> page.total_pages == page_count(repository.store().links.len(), page_request.size as nat)
            && link_views(page.content@) == page_window(repository.store().links, page_request.index as nat, page_request.size as nat),
{
    repository.find_all(page_request)
}

/// A page of the links that carry every one of `tags`, newest first.
pub fn find_links_by_tags<R: LinkRepository>(tags: &Vec<String>, page_request: &PageRequest, repository: &R) -> (r: Result<PageResponse<Link>, Error>)
    requires
        repository.store().wf(),
        page_request.valid(),
    ensures
        repository.reliable() ==> r is Ok,
        r is Err ==> r == Err::<PageResponse<Link>, Error>(Error::DataAccessError) && !repository.reliable(),
        r matches Ok(page) ==> page.total_pages == page_count(
            tagged(repository.store().links, text_views(tags@)).len(),
            page_request.size as nat,
        ) && link_views(page.content@) == page_window(
            tagged(repository.store().links, text_views(tags@)),
            page_request.index as nat,
            page_request.size as nat,
        ),
{
    repository.find_by_tags(tags, page_request)
}

/// Applies `patch` to the link with identifier `id`, stores the result and returns the
/// stored link. The tags are always replaced, by the patch's tags in lowercase, each once.
pub fn update_link<R: LinkRepository>(id: &Id, patch: &LinkPatch, repository: &mut R) -> (r: Result<Link, Error>)
    requires
        old(repository).store().wf(),
    ensures
        final(repository).reliable() == old(repository).reliable(),
        final(repository).store().wf(),
        r is Err ==> final(repository).store() == old(repository).store() && (r == Err::<Link, Error>(
            Error::LinkNotFound,
        ) || r == Err::<Link, Error>(Error::NonUniqueShortenedPath) || (r == Err::<Link, Error>(
            Error::DataAccessError,
        ) && !old(repository).reliable())),
        r == Err::<Link, Error>(Error::LinkNotFound) ==> !has_id(old(repository).store().links, id@),
        old(repository).reliable() && !has_id(old(repository).store().links, id@) ==> r == Err::<Link, Error>(
            Error::LinkNotFound,
        ),
        has_id(old(repository).store().links, id@) ==> ({
            let links = old(repository).store().links;
            let row = links[position_of_id(links, id@)];
            let target = patched(row, patch);
            &&& r == Err::<Link, Error>(Error::NonUniqueShortenedPath) ==> update_conflict(links, target)
            &&& update_conflict(links, target) ==> r is Err && r != Err::<Link, Error>(Error::LinkNotFound)
            &&& old(repository).reliable() && !update_conflict(links, target) ==> r is Ok
            &&& r matches Ok(l) ==> l@ == updated_row(row, target) && final(repository).store()
                == old(repository).store().after_update(target)
        }),
        r is Ok ==> has_id(old(repository).store().links, id@),
        r matches Ok(l) ==> l@.tags.no_duplicates(),
{
    let link = match repository.find_by_id(id) {
        Ok(Some(link)) => link,
        Ok(None) => {
            return Err(Error::LinkNotFound);
        },
        Err(e) => {
            return Err(e);
        },
    };
    let link = patch.apply(link);
    proof {
        let links = old(repository).store().links;
        assert(links[position_of_id(links, id@)].id == id@);
        lemma_with_names(Seq::empty(), link@.tags);
    }
    repository.update(link)
}

/// Removes the link with identifier `id` and its tag associations; removing a missing
/// link is no failure.
pub fn delete_link<R: LinkRepository>(id: &Id, repository: &mut R) -> (r: Result<(), Error>)
    requires
        old(repository).store().wf(),
    ensures
        final(repository).reliable() == old(repository).reliable(),
        final(repository).store().wf(),
        old(repository).reliable() ==> r is Ok,
        r is Err ==> r == Err::<(), Error>(Error::DataAccessError) && !old(repository).reliable()
            && final(repository).store() == old(repository).store(),
        r is Ok ==> final(repository).store() == old(repository).store().after_delete(id@),
{
    repository.delete_by_id(id)
}

/// Removes every link that has expired by the instant `now`, with its tag associations.
pub fn delete_expired_links<R: LinkRepository>(now: i64, repository: &mut R) -> (r: Result<(), Error>)
    requires
        old(repository).store().wf(),
    ensures
        final(repository).reliable() == old(repository).reliable(),
        final(repository).store().wf(),
        old(repository).reliable() ==> r is Ok,
        r is Err ==> r == Err::<(), Error>(Error::DataAccessError) && !old(repository).reliable()
            && final(repository).store() == old(repository).store(),
        r is Ok ==> final(repository).store() == old(repository).store().after_expiry(now),
{
    repository.delete_expired(now)
}

/// Removes every tag that no link carries.
pub fn delete_orphaned_tags<R: LinkRepository>(repository: &mut R) -> (r: Result<(), Error>)
    requires
        old(repository).store().wf(),
    ensures
        final(repository).reliable() == old(repository).reliable(),
        final(repository).store().wf(),
        old(repository).reliable() ==> r is Ok,
        r is Err ==> r == Err::<(), Error>(Error::DataAccessError) && !old(repository).reliable()
            && final(repository).store() == old(repository).store(),
        r is Ok ==> final(repository).store() == old(repository).store().after_orphan_cleanup(),
{
    repository.delete_orphaned_tags()
}

} // verus!
