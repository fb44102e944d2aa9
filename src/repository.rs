use crate::id::Id;
use crate::link::{text_views, valid_path_length, Error, Link, LinkView};
use crate::pagination::{page_count, page_window, PageRequest, PageResponse};
use vstd::prelude::*;

verus! {

/// The rows of a link store: the links, newest first, each with the tags associated
/// with it, and the table of tag names.
pub struct StoreView {
    pub links: Seq<LinkView>,
    pub tags: Seq<Seq<char>>,
}

pub open spec fn link_views(s: Seq<Link>) -> Seq<LinkView> {
    s.map_values(|l: Link| l@)
}

pub open spec fn has_id(links: Seq<LinkView>, id: Seq<char>) -> bool {
    exists|i: int| 0 <= i < links.len() && (#[trigger] links[i]).id == id
}

/// Where the link with identifier `id` stands, if there is one.
pub open spec fn position_of_id(links: Seq<LinkView>, id: Seq<char>) -> int {
    choose|i: int| 0 <= i < links.len() && (#[trigger] links[i]).id == id
}

/// An active link has the path `path`.
pub open spec fn active_path_taken(links: Seq<LinkView>, path: Seq<char>) -> bool {
    exists|i: int| 0 <= i < links.len() && (#[trigger] links[i]).is_active && links[i].shortened_path == path
}

/// Saving `link` would break a uniqueness rule: its identifier is taken, or it is active
/// and its path is that of an active link.
pub open spec fn save_conflict(links: Seq<LinkView>, link: LinkView) -> bool {
    has_id(links, link.id) || (link.is_active && active_path_taken(links, link.shortened_path))
}

/// `table` with each name of `names` that it lacks appended, in order of first occurrence.
pub open spec fn with_names(table: Seq<Seq<char>>, names: Seq<Seq<char>>) -> Seq<Seq<char>>
    decreases names.len(),
{
    if names.len() == 0 {
        table
    } else {
        let t = with_names(table, names.drop_last());
        if t.contains(names.last()) {
            t
        } else {
            t.push(names.last())
        }
    }
}

/// The names, each once, in order of first occurrence.
pub open spec fn distinct_names(names: Seq<Seq<char>>) -> Seq<Seq<char>> {
    with_names(Seq::empty(), names)
}

/// The row that saving `link` stores: its tags without repetition.
pub open spec fn stored_row(link: LinkView) -> LinkView {
    LinkView {
        id: link.id,
        original_url: link.original_url,
        shortened_path: link.shortened_path,
        is_active: link.is_active,
        tags: distinct_names(link.tags),
        created_at: link.created_at,
        expires_at: link.expires_at,
    }
}

/// `p` is where a link created at `at` goes: after the links created later, before the
/// others.
pub open spec fn is_insert_position(links: Seq<LinkView>, at: i64, p: int) -> bool {
    &&& 0 <= p <= links.len()
    &&& forall|j: int| 0 <= j < p ==> (#[trigger] links[j]).created_at > at
    &&& p < links.len() ==> links[p].created_at <= at
}

pub open spec fn insert_position(links: Seq<LinkView>, at: i64) -> int {
    choose|p: int| is_insert_position(links, at, p)
}

/// Activating the link with the identifier of `link` would give its path to a second
/// active link.
pub open spec fn update_conflict(links: Seq<LinkView>, link: LinkView) -> bool {
    let p = position_of_id(links, link.id);
    link.is_active && exists|j: int|
        0 <= j < links.len() && j != p && (#[trigger] links[j]).is_active && links[j].shortened_path
            == links[p].shortened_path
}

/// The stored `row` after an update with `link`: address, activity, expiry and tags
/// change; identifier, path and creation instant stay.
pub open spec fn updated_row(row: LinkView, link: LinkView) -> LinkView {
    LinkView {
        id: row.id,
        original_url: link.original_url,
        shortened_path: row.shortened_path,
        is_active: link.is_active,
        tags: distinct_names(link.tags),
        created_at: row.created_at,
        expires_at: link.expires_at,
    }
}

/// The link carries every name of `names`.
pub open spec fn carries_all(link: LinkView, names: Seq<Seq<char>>) -> bool {
    forall|k: int| 0 <= k < names.len() ==> link.tags.contains(#[trigger] names[k])
}

/// The links that carry every one of a non-empty list of names, in store order.
pub open spec fn tagged(links: Seq<LinkView>, names: Seq<Seq<char>>) -> Seq<LinkView> {
    if names.len() == 0 {
        Seq::empty()
    } else {
        links.filter(|l: LinkView| carries_all(l, names))
    }
}

/// Some link carries the tag `name`.
pub open spec fn tag_in_use(links: Seq<LinkView>, name: Seq<char>) -> bool {
    exists|i: int| 0 <= i < links.len() && (#[trigger] links[i]).tags.contains(name)
}

pub(crate) proof fn lemma_with_names(table: Seq<Seq<char>>, names: Seq<Seq<char>>)
    ensures
        forall|x: Seq<char>| #[trigger] with_names(table, names).contains(x) <==> (table.contains(x) || names.contains(x)),
        table.no_duplicates() ==> with_names(table, names).no_duplicates(),
    decreases names.len(),
{
    if names.len() > 0 {
        let rest = names.drop_last();
        lemma_with_names(table, rest);
        let t = with_names(table, rest);
        assert forall|x: Seq<char>| #[trigger] with_names(table, names).contains(x) <==> (table.contains(x) || names.contains(x)) by {
            if names.contains(x) && !rest.contains(x) {
                let k = choose|k: int| 0 <= k < names.len() && names[k] == x;
                if k < names.len() - 1 {
                    assert(rest[k] == x);
                }
                assert(x == names.last());
                if !t.contains(x) {
                    assert(t.push(names.last())[t.len() as int] == x);
                }
            }
            if rest.contains(x) {
                let k = choose|k: int| 0 <= k < rest.len() && rest[k] == x;
                assert(names[k] == x);
            }
            if t.push(names.last()).contains(x) && !t.contains(x) {
                let k = choose|k: int| 0 <= k < t.len() + 1 && t.push(names.last())[k] == x;
                assert(x == names.last());
                assert(names[names.len() - 1] == x);
            }
            if t.contains(x) && !t.contains(names.last()) {
                let k = choose|k: int| 0 <= k < t.len() && t[k] == x;
                assert(t.push(names.last())[k] == x);
            }
        }
    }
}

/// The filtered sequence keeps the order of the original: its elements stand at
/// strictly increasing positions of it.
pub(crate) proof fn lemma_filter_positions<A>(s: Seq<A>, pred: spec_fn(A) -> bool) -> (idx: Seq<int>)
    ensures
        idx.len() == s.filter(pred).len(),
        forall|k: int| 0 <= k < idx.len() ==> 0 <= #[trigger] idx[k] < s.len() && s.filter(pred)[k] == s[idx[k]],
        forall|k1: int, k2: int| 0 <= k1 < k2 < idx.len() ==> #[trigger] idx[k1] < #[trigger] idx[k2],
    decreases s.len(),
{
    reveal(Seq::filter);
    if s.len() == 0 {
        Seq::empty()
    } else {
        let rest = lemma_filter_positions(s.drop_last(), pred);
        if pred(s.last()) {
            assert(s.filter(pred) == s.drop_last().filter(pred).push(s.last()));
            let idx = rest.push(s.len() - 1);
            assert forall|k: int| 0 <= k < idx.len() implies 0 <= #[trigger] idx[k] < s.len() && s.filter(pred)[k] == s[idx[k]] by {
                if k < rest.len() {
                    assert(s.drop_last()[rest[k]] == s[rest[k]]);
                }
            }
            idx
        } else {
            assert(s.filter(pred) == s.drop_last().filter(pred));
            assert forall|k: int| 0 <= k < rest.len() implies 0 <= #[trigger] rest[k] < s.len() && s.filter(pred)[k] == s[rest[k]] by {
                assert(s.drop_last()[rest[k]] == s[rest[k]]);
            }
            rest
        }
    }
}

pub(crate) proof fn lemma_insert_position_unique(links: Seq<LinkView>, at: i64, p: int)
    requires
        is_insert_position(links, at, p),
    ensures
        insert_position(links, at) == p,
{
    let q = insert_position(links, at);
    assert(is_insert_position(links, at, q));
    if q < p {
        assert(links[q].created_at > at);
    } else if p < q {
        assert(links[p].created_at > at);
    }
}

impl StoreView {
    /// The rules of the store: identifiers are unique; no two active links share a path;
    /// links run from the newest to the oldest; a path has one to thirty characters; a
    /// link carries a tag at most once, and only one of the tag table; the table holds
    /// each name once.
    pub open spec fn wf(self) -> bool {
        &&& forall|i: int, j: int|
            0 <= i < j < self.links.len() ==> (#[trigger] self.links[i]).id != (#[trigger] self.links[j]).id
        &&& forall|i: int, j: int|
            0 <= i < j < self.links.len() && (#[trigger] self.links[i]).is_active
                && (#[trigger] self.links[j]).is_active ==> self.links[i].shortened_path
                != self.links[j].shortened_path
        &&& forall|i: int, j: int|
            0 <= i < j < self.links.len() ==> (#[trigger] self.links[i]).created_at
                >= (#[trigger] self.links[j]).created_at
        &&& forall|i: int|
            0 <= i < self.links.len() ==> (#[trigger] self.links[i]).tags.no_duplicates() && valid_path_length(
                self.links[i].shortened_path,
            )
        &&& forall|i: int, k: int|
            0 <= i < self.links.len() && 0 <= k < self.links[i].tags.len() ==> self.tags.contains(
                #[trigger] self.links[i].tags[k],
            )
        &&& self.tags.no_duplicates()
    }

    /// The store after `link` is saved: its row goes after the links created later.
    pub open spec fn after_save(self, link: LinkView) -> StoreView {
        StoreView {
            links: self.links.insert(insert_position(self.links, link.created_at), stored_row(link)),
            tags: with_names(self.tags, link.tags),
        }
    }

    /// The store after the link with the identifier of `link` is updated with it.
    pub open spec fn after_update(self, link: LinkView) -> StoreView {
        let p = position_of_id(self.links, link.id);
        StoreView {
            links: self.links.update(p, updated_row(self.links[p], link)),
            tags: with_names(self.tags, link.tags),
        }
    }

    /// The store without the link with identifier `id`.
    pub open spec fn after_delete(self, id: Seq<char>) -> StoreView {
        StoreView { links: self.links.filter(|l: LinkView| l.id != id), tags: self.tags }
    }

    /// The store without the links that expire at or before `now`.
    pub open spec fn after_expiry(self, now: i64) -> StoreView {
        StoreView { links: self.links.filter(|l: LinkView| l.expires_at > now), tags: self.tags }
    }

    /// The store without the tags that no link carries.
    pub open spec fn after_orphan_cleanup(self) -> StoreView {
        StoreView { links: self.links, tags: self.tags.filter(|n: Seq<char>| tag_in_use(self.links, n)) }
    }
}


proof fn lemma_save_wf(s: StoreView, link: LinkView, p: int)
    requires
        s.wf(),
        !save_conflict(s.links, link),
        is_insert_position(s.links, link.created_at, p),
        valid_path_length(link.shortened_path),
    ensures
        s.after_save(link).wf(),
{
    lemma_insert_position_unique(s.links, link.created_at, p);
    lemma_with_names(s.tags, link.tags);
    lemma_with_names(Seq::empty(), link.tags);
    let row = stored_row(link);
    let n = s.after_save(link);
    assert forall|i: int| 0 <= i < n.links.len() implies n.links[i] == row || exists|j: int|
        0 <= j < s.links.len() && s.links[j] == n.links[i] by {
        if i < p {
            assert(s.links[i] == n.links[i]);
        } else if i > p {
            assert(s.links[i - 1] == n.links[i]);
        }
    }
    assert forall|i: int| 0 <= i < n.links.len() implies (#[trigger] n.links[i]).tags.no_duplicates()
        && valid_path_length(n.links[i].shortened_path) by {
        if i < p {
            assert(s.links[i] == n.links[i]);
        } else if i > p {
            assert(s.links[i - 1] == n.links[i]);
        }
    }
    assert forall|i: int, k: int|
        0 <= i < n.links.len() && 0 <= k < n.links[i].tags.len() implies n.tags.contains(
        #[trigger] n.links[i].tags[k],
    ) by {
        if i != p {
            let j = if i < p { i } else { i - 1 };
            assert(s.links[j] == n.links[i]);
            assert(s.tags.contains(s.links[j].tags[k]));
        } else {
            assert(row.tags.contains(row.tags[k]));
        }
    }
    assert forall|i: int, j: int| 0 <= i < j < n.links.len() implies (#[trigger] n.links[i]).id != (
    #[trigger] n.links[j]).id by {
        if i == p {
            assert(s.links[j - 1] == n.links[j]);
        } else if j == p {
            assert(s.links[i] == n.links[i]);
        }
    }
    assert forall|i: int, j: int|
        0 <= i < j < n.links.len() && (#[trigger] n.links[i]).is_active
            && (#[trigger] n.links[j]).is_active implies n.links[i].shortened_path
        != n.links[j].shortened_path by {
        if i == p {
            assert(s.links[j - 1] == n.links[j]);
        } else if j == p {
            assert(s.links[i] == n.links[i]);
        }
    }
    assert forall|i: int, j: int| 0 <= i < j < n.links.len() implies (#[trigger] n.links[i]).created_at
        >= (#[trigger] n.links[j]).created_at by {
        if i == p {
            assert(s.links[j - 1] == n.links[j]);
            if j - 1 > p {
                assert(s.links[p].created_at >= s.links[j - 1].created_at);
            }
        } else if j == p {
            assert(s.links[i] == n.links[i]);
        }
    }
}

proof fn lemma_filter_links_wf(s: StoreView, pred: spec_fn(LinkView) -> bool)
    requires
        s.wf(),
    ensures
        (StoreView { links: s.links.filter(pred), tags: s.tags }).wf(),
{
    let f = s.links.filter(pred);
    let idx = lemma_filter_positions(s.links, pred);
    assert forall|i: int, j: int| 0 <= i < j < f.len() implies (#[trigger] f[i]).id != (#[trigger] f[j]).id by {
        assert(idx[i] < idx[j]);
    }
    assert forall|i: int, j: int|
        0 <= i < j < f.len() && (#[trigger] f[i]).is_active && (#[trigger] f[j]).is_active implies f[i].shortened_path
        != f[j].shortened_path by {
        assert(idx[i] < idx[j]);
    }
    assert forall|i: int, j: int| 0 <= i < j < f.len() implies (#[trigger] f[i]).created_at >= (#[trigger] f[j]).created_at by {
        assert(idx[i] < idx[j]);
    }
    assert forall|i: int| 0 <= i < f.len() implies (#[trigger] f[i]).tags.no_duplicates() && valid_path_length(
        f[i].shortened_path,
    ) by {
        assert(f[i] == s.links[idx[i]]);
    }
    assert forall|i: int, k: int| 0 <= i < f.len() && 0 <= k < f[i].tags.len() implies s.tags.contains(
        #[trigger] f[i].tags[k],
    ) by {
        assert(f[i] == s.links[idx[i]]);
    }
}

proof fn lemma_orphan_cleanup_wf(s: StoreView)
    requires
        s.wf(),
    ensures
        s.after_orphan_cleanup().wf(),
{
    let pred = |n: Seq<char>| tag_in_use(s.links, n);
    let t = s.tags.filter(pred);
    let idx = lemma_filter_positions(s.tags, pred);
    assert forall|a: int, b: int| 0 <= a < t.len() && 0 <= b < t.len() && a != b implies t[a] != t[b] by {
        if a < b {
            assert(idx[a] < idx[b]);
        } else {
            assert(idx[b] < idx[a]);
        }
    }
    assert forall|i: int, k: int|
        0 <= i < s.links.len() && 0 <= k < s.links[i].tags.len() implies t.contains(#[trigger] s.links[i].tags[k]) by {
        let name = s.links[i].tags[k];
        assert(s.links[i].tags.contains(name));
        assert(tag_in_use(s.links, name));
        let m = choose|m: int| 0 <= m < s.tags.len() && s.tags[m] == name;
        s.tags.lemma_filter_contains(pred, m);
    }
}

pub(crate) proof fn lemma_update_wf(s: StoreView, link: LinkView)
    requires
        s.wf(),
        has_id(s.links, link.id),
        !update_conflict(s.links, link),
    ensures
        s.after_update(link).wf(),
{
    let p = position_of_id(s.links, link.id);
    lemma_with_names(s.tags, link.tags);
    lemma_with_names(Seq::empty(), link.tags);
    let n = s.after_update(link);
    let row = n.links[p];
    assert forall|i: int, k: int|
        0 <= i < n.links.len() && 0 <= k < n.links[i].tags.len() implies n.tags.contains(
        #[trigger] n.links[i].tags[k],
    ) by {
        if i != p {
            assert(s.tags.contains(s.links[i].tags[k]));
        } else {
            assert(row.tags.contains(row.tags[k]));
        }
    }
    assert forall|i: int, j: int|
        0 <= i < j < n.links.len() && (#[trigger] n.links[i]).is_active
            && (#[trigger] n.links[j]).is_active implies n.links[i].shortened_path
        != n.links[j].shortened_path by {
        if i == p {
            assert(s.links[j] == n.links[j]);
        } else if j == p {
            assert(s.links[i] == n.links[i]);
        }
    }
}

/// A store of links, with the operations that the link service needs. Each operation
/// either takes effect whole (the link row with all its tag associations) or not at all.
/// A store that is not `reliable` may fail any operation with `DataAccessError`, and then
/// leaves its rows as they were.
pub trait LinkRepository {
    /// The rows that the store holds.
    spec fn store(&self) -> StoreView;

    /// The store never fails for reasons of its own (transport, storage engine).
    spec fn reliable(&self) -> bool;

    /// Stores `link` with its tags, adding the tag names that the table lacks, and
    /// returns the stored row. Fails, and stores nothing, where the identifier is taken or
    /// the link is active and an active link has its path.
    fn save(&mut self, link: Link) -> (r: Result<Link, Error>)
        requires
            old(self).store().wf(),
            valid_path_length(link@.shortened_path),
        ensures
            final(self).reliable() == old(self).reliable(),
            final(self).store().wf(),
            save_conflict(old(self).store().links, link@) ==> r is Err,
            old(self).reliable() && !save_conflict(old(self).store().links, link@) ==> r is Ok,
            r is Err ==> final(self).store() == old(self).store() && (r == Err::<Link, Error>(
                Error::NonUniqueShortenedPath,
            ) || (r == Err::<Link, Error>(Error::DataAccessError) && !old(self).reliable())),
            r == Err::<Link, Error>(Error::NonUniqueShortenedPath) ==> save_conflict(old(self).store().links, link@),
            r matches Ok(l) ==> l@ == stored_row(link@) && final(self).store() == old(self).store().after_save(link@),
    ;

    /// The page `page_request` of all links, newest first, and the number of pages.
    fn find_all(&self, page_request: &PageRequest) -> (r: Result<PageResponse<Link>, Error>)
        requires
            self.store().wf(),
            page_request.valid(),
        ensures
            self.reliable() ==> r is Ok,
            r is Err ==> r == Err::<PageResponse<Link>, Error>(Error::DataAccessError) && !self.reliable(),
            r matches Ok(page) ==> page.total_pages == page_count(self.store().links.len(), page_request.size as nat)
                && link_views(page.content@) == page_window(self.store().links, page_request.index as nat, page_request.size as nat),
    ;

    /// The link with identifier `id`, with its tags.
    fn find_by_id(&self, id: &Id) -> (r: Result<Option<Link>, Error>)
        requires
            self.store().wf(),
        ensures
            self.reliable() ==> r is Ok,
            r is Err ==> r == Err::<Option<Link>, Error>(Error::DataAccessError) && !self.reliable(),
            r matches Ok(found) ==> match found {
                Some(l) => has_id(self.store().links, id@) && l@ == self.store().links[position_of_id(self.store().links, id@)],
                None => !has_id(self.store().links, id@),
            },
    ;

    /// The active link with path `shortened_path`; inactive links are never found.
    fn find_by_shortened_path(&self, shortened_path: &str) -> (r: Result<Option<Link>, Error>)
        requires
            self.store().wf(),
        ensures
            self.reliable() ==> r is Ok,
            r is Err ==> r == Err::<Option<Link>, Error>(Error::DataAccessError) && !self.reliable(),
            r matches Ok(found) ==> match found {
                Some(l) => l@.is_active && l@.shortened_path == shortened_path@ && self.store().links.contains(l@),
                None => !active_path_taken(self.store().links, shortened_path@),
            },
    ;

    /// The page `page_request` of the links that carry every one of `tags`, newest first,
    /// and the number of pages of them. No link matches an empty list.
    fn find_by_tags(&self, tags: &Vec<String>, page_request: &PageRequest) -> (r: Result<PageResponse<Link>, Error>)
        requires
            self.store().wf(),
            page_request.valid(),
        ensures
            self.reliable() ==> r is Ok,
            r is Err ==> r == Err::<PageResponse<Link>, Error>(Error::DataAccessError) && !self.reliable(),
            r matches Ok(page) ==> page.total_pages == page_count(
                tagged(self.store().links, text_views(tags@)).len(),
                page_request.size as nat,
            ) && link_views(page.content@) == page_window(
                tagged(self.store().links, text_views(tags@)),
                page_request.index as nat,
                page_request.size as nat,
            ),
    ;

    /// Overwrites address, activity and expiry of the stored link with the identifier of
    /// `link`, replaces its tags with those of `link`, and returns the stored row.
    fn update(&mut self, link: Link) -> (r: Result<Link, Error>)
        requires
            old(self).store().wf(),
        ensures
            final(self).reliable() == old(self).reliable(),
            final(self).store().wf(),
            r is Err ==> final(self).store() == old(self).store() && (r == Err::<Link, Error>(Error::LinkNotFound)
                || r == Err::<Link, Error>(Error::NonUniqueShortenedPath) || (r == Err::<Link, Error>(
                Error::DataAccessError,
            ) && !old(self).reliable())),
            r == Err::<Link, Error>(Error::LinkNotFound) <==> !has_id(old(self).store().links, link@.id) && (
            old(self).reliable() || r is Err),
            r == Err::<Link, Error>(Error::NonUniqueShortenedPath) ==> has_id(old(self).store().links, link@.id)
                && update_conflict(old(self).store().links, link@),
            has_id(old(self).store().links, link@.id) && update_conflict(old(self).store().links, link@) ==> r is Err,
            old(self).reliable() && has_id(old(self).store().links, link@.id) && !update_conflict(
                old(self).store().links,
                link@,
            ) ==> r is Ok,
            r matches Ok(l) ==> ({
                let links = old(self).store().links;
                l@ == updated_row(links[position_of_id(links, link@.id)], link@) && final(self).store()
                    == old(self).store().after_update(link@)
            }),
    ;

    /// Removes the link with identifier `id` and its tag associations, if there is one.
    fn delete_by_id(&mut self, id: &Id) -> (r: Result<(), Error>)
        requires
            old(self).store().wf(),
        ensures
            final(self).reliable() == old(self).reliable(),
            final(self).store().wf(),
            old(self).reliable() ==> r is Ok,
            r is Err ==> r == Err::<(), Error>(Error::DataAccessError) && !old(self).reliable()
                && final(self).store() == old(self).store(),
            r is Ok ==> final(self).store() == old(self).store().after_delete(id@),
    ;

    /// Removes every link that expires at or before `now`, with its tag associations.
    fn delete_expired(&mut self, now: i64) -> (r: Result<(), Error>)
        requires
            old(self).store().wf(),
        ensures
            final(self).reliable() == old(self).reliable(),
            final(self).store().wf(),
            old(self).reliable() ==> r is Ok,
            r is Err ==> r == Err::<(), Error>(Error::DataAccessError) && !old(self).reliable()
                && final(self).store() == old(self).store(),
            r is Ok ==> final(self).store() == old(self).store().after_expiry(now),
    ;

    /// Removes every tag that no link carries.
    fn delete_orphaned_tags(&mut self) -> (r: Result<(), Error>)
        requires
            old(self).store().wf(),
        ensures
            final(self).reliable() == old(self).reliable(),
            final(self).store().wf(),
            old(self).reliable() ==> r is Ok,
            r is Err ==> r == Err::<(), Error>(Error::DataAccessError) && !old(self).reliable()
                && final(self).store() == old(self).store(),
            r is Ok ==> final(self).store() == old(self).store().after_orphan_cleanup(),
    ;
}

/// A link store held in memory, with the rows in vectors.
pub struct MemoryLinkRepository {
    links: Vec<Link>,
    tags: Vec<String>,
}

/// Whether the texts are equal.
pub(crate) fn text_equal(a: &str, b: &str) -> (r: bool)
    ensures
        r == (a@ == b@),
{
    let n = a.unicode_len();
    if n != b.unicode_len() {
        return false;
    }
    let mut i: usize = 0;
    while i < n
        invariant
            n == a@.len(),
            n == b@.len(),
            i <= n,
            forall|k: int| 0 <= k < i ==> a@[k] == b@[k],
        decreases n - i,
    {
        if a.get_char(i) != b.get_char(i) {
            return false;
        }
        i = i + 1;
    }
    proof {
        assert(a@ =~= b@);
    }
    true
}

/// Whether `name` is one of `names`.
fn contains_text(names: &Vec<String>, name: &String) -> (r: bool)
    ensures
        r == text_views(names@).contains(name@),
{
    let mut i: usize = 0;
    while i < names.len()
        invariant
            i <= names.len(),
            forall|k: int| 0 <= k < i ==> names@[k]@ != name@,
        decreases names.len() - i,
    {
        if names[i] == *name {
            proof {
                assert(text_views(names@)[i as int] == name@);
            }
            return true;
        }
        i = i + 1;
    }
    proof {
        if text_views(names@).contains(name@) {
            let k = choose|k: int| 0 <= k < names@.len() && text_views(names@)[k] == name@;
            assert(names@[k]@ == name@);
        }
    }
    false
}

/// Appends to `table` each name of `names` that it lacks, in order.
fn add_missing_names(table: &mut Vec<String>, names: &Vec<String>)
    ensures
        text_views(final(table)@) == with_names(text_views(old(table)@), text_views(names@)),
{
    let ghost start = text_views(table@);
    let mut i: usize = 0;
    while i < names.len()
        invariant
            i <= names.len(),
            text_views(table@) == with_names(start, text_views(names@).subrange(0, i as int)),
        decreases names.len() - i,
    {
        let ghost sub = text_views(names@).subrange(0, i as int + 1);
        proof {
            assert(sub.drop_last() =~= text_views(names@).subrange(0, i as int));
            assert(sub.last() == names@[i as int]@);
        }
        if !contains_text(table, &names[i]) {
            let name = names[i].clone();
            table.push(name);
            proof {
                assert(text_views(table@) =~= with_names(start, text_views(names@).subrange(0, i as int)).push(
                    names@[i as int]@,
                ));
            }
        }
        i = i + 1;
    }
    proof {
        assert(text_views(names@).subrange(0, i as int) =~= text_views(names@));
    }
}

/// Copies of the links of the page `index` of pages of `size` links.
fn clone_window(links: &Vec<Link>, index: usize, size: usize) -> (r: Vec<Link>)
    requires
        size > 0,
        index * size <= usize::MAX,
    ensures
        link_views(r@) == page_window(link_views(links@), index as nat, size as nat),
{
    let n = links.len();
    let offset = index * size;
    let start = if offset <= n { offset } else { n };
    let end = if size <= n - start { start + size } else { n };
    let mut r: Vec<Link> = Vec::new();
    let mut i: usize = start;
    while i < end
        invariant
            start <= i <= end <= n == links@.len(),
            r@.len() == i - start,
            forall|k: int| 0 <= k < r@.len() ==> (#[trigger] r@[k])@ == links@[start + k]@,
        decreases end - i,
    {
        let l = links[i].clone();
        r.push(l);
        i = i + 1;
    }
    proof {
        assert(link_views(r@) =~= page_window(link_views(links@), index as nat, size as nat));
    }
    r
}

/// Whether `link` carries every name of `names`.
fn carries_all_tags(link: &Link, names: &Vec<String>) -> (r: bool)
    ensures
        r == carries_all(link@, text_views(names@)),
{
    let mut i: usize = 0;
    while i < names.len()
        invariant
            i <= names.len(),
            forall|k: int| 0 <= k < i ==> link@.tags.contains(#[trigger] text_views(names@)[k]),
        decreases names.len() - i,
    {
        if !contains_text(&link.tags, &names[i]) {
            proof {
                assert(text_views(names@)[i as int] == names@[i as int]@);
            }
            return false;
        }
        i = i + 1;
    }
    true
}

impl MemoryLinkRepository {
    /// An empty store.
    pub fn new() -> (r: Self)
        ensures
            r.store().links.len() == 0,
            r.store().tags.len() == 0,
            r.store().wf(),
    {
        MemoryLinkRepository { links: Vec::new(), tags: Vec::new() }
    }

    /// The names of the tag table, in the order they were added.
    pub fn tag_names(&self) -> (r: Vec<String>)
        ensures
            text_views(r@) == self.store().tags,
    {
        crate::link::clone_texts(&self.tags)
    }

    /// Where the link with identifier `id` stands.
    fn position_of(&self, id: &Id) -> (r: Option<usize>)
        ensures
            match r {
                Some(i) => i < self.links@.len() && self.links@[i as int]@.id == id@,
                None => !has_id(link_views(self.links@), id@),
            },
    {
        let mut i: usize = 0;
        while i < self.links.len()
            invariant
                i <= self.links@.len(),
                forall|k: int| 0 <= k < i ==> self.links@[k]@.id != id@,
            decreases self.links@.len() - i,
        {
            if self.links[i].id == *id {
                return Some(i);
            }
            i = i + 1;
        }
        proof {
            if has_id(link_views(self.links@), id@) {
                let k = choose|k: int| 0 <= k < self.links@.len() && (#[trigger] link_views(self.links@)[k]).id == id@;
                assert(self.links@[k]@.id == id@);
            }
        }
        None
    }

    /// Where the active link with path `path` stands.
    fn active_position(&self, path: &str) -> (r: Option<usize>)
        ensures
            match r {
                Some(i) => i < self.links@.len() && self.links@[i as int]@.is_active
                    && self.links@[i as int]@.shortened_path == path@,
                None => !active_path_taken(link_views(self.links@), path@),
            },
    {
        let mut i: usize = 0;
        while i < self.links.len()
            invariant
                i <= self.links@.len(),
                forall|k: int| 0 <= k < i ==> !(self.links@[k]@.is_active && self.links@[k]@.shortened_path == path@),
            decreases self.links@.len() - i,
        {
            if self.links[i].is_active && text_equal(self.links[i].shortened_path.as_str(), path) {
                return Some(i);
            }
            i = i + 1;
        }
        proof {
            if active_path_taken(link_views(self.links@), path@) {
                let k = choose|k: int| 0 <= k < self.links@.len() && (#[trigger] link_views(self.links@)[k]).is_active
                    && link_views(self.links@)[k].shortened_path == path@;
                assert(self.links@[k]@.is_active);
            }
        }
        None
    }

    /// Whether an active link other than the one at `p` has the path of the one at `p`.
    fn path_shared_with_active(&self, p: usize) -> (r: bool)
        requires
            p < self.links@.len(),
        ensures
            r == exists|j: int|
                0 <= j < self.links@.len() && j != p && (#[trigger] link_views(self.links@)[j]).is_active
                    && link_views(self.links@)[j].shortened_path == self.links@[p as int]@.shortened_path,
    {
        let mut j: usize = 0;
        while j < self.links.len()
            invariant
                p < self.links@.len(),
                j <= self.links@.len(),
                forall|k: int|
                    0 <= k < j && k != p ==> !(self.links@[k]@.is_active && self.links@[k]@.shortened_path
                        == self.links@[p as int]@.shortened_path),
            decreases self.links@.len() - j,
        {
            if j != p && self.links[j].is_active && self.links[j].shortened_path == self.links[p].shortened_path {
                proof {
                    assert(link_views(self.links@)[j as int].is_active);
                }
                return true;
            }
            j = j + 1;
        }
        false
    }

    /// Whether some link carries the tag `name`.
    fn tag_used(&self, name: &String) -> (r: bool)
        ensures
            r == tag_in_use(link_views(self.links@), name@),
    {
        let mut i: usize = 0;
        while i < self.links.len()
            invariant
                i <= self.links@.len(),
                forall|k: int| 0 <= k < i ==> !self.links@[k]@.tags.contains(name@),
            decreases self.links@.len() - i,
        {
            if contains_text(&self.links[i].tags, name) {
                proof {
                    assert(link_views(self.links@)[i as int].tags.contains(name@));
                }
                return true;
            }
            i = i + 1;
        }
        proof {
            if tag_in_use(link_views(self.links@), name@) {
                let k = choose|k: int| 0 <= k < self.links@.len() && (#[trigger] link_views(self.links@)[k]).tags.contains(name@);
                assert(self.links@[k]@.tags.contains(name@));
            }
        }
        false
    }

    /// Where a link created at `at` goes.
    fn insert_index(&self, at: i64) -> (p: usize)
        ensures
            is_insert_position(link_views(self.links@), at, p as int),
    {
        let mut i: usize = 0;
        while i < self.links.len() && self.links[i].created_at > at
            invariant
                i <= self.links@.len(),
                forall|k: int| 0 <= k < i ==> self.links@[k]@.created_at > at,
            decreases self.links@.len() - i,
        {
            i = i + 1;
        }
        i
    }
}

impl LinkRepository for MemoryLinkRepository {
    closed spec fn store(&self) -> StoreView {
        StoreView { links: link_views(self.links@), tags: text_views(self.tags@) }
    }

    /// Held in memory, the store has no failures of its own.
    open spec fn reliable(&self) -> bool {
        true
    }

    fn save(&mut self, link: Link) -> (r: Result<Link, Error>) {
        match self.position_of(&link.id) {
            Some(i) => {
                proof {
                    assert(link_views(self.links@)[i as int].id == link@.id);
                }
                return Err(Error::NonUniqueShortenedPath);
            },
            None => {},
        }
        if link.is_active {
            match self.active_position(link.shortened_path.as_str()) {
                Some(i) => {
                    proof {
                        assert(link_views(self.links@)[i as int].is_active);
                    }
                    return Err(Error::NonUniqueShortenedPath);
                },
                None => {},
            }
        }
        let p = self.insert_index(link.created_at);
        let mut row_tags: Vec<String> = Vec::new();
        add_missing_names(&mut row_tags, &link.tags);
        let row = Link {
            id: link.id.clone(),
            original_url: link.original_url.clone(),
            shortened_path: link.shortened_path.clone(),
            is_active: link.is_active,
            tags: row_tags,
            created_at: link.created_at,
            expires_at: link.expires_at,
        };
        let ghost before = self.store();
        add_missing_names(&mut self.tags, &link.tags);
        let stored = row.clone();
        self.links.insert(p, row);
        proof {
            assert(text_views(Seq::<String>::empty()) =~= Seq::<Seq<char>>::empty());
            assert(row@ == stored_row(link@));
            lemma_save_wf(before, link@, p as int);
            lemma_insert_position_unique(before.links, link@.created_at, p as int);
            assert(self.store().links =~= before.after_save(link@).links);
        }
        Ok(stored)
    }

    fn find_all(&self, page_request: &PageRequest) -> (r: Result<PageResponse<Link>, Error>) {
        let total = crate::pagination::total_pages(self.links.len(), page_request.size);
        let content = clone_window(&self.links, page_request.index, page_request.size);
        Ok(PageResponse { content, total_pages: total })
    }

    fn find_by_id(&self, id: &Id) -> (r: Result<Option<Link>, Error>) {
        match self.position_of(id) {
            Some(i) => {
                proof {
                    let links = link_views(self.links@);
                    assert(links == self.store().links);
                    assert(links[i as int].id == id@);
                    assert(has_id(links, id@));
                    let q = position_of_id(links, id@);
                    assert(links[q].id == id@);
                    if q != i {
                        if q < i {
                            assert(links[q].id != links[i as int].id);
                        } else {
                            assert(links[i as int].id != links[q].id);
                        }
                    }
                }
                Ok(Some(self.links[i].clone()))
            },
            None => Ok(None),
        }
    }

    fn find_by_shortened_path(&self, shortened_path: &str) -> (r: Result<Option<Link>, Error>) {
        match self.active_position(shortened_path) {
            Some(i) => {
                let l = self.links[i].clone();
                proof {
                    assert(link_views(self.links@)[i as int] == l@);
                }
                Ok(Some(l))
            },
            None => Ok(None),
        }
    }

    fn find_by_tags(&self, tags: &Vec<String>, page_request: &PageRequest) -> (r: Result<PageResponse<Link>, Error>) {
        let ghost names = text_views(tags@);
        let ghost links = link_views(self.links@);
        let ghost pred = |l: LinkView| carries_all(l, names);
        if tags.len() == 0 {
            let r = PageResponse::empty();
            proof {
                assert(link_views(r.content@) =~= page_window(tagged(links, names), page_request.index as nat, page_request.size as nat));
            }
            return Ok(r);
        }
        let mut matched: Vec<Link> = Vec::new();
        let mut i: usize = 0;
        while i < self.links.len()
            invariant
                i <= self.links@.len(),
                links == link_views(self.links@),
                names == text_views(tags@),
                pred == (|l: LinkView| carries_all(l, names)),
                link_views(matched@) == links.subrange(0, i as int).filter(pred),
            decreases self.links@.len() - i,
        {
            proof {
                reveal(Seq::filter);
                assert(links.subrange(0, i as int + 1).drop_last() =~= links.subrange(0, i as int));
            }
            if carries_all_tags(&self.links[i], tags) {
                let l = self.links[i].clone();
                matched.push(l);
                proof {
                    assert(link_views(matched@) =~= links.subrange(0, i as int).filter(pred).push(links[i as int]));
                }
            }
            i = i + 1;
        }
        proof {
            assert(links.subrange(0, i as int) =~= links);
        }
        let total = crate::pagination::total_pages(matched.len(), page_request.size);
        let content = clone_window(&matched, page_request.index, page_request.size);
        Ok(PageResponse { content, total_pages: total })
    }

    fn update(&mut self, link: Link) -> (r: Result<Link, Error>) {
        let p = match self.position_of(&link.id) {
            Some(p) => p,
            None => {
                return Err(Error::LinkNotFound);
            },
        };
        let ghost before = self.store();
        proof {
            let q = position_of_id(before.links, link@.id);
            assert(before.links[p as int].id == link@.id);
            assert(has_id(before.links, link@.id));
            assert(before.links[q].id == link@.id);
            if q != p {
                if q < p {
                    assert(before.links[q].id != before.links[p as int].id);
                } else {
                    assert(before.links[p as int].id != before.links[q].id);
                }
            }
        }
        if link.is_active && self.path_shared_with_active(p) {
            return Err(Error::NonUniqueShortenedPath);
        }
        let mut row_tags: Vec<String> = Vec::new();
        add_missing_names(&mut row_tags, &link.tags);
        let old_row = self.links.remove(p);
        let row = Link {
            id: old_row.id,
            original_url: link.original_url.clone(),
            shortened_path: old_row.shortened_path,
            is_active: link.is_active,
            tags: row_tags,
            created_at: old_row.created_at,
            expires_at: link.expires_at,
        };
        add_missing_names(&mut self.tags, &link.tags);
        let stored = row.clone();
        self.links.insert(p, row);
        proof {
            assert(text_views(Seq::<String>::empty()) =~= Seq::<Seq<char>>::empty());
            assert(self.store().links =~= before.after_update(link@).links);
            lemma_update_wf(before, link@);
        }
        Ok(stored)
    }

    fn delete_by_id(&mut self, id: &Id) -> (r: Result<(), Error>) {
        let ghost before = self.store();
        let ghost pred = |l: LinkView| l.id != id@;
        let mut source: Vec<Link> = Vec::new();
        std::mem::swap(&mut self.links, &mut source);
        let ghost orig = source@;
        let count = source.len();
        proof {
            reveal(Seq::filter);
        }
        let mut i: usize = 0;
        while source.len() > 0
            invariant
                before.links == link_views(orig),
                before.tags == text_views(self.tags@),
                pred == (|l: LinkView| l.id != id@),
                i + source@.len() == orig.len(),
                orig.len() == count,
                source@ == orig.subrange(i as int, orig.len() as int),
                link_views(self.links@) == link_views(orig).subrange(0, i as int).filter(pred),
            decreases source@.len(),
        {
            let l = source.remove(0);
            proof {
                reveal(Seq::filter);
                assert(orig[i as int] == l);
                assert(link_views(orig).subrange(0, i as int + 1).drop_last() =~= link_views(orig).subrange(0, i as int));
            }
            if !(l.id == *id) {
                self.links.push(l);
                proof {
                    assert(link_views(self.links@) =~= link_views(orig).subrange(0, i as int).filter(pred).push(l@));
                }
            }
            i = i + 1;
        }
        proof {
            assert(link_views(orig).subrange(0, i as int) =~= link_views(orig));
            lemma_filter_links_wf(before, pred);
        }
        Ok(())
    }

    fn delete_expired(&mut self, now: i64) -> (r: Result<(), Error>) {
        let ghost before = self.store();
        let ghost pred = |l: LinkView| l.expires_at > now;
        let mut source: Vec<Link> = Vec::new();
        std::mem::swap(&mut self.links, &mut source);
        let ghost orig = source@;
        let count = source.len();
        proof {
            reveal(Seq::filter);
        }
        let mut i: usize = 0;
        while source.len() > 0
            invariant
                before.links == link_views(orig),
                before.tags == text_views(self.tags@),
                pred == (|l: LinkView| l.expires_at > now),
                i + source@.len() == orig.len(),
                orig.len() == count,
                source@ == orig.subrange(i as int, orig.len() as int),
                link_views(self.links@) == link_views(orig).subrange(0, i as int).filter(pred),
            decreases source@.len(),
        {
            let l = source.remove(0);
            proof {
                reveal(Seq::filter);
                assert(orig[i as int] == l);
                assert(link_views(orig).subrange(0, i as int + 1).drop_last() =~= link_views(orig).subrange(0, i as int));
            }
            if l.expires_at > now {
                self.links.push(l);
                proof {
                    assert(link_views(self.links@) =~= link_views(orig).subrange(0, i as int).filter(pred).push(l@));
                }
            }
            i = i + 1;
        }
        proof {
            assert(link_views(orig).subrange(0, i as int) =~= link_views(orig));
            lemma_filter_links_wf(before, pred);
        }
        Ok(())
    }

    fn delete_orphaned_tags(&mut self) -> (r: Result<(), Error>) {
        let ghost before = self.store();
        let ghost pred = |n: Seq<char>| tag_in_use(before.links, n);
        let mut source: Vec<String> = Vec::new();
        std::mem::swap(&mut self.tags, &mut source);
        let ghost orig = source@;
        let count = source.len();
        proof {
            reveal(Seq::filter);
        }
        let mut i: usize = 0;
        while source.len() > 0
            invariant
                before.links == link_views(self.links@),
                before.tags == text_views(orig),
                pred == (|n: Seq<char>| tag_in_use(before.links, n)),
                i + source@.len() == orig.len(),
                orig.len() == count,
                source@ == orig.subrange(i as int, orig.len() as int),
                text_views(self.tags@) == text_views(orig).subrange(0, i as int).filter(pred),
            decreases source@.len(),
        {
            let name = source.remove(0);
            proof {
                reveal(Seq::filter);
                assert(orig[i as int] == name);
                assert(text_views(orig).subrange(0, i as int + 1).drop_last() =~= text_views(orig).subrange(0, i as int));
            }
            if self.tag_used(&name) {
                self.tags.push(name);
                proof {
                    assert(text_views(self.tags@) =~= text_views(orig).subrange(0, i as int).filter(pred).push(name@));
                }
            }
            i = i + 1;
        }
        proof {
            assert(text_views(orig).subrange(0, i as int) =~= text_views(orig));
            lemma_orphan_cleanup_wf(before);
        }
        Ok(())
    }
}

} // verus!
