use crate::pagination::{page_count, page_window};
use crate::repository::{
    active_path_taken, carries_all, distinct_names, has_id, is_insert_position, lemma_update_wf,
    position_of_id, save_conflict, stored_row, tag_in_use, tagged, update_conflict, StoreView,
};
use crate::link::LinkView;
use vstd::prelude::*;

verus! {

proof fn lemma_insert_position_exists(links: Seq<LinkView>, at: i64) -> (p: int)
    ensures
        is_insert_position(links, at, p),
    decreases links.len(),
{
    if links.len() == 0 || links[0].created_at <= at {
        0
    } else {
        let q = lemma_insert_position_exists(links.drop_first(), at);
        assert forall|j: int| 0 <= j < q + 1 implies (#[trigger] links[j]).created_at > at by {
            if j > 0 {
                assert(links.drop_first()[j - 1] == links[j]);
            }
        }
        if q + 1 < links.len() {
            assert(links.drop_first()[q] == links[q + 1]);
        }
        q + 1
    }
}

proof fn lemma_filter_idempotent<A>(s: Seq<A>, pred: spec_fn(A) -> bool)
    ensures
        s.filter(pred).filter(pred) == s.filter(pred),
    decreases s.len(),
{
    reveal(Seq::filter);
    if s.len() > 0 {
        lemma_filter_idempotent(s.drop_last(), pred);
        let f = s.drop_last().filter(pred);
        if pred(s.last()) {
            assert(f.push(s.last()).drop_last() =~= f);
        }
    }
}

/// Once an active link is saved, saving another active link with the same path fails
/// with a uniqueness conflict.
pub proof fn lemma_active_path_stays_unique(s: StoreView, first: LinkView, second: LinkView)
    requires
        s.wf(),
        !save_conflict(s.links, first),
        first.is_active,
        second.is_active,
        second.shortened_path == first.shortened_path,
    ensures
        active_path_taken(s.after_save(first).links, second.shortened_path),
        save_conflict(s.after_save(first).links, second),
{
    let p = lemma_insert_position_exists(s.links, first.created_at);
    crate::repository::lemma_insert_position_unique(s.links, first.created_at, p);
    let links = s.after_save(first).links;
    assert(links[p] == stored_row(first));
    assert(active_path_taken(links, second.shortened_path));
}

/// Deactivating the only active link with a path frees the path: an active link with
/// that path and a fresh identifier can then be saved.
pub proof fn lemma_deactivation_frees_path(s: StoreView, deactivated: LinkView, second: LinkView)
    requires
        s.wf(),
        has_id(s.links, deactivated.id),
        s.links[position_of_id(s.links, deactivated.id)].is_active,
        !deactivated.is_active,
        second.shortened_path == s.links[position_of_id(s.links, deactivated.id)].shortened_path,
        !has_id(s.after_update(deactivated).links, second.id),
    ensures
        !update_conflict(s.links, deactivated),
        !save_conflict(s.after_update(deactivated).links, second),
{
    let p = position_of_id(s.links, deactivated.id);
    let links = s.after_update(deactivated).links;
    if active_path_taken(links, second.shortened_path) {
        let j = choose|j: int| 0 <= j < links.len() && (#[trigger] links[j]).is_active && links[j].shortened_path == second.shortened_path;
        assert(j != p);
        assert(links[j] == s.links[j]);
        if j < p {
            assert(s.links[j].shortened_path != s.links[p].shortened_path);
        } else {
            assert(s.links[p].shortened_path != s.links[j].shortened_path);
        }
    }
}

/// An update whose tag list is empty leaves the link with no tags: reading it back by
/// its identifier shows none.
pub proof fn lemma_empty_tags_clear(s: StoreView, link: LinkView)
    requires
        s.wf(),
        has_id(s.links, link.id),
        !update_conflict(s.links, link),
        link.tags.len() == 0,
    ensures
        has_id(s.after_update(link).links, link.id),
        s.after_update(link).links[position_of_id(s.after_update(link).links, link.id)].tags.len() == 0,
{
    lemma_update_wf(s, link);
    let p = position_of_id(s.links, link.id);
    let links = s.after_update(link).links;
    assert(links[p].id == link.id);
    let q = position_of_id(links, link.id);
    assert(links[q].id == link.id);
    if q != p {
        if q < p {
            assert(links[q].id != links[p].id);
        } else {
            assert(links[p].id != links[q].id);
        }
    }
    assert(link.tags =~= link.tags.drop_last() || link.tags.len() == 0);
    assert(distinct_names(link.tags) == Seq::<Seq<char>>::empty());
}

/// A tag search finds exactly the links that carry every tag asked for: each link of any
/// page of it carries them all, and every link of the store that carries them all is
/// among its results.
pub proof fn lemma_tag_search_is_intersection(links: Seq<LinkView>, names: Seq<Seq<char>>, index: nat, size: nat)
    ensures
        forall|k: int| 0 <= k < page_window(tagged(links, names), index, size).len() ==> carries_all(
            #[trigger] page_window(tagged(links, names), index, size)[k],
            names,
        ),
        forall|k: int| 0 <= k < tagged(links, names).len() ==> links.contains(#[trigger] tagged(links, names)[k]),
        names.len() > 0 ==> forall|i: int| 0 <= i < links.len() && carries_all(#[trigger] links[i], names) ==> tagged(links, names).contains(links[i]),
{
    let pred = |l: LinkView| carries_all(l, names);
    let t = tagged(links, names);
    let w = page_window(t, index, size);
    if names.len() > 0 {
        assert forall|k: int| 0 <= k < t.len() implies carries_all(#[trigger] t[k], names) by {
            links.lemma_filter_pred(pred, k);
        }
        let idx = crate::repository::lemma_filter_positions(links, pred);
        assert forall|k: int| 0 <= k < t.len() implies links.contains(#[trigger] t[k]) by {
            assert(links[idx[k]] == t[k]);
        }
        assert forall|i: int| 0 <= i < links.len() && carries_all(#[trigger] links[i], names) implies t.contains(links[i]) by {
            links.lemma_filter_contains(pred, i);
        }
    }
    let start = if index * size <= t.len() { (index * size) as int } else { t.len() as int };
    assert forall|k: int| 0 <= k < w.len() implies carries_all(#[trigger] w[k], names) by {
        assert(w[k] == t[start + k]);
    }
}

/// Paging: there are as many pages as the ceiling of rows over page size, every page
/// before the last is full, and the last holds the rest.
pub proof fn lemma_page_sizes<A>(s: Seq<A>, index: nat, size: nat)
    requires
        size > 0,
    ensures
        page_count(s.len(), size) * size >= s.len(),
        page_count(s.len(), size) * size < s.len() + size,
        index < page_count(s.len(), size) ==> page_window(s, index, size).len() == if (index + 1) * size <= s.len() {
            size as int
        } else {
            s.len() - index * size
        },
        index >= page_count(s.len(), size) ==> page_window(s, index, size).len() == 0,
{
    let n = s.len();
    let c = page_count(n, size);
    assert(c * size >= n && c * size < n + size) by (nonlinear_arith)
        requires
            size > 0,
            c == if n % size == 0 { n / size } else { n / size + 1 },
    {
        assert(n == (n / size) * size + n % size);
    }
    if index < c {
        assert(index * size < n) by (nonlinear_arith)
            requires
                index < c,
                c * size < n + size,
                size > 0,
        {
            assert(index + 1 <= c);
            assert((index + 1) * size <= c * size);
        }
        assert((index + 1) * size == index * size + size) by (nonlinear_arith);
    } else {
        assert(index * size >= n) by (nonlinear_arith)
            requires
                index >= c,
                c * size >= n,
                size > 0,
        ;
    }
}

/// The expiry sweep leaves no link that has expired by its instant; the orphan sweep
/// that follows leaves only tags that some link carries; and a second pass of both
/// changes nothing.
pub proof fn lemma_cleanup_is_idempotent(s: StoreView, now: i64)
    ensures
        forall|i: int| 0 <= i < s.after_expiry(now).links.len() ==> (#[trigger] s.after_expiry(now).links[i]).expires_at > now,
        forall|k: int| 0 <= k < s.after_expiry(now).after_orphan_cleanup().tags.len() ==> tag_in_use(
            s.after_expiry(now).links,
            #[trigger] s.after_expiry(now).after_orphan_cleanup().tags[k],
        ),
        s.after_expiry(now).after_orphan_cleanup().after_expiry(now).after_orphan_cleanup() == s.after_expiry(now).after_orphan_cleanup(),
{
    let e = s.after_expiry(now);
    let c = e.after_orphan_cleanup();
    let lp = |l: LinkView| l.expires_at > now;
    let tp = |n: Seq<char>| tag_in_use(e.links, n);
    assert forall|i: int| 0 <= i < e.links.len() implies (#[trigger] e.links[i]).expires_at > now by {
        s.links.lemma_filter_pred(lp, i);
    }
    assert forall|k: int| 0 <= k < c.tags.len() implies tag_in_use(e.links, #[trigger] c.tags[k]) by {
        e.tags.lemma_filter_pred(tp, k);
    }
    lemma_filter_idempotent(s.links, lp);
    lemma_filter_idempotent(e.tags, tp);
    assert(c.after_expiry(now).links == c.links);
    assert(c.after_expiry(now).after_orphan_cleanup().tags == c.tags);
}

} // verus!
