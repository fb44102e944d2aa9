use vstd::prelude::*;

verus! {

/// A request for the page `index` (counted from zero) of pages of `size` rows.
#[derive(Debug, Clone, Copy, PartialEq, Eq, Structural)]
pub struct PageRequest {
    pub index: usize,
    pub size: usize,
}

impl PageRequest {
    /// A request that can be served: pages are not empty and the first row of the
    /// page has an index that fits in `usize`.
    pub open spec fn valid(&self) -> bool {
        self.size > 0 && self.index * self.size <= usize::MAX
    }

    /// The number of rows before the requested page.
    pub fn offset(&self) -> (r: usize)
        requires
            self.index * self.size <= usize::MAX,
        ensures
            r == self.index * self.size,
    {
        self.index * self.size
    }
}

/// One page of an ordered result and the number of pages of the whole result.
#[derive(Debug)]
pub struct PageResponse<T> {
    pub content: Vec<T>,
    pub total_pages: usize,
}

/// The number of pages of `size` rows that `rows` rows fill: the ceiling of their
/// quotient.
pub open spec fn page_count(rows: nat, size: nat) -> nat
    recommends
        size > 0,
{
    if rows % size == 0 {
        rows / size
    } else {
        rows / size + 1
    }
}

/// The page `index` of pages of `size` elements of `s`: the elements from
/// `index * size` up to the next page, cut at the end of `s`.
pub open spec fn page_window<A>(s: Seq<A>, index: nat, size: nat) -> Seq<A> {
    let start = index * size;
    let end = start + size;
    s.subrange(
        if start <= s.len() { start as int } else { s.len() as int },
        if end <= s.len() { end as int } else { s.len() as int },
    )
}

/// The number of pages of `page_size` rows that `total_rows` rows fill.
pub fn total_pages(total_rows: usize, page_size: usize) -> (r: usize)
    requires
        page_size > 0,
    ensures
        r == page_count(total_rows as nat, page_size as nat),
{
    if total_rows % page_size == 0 {
        total_rows / page_size
    } else {
        assert(total_rows / page_size < total_rows) by (nonlinear_arith)
            requires
                page_size > 0,
                total_rows % page_size != 0,
        ;
        total_rows / page_size + 1
    }
}

impl<T> PageResponse<T> {
    /// A page without content, of a result without pages.
    pub fn empty() -> (r: Self)
        ensures
            r.content@.len() == 0,
            r.total_pages == 0,
    {
        PageResponse { content: Vec::new(), total_pages: 0 }
    }

    /// The same page with each element passed through `mapper`, in order.
    pub fn map<U>(self, mapper: impl Fn(T) -> U) -> (r: PageResponse<U>)
        requires
            forall|i: int| 0 <= i < self.content@.len() ==> mapper.requires((#[trigger] self.content@[i],)),
        ensures
            r.total_pages == self.total_pages,
            r.content@.len() == self.content@.len(),
            forall|i: int| 0 <= i < r.content@.len() ==> mapper.ensures((self.content@[i],), #[trigger] r.content@[i]),
    {
        let ghost original = self.content@;
        let mut rest = self.content;
        let mut content: Vec<U> = Vec::new();
        while rest.len() > 0
            invariant
                content@.len() + rest@.len() == original.len(),
                rest@ == original.subrange(content@.len() as int, original.len() as int),
                forall|i: int| 0 <= i < original.len() ==> mapper.requires((#[trigger] original[i],)),
                forall|i: int| 0 <= i < content@.len() ==> mapper.ensures((original[i],), #[trigger] content@[i]),
            decreases rest@.len(),
        {
            let item = rest.remove(0);
            proof {
                assert(original[content@.len() as int] == item);
            }
            let mapped = mapper(item);
            content.push(mapped);
        }
        PageResponse { content, total_pages: self.total_pages }
    }
}

} // verus!
