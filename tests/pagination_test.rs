use link_shortener::pagination::{total_pages, PageRequest, PageResponse};

#[test]
fn offset_is_index_times_size() {
    assert_eq!(PageRequest { index: 2, size: 10 }.offset(), 20);
    assert_eq!(PageRequest { index: 0, size: 10 }.offset(), 0);
}

#[test]
fn total_pages_is_ceiling() {
    assert_eq!(total_pages(25, 10), 3);
    assert_eq!(total_pages(30, 10), 3);
    assert_eq!(total_pages(0, 10), 0);
    assert_eq!(total_pages(1, 10), 1);
    assert_eq!(total_pages(usize::MAX, 2), usize::MAX / 2 + 1);
}

#[test]
fn empty_page() {
    let page: PageResponse<u8> = PageResponse::empty();
    assert!(page.content.is_empty());
    assert_eq!(page.total_pages, 0);
}

#[test]
fn map_keeps_order_and_pages() {
    let page = PageResponse { content: vec![1, 2, 3], total_pages: 7 };
    let mapped = page.map(|x: i32| x * 10);
    assert_eq!(mapped.content, vec![10, 20, 30]);
    assert_eq!(mapped.total_pages, 7);
}
