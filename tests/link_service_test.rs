use link_shortener::generators::Error as GenError;
use link_shortener::id::Id;
use link_shortener::link::{Error, Link, LinkPatch};
use link_shortener::pagination::PageRequest;
use link_shortener::repository::{LinkRepository, MemoryLinkRepository};
use link_shortener::service::{
    create_link, create_link_with_generated_path, delete_expired_links, delete_link, delete_orphaned_tags,
    find_link_by_shortened_path, find_links, find_links_by_tags, update_link, CharSet,
};

const HOUR: i64 = 3_600_000_000;

fn now() -> i64 {
    chrono::Utc::now().timestamp_micros()
}

fn create(repo: &mut MemoryLinkRepository, path: &str, active: bool, expires_at: i64) -> Link {
    create_link("https://example.com/".to_string(), path.to_string(), active, expires_at, repo).unwrap()
}

fn tag(repo: &mut MemoryLinkRepository, link: &Link, tags: &[&str]) -> Link {
    let patch = LinkPatch {
        original_url: None,
        is_active: None,
        tags: tags.iter().map(|t| t.to_string()).collect(),
        expires_at: None,
    };
    update_link(&link.id, &patch, repo).unwrap()
}

fn paths(links: &[Link]) -> Vec<String> {
    links.iter().map(|l| l.shortened_path.clone()).collect()
}

fn names(tags: &[&str]) -> Vec<String> {
    tags.iter().map(|t| t.to_string()).collect()
}

#[test]
fn second_active_link_with_same_path_is_rejected() {
    let mut repo = MemoryLinkRepository::new();
    create(&mut repo, "same", true, now() + HOUR);
    let second = create_link("https://other.org/".to_string(), "same".to_string(), true, now() + HOUR, &mut repo);
    assert!(matches!(second, Err(Error::NonUniqueShortenedPath)));
}

#[test]
fn deactivated_link_frees_its_path() {
    let mut repo = MemoryLinkRepository::new();
    let first = create(&mut repo, "same", true, now() + HOUR);
    let patch = LinkPatch { original_url: None, is_active: Some(false), tags: vec![], expires_at: None };
    let updated = update_link(&first.id, &patch, &mut repo).unwrap();
    assert!(!updated.is_active);
    let second = create_link("https://other.org/".to_string(), "same".to_string(), true, now() + HOUR, &mut repo);
    assert!(second.is_ok());
    let found = find_link_by_shortened_path("same", &repo).unwrap().unwrap();
    assert_eq!(found.original_url, "https://other.org/");
}

#[test]
fn inactive_links_may_share_a_path() {
    let mut repo = MemoryLinkRepository::new();
    create(&mut repo, "p", false, now() + HOUR);
    create(&mut repo, "p", false, now() + HOUR);
    create(&mut repo, "p", true, now() + HOUR);
    let all = find_links(&PageRequest { index: 0, size: 10 }, &repo).unwrap();
    assert_eq!(all.content.len(), 3);
}

#[test]
fn update_with_empty_tags_clears_tags() {
    let mut repo = MemoryLinkRepository::new();
    let link = create(&mut repo, "abc", true, now() + HOUR);
    tag(&mut repo, &link, &["a", "b"]);
    assert_eq!(repo.find_by_id(&link.id).unwrap().unwrap().tags, names(&["a", "b"]));
    tag(&mut repo, &link, &[]);
    assert!(repo.find_by_id(&link.id).unwrap().unwrap().tags.is_empty());
}

#[test]
fn update_lowercases_tags_and_keeps_absent_fields() {
    let mut repo = MemoryLinkRepository::new();
    let link = create(&mut repo, "abc", true, 42);
    let patch = LinkPatch {
        original_url: Some("https://new.example/".to_string()),
        is_active: None,
        tags: names(&["News", "TECH", "news"]),
        expires_at: None,
    };
    let updated = update_link(&link.id, &patch, &mut repo).unwrap();
    assert_eq!(updated.tags, names(&["news", "tech"]));
    let stored = repo.find_by_id(&link.id).unwrap().unwrap();
    assert_eq!(stored.tags, names(&["news", "tech"]));
    assert_eq!(stored.original_url, "https://new.example/");
    assert_eq!(stored.shortened_path, "abc");
    assert!(stored.is_active);
    assert_eq!(stored.expires_at, 42);
    assert_eq!(stored.created_at, link.created_at);
}

#[test]
fn update_of_missing_link_fails() {
    let mut repo = MemoryLinkRepository::new();
    let patch = LinkPatch { original_url: None, is_active: None, tags: vec![], expires_at: None };
    let r = update_link(&Id::from("missing".to_string()), &patch, &mut repo);
    assert!(matches!(r, Err(Error::LinkNotFound)));
}

#[test]
fn activating_a_link_whose_path_is_taken_fails() {
    let mut repo = MemoryLinkRepository::new();
    let inactive = create(&mut repo, "p", false, now() + HOUR);
    create(&mut repo, "p", true, now() + HOUR);
    let patch = LinkPatch { original_url: None, is_active: Some(true), tags: vec![], expires_at: None };
    let r = update_link(&inactive.id, &patch, &mut repo);
    assert!(matches!(r, Err(Error::NonUniqueShortenedPath)));
    assert!(!repo.find_by_id(&inactive.id).unwrap().unwrap().is_active);
}

#[test]
fn tag_search_requires_every_tag() {
    let mut repo = MemoryLinkRepository::new();
    let both = create(&mut repo, "both", true, now() + HOUR);
    let only_a = create(&mut repo, "only-a", true, now() + HOUR);
    let only_b = create(&mut repo, "only-b", true, now() + HOUR);
    tag(&mut repo, &both, &["a", "b"]);
    tag(&mut repo, &only_a, &["a"]);
    tag(&mut repo, &only_b, &["b"]);
    let page = find_links_by_tags(&names(&["a", "b"]), &PageRequest { index: 0, size: 10 }, &repo).unwrap();
    assert_eq!(paths(&page.content), vec!["both".to_string()]);
    assert_eq!(page.total_pages, 1);
    let page = find_links_by_tags(&names(&["a"]), &PageRequest { index: 0, size: 10 }, &repo).unwrap();
    assert_eq!(page.content.len(), 2);
}

#[test]
fn tag_search_without_match_is_empty() {
    let mut repo = MemoryLinkRepository::new();
    let link = create(&mut repo, "x", true, now() + HOUR);
    tag(&mut repo, &link, &["a"]);
    let page = find_links_by_tags(&names(&["zzz"]), &PageRequest { index: 0, size: 10 }, &repo).unwrap();
    assert!(page.content.is_empty());
    assert_eq!(page.total_pages, 0);
    let page = find_links_by_tags(&vec![], &PageRequest { index: 0, size: 10 }, &repo).unwrap();
    assert!(page.content.is_empty());
    assert_eq!(page.total_pages, 0);
}

#[test]
fn pagination_of_25_links() {
    let mut repo = MemoryLinkRepository::new();
    for i in 0..25 {
        create(&mut repo, &format!("p{i}"), true, now() + HOUR);
    }
    let first = find_links(&PageRequest { index: 0, size: 10 }, &repo).unwrap();
    assert_eq!(first.total_pages, 3);
    assert_eq!(first.content.len(), 10);
    let last = find_links(&PageRequest { index: 2, size: 10 }, &repo).unwrap();
    assert_eq!(last.total_pages, 3);
    assert_eq!(last.content.len(), 5);
    assert_eq!(paths(&last.content), vec!["p4", "p3", "p2", "p1", "p0"]);
    let beyond = find_links(&PageRequest { index: 3, size: 10 }, &repo).unwrap();
    assert!(beyond.content.is_empty());
}

#[test]
fn links_are_listed_newest_first() {
    let mut repo = MemoryLinkRepository::new();
    for (path, created_at) in [("mid", 20), ("old", 10), ("new", 30)] {
        let link = Link {
            id: Id::new(),
            original_url: "https://example.com/".to_string(),
            shortened_path: path.to_string(),
            is_active: true,
            tags: vec![],
            created_at,
            expires_at: now() + HOUR,
        };
        repo.save(link).unwrap();
    }
    let page = find_links(&PageRequest { index: 0, size: 10 }, &repo).unwrap();
    assert_eq!(paths(&page.content), vec!["new", "mid", "old"]);
}

#[test]
fn saving_a_taken_id_fails() {
    let mut repo = MemoryLinkRepository::new();
    let first = create(&mut repo, "a", true, now() + HOUR);
    let copy = Link { shortened_path: "b".to_string(), ..first.clone() };
    assert!(matches!(repo.save(copy), Err(Error::NonUniqueShortenedPath)));
}

#[test]
fn expired_links_and_orphaned_tags_are_removed() {
    let mut repo = MemoryLinkRepository::new();
    let expired = create(&mut repo, "expired", true, now() - HOUR);
    let live = create(&mut repo, "live", true, now() + HOUR);
    tag(&mut repo, &expired, &["old", "shared"]);
    tag(&mut repo, &live, &["shared"]);
    assert_eq!(repo.tag_names(), names(&["old", "shared"]));
    delete_expired_links(now(), &mut repo).unwrap();
    let all = find_links(&PageRequest { index: 0, size: 10 }, &repo).unwrap();
    assert_eq!(paths(&all.content), vec!["live"]);
    assert!(all.content.iter().all(|l| l.expires_at > now()));
    delete_orphaned_tags(&mut repo).unwrap();
    assert_eq!(repo.tag_names(), names(&["shared"]));
    delete_expired_links(now(), &mut repo).unwrap();
    delete_orphaned_tags(&mut repo).unwrap();
    assert_eq!(repo.tag_names(), names(&["shared"]));
    assert_eq!(find_links(&PageRequest { index: 0, size: 10 }, &repo).unwrap().content.len(), 1);
}

#[test]
fn find_by_path_ignores_inactive_links() {
    let mut repo = MemoryLinkRepository::new();
    create(&mut repo, "hidden", false, now() + HOUR);
    assert!(find_link_by_shortened_path("hidden", &repo).unwrap().is_none());
    create(&mut repo, "shown", true, now() + HOUR);
    let found = find_link_by_shortened_path("shown", &repo).unwrap().unwrap();
    assert!(found.is_active);
    assert!(find_link_by_shortened_path("missing", &repo).unwrap().is_none());
}

#[test]
fn delete_link_removes_it_and_is_idempotent() {
    let mut repo = MemoryLinkRepository::new();
    let link = create(&mut repo, "gone", true, now() + HOUR);
    delete_link(&link.id, &mut repo).unwrap();
    assert!(repo.find_by_id(&link.id).unwrap().is_none());
    assert!(delete_link(&link.id, &mut repo).is_ok());
}

#[test]
fn scenario_news_and_tech() {
    let mut repo = MemoryLinkRepository::new();
    let a = create_link("https://a.example/".to_string(), "abc123".to_string(), true, now() + HOUR, &mut repo).unwrap();
    tag(&mut repo, &a, &["news", "tech"]);
    let b = create_link("https://b.example/".to_string(), "xyz789".to_string(), true, now() + HOUR, &mut repo).unwrap();
    tag(&mut repo, &b, &["tech"]);
    let tech = find_links_by_tags(&names(&["tech"]), &PageRequest { index: 0, size: 10 }, &repo).unwrap();
    assert_eq!(paths(&tech.content), vec!["xyz789", "abc123"]);
    let both = find_links_by_tags(&names(&["news", "tech"]), &PageRequest { index: 0, size: 10 }, &repo).unwrap();
    assert_eq!(paths(&both.content), vec!["abc123"]);
    assert!(both.content[0].id == a.id);
}

#[test]
fn generated_path_uses_char_set() {
    let mut repo = MemoryLinkRepository::new();
    let link = create_link_with_generated_path("https://example.com/".to_string(), CharSet::Digits, 6, true, now() + HOUR, &mut repo).unwrap();
    assert_eq!(link.shortened_path.len(), 6);
    assert!(link.shortened_path.chars().all(|c| c.is_ascii_digit()));
    let link = create_link_with_generated_path("https://example.com/".to_string(), CharSet::Letters, 30, true, now() + HOUR, &mut repo).unwrap();
    assert!(link.shortened_path.chars().all(|c| c.is_ascii_uppercase()));
}

#[test]
fn generated_path_of_length_zero_fails() {
    let mut repo = MemoryLinkRepository::new();
    let r = create_link_with_generated_path("https://example.com/".to_string(), CharSet::LettersAndDigits, 0, true, now() + HOUR, &mut repo);
    assert!(matches!(r, Err(Error::InvalidShortenedPathLength)));
    assert!(find_links(&PageRequest { index: 0, size: 10 }, &repo).unwrap().content.is_empty());
}

#[test]
fn char_set_elements() {
    let letters: Vec<char> = ('A'..='Z').collect();
    let digits: Vec<char> = ('0'..='9').collect();
    assert_eq!(CharSet::Letters.elements(), letters);
    assert_eq!(CharSet::Digits.elements(), digits);
    let both: Vec<char> = letters.iter().chain(digits.iter()).cloned().collect();
    assert_eq!(CharSet::LettersAndDigits.elements(), both);
}

#[test]
fn char_set_from_name() {
    assert_eq!(CharSet::from_name("Letters"), Ok(CharSet::Letters));
    assert_eq!(CharSet::try_from("Digits".to_string()), Ok(CharSet::Digits));
    assert_eq!(CharSet::from_name("LettersAndDigits"), Ok(CharSet::LettersAndDigits));
    assert_eq!(CharSet::from_name("letters"), Err(Error::InvalidCharSet));
    assert_eq!(CharSet::from_name(""), Err(Error::InvalidCharSet));
}

#[test]
fn generator_errors_map_to_service_errors() {
    assert_eq!(Error::from(GenError::InvalidLength), Error::InvalidShortenedPathLength);
    assert_eq!(Error::from(GenError::InvalidCharSet), Error::InvalidCharSet);
    assert_eq!(Error::from(GenError::InvalidData), Error::GeneratingQrCodeFailed);
    assert_eq!(Error::from(GenError::RenderingFailed), Error::GeneratingQrCodeFailed);
}

#[test]
fn id_round_trip() {
    let id = Id::from("0190abcdef".to_string());
    assert_eq!(id.to_str(), "0190abcdef");
}

#[test]
fn update_returns_tags_without_repeats() {
    let mut repo = MemoryLinkRepository::new();
    let link = create(&mut repo, "dup", true, now() + HOUR);
    let updated = tag(&mut repo, &link, &["A", "a", "b", "A"]);
    assert_eq!(updated.tags, names(&["a", "b"]));
}

#[test]
fn new_link_has_fresh_id_and_no_tags() {
    let a = Link::new("https://example.com/".to_string(), "p".to_string(), true, 5);
    let b = Link::new("https://example.com/".to_string(), "p".to_string(), true, 5);
    assert!(a.id != b.id);
    assert_eq!(a.id.to_str().len(), 32);
    assert!(a.tags.is_empty());
    assert_eq!(a.expires_at, 5);
    assert!(a.id.clone() == a.id);
}
