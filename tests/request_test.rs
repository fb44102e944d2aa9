use link_shortener::link::{storage_error, Error, Link, LinkPatch};
use link_shortener::pagination::PageRequest;
use link_shortener::request::{
    choose_path, CreateLinkRequest, CreateLinkRequestParams, CreateLinksResponse, ErrorBody, FindLinksRequestParams,
    PathChoice, RequestError, UpdateLinkRequest,
};
use link_shortener::service::{generate_shortened_path, CharSet};

fn request(path: Option<&str>) -> CreateLinkRequest {
    CreateLinkRequest {
        original_url: "https://example.com/".to_string(),
        shortened_path: path.map(|p| p.to_string()),
        is_active: None,
        expires_at: 0,
    }
}

fn params(char_set: Option<&str>, length: Option<usize>) -> CreateLinkRequestParams {
    CreateLinkRequestParams { char_set: char_set.map(|c| c.to_string()), length }
}

#[test]
fn given_path_is_kept_up_to_thirty_characters() {
    let path = "a".repeat(30);
    match choose_path(&request(Some(&path)), &params(None, None)) {
        Ok(PathChoice::Given(p)) => assert_eq!(p, path),
        other => panic!("unexpected {:?}", other),
    }
    assert!(matches!(choose_path(&request(Some("")), &params(None, None)), Err(RequestError::EmptyShortenedPath)));
    let long = "a".repeat(31);
    assert!(matches!(choose_path(&request(Some(&long)), &params(None, None)), Err(RequestError::ShortenedPathTooLong)));
}

#[test]
fn generated_path_defaults() {
    match choose_path(&request(None), &params(None, None)) {
        Ok(PathChoice::Generated(CharSet::Digits, 6)) => {},
        other => panic!("unexpected {:?}", other),
    }
    match choose_path(&request(None), &params(Some("Letters"), Some(12))) {
        Ok(PathChoice::Generated(CharSet::Letters, 12)) => {},
        other => panic!("unexpected {:?}", other),
    }
    match choose_path(&request(None), &params(Some("bogus"), Some(30))) {
        Ok(PathChoice::Generated(CharSet::Digits, 30)) => {},
        other => panic!("unexpected {:?}", other),
    }
    assert!(matches!(choose_path(&request(None), &params(None, Some(31))), Err(RequestError::ShortenedPathTooLong)));
}

#[test]
fn created_link_is_active_by_default() {
    assert!(request(None).active());
    let inactive = CreateLinkRequest { is_active: Some(false), ..request(None) };
    assert!(!inactive.active());
}

#[test]
fn page_request_defaults_and_limits() {
    let p = FindLinksRequestParams { page_number: None, page_size: None, tags: None };
    assert_eq!(p.page_request(), Ok(PageRequest { index: 0, size: 10 }));
    assert!(!p.has_tags());
    let p = FindLinksRequestParams { page_number: Some(3), page_size: Some(5), tags: Some(vec!["a".to_string()]) };
    assert_eq!(p.page_request(), Ok(PageRequest { index: 3, size: 5 }));
    assert!(p.has_tags());
    let p = FindLinksRequestParams { page_number: None, page_size: Some(0), tags: Some(vec![]) };
    assert_eq!(p.page_request(), Err(RequestError::InvalidPage));
    assert!(!p.has_tags());
    let p = FindLinksRequestParams { page_number: Some(usize::MAX), page_size: Some(2), tags: None };
    assert_eq!(p.page_request(), Err(RequestError::InvalidPage));
}

#[test]
fn update_request_tags_are_limited() {
    let tags: Vec<String> = (0..16).map(|i| format!("t{i}")).collect();
    let ok = UpdateLinkRequest { original_url: None, is_active: Some(true), tags: Some(tags.clone()), expires_at: Some(9) };
    let patch = ok.into_patch().unwrap();
    assert_eq!(patch.tags, tags);
    assert_eq!(patch.is_active, Some(true));
    assert_eq!(patch.expires_at, Some(9));
    let mut too_many = tags.clone();
    too_many.push("x".to_string());
    let refused = UpdateLinkRequest { original_url: None, is_active: None, tags: Some(too_many), expires_at: None };
    assert!(matches!(refused.into_patch(), Err(RequestError::TooManyTags)));
    let empty = UpdateLinkRequest { original_url: None, is_active: None, tags: None, expires_at: None };
    assert!(empty.into_patch().unwrap().tags.is_empty());
}

#[test]
fn patch_apply_overwrites_present_fields() {
    let link = Link::new("https://a.example/".to_string(), "p".to_string(), true, 7);
    let patch = LinkPatch {
        original_url: None,
        is_active: Some(false),
        tags: vec!["MiXeD".to_string(), "ÄRGER".to_string()],
        expires_at: Some(99),
    };
    let patched = patch.apply(link);
    assert_eq!(patched.original_url, "https://a.example/");
    assert!(!patched.is_active);
    assert_eq!(patched.expires_at, 99);
    assert_eq!(patched.tags, vec!["mixed".to_string(), "ärger".to_string()]);
}

#[test]
fn shortened_path_generation() {
    let p = generate_shortened_path(CharSet::LettersAndDigits, 8).unwrap();
    assert_eq!(p.len(), 8);
    assert!(p.chars().all(|c| c.is_ascii_uppercase() || c.is_ascii_digit()));
    assert_eq!(generate_shortened_path(CharSet::Letters, 0), Err(Error::InvalidShortenedPathLength));
}

#[test]
fn storage_errors() {
    assert_eq!(storage_error(true), Error::NonUniqueShortenedPath);
    assert_eq!(storage_error(false), Error::DataAccessError);
}

#[test]
fn response_bodies() {
    assert_eq!(ErrorBody::new("Too many tags").message, "Too many tags");
    let r = CreateLinksResponse { shortened_path: "abc".to_string() };
    assert_eq!(r.shortened_path, "abc");
}
