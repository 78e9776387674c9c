use shorty::encoder::encode;
use shorty::errors::ShortyError;
use shorty::service::UrlService;

#[test]
fn store_then_resolve() {
    let mut svc = UrlService::new();
    let token = svc.store(String::from("https://example.com")).unwrap();
    let url = svc.resolve(&token).unwrap();
    assert_eq!(url, Some(String::from("https://example.com")));
}

#[test]
fn duplicate_store_gives_distinct_tokens() {
    let mut svc = UrlService::new();
    let t1 = svc.store(String::from("https://example.com")).unwrap();
    let t2 = svc.store(String::from("https://example.com")).unwrap();
    assert_ne!(t1, t2);
    assert_eq!(
        svc.resolve(&t1).unwrap(),
        Some(String::from("https://example.com"))
    );
    assert_eq!(
        svc.resolve(&t2).unwrap(),
        Some(String::from("https://example.com"))
    );
}

#[test]
fn malformed_token_is_distinct_from_absent() {
    let mut svc = UrlService::new();
    svc.store(String::from("https://example.com")).unwrap();
    // A malformed token is a client error.
    assert_eq!(svc.resolve("has space!"), Err(ShortyError::InvalidToken));
    // A well-formed token with no record is an empty result, not an error.
    assert_eq!(svc.resolve(&encode(999999)), Ok(None));
}

#[test]
fn resolve_on_empty_store_is_absent() {
    let svc = UrlService::new();
    assert_eq!(svc.resolve("A"), Ok(None));
}

#[test]
fn identifiers_are_issued_in_insertion_order() {
    let mut svc = UrlService::new();
    let mut tokens = Vec::new();
    for i in 0..10i64 {
        let url = format!("https://example.com/{i}");
        tokens.push(svc.store(url).unwrap());
    }
    for (i, token) in tokens.iter().enumerate() {
        assert_eq!(token, &encode(i as i64));
        let expected = format!("https://example.com/{i}");
        assert_eq!(svc.resolve(token).unwrap(), Some(expected));
    }
}
