use exchange_pipeline::urls::api_listing_url;
use exchange_pipeline::urls::api_post_url;
use exchange_pipeline::urls::api_profile_url;
use exchange_pipeline::urls::artist_page_url;
use exchange_pipeline::urls::file_data_url;
use exchange_pipeline::urls::parse_post_url;
use exchange_pipeline::urls::post_page_url;
use exchange_pipeline::urls::UrlError;

#[test]
fn parses_a_kemono_post_url() {
    let p = parse_post_url("https://kemono.cr/patreon/user/82530106/post/128244687").unwrap();
    assert_eq!(p.domain, "kemono.cr");
    assert_eq!(p.service, "patreon");
    assert_eq!(p.user_id, "82530106");
    assert_eq!(p.post_id, "128244687");
}

#[test]
fn parses_a_coomer_post_url() {
    let p = parse_post_url("https://coomer.st/onlyfans/user/12345/post/67890").unwrap();
    assert_eq!(p.domain, "coomer.st");
    assert_eq!(p.service, "onlyfans");
    assert_eq!(p.user_id, "12345");
    assert_eq!(p.post_id, "67890");
}

#[test]
fn tolerates_trailing_slashes() {
    let p = parse_post_url("https://coomer.st/onlyfans/user/12345/post/67890//").unwrap();
    assert_eq!(p.post_id, "67890");
}

#[test]
fn rejects_an_unknown_host() {
    let e = parse_post_url("https://other.example/patreon/user/1/post/2").unwrap_err();
    assert_eq!(e, UrlError::UnknownHost);
    assert_eq!(
        e.message(),
        "Invalid URL format. Must be kemono.cr or coomer.st"
    );
}

#[test]
fn rejects_a_short_path() {
    let e = parse_post_url("https://kemono.cr/patreon/user/1").unwrap_err();
    assert_eq!(e, UrlError::BadShape);
    assert_eq!(e.message(), "Invalid URL format.");
}

#[test]
fn rejects_wrong_path_keywords() {
    let e = parse_post_url("https://kemono.cr/patreon/member/1/post/2").unwrap_err();
    assert_eq!(e, UrlError::BadShape);
    let e = parse_post_url("https://kemono.cr/patreon/user/1/item/2").unwrap_err();
    assert_eq!(e, UrlError::BadShape);
}

#[test]
fn builds_the_api_urls() {
    assert_eq!(
        api_post_url("kemono.cr", "patreon", "82530106", "128244687"),
        "https://kemono.cr/api/v1/patreon/user/82530106/post/128244687"
    );
    assert_eq!(
        api_profile_url("kemono.cr", "patreon", "82530106"),
        "https://kemono.cr/api/v1/patreon/user/82530106/profile"
    );
    assert_eq!(
        api_listing_url("coomer.st", "onlyfans", "12345"),
        "https://coomer.st/api/v1/onlyfans/user/12345"
    );
}

#[test]
fn builds_the_page_urls() {
    assert_eq!(
        artist_page_url("kemono.cr", "patreon", "82530106"),
        "https://kemono.cr/patreon/user/82530106"
    );
    assert_eq!(
        post_page_url("kemono.cr", "patreon", "82530106", "128244687"),
        "https://kemono.cr/patreon/user/82530106/post/128244687"
    );
    assert_eq!(
        file_data_url("kemono.cr", "/aa/bb/cc.png"),
        "https://kemono.cr/data/aa/bb/cc.png"
    );
}

#[test]
fn a_built_page_url_parses_back() {
    let url = post_page_url("coomer.st", "fansly", "u77", "p88");
    let p = parse_post_url(&url).unwrap();
    assert_eq!(p.domain, "coomer.st");
    assert_eq!(p.service, "fansly");
    assert_eq!(p.user_id, "u77");
    assert_eq!(p.post_id, "p88");
}
