use exchange_pipeline::sentinel::links_dir_path;
use exchange_pipeline::sentinel::process_sentinel;
use exchange_pipeline::sentinel::sentinel_file_name;
use exchange_pipeline::sentinel::SentinelVerdict;

#[test]
fn empty_sentinel_is_discarded_and_deleted() {
    let out = process_sentinel("");
    assert!(matches!(out.verdict, SentinelVerdict::DiscardEmpty));
    assert!(out.delete_sentinel);
}

#[test]
fn whitespace_only_sentinel_is_discarded_and_deleted() {
    let out = process_sentinel("  \n\t  ");
    assert!(matches!(out.verdict, SentinelVerdict::DiscardEmpty));
    assert!(out.delete_sentinel);
}

#[test]
fn foreign_host_is_discarded_and_deleted() {
    let out = process_sentinel("https://example.com/patreon/user/1/post/2");
    assert!(matches!(out.verdict, SentinelVerdict::DiscardForeign));
    assert!(out.delete_sentinel);
}

#[test]
fn http_scheme_counts_as_foreign() {
    let out = process_sentinel("http://kemono.cr/patreon/user/1/post/2");
    assert!(matches!(out.verdict, SentinelVerdict::DiscardForeign));
    assert!(out.delete_sentinel);
}

#[test]
fn malformed_path_is_discarded_and_deleted() {
    let out = process_sentinel("https://kemono.cr/patreon/posts/128244687");
    assert!(matches!(out.verdict, SentinelVerdict::DiscardMalformed));
    assert!(out.delete_sentinel);
}

#[test]
fn valid_url_is_dispatched_and_still_deleted() {
    let out = process_sentinel("  https://kemono.cr/patreon/user/82530106/post/128244687\n");
    match out.verdict {
        SentinelVerdict::Fetch(p) => {
            assert_eq!(p.domain, "kemono.cr");
            assert_eq!(p.service, "patreon");
            assert_eq!(p.user_id, "82530106");
            assert_eq!(p.post_id, "128244687");
        }
        _ => panic!("expected a fetch verdict"),
    }
    assert!(out.delete_sentinel);
}

#[test]
fn sentinel_name_embeds_timestamp_source_and_token() {
    let name = sentinel_file_name(1700000000, "telegram", "3f2c");
    assert_eq!(name, "1700000000_telegram_3f2c.txt");
}

#[test]
fn links_dir_is_the_exchange_kc_links_folder() {
    assert_eq!(links_dir_path(), "./exchange/kc-links");
}

#[test]
fn unicode_whitespace_counts_as_empty() {
    let out = process_sentinel("\u{a0}\u{3000}");
    assert!(matches!(out.verdict, SentinelVerdict::DiscardEmpty));
    assert!(out.delete_sentinel);
}
