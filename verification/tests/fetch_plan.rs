use exchange_pipeline::fetcher::fallback_record_name;
use exchange_pipeline::fetcher::fallback_sidecar_name;
use exchange_pipeline::fetcher::fresh_staging_paths;
use exchange_pipeline::fetcher::listed_files;
use exchange_pipeline::fetcher::plan_sidecars;
use exchange_pipeline::fetcher::resolve_probe;
use exchange_pipeline::fetcher::sanitize_filename;
use exchange_pipeline::fetcher::screen_file;
use exchange_pipeline::fetcher::should_publish;
use exchange_pipeline::fetcher::staged_name;
use exchange_pipeline::fetcher::FileFetch;
use exchange_pipeline::fetcher::FileScreen;
use exchange_pipeline::fetcher::RemoteFile;
use exchange_pipeline::fetcher::MAX_FILE_SIZE;

#[test]
fn sanitizes_path_hostile_characters() {
    assert_eq!(sanitize_filename("a/b\\c?d%e*f:g|h\"i<j>k.png"), "a_b_c_d_e_f_g_h_i_j_k.png");
    assert_eq!(sanitize_filename("plain.png"), "plain.png");
}

#[test]
fn numbers_staged_names_with_three_digits() {
    assert_eq!(staged_name(1, "foo.png"), "001_foo.png");
    assert_eq!(staged_name(42, "a b.jpg"), "042_a b.jpg");
    assert_eq!(staged_name(1234, "x.gif"), "1234_x.gif");
}

#[test]
fn screens_out_unsupported_extensions() {
    let existing: Vec<String> = Vec::new();
    assert_eq!(screen_file("notes.txt", 1, &existing), FileScreen::RejectExtension);
    assert_eq!(screen_file("archive.zip", 1, &existing), FileScreen::RejectExtension);
    assert_eq!(screen_file("noext", 1, &existing), FileScreen::RejectExtension);
    assert_eq!(screen_file("photo.jpg", 1, &existing), FileScreen::NeedsProbe);
    assert_eq!(screen_file("CLIP.MOV", 2, &existing), FileScreen::NeedsProbe);
}

#[test]
fn refetch_skips_a_file_already_staged() {
    let existing = vec!["001_foo.png".to_string()];
    assert_eq!(screen_file("foo.png", 1, &existing), FileScreen::AlreadyStaged);
    assert_eq!(screen_file("foo.png", 2, &existing), FileScreen::NeedsProbe);
    assert_eq!(screen_file("bar.png", 1, &existing), FileScreen::NeedsProbe);
}

#[test]
fn oversized_files_become_fallback_records() {
    assert_eq!(resolve_probe(None), FileFetch::Download);
    assert_eq!(resolve_probe(Some(MAX_FILE_SIZE)), FileFetch::Download);
    assert_eq!(resolve_probe(Some(MAX_FILE_SIZE + 1)), FileFetch::Fallback);
}

#[test]
fn fallback_sidecar_is_named_from_the_sanitized_stem() {
    assert_eq!(fallback_sidecar_name("big:video.mp4"), "big_video.url.json");
    assert_eq!(fallback_sidecar_name("clip.tar.gz"), "clip.tar.url.json");
}

#[test]
fn listed_files_keep_the_primary_file_first() {
    let primary = Some(RemoteFile { name: "main.png".to_string(), path: "/m".to_string() });
    let attachments = vec![
        RemoteFile { name: "a.png".to_string(), path: "/a".to_string() },
        RemoteFile { name: "b.png".to_string(), path: "/b".to_string() },
    ];
    let files = listed_files(&primary, &attachments);
    let names: Vec<&str> = files.iter().map(|f| f.name.as_str()).collect();
    assert_eq!(names, vec!["main.png", "a.png", "b.png"]);
    let files = listed_files(&None, &attachments);
    assert_eq!(files.len(), 2);
}

#[test]
fn sidecars_are_written_in_order_and_only_when_present() {
    let plan = plan_sidecars(
        &Some("ada".to_string()),
        "https://kemono.cr/patreon/user/1",
        "https://kemono.cr/patreon/user/1/post/2",
        &Some("body".to_string()),
        &Some("hello".to_string()),
    );
    let names: Vec<&str> = plan.iter().map(|s| s.name.as_str()).collect();
    assert_eq!(
        names,
        vec!["artist_name.txt", "artist_url.txt", "post_url.txt", "post.txt", "title.txt"]
    );
    assert_eq!(plan[0].body, "ada");
    assert_eq!(plan[4].body, "hello");

    let bare = plan_sidecars(&None, "au", "pu", &None, &None);
    let names: Vec<&str> = bare.iter().map(|s| s.name.as_str()).collect();
    assert_eq!(names, vec!["artist_url.txt", "post_url.txt"]);
}

#[test]
fn text_only_posts_still_publish() {
    assert!(!should_publish(false, &None, &None));
    assert!(should_publish(false, &Some("t".to_string()), &None));
    assert!(should_publish(false, &None, &Some("c".to_string())));
    assert!(should_publish(true, &None, &None));
}

#[test]
fn staging_paths_share_one_fresh_token() {
    let (token, tmp, fin) = fresh_staging_paths();
    assert_eq!(token.len(), 36);
    assert_eq!(tmp, format!("./exchange/messages_tmp/{}", token));
    assert_eq!(fin, format!("./exchange/messages/{}", token));
}

#[test]
fn staged_names_sanitize_their_file_part() {
    assert_eq!(staged_name(3, "a/b.png"), "003_a_b.png");
}

#[test]
fn the_record_name_is_the_sanitized_stem() {
    assert_eq!(fallback_record_name("big:video.mp4"), "big_video");
    assert_eq!(fallback_record_name("clip.tar.gz"), "clip.tar");
    assert_eq!(fallback_record_name("a.url.json.png"), "a.url.json");
}
