use exchange_pipeline::chunker::build_caption;
use exchange_pipeline::chunker::classify_file;
use exchange_pipeline::chunker::clean_text_field;
use exchange_pipeline::chunker::plan_chunks;
use exchange_pipeline::chunker::plan_delivery;
use exchange_pipeline::chunker::url_line;
use exchange_pipeline::chunker::FolderFile;
use exchange_pipeline::chunker::UrlEntry;
use exchange_pipeline::chunker::MAX_CHUNK_BYTES;
use exchange_pipeline::chunker::MAX_CHUNK_FILES;

#[test]
fn classifies_folder_files() {
    assert_eq!(classify_file("001_photo.jpg"), FolderFile::Media);
    assert_eq!(classify_file("002_CLIP.MP4"), FolderFile::Media);
    assert_eq!(classify_file("title.txt"), FolderFile::Title);
    assert_eq!(classify_file("TITLE.TXT"), FolderFile::Title);
    assert_eq!(classify_file("big_video.url.json"), FolderFile::UrlSidecar);
    assert_eq!(classify_file("post.txt"), FolderFile::Other);
    assert_eq!(classify_file("data.json"), FolderFile::Other);
    assert_eq!(classify_file("readme.md"), FolderFile::Other);
}

#[test]
fn numbers_fallback_link_lines() {
    let bare = UrlEntry { url: "https://kemono.cr/data/x.mp4".to_string(), name: None };
    assert_eq!(url_line(1, 10, &bare), "[ 1/10] https://kemono.cr/data/x.mp4");
    let named = UrlEntry {
        url: "https://kemono.cr/data/x.mp4".to_string(),
        name: Some("clip".to_string()),
    };
    assert_eq!(url_line(2, 2, &named), "[ 2/ 2] [clip](https://kemono.cr/data/x.mp4)");
}

#[test]
fn cleaning_strips_all_whitespace() {
    assert_eq!(clean_text_field("a b\tc\nd"), "abcd");
    assert_eq!(clean_text_field(" \n\t"), "");
    assert_eq!(clean_text_field("solid"), "solid");
}

#[test]
fn captions_join_title_and_link_lines() {
    let lines = vec!["[ 1/ 2] u1".to_string(), "[ 2/ 2] u2".to_string()];
    let c = build_caption(&Some("My title".to_string()), &lines);
    assert_eq!(c, "My title\n[ 1/ 2] u1\n[ 2/ 2] u2");
}

#[test]
fn a_blank_title_contributes_nothing() {
    let lines = vec!["line".to_string()];
    assert_eq!(build_caption(&Some("  \n ".to_string()), &lines), "line");
    assert_eq!(build_caption(&None, &lines), "line");
    assert_eq!(build_caption(&None, &Vec::new()), "");
}

#[test]
fn captions_are_truncated_to_the_message_limit() {
    let long_title: String = std::iter::repeat('x').take(2500).collect();
    let c = build_caption(&Some(long_title), &Vec::new());
    assert_eq!(c.chars().count(), 2000);
}

#[test]
fn chunks_split_on_the_item_cap_and_cover_every_file() {
    let sizes: Vec<u64> = vec![1; 25];
    let chunks = plan_chunks(&sizes, MAX_CHUNK_FILES, MAX_CHUNK_BYTES);
    assert_eq!(chunks, vec![(0, 10), (10, 20), (20, 25)]);
    let total: usize = chunks.iter().map(|c| c.1 - c.0).sum();
    assert_eq!(total, sizes.len());
    for c in &chunks {
        assert!(c.1 - c.0 <= MAX_CHUNK_FILES);
        let bytes: u64 = sizes[c.0..c.1].iter().sum();
        assert!(bytes <= MAX_CHUNK_BYTES);
    }
}

#[test]
fn chunks_split_on_the_byte_cap() {
    let sizes: Vec<u64> = vec![100, 100, 100, 100];
    let chunks = plan_chunks(&sizes, 10, 250);
    assert_eq!(chunks, vec![(0, 2), (2, 4)]);
}

#[test]
fn an_oversized_file_stands_alone() {
    let sizes: Vec<u64> = vec![300, 10, 10];
    let chunks = plan_chunks(&sizes, 10, 250);
    assert_eq!(chunks, vec![(0, 1), (1, 3)]);
}

#[test]
fn no_files_means_no_chunks() {
    let sizes: Vec<u64> = Vec::new();
    let chunks = plan_chunks(&sizes, MAX_CHUNK_FILES, MAX_CHUNK_BYTES);
    assert!(chunks.is_empty());
}

#[test]
fn a_captioned_folder_without_media_sends_one_text_message() {
    let plan = plan_delivery(&Vec::new(), true);
    assert!(plan.text_only);
    assert!(plan.chunks.is_empty());
    assert_eq!(plan.caption_chunk, None);
}

#[test]
fn without_caption_or_media_nothing_is_sent() {
    let plan = plan_delivery(&Vec::new(), false);
    assert!(!plan.text_only);
    assert!(plan.chunks.is_empty());
}

#[test]
fn the_caption_rides_on_the_first_chunk_only() {
    let sizes: Vec<u64> = vec![1; 12];
    let plan = plan_delivery(&sizes, true);
    assert!(!plan.text_only);
    assert_eq!(plan.caption_chunk, Some(0));
    assert_eq!(plan.chunks.len(), 2);
}

#[test]
fn link_numbers_wider_than_two_keep_their_digits() {
    let bare = UrlEntry { url: "u".to_string(), name: None };
    assert_eq!(url_line(100, 100, &bare), "[100/100] u");
}

#[test]
fn a_chunk_may_fill_the_byte_cap_exactly() {
    let sizes: Vec<u64> = vec![100, 150];
    let chunks = plan_chunks(&sizes, 10, 250);
    assert_eq!(chunks, vec![(0, 2)]);
}

#[test]
fn file_names_sort_lexicographically() {
    let names = vec![
        "003_c.png".to_string(),
        "001_a.png".to_string(),
        "002_b.png".to_string(),
        "001_a.png".to_string(),
    ];
    let sorted = exchange_pipeline::chunker::sort_names(names);
    assert_eq!(sorted, vec!["001_a.png", "001_a.png", "002_b.png", "003_c.png"]);
}
