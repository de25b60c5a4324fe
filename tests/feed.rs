use libation_feed::feed::{build_feed, day_of_timestamp, render_feed, title_or_empty};
use libation_feed::listing::{resolve_folder, scan_folder, DirEntry, EntryKind, FeedError};

const NOW: i64 = 1792281600 + 3600 * 15;
const TODAY: i64 = 20744;

fn file(name: &str) -> DirEntry {
    DirEntry { name: name.to_string(), kind: EntryKind::File }
}

fn dir(name: &str) -> DirEntry {
    DirEntry { name: name.to_string(), kind: EntryKind::Directory }
}

fn strings(v: &[&str]) -> Vec<String> {
    v.iter().map(|s| s.to_string()).collect()
}

#[test]
fn resolve_picks_bracketed_directory() {
    let entries = vec![dir("Other [B000001]"), file("x [B012345].txt"), dir("My Book [B012345]")];
    assert_eq!(resolve_folder(&entries, "B012345"), Ok("My Book [B012345]".to_string()));
}

#[test]
fn resolve_requires_brackets() {
    let entries = vec![dir("My Book B012345"), dir("My Book [B0123456]")];
    assert_eq!(resolve_folder(&entries, "B012345"), Err(FeedError::NotFound));
}

#[test]
fn resolve_returns_first_of_several_matches() {
    let entries = vec![dir("A [X1]"), dir("B [X1]")];
    assert_eq!(resolve_folder(&entries, "X1"), Ok("A [X1]".to_string()));
}

#[test]
fn resolve_empty_listing_is_not_found() {
    assert_eq!(resolve_folder(&vec![], "B1"), Err(FeedError::NotFound));
}

#[test]
fn audio_sorted_lexicographically() {
    let entries = vec![file("2.mp3"), file("10.mp3"), file("cover.jpg"), file("1.mp3")];
    let c = scan_folder(&entries).unwrap();
    assert_eq!(c.audio, strings(&["1.mp3", "10.mp3", "2.mp3"]));
}

#[test]
fn audio_order_independent_of_listing_order() {
    let a = vec![file("b.mp3"), file("cover.jpg"), file("a.mp3"), file("c.mp3")];
    let b = vec![file("c.mp3"), file("a.mp3"), file("b.mp3"), file("cover.jpg")];
    assert_eq!(scan_folder(&a).unwrap().audio, scan_folder(&b).unwrap().audio);
}

#[test]
fn uppercase_suffix_is_not_an_image() {
    let entries = vec![file("cover.JPG"), file("a.mp3")];
    assert_eq!(scan_folder(&entries).err(), Some(FeedError::MissingImage));
}

#[test]
fn classification_roles_and_last_wins() {
    let entries = vec![
        file("one.jpg"),
        file("meta.json"),
        dir("nested.mp3"),
        file("two.jpg"),
        file("a.MP3"),
        file("notes.txt"),
        file("x.mp3"),
    ];
    let c = scan_folder(&entries).unwrap();
    assert_eq!(c.image, "two.jpg");
    assert_eq!(c.metadata, Some("meta.json".to_string()));
    assert_eq!(c.audio, strings(&["x.mp3"]));
}

#[test]
fn folder_without_audio_still_builds() {
    let c = scan_folder(&vec![file("cover.jpg")]).unwrap();
    assert!(c.audio.is_empty());
    assert_eq!(c.metadata, None);
    let text = render_feed("T", "F", "http://h", &c, NOW).unwrap();
    let ch = rss::Channel::read_from(text.as_bytes()).unwrap();
    assert_eq!(ch.items().len(), 0);
}

#[test]
fn day_of_timestamp_values() {
    assert_eq!(day_of_timestamp(0), 0);
    assert_eq!(day_of_timestamp(86399), 0);
    assert_eq!(day_of_timestamp(86400), 1);
    assert_eq!(day_of_timestamp(-1), -1);
    assert_eq!(day_of_timestamp(-86400), -1);
    assert_eq!(day_of_timestamp(-86401), -2);
    assert_eq!(day_of_timestamp(NOW), TODAY);
}

#[test]
fn dates_one_day_apart_newest_first() {
    let doc = build_feed("T", "F", "http://h", "c.jpg", &strings(&["a.mp3", "b.mp3"]), TODAY);
    assert_eq!(doc.items[0].pub_day, TODAY);
    assert_eq!(doc.items[1].pub_day, TODAY - 1);
    assert_eq!(doc.items[0].pub_date, "Sun, 18 Oct 2026 00:00:00 +0000");
    assert_eq!(doc.items[1].pub_date, "Sat, 17 Oct 2026 00:00:00 +0000");
}

#[test]
fn item_fields() {
    let doc = build_feed("Title", "Bk [B1]", "http://h:1", "c.jpg", &strings(&["Part_01_x.mp3"]), TODAY);
    assert_eq!(doc.title, "Title");
    assert_eq!(doc.image_url, "http://h:1/libation-files/Bk [B1]/c.jpg");
    assert_eq!(doc.block, "Yes");
    let it = &doc.items[0];
    assert_eq!(it.title, "Part 01 x.mp3");
    assert_eq!(it.url, "http://h:1/libation-files/Bk [B1]/Part_01_x.mp3");
    assert_eq!(it.mime_type, "audio/mpeg");
    assert_eq!(it.length, 13);
}

#[test]
fn round_trip_through_rss_parser() {
    let entries = vec![file("b.mp3"), file("a.mp3"), file("c.jpg")];
    let c = scan_folder(&entries).unwrap();
    let text = render_feed("Book", "Bk [B1]", "http://h", &c, NOW).unwrap();
    let ch = rss::Channel::read_from(text.as_bytes()).unwrap();
    assert_eq!(ch.title(), "Book");
    assert_eq!(ch.items().len(), 2);
    let urls: Vec<String> = ch.items().iter().map(|i| i.enclosure().unwrap().url().to_string()).collect();
    assert_eq!(urls, strings(&["http://h/libation-files/Bk [B1]/a.mp3", "http://h/libation-files/Bk [B1]/b.mp3"]));
    let e = ch.items()[0].enclosure().unwrap();
    assert_eq!(e.mime_type(), "audio/mpeg");
    assert_eq!(e.length(), "5");
    assert_eq!(ch.items()[1].pub_date(), Some("Sat, 17 Oct 2026 00:00:00 +0000"));
    let ext = ch.itunes_ext().unwrap();
    assert_eq!(ext.block(), Some("Yes"));
    assert_eq!(ext.image(), Some("http://h/libation-files/Bk [B1]/c.jpg"));
}

#[test]
fn end_to_end_book_feed() {
    let root = vec![file("readme.txt"), dir("My Book [B012345]"), dir("Other [B999]")];
    let folder = resolve_folder(&root, "B012345").unwrap();
    let listing = vec![file("cover.jpg"), file("001.mp3"), file("000.mp3")];
    let c = scan_folder(&listing).unwrap();
    let text = render_feed("", &folder, "http://h", &c, NOW).unwrap();
    let ch = rss::Channel::read_from(text.as_bytes()).unwrap();
    let titles: Vec<String> = ch.items().iter().map(|i| i.title().unwrap().to_string()).collect();
    assert_eq!(titles, strings(&["000.mp3", "001.mp3"]));
    assert!(ch.itunes_ext().unwrap().image().unwrap().ends_with("/My Book [B012345]/cover.jpg"));
}

#[test]
fn end_to_end_unknown_identifier() {
    let root = vec![dir("My Book [B012345]")];
    assert_eq!(resolve_folder(&root, "B000000"), Err(FeedError::NotFound));
}

#[test]
fn end_to_end_missing_image() {
    let listing = vec![file("000.mp3"), file("cover.png")];
    assert_eq!(scan_folder(&listing).err(), Some(FeedError::MissingImage));
}

#[test]
fn date_out_of_range() {
    let c = scan_folder(&vec![file("c.jpg"), file("a.mp3")]).unwrap();
    assert_eq!(render_feed("T", "F", "h", &c, i64::MAX).err(), Some(FeedError::DateOutOfRange));
    assert_eq!(render_feed("T", "F", "h", &c, i64::MIN).err(), Some(FeedError::DateOutOfRange));
}

#[test]
fn title_defaults_to_empty() {
    assert_eq!(title_or_empty(None), "");
    assert_eq!(title_or_empty(Some("A Title".to_string())), "A Title");
}
