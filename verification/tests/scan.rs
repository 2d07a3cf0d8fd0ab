use queuecast::model::Episode;
use queuecast::scan::{chars_le, scan_episodes, FileEntry};

fn file(path: &str) -> FileEntry {
    FileEntry { path: path.to_string(), is_file: true }
}

fn dir(path: &str) -> FileEntry {
    FileEntry { path: path.to_string(), is_file: false }
}

fn episode(path: &str, episode_number: usize) -> Episode {
    Episode { path: path.to_string(), episode_number }
}

fn le(a: &str, b: &str) -> bool {
    chars_le(&a.chars().collect(), &b.chars().collect())
}

#[test]
fn scan_orders_by_file_name_and_numbers_from_one() {
    let listing = vec![file("/s/c.mkv"), file("/s/a.mkv"), file("/s/b.mkv")];
    assert_eq!(
        scan_episodes(&listing),
        vec![episode("/s/a.mkv", 1), episode("/s/b.mkv", 2), episode("/s/c.mkv", 3)]
    );
}

#[test]
fn scan_gives_the_same_result_for_any_order_of_the_listing() {
    let one = vec![file("/s/e2.mp4"), file("/s/e1.mp4"), file("/s/e3.mp4")];
    let two = vec![file("/s/e3.mp4"), file("/s/e2.mp4"), file("/s/e1.mp4")];
    assert_eq!(scan_episodes(&one), scan_episodes(&two));
    assert_eq!(scan_episodes(&one), scan_episodes(&one));
}

#[test]
fn scan_keeps_the_four_media_extensions_only() {
    let listing = vec![
        file("/s/1.mp4"),
        file("/s/2.mkv"),
        file("/s/3.avi"),
        file("/s/4.mov"),
        file("/s/5.txt"),
        file("/s/6.srt"),
        file("/s/7.mp3"),
        file("/s/8.mkvv"),
        file("/s/9"),
    ];
    assert_eq!(
        scan_episodes(&listing),
        vec![
            episode("/s/1.mp4", 1),
            episode("/s/2.mkv", 2),
            episode("/s/3.avi", 3),
            episode("/s/4.mov", 4)
        ]
    );
}

#[test]
fn scan_tells_upper_case_extensions_apart() {
    let listing = vec![file("/s/a.MKV"), file("/s/b.Mp4"), file("/s/c.mkv")];
    assert_eq!(scan_episodes(&listing), vec![episode("/s/c.mkv", 1)]);
}

#[test]
fn scan_leaves_out_what_is_no_regular_file() {
    let listing = vec![dir("/s/extras.mkv"), file("/s/a.mkv")];
    assert_eq!(scan_episodes(&listing), vec![episode("/s/a.mkv", 1)]);
}

#[test]
fn scan_leaves_out_names_that_are_only_an_extension() {
    let listing = vec![file("/s/.mkv"), file("/s/a.mkv")];
    assert_eq!(scan_episodes(&listing), vec![episode("/s/a.mkv", 1)]);
}

#[test]
fn scan_of_an_empty_listing_is_empty() {
    assert_eq!(scan_episodes(&Vec::new()), Vec::<Episode>::new());
}

#[test]
fn scan_without_media_is_empty() {
    let listing = vec![file("/s/readme.txt"), dir("/s/sub")];
    assert_eq!(scan_episodes(&listing), Vec::<Episode>::new());
}

#[test]
fn scan_orders_by_the_file_name_not_by_the_whole_path() {
    let listing = vec![file("/z/a.mkv"), file("/a/b.mkv")];
    assert_eq!(scan_episodes(&listing), vec![episode("/z/a.mkv", 1), episode("/a/b.mkv", 2)]);
}

#[test]
fn scan_orders_character_by_character() {
    let listing = vec![
        file("/s/e10.mkv"),
        file("/s/e2.mkv"),
        file("/s/E3.mkv"),
        file("/s/e1.mkv"),
        file("/s/e1.a.mkv"),
    ];
    assert_eq!(
        scan_episodes(&listing),
        vec![
            episode("/s/E3.mkv", 1),
            episode("/s/e1.a.mkv", 2),
            episode("/s/e1.mkv", 3),
            episode("/s/e10.mkv", 4),
            episode("/s/e2.mkv", 5)
        ]
    );
}

#[test]
fn scan_keeps_the_listing_order_of_equal_file_names() {
    let listing = vec![file("/two/a.mkv"), file("/one/a.mkv")];
    assert_eq!(scan_episodes(&listing), vec![episode("/two/a.mkv", 1), episode("/one/a.mkv", 2)]);
}

#[test]
fn scan_agrees_with_a_sort_of_the_standard_library() {
    let names = ["b.mkv", "a.mkv", "é.mkv", "Z.mkv", "a b.mkv", "a.b.mkv", "10.mkv", "9.mkv"];
    let listing: Vec<FileEntry> = names.iter().map(|n| file(&format!("/s/{}", n))).collect();
    let mut sorted: Vec<&str> = names.to_vec();
    sorted.sort_by(|a, b| a.as_bytes().cmp(b.as_bytes()));
    let expected: Vec<Episode> =
        sorted.iter().enumerate().map(|(i, n)| episode(&format!("/s/{}", n), i + 1)).collect();
    assert_eq!(scan_episodes(&listing), expected);
}

#[test]
fn texts_are_compared_in_lexicographic_order() {
    assert!(le("", ""));
    assert!(le("", "a"));
    assert!(!le("a", ""));
    assert!(le("a", "a"));
    assert!(le("a", "ab"));
    assert!(!le("ab", "a"));
    assert!(le("ab", "b"));
    assert!(!le("b", "ab"));
    assert!(le("Z", "a"));
    assert!(le("z", "é"));
}
