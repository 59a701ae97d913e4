use listen_stats::aggregate::TrackEntry;
use listen_stats::duration::format_duration;
use listen_stats::load::merge_loaded;
use listen_stats::rank::{chars_less, key_less};
use listen_stats::record::{StreamEntry, TrackKey};
use listen_stats::report::{group_entries, top};
use listen_stats::search::{contains_chars, filter_matching, matches_lowered, search};
use listen_stats::summary::{stats, total_ms_checked};
use listen_stats::years::{count_unique, year_stats};

fn rec(ts: &str, ms: u64, track: Option<&str>, artist: Option<&str>, album: Option<&str>) -> StreamEntry {
    StreamEntry {
        ts: ts.to_string(),
        ms_played: ms,
        master_metadata_track_name: track.map(|s| s.to_string()),
        master_metadata_album_artist_name: artist.map(|s| s.to_string()),
        master_metadata_album_album_name: album.map(|s| s.to_string()),
    }
}

fn view(v: &[TrackEntry]) -> Vec<(String, String, String, u64, u64)> {
    v.iter()
        .map(|t| (t.key.track.clone(), t.key.artist.clone(), t.key.album.clone(), t.count, t.total_ms))
        .collect()
}

fn sample() -> Vec<StreamEntry> {
    vec![
        rec("2020-05-01T10:00:00Z", 1000, Some("Song A"), Some("Band"), Some("LP")),
        rec("2020-06-01T10:00:00Z", 2000, Some("Song B"), Some("Band"), Some("LP")),
        rec("2021-01-01T10:00:00Z", 3000, Some("Song A"), Some("Band"), Some("LP")),
        rec("2021-02-01T10:00:00Z", 500, None, None, None),
        rec("2021-03-01T10:00:00Z", 700, Some("Song C"), None, None),
        rec("2022-03-01T10:00:00Z", 100, Some("Song A"), Some("Band"), Some("LP")),
    ]
}

#[test]
fn format_duration_zero() {
    assert_eq!(format_duration(0), "0000H:00M:00S");
}

#[test]
fn format_duration_one_hour_one_minute_one_second() {
    assert_eq!(format_duration(3_661_000), "0001H:01M:01S");
}

#[test]
fn format_duration_truncates_and_grows() {
    assert_eq!(format_duration(999), "0000H:00M:00S");
    assert_eq!(format_duration(59_999), "0000H:00M:59S");
    assert_eq!(format_duration(36_000_000_000), "10000H:00M:00S");
    assert_eq!(format_duration(45_296_000), "0012H:34M:56S");
}

#[test]
fn key_defaults_missing_names_to_empty() {
    let k = rec("2020", 1, Some("T"), None, None).key().unwrap();
    assert_eq!(k.track, "T");
    assert_eq!(k.artist, "");
    assert_eq!(k.album, "");
}

#[test]
fn key_absent_or_empty_track_is_none() {
    assert!(rec("2020", 1, None, Some("A"), Some("B")).key().is_none());
    assert!(rec("2020", 1, Some(""), Some("A"), Some("B")).key().is_none());
}

#[test]
fn key_depends_on_names_only() {
    let a = rec("2019-01-01", 10, Some("X"), Some("Y"), None).key().unwrap();
    let b = rec("2023-07-07", 99999, Some("X"), Some("Y"), Some("")).key().unwrap();
    assert!(a.same(&b));
    let c = rec("2019-01-01", 10, Some("x"), Some("Y"), None).key().unwrap();
    assert!(!a.same(&c));
}

#[test]
fn year_takes_first_four_characters() {
    assert_eq!(rec("2020-01-01", 0, None, None, None).year(), "2020");
    assert_eq!(rec("202", 0, None, None, None).year(), "????");
    assert_eq!(rec("", 0, None, None, None).year(), "????");
    assert_eq!(rec("abcd", 0, None, None, None).year(), "abcd");
}

#[test]
fn group_entries_counts_and_ranks() {
    let g = group_entries(&sample());
    assert_eq!(
        view(&g),
        vec![
            ("Song A".to_string(), "Band".to_string(), "LP".to_string(), 3, 4100),
            ("Song B".to_string(), "Band".to_string(), "LP".to_string(), 1, 2000),
            ("Song C".to_string(), String::new(), String::new(), 1, 700),
        ]
    );
}

#[test]
fn group_entries_play_total_plus_unidentified_is_record_count() {
    let s = sample();
    let g = group_entries(&s);
    let plays: u64 = g.iter().map(|t| t.count).sum();
    let unidentified = s.iter().filter(|e| e.key().is_none()).count() as u64;
    assert_eq!(plays + unidentified, s.len() as u64);
}

#[test]
fn ranking_ignores_input_order() {
    let s = sample();
    let mut r = sample();
    r.reverse();
    r.swap(0, 3);
    assert_eq!(view(&group_entries(&s)), view(&group_entries(&r)));
    let a = stats(&s);
    let b = stats(&r);
    assert_eq!(a.total_ms, b.total_ms);
    assert_eq!(a.unique_tracks, b.unique_tracks);
}

#[test]
fn equal_counts_are_ordered_by_identity() {
    let s = vec![
        rec("2020", 1, Some("b"), None, None),
        rec("2020", 1, Some("a"), Some("z"), None),
        rec("2020", 1, Some("a"), Some("y"), None),
    ];
    let g = group_entries(&s);
    let names: Vec<(String, String)> = g.iter().map(|t| (t.key.track.clone(), t.key.artist.clone())).collect();
    assert_eq!(
        names,
        vec![
            ("a".to_string(), "y".to_string()),
            ("a".to_string(), "z".to_string()),
            ("b".to_string(), String::new()),
        ]
    );
}

#[test]
fn empty_track_name_counts_only_in_year() {
    let s = vec![rec("2020-01-01", 1234, Some(""), Some("A"), Some("B"))];
    assert!(group_entries(&s).is_empty());
    let y = year_stats(&s);
    assert_eq!(y.len(), 1);
    assert_eq!(y[0].year, "2020");
    assert_eq!(y[0].plays, 1);
    assert_eq!(y[0].total_ms, 1234);
    assert_eq!(y[0].unique, 0);
}

#[test]
fn top_none_found_when_all_below_threshold() {
    assert!(top(&sample(), 4).is_none());
    assert!(top(&Vec::new(), 0).is_none());
}

#[test]
fn top_keeps_rank_order() {
    let t = top(&sample(), 1).unwrap();
    assert_eq!(t.len(), 3);
    let t = top(&sample(), 2).unwrap();
    assert_eq!(view(&t), vec![("Song A".to_string(), "Band".to_string(), "LP".to_string(), 3, 4100)]);
}

#[test]
fn two_files_scenario() {
    let a = vec![rec("2020-01-01", 1000, Some("X"), None, None)];
    let b = vec![rec("2021-01-01", 2000, Some("X"), None, None)];
    let all = merge_loaded(&vec![a, b]);
    let g = group_entries(&all);
    assert_eq!(view(&g), vec![("X".to_string(), String::new(), String::new(), 2, 3000)]);
    let y = year_stats(&all);
    assert_eq!(y.len(), 2);
    assert_eq!((y[0].year.as_str(), y[0].plays, y[0].total_ms, y[0].unique), ("2020", 1, 1000, 1));
    assert_eq!((y[1].year.as_str(), y[1].plays, y[1].total_ms, y[1].unique), ("2021", 1, 2000, 1));
}

#[test]
fn merge_skips_failed_file() {
    let good1 = vec![rec("2020-01-01", 1, Some("A"), None, None)];
    let bad: Vec<StreamEntry> = Vec::new();
    let good2 = vec![rec("2021-01-01", 2, Some("B"), None, None), rec("2021-01-02", 3, Some("C"), None, None)];
    let all = merge_loaded(&vec![good1, bad, good2]);
    let names: Vec<String> = all.iter().map(|e| e.master_metadata_track_name.clone().unwrap()).collect();
    assert_eq!(names, vec!["A".to_string(), "B".to_string(), "C".to_string()]);
}

#[test]
fn year_stats_sorted_with_sentinel_last() {
    let s = vec![
        rec("2021-01-01", 10, Some("A"), None, None),
        rec("x", 5, Some("A"), None, None),
        rec("2019-01-01", 20, Some("A"), None, None),
        rec("2021-05-01", 30, Some("A"), None, None),
        rec("2021-06-01", 40, Some("B"), None, None),
    ];
    let y = year_stats(&s);
    let rows: Vec<(String, u64, u64, usize)> = y.iter().map(|b| (b.year.clone(), b.plays, b.total_ms, b.unique)).collect();
    assert_eq!(
        rows,
        vec![
            ("2019".to_string(), 1, 20, 1),
            ("2021".to_string(), 3, 80, 2),
            ("????".to_string(), 1, 5, 1),
        ]
    );
}

#[test]
fn count_unique_within_year() {
    let s = sample();
    assert_eq!(count_unique(&s, &"2021".to_string()), 2);
    assert_eq!(count_unique(&s, &"2020".to_string()), 2);
    assert_eq!(count_unique(&s, &"1999".to_string()), 0);
}

#[test]
fn stats_totals() {
    let st = stats(&sample());
    assert_eq!(st.total_streams, 6);
    assert_eq!(st.total_ms, 7300);
    assert_eq!(st.unique_tracks, 3);
    assert_eq!(st.years.len(), 3);
    let plays: u64 = st.years.iter().map(|b| b.plays).sum();
    assert_eq!(plays, 6);
}

#[test]
fn total_ms_checked_detects_overflow() {
    assert_eq!(total_ms_checked(&sample()), Some(7300));
    let big = vec![rec("2020", u64::MAX, None, None, None), rec("2020", 1, None, None, None)];
    assert_eq!(total_ms_checked(&big), None);
}

#[test]
fn search_is_case_insensitive_substring() {
    let r = search(&sample(), &"song a".to_string()).unwrap();
    assert_eq!(r.0, 3);
    assert_eq!(view(&r.1), vec![("Song A".to_string(), "Band".to_string(), "LP".to_string(), 3, 4100)]);
    let r = search(&sample(), &"SONG".to_string()).unwrap();
    assert_eq!(r.0, 5);
    assert_eq!(r.1.len(), 3);
}

#[test]
fn search_no_matches() {
    assert!(search(&sample(), &"zzz".to_string()).is_none());
}

#[test]
fn matches_lowered_lowers_the_name() {
    let e = rec("2020", 1, Some("ÀBC Déf"), None, None);
    assert!(matches_lowered(&e, &"àbc d".to_string()));
    assert!(!matches_lowered(&e, &"ÀBC".to_string()));
    assert!(!matches_lowered(&rec("2020", 1, None, None, None), &String::new()));
    assert_eq!(filter_matching(&vec![e], &"DÉF".to_string()).len(), 1);
}

#[test]
fn contains_chars_cases() {
    assert!(contains_chars(&"hello".to_string(), &"ell".to_string()));
    assert!(contains_chars(&"hello".to_string(), &String::new()));
    assert!(!contains_chars(&"hello".to_string(), &"hello!".to_string()));
    assert!(!contains_chars(&"hello".to_string(), &"Hell".to_string()));
    assert!(contains_chars(&"hello".to_string(), &"hello".to_string()));
}

#[test]
fn string_order() {
    assert!(chars_less(&"2020".to_string(), &"????".to_string()));
    assert!(!chars_less(&"????".to_string(), &"2020".to_string()));
    assert!(chars_less(&"ab".to_string(), &"abc".to_string()));
    assert!(!chars_less(&"abc".to_string(), &"abc".to_string()));
    let k1 = TrackKey { track: "a".to_string(), artist: "b".to_string(), album: "c".to_string() };
    let k2 = TrackKey { track: "a".to_string(), artist: "b".to_string(), album: "d".to_string() };
    assert!(key_less(&k1, &k2));
    assert!(!key_less(&k2, &k1));
}
