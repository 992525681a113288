use playlist_formatter::format::{style_from_flags, to_text, FormattingStyle};
use playlist_formatter::paths::input_path;
use playlist_formatter::playlist::{parse_tracks, Playlist};
use playlist_formatter::save::{
    derive_file_name, plan_save, resolve_target, PersistenceError, SaveRequest,
};
use playlist_formatter::track::parse_line;

fn playlist(text: &str) -> Playlist {
    Playlist::from_contents(
        "/music/set.txt".to_string(),
        text,
        text.len() as u64,
        "2024-01-01 10:00:00".to_string(),
    )
}

#[test]
fn line_with_number_artist_and_title() {
    let t = parse_line("1. Artist - Title", 1).unwrap();
    assert_eq!(t.position, 1);
    assert_eq!(t.title, "Title");
    assert_eq!(t.artist.as_deref(), Some("Artist"));
    assert_eq!(t.raw, "1. Artist - Title");
}

#[test]
fn line_is_trimmed_before_splitting() {
    let t = parse_line("  \tDJ Name  -  Some Song \r", 4).unwrap();
    assert_eq!(t.position, 4);
    assert_eq!(t.title, "Some Song");
    assert_eq!(t.artist.as_deref(), Some("DJ Name"));
    assert_eq!(t.raw, "DJ Name  -  Some Song");
}

#[test]
fn blank_and_separator_lines_are_not_tracks() {
    assert!(parse_line("", 1).is_none());
    assert!(parse_line("   \t ", 1).is_none());
    assert!(parse_line("-----", 1).is_none());
    assert!(parse_line(" ===-=== ", 1).is_none());
}

#[test]
fn line_without_delimiter_keeps_raw_text() {
    let t = parse_line("Just a title", 2).unwrap();
    assert_eq!(t.title, "Just a title");
    assert!(t.artist.is_none());
    assert_eq!(t.raw, "Just a title");
    let t = parse_line("3) Intro", 3).unwrap();
    assert_eq!(t.title, "Intro");
    assert!(t.artist.is_none());
    assert_eq!(t.raw, "3) Intro");
}

#[test]
fn line_with_empty_side_falls_back() {
    let t = parse_line("12) A - ", 1).unwrap();
    assert!(t.artist.is_none());
    assert_eq!(t.title, "A -");
    assert_eq!(t.raw, "12) A -");
    let t = parse_line("7.", 1).unwrap();
    assert_eq!(t.title, "7.");
    assert!(t.artist.is_none());
}

#[test]
fn scenario_blank_line_dropped() {
    let p = playlist("1. Artist - Title\n\n2. Other - Song");
    assert_eq!(p.tracks.len(), 2);
    let basic = p.render(FormattingStyle::Basic);
    assert_eq!(basic, vec!["Artist - Title".to_string(), "Other - Song".to_string()]);
}

#[test]
fn positions_follow_parse_order() {
    let tracks = parse_tracks("\n9. A - B\n---\nC - D\n\n  \nE\n");
    let positions: Vec<usize> = tracks.iter().map(|t| t.position).collect();
    assert_eq!(positions, vec![1, 2, 3]);
}

#[test]
fn crlf_line_endings() {
    let tracks = parse_tracks("A - B\r\nC - D\r\n");
    assert_eq!(tracks.len(), 2);
    assert_eq!(tracks[0].title, "B");
    assert_eq!(tracks[1].title, "D");
    assert_eq!(tracks[1].artist.as_deref(), Some("C"));
}

#[test]
fn empty_file_is_an_empty_playlist() {
    let p = playlist("");
    assert_eq!(p.len(), 0);
    assert!(p.render(FormattingStyle::Basic).is_empty());
    assert!(p.render(FormattingStyle::Numbered).is_empty());
    assert_eq!(p.render(FormattingStyle::Pretty).len(), 2);
}

#[test]
fn basic_count_matches_nonblank_lines() {
    let text = "a - b\n  \nc\n\nd - e\nf";
    let p = playlist(text);
    let nonblank = text.lines().filter(|l| !l.trim().is_empty()).count();
    assert_eq!(p.render(FormattingStyle::Basic).len(), nonblank);
}

#[test]
fn render_twice_is_identical() {
    let p = playlist("1. A - B\nC\n");
    for style in [FormattingStyle::Basic, FormattingStyle::Numbered, FormattingStyle::Pretty] {
        assert_eq!(p.render(style), p.render(style));
    }
}

#[test]
fn numbered_small_playlist() {
    let p = playlist("A - B\nC\n");
    assert_eq!(
        p.render(FormattingStyle::Numbered),
        vec!["1. A - B".to_string(), "2. C".to_string()]
    );
}

#[test]
fn numbered_aligns_from_ten_tracks() {
    let text: String = (1..=10).map(|i| format!("Artist{} - Song{}\n", i, i)).collect();
    let p = playlist(&text);
    let lines = p.render(FormattingStyle::Numbered);
    assert_eq!(lines.len(), 10);
    assert_eq!(lines[0], " 1. Artist1 - Song1");
    assert_eq!(lines[8], " 9. Artist9 - Song9");
    assert_eq!(lines[9], "10. Artist10 - Song10");
    let prefixes: Vec<&str> = lines.iter().map(|l| &l[..4]).collect();
    for (i, p) in prefixes.iter().enumerate() {
        assert_eq!(p.trim_start().trim_end_matches(". ").trim_end_matches('.'), (i + 1).to_string());
    }
}

#[test]
fn pretty_is_framed_numbered_listing() {
    let p = playlist("A - B\nC\n");
    let lines = p.render(FormattingStyle::Pretty);
    let rule = "-".repeat(40);
    assert_eq!(lines, vec![rule.clone(), "1. A - B".to_string(), "2. C".to_string(), rule]);
}

#[test]
fn info_block_lines() {
    let p = playlist("a - b\n");
    assert_eq!(
        p.info_lines(),
        vec![
            "File: set.txt".to_string(),
            "Path: /music/set.txt".to_string(),
            "Tracks: 1".to_string(),
            "Size: 6 bytes".to_string(),
            "Modified: 2024-01-01 10:00:00".to_string(),
        ]
    );
}

#[test]
fn text_for_file_ends_each_line() {
    let lines = vec!["a".to_string(), "b c".to_string()];
    assert_eq!(to_text(&lines), "a\nb c\n");
    assert_eq!(to_text(&Vec::new()), "");
}

#[test]
fn style_selection() {
    assert_eq!(style_from_flags(true, false), FormattingStyle::Basic);
    assert_eq!(style_from_flags(false, true), FormattingStyle::Numbered);
    assert_eq!(style_from_flags(false, false), FormattingStyle::Pretty);
}

#[test]
fn input_path_is_trimmed() {
    assert_eq!(input_path("  list.txt \n").as_deref(), Some("list.txt"));
    assert!(input_path("   ").is_none());
    assert!(input_path("").is_none());
}

#[test]
fn derived_names() {
    assert_eq!(derive_file_name("/music/set.txt"), "set-formatted.txt");
    assert_eq!(derive_file_name("C:\\dj\\b.c.m3u"), "b.c-formatted.txt");
    assert_eq!(derive_file_name("/music/.hidden"), ".hidden-formatted.txt");
    assert_eq!(derive_file_name("plain"), "plain-formatted.txt");
}

#[test]
fn resolve_targets() {
    let src = "/music/set.txt";
    let save_none = SaveRequest::Save(None);
    assert_eq!(resolve_target(&save_none, false, src, "/out").as_deref(), Some("/music/set-formatted.txt"));
    assert_eq!(resolve_target(&save_none, true, src, "/out").as_deref(), Some("/out/set-formatted.txt"));
    assert_eq!(resolve_target(&save_none, true, src, "/out/").as_deref(), Some("/out/set-formatted.txt"));
    assert_eq!(
        resolve_target(&SaveRequest::Save(Some(String::new())), false, "set.txt", "/out").as_deref(),
        Some("set-formatted.txt")
    );
    assert_eq!(
        resolve_target(&SaveRequest::Save(Some("y.txt".to_string())), true, src, "/out").as_deref(),
        Some("y.txt")
    );
    assert_eq!(
        resolve_target(&SaveRequest::Output("x.txt".to_string()), true, src, "/out").as_deref(),
        Some("x.txt")
    );
    assert!(resolve_target(&SaveRequest::Nothing, true, src, "/out").is_none());
}

#[test]
fn save_request_precedence() {
    let r = SaveRequest::from_args(Some("o.txt".to_string()), Some(Some("s.txt".to_string())));
    assert!(matches!(r, SaveRequest::Save(Some(ref p)) if p == "s.txt"));
    let r = SaveRequest::from_args(Some("o.txt".to_string()), None);
    assert!(matches!(r, SaveRequest::Output(ref p) if p == "o.txt"));
    assert!(matches!(SaveRequest::from_args(None, None), SaveRequest::Nothing));
}

#[test]
fn existing_target_without_force_conflicts() {
    let r = plan_save("/out/set-formatted.txt", true, true, false);
    assert!(matches!(r, Err(PersistenceError::AlreadyExists(ref p)) if p == "/out/set-formatted.txt"));
}

#[test]
fn existing_target_with_force_is_replaced() {
    let plan = plan_save("/out/a.txt", true, true, true).unwrap();
    assert_eq!(plan.path, "/out/a.txt");
    assert!(plan.overwrite);
    assert!(!plan.create_parent);
    let p = playlist("1. Artist - Title\n");
    assert_eq!(to_text(&p.render(FormattingStyle::Basic)), "Artist - Title\n");
}

#[test]
fn new_target_in_missing_directory() {
    let plan = plan_save("/new/dir/a.txt", false, false, false).unwrap();
    assert_eq!(plan.path, "/new/dir/a.txt");
    assert!(!plan.overwrite);
    assert!(plan.create_parent);
}

#[test]
fn unicode_whitespace_only_lines_are_dropped() {
    let p = playlist("A\n\x0B");
    assert_eq!(p.render(FormattingStyle::Basic), vec!["A".to_string()]);
    let text = "A - B\n\u{A0}\n\u{3000}\u{2003}\u{85}\n\x0B\x0C\nC - D";
    let p = playlist(text);
    assert_eq!(p.tracks.len(), 2);
    let nonblank = text.lines().filter(|l| !l.trim().is_empty()).count();
    assert_eq!(p.render(FormattingStyle::Basic).len(), nonblank);
    assert!(parse_line("\u{A0}", 1).is_none());
    assert!(parse_line("\u{2028}\u{205F}\u{1680}", 1).is_none());
}

#[test]
fn unicode_whitespace_is_trimmed_from_fields() {
    let t = parse_line("\u{A0}Artist\u{2009}-\u{3000}Title\u{202F}", 1).unwrap();
    assert_eq!(t.raw, "Artist\u{2009}-\u{3000}Title");
    assert!(t.artist.is_none());
    let t = parse_line("\u{3000}1. Artist - Title\u{A0}", 1).unwrap();
    assert_eq!(t.artist.as_deref(), Some("Artist"));
    assert_eq!(t.title, "Title");
}

#[test]
fn input_path_trims_like_std() {
    assert!(input_path("\u{A0}\x0B").is_none());
    assert!(input_path("\u{3000}").is_none());
    assert_eq!(input_path("\u{3000}list.txt\u{85}").as_deref(), Some("list.txt"));
    for s in ["  a b  ", "\u{2000}x\u{200A}", "\x0Bq\x0D", "\u{1F600}", "\u{200B}x"] {
        let expected = if s.trim().is_empty() { None } else { Some(s.trim().to_string()) };
        assert_eq!(input_path(s), expected);
    }
}
