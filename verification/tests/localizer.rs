use playlist_localizer::assembler::m3u_playlist;
use playlist_localizer::extractor::m3u_playlist_paths;
use playlist_localizer::index::{index, Extension};
use playlist_localizer::matcher::match_file;
use playlist_localizer::paths::{file_extension, file_stem, path_segments, platform_path};

fn strings(v: &[&str]) -> Vec<String> {
    v.iter().map(|s| s.to_string()).collect()
}

#[test]
fn resolves_relocated_reference() {
    let files = strings(&["/music/Artist/Album/Track.mp3"]);
    let (idx, _playlists) = index(&files);
    let reference = platform_path("C:\\OldLib\\Artist\\Album\\Track.mp3");
    assert_eq!(reference, "C:/OldLib/Artist/Album/Track.mp3");
    let found = match_file(&idx, &reference);
    assert_eq!(found, Some(&"/music/Artist/Album/Track.mp3".to_string()));
}

#[test]
fn resolves_by_parent_and_extension() {
    let files = strings(&["/music/A/Track.mp3", "/music/B/Track.flac"]);
    let (idx, _playlists) = index(&files);
    let found = match_file(&idx, "X/B/Track.flac");
    assert_eq!(found, Some(&"/music/B/Track.flac".to_string()));
}

#[test]
fn no_extension_reference_never_matches() {
    let files = strings(&["/music/NoExtensionFile.mp3", "/music/Other.mp3"]);
    let (idx, _playlists) = index(&files);
    assert_eq!(match_file(&idx, "NoExtensionFile"), None);
}

#[test]
fn unknown_stem_never_matches() {
    let files = strings(&["/music/Known.mp3"]);
    let (idx, _playlists) = index(&files);
    assert_eq!(match_file(&idx, "Unknown.mp3"), None);
}

#[test]
fn extractor_skips_directive_lines() {
    let refs = m3u_playlist_paths("#EXTM3U\n#EXTINF:120,X - Y\nsong.mp3");
    assert_eq!(refs, strings(&["song.mp3"]));
}

#[test]
fn extractor_keeps_blank_lines_as_references() {
    let refs = m3u_playlist_paths("a.mp3\n\nb.mp3");
    assert_eq!(refs, strings(&["a.mp3", "", "b.mp3"]));
}

#[test]
fn extractor_strips_carriage_returns_before_terminators() {
    let refs = m3u_playlist_paths("a.mp3\r\nb.mp3");
    assert_eq!(refs, strings(&["a.mp3", "b.mp3"]));
}

#[test]
fn extractor_keeps_bare_carriage_return_on_final_line() {
    // Only a carriage return directly before a line terminator is
    // stripped; a final unterminated line is kept as it stands.
    let refs = m3u_playlist_paths("a.mp3\nb.mp3\r");
    assert_eq!(refs, strings(&["a.mp3", "b.mp3\r"]));
}

#[test]
fn extractor_ignores_trailing_terminator() {
    let refs = m3u_playlist_paths("a.mp3\nb.mp3\n");
    assert_eq!(refs, strings(&["a.mp3", "b.mp3"]));
}

#[test]
fn extractor_normalizes_separators() {
    let refs = m3u_playlist_paths("Artist\\Album\\song.mp3\n");
    assert_eq!(refs, strings(&["Artist/Album/song.mp3"]));
}

#[test]
fn empty_playlist_text_yields_no_songs() {
    let files = strings(&["/music/Track.mp3"]);
    let (idx, _playlists) = index(&files);
    let refs = m3u_playlist_paths("");
    let playlist = m3u_playlist(&idx, &refs, "empty".to_string());
    assert_eq!(playlist.songs.len(), 0);
    assert_eq!(playlist.to_m3u(), "");
}

#[test]
fn tie_break_prefers_matching_extension() {
    let files = strings(&["/x/Track.mp3", "/y/Track.flac"]);
    let (idx, _playlists) = index(&files);
    assert_eq!(match_file(&idx, "z/Track.flac"), Some(&"/y/Track.flac".to_string()));
    assert_eq!(match_file(&idx, "z/Track.mp3"), Some(&"/x/Track.mp3".to_string()));
}

#[test]
fn strict_improvement_beats_extension_match() {
    let files = strings(&["/a/b/Track.mp3", "/q/Track.flac"]);
    let (idx, _playlists) = index(&files);
    // The mp3 candidate shares the parent directory `b`; its higher score
    // wins although only the flac candidate matches the extension.
    assert_eq!(match_file(&idx, "w/b/Track.flac"), Some(&"/a/b/Track.mp3".to_string()));
}

#[test]
fn sole_candidate_resolves_despite_extension_mismatch() {
    // The only comparable candidate is the best one even at score 0 with a
    // mismatched extension: "no match" at this stage needs every candidate
    // to lack an extension.
    let files = strings(&["/somewhere/Track.mp3"]);
    let (idx, _playlists) = index(&files);
    assert_eq!(match_file(&idx, "elsewhere/Track.flac"), Some(&"/somewhere/Track.mp3".to_string()));
}

#[test]
fn identical_paths_score_zero_and_resolve() {
    // A candidate whose directory chain never diverges within the overlap
    // keeps the default score 0 and is still accepted as the sole
    // comparable candidate.
    let files = strings(&["/Track.mp3"]);
    let (idx, _playlists) = index(&files);
    assert_eq!(match_file(&idx, "Track.mp3"), Some(&"/Track.mp3".to_string()));
}

#[test]
fn candidates_are_not_reserved_across_references() {
    let files = strings(&["/music/Track.mp3"]);
    let (idx, _playlists) = index(&files);
    let refs = strings(&["a/Track.mp3", "b/Track.mp3"]);
    let playlist = m3u_playlist(&idx, &refs, "twice".to_string());
    assert_eq!(playlist.songs, strings(&["/music/Track.mp3", "/music/Track.mp3"]));
}

#[test]
fn assembler_preserves_order_and_drops_failures() {
    let files = strings(&["/m/One.mp3", "/m/Two.mp3", "/m/Three.mp3"]);
    let (idx, _playlists) = index(&files);
    let refs = strings(&["old/Two.mp3", "old/Missing.mp3", "old/One.mp3", "old/Three.mp3"]);
    let playlist = m3u_playlist(&idx, &refs, "mix".to_string());
    assert_eq!(playlist.name, "mix");
    assert_eq!(playlist.songs, strings(&["/m/Two.mp3", "/m/One.mp3", "/m/Three.mp3"]));
}

#[test]
fn extraction_is_idempotent_on_identical_text() {
    let text = "#EXTM3U\nA\\one.mp3\n\ntwo.mp3\r\n";
    let first = m3u_playlist_paths(text);
    let second = m3u_playlist_paths(text);
    assert_eq!(first, second);
}

#[test]
fn index_groups_by_stem_in_discovery_order() {
    let files = strings(&[
        "/m/a/Track.mp3",
        "/m/Other.ogg",
        "/m/b/Track.flac",
        "/m/skip.txt",
        "/m/lists/mine.m3u",
    ]);
    let (idx, playlists) = index(&files);
    assert_eq!(idx.entries.len(), 2);
    assert_eq!(idx.entries[0].stem, "Track");
    assert_eq!(idx.entries[0].paths, strings(&["/m/a/Track.mp3", "/m/b/Track.flac"]));
    assert_eq!(idx.entries[1].stem, "Other");
    assert_eq!(idx.entries[1].paths, strings(&["/m/Other.ogg"]));
    assert_eq!(playlists, strings(&["/m/lists/mine.m3u"]));
}

#[test]
fn index_skips_files_without_stem_or_extension() {
    let files = strings(&["", "/", "/m/noext", "/m/.hidden", "/m/ok.mp3"]);
    let (idx, playlists) = index(&files);
    assert_eq!(idx.entries.len(), 1);
    assert_eq!(idx.entries[0].stem, "ok");
    assert!(playlists.is_empty());
}

#[test]
fn extension_classification_is_case_sensitive_and_exact() {
    assert!(matches!(Extension::of("mp3"), Extension::Music));
    assert!(matches!(Extension::of("flac"), Extension::Music));
    assert!(matches!(Extension::of("aac"), Extension::Music));
    assert!(matches!(Extension::of("m4a"), Extension::Music));
    assert!(matches!(Extension::of("m4b"), Extension::Music));
    assert!(matches!(Extension::of("ogg"), Extension::Music));
    assert!(matches!(Extension::of("opus"), Extension::Music));
    assert!(matches!(Extension::of("m3u"), Extension::Playlist));
    assert!(matches!(Extension::of("MP3"), Extension::Unknown));
    assert!(matches!(Extension::of("txt"), Extension::Unknown));
    assert!(matches!(Extension::of(""), Extension::Unknown));
}

#[test]
fn path_segments_drop_separators() {
    assert_eq!(path_segments("/music/Artist/Album/Track.mp3"),
        strings(&["music", "Artist", "Album", "Track.mp3"]));
    assert_eq!(path_segments("C:/Old//Lib/"), strings(&["C:", "Old", "Lib"]));
    assert_eq!(path_segments(""), Vec::<String>::new());
    assert_eq!(path_segments("///"), Vec::<String>::new());
}

#[test]
fn stems_and_extensions_split_at_the_last_dot() {
    assert_eq!(file_stem("/m/Track.mp3"), Some("Track".to_string()));
    assert_eq!(file_extension("/m/Track.mp3"), Some("mp3".to_string()));
    assert_eq!(file_stem("a.b.c"), Some("a.b".to_string()));
    assert_eq!(file_extension("a.b.c"), Some("c".to_string()));
    assert_eq!(file_stem(".hidden"), Some(".hidden".to_string()));
    assert_eq!(file_extension(".hidden"), None);
    assert_eq!(file_stem("noext"), Some("noext".to_string()));
    assert_eq!(file_extension("noext"), None);
    assert_eq!(file_stem("dot."), Some("dot".to_string()));
    assert_eq!(file_extension("dot."), Some("".to_string()));
    assert_eq!(file_stem("/"), None);
    assert_eq!(file_extension("/"), None);
}

#[test]
fn platform_path_rewrites_backslashes() {
    assert_eq!(platform_path("a\\b\\c.mp3"), "a/b/c.mp3");
    assert_eq!(platform_path("a/b/c.mp3"), "a/b/c.mp3");
    assert_eq!(platform_path(""), "");
}
