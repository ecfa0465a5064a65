use playlist_localizer::metadata::SongMetadata;
use playlist_localizer::playlist::{Playlist, PlaylistFormat};
use playlist_localizer::strutil::u64_to_string;

fn strings(v: &[&str]) -> Vec<String> {
    v.iter().map(|s| s.to_string()).collect()
}

#[test]
fn to_m3u_writes_one_path_per_line() {
    let playlist = Playlist::new("p".to_string(), strings(&["/m/a.mp3", "/m/b/c.flac"]));
    assert_eq!(playlist.to_m3u(), "/m/a.mp3\n/m/b/c.flac\n");
}

#[test]
fn to_m3u_of_empty_playlist_is_empty() {
    let playlist = Playlist::new("p".to_string(), Vec::new());
    assert_eq!(playlist.to_m3u(), "");
}

#[test]
fn to_extm3u_writes_header_directive_and_path() {
    let playlist = Playlist::new("p".to_string(), strings(&["/m/x.mp3"]));
    let meta = vec![SongMetadata::new("T".to_string(), "A".to_string(), 120)];
    assert_eq!(playlist.to_extm3u(&meta), "#EXTM3U\n#EXTINF:120,A - T\n/m/x.mp3");
}

#[test]
fn to_extm3u_defaults_to_empty_fields_and_zero() {
    let playlist = Playlist::new("p".to_string(), strings(&["/m/x.mp3", "/m/y.ogg"]));
    let meta = vec![
        SongMetadata::default(),
        SongMetadata::new("Title".to_string(), "Artist".to_string(), 7),
    ];
    assert_eq!(
        playlist.to_extm3u(&meta),
        "#EXTM3U\n#EXTINF:0, - \n/m/x.mp3\n#EXTINF:7,Artist - Title\n/m/y.ogg"
    );
}

#[test]
fn render_dispatches_on_format() {
    let playlist = Playlist::new("p".to_string(), strings(&["/m/x.mp3"]));
    let meta = vec![SongMetadata::new("T".to_string(), "A".to_string(), 3)];
    assert_eq!(playlist.render(PlaylistFormat::M3u, &Vec::new()), "/m/x.mp3\n");
    assert_eq!(playlist.render(PlaylistFormat::Extm3u, &meta), "#EXTM3U\n#EXTINF:3,A - T\n/m/x.mp3");
}

#[test]
fn playlist_format_parses_known_names_only() {
    assert_eq!(PlaylistFormat::from_str("m3u"), Ok(PlaylistFormat::M3u));
    assert_eq!(PlaylistFormat::from_str("extm3u"), Ok(PlaylistFormat::Extm3u));
    assert!(PlaylistFormat::from_str("wav").is_err());
    assert!(PlaylistFormat::from_str("").is_err());
}

#[test]
fn decimal_rendering_is_exact() {
    assert_eq!(u64_to_string(0), "0");
    assert_eq!(u64_to_string(9), "9");
    assert_eq!(u64_to_string(10), "10");
    assert_eq!(u64_to_string(120), "120");
    assert_eq!(u64_to_string(18446744073709551615), "18446744073709551615");
}

#[test]
fn metadata_constructor_keeps_fields() {
    let m = SongMetadata::new("t".to_string(), "a".to_string(), 42);
    assert_eq!(m.title, "t");
    assert_eq!(m.artist, "a");
    assert_eq!(m.duration, 42);
    let d = SongMetadata::default();
    assert_eq!(d.title, "");
    assert_eq!(d.artist, "");
    assert_eq!(d.duration, 0);
}
