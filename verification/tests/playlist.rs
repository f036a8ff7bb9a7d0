use audio_player::playlist::{
    import_entry_action, imported_playlist_name, ImportEntryAction, m3u_track_paths, parse_m3u, render_m3u, reorder_ids, M3uEntry,
};

fn entry(d: i64, artist: Option<&str>, title: &str, path: &str) -> M3uEntry {
    M3uEntry {
        duration_secs: d,
        artist: artist.map(|a| a.to_string()),
        title: title.to_string(),
        path: path.to_string(),
    }
}

#[test]
fn export_writes_extended_m3u() {
    let text = render_m3u(&vec![
        entry(3, Some("Artista Prueba"), "Con Caratula", "/m/a.mp3"),
        entry(-2, Some(""), "Solo titulo", "/m/b.mp3"),
        entry(120, None, "Otro", "/m/c.mp3"),
    ]);
    assert!(text.starts_with("#EXTM3U\n"));
    assert!(text.contains("#EXTINF:"));
    assert_eq!(
        text,
        "#EXTM3U\n#EXTINF:3,Artista Prueba - Con Caratula\n/m/a.mp3\n#EXTINF:-2,Solo titulo\n/m/b.mp3\n#EXTINF:120,Otro\n/m/c.mp3\n"
    );
}

#[test]
fn export_then_import_roundtrip_preserves_order() {
    let entries = vec![
        entry(3, Some("A"), "x", "/m/1.mp3"),
        entry(4, None, "y", "/m/2.mp3"),
        entry(5, Some("B"), "z", "/m/3.mp3"),
    ];
    let text = render_m3u(&entries);
    assert_eq!(parse_m3u(&text), vec!["/m/1.mp3", "/m/2.mp3", "/m/3.mp3"]);
}

#[test]
fn import_skips_blank_lines_comments_and_trims() {
    let text = "#EXTM3U\r\n\r\n  /m/a.mp3  \r\n# comentario\n\tb.mp3\n   \n/m/c.mp3";
    assert_eq!(parse_m3u(text), vec!["/m/a.mp3", "b.mp3", "/m/c.mp3"]);
    assert_eq!(parse_m3u(""), Vec::<String>::new());
}

#[test]
fn import_resolves_relative_entries_against_the_playlist_folder() {
    let paths = m3u_track_paths("/lists/fav.m3u", "#EXTM3U\n/abs/a.mp3\nrel/b.mp3\n");
    assert_eq!(paths, vec!["/abs/a.mp3", "/lists/rel/b.mp3"]);
    let paths = m3u_track_paths("fav.m3u", "b.mp3\n");
    assert_eq!(paths, vec!["b.mp3"]);
}

#[test]
fn imported_playlist_is_named_after_the_file_unless_a_name_is_given() {
    assert_eq!(imported_playlist_name(Some("Importada".to_string()), "/x/p.m3u"), "Importada");
    assert_eq!(imported_playlist_name(None, "/x/roundtrip.m3u"), "roundtrip");
    assert_eq!(imported_playlist_name(None, "/"), "Playlist importada");
}

#[test]
fn reorder_track_moves_it_to_the_requested_position() {
    let ids = vec![11, 12, 13];
    assert_eq!(reorder_ids(&ids, 11, 2), Some(vec![12, 13, 11]));
    assert_eq!(reorder_ids(&ids, 13, 0), Some(vec![13, 11, 12]));
    assert_eq!(reorder_ids(&ids, 12, 50), Some(vec![11, 13, 12]));
    assert_eq!(reorder_ids(&ids, 99, 0), None);
}

#[test]
fn import_skips_missing_files_and_scans_in_the_unknown_ones() {
    assert_eq!(import_entry_action(false, None), ImportEntryAction::Skip);
    assert_eq!(import_entry_action(false, Some(4)), ImportEntryAction::Skip);
    assert_eq!(import_entry_action(true, Some(4)), ImportEntryAction::Add(4));
    assert_eq!(import_entry_action(true, None), ImportEntryAction::ScanThenAdd);
}
