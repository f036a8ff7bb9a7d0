use audio_player::library::{
    escape_like, is_supported_audio_file, needs_reread, pending_action, stale_track_ids,
    track_query, PendingAction, PendingPaths, ScanSummary, TrackFilter, UpsertOutcome,
    WatcherAction, WatcherCommand, WatcherEvent,
};

#[test]
fn detects_supported_extensions_case_insensitively() {
    assert!(is_supported_audio_file("cancion.mp3"));
    assert!(is_supported_audio_file("cancion.MP3"));
    assert!(is_supported_audio_file("cancion.flac"));
    assert!(!is_supported_audio_file("portada.jpg"));
    assert!(!is_supported_audio_file("sin_extension"));
}

#[test]
fn hidden_file_named_like_an_extension_is_not_audio() {
    assert!(!is_supported_audio_file("/music/.mp3"));
    assert!(is_supported_audio_file("/music/a.b/c.Ogg"));
}

#[test]
fn only_the_listed_audio_formats_are_taken_in() {
    for ext in ["mp3", "flac", "ogg", "wav", "m4a", "aac", "mp4"] {
        assert!(is_supported_audio_file(&format!("/music/track.{ext}")));
    }
    assert!(!is_supported_audio_file("/music/track.oga"));
    assert!(!is_supported_audio_file("/music/track.wma"));
}

#[test]
fn page_size_is_capped_at_one_thousand() {
    let q = track_query(&TrackFilter { limit: Some(1500), ..TrackFilter::default() });
    assert_eq!(q.limit, 1000);
    let q = track_query(&TrackFilter { limit: Some(1000), ..TrackFilter::default() });
    assert_eq!(q.limit, 1000);
    let q = track_query(&TrackFilter { limit: Some(999), ..TrackFilter::default() });
    assert_eq!(q.limit, 999);
}

#[test]
fn escape_like_escapes_wildcards_and_backslash() {
    assert_eq!(escape_like("50%_off\\"), "50\\%\\_off\\\\");
    assert_eq!(escape_like("plain"), "plain");
}

#[test]
fn track_query_defaults_and_clamps() {
    let q = track_query(&TrackFilter::default());
    assert_eq!(q.search_pattern, None);
    assert_eq!(q.limit, 500);
    assert_eq!(q.offset, 0);

    let q = track_query(&TrackFilter {
        search: Some("  a_b  ".to_string()),
        artist_id: Some(7),
        album_id: None,
        genre_id: Some(2),
        limit: Some(100_000),
        offset: Some(-5),
    });
    assert_eq!(q.search_pattern, Some("%a\\_b%".to_string()));
    assert_eq!(q.artist_id, Some(7));
    assert_eq!(q.genre_id, Some(2));
    assert_eq!(q.limit, 1000);
    assert_eq!(q.offset, 0);

    let q = track_query(&TrackFilter {
        search: Some("   ".to_string()),
        limit: Some(0),
        offset: Some(30),
        ..TrackFilter::default()
    });
    assert_eq!(q.search_pattern, None);
    assert_eq!(q.limit, 1);
    assert_eq!(q.offset, 30);
}

#[test]
fn scan_summary_counts_each_outcome() {
    let mut s = ScanSummary::default();
    s.record_file(UpsertOutcome::Added);
    s.record_file(UpsertOutcome::Added);
    s.record_file(UpsertOutcome::Updated);
    s.record_file(UpsertOutcome::Unchanged);
    s.record_file(UpsertOutcome::Failed);
    assert_eq!(
        s,
        ScanSummary { scanned: 5, added: 2, updated: 1, removed: 0, errors: 1 }
    );
    let mut total = ScanSummary::default();
    total.add(&s);
    total.add(&ScanSummary { scanned: 1, added: 0, updated: 0, removed: 4, errors: 0 });
    assert_eq!(
        total,
        ScanSummary { scanned: 6, added: 2, updated: 1, removed: 4, errors: 1 }
    );
}

#[test]
fn needs_reread_only_when_size_or_mtime_changed() {
    assert!(needs_reread(None, 10, 20));
    assert!(!needs_reread(Some((10, 20)), 10, 20));
    assert!(needs_reread(Some((11, 20)), 10, 20));
    assert!(needs_reread(Some((10, 21)), 10, 20));
}

#[test]
fn stale_tracks_are_those_under_root_not_seen() {
    let rows = vec![
        (1, "/music/a/x.mp3".to_string()),
        (2, "/music/a/y.mp3".to_string()),
        (3, "/music/b/z.mp3".to_string()),
        (4, "/music/ab/w.mp3".to_string()),
    ];
    let seen = vec!["/music/a//x.mp3".to_string()];
    assert_eq!(stale_track_ids(&rows, "/music/a", &seen), vec![2]);
    assert_eq!(stale_track_ids(&rows, "/music/a", &vec![]), vec![1, 2]);
}

#[test]
fn watcher_collects_changed_paths_once_and_ignores_reads() {
    let mut pending = PendingPaths::new();
    assert!(pending.is_empty());
    let a = pending.on_event(WatcherEvent::FilesChanged {
        is_access: false,
        paths: vec!["/m/a.mp3".to_string(), "/m/b.mp3".to_string(), "/m/a.mp3".to_string()],
    });
    assert_eq!(a, WatcherAction::Nothing);
    pending.on_event(WatcherEvent::FilesChanged {
        is_access: true,
        paths: vec!["/m/c.mp3".to_string()],
    });
    pending.on_event(WatcherEvent::WatchError);
    assert_eq!(
        pending.on_event(WatcherEvent::Command(WatcherCommand::AddFolder("/m".to_string()))),
        WatcherAction::WatchAndScan("/m".to_string())
    );
    assert_eq!(
        pending.on_event(WatcherEvent::Command(WatcherCommand::RemoveFolder("/n".to_string()))),
        WatcherAction::Unwatch("/n".to_string())
    );
    assert_eq!(pending.drain(), vec!["/m/a.mp3".to_string(), "/m/b.mp3".to_string()]);
    assert!(pending.is_empty());
}

#[test]
fn pending_paths_are_skipped_read_or_removed() {
    assert_eq!(pending_action("/m/cover.jpg", true), PendingAction::Skip);
    assert_eq!(pending_action("/m/a.flac", true), PendingAction::Upsert);
    assert_eq!(pending_action("/m/a.flac", false), PendingAction::Remove);
}
