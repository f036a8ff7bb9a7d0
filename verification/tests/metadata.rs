use audio_player::metadata::{
    cache_key, cached_cover_candidates, choose_cover, cover_file_name, extension_for,
    fallback_title, non_empty, track_title, CoverMime,
};

#[test]
fn falls_back_to_filename_when_no_tags() {
    assert_eq!(track_title(None, "/fixtures/test-tone-no-tags.mp3"), "test-tone-no-tags");
    assert_eq!(track_title(Some("   ".to_string()), "/x/y.flac"), "y");
    assert_eq!(track_title(Some("Con Caratula".to_string()), "/x/y.flac"), "Con Caratula");
    assert_eq!(fallback_title("/"), "");
}

#[test]
fn non_empty_keeps_only_text_that_is_not_blank() {
    assert_eq!(non_empty(None), None);
    assert_eq!(non_empty(Some(" \t\n".to_string())), None);
    assert_eq!(non_empty(Some(" Jazz ".to_string())), Some(" Jazz ".to_string()));
}

#[test]
fn cover_extensions_follow_the_picture_format() {
    assert_eq!(extension_for(Some(CoverMime::Png)), "png");
    assert_eq!(extension_for(Some(CoverMime::Jpeg)), "jpg");
    assert_eq!(extension_for(Some(CoverMime::Tiff)), "tiff");
    assert_eq!(extension_for(Some(CoverMime::Bmp)), "bmp");
    assert_eq!(extension_for(Some(CoverMime::Gif)), "gif");
    assert_eq!(extension_for(Some(CoverMime::Other)), "bin");
    assert_eq!(extension_for(None), "bin");
}

#[test]
fn front_cover_is_preferred_over_the_first_picture() {
    assert_eq!(choose_cover(&vec![false, true, true]), Some(1));
    assert_eq!(choose_cover(&vec![false, false]), Some(0));
    assert_eq!(choose_cover(&vec![]), None);
}

fn reference_key(path: &str, len: u64, mtime: u64) -> String {
    let mut hash: u64 = 0xcbf29ce484222325;
    let mut feed = |bytes: &[u8]| {
        for &b in bytes {
            hash ^= u64::from(b);
            hash = hash.wrapping_mul(0x0000_0100_0000_01b3);
        }
    };
    feed(path.as_bytes());
    feed(&len.to_le_bytes());
    feed(&mtime.to_le_bytes());
    format!("{hash:016x}")
}

#[test]
fn cache_key_is_fnv1a_of_path_size_and_mtime_in_hex() {
    for (p, l, m) in [("/music/canción.mp3", 1234u64, 1_700_000_000u64), ("", 0, 0), ("a", u64::MAX, 1)] {
        assert_eq!(cache_key(p, l, m), reference_key(p, l, m));
    }
    let k = cache_key("/a.mp3", 1, 2);
    assert_eq!(k.len(), 16);
    assert_ne!(k, cache_key("/a.mp3", 1, 3));
}

#[test]
fn cached_cover_names_are_tried_in_order() {
    assert_eq!(cover_file_name("abc", "png"), "abc.png");
    assert_eq!(
        cached_cover_candidates("k"),
        vec!["k.jpg", "k.png", "k.tiff", "k.bmp", "k.gif", "k.bin"]
    );
}
