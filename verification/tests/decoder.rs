use audio_player::decoder::stream_format;

#[test]
fn stream_format_falls_back_to_stereo_and_44100() {
    assert_eq!(stream_format(None, None), Ok((2, 44_100)));
    assert_eq!(stream_format(Some(0), Some(0)), Ok((2, 44_100)));
    assert_eq!(stream_format(Some(1), Some(48_000)), Ok((1, 48_000)));
    assert_eq!(stream_format(Some(65_536), Some(48_000)), Err("Número de canales inválido".to_string()));
}
