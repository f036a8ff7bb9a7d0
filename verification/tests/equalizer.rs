use audio_player::equalizer::{EqPreset, EqualizerControl, MAX_GAIN_CENTIDB, MIN_GAIN_CENTIDB, NUM_BANDS};

#[test]
fn equalizer_control_clamps_gain_to_valid_range() {
    let mut control = EqualizerControl::new();
    control.set_gain(0, 99_900);
    control.set_gain(1, -99_900);
    let gains = control.gains_centidb();
    assert_eq!(gains[0], MAX_GAIN_CENTIDB);
    assert_eq!(gains[1], MIN_GAIN_CENTIDB);
}

#[test]
fn equalizer_control_round_trips_gains() {
    let mut control = EqualizerControl::new();
    let mut gains = [0i32; NUM_BANDS];
    gains[3] = 550;
    gains[7] = -325;
    control.set_gains(&gains);

    let read_back = control.gains_centidb();
    assert_eq!(read_back[3], 550);
    assert_eq!(read_back[7], -325);
}

#[test]
fn out_of_range_band_index_is_ignored_not_a_panic() {
    let mut control = EqualizerControl::new();
    control.set_gain(NUM_BANDS + 5, 1000); // no debe entrar en pánico
    assert_eq!(control.gains_centidb(), vec![0; NUM_BANDS]);
}

#[test]
fn presets_have_the_expected_band_count_and_are_within_range() {
    for preset in [EqPreset::Flat, EqPreset::Rock, EqPreset::Pop, EqPreset::Jazz] {
        let gains = preset
            .gains_centidb()
            .expect("los presets con nombre tienen curva propia");
        assert_eq!(gains.len(), NUM_BANDS);
        for gain in gains {
            assert!(
                (MIN_GAIN_CENTIDB..=MAX_GAIN_CENTIDB).contains(&gain),
                "ganancia fuera de rango en preset {preset:?}: {gain}"
            );
        }
    }
    assert_eq!(EqPreset::Custom.gains_centidb(), None);
}

#[test]
fn new_control_is_flat_and_default_matches_new() {
    assert_eq!(EqualizerControl::new().gains_centidb(), vec![0; NUM_BANDS]);
    assert_eq!(EqualizerControl::default().gains_centidb(), vec![0; NUM_BANDS]);
}

#[test]
fn rock_preset_curve_is_exact() {
    assert_eq!(
        EqPreset::Rock.gains_centidb(),
        Some(vec![400, 300, -100, -200, -100, 100, 300, 400, 400, 400])
    );
}

#[test]
fn set_gains_clamps_each_band_and_keeps_the_rest_of_a_short_slice() {
    let mut control = EqualizerControl::new();
    control.set_gain(5, 700);
    control.set_gains(&[5000, -5000]);
    let g = control.gains_centidb();
    assert_eq!(g[0], 1200);
    assert_eq!(g[1], -1200);
    assert_eq!(g[5], 700);
}
