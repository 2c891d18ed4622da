use bridge::test_tone::{
    clockwise_sweep, pos_str_to_spa_ids, SPA_AUDIO_CHANNEL_FC, SPA_AUDIO_CHANNEL_FL, SPA_AUDIO_CHANNEL_FR,
    SPA_AUDIO_CHANNEL_LFE, SPA_AUDIO_CHANNEL_UNKNOWN,
};

#[test]
fn maps_known_positions() {
    assert_eq!(
        pos_str_to_spa_ids("FL,FR", 2),
        vec![SPA_AUDIO_CHANNEL_FL, SPA_AUDIO_CHANNEL_FR]
    );
}

#[test]
fn caps_at_channel_count() {
    assert_eq!(
        pos_str_to_spa_ids("FL,FR,FC", 2),
        vec![SPA_AUDIO_CHANNEL_FL, SPA_AUDIO_CHANNEL_FR]
    );
}

#[test]
fn unknown_token_maps_to_unknown() {
    assert_eq!(pos_str_to_spa_ids("ZZ", 1), vec![SPA_AUDIO_CHANNEL_UNKNOWN]);
}

#[test]
fn tokens_are_trimmed_and_short_layouts_stay_short() {
    assert_eq!(
        pos_str_to_spa_ids(" FC , LFE", 6),
        vec![SPA_AUDIO_CHANNEL_FC, SPA_AUDIO_CHANNEL_LFE]
    );
    assert_eq!(pos_str_to_spa_ids("FL,FR", 0), Vec::<u32>::new());
    assert_eq!(SPA_AUDIO_CHANNEL_FL, 3);
}

#[test]
fn sweeps_clockwise_with_lfe_last() {
    let ids = pos_str_to_spa_ids("FL,FR,FC,LFE,RL,RR,SL,SR", 8);
    assert_eq!(clockwise_sweep(&ids), vec![0, 2, 1, 7, 5, 4, 6, 3]);
}

#[test]
fn sweeps_stereo_left_then_right() {
    assert_eq!(clockwise_sweep(&pos_str_to_spa_ids("FL,FR", 2)), vec![0, 1]);
}

#[test]
fn sweeps_unknown_channels_before_lfe() {
    let ids = pos_str_to_spa_ids("FL,AUX0,LFE,FR", 4);
    assert_eq!(clockwise_sweep(&ids), vec![0, 3, 1, 2]);
}
