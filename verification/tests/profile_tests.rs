use rust_stubs::profile::{
    c_copy_len, fake_display_name, write_fake_gamertag, fake_xuid, initialise_default_game_settings,
    pad_slot, profile_data_size, FakeIdentities, ProfileGameSettings, FAKE_XUID_BASE,
    GAMESETTING_BEDROCKFOG, GAMESETTING_CLOUDS, GAMESETTING_ONLINE,
};

#[test]
fn test_profile_game_settings_size() {
    assert_eq!(std::mem::size_of::<ProfileGameSettings>(), 204);
}

#[test]
fn test_initialise_default_game_settings() {
    let mut settings = ProfileGameSettings::default();
    initialise_default_game_settings(&mut settings);

    assert_eq!(settings.uc_menu_sensitivity, 100);
    assert_eq!(settings.uc_interface_opacity, 80);
    assert_ne!(settings.us_bitmask_values & 0x0200, 0);
    assert_ne!(settings.ui_bitmask_values & GAMESETTING_CLOUDS, 0);
    assert_ne!(settings.ui_bitmask_values & GAMESETTING_ONLINE, 0);
    assert_eq!(settings.ui_bitmask_values & GAMESETTING_BEDROCKFOG, 0);
    assert_eq!(settings.uc_tutorial_completion[0], 0xFF);
    assert_eq!(settings.uc_tutorial_completion[1], 0xFF);
    assert_eq!(settings.uc_tutorial_completion[2], 0x0F);
    assert_ne!(settings.uc_tutorial_completion[28] & 1, 0);
}

#[test]
fn default_settings_exact_values() {
    let mut settings = ProfileGameSettings::default();
    settings.uc_gamma = 9;
    initialise_default_game_settings(&mut settings);
    assert_eq!(settings.ui_bitmask_values, 0xCFBB);
    assert_eq!(settings.us_bitmask_values, 0x9600);
    assert_eq!(settings.ui_favorite_skin_a, [0xFFFF_FFFF; 10]);
    assert_eq!(settings.ui_mash_up_pack_worlds_display, 0xFFFF_FFFF);
    assert_eq!(settings.uc_gamma, 9);
    assert_eq!(settings.uc_tutorial_completion[3], 0);
}

#[test]
fn stand_in_identities() {
    assert_eq!(pad_slot(2), 2);
    assert_eq!(pad_slot(4), 0);
    assert_eq!(pad_slot(-1), 0);
    assert_eq!(fake_xuid(0), FAKE_XUID_BASE);
    assert_eq!(fake_xuid(1), FAKE_XUID_BASE + 1);
    assert_eq!(fake_xuid(9), FAKE_XUID_BASE);
    assert_eq!(fake_display_name(0), "Player1");
    assert_eq!(fake_display_name(3), "Player4");
    let tag = write_fake_gamertag([7u8; 16], 1);
    assert_eq!(&tag[..8], b"Player2\0");
    assert_eq!(tag[8..], [7u8; 8]);
    let mut ids = FakeIdentities::new();
    ids.ensure_fake_identity(2);
    assert_eq!(ids.display_names[2], "Player3");
    assert_eq!(ids.display_names[0], "");
    ids.gamertags[2][0] = b'Z';
    ids.ensure_fake_identity(2);
    assert_eq!(ids.gamertags[2][0], b'Z');
    ids.ensure_fake_identity(7);
}

#[test]
fn sizes_and_copy_lengths() {
    assert_eq!(profile_data_size(204 * 4), 204);
    assert_eq!(profile_data_size(7), 1);
    assert_eq!(profile_data_size(-4), usize::MAX);
    assert_eq!(c_copy_len(5, 0), 0);
    assert_eq!(c_copy_len(5, 3), 2);
    assert_eq!(c_copy_len(5, 6), 5);
}
