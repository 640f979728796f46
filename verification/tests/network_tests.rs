use rust_stubs::network::{gather_rtt_stats, NetworkState, PlayerFlags, PlayerFlagsManager};

#[test]
fn test_player_flags_alignment_and_bit_ops() {
    let dummy_p1: usize = 0x1000;
    let dummy_p2: usize = 0x2000;

    let mut mgr = PlayerFlagsManager::new(10); // requested 10 flags -> aligned to 16 bits (2 bytes)
    mgr.add_player(dummy_p1, |p1, p2| p1 == p2);

    assert!(!mgr.get_flag(dummy_p1, 0));
    assert!(!mgr.get_flag(dummy_p1, 5));

    mgr.set_flag(dummy_p1, 5, |p1, p2| p1 == p2);
    assert!(mgr.get_flag(dummy_p1, 5));
    assert!(!mgr.get_flag(dummy_p1, 0));

    // Add dummy_p2 on same system as dummy_p1
    mgr.add_player(dummy_p2, |_, _| true);
    assert!(mgr.get_flag(dummy_p2, 5)); // copied existing flags

    mgr.reset();
    assert!(!mgr.get_flag(dummy_p1, 5));
}

#[test]
fn player_flags_round_up_to_bytes() {
    let p = PlayerFlags::new(1, 10);
    assert_eq!(p.count, 16);
    assert_eq!(p.flags, vec![0, 0]);
    let p = PlayerFlags::new(1, 0);
    assert_eq!(p.count, 0);
    assert!(p.flags.is_empty());
    let p = PlayerFlags::new(1, 8);
    assert_eq!(p.count, 8);
}

#[test]
fn flag_bits_and_guards() {
    let mut mgr = PlayerFlagsManager::new(16);
    mgr.add_player(7, |a, b| a == b);
    mgr.set_flag(7, 0, |a, b| a == b);
    mgr.set_flag(7, 9, |a, b| a == b);
    assert_eq!(mgr.player_flags[0].flags, vec![0x80, 0x40]);
    mgr.set_flag(7, 16, |a, b| a == b);
    mgr.set_flag(0, 1, |_, _| true);
    assert_eq!(mgr.player_flags[0].flags, vec![0x80, 0x40]);
    assert!(!mgr.get_flag(7, 16));
    assert!(!mgr.get_flag(0, 0));
    assert!(!mgr.get_flag(8, 0));
}

#[test]
fn network_state_signed_indices() {
    let mut st = NetworkState::new();
    st.system_flag_init(8);
    st.flags_mgr.add_player(3, |a, b| a == b);
    st.system_flag_set(3, -1, |a, b| a == b);
    assert!(!st.system_flag_get(3, -1));
    st.system_flag_set(3, 2, |a, b| a == b);
    assert!(st.system_flag_get(3, 2));
    assert!(st.set_local_game(true));
    assert!(st.is_offline_game);
    assert!(st.is_host());
    st.set_game_running(true);
    assert!(st.is_in_session());
    st.set_leaving_game(true);
    assert!(st.is_leaving_game());
}

#[test]
fn test_gather_rtt_stats() {
    let stats = gather_rtt_stats(
        3,
        |idx| idx == 0,         // player 0 is local
        |idx| (idx * 50) as i32, // player 1 rtt 50, player 2 rtt 100
    );

    assert_eq!(stats, "Rtt: 1: 50/2: 100/");
}

#[test]
fn rtt_stats_negative_and_empty() {
    assert_eq!(gather_rtt_stats(0, |_| false, |_| 1), "Rtt: ");
    assert_eq!(gather_rtt_stats(2, |_| false, |i| -(i as i32) - 7), "Rtt: 0: -7/1: -8/");
    assert_eq!(gather_rtt_stats(11, |i| i != 10, |_| i32::MIN + 1), "Rtt: 10: -2147483647/");
}
