//! Player profiles: settings blocks, their defaults, and the stand-in
//! identities of signed-in players.
use vstd::prelude::*;
use crate::text::{decimal, push_char, push_decimal};

verus! {

pub const FAKE_XUID_BASE: u64 = 0xe000d45248242f2e;
pub const XUSER_MAX_COUNT: usize = 4;
pub const MAX_FAVORITE_SKINS: usize = 10;
pub const TUTORIAL_PROFILE_STORAGE_BYTES: usize = 64;

pub const GAMESETTING_CLOUDS: u32 = 0x00000001;
pub const GAMESETTING_ONLINE: u32 = 0x00000002;
pub const GAMESETTING_FRIENDSOFFRIENDS: u32 = 0x00000008;
pub const GAMESETTING_DISPLAYUPDATEMSG: u32 = 0x00000030;
pub const GAMESETTING_BEDROCKFOG: u32 = 0x00000040;
pub const GAMESETTING_DISPLAYHUD: u32 = 0x00000080;
pub const GAMESETTING_DISPLAYHAND: u32 = 0x00000100;
pub const GAMESETTING_CUSTOMSKINANIM: u32 = 0x00000200;
pub const GAMESETTING_DEATHMESSAGES: u32 = 0x00000400;
pub const GAMESETTING_UISIZE: u32 = 0x00001800;
pub const GAMESETTING_UISIZE_SPLITSCREEN: u32 = 0x00006000;
pub const GAMESETTING_ANIMATEDCHARACTER: u32 = 0x00008000;
pub const GAMESETTING_PS3EULAREAD: u32 = 0x00010000;
pub const GAMESETTING_PSVITANETWORKMODEADHOC: u32 = 0x00020000;

/// The dashboard settings of a player.
#[derive(Default, Debug, Copy, Clone, PartialEq, Eq)]
pub struct ProfileSettings {
    pub i_y_axis_inversion: i32,
    pub i_controller_sensitivity: i32,
    pub i_vibration: i32,
    pub b_swap_sticks: bool,
}

/// The game's own block of profile data (204 bytes).
#[derive(Debug)]
pub struct ProfileGameSettings {
    pub b_settings_changed: u8,
    pub uc_music_volume: u8,
    pub uc_sound_fx_volume: u8,
    pub uc_sensitivity: u8,
    pub uc_gamma: u8,
    pub uc_pad01: u8,
    pub us_bitmask_values: u16,
    pub ui_debug_bitmask: u32,
    pub uc_tutorial_completion: [u8; TUTORIAL_PROFILE_STORAGE_BYTES],
    pub dw_selected_skin: u32,
    pub uc_menu_sensitivity: u8,
    pub uc_interface_opacity: u8,
    pub uc_pad02: u8,
    pub us_pad03: u8,
    pub ui_bitmask_values: u32,
    pub ui_special_tutorial_bitmask: u32,
    pub dw_selected_cape: u32,
    pub ui_favorite_skin_a: [u32; MAX_FAVORITE_SKINS],
    pub uc_current_favorite_skin_pos: u8,
    pub _pad_align: [u8; 3],
    pub ui_mash_up_pack_worlds_display: u32,
    pub uc_language: u8,
    pub _pad_reserved: [u8; 59],
}

/// Whether every field of `s` is zero.
pub open spec fn all_zero(s: ProfileGameSettings) -> bool {
    &&& s.b_settings_changed == 0
    &&& s.uc_music_volume == 0
    &&& s.uc_sound_fx_volume == 0
    &&& s.uc_sensitivity == 0
    &&& s.uc_gamma == 0
    &&& s.uc_pad01 == 0
    &&& s.us_bitmask_values == 0
    &&& s.ui_debug_bitmask == 0
    &&& (forall|i: int| 0 <= i < 64 ==> #[trigger] s.uc_tutorial_completion@[i] == 0)
    &&& s.dw_selected_skin == 0
    &&& s.uc_menu_sensitivity == 0
    &&& s.uc_interface_opacity == 0
    &&& s.uc_pad02 == 0
    &&& s.us_pad03 == 0
    &&& s.ui_bitmask_values == 0
    &&& s.ui_special_tutorial_bitmask == 0
    &&& s.dw_selected_cape == 0
    &&& (forall|i: int| 0 <= i < 10 ==> #[trigger] s.ui_favorite_skin_a@[i] == 0)
    &&& s.uc_current_favorite_skin_pos == 0
    &&& (forall|i: int| 0 <= i < 3 ==> #[trigger] s._pad_align@[i] == 0)
    &&& s.ui_mash_up_pack_worlds_display == 0
    &&& s.uc_language == 0
    &&& (forall|i: int| 0 <= i < 59 ==> #[trigger] s._pad_reserved@[i] == 0)
}

impl Default for ProfileGameSettings {
    /// A block of all zero bytes.
    fn default() -> (s: Self)
        ensures
            all_zero(s),
    {
        ProfileGameSettings {
            b_settings_changed: 0,
            uc_music_volume: 0,
            uc_sound_fx_volume: 0,
            uc_sensitivity: 0,
            uc_gamma: 0,
            uc_pad01: 0,
            us_bitmask_values: 0,
            ui_debug_bitmask: 0,
            uc_tutorial_completion: [0u8; 64],
            dw_selected_skin: 0,
            uc_menu_sensitivity: 0,
            uc_interface_opacity: 0,
            uc_pad02: 0,
            us_pad03: 0,
            ui_bitmask_values: 0,
            ui_special_tutorial_bitmask: 0,
            dw_selected_cape: 0,
            ui_favorite_skin_a: [0u32; 10],
            uc_current_favorite_skin_pos: 0,
            _pad_align: [0u8; 3],
            ui_mash_up_pack_worlds_display: 0,
            uc_language: 0,
            _pad_reserved: [0u8; 59],
        }
    }
}

/// The game-setting bits a new profile starts with: clouds, online, friends
/// of friends, update messages, HUD, hand, custom skin animation, death
/// messages, the medium UI sizes and the animated character; bedrock fog,
/// the PS3 EULA flag and the Vita ad-hoc mode off.
pub open spec fn default_setting_bits() -> u32 {
    let b = 0u32 | GAMESETTING_CLOUDS;
    let b = b | GAMESETTING_ONLINE;
    let b = b | GAMESETTING_FRIENDSOFFRIENDS;
    let b = b | GAMESETTING_DISPLAYUPDATEMSG;
    let b = b & !GAMESETTING_BEDROCKFOG;
    let b = b | GAMESETTING_DISPLAYHUD;
    let b = b | GAMESETTING_DISPLAYHAND;
    let b = b | GAMESETTING_CUSTOMSKINANIM;
    let b = b | GAMESETTING_DEATHMESSAGES;
    let b = b | (GAMESETTING_UISIZE & 0x00000800);
    let b = b | (GAMESETTING_UISIZE_SPLITSCREEN & 0x00004000);
    let b = b | GAMESETTING_ANIMATEDCHARACTER;
    let b = b & !GAMESETTING_PS3EULAREAD;
    b & !GAMESETTING_PSVITANETWORKMODEADHOC
}

/// Fills in the defaults of a new profile: menu sensitivity 100, interface
/// opacity 80, the default option and game-setting bits, no favourite skins
/// (all slots 0xFFFFFFFF), no mash-up pack world filter, language 0, and the
/// first tutorial steps marked as done.  Other fields keep their values.
pub fn initialise_default_game_settings(game_settings: &mut ProfileGameSettings)
    ensures
        final(game_settings).uc_menu_sensitivity == 100,
        final(game_settings).uc_interface_opacity == 80,
        final(game_settings).us_bitmask_values == old(game_settings).us_bitmask_values | 0x0200u16
            | 0x0400u16 | 0x1000u16 | 0x8000u16,
        final(game_settings).ui_bitmask_values == default_setting_bits(),
        final(game_settings).ui_bitmask_values == 0xCFBB,
        forall|i: int|
            0 <= i < MAX_FAVORITE_SKINS ==> #[trigger] final(game_settings).ui_favorite_skin_a@[i]
                == 0xFFFF_FFFFu32,
        final(game_settings).uc_current_favorite_skin_pos == 0,
        final(game_settings).ui_mash_up_pack_worlds_display == 0xFFFF_FFFF,
        final(game_settings).uc_language == 0,
        final(game_settings).uc_tutorial_completion@ == old(
            game_settings,
        ).uc_tutorial_completion@.update(0, 0xFF).update(1, 0xFF).update(2, 0x0F).update(
            28,
            old(game_settings).uc_tutorial_completion@[28] | 1u8,
        ),
        final(game_settings).b_settings_changed == old(game_settings).b_settings_changed,
        final(game_settings).uc_music_volume == old(game_settings).uc_music_volume,
        final(game_settings).uc_sound_fx_volume == old(game_settings).uc_sound_fx_volume,
        final(game_settings).uc_sensitivity == old(game_settings).uc_sensitivity,
        final(game_settings).uc_gamma == old(game_settings).uc_gamma,
        final(game_settings).uc_pad01 == old(game_settings).uc_pad01,
        final(game_settings).ui_debug_bitmask == old(game_settings).ui_debug_bitmask,
        final(game_settings).dw_selected_skin == old(game_settings).dw_selected_skin,
        final(game_settings).uc_pad02 == old(game_settings).uc_pad02,
        final(game_settings).us_pad03 == old(game_settings).us_pad03,
        final(game_settings).ui_special_tutorial_bitmask == old(
            game_settings,
        ).ui_special_tutorial_bitmask,
        final(game_settings).dw_selected_cape == old(game_settings).dw_selected_cape,
        final(game_settings)._pad_align == old(game_settings)._pad_align,
        final(game_settings)._pad_reserved == old(game_settings)._pad_reserved,
{
    game_settings.uc_menu_sensitivity = 100;
    game_settings.uc_interface_opacity = 80;
    game_settings.us_bitmask_values = game_settings.us_bitmask_values | 0x0200;
    game_settings.us_bitmask_values = game_settings.us_bitmask_values | 0x0400;
    game_settings.us_bitmask_values = game_settings.us_bitmask_values | 0x1000;
    game_settings.us_bitmask_values = game_settings.us_bitmask_values | 0x8000;
    game_settings.ui_bitmask_values = 0;
    game_settings.ui_bitmask_values = game_settings.ui_bitmask_values | GAMESETTING_CLOUDS;
    game_settings.ui_bitmask_values = game_settings.ui_bitmask_values | GAMESETTING_ONLINE;
    game_settings.ui_bitmask_values = game_settings.ui_bitmask_values
        | GAMESETTING_FRIENDSOFFRIENDS;
    game_settings.ui_bitmask_values = game_settings.ui_bitmask_values
        | GAMESETTING_DISPLAYUPDATEMSG;
    game_settings.ui_bitmask_values = game_settings.ui_bitmask_values & !GAMESETTING_BEDROCKFOG;
    game_settings.ui_bitmask_values = game_settings.ui_bitmask_values | GAMESETTING_DISPLAYHUD;
    game_settings.ui_bitmask_values = game_settings.ui_bitmask_values | GAMESETTING_DISPLAYHAND;
    game_settings.ui_bitmask_values = game_settings.ui_bitmask_values
        | GAMESETTING_CUSTOMSKINANIM;
    game_settings.ui_bitmask_values = game_settings.ui_bitmask_values
        | GAMESETTING_DEATHMESSAGES;
    game_settings.ui_bitmask_values = game_settings.ui_bitmask_values | (GAMESETTING_UISIZE
        & 0x00000800);
    game_settings.ui_bitmask_values = game_settings.ui_bitmask_values | (
    GAMESETTING_UISIZE_SPLITSCREEN & 0x00004000);
    game_settings.ui_bitmask_values = game_settings.ui_bitmask_values
        | GAMESETTING_ANIMATEDCHARACTER;

    let bits_before_loop = game_settings.ui_bitmask_values;
    let mut i: usize = 0;
    while i < MAX_FAVORITE_SKINS
        invariant
            i <= MAX_FAVORITE_SKINS,
            forall|k: int| 0 <= k < i ==> #[trigger] game_settings.ui_favorite_skin_a@[k]
                == 0xFFFF_FFFFu32,
            game_settings.uc_menu_sensitivity == 100,
            game_settings.uc_interface_opacity == 80,
            game_settings.us_bitmask_values == old(game_settings).us_bitmask_values | 0x0200u16
                | 0x0400u16 | 0x1000u16 | 0x8000u16,
            game_settings.ui_bitmask_values == bits_before_loop,
            game_settings.uc_tutorial_completion == old(game_settings).uc_tutorial_completion,
            game_settings.uc_current_favorite_skin_pos == old(
                game_settings,
            ).uc_current_favorite_skin_pos,
            game_settings.ui_mash_up_pack_worlds_display == old(
                game_settings,
            ).ui_mash_up_pack_worlds_display,
            game_settings.uc_language == old(game_settings).uc_language,
            game_settings.b_settings_changed == old(game_settings).b_settings_changed,
            game_settings.uc_music_volume == old(game_settings).uc_music_volume,
            game_settings.uc_sound_fx_volume == old(game_settings).uc_sound_fx_volume,
            game_settings.uc_sensitivity == old(game_settings).uc_sensitivity,
            game_settings.uc_gamma == old(game_settings).uc_gamma,
            game_settings.uc_pad01 == old(game_settings).uc_pad01,
            game_settings.ui_debug_bitmask == old(game_settings).ui_debug_bitmask,
            game_settings.dw_selected_skin == old(game_settings).dw_selected_skin,
            game_settings.uc_pad02 == old(game_settings).uc_pad02,
            game_settings.us_pad03 == old(game_settings).us_pad03,
            game_settings.ui_special_tutorial_bitmask == old(
                game_settings,
            ).ui_special_tutorial_bitmask,
            game_settings.dw_selected_cape == old(game_settings).dw_selected_cape,
            game_settings._pad_align == old(game_settings)._pad_align,
            game_settings._pad_reserved == old(game_settings)._pad_reserved,
        decreases MAX_FAVORITE_SKINS - i,
    {
        game_settings.ui_favorite_skin_a[i] = 0xFFFFFFFF;
        i = i + 1;
    }

    game_settings.uc_current_favorite_skin_pos = 0;
    game_settings.ui_mash_up_pack_worlds_display = 0xFFFFFFFF;
    game_settings.ui_bitmask_values = game_settings.ui_bitmask_values & !GAMESETTING_PS3EULAREAD;
    game_settings.uc_language = 0;
    game_settings.ui_bitmask_values = game_settings.ui_bitmask_values
        & !GAMESETTING_PSVITANETWORKMODEADHOC;
    game_settings.uc_tutorial_completion[0] = 0xFF;
    game_settings.uc_tutorial_completion[1] = 0xFF;
    game_settings.uc_tutorial_completion[2] = 0x0F;
    let done = game_settings.uc_tutorial_completion[28] | (1u8 << 0u8);
    game_settings.uc_tutorial_completion[28] = done;
    assert((1u8 << 0u8) == 1u8) by (bit_vector);
    assert(game_settings.uc_tutorial_completion@ =~= old(
        game_settings,
    ).uc_tutorial_completion@.update(0, 0xFF).update(1, 0xFF).update(2, 0x0F).update(
        28,
        old(game_settings).uc_tutorial_completion@[28] | 1u8,
    ));
    assert(game_settings.ui_bitmask_values == default_setting_bits());
    assert(default_setting_bits() == 0xCFBB) by (bit_vector);
}

/// The controller slot that `pad` names: itself when it is a valid slot,
/// slot 0 otherwise.
pub fn pad_slot(pad: i32) -> (slot: usize)
    ensures
        slot == if 0 <= pad < XUSER_MAX_COUNT {
            pad as usize
        } else {
            0usize
        },
        slot < XUSER_MAX_COUNT,
{
    if pad >= 0 && (pad as usize) < XUSER_MAX_COUNT {
        pad as usize
    } else {
        0
    }
}

/// The stand-in user id of the player on controller `pad`.
pub fn fake_xuid(pad: i32) -> (x: u64)
    ensures
        x == FAKE_XUID_BASE + (if 0 <= pad < XUSER_MAX_COUNT {
            pad as int
        } else {
            0int
        }),
{
    FAKE_XUID_BASE + pad_slot(pad) as u64
}

/// The bytes of the block of game data the game asks for: a quarter of the
/// size it passes (rounded towards zero), taken as an unsigned size.
pub fn profile_data_size(game_defined_data_size_x4: i32) -> (n: usize)
    ensures
        n == (if game_defined_data_size_x4 >= 0 {
            game_defined_data_size_x4 / 4
        } else {
            -((-game_defined_data_size_x4) / 4)
        }) as usize,
{
    (game_defined_data_size_x4 / 4) as usize
}

/// The display name of the stand-in player on slot `pad`: "Player" and the
/// slot's number counted from 1.
pub open spec fn fake_name(pad: nat) -> Seq<char> {
    "Player"@ + decimal(pad + 1)
}

/// The stand-in display name of the player on slot `pad`.
pub fn fake_display_name(pad: usize) -> (s: String)
    requires
        pad < XUSER_MAX_COUNT,
    ensures
        s@ == fake_name(pad as nat),
{
    let mut s = String::new();
    push_char(&mut s, 'P');
    push_char(&mut s, 'l');
    push_char(&mut s, 'a');
    push_char(&mut s, 'y');
    push_char(&mut s, 'e');
    push_char(&mut s, 'r');
    push_decimal(&mut s, (pad + 1) as u64);
    proof {
        reveal_strlit("Player");
        assert(s@ =~= fake_name(pad as nat));
    }
    s
}

/// `tag` with the stand-in gamertag of the player on slot `pad` written over
/// its start: the display name's bytes and a terminating zero; the bytes
/// after them are left as they were.
pub fn write_fake_gamertag(tag: [u8; 16], pad: usize) -> (r: [u8; 16])
    requires
        pad < XUSER_MAX_COUNT,
    ensures
        forall|i: int|
            0 <= i < 16 ==> #[trigger] r@[i] == if i < fake_name(pad as nat).len() {
                fake_name(pad as nat)[i] as u8
            } else if i == fake_name(pad as nat).len() {
                0u8
            } else {
                tag@[i]
            },
{
    proof {
        reveal_strlit("Player");
        reveal_with_fuel(decimal, 2);
    }
    let mut r = tag;
    r[0] = 80;
    r[1] = 108;
    r[2] = 97;
    r[3] = 121;
    r[4] = 101;
    r[5] = 114;
    r[6] = 49 + pad as u8;
    r[7] = 0;
    assert(fake_name(pad as nat) =~= seq!['P', 'l', 'a', 'y', 'e', 'r', ((pad + 1 + 48) as u8) as char]);
    r
}

/// The identities of the stand-in players: gamertags as zero-terminated
/// bytes, and display names.
pub struct FakeIdentities {
    pub gamertags: [[u8; 16]; XUSER_MAX_COUNT],
    pub display_names: Vec<String>,
}

impl FakeIdentities {
    /// No identities yet: all gamertags empty, all names empty.
    pub fn new() -> (ids: Self)
        ensures
            forall|p: int, i: int|
                0 <= p < XUSER_MAX_COUNT && 0 <= i < 16 ==> #[trigger] ids.gamertags@[p]@[i] == 0,
            ids.display_names@.len() == XUSER_MAX_COUNT,
            forall|p: int| 0 <= p < XUSER_MAX_COUNT ==> #[trigger] ids.display_names@[p]@ == Seq::<char>::empty(),
    {
        let mut names: Vec<String> = Vec::new();
        names.push(String::new());
        names.push(String::new());
        names.push(String::new());
        names.push(String::new());
        FakeIdentities { gamertags: [[0u8; 16]; 4], display_names: names }
    }

    /// Gives the player on slot `pad` its stand-in identity, unless the slot
    /// is out of range or already has a gamertag.
    pub fn ensure_fake_identity(&mut self, pad: usize)
        requires
            old(self).display_names@.len() == XUSER_MAX_COUNT,
        ensures
            final(self).display_names@.len() == XUSER_MAX_COUNT,
            pad >= XUSER_MAX_COUNT || old(self).gamertags@[pad as int]@[0] != 0 ==> {
                &&& final(self).gamertags == old(self).gamertags
                &&& final(self).display_names@ == old(self).display_names@
            },
            pad < XUSER_MAX_COUNT && old(self).gamertags@[pad as int]@[0] == 0 ==> {
                &&& (forall|i: int|
                    0 <= i < 16 ==> #[trigger] final(self).gamertags@[pad as int]@[i] == if i
                        < fake_name(pad as nat).len() {
                        fake_name(pad as nat)[i] as u8
                    } else if i == fake_name(pad as nat).len() {
                        0u8
                    } else {
                        old(self).gamertags@[pad as int]@[i]
                    })
                &&& (forall|p: int|
                    0 <= p < XUSER_MAX_COUNT && p != pad ==> #[trigger] final(self).gamertags@[p]
                        == old(self).gamertags@[p])
                &&& final(self).display_names@[pad as int]@ == fake_name(pad as nat)
                &&& (forall|p: int|
                    0 <= p < XUSER_MAX_COUNT && p != pad
                        ==> #[trigger] final(self).display_names@[p] == old(self).display_names@[p])
            },
    {
        if pad >= XUSER_MAX_COUNT || self.gamertags[pad][0] != 0 {
            return;
        }
        let tag = write_fake_gamertag(self.gamertags[pad], pad);
        self.gamertags[pad] = tag;
        let name = fake_display_name(pad);
        self.display_names.set(pad, name);
    }
}

/// How many bytes of a text of `len` bytes fit a C buffer of `capacity`
/// bytes together with the terminating zero.
pub fn c_copy_len(len: usize, capacity: usize) -> (n: usize)
    ensures
        n == if capacity == 0 {
            0
        } else if len <= capacity - 1 {
            len
        } else {
            (capacity - 1) as usize
        },
{
    let room = capacity.saturating_sub(1);
    if len <= room {
        len
    } else {
        room
    }
}

} // verus!
