//! Game-wide constants.
use vstd::prelude::*;

verus! {

pub const VERSION_STRING: &'static str = "1.6.4";
pub const NETWORK_PROTOCOL_VERSION: i32 = 78;
pub const INGAME_DEBUG_OUTPUT: bool = false;
pub const WORLD_RESOLUTION: i32 = 16;
pub const MAX_CHAT_LENGTH: i32 = 100;
pub const TEXTURE_LIGHTING: bool = true;
pub const TICKS_PER_SECOND: i32 = 20;
/// Full sky light and full block light, packed as the renderer expects.
pub const FULLBRIGHT_LIGHTVALUE: i32 = (15 << 20) | (15 << 4);
/// Characters that may not appear in a file name.
pub const ILLEGAL_FILE_CHARACTERS: [char; 15] = [
    '/',
    '\n',
    '\r',
    '\t',
    '\0',
    '\x0C',
    '`',
    '?',
    '*',
    '\\',
    '<',
    '>',
    '|',
    '"',
    ':',
];

pub const CLIENT_VERSION_STRING: &'static str = "1.6.4";
pub const DEADMAU5_CAMERA_CHEATS: bool = false;
pub const IS_DEMO_VERSION: bool = false;

/// The characters the font can draw in chat.
pub fn read_acceptable_chars() -> (r: &'static str)
    ensures
        r@ == " !\"#$%&'()*+,-./0123456789:;<=>?@ABCDEFGHIJKLMNOPQRSTUVWXYZ[\\]^_`abcdefghijklmnopqrstuvwxyz{|}~ ÇüéâäàåçêëèïîìÄÅÉæÆôöòûùÿÖÜø£Ø×ƒáíóúñÑªº¿®¬½¼¡«»ã"@,
{
    " !\"#$%&'()*+,-./0123456789:;<=>?@ABCDEFGHIJKLMNOPQRSTUVWXYZ[\\]^_`abcdefghijklmnopqrstuvwxyz{|}~ ÇüéâäàåçêëèïîìÄÅÉæÆôöòûùÿÖÜø£Ø×ƒáíóúñÑªº¿®¬½¼¡«»ã"
}

/// Whether a character may be typed in chat: every character may.
pub fn is_allowed_chat_character(_ch: char) -> (r: bool)
    ensures
        r,
{
    true
}

} // verus!
