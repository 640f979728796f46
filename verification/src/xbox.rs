//! Console platform queries and the UI string table.
use vstd::prelude::*;

verus! {

pub const VK_PAD_A: u32 = 0x5800;
pub const VK_PAD_B: u32 = 0x5801;
pub const VK_PAD_X: u32 = 0x5802;
pub const VK_PAD_Y: u32 = 0x5803;
pub const VK_PAD_RSHOULDER: u32 = 0x5804;
pub const VK_PAD_LSHOULDER: u32 = 0x5805;
pub const VK_PAD_LTRIGGER: u32 = 0x5806;
pub const VK_PAD_RTRIGGER: u32 = 0x5807;

pub const VK_PAD_DPAD_UP: u32 = 0x5810;
pub const VK_PAD_DPAD_DOWN: u32 = 0x5811;
pub const VK_PAD_DPAD_LEFT: u32 = 0x5812;
pub const VK_PAD_DPAD_RIGHT: u32 = 0x5813;
pub const VK_PAD_START: u32 = 0x5814;
pub const VK_PAD_BACK: u32 = 0x5815;
pub const VK_PAD_LTHUMB_PRESS: u32 = 0x5816;
pub const VK_PAD_RTHUMB_PRESS: u32 = 0x5817;

pub const XC_LANGUAGE_ENGLISH: u32 = 0x01;
pub const XC_LANGUAGE_JAPANESE: u32 = 0x02;
pub const XC_LANGUAGE_GERMAN: u32 = 0x03;
pub const XC_LANGUAGE_FRENCH: u32 = 0x04;
pub const XC_LANGUAGE_SPANISH: u32 = 0x05;
pub const XC_LANGUAGE_ITALIAN: u32 = 0x06;
pub const XC_LANGUAGE_KOREAN: u32 = 0x07;
pub const XC_LANGUAGE_TCHINESE: u32 = 0x08;

pub const XN_SYS_SIGNINCHANGED: u32 = 0;
pub const XN_SYS_INPUTDEVICESCHANGED: u32 = 1;
pub const XN_LIVE_CONTENT_INSTALLED: u32 = 2;
pub const XN_SYS_STORAGEDEVICESCHANGED: u32 = 3;

/// The UI string table: it remembers which table was loaded and answers
/// lookups with the id itself, or a placeholder for numeric indices.
#[derive(Default, Debug, Clone, PartialEq, Eq)]
pub struct CXuiStringTable {
    loaded_id: Option<String>,
}

impl CXuiStringTable {
    /// The id of the loaded table, if any.
    pub closed spec fn loaded(&self) -> Option<Seq<char>> {
        match self.loaded_id {
            Some(s) => Some(s@),
            None => None,
        }
    }

    /// A table with nothing loaded.
    pub fn new() -> (t: Self)
        ensures
            t.loaded() == None::<Seq<char>>,
    {
        CXuiStringTable { loaded_id: None }
    }

    /// The string for `sz_id`: the id itself.
    pub fn lookup_id<'a>(&self, sz_id: &'a str) -> (r: &'a str)
        ensures
            r == sz_id,
    {
        sz_id
    }

    /// The string at an index: always the placeholder "String".
    pub fn lookup_index(&self, _n_index: u32) -> (r: &'static str)
        ensures
            r@ == "String"@,
    {
        "String"
    }

    /// Forgets the loaded table.
    pub fn clear(&mut self)
        ensures
            final(self).loaded() == None::<Seq<char>>,
    {
        self.loaded_id = None;
    }

    /// Loads the table `sz_id`; always succeeds (0).
    pub fn load(&mut self, sz_id: &str) -> (r: i32)
        ensures
            r == 0,
            final(self).loaded() == Some(sz_id@),
    {
        self.loaded_id = Some(sz_id.to_owned());
        0
    }
}

/// Whether two user ids are the same.
pub fn is_equal_xuid(a: u64, b: u64) -> (r: bool)
    ensures
        r == (a == b),
{
    a == b
}

/// Sign-in information for a user: always 0 (success, nothing filled in).
pub fn xuser_get_signin_info(_dw_user_index: u32, _dw_flags: u32) -> (r: u32)
    ensures
        r == 0,
{
    0
}

/// The console language: always English.
pub fn xget_language() -> (r: u32)
    ensures
        r == XC_LANGUAGE_ENGLISH,
{
    XC_LANGUAGE_ENGLISH
}

/// The console locale: always 0.
pub fn xget_locale() -> (r: u32)
    ensures
        r == 0,
{
    0
}

/// Enables or disables guest sign-in; always succeeds (0).
pub fn xenable_guest_signin(_f_enable: bool) -> (r: u32)
    ensures
        r == 0,
{
    0
}

} // verus!
