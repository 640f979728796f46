//! Save-game storage: the CRC-32 checksum and an in-memory stand-in for the
//! platform's save storage.
use vstd::prelude::*;

verus! {

/// The reversed CRC-32 polynomial.
pub const CRC32_POLY: u32 = 0xEDB8_8320;

/// One bit of the reflected CRC-32 shift register.
pub open spec fn crc_shift(c: u32) -> u32 {
    if c & 1 == 1 {
        (c >> 1u32) ^ CRC32_POLY
    } else {
        c >> 1u32
    }
}

/// `k` shifts of the register.
pub open spec fn crc_shifts(c: u32, k: nat) -> u32
    decreases k,
{
    if k == 0 {
        c
    } else {
        crc_shift(crc_shifts(c, (k - 1) as nat))
    }
}

/// The register after all of `bytes`, starting from all ones.
pub open spec fn crc_register(bytes: Seq<u8>) -> u32
    decreases bytes.len(),
{
    if bytes.len() == 0 {
        0xFFFF_FFFFu32
    } else {
        crc_shifts(crc_register(bytes.drop_last()) ^ (bytes.last() as u32), 8)
    }
}

/// The CRC-32 (IEEE 802.3, reflected) of `bytes`: the final register,
/// inverted.
pub open spec fn crc32(bytes: Seq<u8>) -> u32 {
    !crc_register(bytes)
}

/// Eight shifts of the register, written out.
spec fn shift8(c: u32) -> u32 {
    crc_shift(crc_shift(crc_shift(crc_shift(crc_shift(crc_shift(crc_shift(crc_shift(c))))))))
}

proof fn lemma_shifts8(c: u32)
    ensures
        crc_shifts(c, 8) == shift8(c),
{
    reveal_with_fuel(crc_shifts, 9);
}

/// Eight shifts move the upper 24 bits of the register down a byte and xor
/// in what the low byte alone gives.
proof fn lemma_shift8_split(x: u32)
    ensures
        shift8(x) == (x >> 8u32) ^ shift8(x & 0xFFu32),
{
    assert(shift8(x) == (x >> 8u32) ^ shift8(x & 0xFFu32)) by (bit_vector);
}

/// The entry of the CRC-32 table for the index `i`: eight shifts of `i`.
pub open spec fn crc_table(i: u8) -> u32 {
    crc_shifts(i as u32, 8)
}

/// Each byte enters the register zero-extended: the register after one more
/// byte `b` is the old register moved down a byte, xored with the table entry
/// for the old low byte xor `b` (the table-driven form of CRC-32).
pub proof fn lemma_crc_register_push(m: Seq<u8>, b: u8)
    ensures
        crc_register(m.push(b)) == (crc_register(m) >> 8u32) ^ crc_table((crc_register(m) as u8) ^ b),
{
    let r = crc_register(m);
    assert(m.push(b).drop_last() =~= m);
    let x = r ^ (b as u32);
    lemma_shifts8(x);
    lemma_shift8_split(x);
    let i: u8 = (r as u8) ^ b;
    lemma_shifts8(i as u32);
    assert(x >> 8u32 == r >> 8u32 && x & 0xFFu32 == i as u32) by (bit_vector)
        requires
            x == r ^ (b as u32),
            i == (r as u8) ^ b,
    ;
}

/// The four bytes of `x`, least significant first.
pub open spec fn le4(x: u32) -> Seq<u8> {
    seq![x as u8, (x >> 8u32) as u8, (x >> 16u32) as u8, (x >> 24u32) as u8]
}

/// The CRC-32 residue: a message followed by its own checksum, least
/// significant byte first, has the checksum 0x2144DF1C, whatever the message.
pub proof fn lemma_crc32_residue(m: Seq<u8>)
    ensures
        crc32(m + le4(crc32(m))) == 0x2144_DF1Cu32,
{
    let r0 = crc_register(m);
    let w = crc32(m);
    let t = le4(w);
    let s1 = m.push(t[0]);
    let s2 = s1.push(t[1]);
    let s3 = s2.push(t[2]);
    let s4 = s3.push(t[3]);
    assert(m + t =~= s4);
    lemma_shifts8(0xFFu32);
    lemma_shifts8(0x72u32);
    lemma_shifts8(0u32);
    lemma_shifts8(0xEDu32);
    assert(shift8(0xFFu32) == 0x2D02_EF8Du32 && shift8(0x72u32) == 0xBE0B_1010u32 && shift8(0u32)
        == 0u32 && shift8(0xEDu32) == 0xDEBB_9EC5u32) by (bit_vector);
    assert(crc_table(0xFFu8) == 0x2D02_EF8Du32);
    assert(crc_table(0x72u8) == 0xBE0B_1010u32);
    assert(crc_table(0u8) == 0u32);
    assert(crc_table(0xEDu8) == 0xDEBB_9EC5u32);
    let r1 = (r0 >> 8u32) ^ 0x2D02_EF8Du32;
    let r2 = (r1 >> 8u32) ^ 0xBE0B_1010u32;
    let r3 = (r2 >> 8u32) ^ 0u32;
    let r4 = (r3 >> 8u32) ^ 0xDEBB_9EC5u32;
    assert(((r0 as u8) ^ (w as u8)) == 0xFFu8 && ((r1 as u8) ^ ((w >> 8u32) as u8)) == 0x72u8
        && ((r2 as u8) ^ ((w >> 16u32) as u8)) == 0u8 && ((r3 as u8) ^ ((w >> 24u32) as u8))
        == 0xEDu8 && r4 == 0xDEBB_20E3u32 && !r4 == 0x2144_DF1Cu32) by (bit_vector)
        requires
            w == !r0,
            r1 == (r0 >> 8u32) ^ 0x2D02_EF8Du32,
            r2 == (r1 >> 8u32) ^ 0xBE0B_1010u32,
            r3 == (r2 >> 8u32) ^ 0u32,
            r4 == (r3 >> 8u32) ^ 0xDEBB_9EC5u32,
    ;
    lemma_crc_register_push(m, t[0]);
    assert(crc_register(s1) == r1);
    lemma_crc_register_push(s1, t[1]);
    assert(crc_register(s2) == r2);
    lemma_crc_register_push(s2, t[2]);
    assert(crc_register(s3) == r3);
    lemma_crc_register_push(s3, t[3]);
    assert(crc_register(s4) == r4);
}

/// The check value of CRC-32 (IEEE 802.3): the checksum of the nine ASCII
/// digits `123456789` is 0xCBF43926; that of no bytes is 0.
pub proof fn lemma_crc32_check_value()
    ensures
        crc32(seq![0x31u8, 0x32u8, 0x33u8, 0x34u8, 0x35u8, 0x36u8, 0x37u8, 0x38u8, 0x39u8])
            == 0xCBF4_3926u32,
        crc32(Seq::<u8>::empty()) == 0u32,
{
    let s0 = Seq::<u8>::empty();
    let s1 = s0.push(0x31u8);
    let s2 = s1.push(0x32u8);
    let s3 = s2.push(0x33u8);
    let s4 = s3.push(0x34u8);
    let s5 = s4.push(0x35u8);
    let s6 = s5.push(0x36u8);
    let s7 = s6.push(0x37u8);
    let s8 = s7.push(0x38u8);
    let s9 = s8.push(0x39u8);
    lemma_shifts8(0x1u32);
    lemma_shifts8(0x19u32);
    lemma_shifts8(0x58u32);
    lemma_shifts8(0x69u32);
    lemma_shifts8(0x7Au32);
    lemma_shifts8(0xA9u32);
    lemma_shifts8(0xCEu32);
    lemma_shifts8(0xD5u32);
    assert({
        &&& shift8(0xCEu32) == 0x7CDCEFB7u32
        &&& shift8(0x7Au32) == 0xB0D09822u32
        &&& shift8(0x1u32) == 0x77073096u32
        &&& shift8(0x19u32) == 0x646BA8C0u32
        &&& shift8(0x69u32) == 0x346ED9FCu32
        &&& shift8(0xD5u32) == 0xF6B9265Bu32
        &&& shift8(0xA9u32) == 0xAF0A1B4Cu32
        &&& shift8(0x58u32) == 0x65B0D9C6u32
    }) by (bit_vector);
    assert({
        &&& ((0xFFFFFFFFu32 as u8) ^ 0x31u8) == 0xCEu8
        &&& ((0xFFFFFFFFu32 >> 8u32) ^ 0x7CDCEFB7u32) == 0x7C231048u32
        &&& ((0x7C231048u32 as u8) ^ 0x32u8) == 0x7Au8
        &&& ((0x7C231048u32 >> 8u32) ^ 0xB0D09822u32) == 0xB0ACBB32u32
        &&& ((0xB0ACBB32u32 as u8) ^ 0x33u8) == 0x1u8
        &&& ((0xB0ACBB32u32 >> 8u32) ^ 0x77073096u32) == 0x77B79C2Du32
        &&& ((0x77B79C2Du32 as u8) ^ 0x34u8) == 0x19u8
        &&& ((0x77B79C2Du32 >> 8u32) ^ 0x646BA8C0u32) == 0x641C1F5Cu32
        &&& ((0x641C1F5Cu32 as u8) ^ 0x35u8) == 0x69u8
        &&& ((0x641C1F5Cu32 >> 8u32) ^ 0x346ED9FCu32) == 0x340AC5E3u32
        &&& ((0x340AC5E3u32 as u8) ^ 0x36u8) == 0xD5u8
        &&& ((0x340AC5E3u32 >> 8u32) ^ 0xF6B9265Bu32) == 0xF68D2C9Eu32
        &&& ((0xF68D2C9Eu32 as u8) ^ 0x37u8) == 0xA9u8
        &&& ((0xF68D2C9Eu32 >> 8u32) ^ 0xAF0A1B4Cu32) == 0xAFFC9660u32
        &&& ((0xAFFC9660u32 as u8) ^ 0x38u8) == 0x58u8
        &&& ((0xAFFC9660u32 >> 8u32) ^ 0x65B0D9C6u32) == 0x651F2550u32
        &&& ((0x651F2550u32 as u8) ^ 0x39u8) == 0x69u8
        &&& ((0x651F2550u32 >> 8u32) ^ 0x346ED9FCu32) == 0x340BC6D9u32
        &&& !0x340BC6D9u32 == 0xCBF43926u32
        &&& !0xFFFFFFFFu32 == 0u32
    }) by (bit_vector);
    assert(crc_table(0xCEu8) == 0x7CDCEFB7u32);
    lemma_crc_register_push(s0, 0x31u8);
    assert(crc_register(s1) == 0x7C231048u32);
    assert(crc_table(0x7Au8) == 0xB0D09822u32);
    lemma_crc_register_push(s1, 0x32u8);
    assert(crc_register(s2) == 0xB0ACBB32u32);
    assert(crc_table(0x1u8) == 0x77073096u32);
    lemma_crc_register_push(s2, 0x33u8);
    assert(crc_register(s3) == 0x77B79C2Du32);
    assert(crc_table(0x19u8) == 0x646BA8C0u32);
    lemma_crc_register_push(s3, 0x34u8);
    assert(crc_register(s4) == 0x641C1F5Cu32);
    assert(crc_table(0x69u8) == 0x346ED9FCu32);
    lemma_crc_register_push(s4, 0x35u8);
    assert(crc_register(s5) == 0x340AC5E3u32);
    assert(crc_table(0xD5u8) == 0xF6B9265Bu32);
    lemma_crc_register_push(s5, 0x36u8);
    assert(crc_register(s6) == 0xF68D2C9Eu32);
    assert(crc_table(0xA9u8) == 0xAF0A1B4Cu32);
    lemma_crc_register_push(s6, 0x37u8);
    assert(crc_register(s7) == 0xAFFC9660u32);
    assert(crc_table(0x58u8) == 0x65B0D9C6u32);
    lemma_crc_register_push(s7, 0x38u8);
    assert(crc_register(s8) == 0x651F2550u32);
    assert(crc_table(0x69u8) == 0x346ED9FCu32);
    lemma_crc_register_push(s8, 0x39u8);
    assert(crc_register(s9) == 0x340BC6D9u32);
    assert(s9 =~= seq![0x31u8, 0x32u8, 0x33u8, 0x34u8, 0x35u8, 0x36u8, 0x37u8, 0x38u8, 0x39u8]);
}

/// The CRC-32 checksum of `buf`.
pub fn crc(buf: &[u8]) -> (r: u32)
    ensures
        r == crc32(buf@),
{
    let mut crc: u32 = 0xFFFF_FFFF;
    let mut i: usize = 0;
    while i < buf.len()
        invariant
            i <= buf@.len(),
            crc == crc_register(buf@.take(i as int)),
        decreases buf@.len() - i,
    {
        let b = buf[i];
        let ghost prev = crc;
        crc = crc ^ (b as u32);
        let ghost start = crc;
        let mut k: u32 = 0;
        while k < 8
            invariant
                k <= 8,
                crc == crc_shifts(start, k as nat),
            decreases 8 - k,
        {
            let low = crc & 1;
            assert(low == 0 || low == 1) by (bit_vector)
                requires
                    low == crc & 1,
            ;
            let neg = 0u32.wrapping_sub(low);
            assert(neg == if low == 0 {
                0u32
            } else {
                0xFFFF_FFFFu32
            });
            let mask = neg & CRC32_POLY;
            assert(mask == if crc & 1 == 1 {
                CRC32_POLY
            } else {
                0u32
            }) by (bit_vector)
                requires
                    low == crc & 1,
                    neg == (if low == 0 {
                        0u32
                    } else {
                        0xFFFF_FFFFu32
                    }),
                    mask == neg & 0xEDB8_8320u32,
                    CRC32_POLY == 0xEDB8_8320u32,
            ;
            assert(((crc >> 1u32) ^ 0u32) == crc >> 1u32) by (bit_vector);
            crc = (crc >> 1) ^ mask;
            k = k + 1;
        }
        assert(buf@.take(i + 1).drop_last() =~= buf@.take(i as int));
        i = i + 1;
    }
    assert(buf@.take(i as int) =~= buf@);
    !crc
}

/// One subfile of a save: the region it belongs to and its bytes.
#[derive(Default, Debug, Clone)]
pub struct Subfile {
    pub region_index: i32,
    pub data: Vec<u8>,
}

/// Save storage kept in memory.  The platform queries are answered as a
/// storage that always accepts and holds no save would answer them.
#[derive(Default, Debug)]
pub struct StubStorage {
    pub save_disabled: bool,
    pub save_unique_number: i32,
    pub subfiles: Vec<Subfile>,
}

impl StubStorage {
    /// An empty storage with saving enabled.
    pub fn new() -> (s: Self)
        ensures
            !s.save_disabled,
            s.save_unique_number == 0,
            s.subfiles@.len() == 0,
    {
        StubStorage { save_disabled: false, save_unique_number: 0, subfiles: Vec::new() }
    }

    /// The CRC-32 checksum of `buf`.
    pub fn crc(&self, buf: &[u8]) -> (r: u32)
        ensures
            r == crc32(buf@),
    {
        crc(buf)
    }

    /// Shows a message box; the answer is always "accept" (1).
    pub fn request_message_box(&self) -> (r: i32)
        ensures
            r == 1,
    {
        1
    }

    /// The result of the last message box: always "undefined" (0).
    pub fn get_message_box_result(&self) -> (r: i32)
        ensures
            r == 0,
    {
        0
    }

    /// Selects a save device; always succeeds.
    pub fn set_save_device(&self) -> (r: bool)
        ensures
            r,
    {
        true
    }

    /// The save's unique number, and that it is known.
    pub fn get_save_unique_number(&self) -> (r: (i32, bool))
        ensures
            r == (self.save_unique_number, true),
    {
        (self.save_unique_number, true)
    }

    /// Whether saving is disabled.
    pub fn get_save_disabled(&self) -> (r: bool)
        ensures
            r == self.save_disabled,
    {
        self.save_disabled
    }

    /// The size of the save: always 0.
    pub fn get_save_size(&self) -> (r: u32)
        ensures
            r == 0,
    {
        0
    }

    /// Whether a save device is selected for `_pad`: always.
    pub fn get_save_device_selected(&self, _pad: u32) -> (r: bool)
        ensures
            r,
    {
        true
    }

    /// Whether a save exists, and the save state: never, idle (0).
    pub fn does_save_exist(&self) -> (r: (bool, i32))
        ensures
            r == (false, 0i32),
    {
        (false, 0)
    }

    /// Whether there is room for the smallest save: always.
    pub fn enough_space_for_min_save_game(&self) -> (r: bool)
        ensures
            r,
    {
        true
    }

    /// The downloadable-content offers: none (0).
    pub fn get_dlc_offers(&self) -> (r: i32)
        ensures
            r == 0,
    {
        0
    }

    /// Adds an empty subfile for `region_index` and returns its index.
    pub fn add_subfile(&mut self, region_index: i32) -> (idx: usize)
        ensures
            idx == old(self).subfiles@.len(),
            final(self).subfiles@.len() == old(self).subfiles@.len() + 1,
            final(self).subfiles@.take(idx as int) == old(self).subfiles@,
            final(self).subfiles@[idx as int].region_index == region_index,
            final(self).subfiles@[idx as int].data@ == Seq::<u8>::empty(),
            final(self).save_disabled == old(self).save_disabled,
            final(self).save_unique_number == old(self).save_unique_number,
    {
        let idx = self.subfiles.len();
        self.subfiles.push(Subfile { region_index, data: Vec::new() });
        assert(self.subfiles@.take(idx as int) =~= old(self).subfiles@);
        idx
    }

    /// Number of subfiles.
    pub fn get_subfile_count(&self) -> (n: usize)
        ensures
            n == self.subfiles@.len(),
    {
        self.subfiles.len()
    }

    /// Removes all subfiles.
    pub fn reset_subfiles(&mut self)
        ensures
            final(self).subfiles@.len() == 0,
            final(self).save_disabled == old(self).save_disabled,
            final(self).save_unique_number == old(self).save_unique_number,
    {
        self.subfiles.clear();
    }
}

} // verus!
