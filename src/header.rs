//! The fixed 192-byte cartridge header: its layout, the complement checksum,
//! and a byte-accurate model with typed field accessors.
use vstd::prelude::*;

verus! {

/// Size of the fixed header at the start of every image; the smallest valid file.
pub const HEADER_SIZE: usize = 0xC0;

/// Start of the 156-byte logo; the checksummed region begins here.
pub const LOGO_OFFSET: usize = 0x04;

pub const TITLE_OFFSET: usize = 0xA0;

pub const TITLE_LEN: usize = 12;

pub const GAME_CODE_OFFSET: usize = 0xAC;

pub const GAME_CODE_LEN: usize = 4;

pub const MAKER_CODE_OFFSET: usize = 0xB0;

pub const MAKER_CODE_LEN: usize = 2;

/// The device-type byte; its top bit selects the debug handler's entry address.
pub const DEVICE_TYPE_OFFSET: usize = 0xB4;

pub const VERSION_OFFSET: usize = 0xBC;

/// The complement checksum byte; it covers every byte from the logo up to it.
pub const CHECKSUM_OFFSET: usize = 0xBD;

/// The logo byte whose bits switch the debug handler on.
pub const DEBUG_FLAG_OFFSET: usize = 0x9C;

/// Bits of the debug-flag byte that enable the debug handler.
pub const DEBUG_ENABLE_BITS: u8 = 0x84;

/// Bit of the device-type byte that points the debug entry at its fixed address.
pub const DEBUG_ENTRY_BIT: u8 = 0x80;

/// Constant folded into the checksum.
pub const CHECKSUM_BIAS: u8 = 0x19;

/// Sum of a byte sequence, as an unbounded natural number.
pub open spec fn byte_sum(s: Seq<u8>) -> nat
    decreases s.len(),
{
    if s.len() == 0 {
        0
    } else {
        byte_sum(s.drop_last()) + s.last() as nat
    }
}

/// The bytes that the checksum covers: the logo through the version byte.
pub open spec fn checked_region(h: Seq<u8>) -> Seq<u8> {
    h.subrange(LOGO_OFFSET as int, CHECKSUM_OFFSET as int)
}

/// The checksum a header must carry: `(0x100 - 0x19 - sum) mod 256`.
pub open spec fn checksum_of(h: Seq<u8>) -> u8 {
    ((0x100int - CHECKSUM_BIAS as int - byte_sum(checked_region(h)) as int) % 256) as u8
}

/// `h` with its checksum byte recomputed from the bytes before it.
pub open spec fn with_checksum(h: Seq<u8>) -> Seq<u8> {
    h.update(CHECKSUM_OFFSET as int, checksum_of(h))
}

/// The `len` bytes of `h` at `offset`.
pub open spec fn field_of(h: Seq<u8>, offset: int, len: int) -> Seq<u8> {
    h.subrange(offset, offset + len)
}

/// `s` cut or extended with zero bytes to exactly `n` bytes.
pub open spec fn zero_padded(s: Seq<u8>, n: nat) -> Seq<u8> {
    Seq::new(n, |i: int| if i < s.len() { s[i] } else { 0u8 })
}

/// The bytes of `src` from `start` to `end`, cut or zero-padded to a field of
/// `N` bytes.
pub fn copy_padded<const N: usize>(src: &[u8], start: usize, end: usize) -> (r: [u8; N])
    requires
        start <= end <= src@.len(),
    ensures
        r@ == zero_padded(src@.subrange(start as int, end as int), N as nat),
{
    let mut r = [0u8; N];
    let mut j: usize = 0;
    while j < N
        invariant
            start <= end <= src@.len(),
            j <= N,
            r@.len() == N,
            forall|k: int|
                0 <= k < N ==> r@[k] == (if k < j && k < end - start {
                    src@[start + k]
                } else {
                    0u8
                }),
        decreases N - j,
    {
        if j < end - start {
            r[j] = src[start + j];
        }
        j = j + 1;
    }
    assert(r@ =~= zero_padded(src@.subrange(start as int, end as int), N as nat));
    r
}

/// `h` with the bytes at `offset` replaced by `f`; every other byte, and the
/// length, stay.
pub open spec fn with_field(h: Seq<u8>, offset: int, f: Seq<u8>) -> Seq<u8> {
    Seq::new(h.len(), |i: int| if offset <= i < offset + f.len() { f[i - offset] } else { h[i] })
}

/// `h` with the debug handler switched on or off. Switching on sets the enable
/// bits of the debug-flag byte and points the entry at its fixed address;
/// switching off clears only the enable bits.
pub open spec fn with_debugging(h: Seq<u8>, on: bool) -> Seq<u8> {
    let flag = h[DEBUG_FLAG_OFFSET as int];
    if on {
        h.update(DEBUG_FLAG_OFFSET as int, flag | DEBUG_ENABLE_BITS).update(
            DEVICE_TYPE_OFFSET as int,
            h[DEVICE_TYPE_OFFSET as int] | DEBUG_ENTRY_BIT,
        )
    } else {
        h.update(DEBUG_FLAG_OFFSET as int, flag & !DEBUG_ENABLE_BITS)
    }
}

/// Once the checksum is recomputed, the checksummed bytes, the checksum and
/// the bias add up to a multiple of 256.
pub proof fn lemma_checksum_balances(h: Seq<u8>)
    requires
        h.len() == HEADER_SIZE,
    ensures
        (byte_sum(checked_region(with_checksum(h))) + with_checksum(h)[CHECKSUM_OFFSET as int]
            + CHECKSUM_BIAS) % 256 == 0,
{
    assert(checked_region(with_checksum(h)) =~= checked_region(h));
}

/// A fixed-layout header, decoded from the first `HEADER_SIZE` bytes of an image.
/// Its view is those bytes.
pub struct GbaHeader {
    bytes: [u8; HEADER_SIZE],
}

impl View for GbaHeader {
    type V = Seq<u8>;

    closed spec fn view(&self) -> Seq<u8> {
        self.bytes@
    }
}

impl GbaHeader {
    /// Decodes the header at the start of `buf`.
    pub fn read(buf: &[u8]) -> (r: GbaHeader)
        requires
            buf@.len() >= HEADER_SIZE,
        ensures
            r@ == buf@.subrange(0, HEADER_SIZE as int),
    {
        let mut bytes = [0u8; HEADER_SIZE];
        let mut i: usize = 0;
        while i < HEADER_SIZE
            invariant
                i <= HEADER_SIZE,
                buf@.len() >= HEADER_SIZE,
                bytes@.len() == HEADER_SIZE,
                forall|k: int| 0 <= k < i ==> bytes@[k] == buf@[k],
            decreases HEADER_SIZE - i,
        {
            bytes[i] = buf[i];
            i = i + 1;
        }
        let r = GbaHeader { bytes };
        assert(r@ =~= buf@.subrange(0, HEADER_SIZE as int));
        r
    }

    /// Encodes the header over the first `HEADER_SIZE` bytes of `buf`; the
    /// rest of `buf` is left as it was.
    pub fn write(&self, buf: &mut Vec<u8>)
        requires
            old(buf)@.len() >= HEADER_SIZE,
        ensures
            final(buf)@ == self@ + old(buf)@.subrange(HEADER_SIZE as int, old(buf)@.len() as int),
    {
        let mut i: usize = 0;
        while i < HEADER_SIZE
            invariant
                i <= HEADER_SIZE,
                old(buf)@.len() >= HEADER_SIZE,
                buf@.len() == old(buf)@.len(),
                self@.len() == HEADER_SIZE,
                forall|k: int| 0 <= k < i ==> buf@[k] == self@[k],
                forall|k: int| i <= k < buf@.len() ==> buf@[k] == old(buf)@[k],
            decreases HEADER_SIZE - i,
        {
            buf[i] = self.bytes[i];
            i = i + 1;
        }
        assert(buf@ =~= self@ + old(buf)@.subrange(HEADER_SIZE as int, old(buf)@.len() as int));
    }

    /// Overwrites the bytes at `offset` with `f`.
    fn write_field(&mut self, offset: usize, f: &[u8])
        requires
            offset + f@.len() <= HEADER_SIZE,
        ensures
            final(self)@ == with_field(old(self)@, offset as int, f@),
    {
        let mut j: usize = 0;
        while j < f.len()
            invariant
                offset + f@.len() <= HEADER_SIZE,
                j <= f@.len(),
                self@.len() == HEADER_SIZE,
                forall|k: int|
                    0 <= k < HEADER_SIZE ==> self@[k] == (if offset <= k < offset + j {
                        f@[k - offset]
                    } else {
                        old(self)@[k]
                    }),
            decreases f@.len() - j,
        {
            self.bytes[offset + j] = f[j];
            j = j + 1;
        }
        assert(self@ =~= with_field(old(self)@, offset as int, f@));
    }

    /// Overwrites the 12-byte title.
    pub fn set_title(&mut self, title: &[u8; TITLE_LEN])
        ensures
            final(self)@ == with_field(old(self)@, TITLE_OFFSET as int, title@),
    {
        self.write_field(TITLE_OFFSET, title.as_slice());
    }

    /// Overwrites the 4-byte game code.
    pub fn set_game_code(&mut self, code: &[u8; GAME_CODE_LEN])
        ensures
            final(self)@ == with_field(old(self)@, GAME_CODE_OFFSET as int, code@),
    {
        self.write_field(GAME_CODE_OFFSET, code.as_slice());
    }

    /// Overwrites the 2-byte maker code.
    pub fn set_maker_code(&mut self, code: &[u8; MAKER_CODE_LEN])
        ensures
            final(self)@ == with_field(old(self)@, MAKER_CODE_OFFSET as int, code@),
    {
        self.write_field(MAKER_CODE_OFFSET, code.as_slice());
    }

    /// Overwrites the version byte.
    pub fn set_version(&mut self, version: u8)
        ensures
            final(self)@ == old(self)@.update(VERSION_OFFSET as int, version),
    {
        self.bytes[VERSION_OFFSET] = version;
    }

    /// Switches the debug handler on or off (see `with_debugging`).
    pub fn set_debugging(&mut self, on: bool)
        ensures
            final(self)@ == with_debugging(old(self)@, on),
    {
        let flag = self.bytes[DEBUG_FLAG_OFFSET];
        if on {
            self.bytes[DEBUG_FLAG_OFFSET] = flag | DEBUG_ENABLE_BITS;
            let device = self.bytes[DEVICE_TYPE_OFFSET];
            self.bytes[DEVICE_TYPE_OFFSET] = device | DEBUG_ENTRY_BIT;
        } else {
            self.bytes[DEBUG_FLAG_OFFSET] = flag & !DEBUG_ENABLE_BITS;
        }
    }

    /// The 12-byte title.
    pub fn title(&self) -> (r: [u8; TITLE_LEN])
        ensures
            r@ == field_of(self@, TITLE_OFFSET as int, TITLE_LEN as int),
    {
        let r = copy_padded(self.bytes.as_slice(), TITLE_OFFSET, TITLE_OFFSET + TITLE_LEN);
        assert(r@ =~= field_of(self@, TITLE_OFFSET as int, TITLE_LEN as int));
        r
    }

    /// The 4-byte game code.
    pub fn game_code(&self) -> (r: [u8; GAME_CODE_LEN])
        ensures
            r@ == field_of(self@, GAME_CODE_OFFSET as int, GAME_CODE_LEN as int),
    {
        let r = copy_padded(
            self.bytes.as_slice(),
            GAME_CODE_OFFSET,
            GAME_CODE_OFFSET + GAME_CODE_LEN,
        );
        assert(r@ =~= field_of(self@, GAME_CODE_OFFSET as int, GAME_CODE_LEN as int));
        r
    }

    /// The 2-byte maker code.
    pub fn maker_code(&self) -> (r: [u8; MAKER_CODE_LEN])
        ensures
            r@ == field_of(self@, MAKER_CODE_OFFSET as int, MAKER_CODE_LEN as int),
    {
        let r = copy_padded(
            self.bytes.as_slice(),
            MAKER_CODE_OFFSET,
            MAKER_CODE_OFFSET + MAKER_CODE_LEN,
        );
        assert(r@ =~= field_of(self@, MAKER_CODE_OFFSET as int, MAKER_CODE_LEN as int));
        r
    }

    pub fn version(&self) -> (r: u8)
        ensures
            r == self@[VERSION_OFFSET as int],
    {
        self.bytes[VERSION_OFFSET]
    }

    /// The checksum byte as stored.
    pub fn checksum(&self) -> (r: u8)
        ensures
            r == self@[CHECKSUM_OFFSET as int],
    {
        self.bytes[CHECKSUM_OFFSET]
    }

    /// Whether the debug handler's enable bits are set.
    pub fn debugging(&self) -> (r: bool)
        ensures
            r == (self@[DEBUG_FLAG_OFFSET as int] & DEBUG_ENABLE_BITS == DEBUG_ENABLE_BITS),
    {
        self.bytes[DEBUG_FLAG_OFFSET] & DEBUG_ENABLE_BITS == DEBUG_ENABLE_BITS
    }

    /// The checksum that the current bytes call for.
    pub fn compute_checksum(&self) -> (r: u8)
        ensures
            r == checksum_of(self@),
    {
        let mut sum: u32 = 0;
        let mut i: usize = LOGO_OFFSET;
        while i < CHECKSUM_OFFSET
            invariant
                LOGO_OFFSET <= i <= CHECKSUM_OFFSET,
                self@.len() == HEADER_SIZE,
                sum == byte_sum(self@.subrange(LOGO_OFFSET as int, i as int)),
                sum <= 255 * (i - LOGO_OFFSET),
            decreases CHECKSUM_OFFSET - i,
        {
            let ghost prev = self@.subrange(LOGO_OFFSET as int, i as int);
            assert(self@.subrange(LOGO_OFFSET as int, i + 1).drop_last() =~= prev);
            sum = sum + self.bytes[i] as u32;
            i = i + 1;
        }
        let low = sum % 256;
        ((487 - low) % 256) as u8
    }

    /// Stores the checksum that the current bytes call for.
    pub fn update_checksum(&mut self)
        ensures
            final(self)@ == with_checksum(old(self)@),
    {
        let c = self.compute_checksum();
        self.bytes[CHECKSUM_OFFSET] = c;
    }
}

} // verus!
