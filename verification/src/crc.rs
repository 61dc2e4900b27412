//! The two cyclic redundancy checks of the protocol.
//!
//! `crc16` is the XMODEM check: generator `x^16 + x^12 + x^5 + 1`, initial
//! register zero, most significant bit first, nothing added at the end.
//! The 32-bit check is the one of Ethernet and ZIP: generator
//! `0x04c11db7` in its bit-reversed form, register started at all ones and
//! complemented at the end.

use vstd::prelude::*;

verus! {

/// One division step of the 16-bit register.
pub open spec fn crc16_shift(c: u16) -> u16 {
    if c & 0x8000 != 0 {
        (c << 1) ^ 0x1021
    } else {
        c << 1
    }
}

/// `n` division steps of the 16-bit register.
pub open spec fn crc16_shifts(c: u16, n: nat) -> u16
    decreases n,
{
    if n == 0 {
        c
    } else {
        crc16_shift(crc16_shifts(c, (n - 1) as nat))
    }
}

/// The 16-bit register after one more message byte.
pub open spec fn crc16_byte(c: u16, b: u8) -> u16 {
    crc16_shifts(c ^ ((b as u16) << 8), 8)
}

/// The 16-bit check of a message.
pub open spec fn crc16_of(data: Seq<u8>) -> u16
    decreases data.len(),
{
    if data.len() == 0 {
        0
    } else {
        crc16_byte(crc16_of(data.drop_last()), data.last())
    }
}

/// One division step of the 32-bit register, least significant bit first.
pub open spec fn crc32_shift(c: u32) -> u32 {
    if c & 1 != 0 {
        0xedb8_8320 ^ (c >> 1)
    } else {
        c >> 1
    }
}

/// `n` division steps of the 32-bit register.
pub open spec fn crc32_shifts(c: u32, n: nat) -> u32
    decreases n,
{
    if n == 0 {
        c
    } else {
        crc32_shift(crc32_shifts(c, (n - 1) as nat))
    }
}

/// The 32-bit register after one more message byte.
pub open spec fn crc32_byte(c: u32, b: u8) -> u32 {
    crc32_shifts(c ^ (b as u32), 8)
}

/// The 32-bit register after a message, before it is complemented.
pub open spec fn crc32_reg(data: Seq<u8>) -> u32
    decreases data.len(),
{
    if data.len() == 0 {
        0xffff_ffff
    } else {
        crc32_byte(crc32_reg(data.drop_last()), data.last())
    }
}

/// The 32-bit check of a message.
pub open spec fn crc32_of(data: Seq<u8>) -> u32 {
    crc32_reg(data) ^ 0xffff_ffff
}

/// The table that gives eight division steps of a byte at once.
pub open spec fn is_crc32_table(t: Seq<u32>) -> bool {
    &&& t.len() == 256
    &&& forall|i: int| 0 <= i < 256 ==> #[trigger] t[i] == crc32_shifts(i as u32, 8)
}

/// The 16-bit check of `data`.
pub fn crc16(data: &[u8]) -> (crc: u16)
    ensures
        crc == crc16_of(data@),
{
    let mut crc: u16 = 0;
    let mut i: usize = 0;
    while i < data.len()
        invariant
            i <= data.len(),
            crc == crc16_of(data@.take(i as int)),
        decreases data.len() - i,
    {
        let ghost before = crc;
        crc = crc ^ ((data[i] as u16) << 8);
        let ghost mixed = crc;
        let mut k: usize = 0;
        while k < 8
            invariant
                k <= 8,
                crc == crc16_shifts(mixed, k as nat),
            decreases 8 - k,
        {
            crc = if crc & 0x8000 != 0 {
                (crc << 1) ^ 0x1021
            } else {
                crc << 1
            };
            k = k + 1;
        }
        proof {
            let next = data@.take(i + 1);
            assert(next.drop_last() =~= data@.take(i as int));
            assert(next.last() == data@[i as int]);
        }
        i = i + 1;
    }
    assert(data@.take(data@.len() as int) =~= data@);
    crc
}

/// The lookup table of the 32-bit check.
pub fn crc32_table() -> (t: [u32; 256])
    ensures
        is_crc32_table(t@),
{
    let mut t: [u32; 256] = [0u32; 256];
    let mut i: usize = 0;
    while i < 256
        invariant
            i <= 256,
            forall|j: int| 0 <= j < i ==> #[trigger] t@[j] == crc32_shifts(j as u32, 8),
        decreases 256 - i,
    {
        let mut c: u32 = i as u32;
        let mut k: usize = 0;
        while k < 8
            invariant
                k <= 8,
                c == crc32_shifts(i as u32, k as nat),
            decreases 8 - k,
        {
            c = if c & 1 != 0 {
                0xedb8_8320 ^ (c >> 1)
            } else {
                c >> 1
            };
            k = k + 1;
        }
        t[i] = c;
        i = i + 1;
    }
    t
}

/// Eight steps of a register are the table entry of its low byte, added to
/// the rest of the register moved down.
pub proof fn lemma_crc32_by_table(c: u32, b: u8)
    ensures
        crc32_byte(c, b) == crc32_shifts((c ^ (b as u32)) & 0xff, 8) ^ (c >> 8),
{
    reveal_with_fuel(crc32_shifts, 9);
    let x = c ^ (b as u32);
    let y = x & 0xff;
    assert((c ^ (b as u32)) >> 8 == c >> 8) by (bit_vector);
    assert(crc32_shift(crc32_shift(crc32_shift(crc32_shift(crc32_shift(crc32_shift(crc32_shift(
        crc32_shift(x)))))))) == crc32_shift(crc32_shift(crc32_shift(crc32_shift(crc32_shift(
        crc32_shift(crc32_shift(crc32_shift(y)))))))) ^ (x >> 8)) by (bit_vector)
        requires
            y == x & 0xff,
    ;
}

/// The 32-bit check with its lookup table.
pub struct Crc32 {
    table: [u32; 256],
}

impl View for Crc32 {
    type V = Seq<u32>;

    /// The lookup table.
    closed spec fn view(&self) -> Seq<u32> {
        self.table@
    }
}

impl Crc32 {
    #[verifier::type_invariant]
    spec fn table_holds(self) -> bool {
        is_crc32_table(self.table@)
    }

    /// The check with its table made.
    pub fn new() -> (c: Crc32)
        ensures
            is_crc32_table(c@),
    {
        Crc32 { table: crc32_table() }
    }

    /// The register `c` after the byte `b`.
    pub fn update(&self, c: u32, b: u8) -> (r: u32)
        ensures
            r == crc32_byte(c, b),
    {
        proof {
            use_type_invariant(self);
            lemma_crc32_by_table(c, b);
            assert((c ^ (b as u32)) & 0xff < 256) by (bit_vector);
        }
        self.table[((c ^ b as u32) & 0xff) as usize] ^ (c >> 8)
    }

    /// The 32-bit check of `data`.
    pub fn crc32(&self, data: &[u8]) -> (r: u32)
        ensures
            r == crc32_of(data@),
    {
        let mut c: u32 = 0xffff_ffff;
        let mut i: usize = 0;
        while i < data.len()
            invariant
                i <= data.len(),
                c == crc32_reg(data@.take(i as int)),
            decreases data.len() - i,
        {
            c = self.update(c, data[i]);
            proof {
                let next = data@.take(i + 1);
                assert(next.drop_last() =~= data@.take(i as int));
                assert(next.last() == data@[i as int]);
            }
            i = i + 1;
        }
        assert(data@.take(data@.len() as int) =~= data@);
        c ^ 0xffff_ffff
    }
}

proof fn lemma_crc16_shifts_differ(a: u16, b: u16, n: nat)
    requires
        a != b,
    ensures
        crc16_shifts(a, n) != crc16_shifts(b, n),
    decreases n,
{
    if n > 0 {
        lemma_crc16_shifts_differ(a, b, (n - 1) as nat);
        let x = crc16_shifts(a, (n - 1) as nat);
        let y = crc16_shifts(b, (n - 1) as nat);
        assert(x != y ==> (if x & 0x8000 != 0 {
            (x << 1) ^ 0x1021
        } else {
            x << 1
        }) != (if y & 0x8000 != 0 {
            (y << 1) ^ 0x1021
        } else {
            y << 1
        })) by (bit_vector);
    }
}

proof fn lemma_crc32_shifts_differ(a: u32, b: u32, n: nat)
    requires
        a != b,
    ensures
        crc32_shifts(a, n) != crc32_shifts(b, n),
    decreases n,
{
    if n > 0 {
        lemma_crc32_shifts_differ(a, b, (n - 1) as nat);
        let x = crc32_shifts(a, (n - 1) as nat);
        let y = crc32_shifts(b, (n - 1) as nat);
        assert(x != y ==> (if x & 1 != 0 {
            0xedb8_8320 ^ (x >> 1)
        } else {
            x >> 1
        }) != (if y & 1 != 0 {
            0xedb8_8320 ^ (y >> 1)
        } else {
            y >> 1
        })) by (bit_vector);
    }
}

/// Two messages of one length that differ in a single byte have different
/// 16-bit checks.
pub proof fn crc16_tells_byte(s: Seq<u8>, i: int, b: u8)
    requires
        0 <= i < s.len(),
        b != s[i],
    ensures
        crc16_of(s.update(i, b)) != crc16_of(s),
    decreases s.len(),
{
    let t = s.update(i, b);
    let c = crc16_of(s.drop_last());
    let d = crc16_of(t.drop_last());
    let x = s.last();
    let y = t.last();
    if i == s.len() - 1 {
        assert(t.drop_last() =~= s.drop_last());
        assert(x != y ==> c ^ ((x as u16) << 8) != c ^ ((y as u16) << 8)) by (bit_vector);
    } else {
        assert(t.drop_last() =~= s.drop_last().update(i, b));
        crc16_tells_byte(s.drop_last(), i, b);
        assert(c != d ==> c ^ ((x as u16) << 8) != d ^ ((x as u16) << 8)) by (bit_vector);
    }
    lemma_crc16_shifts_differ(c ^ ((x as u16) << 8), d ^ ((y as u16) << 8), 8);
}

proof fn lemma_crc32_reg_tells_byte(s: Seq<u8>, i: int, b: u8)
    requires
        0 <= i < s.len(),
        b != s[i],
    ensures
        crc32_reg(s.update(i, b)) != crc32_reg(s),
    decreases s.len(),
{
    let t = s.update(i, b);
    let c = crc32_reg(s.drop_last());
    let d = crc32_reg(t.drop_last());
    let x = s.last();
    let y = t.last();
    if i == s.len() - 1 {
        assert(t.drop_last() =~= s.drop_last());
        assert(x != y ==> c ^ (x as u32) != c ^ (y as u32)) by (bit_vector);
    } else {
        assert(t.drop_last() =~= s.drop_last().update(i, b));
        lemma_crc32_reg_tells_byte(s.drop_last(), i, b);
        assert(c != d ==> c ^ (x as u32) != d ^ (x as u32)) by (bit_vector);
    }
    lemma_crc32_shifts_differ(c ^ (x as u32), d ^ (y as u32), 8);
}

/// Two messages of one length that differ in a single byte have different
/// 32-bit checks.
pub proof fn crc32_tells_byte(s: Seq<u8>, i: int, b: u8)
    requires
        0 <= i < s.len(),
        b != s[i],
    ensures
        crc32_of(s.update(i, b)) != crc32_of(s),
{
    lemma_crc32_reg_tells_byte(s, i, b);
    let c = crc32_reg(s);
    let d = crc32_reg(s.update(i, b));
    assert(c != d ==> c ^ 0xffff_ffff != d ^ 0xffff_ffff) by (bit_vector);
}

} // verus!
