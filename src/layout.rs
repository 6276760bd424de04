//! The layout of an image file: its sizes, what each part holds as a
//! function of the file's bytes, and the laws that relate reading and writing.
use vstd::prelude::*;

verus! {

/// Words in a syllable.
pub const NUM_WORDS: usize = 256;

/// Syllables in a sector.
pub const NUM_SYLLABLES: usize = 3;

/// Sectors in a module.
pub const NUM_SECTORS: usize = 16;

/// Modules in an image.
pub const NUM_MODULES: usize = 8;

/// Bytes that one syllable occupies in an image file.
pub const SYLLABLE_BYTES: usize = NUM_WORDS * 2;

/// Bytes that one sector occupies in an image file.
pub const SECTOR_BYTES: usize = SYLLABLE_BYTES * NUM_SYLLABLES;

/// Bytes that one module occupies in an image file.
pub const MODULE_BYTES: usize = SECTOR_BYTES * NUM_SECTORS;

/// Offset of the first register, right after the last module.
pub const REGISTERS_AT: usize = MODULE_BYTES * NUM_MODULES;

/// Bytes that a whole image occupies: the modules and three 32-bit registers.
pub const IMAGE_BYTES: usize = REGISTERS_AT + 12;

/// The value of a word that was never read from a file.
pub const UNPROGRAMMED: u16 = 0xFFFF;

/// The big-endian 16-bit value held by `b[at]` and `b[at + 1]`.
pub open spec fn be16(b: Seq<u8>, at: int) -> u16 {
    (b[at] as int * 256 + b[at + 1] as int) as u16
}

/// The big-endian 32-bit value held by the four bytes from `b[at]` on.
pub open spec fn be32(b: Seq<u8>, at: int) -> u32 {
    (be16(b, at) as int * 65536 + be16(b, at + 2) as int) as u32
}

/// The words of the syllable stored from `b[at]` on.
pub open spec fn syllable_at(b: Seq<u8>, at: int) -> Seq<u16> {
    Seq::new(NUM_WORDS as nat, |k: int| be16(b, at + 2 * k))
}

/// The syllables of the sector stored from `b[at]` on.
pub open spec fn sector_at(b: Seq<u8>, at: int) -> Seq<Seq<u16>> {
    Seq::new(NUM_SYLLABLES as nat, |j: int| syllable_at(b, at + SYLLABLE_BYTES * j))
}

/// The sectors of the module stored from `b[at]` on.
pub open spec fn module_at(b: Seq<u8>, at: int) -> Seq<Seq<Seq<u16>>> {
    Seq::new(NUM_SECTORS as nat, |j: int| sector_at(b, at + SECTOR_BYTES * j))
}

/// The modules of the image stored at the start of `b`.
pub open spec fn modules_of(b: Seq<u8>) -> Seq<Seq<Seq<Seq<u16>>>> {
    Seq::new(NUM_MODULES as nat, |j: int| module_at(b, MODULE_BYTES * j))
}

/// The sizes of the parts of an image file, in bytes.
pub(crate) proof fn lemma_sizes()
    ensures
        SYLLABLE_BYTES == 512,
        SECTOR_BYTES == 1536,
        MODULE_BYTES == 24576,
        REGISTERS_AT == 196608,
        IMAGE_BYTES == 196620,
{
}

/// A syllable's contents hold exactly 256 words.
pub open spec fn syllable_shaped(s: Seq<u16>) -> bool {
    s.len() == NUM_WORDS
}

/// A sector's contents hold exactly three well-shaped syllables.
pub open spec fn sector_shaped(s: Seq<Seq<u16>>) -> bool {
    &&& s.len() == NUM_SYLLABLES
    &&& forall|j: int| 0 <= j < s.len() ==> syllable_shaped(#[trigger] s[j])
}

/// A module's contents hold exactly sixteen well-shaped sectors.
pub open spec fn module_shaped(m: Seq<Seq<Seq<u16>>>) -> bool {
    &&& m.len() == NUM_SECTORS
    &&& forall|j: int| 0 <= j < m.len() ==> sector_shaped(#[trigger] m[j])
}

/// An image's modules are exactly eight well-shaped modules.
pub open spec fn image_shaped(ms: Seq<Seq<Seq<Seq<u16>>>>) -> bool {
    &&& ms.len() == NUM_MODULES
    &&& forall|j: int| 0 <= j < ms.len() ==> module_shaped(#[trigger] ms[j])
}

/// A syllable read after dropping `n` bytes is the one stored `n` bytes further on.
pub(crate) proof fn lemma_syllable_skip(b: Seq<u8>, n: int, at: int)
    requires
        0 <= n,
        0 <= at,
        n + at + SYLLABLE_BYTES <= b.len(),
    ensures
        syllable_at(b.skip(n), at) == syllable_at(b, n + at),
{
    assert(syllable_at(b.skip(n), at) =~= syllable_at(b, n + at));
}

/// A sector read after dropping `n` bytes is the one stored `n` bytes further on.
pub(crate) proof fn lemma_sector_skip(b: Seq<u8>, n: int, at: int)
    requires
        0 <= n,
        0 <= at,
        n + at + SECTOR_BYTES <= b.len(),
    ensures
        sector_at(b.skip(n), at) == sector_at(b, n + at),
{
    assert forall|j: int| 0 <= j < NUM_SYLLABLES implies #[trigger] syllable_at(
        b.skip(n),
        at + SYLLABLE_BYTES * j,
    ) == syllable_at(b, n + at + SYLLABLE_BYTES * j) by {
        lemma_syllable_skip(b, n, at + SYLLABLE_BYTES * j);
    }
    assert(sector_at(b.skip(n), at) =~= sector_at(b, n + at));
}

/// A module read after dropping `n` bytes is the one stored `n` bytes further on.
pub(crate) proof fn lemma_module_skip(b: Seq<u8>, n: int, at: int)
    requires
        0 <= n,
        0 <= at,
        n + at + MODULE_BYTES <= b.len(),
    ensures
        module_at(b.skip(n), at) == module_at(b, n + at),
{
    assert forall|j: int| 0 <= j < NUM_SECTORS implies #[trigger] sector_at(
        b.skip(n),
        at + SECTOR_BYTES * j,
    ) == sector_at(b, n + at + SECTOR_BYTES * j) by {
        lemma_sector_skip(b, n, at + SECTOR_BYTES * j);
    }
    assert(module_at(b.skip(n), at) =~= module_at(b, n + at));
}

/// Two byte sequences that agree on a syllable's bytes hold the same syllable there.
proof fn lemma_syllable_agree(b1: Seq<u8>, b2: Seq<u8>, at: int)
    requires
        0 <= at,
        at + SYLLABLE_BYTES <= b1.len(),
        at + SYLLABLE_BYTES <= b2.len(),
        forall|i: int| at <= i < at + SYLLABLE_BYTES ==> #[trigger] b1[i] == b2[i],
    ensures
        syllable_at(b1, at) == syllable_at(b2, at),
{
    assert(syllable_at(b1, at) =~= syllable_at(b2, at));
}

/// Two byte sequences that agree on a sector's bytes hold the same sector there.
proof fn lemma_sector_agree(b1: Seq<u8>, b2: Seq<u8>, at: int)
    requires
        0 <= at,
        at + SECTOR_BYTES <= b1.len(),
        at + SECTOR_BYTES <= b2.len(),
        forall|i: int| at <= i < at + SECTOR_BYTES ==> #[trigger] b1[i] == b2[i],
    ensures
        sector_at(b1, at) == sector_at(b2, at),
{
    assert forall|j: int| 0 <= j < NUM_SYLLABLES implies #[trigger] syllable_at(
        b1,
        at + SYLLABLE_BYTES * j,
    ) == syllable_at(b2, at + SYLLABLE_BYTES * j) by {
        lemma_syllable_agree(b1, b2, at + SYLLABLE_BYTES * j);
    }
    assert(sector_at(b1, at) =~= sector_at(b2, at));
}

/// Two byte sequences that agree on a module's bytes hold the same module there.
proof fn lemma_module_agree(b1: Seq<u8>, b2: Seq<u8>, at: int)
    requires
        0 <= at,
        at + MODULE_BYTES <= b1.len(),
        at + MODULE_BYTES <= b2.len(),
        forall|i: int| at <= i < at + MODULE_BYTES ==> #[trigger] b1[i] == b2[i],
    ensures
        module_at(b1, at) == module_at(b2, at),
{
    assert forall|j: int| 0 <= j < NUM_SECTORS implies #[trigger] sector_at(
        b1,
        at + SECTOR_BYTES * j,
    ) == sector_at(b2, at + SECTOR_BYTES * j) by {
        lemma_sector_agree(b1, b2, at + SECTOR_BYTES * j);
    }
    assert(module_at(b1, at) =~= module_at(b2, at));
}

/// Bytes past the end of an image change nothing that is read from it: the
/// modules and the registers read from `b` are those read from its first
/// `IMAGE_BYTES` bytes.
pub proof fn lemma_trailing_bytes_ignored(b: Seq<u8>)
    requires
        b.len() >= IMAGE_BYTES,
    ensures
        modules_of(b) == modules_of(b.take(IMAGE_BYTES as int)),
        be32(b, REGISTERS_AT as int) == be32(b.take(IMAGE_BYTES as int), REGISTERS_AT as int),
        be32(b, REGISTERS_AT + 4) == be32(b.take(IMAGE_BYTES as int), REGISTERS_AT + 4),
        be32(b, REGISTERS_AT + 8) == be32(b.take(IMAGE_BYTES as int), REGISTERS_AT + 8),
{
    lemma_sizes();
    let t = b.take(IMAGE_BYTES as int);
    assert forall|j: int| 0 <= j < NUM_MODULES implies #[trigger] module_at(b, MODULE_BYTES * j)
        == module_at(t, MODULE_BYTES * j) by {
        lemma_module_agree(b, t, MODULE_BYTES * j);
    }
    assert(modules_of(b) =~= modules_of(t));
}

// ---------------------------------------------------------------------------
// Writing an image back to bytes
// ---------------------------------------------------------------------------

/// One byte of a 16-bit word as stored: the high byte, or the low byte when
/// `low` holds.
pub open spec fn word_byte(w: u16, low: bool) -> u8 {
    if low {
        (w % 256) as u8
    } else {
        (w / 256) as u8
    }
}

/// Byte `k` (0 to 3) of a 32-bit register as stored, most significant first.
pub open spec fn register_byte(v: u32, k: int) -> u8 {
    if k == 0 {
        (v / 0x100_0000) as u8
    } else if k == 1 {
        (v / 0x1_0000 % 256) as u8
    } else if k == 2 {
        (v / 256 % 256) as u8
    } else {
        (v % 256) as u8
    }
}

/// Byte `i` of the file that stores modules `ms` and the three registers.
pub open spec fn image_byte(
    ms: Seq<Seq<Seq<Seq<u16>>>>,
    hop: u32,
    acc: u32,
    pq: u32,
    i: int,
) -> u8 {
    if i < REGISTERS_AT {
        let r1 = i % MODULE_BYTES as int;
        let r2 = r1 % SECTOR_BYTES as int;
        let r3 = r2 % SYLLABLE_BYTES as int;
        let w = ms[i / MODULE_BYTES as int][r1 / SECTOR_BYTES as int][r2
            / SYLLABLE_BYTES as int][r3 / 2];
        word_byte(w, r3 % 2 == 1)
    } else {
        let j = i - REGISTERS_AT;
        let reg = if j < 4 {
            hop
        } else if j < 8 {
            acc
        } else {
            pq
        };
        register_byte(reg, j % 4)
    }
}

/// The file that stores modules `ms` and the three registers, in the layout
/// that `MemoryImage::read` reads.
pub open spec fn image_bytes(ms: Seq<Seq<Seq<Seq<u16>>>>, hop: u32, acc: u32, pq: u32) -> Seq<
    u8,
> {
    Seq::new(IMAGE_BYTES as nat, |i: int| image_byte(ms, hop, acc, pq, i))
}

/// The two bytes of a big-endian word are recovered from its value.
proof fn lemma_word_bytes(x: u8, y: u8)
    ensures
        word_byte((x as int * 256 + y as int) as u16, false) == x,
        word_byte((x as int * 256 + y as int) as u16, true) == y,
{
    assert(((x as int * 256 + y as int) as u16) / 256 == x && ((x as int * 256 + y as int) as u16)
        % 256 == y) by (nonlinear_arith);
}

/// The four bytes of a big-endian register are recovered from its value.
proof fn lemma_register_bytes(b: Seq<u8>, at: int)
    requires
        0 <= at,
        at + 4 <= b.len(),
    ensures
        register_byte(be32(b, at), 0) == b[at],
        register_byte(be32(b, at), 1) == b[at + 1],
        register_byte(be32(b, at), 2) == b[at + 2],
        register_byte(be32(b, at), 3) == b[at + 3],
{
    let (x0, x1, x2, x3) = (b[at], b[at + 1], b[at + 2], b[at + 3]);
    let v = be32(b, at) as int;
    assert(v == x0 as int * 0x100_0000 + x1 as int * 0x1_0000 + x2 as int * 256 + x3 as int)
        by (nonlinear_arith)
        requires
            v == ((x0 as int * 256 + x1 as int) as u16 as int * 65536 + (x2 as int * 256
                + x3 as int) as u16 as int) as u32 as int,
    ;
    assert(v / 0x100_0000 == x0 && v / 0x1_0000 % 256 == x1 && v / 256 % 256 == x2 && v % 256
        == x3) by (nonlinear_arith)
        requires
            v == x0 as int * 0x100_0000 + x1 as int * 0x1_0000 + x2 as int * 256 + x3 as int,
    ;
}

/// Where byte `i` of the module area stands: module `m`, sector `s`,
/// syllable `y`, word `k`, and which of the word's two bytes.
proof fn lemma_locate(i: int)
    requires
        0 <= i < REGISTERS_AT,
    ensures
        ({
            let r1 = i % MODULE_BYTES as int;
            let r2 = r1 % SECTOR_BYTES as int;
            let r3 = r2 % SYLLABLE_BYTES as int;
            let (m, s, y, k) = (
                i / MODULE_BYTES as int,
                r1 / SECTOR_BYTES as int,
                r2 / SYLLABLE_BYTES as int,
                r3 / 2,
            );
            &&& 0 <= m < NUM_MODULES
            &&& 0 <= s < NUM_SECTORS
            &&& 0 <= y < NUM_SYLLABLES
            &&& 0 <= k < NUM_WORDS
            &&& 0 <= r3 % 2 < 2
            &&& i == MODULE_BYTES * m + SECTOR_BYTES * s + SYLLABLE_BYTES * y + 2 * k + r3 % 2
        }),
{
    lemma_sizes();
}

/// Reading an image of exactly `IMAGE_BYTES` bytes and writing back what was
/// read gives the same bytes: every byte of the file is read, and none is
/// read wrongly.
pub proof fn lemma_round_trip(b: Seq<u8>)
    requires
        b.len() == IMAGE_BYTES,
    ensures
        image_bytes(
            modules_of(b),
            be32(b, REGISTERS_AT as int),
            be32(b, REGISTERS_AT + 4),
            be32(b, REGISTERS_AT + 8),
        ) == b,
{
    lemma_sizes();
    let ms = modules_of(b);
    let r = REGISTERS_AT as int;
    let (hop, acc, pq) = (be32(b, r), be32(b, r + 4), be32(b, r + 8));
    lemma_register_bytes(b, r);
    lemma_register_bytes(b, r + 4);
    lemma_register_bytes(b, r + 8);
    assert forall|i: int| 0 <= i < IMAGE_BYTES implies #[trigger] image_byte(ms, hop, acc, pq, i)
        == b[i] by {
        if i < r {
            lemma_locate(i);
            let r1 = i % MODULE_BYTES as int;
            let r2 = r1 % SECTOR_BYTES as int;
            let r3 = r2 % SYLLABLE_BYTES as int;
            let (m, s, y, k) = (
                i / MODULE_BYTES as int,
                r1 / SECTOR_BYTES as int,
                r2 / SYLLABLE_BYTES as int,
                r3 / 2,
            );
            let base = MODULE_BYTES * m + SECTOR_BYTES * s + SYLLABLE_BYTES * y + 2 * k;
            assert(ms[m][s][y][k] == be16(b, base));
            lemma_word_bytes(b[base], b[base + 1]);
        }
    }
    assert(image_bytes(ms, hop, acc, pq) =~= b);
}

} // verus!
