//! The nested parts of a memory image, each read from a cursor.
use vstd::prelude::*;

use crate::cursor::{read_u16, read_u32, ByteCursor};
use crate::layout::{
    be16, be32, lemma_module_skip, lemma_sector_skip, lemma_sizes, lemma_syllable_skip, module_at,
    modules_of, sector_at, syllable_at, image_shaped, module_shaped, sector_shaped, syllable_shaped,
    MODULE_BYTES, NUM_MODULES, NUM_SECTORS, NUM_SYLLABLES, NUM_WORDS, REGISTERS_AT, SECTOR_BYTES,
    SYLLABLE_BYTES, IMAGE_BYTES, UNPROGRAMMED,
};

verus! {

/// One 16-bit storage cell.
#[derive(Debug, Clone, Copy, PartialEq, Eq, Structural)]
pub struct Word {
    value: u16,
}

impl View for Word {
    type V = u16;

    closed spec fn view(&self) -> u16 {
        self.value
    }
}

impl Word {
    /// An unprogrammed word.
    pub fn new() -> (w: Self)
        ensures
            w@ == UNPROGRAMMED,
    {
        Word { value: UNPROGRAMMED }
    }

    /// The word's 16-bit pattern.
    pub fn value(&self) -> (v: u16)
        ensures
            v == self@,
    {
        self.value
    }

    /// Reads one word as a big-endian 16-bit value.
    pub fn read(cursor: &mut ByteCursor) -> (r: Result<Self, ()>)
        ensures
            r is Ok <==> old(cursor).rest().len() >= 2,
            r is Ok ==> r->Ok_0@ == be16(old(cursor).rest(), 0) && final(cursor).rest()
                == old(cursor).rest().skip(2),
            r is Err ==> final(cursor).rest().len() == 0,
    {
        let value = read_u16(cursor)?;
        Ok(Word { value })
    }
}

// ---------------------------------------------------------------------------
// Syllable
// ---------------------------------------------------------------------------

/// The values of a sequence of words.
pub open spec fn word_values(ws: Seq<Word>) -> Seq<u16> {
    ws.map_values(|w: Word| w@)
}

/// A syllable: 256 words in address order.
#[derive(Debug, Clone)]
pub struct Syllable {
    words: Vec<Word>,
}

impl View for Syllable {
    type V = Seq<u16>;

    closed spec fn view(&self) -> Seq<u16> {
        word_values(self.words@)
    }
}

impl Syllable {
    /// A syllable of unprogrammed words.
    pub fn new() -> (s: Self)
        ensures
            s@ == Seq::new(NUM_WORDS as nat, |k: int| UNPROGRAMMED),
            syllable_shaped(s@),
    {
        let mut words: Vec<Word> = Vec::with_capacity(NUM_WORDS);
        let mut i: usize = 0;
        while i < NUM_WORDS
            invariant
                i <= NUM_WORDS,
                words@.len() == i,
                forall|k: int| 0 <= k < i ==> #[trigger] words@[k]@ == UNPROGRAMMED,
            decreases NUM_WORDS - i,
        {
            words.push(Word::new());
            i = i + 1;
        }
        let s = Syllable { words };
        assert(s@ =~= Seq::new(NUM_WORDS as nat, |k: int| UNPROGRAMMED));
        s
    }

    /// The words, for traversal; what is written through the result becomes
    /// the syllable's content.
    pub fn words(&mut self) -> (r: &mut Vec<Word>)
        ensures
            word_values(r@) == old(self)@,
            final(self)@ == word_values(final(r)@),
    {
        &mut self.words
    }

    /// Reads the 256 words of a syllable in order. Fails, returning no part of
    /// the syllable, when fewer bytes are left than a syllable occupies.
    pub fn read(cursor: &mut ByteCursor) -> (r: Result<Self, ()>)
        ensures
            r is Ok <==> old(cursor).rest().len() >= SYLLABLE_BYTES,
            r is Ok ==> r->Ok_0@ == syllable_at(old(cursor).rest(), 0) && final(cursor).rest()
                == old(cursor).rest().skip(SYLLABLE_BYTES as int),
            r is Ok ==> syllable_shaped(r->Ok_0@),
            r is Err ==> final(cursor).rest().len() == 0,
    {
        let ghost b = cursor.rest();
        let mut words: Vec<Word> = Vec::with_capacity(NUM_WORDS);
        let mut i: usize = 0;
        while i < NUM_WORDS
            invariant
                i <= NUM_WORDS,
                b == old(cursor).rest(),
                2 * i <= b.len(),
                words@.len() == i,
                cursor.rest() == b.skip(2 * i),
                forall|k: int| 0 <= k < i ==> #[trigger] words@[k]@ == be16(b, 2 * k),
            decreases NUM_WORDS - i,
        {
            let ghost before = cursor.rest();
            let w = match Word::read(cursor) {
                Ok(w) => w,
                Err(e) => {
                    assert(before.len() == b.len() - 2 * i);
                    return Err(e);
                },
            };
            assert(be16(before, 0) == be16(b, 2 * i));
            assert(cursor.rest() =~= b.skip(2 * (i + 1)));
            words.push(w);
            i = i + 1;
        }
        let s = Syllable { words };
        assert(s@ =~= syllable_at(b, 0));
        Ok(s)
    }
}

// ---------------------------------------------------------------------------
// Sector
// ---------------------------------------------------------------------------

/// The contents of a sequence of syllables.
pub open spec fn syllable_views(ss: Seq<Syllable>) -> Seq<Seq<u16>> {
    ss.map_values(|s: Syllable| s@)
}

/// A sector: three syllables in address order.
#[derive(Debug, Clone)]
pub struct Sector {
    syllables: Vec<Syllable>,
}

impl View for Sector {
    type V = Seq<Seq<u16>>;

    closed spec fn view(&self) -> Seq<Seq<u16>> {
        syllable_views(self.syllables@)
    }
}

impl Sector {
    /// A sector of unprogrammed syllables.
    pub fn new() -> (s: Self)
        ensures
            s@ == Seq::new(
                NUM_SYLLABLES as nat,
                |j: int| Seq::new(NUM_WORDS as nat, |k: int| UNPROGRAMMED),
            ),
            sector_shaped(s@),
    {
        let mut syllables: Vec<Syllable> = Vec::with_capacity(NUM_SYLLABLES);
        let mut i: usize = 0;
        while i < NUM_SYLLABLES
            invariant
                i <= NUM_SYLLABLES,
                syllables@.len() == i,
                forall|k: int| 0 <= k < i ==> #[trigger] syllables@[k]@ == Seq::new(
                    NUM_WORDS as nat,
                    |k: int| UNPROGRAMMED,
                ),
            decreases NUM_SYLLABLES - i,
        {
            syllables.push(Syllable::new());
            i = i + 1;
        }
        let s = Sector { syllables };
        assert(s@ =~= Seq::new(
            NUM_SYLLABLES as nat,
            |j: int| Seq::new(NUM_WORDS as nat, |k: int| UNPROGRAMMED),
        ));
        s
    }

    /// The syllables, for traversal; what is written through the result
    /// becomes the sector's content.
    pub fn syllables(&mut self) -> (r: &mut Vec<Syllable>)
        ensures
            syllable_views(r@) == old(self)@,
            final(self)@ == syllable_views(final(r)@),
    {
        &mut self.syllables
    }

    /// Reads the three syllables of a sector in order. Fails, returning no
    /// part of the sector, when fewer bytes are left than a sector occupies.
    pub fn read(cursor: &mut ByteCursor) -> (r: Result<Self, ()>)
        ensures
            r is Ok <==> old(cursor).rest().len() >= SECTOR_BYTES,
            r is Ok ==> r->Ok_0@ == sector_at(old(cursor).rest(), 0) && final(cursor).rest()
                == old(cursor).rest().skip(SECTOR_BYTES as int),
            r is Ok ==> sector_shaped(r->Ok_0@),
            r is Err ==> final(cursor).rest().len() == 0,
    {
        let ghost b = cursor.rest();
        proof {
            lemma_sizes();
        }
        let mut syllables: Vec<Syllable> = Vec::with_capacity(NUM_SYLLABLES);
        let mut i: usize = 0;
        while i < NUM_SYLLABLES
            invariant
                b == old(cursor).rest(),
                i <= NUM_SYLLABLES,
                SYLLABLE_BYTES * i <= b.len(),
                syllables@.len() == i,
                cursor.rest() == b.skip(SYLLABLE_BYTES * i),
                forall|k: int|
                    0 <= k < i ==> #[trigger] syllables@[k]@ == syllable_at(b, SYLLABLE_BYTES * k),
            decreases NUM_SYLLABLES - i,
        {
            let ghost before = cursor.rest();
            proof {
                lemma_sizes();
            }
            let s = match Syllable::read(cursor) {
                Ok(s) => s,
                Err(e) => {
                    assert(before.len() == b.len() - SYLLABLE_BYTES * i);
                    return Err(e);
                },
            };
            proof {
                lemma_syllable_skip(b, SYLLABLE_BYTES * i, 0);
                assert(cursor.rest() =~= b.skip(SYLLABLE_BYTES * (i + 1)));
            }
            syllables.push(s);
            i = i + 1;
        }
        let s = Sector { syllables };
        assert(s@ =~= sector_at(b, 0));
        Ok(s)
    }
}

// ---------------------------------------------------------------------------
// Module
// ---------------------------------------------------------------------------

/// The contents of a sequence of sectors.
pub open spec fn sector_views(ss: Seq<Sector>) -> Seq<Seq<Seq<u16>>> {
    ss.map_values(|s: Sector| s@)
}

/// The contents of a freshly made sector.
pub open spec fn blank_sector() -> Seq<Seq<u16>> {
    Seq::new(NUM_SYLLABLES as nat, |j: int| Seq::new(NUM_WORDS as nat, |k: int| UNPROGRAMMED))
}

/// A module: sixteen sectors in address order.
#[derive(Debug, Clone)]
pub struct Module {
    sectors: Vec<Sector>,
}

impl View for Module {
    type V = Seq<Seq<Seq<u16>>>;

    closed spec fn view(&self) -> Seq<Seq<Seq<u16>>> {
        sector_views(self.sectors@)
    }
}

impl Module {
    /// A module of unprogrammed sectors.
    pub fn new() -> (m: Self)
        ensures
            m@ == Seq::new(NUM_SECTORS as nat, |j: int| blank_sector()),
            module_shaped(m@),
    {
        let mut sectors: Vec<Sector> = Vec::with_capacity(NUM_SECTORS);
        let mut i: usize = 0;
        while i < NUM_SECTORS
            invariant
                i <= NUM_SECTORS,
                sectors@.len() == i,
                forall|k: int| 0 <= k < i ==> #[trigger] sectors@[k]@ == blank_sector(),
            decreases NUM_SECTORS - i,
        {
            sectors.push(Sector::new());
            i = i + 1;
        }
        let m = Module { sectors };
        assert(m@ =~= Seq::new(NUM_SECTORS as nat, |j: int| blank_sector()));
        m
    }

    /// The sectors, for traversal; what is written through the result becomes
    /// the module's content.
    pub fn sectors(&mut self) -> (r: &mut Vec<Sector>)
        ensures
            sector_views(r@) == old(self)@,
            final(self)@ == sector_views(final(r)@),
    {
        &mut self.sectors
    }

    /// Reads the sixteen sectors of a module in order. Fails, returning no
    /// part of the module, when fewer bytes are left than a module occupies.
    pub fn read(cursor: &mut ByteCursor) -> (r: Result<Self, ()>)
        ensures
            r is Ok <==> old(cursor).rest().len() >= MODULE_BYTES,
            r is Ok ==> r->Ok_0@ == module_at(old(cursor).rest(), 0) && final(cursor).rest()
                == old(cursor).rest().skip(MODULE_BYTES as int),
            r is Ok ==> module_shaped(r->Ok_0@),
            r is Err ==> final(cursor).rest().len() == 0,
    {
        let ghost b = cursor.rest();
        proof {
            lemma_sizes();
        }
        let mut sectors: Vec<Sector> = Vec::with_capacity(NUM_SECTORS);
        let mut i: usize = 0;
        while i < NUM_SECTORS
            invariant
                b == old(cursor).rest(),
                i <= NUM_SECTORS,
                SECTOR_BYTES * i <= b.len(),
                sectors@.len() == i,
                cursor.rest() == b.skip(SECTOR_BYTES * i),
                forall|k: int|
                    0 <= k < i ==> #[trigger] sectors@[k]@ == sector_at(b, SECTOR_BYTES * k),
            decreases NUM_SECTORS - i,
        {
            let ghost before = cursor.rest();
            proof {
                lemma_sizes();
            }
            let s = match Sector::read(cursor) {
                Ok(s) => s,
                Err(e) => {
                    assert(before.len() == b.len() - SECTOR_BYTES * i);
                    return Err(e);
                },
            };
            proof {
                lemma_sector_skip(b, SECTOR_BYTES * i, 0);
                assert(cursor.rest() =~= b.skip(SECTOR_BYTES * (i + 1)));
            }
            sectors.push(s);
            i = i + 1;
        }
        let m = Module { sectors };
        assert(m@ =~= module_at(b, 0));
        Ok(m)
    }
}

// ---------------------------------------------------------------------------
// Memory image
// ---------------------------------------------------------------------------

/// The contents of a sequence of modules.
pub open spec fn module_views(ms: Seq<Module>) -> Seq<Seq<Seq<Seq<u16>>>> {
    ms.map_values(|m: Module| m@)
}

/// The contents of a freshly made module.
pub open spec fn blank_module() -> Seq<Seq<Seq<u16>>> {
    Seq::new(NUM_SECTORS as nat, |j: int| blank_sector())
}

/// A whole memory image: eight modules in address order, then the hop
/// register, the accumulator and the pq register.
#[derive(Debug, Clone)]
pub struct MemoryImage {
    modules: Vec<Module>,
    hop_register: u32,
    accumulator: u32,
    pq_register: u32,
}

impl View for MemoryImage {
    type V = Seq<Seq<Seq<Seq<u16>>>>;

    /// The contents of the modules.
    closed spec fn view(&self) -> Seq<Seq<Seq<Seq<u16>>>> {
        module_views(self.modules@)
    }
}

impl MemoryImage {
    /// The hop register, in contracts.
    pub closed spec fn spec_hop_register(&self) -> u32 {
        self.hop_register
    }

    /// The accumulator, in contracts.
    pub closed spec fn spec_accumulator(&self) -> u32 {
        self.accumulator
    }

    /// The pq register, in contracts.
    pub closed spec fn spec_pq_register(&self) -> u32 {
        self.pq_register
    }

    /// An image of unprogrammed modules, with all registers zero.
    pub fn new() -> (img: Self)
        ensures
            img@ == Seq::new(NUM_MODULES as nat, |j: int| blank_module()),
            image_shaped(img@),
            img.hop_register() == 0,
            img.accumulator() == 0,
            img.pq_register() == 0,
    {
        let mut modules: Vec<Module> = Vec::with_capacity(NUM_MODULES);
        let mut i: usize = 0;
        while i < NUM_MODULES
            invariant
                i <= NUM_MODULES,
                modules@.len() == i,
                forall|k: int| 0 <= k < i ==> #[trigger] modules@[k]@ == blank_module(),
            decreases NUM_MODULES - i,
        {
            modules.push(Module::new());
            i = i + 1;
        }
        let img = MemoryImage { modules, hop_register: 0, accumulator: 0, pq_register: 0 };
        assert(img@ =~= Seq::new(NUM_MODULES as nat, |j: int| blank_module()));
        img
    }

    /// The modules, for traversal; what is written through the result becomes
    /// the image's content.
    pub fn modules(&mut self) -> (r: &mut Vec<Module>)
        ensures
            module_views(r@) == old(self)@,
            final(self)@ == module_views(final(r)@),
            final(self).hop_register() == old(self).hop_register(),
            final(self).accumulator() == old(self).accumulator(),
            final(self).pq_register() == old(self).pq_register(),
    {
        &mut self.modules
    }

    /// The hop register.
    #[verifier::when_used_as_spec(spec_hop_register)]
    pub fn hop_register(&self) -> (r: u32)
        ensures
            r == self.spec_hop_register(),
    {
        self.hop_register
    }

    /// The accumulator.
    #[verifier::when_used_as_spec(spec_accumulator)]
    pub fn accumulator(&self) -> (r: u32)
        ensures
            r == self.spec_accumulator(),
    {
        self.accumulator
    }

    /// The pq register.
    #[verifier::when_used_as_spec(spec_pq_register)]
    pub fn pq_register(&self) -> (r: u32)
        ensures
            r == self.spec_pq_register(),
    {
        self.pq_register
    }

    /// Reads a whole image from the start of `bytes`: the eight modules in
    /// order, then the three registers. Fails, returning no part of the
    /// image, exactly when `bytes` is shorter than an image; bytes past the
    /// image are ignored.
    pub fn read(bytes: &[u8]) -> (r: Result<Self, ()>)
        ensures
            r is Ok <==> bytes@.len() >= IMAGE_BYTES,
            r is Ok ==> {
                &&& r->Ok_0@ == modules_of(bytes@)
                &&& image_shaped(r->Ok_0@)
                &&& r->Ok_0.hop_register() == be32(bytes@, REGISTERS_AT as int)
                &&& r->Ok_0.accumulator() == be32(bytes@, REGISTERS_AT + 4)
                &&& r->Ok_0.pq_register() == be32(bytes@, REGISTERS_AT + 8)
            },
    {
        let ghost b = bytes@;
        proof {
            lemma_sizes();
        }
        let mut cursor = ByteCursor::new(bytes);
        let mut modules: Vec<Module> = Vec::with_capacity(NUM_MODULES);
        let mut i: usize = 0;
        while i < NUM_MODULES
            invariant
                b == bytes@,
                i <= NUM_MODULES,
                MODULE_BYTES * i <= b.len(),
                modules@.len() == i,
                cursor.rest() == b.skip(MODULE_BYTES * i),
                forall|k: int|
                    0 <= k < i ==> #[trigger] modules@[k]@ == module_at(b, MODULE_BYTES * k),
            decreases NUM_MODULES - i,
        {
            let ghost before = cursor.rest();
            proof {
                lemma_sizes();
            }
            let m = match Module::read(&mut cursor) {
                Ok(m) => m,
                Err(e) => {
                    assert(before.len() == b.len() - MODULE_BYTES * i);
                    return Err(e);
                },
            };
            proof {
                lemma_module_skip(b, MODULE_BYTES * i, 0);
                assert(cursor.rest() =~= b.skip(MODULE_BYTES * (i + 1)));
            }
            modules.push(m);
            i = i + 1;
        }
        assert(module_views(modules@) =~= modules_of(b));
        let hop_register = read_u32(&mut cursor)?;
        let ghost c1 = cursor.rest();
        let accumulator = read_u32(&mut cursor)?;
        let ghost c2 = cursor.rest();
        let pq_register = read_u32(&mut cursor)?;
        proof {
            let r = REGISTERS_AT as int;
            assert(be32(b.skip(r), 0) == be32(b, r));
            assert(c1 =~= b.skip(r + 4));
            assert(be32(c1, 0) == be32(b, r + 4));
            assert(c2 =~= b.skip(r + 8));
            assert(be32(c2, 0) == be32(b, r + 8));
        }
        Ok(MemoryImage { modules, hop_register, accumulator, pq_register })
    }
}

} // verus!
