//! The native runtime: heap objects behind the tagged representation.
//!
//! The heap is a single monotonically growing byte region owned by `Heap`;
//! the allocation cursor is the region's length, and every allocation reads
//! the cursor, writes at that address and advances the cursor by the
//! word-aligned size consumed.  Nothing is ever freed.  A boxed tagged word
//! carries a word-aligned byte address with the tag substituted for the
//! address's low bits.
//!
//! Object layouts: a pair is two consecutive words (car then cdr); a string
//! is its raw byte length as a length word followed by the bytes; a symbol
//! mirrors a string but its name begins one word later, reserving a leading
//! word for future symbol-table metadata; a vector is its element count as a
//! raw word followed by one tagged word per element.
//!
//! A port is either an immediate fixnum naming a standard stream (input 0,
//! output 1, error 2) or a boxed vector whose element at index 1 is a tagged
//! string holding a filesystem path.  No native file handle is stored: each
//! read or write re-resolves the path by name, so concurrent mutation of the
//! file between calls is a hazard the caller accepts.  Opening, reading and
//! writing the files themselves is input/output and lives outside this
//! library; the functions here decode ports and materialize byte buffers as
//! heap strings, and the surrounding program moves the bytes.

use crate::immediate::{
    encode_fixnum, spec_encode, tag, tag_of, FALSE, PAIR, STR, SYM, TRUE, VEC,
};
use vstd::arithmetic::div_mod::{
    lemma_fundamental_div_mod, lemma_mod_multiples_basic, lemma_mod_multiples_vanish,
};
use vstd::prelude::*;
use vstd::string::StringSliceAdditionalSpecFns;

verus! {

/// Capacity bound on the heap region.  Exceeding the machine heap is
/// undefined behaviour in the runtime's contract; this model refuses an
/// allocation past the bound instead through its preconditions.
pub const HEAP_LIMIT: usize = 0x1000_0000;

/// A little-endian word assembled from eight bytes.
pub open spec fn le_word(b: Seq<u8>) -> int
    recommends
        b.len() == 8,
{
    b[0] + b[1] * 0x100 + b[2] * 0x1_0000 + b[3] * 0x100_0000 + b[4] * 0x1_0000_0000 + b[5]
        * 0x100_0000_0000 + b[6] * 0x1_0000_0000_0000 + b[7] * 0x100_0000_0000_0000
}

/// The signed reading of an unsigned 64-bit value.
pub open spec fn to_signed_word(u: int) -> i64
    recommends
        0 <= u < 0x1_0000_0000_0000_0000,
{
    if u < 0x8000_0000_0000_0000 {
        u as i64
    } else {
        (u - 0x1_0000_0000_0000_0000) as i64
    }
}

/// The machine word stored at byte address `a`.
pub open spec fn word_at(mem: Seq<u8>, a: int) -> i64 {
    to_signed_word(le_word(mem.subrange(a, a + 8)))
}

/// A word stays readable when the region only grows past it.
pub proof fn lemma_word_at_prefix(older: Seq<u8>, newer: Seq<u8>, a: int)
    requires
        older.len() <= newer.len(),
        newer.subrange(0, older.len() as int) == older,
        0 <= a,
        a + 8 <= older.len(),
    ensures
        word_at(newer, a) == word_at(older, a),
{
    assert(newer.subrange(a, a + 8) =~= older.subrange(a, a + 8));
}

/// The heap region.  The allocation cursor shared between generated code
/// and the native calls is the region's length: allocations write at the
/// cursor and advance it.
pub struct Heap {
    pub mem: Vec<u8>,
}

/// Whether a tagged word is a readable pair in the region: pair-tagged,
/// with both its words inside the region.
pub open spec fn is_pair(mem: Seq<u8>, v: i64) -> bool {
    &&& tag_of(v) == PAIR as int
    &&& v >= PAIR
    &&& v - PAIR + 16 <= mem.len()
}

/// The car word of a pair value.
pub open spec fn car_spec(mem: Seq<u8>, v: i64) -> i64 {
    word_at(mem, v - PAIR)
}

/// The cdr word of a pair value.
pub open spec fn cdr_spec(mem: Seq<u8>, v: i64) -> i64 {
    word_at(mem, v - PAIR + 8)
}

/// Whether a tagged word is a readable string in the region: string-tagged,
/// with its length word and that many payload bytes inside the region.
pub open spec fn is_str(mem: Seq<u8>, v: i64) -> bool {
    &&& tag_of(v) == STR as int
    &&& v >= STR
    &&& v - STR + 8 <= mem.len()
    &&& 0 <= word_at(mem, v - STR)
    &&& v - STR + 8 + word_at(mem, v - STR) <= mem.len()
}

/// A string's byte length: the raw length word at its address.
pub open spec fn str_len_spec(mem: Seq<u8>, v: i64) -> int {
    word_at(mem, v - STR) as int
}

/// A string's payload bytes, which follow the length word immediately.
pub open spec fn str_bytes(mem: Seq<u8>, v: i64) -> Seq<u8> {
    mem.subrange(v - STR + 8, v - STR + 8 + str_len_spec(mem, v))
}

/// Whether a tagged word is a readable symbol in the region.  The layout
/// mirrors a string's, but the name starts one word later.
pub open spec fn is_sym(mem: Seq<u8>, v: i64) -> bool {
    &&& tag_of(v) == SYM as int
    &&& v >= SYM
    &&& v - SYM + 16 <= mem.len()
    &&& 0 <= word_at(mem, v - SYM)
    &&& v - SYM + 16 + word_at(mem, v - SYM) <= mem.len()
}

/// A symbol's name length: the raw length word at its address.
pub open spec fn sym_len_spec(mem: Seq<u8>, v: i64) -> int {
    word_at(mem, v - SYM) as int
}

/// A symbol's name bytes, one reserved word past the length word.
pub open spec fn sym_bytes(mem: Seq<u8>, v: i64) -> Seq<u8> {
    mem.subrange(v - SYM + 16, v - SYM + 16 + sym_len_spec(mem, v))
}

/// Whether a tagged word is a readable vector in the region: vector-tagged,
/// with its count word and that many element words inside the region.
pub open spec fn is_vec(mem: Seq<u8>, v: i64) -> bool {
    &&& tag_of(v) == VEC as int
    &&& v >= VEC
    &&& v - VEC + 8 <= mem.len()
    &&& 0 <= word_at(mem, v - VEC)
    &&& v - VEC + 8 + 8 * word_at(mem, v - VEC) <= mem.len()
}

/// A vector's element count: the raw count word at its address.
pub open spec fn vec_len_spec(mem: Seq<u8>, v: i64) -> int {
    word_at(mem, v - VEC) as int
}

/// A vector's element at index `i`: one tagged word, contiguous after the
/// count word.
pub open spec fn vec_nth_spec(mem: Seq<u8>, v: i64, i: int) -> i64 {
    word_at(mem, v - VEC + 8 + 8 * i)
}

impl Heap {
    /// The region is word-aligned and within the capacity bound.
    pub open spec fn wf(&self) -> bool {
        &&& self.mem@.len() % 8 == 0
        &&& self.mem@.len() <= HEAP_LIMIT
    }

    /// A fresh, empty heap.
    pub fn new() -> (h: Heap)
        ensures
            h.wf(),
            h.mem@.len() == 0,
    {
        Heap { mem: Vec::new() }
    }

    /// The allocation cursor: the next free byte address.
    pub fn cursor(&self) -> (c: usize)
        ensures
            c == self.mem@.len(),
    {
        self.mem.len()
    }

    /// Read the word at byte address `a`.
    fn read_word(&self, a: usize) -> (w: i64)
        requires
            a + 8 <= self.mem@.len(),
        ensures
            w == word_at(self.mem@, a as int),
    {
        let n = self.mem.len();
        let u: u64 = (self.mem[a] as u64) + (self.mem[a + 1] as u64) * 0x100 + (self.mem[a + 2]
            as u64) * 0x1_0000 + (self.mem[a + 3] as u64) * 0x100_0000 + (self.mem[a + 4] as u64)
            * 0x1_0000_0000 + (self.mem[a + 5] as u64) * 0x100_0000_0000 + (self.mem[a + 6] as u64)
            * 0x1_0000_0000_0000 + (self.mem[a + 7] as u64) * 0x100_0000_0000_0000;
        proof {
            assert(self.mem@.subrange(a as int, a as int + 8) =~= seq![
                self.mem@[a as int],
                self.mem@[a as int + 1],
                self.mem@[a as int + 2],
                self.mem@[a as int + 3],
                self.mem@[a as int + 4],
                self.mem@[a as int + 5],
                self.mem@[a as int + 6],
                self.mem@[a as int + 7],
            ]);
        }
        if u < 0x8000_0000_0000_0000 {
            u as i64
        } else {
            -((0xFFFF_FFFF_FFFF_FFFFu64 - u) as i64) - 1
        }
    }

    /// Append one word at the cursor, advancing it by the word size.
    fn push_word(&mut self, w: i64)
        ensures
            final(self).mem@.len() == old(self).mem@.len() + 8,
            final(self).mem@.subrange(0, old(self).mem@.len() as int) == old(self).mem@,
            word_at(final(self).mem@, old(self).mem@.len() as int) == w,
    {
        let ghost base = self.mem@;
        #[verifier::truncate]
        let u: u64 = w as u64;
        proof {
            assert(w >= 0 ==> (w as u64) as int == w as int) by (bit_vector);
            assert(w < 0 ==> (w as u64) as int == w as int + 0x1_0000_0000_0000_0000)
                by (bit_vector);
        }
        let b0 = (u % 256) as u8;
        let u1 = u / 256;
        let b1 = (u1 % 256) as u8;
        let u2 = u1 / 256;
        let b2 = (u2 % 256) as u8;
        let u3 = u2 / 256;
        let b3 = (u3 % 256) as u8;
        let u4 = u3 / 256;
        let b4 = (u4 % 256) as u8;
        let u5 = u4 / 256;
        let b5 = (u5 % 256) as u8;
        let u6 = u5 / 256;
        let b6 = (u6 % 256) as u8;
        let u7 = u6 / 256;
        let b7 = (u7 % 256) as u8;
        proof {
            lemma_fundamental_div_mod(u as int, 256);
            lemma_fundamental_div_mod(u1 as int, 256);
            lemma_fundamental_div_mod(u2 as int, 256);
            lemma_fundamental_div_mod(u3 as int, 256);
            lemma_fundamental_div_mod(u4 as int, 256);
            lemma_fundamental_div_mod(u5 as int, 256);
            lemma_fundamental_div_mod(u6 as int, 256);
            lemma_fundamental_div_mod(u7 as int, 256);
        }
        self.mem.push(b0);
        self.mem.push(b1);
        self.mem.push(b2);
        self.mem.push(b3);
        self.mem.push(b4);
        self.mem.push(b5);
        self.mem.push(b6);
        self.mem.push(b7);
        proof {
            assert(self.mem@.subrange(0, base.len() as int) =~= base);
            assert(self.mem@.subrange(base.len() as int, base.len() as int + 8) =~= seq![
                b0,
                b1,
                b2,
                b3,
                b4,
                b5,
                b6,
                b7,
            ]);
            assert(le_word(seq![b0, b1, b2, b3, b4, b5, b6, b7]) == u as int);
        }
    }

    /// Construct a pair of `a` and `d` at the cursor, advancing it by two
    /// words, and return the pair-tagged address.  The rest of the region is
    /// unchanged, so earlier objects keep their contents.
    pub fn alloc_pair(&mut self, a: i64, d: i64) -> (r: i64)
        requires
            old(self).wf(),
            old(self).mem@.len() + 16 <= HEAP_LIMIT,
        ensures
            final(self).wf(),
            final(self).mem@.len() == old(self).mem@.len() + 16,
            final(self).mem@.subrange(0, old(self).mem@.len() as int) == old(self).mem@,
            is_pair(final(self).mem@, r),
            r == old(self).mem@.len() + PAIR,
            car_spec(final(self).mem@, r) == a,
            cdr_spec(final(self).mem@, r) == d,
    {
        let addr = self.mem.len();
        let ghost base = self.mem@;
        self.push_word(a);
        let ghost mid = self.mem@;
        self.push_word(d);
        proof {
            assert(self.mem@.subrange(0, base.len() as int) =~= base);
            lemma_word_at_prefix(mid, self.mem@, addr as int);
            lemma_fundamental_div_mod(base.len() as int, 8);
            lemma_mod_multiples_vanish(base.len() as int / 8, PAIR as int, 8);
        }
        (addr as i64) + PAIR
    }

    /// Materialize a byte buffer as a heap string object: write the byte
    /// length as a raw length word at the cursor, copy the bytes immediately
    /// after, pad to the next word boundary, and advance the cursor by the
    /// word-aligned total size consumed.  Returns the cursor's entry value
    /// combined with the string tag.
    pub fn alloc_str(&mut self, data: &Vec<u8>) -> (r: i64)
        requires
            old(self).wf(),
            old(self).mem@.len() + 16 + data@.len() <= HEAP_LIMIT,
        ensures
            final(self).wf(),
            final(self).mem@.subrange(0, old(self).mem@.len() as int) == old(self).mem@,
            final(self).mem@.len() == old(self).mem@.len() + 8 + data@.len() + (8 - data@.len() % 8)
                % 8,
            is_str(final(self).mem@, r),
            r == old(self).mem@.len() + STR,
            str_len_spec(final(self).mem@, r) == data@.len(),
            str_bytes(final(self).mem@, r) == data@,
    {
        let addr = self.mem.len();
        let ghost base = self.mem@;
        self.push_word(data.len() as i64);
        let ghost mid = self.mem@;
        let mut i: usize = 0;
        while i < data.len()
            invariant
                i <= data@.len(),
                mid.len() == addr + 8,
                addr + 16 + data@.len() <= HEAP_LIMIT,
                self.mem@ == mid + data@.subrange(0, i as int),
            decreases data@.len() - i,
        {
            let b = data[i];
            self.mem.push(b);
            proof {
                assert(self.mem@ =~= mid + data@.subrange(0, i as int + 1));
            }
            i = i + 1;
        }
        proof {
            assert(data@.subrange(0, data@.len() as int) =~= data@);
        }
        let pad = (8 - data.len() % 8) % 8;
        let ghost filled = self.mem@;
        let mut j: usize = 0;
        while j < pad
            invariant
                j <= pad,
                pad < 8,
                filled.len() == addr + 8 + data@.len(),
                addr + 16 + data@.len() <= HEAP_LIMIT,
                self.mem@ == filled + Seq::new(j as nat, |k: int| 0u8),
            decreases pad - j,
        {
            self.mem.push(0u8);
            proof {
                assert(self.mem@ =~= filled + Seq::new(j as nat + 1, |k: int| 0u8));
            }
            j = j + 1;
        }
        proof {
            assert(self.mem@.subrange(0, base.len() as int) =~= base);
            assert(self.mem@.subrange(0, mid.len() as int) =~= mid);
            lemma_word_at_prefix(mid, self.mem@, addr as int);
            assert(str_bytes(self.mem@, (addr + STR as usize) as i64) =~= data@);
            lemma_fundamental_div_mod(base.len() as int, 8);
            lemma_mod_multiples_vanish(base.len() as int / 8, STR as int, 8);
            lemma_fundamental_div_mod(data@.len() as int, 8);
            lemma_fundamental_div_mod(self.mem@.len() as int, 8);
            lemma_mod_multiples_basic(
                (base.len() as int + 8 + data@.len() + (8 - data@.len() % 8) % 8) / 8,
                8,
            );
        }
        (addr as i64) + STR
    }

    /// Construct a symbol whose name is the given bytes: the length word,
    /// one reserved metadata word, then the name bytes, padded to a word
    /// boundary.  Returns the symbol-tagged address.
    pub fn alloc_sym(&mut self, name: &Vec<u8>) -> (r: i64)
        requires
            old(self).wf(),
            old(self).mem@.len() + 24 + name@.len() <= HEAP_LIMIT,
        ensures
            final(self).wf(),
            final(self).mem@.subrange(0, old(self).mem@.len() as int) == old(self).mem@,
            is_sym(final(self).mem@, r),
            r == old(self).mem@.len() + SYM,
            sym_len_spec(final(self).mem@, r) == name@.len(),
            sym_bytes(final(self).mem@, r) == name@,
    {
        let addr = self.mem.len();
        let ghost base = self.mem@;
        self.push_word(name.len() as i64);
        let ghost mid0 = self.mem@;
        self.push_word(0);
        let ghost mid = self.mem@;
        let mut i: usize = 0;
        while i < name.len()
            invariant
                i <= name@.len(),
                mid.len() == addr + 16,
                addr + 24 + name@.len() <= HEAP_LIMIT,
                self.mem@ == mid + name@.subrange(0, i as int),
            decreases name@.len() - i,
        {
            let b = name[i];
            self.mem.push(b);
            proof {
                assert(self.mem@ =~= mid + name@.subrange(0, i as int + 1));
            }
            i = i + 1;
        }
        proof {
            assert(name@.subrange(0, name@.len() as int) =~= name@);
        }
        let pad = (8 - name.len() % 8) % 8;
        let ghost filled = self.mem@;
        let mut j: usize = 0;
        while j < pad
            invariant
                j <= pad,
                pad < 8,
                filled.len() == addr + 16 + name@.len(),
                addr + 24 + name@.len() <= HEAP_LIMIT,
                self.mem@ == filled + Seq::new(j as nat, |k: int| 0u8),
            decreases pad - j,
        {
            self.mem.push(0u8);
            proof {
                assert(self.mem@ =~= filled + Seq::new(j as nat + 1, |k: int| 0u8));
            }
            j = j + 1;
        }
        proof {
            assert(self.mem@.subrange(0, base.len() as int) =~= base);
            assert(self.mem@.subrange(0, mid0.len() as int) =~= mid0);
            lemma_word_at_prefix(mid0, self.mem@, addr as int);
            assert(sym_bytes(self.mem@, (addr + SYM as usize) as i64) =~= name@);
            lemma_fundamental_div_mod(base.len() as int, 8);
            lemma_mod_multiples_vanish(base.len() as int / 8, SYM as int, 8);
            lemma_fundamental_div_mod(name@.len() as int, 8);
            lemma_fundamental_div_mod(self.mem@.len() as int, 8);
            lemma_mod_multiples_basic(
                (base.len() as int + 16 + name@.len() + (8 - name@.len() % 8) % 8) / 8,
                8,
            );
        }
        (addr as i64) + SYM
    }

    /// Construct a vector of the given tagged elements: the count word, then
    /// one word per element.  Returns the vector-tagged address.
    pub fn alloc_vec(&mut self, elems: &Vec<i64>) -> (r: i64)
        requires
            old(self).wf(),
            old(self).mem@.len() + 8 + 8 * elems@.len() <= HEAP_LIMIT,
        ensures
            final(self).wf(),
            final(self).mem@.subrange(0, old(self).mem@.len() as int) == old(self).mem@,
            final(self).mem@.len() == old(self).mem@.len() + 8 + 8 * elems@.len(),
            is_vec(final(self).mem@, r),
            r == old(self).mem@.len() + VEC,
            vec_len_spec(final(self).mem@, r) == elems@.len(),
            forall|i: int|
                0 <= i < elems@.len() ==> vec_nth_spec(final(self).mem@, r, i) == elems@[i],
    {
        let addr = self.mem.len();
        let ghost base = self.mem@;
        self.push_word(elems.len() as i64);
        let ghost mid = self.mem@;
        let mut i: usize = 0;
        while i < elems.len()
            invariant
                i <= elems@.len(),
                mid.len() == addr + 8,
                addr + 8 + 8 * elems@.len() <= HEAP_LIMIT,
                self.mem@.len() == mid.len() + 8 * i,
                self.mem@.subrange(0, mid.len() as int) == mid,
                forall|k: int|
                    0 <= k < i ==> word_at(self.mem@, addr + 8 + 8 * k) == elems@[k],
            decreases elems@.len() - i,
        {
            let e = elems[i];
            let ghost before = self.mem@;
            self.push_word(e);
            proof {
                assert(self.mem@.subrange(0, mid.len() as int) =~= mid);
                assert forall|k: int| 0 <= k < i + 1 implies word_at(self.mem@, addr + 8 + 8 * k)
                    == elems@[k] by {
                    if k < i {
                        lemma_word_at_prefix(before, self.mem@, addr + 8 + 8 * k);
                    }
                }
            }
            i = i + 1;
        }
        proof {
            assert(self.mem@.subrange(0, base.len() as int) =~= base);
            lemma_word_at_prefix(mid, self.mem@, addr as int);
            lemma_fundamental_div_mod(base.len() as int, 8);
            lemma_mod_multiples_vanish(base.len() as int / 8, VEC as int, 8);
            lemma_mod_multiples_basic((base.len() as int + 8 + 8 * elems@.len()) / 8, 8);
            lemma_fundamental_div_mod(self.mem@.len() as int, 8);
        }
        (addr as i64) + VEC
    }
}

/// The car of a pair: the word at its untagged address.
pub fn car(h: &Heap, val: i64) -> (r: i64)
    requires
        h.wf(),
        is_pair(h.mem@, val),
    ensures
        r == car_spec(h.mem@, val),
{
    h.read_word((val - PAIR) as usize)
}

/// The cdr of a pair: the word one word past its untagged address.
pub fn cdr(h: &Heap, val: i64) -> (r: i64)
    requires
        h.wf(),
        is_pair(h.mem@, val),
    ensures
        r == cdr_spec(h.mem@, val),
{
    h.read_word((val - PAIR) as usize + 8)
}

/// A string's byte length, re-encoded as a fixnum.
pub fn string_length(h: &Heap, val: i64) -> (r: i64)
    requires
        h.wf(),
        is_str(h.mem@, val),
    ensures
        r == spec_encode(str_len_spec(h.mem@, val)),
{
    let len = h.read_word((val - STR) as usize);
    encode_fixnum(len)
}

/// A string's payload bytes, copied out of the region.
pub fn str_bytes_vec(h: &Heap, val: i64) -> (r: Vec<u8>)
    requires
        h.wf(),
        is_str(h.mem@, val),
    ensures
        r@ == str_bytes(h.mem@, val),
{
    let len = h.read_word((val - STR) as usize);
    let start = (val - STR) as usize + 8;
    let mut r: Vec<u8> = Vec::new();
    let mut i: usize = 0;
    while i < len as usize
        invariant
            h.wf(),
            is_str(h.mem@, val),
            len == str_len_spec(h.mem@, val),
            start == val - STR + 8,
            i <= len,
            r@ == h.mem@.subrange(start as int, start as int + i as int),
        decreases len - i,
    {
        let b = h.mem[start + i];
        r.push(b);
        proof {
            assert(r@ =~= h.mem@.subrange(start as int, start as int + i as int + 1));
        }
        i = i + 1;
    }
    r
}

/// A symbol's name bytes, copied out of the region.
pub fn sym_bytes_vec(h: &Heap, val: i64) -> (r: Vec<u8>)
    requires
        h.wf(),
        is_sym(h.mem@, val),
    ensures
        r@ == sym_bytes(h.mem@, val),
{
    let len = h.read_word((val - SYM) as usize);
    let start = (val - SYM) as usize + 16;
    let mut r: Vec<u8> = Vec::new();
    let mut i: usize = 0;
    while i < len as usize
        invariant
            h.wf(),
            is_sym(h.mem@, val),
            len == sym_len_spec(h.mem@, val),
            start == val - SYM + 16,
            i <= len,
            r@ == h.mem@.subrange(start as int, start as int + i as int),
        decreases len - i,
    {
        let b = h.mem[start + i];
        r.push(b);
        proof {
            assert(r@ =~= h.mem@.subrange(start as int, start as int + i as int + 1));
        }
        i = i + 1;
    }
    r
}

/// A vector's element count as a raw integer.
pub fn vec_len(h: &Heap, val: i64) -> (r: i64)
    requires
        h.wf(),
        is_vec(h.mem@, val),
    ensures
        r == vec_len_spec(h.mem@, val),
{
    h.read_word((val - VEC) as usize)
}

/// A vector's element at index `n`.
pub fn vec_nth(h: &Heap, val: i64, n: i64) -> (r: i64)
    requires
        h.wf(),
        is_vec(h.mem@, val),
        0 <= n < vec_len_spec(h.mem@, val),
    ensures
        r == vec_nth_spec(h.mem@, val, n as int),
{
    h.read_word((val - VEC) as usize + 8 + 8 * (n as usize))
}

/// Symbol identity: the tagged true literal exactly when the two words are
/// bit-identical and carry the symbol tag.  Symbols are compared by address,
/// not content; they are assumed pre-interned elsewhere.
pub fn symbol_eq(a: i64, b: i64) -> (r: i64)
    ensures
        r == (if a == b && tag_of(a) == SYM as int {
            TRUE
        } else {
            FALSE
        }),
{
    if a == b && tag(a) == SYM {
        TRUE
    } else {
        FALSE
    }
}

/// The standard input port: the fixnum-encoded stream identifier 0.
pub fn rt_current_input_port() -> (r: i64)
    ensures
        r == spec_encode(0),
{
    0
}

/// The standard output port: the fixnum-encoded stream identifier 1.
pub fn rt_current_output_port() -> (r: i64)
    ensures
        r == spec_encode(1),
{
    8
}

/// The standard error port: the fixnum-encoded stream identifier 2.
pub fn rt_current_error_port() -> (r: i64)
    ensures
        r == spec_encode(2),
{
    16
}

/// The filesystem path carried by a file-backed port: the payload of the
/// tagged string at index 1 of the port's vector.
pub fn port_path(h: &Heap, port: i64) -> (r: Vec<u8>)
    requires
        h.wf(),
        is_vec(h.mem@, port),
        vec_len_spec(h.mem@, port) >= 2,
        is_str(h.mem@, vec_nth_spec(h.mem@, port, 1)),
    ensures
        r@ == str_bytes(h.mem@, vec_nth_spec(h.mem@, port, 1)),
{
    let s = vec_nth(h, port, 1);
    str_bytes_vec(h, s)
}

/// Compare two byte slices for equality.
fn bytes_eq(a: &[u8], b: &[u8]) -> (r: bool)
    ensures
        r == (a@ == b@),
{
    if a.len() != b.len() {
        return false;
    }
    let mut i: usize = 0;
    while i < a.len()
        invariant
            i <= a@.len(),
            a@.len() == b@.len(),
            forall|j: int| 0 <= j < i ==> a@[j] == b@[j],
        decreases a@.len() - i,
    {
        if a[i] != b[i] {
            return false;
        }
        i = i + 1;
    }
    proof {
        assert(a@ =~= b@);
    }
    true
}

/// Checks whether a function name is defined by the built-in runtime: the
/// names generated code may call as native symbols.
pub fn defined(name: &str) -> (r: bool)
    ensures
        r == (name.spec_bytes() == "exit".spec_bytes() || name.spec_bytes()
            == "rt-current-error-port".spec_bytes() || name.spec_bytes()
            == "rt-current-input-port".spec_bytes() || name.spec_bytes()
            == "rt-current-output-port".spec_bytes() || name.spec_bytes()
            == "rt-open-write".spec_bytes() || name.spec_bytes() == "rt-open-read".spec_bytes()
            || name.spec_bytes() == "rt-read".spec_bytes() || name.spec_bytes()
            == "rt-write".spec_bytes() || name.spec_bytes() == "string-length".spec_bytes()
            || name.spec_bytes() == "symbol=?".spec_bytes() || name.spec_bytes()
            == "type".spec_bytes()),
{
    let b = name.as_bytes();
    bytes_eq(b, "exit".as_bytes()) || bytes_eq(b, "rt-current-error-port".as_bytes()) || bytes_eq(
        b,
        "rt-current-input-port".as_bytes(),
    ) || bytes_eq(b, "rt-current-output-port".as_bytes()) || bytes_eq(b, "rt-open-write".as_bytes())
        || bytes_eq(b, "rt-open-read".as_bytes()) || bytes_eq(b, "rt-read".as_bytes()) || bytes_eq(
        b,
        "rt-write".as_bytes(),
    ) || bytes_eq(b, "string-length".as_bytes()) || bytes_eq(b, "symbol=?".as_bytes()) || bytes_eq(
        b,
        "type".as_bytes(),
    )
}

} // verus!
