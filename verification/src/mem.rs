//! The memory controller: word-addressed RAM behind a direct-mapped,
//! write-back cache of 128 lines of 16 words, and two ports (reading address
//! 0 takes the next input value, writing address 4 emits an output value).
use vstd::prelude::*;

use crate::consts::{IN_PORT, OUT_PORT, CACHE_LINES, CACHE_LINE_WORDS, RAM_WORDS, HIT_CYCLES, MISS_CYCLES, ADDR_INDEX_SHIFT, ADDR_TAG_SHIFT, ADDR_INDEX_MASK, ADDR_LINE_MASK};

verus! {

#[derive(Clone, Copy)]
struct CacheLine {
    tag: u32,
    data: [i32; CACHE_LINE_WORDS],
    valid: bool,
    dirty: bool,
}

pub struct MemController {
    ram: Vec<i32>,
    cache: [CacheLine; CACHE_LINES],
    pub in_stream: Vec<i32>,
    pub out_stream: Vec<i32>,
    wait_cycles: u32,
}

/// A cache line as a mathematical value.
pub struct LineView {
    pub tag: u32,
    pub data: Seq<i32>,
    pub valid: bool,
    pub dirty: bool,
}

/// The state of the memory controller as a mathematical value.
pub struct MemView {
    /// the RAM words
    pub ram: Seq<i32>,
    /// the cache lines, by index
    pub lines: Seq<LineView>,
    /// the input values not read yet
    pub input: Seq<i32>,
    /// the output values written so far
    pub output: Seq<i32>,
    /// the cycles the last access still takes
    pub wait: u32,
}

// ---------------------------------------------------------------------------
// The controller's behaviour over its state
// ---------------------------------------------------------------------------

/// The cache line that a byte address maps to.
pub open spec fn line_index(a: u32) -> int {
    (a as int / 64) % 128
}

/// The tag that a byte address has in its cache line.
pub open spec fn line_tag(a: u32) -> int {
    a as int / 8192
}

/// The word of its cache line that a byte address falls in.
pub open spec fn line_offset(a: u32) -> int {
    (a as int % 64) / 4
}

/// The RAM word of the first word of the line that byte address `a` is in.
pub open spec fn line_base_word(a: u32) -> int {
    (a as int / 64) * 16
}

/// An address that can be read and written: a port or a RAM byte address.
pub open spec fn valid_addr(a: u32) -> bool {
    a == IN_PORT || a == OUT_PORT || (a as int) < RAM_WORDS * 4
}

/// The state invariant: the RAM and the cache have their sizes, and every
/// valid line holds a tag of a RAM address.
pub open spec fn mem_wf(m: MemView) -> bool {
    &&& m.ram.len() == RAM_WORDS
    &&& m.lines.len() == CACHE_LINES
    &&& forall|i: int|
        0 <= i < CACHE_LINES ==> (#[trigger] m.lines[i]).data.len() == CACHE_LINE_WORDS && (
        m.lines[i].valid ==> m.lines[i].tag < 2048)
}

/// Whether byte address `a` is in the cache.
pub open spec fn is_hit(m: MemView, a: u32) -> bool {
    m.lines[line_index(a)].valid && m.lines[line_index(a)].tag as int == line_tag(a)
}

/// `ram` with the 16 words from `base` on replaced by `data`.
pub open spec fn put_words(ram: Seq<i32>, base: int, data: Seq<i32>) -> Seq<i32> {
    Seq::new(
        ram.len(),
        |w: int|
            if base <= w < base + data.len() {
                data[w - base]
            } else {
                ram[w]
            },
    )
}

/// Fetching the line of byte address `a` into line `idx`: a dirty valid
/// line is written back first, then the line is read from RAM, clean, and
/// the access takes the miss time.
pub open spec fn fill(m: MemView, a: u32) -> MemView {
    let idx = line_index(a);
    let old_line = m.lines[idx];
    let ram1 = if old_line.valid && old_line.dirty {
        put_words(m.ram, old_line.tag * 2048 + idx * 16, old_line.data)
    } else {
        m.ram
    };
    let base = line_base_word(a);
    MemView {
        ram: ram1,
        lines: m.lines.update(
            idx,
            LineView {
                tag: line_tag(a) as u32,
                data: ram1.subrange(base, base + 16),
                valid: true,
                dirty: false,
            },
        ),
        wait: (MISS_CYCLES - 1) as u32,
        ..m
    }
}

/// A read of byte address `a`: the new state and the value read.
pub open spec fn mem_read(m: MemView, a: u32) -> (MemView, i32) {
    if a == IN_PORT {
        if m.input.len() == 0 {
            (m, 0)
        } else {
            (MemView { input: m.input.drop_first(), ..m }, m.input[0])
        }
    } else if a == OUT_PORT {
        (m, 0)
    } else if is_hit(m, a) {
        (MemView { wait: (HIT_CYCLES - 1) as u32, ..m }, m.lines[line_index(a)].data[line_offset(a)])
    } else {
        let m2 = fill(m, a);
        (m2, m2.lines[line_index(a)].data[line_offset(a)])
    }
}

/// A write of `v` to byte address `a`.
pub open spec fn mem_write(m: MemView, a: u32, v: i32) -> MemView {
    if a == OUT_PORT {
        MemView { output: m.output.push(v), wait: 0, ..m }
    } else if a == IN_PORT {
        m
    } else {
        let idx = line_index(a);
        let m2 = if is_hit(m, a) {
            MemView { wait: (HIT_CYCLES - 1) as u32, ..m }
        } else {
            fill(m, a)
        };
        let line = m2.lines[idx];
        MemView {
            lines: m2.lines.update(
                idx,
                LineView { data: line.data.update(line_offset(a), v), dirty: true, ..line },
            ),
            ..m2
        }
    }
}

/// One cycle of waiting.
pub open spec fn mem_tick(m: MemView) -> MemView {
    MemView {
        wait: if m.wait > 0 {
            (m.wait - 1) as u32
        } else {
            0
        },
        ..m
    }
}

/// `data` written straight into RAM from byte address `byte_addr` on (the
/// cache is left as it is).
pub open spec fn mem_load(m: MemView, byte_addr: u32, data: Seq<i32>) -> MemView {
    MemView { ram: put_words(m.ram, byte_addr as int / 4, data), ..m }
}

/// What a program sees at word `w`: the cached word where the line is
/// cached, else the RAM word.
pub open spec fn visible_word(m: MemView, w: int) -> i32 {
    let idx = (w / 16) % 128;
    if m.lines[idx].valid && m.lines[idx].tag as int == w / 2048 {
        m.lines[idx].data[w % 16]
    } else {
        m.ram[w]
    }
}

/// Every clean valid line holds what RAM holds.
pub open spec fn coherent(m: MemView) -> bool {
    forall|i: int, k: int|
        #![trigger m.lines[i].data[k]]
        0 <= i < CACHE_LINES && 0 <= k < CACHE_LINE_WORDS && m.lines[i].valid && !m.lines[i].dirty
            ==> m.lines[i].data[k] == m.ram[m.lines[i].tag * 2048 + i * 16 + k]
}

// ---------------------------------------------------------------------------
// Address arithmetic
// ---------------------------------------------------------------------------

proof fn lemma_addr_parts(a: u32)
    ensures
        (a >> 6u32) & 0x7Fu32 == line_index(a),
        a >> 13u32 == line_tag(a),
        (a & 0x3Fu32) >> 2u32 == line_offset(a),
        (a & !0x3Fu32) >> 2u32 == line_base_word(a),
        a >> 2u32 == a as int / 4,
        line_offset(a) < 16,
        0 <= line_index(a) < 128,
{
    assert((a >> 6u32) & 0x7Fu32 == ((a / 64) % 128)) by (bit_vector);
    assert(a >> 13u32 == a / 8192) by (bit_vector);
    assert((a & 0x3Fu32) >> 2u32 == (a % 64) / 4) by (bit_vector);
    assert((a & !0x3Fu32) >> 2u32 == (a / 64) * 16) by (bit_vector);
    assert(a >> 2u32 == a / 4) by (bit_vector);
}

proof fn lemma_evict_base(tag: u32, idx: u32)
    requires
        tag < 2048,
        idx < 128,
    ensures
        ((tag << 13u32) | (idx << 6u32)) >> 2u32 == tag * 2048 + idx * 16,
{
    assert(((tag << 13u32) | (idx << 6u32)) >> 2u32 == tag * 2048 + idx * 16) by (bit_vector)
        requires
            tag < 2048,
            idx < 128,
    ;
}

/// The word of byte address `a`, its line and its offset agree.
proof fn lemma_word_of_addr(a: u32)
    ensures
        line_base_word(a) + line_offset(a) == a as int / 4,
        (a as int / 4) / 16 % 128 == line_index(a),
        (a as int / 4) / 2048 == line_tag(a),
        (a as int / 4) % 16 == line_offset(a),
        line_base_word(a) == line_tag(a) * 2048 + line_index(a) * 16,
{
    assert(((a / 64) * 16 + (a % 64) / 4 == a / 4) && ((a / 4) / 16 % 128 == (a / 64) % 128) && ((
    a / 4) / 2048 == a / 8192) && ((a / 4) % 16 == (a % 64) / 4) && ((a / 64) * 16 == (a / 8192)
        * 2048 + ((a / 64) % 128) * 16)) by (bit_vector);
}


// ---------------------------------------------------------------------------
// Laws of the cache: it is transparent
// ---------------------------------------------------------------------------

/// A RAM word is word `w % 16` of the line with index `(w / 16) % 128` and
/// tag `w / 2048`.
proof fn lemma_word_parts(w: int)
    requires
        0 <= w < RAM_WORDS,
    ensures
        w == (w / 2048) * 2048 + ((w / 16) % 128) * 16 + w % 16,
        0 <= w / 2048 < 2048,
        0 <= (w / 16) % 128 < 128,
        0 <= w % 16 < 16,
{
}

/// Word `k` of the line with index `i` and tag `t`.
proof fn lemma_line_word(t: int, i: int, k: int)
    requires
        0 <= t < 2048,
        0 <= i < 128,
        0 <= k < 16,
    ensures
        (t * 2048 + i * 16 + k) / 16 % 128 == i,
        (t * 2048 + i * 16 + k) / 2048 == t,
        (t * 2048 + i * 16 + k) % 16 == k,
        0 <= t * 2048 + i * 16 + k < RAM_WORDS,
{
}

/// A RAM byte address: neither port, inside RAM.
pub open spec fn ram_addr(a: u32) -> bool {
    a != IN_PORT && a != OUT_PORT && (a as int) < RAM_WORDS * 4
}

/// Fetching a line changes nothing that a program sees, and keeps the cache
/// coherent.
proof fn lemma_fill_transparent(m: MemView, a: u32)
    requires
        mem_wf(m),
        coherent(m),
        (a as int) < RAM_WORDS * 4,
    ensures
        mem_wf(fill(m, a)),
        coherent(fill(m, a)),
        forall|w: int| 0 <= w < RAM_WORDS ==> #[trigger] visible_word(fill(m, a), w) == visible_word(m, w),
        fill(m, a).lines[line_index(a)].valid,
        fill(m, a).lines[line_index(a)].tag == line_tag(a),
        fill(m, a).input == m.input,
        fill(m, a).output == m.output,
{
    lemma_word_of_addr(a);
    let idx = line_index(a);
    let old_line = m.lines[idx];
    let ob = old_line.tag * 2048 + idx * 16;
    let f = fill(m, a);
    let ram1 = f.ram;
    assert(0 <= line_tag(a) < 2048);
    assert(old_line.data.len() == 16);
    // the words that the write-back touches belong to line `idx`
    assert forall|x: int| 0 <= x < RAM_WORDS && (x / 16) % 128 != idx implies #[trigger] ram1[x] == m.ram[x] by {
        if old_line.valid && old_line.dirty && ob <= x < ob + 16 {
            lemma_line_word(old_line.tag as int, idx, x - ob);
        }
    }
    assert forall|w: int| 0 <= w < RAM_WORDS implies #[trigger] visible_word(f, w) == visible_word(m, w) by {
        lemma_word_parts(w);
        let iw = (w / 16) % 128;
        let tw = w / 2048;
        let kw = w % 16;
        if iw == idx {
            assert(line_base_word(a) + kw == line_tag(a) * 2048 + idx * 16 + kw);
            if tw == line_tag(a) {
                assert(w == line_base_word(a) + kw);
            }
            if old_line.valid && old_line.dirty {
                if old_line.tag == tw {
                    assert(ob <= w < ob + 16);
                } else {
                    if ob <= w < ob + 16 {
                        lemma_line_word(old_line.tag as int, idx, w - ob);
                    }
                }
            } else if old_line.valid && old_line.tag == tw {
                assert(m.lines[idx].data[kw] == m.ram[old_line.tag * 2048 + idx * 16 + kw]);
            }
        }
    }
    assert forall|j: int, k: int|
        #![trigger f.lines[j].data[k]]
        0 <= j < CACHE_LINES && 0 <= k < CACHE_LINE_WORDS && f.lines[j].valid && !f.lines[j].dirty
            implies f.lines[j].data[k] == f.ram[f.lines[j].tag * 2048 + j * 16 + k] by {
        if j == idx {
            assert(line_base_word(a) + k == line_tag(a) * 2048 + idx * 16 + k);
        } else {
            let l = m.lines[j];
            assert(l.data[k] == m.ram[l.tag * 2048 + j * 16 + k]);
            lemma_line_word(l.tag as int, j, k);
        }
    }
}

/// A read of a RAM address gives what a program sees at its word, changes
/// nothing that a program sees, and keeps the cache coherent.
pub proof fn lemma_read_transparent(m: MemView, a: u32)
    requires
        mem_wf(m),
        coherent(m),
        ram_addr(a),
    ensures
        mem_read(m, a).1 == visible_word(m, a as int / 4),
        mem_wf(mem_read(m, a).0),
        coherent(mem_read(m, a).0),
        forall|w: int|
            0 <= w < RAM_WORDS ==> #[trigger] visible_word(mem_read(m, a).0, w) == visible_word(m, w),
{
    lemma_word_of_addr(a);
    if !is_hit(m, a) {
        lemma_fill_transparent(m, a);
        let f = fill(m, a);
        assert(f.lines[line_index(a)].data[line_offset(a)] == visible_word(f, a as int / 4));
    }
}

/// A write of `v` to a RAM address changes what a program sees at its
/// word to `v`, and nothing else; the cache stays coherent.
pub proof fn lemma_write_transparent(m: MemView, a: u32, v: i32)
    requires
        mem_wf(m),
        coherent(m),
        ram_addr(a),
    ensures
        mem_wf(mem_write(m, a, v)),
        coherent(mem_write(m, a, v)),
        forall|w: int|
            0 <= w < RAM_WORDS ==> #[trigger] visible_word(mem_write(m, a, v), w) == (if w == a as int
                / 4 {
                v
            } else {
                visible_word(m, w)
            }),
{
    lemma_word_of_addr(a);
    let idx = line_index(a);
    let m2 = if is_hit(m, a) {
        MemView { wait: (HIT_CYCLES - 1) as u32, ..m }
    } else {
        fill(m, a)
    };
    if !is_hit(m, a) {
        lemma_fill_transparent(m, a);
    }
    assert(forall|w: int| 0 <= w < RAM_WORDS ==> #[trigger] visible_word(m2, w) == visible_word(m, w));
    let r = mem_write(m, a, v);
    assert forall|w: int| 0 <= w < RAM_WORDS implies #[trigger] visible_word(r, w) == (if w == a as int
        / 4 {
        v
    } else {
        visible_word(m, w)
    }) by {
        lemma_word_parts(w);
        assert(visible_word(m2, w) == visible_word(m, w));
        if (w / 16) % 128 == idx && w / 2048 == line_tag(a) && w != a as int / 4 {
            assert(w % 16 != line_offset(a));
        }
    }
    assert forall|j: int, k: int|
        #![trigger r.lines[j].data[k]]
        0 <= j < CACHE_LINES && 0 <= k < CACHE_LINE_WORDS && r.lines[j].valid && !r.lines[j].dirty
            implies r.lines[j].data[k] == r.ram[r.lines[j].tag * 2048 + j * 16 + k] by {
        assert(j != idx);
        assert(m2.lines[j].data[k] == m2.ram[m2.lines[j].tag * 2048 + j * 16 + k]);
    }
}

/// What is read from a RAM address is what was last written there.
pub proof fn lemma_read_after_write(m: MemView, a: u32, v: i32)
    requires
        mem_wf(m),
        coherent(m),
        ram_addr(a),
    ensures
        mem_read(mem_write(m, a, v), a).1 == v,
{
    lemma_write_transparent(m, a, v);
    lemma_read_transparent(mem_write(m, a, v), a);
    lemma_word_of_addr(a);
}

/// A memory with no valid line is coherent.
pub proof fn lemma_empty_cache_coherent(m: MemView)
    requires
        forall|i: int| 0 <= i < CACHE_LINES ==> !(#[trigger] m.lines[i]).valid,
    ensures
        coherent(m),
{
}


/// One access to the memory controller.
pub enum Access {
    Read(u32),
    Write(u32, i32),
    Tick,
}

/// The controller after a sequence of accesses, and the values the reads
/// gave, in order.
pub open spec fn run_accesses(m: MemView, acc: Seq<Access>) -> (MemView, Seq<i32>)
    decreases acc.len(),
{
    if acc.len() == 0 {
        (m, Seq::empty())
    } else {
        let (m1, out) = match acc[0] {
            Access::Read(a) => {
                let (m2, v) = mem_read(m, a);
                (m2, seq![v])
            },
            Access::Write(a, v) => (mem_write(m, a, v), Seq::empty()),
            Access::Tick => (mem_tick(m), Seq::empty()),
        };
        let (m3, rest) = run_accesses(m1, acc.subrange(1, acc.len() as int));
        (m3, out + rest)
    }
}

/// What a program sees of RAM: one word per RAM word.
pub open spec fn flat(m: MemView) -> Seq<i32> {
    Seq::new(RAM_WORDS as nat, |w: int| visible_word(m, w))
}

/// The same accesses on a plain array of words: a write sets its word, a
/// read gives its word.
pub open spec fn run_flat(words: Seq<i32>, acc: Seq<Access>) -> (Seq<i32>, Seq<i32>)
    decreases acc.len(),
{
    if acc.len() == 0 {
        (words, Seq::empty())
    } else {
        let (w1, out) = match acc[0] {
            Access::Read(a) => (words, seq![words[a as int / 4]]),
            Access::Write(a, v) => (words.update(a as int / 4, v), Seq::empty()),
            Access::Tick => (words, Seq::empty()),
        };
        let (w2, rest) = run_flat(w1, acc.subrange(1, acc.len() as int));
        (w2, out + rest)
    }
}

/// Every access is a tick or names a RAM address.
pub open spec fn ram_accesses(acc: Seq<Access>) -> bool {
    forall|i: int|
        0 <= i < acc.len() ==> match #[trigger] acc[i] {
            Access::Read(a) => ram_addr(a),
            Access::Write(a, _) => ram_addr(a),
            Access::Tick => true,
        }
}

/// Through any sequence of RAM accesses the cache is invisible: the reads
/// give, and the memory then holds, what a plain array of words would.
pub proof fn lemma_cache_invisible(m: MemView, acc: Seq<Access>)
    requires
        mem_wf(m),
        coherent(m),
        ram_accesses(acc),
    ensures
        mem_wf(run_accesses(m, acc).0),
        coherent(run_accesses(m, acc).0),
        flat(run_accesses(m, acc).0) == run_flat(flat(m), acc).0,
        run_accesses(m, acc).1 == run_flat(flat(m), acc).1,
    decreases acc.len(),
{
    if acc.len() > 0 {
        let tail = acc.subrange(1, acc.len() as int);
        assert(ram_accesses(tail)) by {
            assert forall|i: int| 0 <= i < tail.len() implies match #[trigger] tail[i] {
                Access::Read(a) => ram_addr(a),
                Access::Write(a, _) => ram_addr(a),
                Access::Tick => true,
            } by {
                assert(tail[i] == acc[i + 1]);
            }
        }
        assert(match acc[0] {
            Access::Read(a) => ram_addr(a),
            Access::Write(a, _) => ram_addr(a),
            Access::Tick => true,
        });
        match acc[0] {
            Access::Read(a) => {
                lemma_read_transparent(m, a);
                let m1 = mem_read(m, a).0;
                assert(flat(m1) =~= flat(m));
                lemma_cache_invisible(m1, tail);
            },
            Access::Write(a, v) => {
                lemma_write_transparent(m, a, v);
                let m1 = mem_write(m, a, v);
                assert(flat(m1) =~= flat(m).update(a as int / 4, v));
                lemma_cache_invisible(m1, tail);
            },
            Access::Tick => {
                let m1 = mem_tick(m);
                assert(flat(m1) =~= flat(m));
                lemma_cache_invisible(m1, tail);
            },
        }
    }
}

// ---------------------------------------------------------------------------
// The controller
// ---------------------------------------------------------------------------

impl CacheLine {
    closed spec fn view(self) -> LineView {
        LineView { tag: self.tag, data: self.data@, valid: self.valid, dirty: self.dirty }
    }
}

impl MemController {
    /// The state as a mathematical value.
    pub closed spec fn view(&self) -> MemView {
        MemView {
            ram: self.ram@,
            lines: Seq::new(CACHE_LINES as nat, |i: int| self.cache@[i].view()),
            input: self.in_stream@,
            output: self.out_stream@,
            wait: self.wait_cycles,
        }
    }

    pub closed spec fn wf(&self) -> bool {
        mem_wf(self.view())
    }

    /// Zeroed RAM, an empty cache, no input and no output.
    pub fn new() -> (r: MemController)
        ensures
            r.wf(),
            r.view().ram == Seq::new(RAM_WORDS as nat, |_i: int| 0i32),
            forall|i: int| 0 <= i < CACHE_LINES ==> !(#[trigger] r.view().lines[i]).valid,
            r.view().input == Seq::<i32>::empty(),
            r.view().output == Seq::<i32>::empty(),
            r.view().wait == 0,
    {
        let ram: Vec<i32> = vec![0i32; RAM_WORDS];
        let line = CacheLine { tag: 0, data: [0; CACHE_LINE_WORDS], valid: false, dirty: false };
        let r = MemController {
            ram,
            cache: [line; CACHE_LINES],
            in_stream: Vec::new(),
            out_stream: Vec::new(),
            wait_cycles: 0,
        };
        assert(r.view().ram =~= Seq::new(RAM_WORDS as nat, |_i: int| 0i32));
        r
    }

    fn cache_index(byte_addr: u32) -> (r: usize)
        ensures
            r == line_index(byte_addr),
    {
        proof {
            lemma_addr_parts(byte_addr);
        }
        ((byte_addr >> ADDR_INDEX_SHIFT) & ADDR_INDEX_MASK) as usize
    }

    fn cache_tag(byte_addr: u32) -> (r: u32)
        ensures
            r == line_tag(byte_addr),
    {
        proof {
            lemma_addr_parts(byte_addr);
        }
        byte_addr >> ADDR_TAG_SHIFT
    }

    fn cache_line_base(byte_addr: u32) -> (r: u32)
        ensures
            r >> 2u32 == line_base_word(byte_addr),
    {
        proof {
            lemma_addr_parts(byte_addr);
        }
        byte_addr & !ADDR_LINE_MASK
    }

    /// Reads the word at byte address `addr`.
    pub fn read(&mut self, addr: u32) -> (r: i32)
        requires
            old(self).wf(),
            valid_addr(addr),
        ensures
            final(self).wf(),
            (final(self).view(), r) == mem_read(old(self).view(), addr),
    {
        if addr == IN_PORT {
            if self.in_stream.len() == 0 {
                return 0;
            } else {
                let ghost before = self.view();
                let v = self.in_stream.remove(0);
                assert(self.view().input =~= before.input.drop_first());
                assert(self.view() =~= MemView { input: before.input.drop_first(), ..before });
                return v;
            }
        }
        if addr == OUT_PORT {
            return 0;
        }
        proof {
            lemma_addr_parts(addr);
        }
        let index = Self::cache_index(addr);
        let tag = Self::cache_tag(addr);
        let word_offset = ((addr & ADDR_LINE_MASK) >> 2) as usize;
        if self.cache[index].valid && self.cache[index].tag == tag {
            let ghost before = self.view();
            self.wait_cycles = HIT_CYCLES - 1;
            assert(self.view() =~= MemView { wait: (HIT_CYCLES - 1) as u32, ..before });
            return self.cache[index].data[word_offset];
        }
        self.fill_cache_line(index, tag, addr);
        self.cache[index].data[word_offset]
    }

    /// Writes `value` to byte address `addr`.
    pub fn write(&mut self, addr: u32, value: i32)
        requires
            old(self).wf(),
            valid_addr(addr),
        ensures
            final(self).wf(),
            final(self).view() == mem_write(old(self).view(), addr, value),
    {
        if addr == OUT_PORT {
            let ghost before = self.view();
            self.out_stream.push(value);
            self.wait_cycles = 0;
            assert(self.view() =~= MemView { output: before.output.push(value), wait: 0, ..before });
            return ;
        }
        if addr == IN_PORT {
            return ;
        }
        proof {
            lemma_addr_parts(addr);
        }
        let index = Self::cache_index(addr);
        let tag = Self::cache_tag(addr);
        let word_offset = ((addr & ADDR_LINE_MASK) >> 2) as usize;
        let ghost m0 = self.view();
        if self.cache[index].valid && self.cache[index].tag == tag {
            self.wait_cycles = HIT_CYCLES - 1;
        } else {
            self.fill_cache_line(index, tag, addr);
        }
        let ghost m2 = self.view();
        assert(m2 == (if is_hit(m0, addr) {
            MemView { wait: (HIT_CYCLES - 1) as u32, ..m0 }
        } else {
            fill(m0, addr)
        })) by {
            if is_hit(m0, addr) {
                assert(m2 =~= MemView { wait: (HIT_CYCLES - 1) as u32, ..m0 });
            }
        }
        let mut line = self.cache[index];
        line.data[word_offset] = value;
        line.dirty = true;
        self.cache[index] = line;
        assert(self.view().lines =~= m2.lines.update(
            index as int,
            LineView {
                data: m2.lines[index as int].data.update(word_offset as int, value),
                dirty: true,
                ..m2.lines[index as int]
            },
        ));
        assert(self.view() =~= mem_write(m0, addr, value));
    }

    fn fill_cache_line(&mut self, index: usize, tag: u32, addr: u32)
        requires
            old(self).wf(),
            index == line_index(addr),
            tag == line_tag(addr),
            (addr as int) < RAM_WORDS * 4,
        ensures
            final(self).wf(),
            final(self).view() == fill(old(self).view(), addr),
            final(self).in_stream == old(self).in_stream,
            final(self).out_stream == old(self).out_stream,
    {
        let ghost m0 = self.view();
        proof {
            lemma_word_of_addr(addr);
            assert(m0.lines[index as int] == self.cache@[index as int].view());
        }
        if self.cache[index].valid && self.cache[index].dirty {
            let old_tag = self.cache[index].tag;
            proof {
                lemma_evict_base(old_tag, index as u32);
            }
            let evict_base = (old_tag << ADDR_TAG_SHIFT) | ((index as u32) << ADDR_INDEX_SHIFT);
            let first = (evict_base >> 2) as usize;
            let line_data = self.cache[index].data;
            let ghost target = put_words(m0.ram, first as int, line_data@);
            let mut i: usize = 0;
            while i < CACHE_LINE_WORDS
                invariant
                    i <= CACHE_LINE_WORDS,
                    first + CACHE_LINE_WORDS <= RAM_WORDS,
                    self.ram@.len() == RAM_WORDS,
                    line_data@.len() == CACHE_LINE_WORDS,
                    self.cache == old(self).cache,
                    self.in_stream == old(self).in_stream,
                    self.out_stream == old(self).out_stream,
                    self.wait_cycles == old(self).wait_cycles,
                    forall|w: int|
                        0 <= w < RAM_WORDS ==> #[trigger] self.ram@[w] == (if first <= w < first + i {
                            line_data@[w - first]
                        } else {
                            m0.ram[w]
                        }),
                decreases CACHE_LINE_WORDS - i,
            {
                self.ram.set(first + i, line_data[i]);
                i = i + 1;
            }
            assert(self.ram@ =~= target);
        }
        let ghost ram1 = self.ram@;
        let line_base = Self::cache_line_base(addr);
        let start = (line_base >> 2) as usize;
        let mut data = [0; CACHE_LINE_WORDS];
        let mut i: usize = 0;
        while i < CACHE_LINE_WORDS
            invariant
                i <= CACHE_LINE_WORDS,
                start + CACHE_LINE_WORDS <= RAM_WORDS,
                self.ram@ == ram1,
                ram1.len() == RAM_WORDS,
                forall|k: int| 0 <= k < i ==> #[trigger] data@[k] == ram1[start + k],
            decreases CACHE_LINE_WORDS - i,
        {
            data[i] = self.ram[start + i];
            i = i + 1;
        }
        assert(data@ =~= ram1.subrange(start as int, start + 16));
        self.cache[index] = CacheLine { tag, data, valid: true, dirty: false };
        self.wait_cycles = MISS_CYCLES - 1;
        assert(self.view().lines =~= fill(m0, addr).lines);
        assert(self.view() =~= fill(m0, addr));
    }

    /// One cycle of waiting; whether the pending access is done.
    pub fn tick(&mut self) -> (ready: bool)
        requires
            old(self).wf(),
        ensures
            final(self).wf(),
            final(self).view() == mem_tick(old(self).view()),
            ready == (final(self).view().wait == 0),
    {
        let ghost before = self.view();
        if self.wait_cycles > 0 {
            self.wait_cycles = self.wait_cycles - 1;
        }
        assert(self.view() =~= mem_tick(before));
        self.wait_cycles == 0
    }

    /// Whether no access is pending.
    pub fn is_ready(&self) -> (r: bool)
        ensures
            r == (self.view().wait == 0),
    {
        self.wait_cycles == 0
    }

    /// Writes `data` straight into RAM from byte address `byte_addr` on.
    pub fn load_ram(&mut self, byte_addr: u32, data: &[i32])
        requires
            old(self).wf(),
            byte_addr as int / 4 + data@.len() <= RAM_WORDS,
        ensures
            final(self).wf(),
            final(self).view() == mem_load(old(self).view(), byte_addr, data@),
    {
        let ghost m0 = self.view();
        proof {
            lemma_addr_parts(byte_addr);
        }
        let word_index = (byte_addr >> 2) as usize;
        let mut i: usize = 0;
        while i < data.len()
            invariant
                i <= data@.len(),
                word_index == byte_addr as int / 4,
                word_index + data@.len() <= RAM_WORDS,
                self.ram@.len() == RAM_WORDS,
                self.cache == old(self).cache,
                self.in_stream == old(self).in_stream,
                self.out_stream == old(self).out_stream,
                self.wait_cycles == old(self).wait_cycles,
                forall|w: int|
                    0 <= w < RAM_WORDS ==> #[trigger] self.ram@[w] == (if word_index <= w < word_index
                        + i {
                        data@[w - word_index]
                    } else {
                        m0.ram[w]
                    }),
            decreases data@.len() - i,
        {
            self.ram.set(word_index + i, data[i]);
            i = i + 1;
        }
        assert(self.view().ram =~= mem_load(m0, byte_addr, data@).ram);
        assert(self.view() =~= mem_load(m0, byte_addr, data@));
    }

    /// The values written to the output port so far.
    pub(crate) fn output(&self) -> (r: &[i32])
        ensures
            r@ == self.view().output,
    {
        self.out_stream.as_slice()
    }

    /// Queues a value for the input port.
    pub(crate) fn push_input(&mut self, val: i32)
        ensures
            final(self).wf() == old(self).wf(),
            final(self).view() == (MemView { input: old(self).view().input.push(val), ..old(self).view() }),
    {
        let ghost before = self.view();
        self.in_stream.push(val);
        assert(self.view() =~= MemView { input: before.input.push(val), ..before });
    }

    /// Whether input values are waiting to be read.
    pub(crate) fn input_pending(&self) -> (r: bool)
        ensures
            r == (self.view().input.len() > 0),
    {
        self.in_stream.len() != 0
    }
}

} // verus!
