//! The memory pools: size classes, free lists whose adjacent blocks are merged,
//! allocation statistics, and the system memory total.
//!
//! Blocks are described by their address and size; the allocator that hands out
//! the memory itself works on these descriptions.
use vstd::prelude::*;
use crate::error::handler::{lines_of, split_lines};
use crate::parser::{all_digits, digits_value, lemma_digits_value_prefix};
use crate::text::{is_ascii_digit, str_to_chars};

verus! {

/// The largest request served from a pool; larger ones go to the system.
pub open spec fn small_limit() -> nat {
    512
}

/// The pool that serves a request of `size` bytes: one pool per 16 bytes up to
/// 512 bytes, none above.
pub open spec fn spec_size_class(size: nat) -> Option<nat> {
    if size <= small_limit() {
        Some(((size - 1) / 16) as nat)
    } else {
        None
    }
}

/// The pool that serves a request of `size` bytes, if any.
pub fn size_class(size: usize) -> (r: Option<usize>)
    requires
        size >= 1,
    ensures
        match spec_size_class(size as nat) {
            Some(k) => r == Some(k as usize) && k < 32,
            None => r is None,
        },
{
    if size <= 512 {
        Some((size - 1) / 16)
    } else {
        None
    }
}

/// A free block: where it starts, how many bytes it spans, and its alignment.
#[derive(Debug, Clone, Copy, PartialEq, Eq, Structural)]
pub struct FreeBlock {
    pub addr: usize,
    pub size: usize,
    pub align: usize,
}

/// The blocks are ordered by address.
pub open spec fn sorted_by_addr(s: Seq<FreeBlock>) -> bool {
    forall|i: int, j: int| 0 <= i < j < s.len() ==> #[trigger] s[i].addr <= #[trigger] s[j].addr
}

/// Every block ends within the address space.
pub open spec fn blocks_fit(s: Seq<FreeBlock>) -> bool {
    forall|i: int| 0 <= i < s.len() ==> #[trigger] s[i].addr + s[i].size <= usize::MAX
}

/// The bytes the blocks span together.
pub open spec fn total_size(s: Seq<FreeBlock>) -> nat
    decreases s.len(),
{
    if s.len() == 0 {
        0
    } else {
        total_size(s.drop_last()) + s.last().size as nat
    }
}

/// The blocks, in order, with each block that starts where the block before it
/// ends merged into that block.
pub open spec fn merge_adjacent(s: Seq<FreeBlock>) -> Seq<FreeBlock>
    decreases s.len(),
{
    if s.len() == 0 {
        Seq::empty()
    } else {
        let m = merge_adjacent(s.drop_last());
        let b = s.last();
        if m.len() > 0 && m.last().addr + m.last().size == b.addr {
            m.drop_last().push(FreeBlock { addr: m.last().addr, size: (m.last().size + b.size) as usize, align: m.last().align })
        } else {
            m.push(b)
        }
    }
}

/// A free list of one size class.
#[derive(Debug)]
pub struct Pool {
    blocks: Vec<FreeBlock>,
    block_size: usize,
}

proof fn lemma_total_insert(s: Seq<FreeBlock>, k: int, b: FreeBlock)
    requires
        0 <= k <= s.len(),
    ensures
        total_size(s.insert(k, b)) == total_size(s) + b.size,
    decreases s.len(),
{
    if k == s.len() {
        assert(s.insert(k, b).drop_last() =~= s);
    } else {
        lemma_total_insert(s.drop_last(), k, b);
        assert(s.insert(k, b).drop_last() =~= s.drop_last().insert(k, b));
        assert(s.insert(k, b).last() == s.last());
    }
}

proof fn lemma_merge_facts(s: Seq<FreeBlock>)
    requires
        blocks_fit(s),
        sorted_by_addr(s),
    ensures
        total_size(merge_adjacent(s)) == total_size(s),
        blocks_fit(merge_adjacent(s)),
        s.len() > 0 ==> merge_adjacent(s).len() > 0 && merge_adjacent(s).last().addr + merge_adjacent(s).last().size
            == s.last().addr + s.last().size || merge_adjacent(s).last() == s.last(),
    decreases s.len(),
{
    if s.len() > 0 {
        let p = s.drop_last();
        assert(blocks_fit(p));
        assert(sorted_by_addr(p));
        lemma_merge_facts(p);
        let m = merge_adjacent(p);
        let b = s.last();
        if m.len() > 0 && m.last().addr + m.last().size == b.addr {
            let nb = FreeBlock { addr: m.last().addr, size: (m.last().size + b.size) as usize, align: m.last().align };
            assert(m.last().size + b.size <= usize::MAX);
            let r = m.drop_last().push(nb);
            assert(r.drop_last() =~= m.drop_last());
            assert(m.drop_last().len() + 1 == m.len());
            assert(total_size(m) == total_size(m.drop_last()) + m.last().size);
            assert forall|i: int| 0 <= i < r.len() implies #[trigger] r[i].addr + r[i].size <= usize::MAX by {
                if i < r.len() - 1 {
                    assert(r[i] == m[i]);
                }
            }
        } else {
            let r = m.push(b);
            assert(r.drop_last() =~= m);
            assert forall|i: int| 0 <= i < r.len() implies #[trigger] r[i].addr + r[i].size <= usize::MAX by {
                if i < r.len() - 1 {
                    assert(r[i] == m[i]);
                }
            }
        }
    }
}

impl Pool {
    /// The free blocks, in order.
    pub closed spec fn spec_blocks(&self) -> Seq<FreeBlock> {
        self.blocks@
    }

    /// The least size of a block the pool allocates.
    pub closed spec fn spec_block_size(&self) -> usize {
        self.block_size
    }

    /// Every free block ends within the address space.
    pub open spec fn wf(&self) -> bool {
        blocks_fit(self.spec_blocks())
    }

    /// An empty pool that allocates blocks of at least 4096 bytes.
    pub fn new() -> (r: Self)
        ensures
            r.wf(),
            r.spec_blocks().len() == 0,
            r.spec_block_size() == 4096,
    {
        Pool { blocks: Vec::new(), block_size: 4096 }
    }

    /// The size of a new block for a request: the request, or the pool's block
    /// size if that is larger.
    pub fn new_block_size(&self, request: usize) -> (r: usize)
        ensures
            r == (if request >= self.spec_block_size() { request } else { self.spec_block_size() }),
    {
        if request >= self.block_size { request } else { self.block_size }
    }

    /// Takes the most recently freed block, if any.
    pub fn take_free(&mut self) -> (r: Option<FreeBlock>)
        requires
            old(self).wf(),
        ensures
            final(self).wf(),
            final(self).spec_block_size() == old(self).spec_block_size(),
            old(self).spec_blocks().len() == 0 ==> r is None && final(self).spec_blocks() == old(self).spec_blocks(),
            old(self).spec_blocks().len() > 0 ==> r == Some(old(self).spec_blocks().last())
                && final(self).spec_blocks() == old(self).spec_blocks().drop_last(),
    {
        let r = self.blocks.pop();
        proof {
            assert forall|i: int| 0 <= i < self.spec_blocks().len() implies #[trigger] self.spec_blocks()[i].addr
                + self.spec_blocks()[i].size <= usize::MAX by {
                assert(self.spec_blocks()[i] == old(self).spec_blocks()[i]);
            }
        }
        r
    }

    /// Returns a block to the pool and merges the free blocks that touch.
    pub fn release(&mut self, block: FreeBlock)
        requires
            old(self).wf(),
            block.addr + block.size <= usize::MAX,
        ensures
            final(self).wf(),
            final(self).spec_block_size() == old(self).spec_block_size(),
            total_size(final(self).spec_blocks()) == total_size(old(self).spec_blocks()) + block.size,
            exists|s: Seq<FreeBlock>|
                sorted_by_addr(s) && #[trigger] s.to_multiset() == old(self).spec_blocks().push(block).to_multiset()
                    && final(self).spec_blocks() == merge_adjacent(s),
    {
        self.blocks.push(block);
        proof {
            assert(total_size(self.spec_blocks()) == total_size(old(self).spec_blocks()) + block.size) by {
                assert(self.spec_blocks().drop_last() =~= old(self).spec_blocks());
            }
            assert forall|i: int| 0 <= i < self.spec_blocks().len() implies #[trigger] self.spec_blocks()[i].addr
                + self.spec_blocks()[i].size <= usize::MAX by {
                if i < old(self).spec_blocks().len() {
                    assert(self.spec_blocks()[i] == old(self).spec_blocks()[i]);
                }
            }
        }
        self.coalesce_blocks();
    }

    /// Orders the free blocks by address and merges each block that starts where
    /// the one before it ends into that one.
    pub fn coalesce_blocks(&mut self)
        requires
            old(self).wf(),
        ensures
            final(self).wf(),
            final(self).spec_block_size() == old(self).spec_block_size(),
            total_size(final(self).spec_blocks()) == total_size(old(self).spec_blocks()),
            exists|s: Seq<FreeBlock>|
                sorted_by_addr(s) && #[trigger] s.to_multiset() == old(self).spec_blocks().to_multiset()
                    && final(self).spec_blocks() == merge_adjacent(s),
    {
        let ghost orig = self.spec_blocks();
        // Insertion sort by address.
        let mut sorted: Vec<FreeBlock> = Vec::new();
        let mut i: usize = 0;
        proof {
            assert(sorted@ =~= orig.subrange(0, 0));
        }
        while i < self.blocks.len()
            invariant
                orig == self.spec_blocks(),
                i <= orig.len(),
                blocks_fit(orig),
                sorted_by_addr(sorted@),
                blocks_fit(sorted@),
                sorted@.to_multiset() == orig.subrange(0, i as int).to_multiset(),
                total_size(sorted@) == total_size(orig.subrange(0, i as int)),
            decreases self.blocks.len() - i,
        {
            let b = self.blocks[i];
            let mut k: usize = 0;
            while k < sorted.len() && sorted[k].addr <= b.addr
                invariant
                    k <= sorted@.len(),
                    forall|j: int| 0 <= j < k ==> #[trigger] sorted@[j].addr <= b.addr,
                decreases sorted.len() - k,
            {
                k = k + 1;
            }
            let ghost before = sorted@;
            proof {
                if k < sorted@.len() {
                    assert(sorted@[k as int].addr > b.addr);
                }
                assert forall|j: int| k <= j < sorted@.len() implies #[trigger] sorted@[j].addr > b.addr by {
                    if k < j {
                        assert(sorted@[k as int].addr <= sorted@[j].addr);
                    }
                }
                lemma_total_insert(before, k as int, b);
                vstd::seq_lib::to_multiset_insert(before, k as int, b);
                assert(orig.subrange(0, i + 1) =~= orig.subrange(0, i as int).push(b));
                vstd::seq_lib::to_multiset_build(orig.subrange(0, i as int), b);
                assert(orig.subrange(0, i + 1).drop_last() =~= orig.subrange(0, i as int));
            }
            sorted.insert(k, b);
            proof {
                let s = sorted@;
                assert(s == before.insert(k as int, b));
                assert forall|x: int, y: int| 0 <= x < y < s.len() implies #[trigger] s[x].addr <= #[trigger] s[y].addr by {
                    if y < k {
                        assert(s[x] == before[x] && s[y] == before[y]);
                    } else if y == k {
                        assert(s[x] == before[x]);
                    } else if x < k {
                        assert(s[x] == before[x] && s[y] == before[y - 1]);
                    } else if x == k {
                        assert(s[y] == before[y - 1]);
                    } else {
                        assert(s[x] == before[x - 1] && s[y] == before[y - 1]);
                    }
                }
                assert forall|x: int| 0 <= x < s.len() implies #[trigger] s[x].addr + s[x].size <= usize::MAX by {
                    if x < k {
                        assert(s[x] == before[x]);
                    } else if x > k {
                        assert(s[x] == before[x - 1]);
                    }
                }
            }
            i = i + 1;
        }
        proof {
            assert(orig.subrange(0, orig.len() as int) =~= orig);
            lemma_merge_facts(sorted@);
        }
        // Merge neighbours.
        let mut merged: Vec<FreeBlock> = Vec::new();
        let mut j: usize = 0;
        while j < sorted.len()
            invariant
                j <= sorted@.len(),
                blocks_fit(sorted@),
                sorted_by_addr(sorted@),
                merged@ == merge_adjacent(sorted@.subrange(0, j as int)),
            decreases sorted.len() - j,
        {
            let b = sorted[j];
            let ghost pre = sorted@.subrange(0, j as int);
            proof {
                assert(sorted@.subrange(0, j + 1).drop_last() =~= pre);
                assert(sorted@.subrange(0, j + 1).last() == b);
                assert(blocks_fit(pre));
                assert(sorted_by_addr(pre));
                lemma_merge_facts(pre);
            }
            let n = merged.len();
            if n > 0 && merged[n - 1].size <= usize::MAX - merged[n - 1].addr && merged[n - 1].addr + merged[n - 1].size
                == b.addr {
                let last = merged.pop().unwrap();
                proof {
                    assert(b.addr + b.size <= usize::MAX);
                }
                merged.push(FreeBlock { addr: last.addr, size: last.size + b.size, align: last.align });
            } else {
                merged.push(b);
            }
            j = j + 1;
        }
        proof {
            assert(sorted@.subrange(0, sorted@.len() as int) =~= sorted@);
            lemma_merge_facts(sorted@);
            assert(sorted_by_addr(sorted@) && sorted@.to_multiset() == orig.to_multiset()
                && merged@ == merge_adjacent(sorted@));
        }
        self.blocks = merged;
    }
}

/// The sum of two word-sized counts, taken around the word size.
pub open spec fn wrapped_sum(a: int, b: int) -> int {
    if a + b > usize::MAX {
        a + b - (usize::MAX + 1)
    } else {
        a + b
    }
}

/// How many allocations were made and of how many bytes in all, counting around
/// the word size as atomic counters do, and the sizes of the pools.
#[derive(Debug)]
pub struct MemoryStats {
    pub allocations: usize,
    pub total_bytes: usize,
    pub pool_sizes: Vec<usize>,
}

impl MemoryStats {
    /// No allocation and no pool.
    pub fn new() -> (r: Self)
        ensures
            r.allocations == 0,
            r.total_bytes == 0,
            r.pool_sizes@.len() == 0,
    {
        MemoryStats { allocations: 0, total_bytes: 0, pool_sizes: Vec::new() }
    }

    /// Records a pool of blocks of the given size.
    pub fn register_pool(&mut self, size: usize)
        ensures
            final(self).pool_sizes@ == old(self).pool_sizes@.push(size),
            final(self).allocations == old(self).allocations,
            final(self).total_bytes == old(self).total_bytes,
    {
        self.pool_sizes.push(size);
    }

    /// Records an allocation of `size` bytes.
    pub fn track_allocation(&mut self, size: usize)
        ensures
            final(self).allocations == wrapped_sum(old(self).allocations as int, 1),
            final(self).total_bytes == wrapped_sum(old(self).total_bytes as int, size as int),
            final(self).pool_sizes@ == old(self).pool_sizes@,
    {
        self.allocations = self.allocations.wrapping_add(1);
        self.total_bytes = self.total_bytes.wrapping_add(size);
    }
}

/// The memory manager; its state is the pools of the allocator.
#[derive(Debug)]
pub struct MemoryManager;

impl MemoryManager {
    /// The memory manager.
    pub fn new() -> (r: Self) {
        MemoryManager
    }
}

/// Whitespace as `split_whitespace` sees it in ASCII text.
pub open spec fn is_blank(c: char) -> bool {
    c == ' ' || c == '\t' || c == '\n' || c == '\r' || c == '\x0b' || c == '\x0c'
}

/// Whether `l` begins with `p`.
pub open spec fn starts_with(l: Seq<char>, p: Seq<char>) -> bool {
    p.len() <= l.len() && l.subrange(0, p.len() as int) == p
}

/// The first of the lines from `i` on that begins with `p`.
pub open spec fn first_with_prefix(ls: Seq<Seq<char>>, p: Seq<char>, i: nat) -> Option<Seq<char>>
    decreases ls.len() - i,
{
    if i >= ls.len() {
        None
    } else if starts_with(ls[i as int], p) {
        Some(ls[i as int])
    } else {
        first_with_prefix(ls, p, i + 1)
    }
}

/// The first index at or after `i` that holds no whitespace, or the length.
pub open spec fn skip_blank(l: Seq<char>, i: nat) -> nat
    decreases l.len() - i,
{
    if i >= l.len() {
        l.len()
    } else if is_blank(l[i as int]) {
        skip_blank(l, i + 1)
    } else {
        i
    }
}

/// The first index at or after `i` that holds whitespace, or the length.
pub open spec fn word_end(l: Seq<char>, i: nat) -> nat
    decreases l.len() - i,
{
    if i >= l.len() {
        l.len()
    } else if is_blank(l[i as int]) {
        i
    } else {
        word_end(l, i + 1)
    }
}

/// The second whitespace-separated word of a line, if it has two.
pub open spec fn second_word(l: Seq<char>) -> Option<Seq<char>> {
    let b = word_end(l, skip_blank(l, 0));
    let c = skip_blank(l, b);
    if c < l.len() {
        Some(l.subrange(c as int, word_end(l, c) as int))
    } else {
        None
    }
}

/// A word without the `+` it may begin with.
pub open spec fn unsigned_digits(w: Seq<char>) -> Seq<char> {
    if w.len() > 0 && w[0] == '+' {
        w.drop_first()
    } else {
        w
    }
}

/// An unsigned word-sized number as `str::parse` reads it: an optional `+`,
/// then one digit or more, with a value that fits in a word.
pub open spec fn parse_unsigned(w: Seq<char>) -> Option<nat> {
    let d = unsigned_digits(w);
    if d.len() > 0 && all_digits(d) && digits_value(d) <= usize::MAX {
        Some(digits_value(d))
    } else {
        None
    }
}

/// The label of the line that gives the memory total.
pub open spec fn mem_total_label() -> Seq<char> {
    seq!['M', 'e', 'm', 'T', 'o', 't', 'a', 'l', ':']
}

/// The memory total in kilobytes that a `/proc/meminfo` text gives: the second
/// word of its first line that begins with `MemTotal:`, read as a number.
pub open spec fn meminfo_kb(contents: Seq<char>) -> Option<nat> {
    match first_with_prefix(lines_of(contents), mem_total_label(), 0) {
        None => None,
        Some(l) => match second_word(l) {
            None => None,
            Some(w) => parse_unsigned(w),
        },
    }
}

pub(crate) proof fn lemma_skip_blank(l: Seq<char>, i: nat)
    ensures
        i <= l.len() ==> i <= skip_blank(l, i) <= l.len(),
        skip_blank(l, i) < l.len() ==> !is_blank(l[skip_blank(l, i) as int]),
    decreases l.len() - i,
{
    if i < l.len() && is_blank(l[i as int]) {
        lemma_skip_blank(l, i + 1);
    }
}

pub(crate) proof fn lemma_word_end(l: Seq<char>, i: nat)
    ensures
        i <= l.len() ==> i <= word_end(l, i) <= l.len(),
    decreases l.len() - i,
{
    if i < l.len() && !is_blank(l[i as int]) {
        lemma_word_end(l, i + 1);
    }
}

pub(crate) fn blank(c: char) -> (r: bool)
    ensures
        r == is_blank(c),
{
    c == ' ' || c == '\t' || c == '\n' || c == '\r' || c == '\x0b' || c == '\x0c'
}

pub(crate) fn skip_blank_from(l: &Vec<char>, i: usize) -> (r: usize)
    requires
        i <= l@.len(),
    ensures
        r == skip_blank(l@, i as nat),
{
    let mut k = i;
    while k < l.len() && blank(l[k])
        invariant
            i <= k <= l@.len(),
            skip_blank(l@, k as nat) == skip_blank(l@, i as nat),
        decreases l.len() - k,
    {
        k = k + 1;
    }
    k
}

pub(crate) fn word_end_from(l: &Vec<char>, i: usize) -> (r: usize)
    requires
        i <= l@.len(),
    ensures
        r == word_end(l@, i as nat),
{
    let mut k = i;
    while k < l.len() && !blank(l[k])
        invariant
            i <= k <= l@.len(),
            word_end(l@, k as nat) == word_end(l@, i as nat),
        decreases l.len() - k,
    {
        k = k + 1;
    }
    k
}

fn has_prefix(l: &Vec<char>, p: &Vec<char>) -> (r: bool)
    ensures
        r == starts_with(l@, p@),
{
    if p.len() > l.len() {
        return false;
    }
    let mut k: usize = 0;
    while k < p.len()
        invariant
            p@.len() <= l@.len(),
            k <= p@.len(),
            forall|j: int| 0 <= j < k ==> l@[j] == p@[j],
        decreases p.len() - k,
    {
        if l[k] != p[k] {
            proof {
                assert(l@.subrange(0, p@.len() as int)[k as int] != p@[k as int]);
            }
            return false;
        }
        k = k + 1;
    }
    proof {
        assert(l@.subrange(0, p@.len() as int) =~= p@);
    }
    true
}

fn parse_unsigned_chars(w: &Vec<char>, start: usize, end: usize) -> (r: Option<usize>)
    requires
        start <= end <= w@.len(),
    ensures
        match parse_unsigned(w@.subrange(start as int, end as int)) {
            Some(v) => r == Some(v as usize),
            None => r is None,
        },
{
    let ghost word = w@.subrange(start as int, end as int);
    let mut i = start;
    if i < end && w[i] == '+' {
        i = i + 1;
    }
    let ghost d = w@.subrange(i as int, end as int);
    proof {
        if word.len() > 0 && word[0] == '+' {
            assert(word.drop_first() =~= d);
        } else {
            assert(word =~= d);
        }
    }
    assert(unsigned_digits(word) == d);
    if i == end {
        assert(d.len() == 0);
        return None;
    }
    let mut k = i;
    while k < end
        invariant
            start <= i <= k <= end <= w@.len(),
            d == w@.subrange(i as int, end as int),
            unsigned_digits(w@.subrange(start as int, end as int)) == d,
            forall|j: int| i <= j < k ==> is_ascii_digit(#[trigger] w@[j]),
        decreases end - k,
    {
        if !('0' <= w[k] && w[k] <= '9') {
            proof {
                assert(!is_ascii_digit(d[k - i]));
            }
            return None;
        }
        k = k + 1;
    }
    proof {
        assert forall|j: int| 0 <= j < d.len() implies is_ascii_digit(#[trigger] d[j]) by {
            assert(d[j] == w@[i + j]);
        }
    }
    let mut value: usize = 0;
    let mut k = i;
    while k < end
        invariant
            start <= i <= k <= end <= w@.len(),
            d == w@.subrange(i as int, end as int),
            unsigned_digits(w@.subrange(start as int, end as int)) == d,
            all_digits(d),
            value == digits_value(d.subrange(0, k - i)),
        decreases end - k,
    {
        let c = w[k];
        proof {
            assert(d.subrange(0, k - i + 1).drop_last() =~= d.subrange(0, k - i));
            assert(d[k - i] == c);
            assert(is_ascii_digit(d[k - i]));
        }
        let digit = (c as u32 - '0' as u32) as usize;
        proof {
            assert(digits_value(d.subrange(0, k - i + 1)) == value * 10 + digit);
        }
        match value.checked_mul(10) {
            None => {
                proof {
                    lemma_digits_value_prefix(d, k - i + 1);
                }
                return None;
            },
            Some(v) => match v.checked_add(digit) {
                None => {
                    proof {
                        lemma_digits_value_prefix(d, k - i + 1);
                    }
                    return None;
                },
                Some(v2) => {
                    value = v2;
                },
            },
        }
        k = k + 1;
    }
    proof {
        assert(d.subrange(0, d.len() as int) =~= d);
    }
    Some(value)
}

/// The memory total in bytes that a `/proc/meminfo` text gives, if it gives one.
pub fn parse_meminfo(contents: &str) -> (r: Option<usize>)
    requires
        meminfo_kb(contents@) matches Some(kb) ==> kb * 1024 <= usize::MAX,
    ensures
        match meminfo_kb(contents@) {
            Some(kb) => r == Some((kb * 1024) as usize),
            None => r is None,
        },
{
    let lines = split_lines(contents);
    let label = str_to_chars("MemTotal:");
    proof {
        reveal_strlit("MemTotal:");
        assert(label@ =~= mem_total_label());
    }
    let ghost ls = lines_of(contents@);
    let mut i: usize = 0;
    while i < lines.len()
        invariant
            lines@.len() == ls.len(),
            forall|k: int| 0 <= k < lines@.len() ==> #[trigger] lines@[k]@ == ls[k],
            label@ == mem_total_label(),
            ls == lines_of(contents@),
            meminfo_kb(contents@) matches Some(kb) ==> kb * 1024 <= usize::MAX,
            i <= ls.len(),
            first_with_prefix(ls, mem_total_label(), i as nat) == first_with_prefix(ls, mem_total_label(), 0),
        decreases lines.len() - i,
    {
        let l = str_to_chars(lines[i].as_str());
        proof {
            assert(l@ == ls[i as int]);
        }
        if has_prefix(&l, &label) {
            assert(first_with_prefix(ls, mem_total_label(), 0) == Some(l@));
            let a = skip_blank_from(&l, 0);
            proof {
                lemma_skip_blank(l@, 0);
            }
            let b = word_end_from(&l, a);
            proof {
                lemma_word_end(l@, a as nat);
            }
            let c = skip_blank_from(&l, b);
            proof {
                lemma_skip_blank(l@, b as nat);
            }
            if c >= l.len() {
                return None;
            }
            let e = word_end_from(&l, c);
            proof {
                lemma_word_end(l@, c as nat);
            }
            return match parse_unsigned_chars(&l, c, e) {
                Some(kb) => Some(kb * 1024),
                None => None,
            };
        }
        i = i + 1;
    }
    None
}

/// What serves an allocation: a free block of a pool, a new block for a pool
/// of the given size and alignment, or the system allocator for a request too
/// large for any pool.
#[derive(Debug, Clone, Copy, PartialEq, Eq, Structural)]
pub enum Allocation {
    Reused(FreeBlock),
    NewBlock { size: usize, align: usize },
    System { size: usize, align: usize },
}

/// The allocator: thirty-two pools, one per 16 bytes of request up to 512, and
/// the system allocator above that.
#[derive(Debug)]
pub struct PoolAllocator {
    small_pools: Vec<Pool>,
}

impl PoolAllocator {
    /// The free blocks of each pool.
    pub closed spec fn spec_pools(&self) -> Seq<Seq<FreeBlock>> {
        self.small_pools@.map_values(|p: Pool| p.spec_blocks())
    }

    /// The pools are thirty-two, each well formed with blocks of at least 4096
    /// bytes.
    pub closed spec fn wf(&self) -> bool {
        &&& self.small_pools@.len() == 32
        &&& forall|i: int| 0 <= i < 32 ==> (#[trigger] self.small_pools@[i]).wf()
        &&& forall|i: int| 0 <= i < 32 ==> (#[trigger] self.small_pools@[i]).spec_block_size() == 4096
    }

    /// Thirty-two empty pools.
    pub fn new() -> (r: Self)
        ensures
            r.wf(),
            r.spec_pools().len() == 32,
            forall|i: int| 0 <= i < 32 ==> (#[trigger] r.spec_pools()[i]).len() == 0,
    {
        let mut pools: Vec<Pool> = Vec::new();
        let mut i: usize = 0;
        while i < 32
            invariant
                i <= 32,
                pools@.len() == i,
                forall|k: int| 0 <= k < i ==> (#[trigger] pools@[k]).wf() && pools@[k].spec_blocks().len() == 0
                    && pools@[k].spec_block_size() == 4096,
            decreases 32 - i,
        {
            pools.push(Pool::new());
            i = i + 1;
        }
        PoolAllocator { small_pools: pools }
    }

    /// Serves a request of `size` bytes (at least one) aligned to `align`: a
    /// request of at most 512 bytes goes to its pool, which hands out its most
    /// recently freed block, or else asks for a new block of the request's size
    /// or 4096 bytes, whichever is larger; a larger request goes to the system.
    pub fn allocate(&mut self, size: usize, align: usize) -> (r: Allocation)
        requires
            old(self).wf(),
            size >= 1,
        ensures
            final(self).wf(),
            match spec_size_class(size as nat) {
                None => r == Allocation::System { size, align } && final(self).spec_pools() == old(self).spec_pools(),
                Some(k) => {
                    let blocks = old(self).spec_pools()[k as int];
                    if blocks.len() > 0 {
                        r == Allocation::Reused(blocks.last()) && final(self).spec_pools() == old(self).spec_pools().update(
                            k as int,
                            blocks.drop_last(),
                        )
                    } else {
                        r == Allocation::NewBlock { size: if size >= 4096 { size } else { 4096 }, align }
                            && final(self).spec_pools() == old(self).spec_pools()
                    }
                },
            },
    {
        match size_class(size) {
            None => Allocation::System { size, align },
            Some(k) => {
                let mut pool = self.small_pools.remove(k);
                let r = match pool.take_free() {
                    Some(b) => Allocation::Reused(b),
                    None => Allocation::NewBlock { size: pool.new_block_size(size), align },
                };
                let ghost before = self.small_pools@;
                self.small_pools.insert(k, pool);
                proof {
                    assert(self.spec_pools() =~= old(self).spec_pools().update(k as int, pool.spec_blocks()));
                    assert forall|i: int| 0 <= i < 32 implies (#[trigger] self.small_pools@[i]).wf()
                        && self.small_pools@[i].spec_block_size() == 4096 by {
                        if i != k {
                            assert(self.small_pools@[i] == old(self).small_pools@[i]);
                        }
                    }
                    if old(self).spec_pools()[k as int].len() == 0 {
                        assert(self.spec_pools() =~= old(self).spec_pools());
                    }
                }
                r
            },
        }
    }

    /// Takes back a block that served a request of `size` bytes (at least
    /// one): a pool's block goes back to that pool, whose free blocks are then
    /// merged where they touch; a larger one goes back to the system, which is
    /// reported by `false`.
    pub fn deallocate(&mut self, block: FreeBlock, size: usize) -> (r: bool)
        requires
            old(self).wf(),
            size >= 1,
            block.addr + block.size <= usize::MAX,
        ensures
            final(self).wf(),
            match spec_size_class(size as nat) {
                None => !r && final(self).spec_pools() == old(self).spec_pools(),
                Some(k) => {
                    &&& r
                    &&& final(self).spec_pools().len() == 32
                    &&& forall|i: int| 0 <= i < 32 && i != k ==> #[trigger] final(self).spec_pools()[i] == old(self).spec_pools()[i]
                    &&& total_size(final(self).spec_pools()[k as int]) == total_size(old(self).spec_pools()[k as int]) + block.size
                    &&& exists|s: Seq<FreeBlock>|
                        sorted_by_addr(s) && #[trigger] s.to_multiset() == old(self).spec_pools()[k as int].push(block).to_multiset()
                            && final(self).spec_pools()[k as int] == merge_adjacent(s)
                },
            },
    {
        match size_class(size) {
            None => false,
            Some(k) => {
                let mut pool = self.small_pools.remove(k);
                proof {
                    assert(pool == old(self).small_pools@[k as int]);
                }
                pool.release(block);
                self.small_pools.insert(k, pool);
                proof {
                    assert forall|i: int| 0 <= i < 32 implies (#[trigger] self.small_pools@[i]).wf()
                        && self.small_pools@[i].spec_block_size() == 4096 by {
                        if i != k {
                            assert(self.small_pools@[i] == old(self).small_pools@[i]);
                        }
                    }
                    assert forall|i: int| 0 <= i < 32 && i != k implies #[trigger] self.spec_pools()[i] == old(self).spec_pools()[i] by {
                        assert(self.small_pools@[i] == old(self).small_pools@[i]);
                    }
                    assert(self.spec_pools()[k as int] == pool.spec_blocks());
                }
                true
            },
        }
    }
}


/// After merging, no block ends where the next one starts: every pair of
/// neighbours that touched was merged into one.
pub proof fn law_merged_blocks_do_not_touch(s: Seq<FreeBlock>)
    ensures
        forall|k: int|
            0 <= k < merge_adjacent(s).len() - 1 ==> #[trigger] merge_adjacent(s)[k].addr + merge_adjacent(s)[k].size
                != merge_adjacent(s)[k + 1].addr,
    decreases s.len(),
{
    if s.len() > 0 {
        let p = s.drop_last();
        law_merged_blocks_do_not_touch(p);
        let m = merge_adjacent(p);
        let b = s.last();
        let r = merge_adjacent(s);
        if m.len() > 0 && m.last().addr + m.last().size == b.addr {
            assert forall|k: int| 0 <= k < r.len() - 1 implies #[trigger] r[k].addr + r[k].size != r[k + 1].addr by {
                assert(r[k] == m[k]);
                assert(r[k + 1].addr == m[k + 1].addr);
            }
        } else {
            assert forall|k: int| 0 <= k < r.len() - 1 implies #[trigger] r[k].addr + r[k].size != r[k + 1].addr by {
                assert(r[k] == m[k]);
                if k + 1 < m.len() {
                    assert(r[k + 1] == m[k + 1]);
                }
            }
        }
    }
}


/// A block freed into an empty free list is the one handed out next: ordering
/// a single block leaves it alone, and merging leaves it whole.
pub proof fn law_freed_block_comes_back(s: Seq<FreeBlock>, b: FreeBlock)
    requires
        s.to_multiset() == seq![b].to_multiset(),
    ensures
        merge_adjacent(s) == seq![b],
        merge_adjacent(s).last() == b,
{
    let one = seq![b];
    s.to_multiset_ensures();
    one.to_multiset_ensures();
    assert(one.contains(b)) by {
        assert(one[0] == b);
    }
    assert(s.len() == 1);
    assert(one.to_multiset().count(b) > 0);
    assert(s.to_multiset().count(b) > 0);
    assert(s.contains(b));
    assert(s[0] == b);
    assert(s.drop_last() =~= Seq::<FreeBlock>::empty());
    assert(merge_adjacent(s.drop_last()) =~= Seq::<FreeBlock>::empty());
    assert(merge_adjacent(s) =~= seq![b]);
}

} // verus!
