//! `MarkdownProcessor`, the streaming core: normalize, split into blocks,
//! heal the trailing block, and parse every block through a
//! least-recently-used cache of syntax trees.
use vstd::prelude::*;
use crate::ast::{Ast, BlockV};
use crate::blocks::{blocks_spec, parse_markdown_into_blocks};
use crate::parse::{build_spec, cmark_events, parse_block, CMARK_OPTIONS};
use crate::preprocess::{normalize, normalize_spec, preprocess, preprocess_spec, PreprocessOptions};

verus! {

/// How a document is split.
#[derive(Debug, Clone, Copy, PartialEq, Eq, Structural)]
pub enum Mode {
    /// Whole document treated as a single block; no preprocess.
    Static,
    /// Block-split + preprocess on the trailing block (default).
    Streaming,
}

/// The syntax tree of a block text, as `parse_block` builds it.
pub open spec fn parse_spec(text: Seq<char>) -> Seq<BlockV> {
    build_spec(cmark_events(text, CMARK_OPTIONS))
}

/// One processed block: the (preprocessed) source text and its syntax tree.
#[derive(Debug)]
pub struct BlockResult {
    /// Preprocessed content actually parsed (== the block's source except for the last block).
    pub content: String,
    /// Parsed tree (None for empty content).
    pub ast: Option<Ast>,
    /// True when the preprocess step modified the content (streaming tail).
    pub loading: bool,
}

impl Clone for BlockResult {
    fn clone(&self) -> (r: Self)
        ensures
            r.content@ == self.content@,
            r.loading == self.loading,
            r.ast is Some <==> self.ast is Some,
            r.ast is Some ==> r.ast->0@ == self.ast->0@,
    {
        let ast = match &self.ast {
            Some(a) => Some(a.clone()),
            None => None,
        };
        BlockResult { content: self.content.clone(), ast, loading: self.loading }
    }
}

/// Snapshot handed to display adapters.
#[derive(Debug)]
pub struct Document {
    pub blocks: Vec<BlockResult>,
}

impl Clone for Document {
    fn clone(&self) -> (r: Self)
        ensures
            r.blocks@.len() == self.blocks@.len(),
            forall|k: int|
                0 <= k < self.blocks@.len() ==> {
                    let a = #[trigger] r.blocks@[k];
                    let b = self.blocks@[k];
                    &&& a.content@ == b.content@
                    &&& a.loading == b.loading
                    &&& (a.ast is Some <==> b.ast is Some)
                    &&& (a.ast is Some ==> a.ast->0@ == b.ast->0@)
                },
    {
        let mut blocks: Vec<BlockResult> = Vec::new();
        let mut k: usize = 0;
        while k < self.blocks.len()
            invariant
                k <= self.blocks@.len(),
                blocks@.len() == k,
                forall|m: int|
                    0 <= m < k ==> {
                        let a = #[trigger] blocks@[m];
                        let b = self.blocks@[m];
                        &&& a.content@ == b.content@
                        &&& a.loading == b.loading
                        &&& (a.ast is Some <==> b.ast is Some)
                        &&& (a.ast is Some ==> a.ast->0@ == b.ast->0@)
                    },
            decreases self.blocks@.len() - k,
        {
            blocks.push(self.blocks[k].clone());
            k += 1;
        }
        Document { blocks }
    }
}

impl Default for Document {
    fn default() -> (r: Self)
        ensures
            r.blocks@.len() == 0,
    {
        Document { blocks: Vec::new() }
    }
}

impl Document {
    pub fn is_empty(&self) -> (b: bool)
        ensures
            b == (self.blocks@.len() == 0),
    {
        self.blocks.len() == 0
    }

    pub fn len(&self) -> (n: usize)
        ensures
            n == self.blocks@.len(),
    {
        self.blocks.len()
    }
}

/// Options of a processor.
#[derive(Debug, Clone, Copy)]
pub struct ProcessorOptions {
    pub preprocess: PreprocessOptions,
}

impl Default for ProcessorOptions {
    fn default() -> (r: Self)
        ensures
            !r.preprocess.single_dollar_text_math,
    {
        ProcessorOptions { preprocess: PreprocessOptions::default() }
    }
}

/// Cache effectiveness counters, exposed for benchmarks and status bars.
#[derive(Debug, Clone, Copy, PartialEq, Eq, Structural)]
pub struct CacheStats {
    /// Block parses satisfied from the cache.
    pub cache_hits: u64,
    /// Block parses that actually ran the markdown parser.
    pub fresh_parses: u64,
}

impl Default for CacheStats {
    fn default() -> (r: Self)
        ensures
            r.cache_hits == 0,
            r.fresh_parses == 0,
    {
        CacheStats { cache_hits: 0, fresh_parses: 0 }
    }
}

impl CacheStats {
    pub fn hits(&self) -> (n: u64)
        ensures
            n == self.cache_hits,
    {
        self.cache_hits
    }

    /// All block parses, from the cache or not.
    pub fn parses(&self) -> (n: u64)
        requires
            self.cache_hits + self.fresh_parses <= u64::MAX,
        ensures
            n == self.cache_hits + self.fresh_parses,
    {
        self.cache_hits + self.fresh_parses
    }
}

// ---------------------------------------------------------------------------
// the cache
// ---------------------------------------------------------------------------

/// Least-recently-used cache of parsed blocks, least recently used first.
struct AstCache {
    entries: Vec<(String, Ast)>,
    cap: usize,
}

impl AstCache {
    spec fn keys(&self) -> Seq<Seq<char>> {
        self.entries@.map_values(|e: (String, Ast)| e.0@)
    }

    spec fn wf(&self) -> bool {
        &&& self.entries@.len() <= self.cap
        &&& forall|i: int|
            0 <= i < self.entries@.len() ==> (#[trigger] self.entries@[i]).1@ == parse_spec(
                self.entries@[i].0@,
            )
        &&& self.keys().no_duplicates()
    }

    fn new(cap: usize) -> (c: Self)
        ensures
            c.wf(),
            c.cap == cap,
            c.keys() == Seq::<Seq<char>>::empty(),
    {
        let c = AstCache { entries: Vec::new(), cap };
        assert(c.keys() =~= Seq::<Seq<char>>::empty());
        c
    }

    /// Looks `key` up; a hit becomes the most recently used entry.
    fn get(&mut self, key: &String) -> (r: Option<Ast>)
        requires
            old(self).wf(),
        ensures
            final(self).wf(),
            final(self).cap == old(self).cap,
            match r {
                Some(a) => a@ == parse_spec(key@) && exists|i: int|
                    0 <= i < old(self).keys().len() && old(self).keys()[i] == key@
                        && final(self).keys() == old(self).keys().remove(i).push(key@),
                None => !old(self).keys().contains(key@) && final(self).keys() == old(self).keys(),
            },
    {
        let ghost k0 = self.keys();
        let mut i: usize = 0;
        while i < self.entries.len()
            invariant
                i <= self.entries@.len(),
                k0 == self.keys(),
                self.wf(),
                *self == *old(self),
                forall|j: int| 0 <= j < i ==> k0[j] != key@,
            decreases self.entries@.len() - i,
        {
            if self.entries[i].0 == *key {
                let ghost e0 = self.entries@;
                let e = self.entries.remove(i);
                let a = e.1.clone();
                self.entries.push(e);
                proof {
                    assert(self.entries@ == e0.remove(i as int).push(e));
                    assert(self.keys() =~= k0.remove(i as int).push(key@));
                    assert forall|j: int| 0 <= j < self.entries@.len() implies (#[trigger] self.entries@[j]).1@
                        == parse_spec(self.entries@[j].0@) by {
                        if j < i {
                            assert(self.entries@[j] == e0[j]);
                        } else if j < self.entries@.len() - 1 {
                            assert(self.entries@[j] == e0[j + 1]);
                        }
                    }
                    assert forall|p: int, q: int|
                        0 <= p < self.keys().len() && 0 <= q < self.keys().len() && p != q
                            implies self.keys()[p] != self.keys()[q] by {
                        let m = |x: int| if x < i { x } else if x < self.keys().len() - 1 { x + 1 } else { i as int };
                        assert(self.keys()[p] == k0[m(p)]);
                        assert(self.keys()[q] == k0[m(q)]);
                    }
                }
                assert(e0[i as int] == e);
                assert(e.1@ == parse_spec(e.0@));
                assert(k0[i as int] == key@);
                assert(a@ == parse_spec(key@));
                return Some(a);
            }
            i += 1;
        }
        proof {
            assert forall|j: int| 0 <= j < k0.len() implies k0[j] != key@ by {}
        }
        None
    }

    /// Adds a fresh entry; over capacity, the least recently used one leaves.
    fn insert(&mut self, key: String, ast: Ast)
        requires
            old(self).wf(),
            !old(self).keys().contains(key@),
            ast@ == parse_spec(key@),
        ensures
            final(self).wf(),
            final(self).cap == old(self).cap,
            final(self).keys() == if old(self).keys().len() + 1 > old(self).cap {
                old(self).keys().push(key@).drop_first()
            } else {
                old(self).keys().push(key@)
            },
    {
        let ghost k0 = self.keys();
        let ghost kv = key@;
        self.entries.push((key, ast));
        let ghost e1 = self.entries@;
        proof {
            assert(self.keys() =~= k0.push(kv));
            assert forall|p: int, q: int|
                0 <= p < self.keys().len() && 0 <= q < self.keys().len() && p != q implies self.keys()[p]
                    != self.keys()[q] by {
                if p == k0.len() {
                    assert(k0.contains(self.keys()[q]) || q == p);
                } else if q == k0.len() {
                    assert(k0.contains(self.keys()[p]));
                }
            }
        }
        if self.entries.len() > self.cap {
            self.entries.remove(0);
            proof {
                assert(self.keys() =~= k0.push(kv).drop_first());
                assert forall|j: int| 0 <= j < self.entries@.len() implies (#[trigger] self.entries@[j]).1@
                    == parse_spec(self.entries@[j].0@) by {
                    assert(self.entries@[j] == e1[j + 1]);
                }
                assert forall|p: int, q: int|
                    0 <= p < self.keys().len() && 0 <= q < self.keys().len() && p != q
                        implies self.keys()[p] != self.keys()[q] by {
                    assert(self.keys()[p] == k0.push(kv)[p + 1]);
                    assert(self.keys()[q] == k0.push(kv)[q + 1]);
                }
            }
        }
    }
}

// ---------------------------------------------------------------------------
// the processor
// ---------------------------------------------------------------------------

/// The block texts a document is split into.
pub open spec fn process_blocks(content: Seq<char>, mode: Mode) -> Seq<Seq<char>> {
    let n = normalize_spec(content);
    if n.len() == 0 {
        Seq::empty()
    } else if mode == Mode::Static {
        seq![n]
    } else {
        blocks_spec(n)
    }
}

/// The text parsed for block `i`: the trailing block of a streamed document
/// is healed first.
pub open spec fn block_text(bs: Seq<Seq<char>>, i: int, mode: Mode, single: bool) -> Seq<char> {
    if mode == Mode::Streaming && i == bs.len() - 1 {
        preprocess_spec(bs[i], single)
    } else {
        bs[i]
    }
}

/// A block result holds `text`, is loading when `text` differs from the
/// block's `source`, and carries the tree of `text` unless it is empty.
pub open spec fn block_result_is(r: BlockResult, source: Seq<char>, text: Seq<char>) -> bool {
    &&& r.content@ == text
    &&& r.loading == (text != source)
    &&& match r.ast {
        Some(a) => text.len() > 0 && a@ == parse_spec(text),
        None => text.len() == 0,
    }
}

/// How many of the first `k` block texts are non-empty (each of them is one parse).
pub open spec fn parse_count(bs: Seq<Seq<char>>, k: int, mode: Mode, single: bool) -> int
    decreases k,
{
    if k <= 0 {
        0
    } else {
        parse_count(bs, k - 1, mode, single) + if block_text(bs, k - 1, mode, single).len() > 0 {
            1int
        } else {
            0int
        }
    }
}

pub proof fn lemma_parse_count(bs: Seq<Seq<char>>, k: int, mode: Mode, single: bool)
    requires
        0 <= k,
    ensures
        0 <= parse_count(bs, k, mode, single) <= k,
    decreases k,
{
    if k > 0 {
        lemma_parse_count(bs, k - 1, mode, single);
    }
}

/// The cached texts after a parse of `t` through a cache holding `keys`
/// (least recently used first) with room for `cap`: an empty text is not
/// parsed; a cached text becomes the most recently used; a new one is
/// added, the least recently used leaving when the cache is full.
pub open spec fn cache_after(keys: Seq<Seq<char>>, cap: nat, t: Seq<char>) -> Seq<Seq<char>> {
    if t.len() == 0 {
        keys
    } else if keys.contains(t) {
        keys.remove(keys.index_of(t)).push(t)
    } else if keys.len() + 1 > cap {
        keys.push(t).drop_first()
    } else {
        keys.push(t)
    }
}

/// The counters after a parse of `t` through a cache holding `keys`: a hit
/// when `t` is cached, a fresh parse otherwise, nothing for an empty text.
pub open spec fn stats_after(s: CacheStats, keys: Seq<Seq<char>>, t: Seq<char>) -> CacheStats {
    if t.len() == 0 {
        s
    } else if keys.contains(t) {
        CacheStats { cache_hits: (s.cache_hits + 1) as u64, fresh_parses: s.fresh_parses }
    } else {
        CacheStats { cache_hits: s.cache_hits, fresh_parses: (s.fresh_parses + 1) as u64 }
    }
}

/// The cached texts after parsing the first `k` block texts of `bs` in
/// order.
pub open spec fn cache_fold(
    keys: Seq<Seq<char>>,
    cap: nat,
    bs: Seq<Seq<char>>,
    k: int,
    mode: Mode,
    single: bool,
) -> Seq<Seq<char>>
    decreases k,
{
    if k <= 0 {
        keys
    } else {
        cache_after(cache_fold(keys, cap, bs, k - 1, mode, single), cap, block_text(bs, k - 1, mode, single))
    }
}

/// The counters after parsing the first `k` block texts of `bs` in order.
pub open spec fn stats_fold(
    stats: CacheStats,
    keys: Seq<Seq<char>>,
    cap: nat,
    bs: Seq<Seq<char>>,
    k: int,
    mode: Mode,
    single: bool,
) -> CacheStats
    decreases k,
{
    if k <= 0 {
        stats
    } else {
        stats_after(
            stats_fold(stats, keys, cap, bs, k - 1, mode, single),
            cache_fold(keys, cap, bs, k - 1, mode, single),
            block_text(bs, k - 1, mode, single),
        )
    }
}

/// The streaming markdown processor.
pub struct MarkdownProcessor {
    options: ProcessorOptions,
    cache: AstCache,
    stats: CacheStats,
}

impl MarkdownProcessor {
    /// The processor's invariant: every cached tree is the tree of its key,
    /// keys are distinct and within capacity.
    pub closed spec fn wf(&self) -> bool {
        self.cache.wf()
    }

    /// The cached block texts, least recently used first.
    pub closed spec fn cached(&self) -> Seq<Seq<char>> {
        self.cache.keys()
    }

    /// How many trees the cache keeps at most.
    pub closed spec fn capacity(&self) -> nat {
        self.cache.cap as nat
    }

    /// The counters so far.
    pub closed spec fn stats_of(&self) -> CacheStats {
        self.stats
    }

    /// The options the processor was made with.
    pub closed spec fn options_of(&self) -> ProcessorOptions {
        self.options
    }

    /// A processor caching up to 100 trees.
    pub fn new(options: ProcessorOptions) -> (p: Self)
        ensures
            p.wf(),
            p.capacity() == 100,
            p.cached() == Seq::<Seq<char>>::empty(),
            p.stats_of() == (CacheStats { cache_hits: 0, fresh_parses: 0 }),
            p.options_of() == options,
    {
        MarkdownProcessor { options, cache: AstCache::new(100), stats: CacheStats::default() }
    }

    /// A processor caching up to `cap` trees.
    pub fn with_cache_capacity(options: ProcessorOptions, cap: usize) -> (p: Self)
        ensures
            p.wf(),
            p.capacity() == cap,
            p.cached() == Seq::<Seq<char>>::empty(),
            p.stats_of() == (CacheStats { cache_hits: 0, fresh_parses: 0 }),
            p.options_of() == options,
    {
        MarkdownProcessor { options, cache: AstCache::new(cap), stats: CacheStats::default() }
    }

    /// Cache effectiveness since the processor was created.
    pub fn cache_stats(&self) -> (s: CacheStats)
        ensures
            s == self.stats_of(),
    {
        self.stats
    }

    pub fn normalize(&self, content: &str) -> (r: String)
        ensures
            r@ == normalize_spec(content@),
    {
        normalize(content)
    }

    pub fn preprocess(&self, content: &str) -> (r: String)
        ensures
            r@ == preprocess_spec(content@, self.options_of().preprocess.single_dollar_text_math),
    {
        preprocess(content, &self.options.preprocess)
    }

    pub fn parse_markdown_into_blocks(&self, content: &str) -> (r: Vec<String>)
        ensures
            r@.len() == blocks_spec(content@).len(),
            forall|k: int| 0 <= k < r@.len() ==> (#[trigger] r@[k])@ == blocks_spec(content@)[k],
    {
        parse_markdown_into_blocks(content)
    }

    /// Parses a single content string into its tree, through the cache. The
    /// tree is the same whether it came from the cache or from the parser.
    pub fn parse(&mut self, content: &str) -> (r: Option<Ast>)
        requires
            old(self).wf(),
            content@.len() > 0 && old(self).cached().contains(content@) ==> old(
                self,
            ).stats_of().cache_hits < u64::MAX,
            content@.len() > 0 && !old(self).cached().contains(content@) ==> old(
                self,
            ).stats_of().fresh_parses < u64::MAX,
        ensures
            final(self).wf(),
            final(self).capacity() == old(self).capacity(),
            final(self).options_of() == old(self).options_of(),
            content@.len() == 0 ==> r is None && final(self).cached() == old(self).cached()
                && final(self).stats_of() == old(self).stats_of(),
            content@.len() > 0 ==> r is Some && r->0@ == parse_spec(content@),
            final(self).cached() == cache_after(old(self).cached(), old(self).capacity(), content@),
            final(self).stats_of() == stats_after(old(self).stats_of(), old(self).cached(), content@),
            content@.len() > 0 && old(self).cached().contains(content@) ==> {
                &&& final(self).stats_of() == (CacheStats {
                    cache_hits: (old(self).stats_of().cache_hits + 1) as u64,
                    fresh_parses: old(self).stats_of().fresh_parses,
                })
                &&& exists|i: int|
                    0 <= i < old(self).cached().len() && old(self).cached()[i] == content@
                        && final(self).cached() == old(self).cached().remove(i).push(content@)
            },
            content@.len() > 0 && !old(self).cached().contains(content@) ==> {
                &&& final(self).stats_of() == (CacheStats {
                    cache_hits: old(self).stats_of().cache_hits,
                    fresh_parses: (old(self).stats_of().fresh_parses + 1) as u64,
                })
                &&& final(self).cached() == if old(self).cached().len() + 1 > old(self).capacity() {
                    old(self).cached().push(content@).drop_first()
                } else {
                    old(self).cached().push(content@)
                }
            },
    {
        if content.is_empty() {
            return None;
        }
        let key = content.to_owned();
        let mut cache = AstCache { entries: Vec::new(), cap: 0 };
        std::mem::swap(&mut cache, &mut self.cache);
        let ghost k0 = cache.keys();
        let hit = cache.get(&key);
        match hit {
            Some(ast) => {
                proof {
                    let i = choose|i: int| 0 <= i < k0.len() && k0[i] == key@ && cache.keys() == k0.remove(i).push(key@);
                    assert(k0.contains(key@));
                    let j = k0.index_of(key@);
                    assert(0 <= j < k0.len() && k0[j] == key@);
                    assert(k0.no_duplicates());
                    assert(i == j);
                }
                self.cache = cache;
                self.stats.cache_hits = self.stats.cache_hits + 1;
                Some(ast)
            },
            None => {
                let ast = parse_block(content);
                let copy = ast.clone();
                cache.insert(key, copy);
                self.cache = cache;
                self.stats.fresh_parses = self.stats.fresh_parses + 1;
                Some(ast)
            },
        }
    }

    /// The main entry: full markdown content -> blocks + per-block trees.
    #[verifier::rlimit(80)]
    pub fn process(&mut self, content: &str, mode: Mode) -> (doc: Document)
        requires
            old(self).wf(),
            old(self).stats_of().cache_hits + process_blocks(content@, mode).len() <= u64::MAX,
            old(self).stats_of().fresh_parses + process_blocks(content@, mode).len() <= u64::MAX,
        ensures
            final(self).wf(),
            final(self).capacity() == old(self).capacity(),
            final(self).options_of() == old(self).options_of(),
            doc.blocks@.len() == process_blocks(content@, mode).len(),
            forall|i: int|
                0 <= i < doc.blocks@.len() ==> block_result_is(
                    #[trigger] doc.blocks@[i],
                    process_blocks(content@, mode)[i],
                    block_text(
                        process_blocks(content@, mode),
                        i,
                        mode,
                        old(self).options_of().preprocess.single_dollar_text_math,
                    ),
                ),
            final(self).stats_of().cache_hits + final(self).stats_of().fresh_parses == old(
                self,
            ).stats_of().cache_hits + old(self).stats_of().fresh_parses + parse_count(
                process_blocks(content@, mode),
                process_blocks(content@, mode).len() as int,
                mode,
                old(self).options_of().preprocess.single_dollar_text_math,
            ),
            final(self).cached() == cache_fold(
                old(self).cached(),
                old(self).capacity(),
                process_blocks(content@, mode),
                process_blocks(content@, mode).len() as int,
                mode,
                old(self).options_of().preprocess.single_dollar_text_math,
            ),
            final(self).stats_of() == stats_fold(
                old(self).stats_of(),
                old(self).cached(),
                old(self).capacity(),
                process_blocks(content@, mode),
                process_blocks(content@, mode).len() as int,
                mode,
                old(self).options_of().preprocess.single_dollar_text_math,
            ),
    {
        let ghost bs = process_blocks(content@, mode);
        let ghost single = self.options.preprocess.single_dollar_text_math;
        let ghost base = self.stats.cache_hits + self.stats.fresh_parses;
        let normalized = self.normalize(content);
        if normalized.as_str().is_empty() {
            return Document::default();
        }
        let blocks: Vec<String> = match mode {
            Mode::Static => {
                let mut v: Vec<String> = Vec::new();
                v.push(normalized);
                v
            },
            Mode::Streaming => self.parse_markdown_into_blocks(normalized.as_str()),
        };
        assert(blocks@.len() == bs.len());
        assert(forall|k: int| 0 <= k < blocks@.len() ==> (#[trigger] blocks@[k])@ == bs[k]);
        let mut doc = Document { blocks: Vec::new() };
        let n = blocks.len();
        let mut index: usize = 0;
        while index < n
            invariant
                n == blocks@.len(),
                n == bs.len(),
                index <= n,
                forall|k: int| 0 <= k < blocks@.len() ==> (#[trigger] blocks@[k])@ == bs[k],
                self.wf(),
                self.capacity() == old(self).capacity(),
                self.options_of() == old(self).options_of(),
                single == self.options.preprocess.single_dollar_text_math,
                base == old(self).stats_of().cache_hits + old(self).stats_of().fresh_parses,
                old(self).stats_of().cache_hits + bs.len() <= u64::MAX,
                old(self).stats_of().fresh_parses + bs.len() <= u64::MAX,
                self.stats.cache_hits <= old(self).stats_of().cache_hits + index,
                self.stats.fresh_parses <= old(self).stats_of().fresh_parses + index,
                self.stats.cache_hits + self.stats.fresh_parses == base + parse_count(
                    bs,
                    index as int,
                    mode,
                    single,
                ),
                doc.blocks@.len() == index,
                self.cached() == cache_fold(old(self).cached(), old(self).capacity(), bs, index as int, mode, single),
                self.stats_of() == stats_fold(
                    old(self).stats_of(),
                    old(self).cached(),
                    old(self).capacity(),
                    bs,
                    index as int,
                    mode,
                    single,
                ),
                forall|i: int|
                    0 <= i < index ==> block_result_is(
                        #[trigger] doc.blocks@[i],
                        bs[i],
                        block_text(bs, i, mode, single),
                    ),
            decreases n - index,
        {
            proof {
                lemma_parse_count(bs, index as int, mode, single);
            }
            let is_last = index == n - 1;
            let text = if mode == Mode::Streaming && is_last {
                self.preprocess(blocks[index].as_str())
            } else {
                blocks[index].clone()
            };
            assert(text@ == block_text(bs, index as int, mode, single));
            let loading = !(text == blocks[index]);
            let ast = self.parse(text.as_str());
            doc.blocks.push(BlockResult { content: text, ast, loading });
            assert(block_result_is(doc.blocks@[index as int], bs[index as int], block_text(bs, index as int, mode, single)));
            index += 1;
        }
        doc
    }

    pub fn process_streaming(&mut self, content: &str) -> (doc: Document)
        requires
            old(self).wf(),
            old(self).stats_of().cache_hits + process_blocks(content@, Mode::Streaming).len() <= u64::MAX,
            old(self).stats_of().fresh_parses + process_blocks(content@, Mode::Streaming).len() <= u64::MAX,
        ensures
            final(self).wf(),
            final(self).capacity() == old(self).capacity(),
            final(self).options_of() == old(self).options_of(),
            doc.blocks@.len() == process_blocks(content@, Mode::Streaming).len(),
            final(self).cached() == cache_fold(
                old(self).cached(),
                old(self).capacity(),
                process_blocks(content@, Mode::Streaming),
                process_blocks(content@, Mode::Streaming).len() as int,
                Mode::Streaming,
                old(self).options_of().preprocess.single_dollar_text_math,
            ),
            final(self).stats_of() == stats_fold(
                old(self).stats_of(),
                old(self).cached(),
                old(self).capacity(),
                process_blocks(content@, Mode::Streaming),
                process_blocks(content@, Mode::Streaming).len() as int,
                Mode::Streaming,
                old(self).options_of().preprocess.single_dollar_text_math,
            ),
            forall|i: int|
                0 <= i < doc.blocks@.len() ==> block_result_is(
                    #[trigger] doc.blocks@[i],
                    process_blocks(content@, Mode::Streaming)[i],
                    block_text(
                        process_blocks(content@, Mode::Streaming),
                        i,
                        Mode::Streaming,
                        old(self).options_of().preprocess.single_dollar_text_math,
                    ),
                ),
    {
        self.process(content, Mode::Streaming)
    }

    pub fn process_static(&mut self, content: &str) -> (doc: Document)
        requires
            old(self).wf(),
            old(self).stats_of().cache_hits + process_blocks(content@, Mode::Static).len() <= u64::MAX,
            old(self).stats_of().fresh_parses + process_blocks(content@, Mode::Static).len() <= u64::MAX,
        ensures
            final(self).wf(),
            final(self).capacity() == old(self).capacity(),
            final(self).options_of() == old(self).options_of(),
            doc.blocks@.len() == process_blocks(content@, Mode::Static).len(),
            final(self).cached() == cache_fold(
                old(self).cached(),
                old(self).capacity(),
                process_blocks(content@, Mode::Static),
                process_blocks(content@, Mode::Static).len() as int,
                Mode::Static,
                old(self).options_of().preprocess.single_dollar_text_math,
            ),
            final(self).stats_of() == stats_fold(
                old(self).stats_of(),
                old(self).cached(),
                old(self).capacity(),
                process_blocks(content@, Mode::Static),
                process_blocks(content@, Mode::Static).len() as int,
                Mode::Static,
                old(self).options_of().preprocess.single_dollar_text_math,
            ),
            forall|i: int|
                0 <= i < doc.blocks@.len() ==> block_result_is(
                    #[trigger] doc.blocks@[i],
                    process_blocks(content@, Mode::Static)[i],
                    process_blocks(content@, Mode::Static)[i],
                ),
    {
        self.process(content, Mode::Static)
    }
}

impl Default for MarkdownProcessor {
    fn default() -> (p: Self)
        ensures
            p.wf(),
            p.capacity() == 100,
            p.cached() == Seq::<Seq<char>>::empty(),
            p.stats_of() == (CacheStats { cache_hits: 0, fresh_parses: 0 }),
            !p.options_of().preprocess.single_dollar_text_math,
    {
        MarkdownProcessor::new(ProcessorOptions::default())
    }
}

/// Touching a cached text keeps the cache's contents.
proof fn lemma_touch_keeps_contents(prev: Seq<Seq<char>>, t: Seq<char>)
    requires
        prev.contains(t),
    ensures
        forall|x: Seq<char>| #[trigger] prev.remove(prev.index_of(t)).push(t).contains(x) <==> prev.contains(x),
{
    let j = prev.index_of(t);
    let next = prev.remove(j).push(t);
    assert(0 <= j < prev.len() && prev[j] == t);
    assert forall|x: Seq<char>| next.contains(x) implies prev.contains(x) by {
        let m = choose|m: int| 0 <= m < next.len() && next[m] == x;
        if m == next.len() - 1 {
            assert(prev[j] == x);
        } else if m < j {
            assert(prev[m] == x);
        } else {
            assert(prev[m + 1] == x);
        }
    }
    assert forall|x: Seq<char>| prev.contains(x) implies next.contains(x) by {
        let m = choose|m: int| 0 <= m < prev.len() && prev[m] == x;
        if x == t {
            assert(next[next.len() - 1] == x);
        } else if m < j {
            assert(next[m] == x);
        } else {
            assert(m != j);
            assert(next[m - 1] == x);
        }
    }
}

/// Processing gives no block exactly for a text that normalizes to nothing,
/// in either mode.
pub proof fn lemma_text_gives_blocks(content: Seq<char>, mode: Mode)
    requires
        normalize_spec(content).len() <= usize::MAX,
        crate::preprocess::clean_content(content).len() <= usize::MAX,
    ensures
        process_blocks(content, mode).len() == 0 <==> normalize_spec(content).len() == 0,
{
    let n = normalize_spec(content);
    if n.len() > 0 {
        crate::preprocess::lemma_normalized_visible(content);
        let j = choose|k: int| 0 <= k < n.len() && !crate::text::is_white(#[trigger] n[k]);
        if mode != Mode::Static {
            crate::blocks::lemma_blocks_nonempty(n, j);
        }
    }
}

/// Parsing block texts that are all cached serves every one of them from
/// the cache: the cache keeps the same texts and only the hit counter
/// grows, by one per non-empty text.
pub proof fn lemma_cached_blocks_are_hits(
    stats: CacheStats,
    keys: Seq<Seq<char>>,
    cap: nat,
    bs: Seq<Seq<char>>,
    k: int,
    mode: Mode,
    single: bool,
)
    requires
        0 <= k <= bs.len(),
        stats.cache_hits + k <= u64::MAX,
        forall|i: int|
            0 <= i < k && block_text(bs, i, mode, single).len() > 0 ==> keys.contains(
                #[trigger] block_text(bs, i, mode, single),
            ),
    ensures
        forall|x: Seq<char>| #[trigger] cache_fold(keys, cap, bs, k, mode, single).contains(x) <==> keys.contains(x),
        stats_fold(stats, keys, cap, bs, k, mode, single) == (CacheStats {
            cache_hits: (stats.cache_hits + parse_count(bs, k, mode, single)) as u64,
            fresh_parses: stats.fresh_parses,
        }),
    decreases k,
{
    if k > 0 {
        lemma_cached_blocks_are_hits(stats, keys, cap, bs, k - 1, mode, single);
        lemma_parse_count(bs, k - 1, mode, single);
        let prev = cache_fold(keys, cap, bs, k - 1, mode, single);
        let t = block_text(bs, k - 1, mode, single);
        if t.len() > 0 {
            assert(keys.contains(t));
            assert(prev.contains(t));
            lemma_touch_keeps_contents(prev, t);
        }
    }
}

/// The cache never holds more trees than its capacity, and never two trees
/// for one block text.
pub proof fn lemma_cache_bounded(p: &MarkdownProcessor)
    requires
        p.wf(),
    ensures
        p.cached().len() <= p.capacity(),
        p.cached().no_duplicates(),
{
}

/// A static document is one block (or none, when it normalizes to nothing),
/// parsed as it is: static mode never heals.
pub proof fn lemma_static_is_one_block(content: Seq<char>, single: bool)
    ensures
        process_blocks(content, Mode::Static).len() <= 1,
        forall|i: int|
            0 <= i < process_blocks(content, Mode::Static).len() ==> block_text(
                process_blocks(content, Mode::Static),
                i,
                Mode::Static,
                single,
            ) == process_blocks(content, Mode::Static)[i] && process_blocks(content, Mode::Static)[i]
                == normalize_spec(content),
{
}

/// In a streamed document only the trailing block is healed: every earlier
/// block is parsed as it is.
pub proof fn lemma_streaming_heals_only_the_tail(content: Seq<char>, single: bool, i: int)
    requires
        0 <= i < process_blocks(content, Mode::Streaming).len() - 1,
    ensures
        block_text(process_blocks(content, Mode::Streaming), i, Mode::Streaming, single)
            == process_blocks(content, Mode::Streaming)[i],
{
}

} // verus!
