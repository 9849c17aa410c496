//! Glyph metrics cache: memoizes the rasterizer collaborator's output per
//! character. Populated lazily by the host, never evicted; bounded by the
//! character set, not the text size.

use vstd::prelude::*;

verus! {

/// Pixel metrics of one rasterized glyph, as plain integers: bitmap width
/// and height, bearings, and the horizontal advance.
#[derive(Debug, Copy, Clone)]
pub struct GlyphMetrics {
    pub width: usize,
    pub height: usize,
    pub xmin: i32,
    pub ymin: i32,
    pub advance_width: usize,
}

/// Bounds every cached glyph obeys; they keep all pixel arithmetic in range.
pub open spec fn metrics_wf(m: GlyphMetrics) -> bool {
    &&& m.width <= 256
    &&& m.height <= 256
    &&& -256 <= m.xmin <= 256
    &&& -256 <= m.ymin <= 256
    &&& m.advance_width <= 256
}

/// One cache entry: the character, its metrics, and its 8-bit coverage bitmap.
pub struct GlyphEntry {
    pub ch: char,
    pub metrics: GlyphMetrics,
    pub bitmap: Vec<u8>,
}

/// The cache itself: a small association list keyed by character.
pub struct GlyphCache {
    pub entries: Vec<GlyphEntry>,
}

impl GlyphCache {
    /// Every entry has bounded metrics and a bitmap of exactly
    /// width x height coverage bytes.
    pub open spec fn wf(self) -> bool {
        forall|i: int|
            0 <= i < self.entries@.len() ==> metrics_wf(#[trigger] self.entries@[i].metrics)
                && self.entries@[i].bitmap@.len() == self.entries@[i].metrics.width
                * self.entries@[i].metrics.height
    }

    /// The cache holds a glyph for `c`.
    pub open spec fn has_spec(self, c: char) -> bool {
        exists|i: int| 0 <= i < self.entries@.len() && self.entries@[i].ch == c
    }

    /// An empty cache.
    pub fn new() -> (r: GlyphCache)
        ensures
            r.wf(),
            r.entries@.len() == 0,
    {
        GlyphCache { entries: Vec::new() }
    }

    /// Index of the entry for `c`, if one is cached.
    pub fn find(&self, c: char) -> (r: Option<usize>)
        ensures
            match r {
                Option::Some(i) => i < self.entries@.len() && self.entries@[i as int].ch == c
                    && forall|j: int| 0 <= j < i ==> self.entries@[j].ch != c,
                Option::None => !self.has_spec(c),
            },
    {
        let mut i: usize = 0;
        while i < self.entries.len()
            invariant
                i <= self.entries@.len(),
                forall|j: int| 0 <= j < i ==> self.entries@[j].ch != c,
            decreases self.entries@.len() - i,
        {
            if self.entries[i].ch == c {
                return Option::Some(i);
            }
            i = i + 1;
        }
        Option::None
    }

    /// Whether a glyph for `c` is cached.
    pub fn has(&self, c: char) -> (r: bool)
        ensures
            r == self.has_spec(c),
    {
        match self.find(c) {
            Option::Some(_) => true,
            Option::None => false,
        }
    }

    /// Caches the rasterizer's output for `c`. The host supplies metrics
    /// already clamped to the cache bounds.
    pub fn insert(&mut self, c: char, metrics: GlyphMetrics, bitmap: Vec<u8>)
        requires
            old(self).wf(),
            metrics_wf(metrics),
            bitmap@.len() == metrics.width * metrics.height,
        ensures
            final(self).wf(),
            final(self).has_spec(c),
            final(self).entries@ == old(self).entries@.push(
                (GlyphEntry { ch: c, metrics, bitmap }),
            ),
    {
        self.entries.push(GlyphEntry { ch: c, metrics, bitmap });
        assert(self.entries@[self.entries@.len() - 1].ch == c);
    }

    /// The advance width used for `c`: the cached glyph's advance, or the
    /// caller's fallback when the rasterizer produced none.
    pub fn advance_of(&self, c: char, fallback: usize) -> (r: usize)
        requires
            self.wf(),
            fallback <= 256,
        ensures
            r <= 256,
            r == advance_spec(self.entries@, c, fallback as int),
    {
        match self.find(c) {
            Option::Some(i) => {
                proof {
                    lemma_advance_spec_at(self.entries@, c, fallback as int, i as int);
                }
                self.entries[i].metrics.advance_width
            },
            Option::None => {
                proof {
                    lemma_advance_spec_absent(self.entries@, c, fallback as int);
                }
                fallback
            },
        }
    }
}

/// The advance the cache answers for `c`: that of the first entry for `c`,
/// or the fallback when none is cached.
pub open spec fn advance_spec(entries: Seq<GlyphEntry>, c: char, fallback: int) -> int
    decreases entries.len(),
{
    if entries.len() == 0 {
        fallback
    } else if entries[0].ch == c {
        entries[0].metrics.advance_width as int
    } else {
        advance_spec(entries.drop_first(), c, fallback)
    }
}

/// The first entry for `c` determines the cached advance.
proof fn lemma_advance_spec_at(entries: Seq<GlyphEntry>, c: char, fallback: int, i: int)
    requires
        0 <= i < entries.len(),
        entries[i].ch == c,
        forall|j: int| 0 <= j < i ==> entries[j].ch != c,
    ensures
        advance_spec(entries, c, fallback) == entries[i].metrics.advance_width,
    decreases i,
{
    if i > 0 {
        lemma_advance_spec_at(entries.drop_first(), c, fallback, i - 1);
    }
}

/// With no entry for `c` the cache answers the fallback.
proof fn lemma_advance_spec_absent(entries: Seq<GlyphEntry>, c: char, fallback: int)
    requires
        forall|i: int| 0 <= i < entries.len() ==> entries[i].ch != c,
    ensures
        advance_spec(entries, c, fallback) == fallback,
    decreases entries.len(),
{
    if entries.len() > 0 {
        lemma_advance_spec_absent(entries.drop_first(), c, fallback);
    }
}

} // verus!
