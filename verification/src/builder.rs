//! The build driver: size a file from source statistics, run write
//! attempts, and grow the page count whenever an attempt overflows a
//! page's table or heap.

use vstd::prelude::*;
use vstd::string::StringExecFns;

use crate::header::{NCDHeader, HEADER_SIZE};
use crate::util::{dec_digits, u64_to_string, NCDError};
use crate::write::{NCDValueSource, NCDWriteAttempt};

verus! {

/// An exact ratio, standing in for the fractional tuning knobs of the
/// builder (load factor, wiggle room, thresholds).
#[derive(Clone, Copy, Debug)]
pub struct Fraction {
    pub num: u64,
    pub den: u64,
}

impl Fraction {
    /// Positive and small enough that the sizing arithmetic cannot
    /// overflow.
    pub open spec fn wf(&self) -> bool {
        0 < self.num <= 65536 && 0 < self.den <= 65536
    }

    /// Build a ratio.
    pub fn new(num: u64, den: u64) -> (r: Fraction)
        requires
            0 < num <= 65536,
            0 < den <= 65536,
        ensures
            r.num == num && r.den == den && r.wf(),
    {
        Fraction { num, den }
    }
}

/// The builder's tuning knobs.
#[derive(Clone, Copy, Debug)]
pub struct NCDBuildConfig {
    pub target_page_size: u32,
    pub target_load_factor: Fraction,
    pub heap_wiggle_room: Fraction,
    pub min_entries_per_page: u64,
    pub external_threshold: Fraction,
    pub rebuild_page_factor: Fraction,
    pub force_header_size: Option<u32>,
}

impl NCDBuildConfig {
    /// Every fraction valid and a page size with room for the header.
    pub open spec fn wf(&self) -> bool {
        &&& self.target_page_size > 28
        &&& self.target_load_factor.wf()
        &&& self.heap_wiggle_room.wf()
        &&& self.external_threshold.wf()
        &&& self.rebuild_page_factor.wf()
    }

    /// The defaults: 32 KiB pages, load factor 1/2, heap wiggle room 5/4,
    /// external threshold 1/10, rebuild factor 6/5.
    pub fn new() -> (r: NCDBuildConfig)
        ensures
            r.wf(),
            r.target_page_size == 32768,
            r.target_load_factor.num == 1 && r.target_load_factor.den == 2,
            r.heap_wiggle_room.num == 5 && r.heap_wiggle_room.den == 4,
            r.min_entries_per_page == 100,
            r.external_threshold.num == 1 && r.external_threshold.den == 10,
            r.rebuild_page_factor.num == 6 && r.rebuild_page_factor.den == 5,
            r.force_header_size is None,
    {
        NCDBuildConfig {
            target_page_size: 32 * 1024,
            target_load_factor: Fraction { num: 1, den: 2 },
            heap_wiggle_room: Fraction { num: 5, den: 4 },
            min_entries_per_page: 100,
            external_threshold: Fraction { num: 1, den: 10 },
            rebuild_page_factor: Fraction { num: 6, den: 5 },
            force_header_size: None,
        }
    }

    /// A copy with another target page size.
    pub fn target_page_size(&self, value: u32) -> (r: NCDBuildConfig)
        requires
            value > 28,
        ensures
            r == (NCDBuildConfig { target_page_size: value, ..*self }),
    {
        let mut out = self.clone();
        out.target_page_size = value;
        out
    }

    /// A copy with another target table load factor.
    pub fn target_load_factor(&self, value: Fraction) -> (r: NCDBuildConfig)
        requires
            value.wf(),
        ensures
            r == (NCDBuildConfig { target_load_factor: value, ..*self }),
    {
        let mut out = self.clone();
        out.target_load_factor = value;
        out
    }

    /// A copy with another heap wiggle-room factor.
    pub fn heap_wiggle_room(&self, value: Fraction) -> (r: NCDBuildConfig)
        requires
            value.wf(),
        ensures
            r == (NCDBuildConfig { heap_wiggle_room: value, ..*self }),
    {
        let mut out = self.clone();
        out.heap_wiggle_room = value;
        out
    }

    /// A copy with another advisory minimum of entries per page.
    pub fn min_entries_per_page(&self, value: u64) -> (r: NCDBuildConfig)
        ensures
            r == (NCDBuildConfig { min_entries_per_page: value, ..*self }),
    {
        let mut out = self.clone();
        out.min_entries_per_page = value;
        out
    }

    /// A copy with another external-record threshold fraction.
    pub fn external_threshold(&self, value: Fraction) -> (r: NCDBuildConfig)
        requires
            value.wf(),
        ensures
            r == (NCDBuildConfig { external_threshold: value, ..*self }),
    {
        let mut out = self.clone();
        out.external_threshold = value;
        out
    }

    /// A copy with another page growth factor for rebuilds.
    pub fn rebuild_page_factor(&self, value: Fraction) -> (r: NCDBuildConfig)
        requires
            value.wf(),
        ensures
            r == (NCDBuildConfig { rebuild_page_factor: value, ..*self }),
    {
        let mut out = self.clone();
        out.rebuild_page_factor = value;
        out
    }

    /// A copy with another forced pointer width.
    pub fn force_header_size(&self, value: Option<u32>) -> (r: NCDBuildConfig)
        ensures
            r == (NCDBuildConfig { force_header_size: value, ..*self }),
    {
        let mut out = self.clone();
        out.force_header_size = value;
        out
    }
}

/// What one scan of a value source found: how many pairs, and their
/// total serialized weight (key, value, and about six framing bytes each).
pub struct NCDStats {
    pub number_of_keys: u64,
    pub total_length: u64,
}

/// The total serialized weight of the first `n` pairs: key, value, and
/// six framing bytes each.
pub open spec fn spec_stats_length(pairs: Seq<(Vec<u8>, Vec<u8>)>, n: int) -> int
    decreases n,
{
    if n <= 0 {
        0
    } else {
        spec_stats_length(pairs, n - 1) + pairs[n - 1].0@.len() + pairs[n - 1].1@.len() + 6
    }
}

/// A longer prefix never weighs less.
pub proof fn lemma_stats_length_monotone(pairs: Seq<(Vec<u8>, Vec<u8>)>, i: int, n: int)
    requires
        0 <= i <= n,
    ensures
        spec_stats_length(pairs, i) <= spec_stats_length(pairs, n),
    decreases n,
{
    if i < n {
        lemma_stats_length_monotone(pairs, i, n - 1);
    }
}

impl NCDStats {
    /// Count a pairs vector: how many pairs, and their exact total
    /// serialized weight; refused only when that weight overflows a
    /// 64-bit length.
    pub fn stats_of_pairs(pairs: &Vec<(Vec<u8>, Vec<u8>)>) -> (r: Result<NCDStats, NCDError>)
        ensures
            r is Ok <==> spec_stats_length(pairs@, pairs@.len() as int) <= u64::MAX,
            r is Ok ==> r->Ok_0.number_of_keys == pairs@.len() && r->Ok_0.total_length
                == spec_stats_length(pairs@, pairs@.len() as int),
            r is Err ==> r->Err_0 is BadConfiguration,
    {
        let count: usize = pairs.len();
        let mut total_length: u64 = 0;
        let mut i: usize = 0;
        while i < count
            invariant
                i <= count,
                count == pairs@.len(),
                total_length == spec_stats_length(pairs@, i as int),
            decreases count - i,
        {
            let pair: &(Vec<u8>, Vec<u8>) = vstd::slice::slice_index_get(pairs.as_slice(), i);
            let k: u64 = pair.0.len() as u64;
            let v: u64 = pair.1.len() as u64;
            if v > u64::MAX - 6 || k > u64::MAX - 6 - v || total_length > u64::MAX - (k + v
                + 6) {
                proof {
                    lemma_stats_length_monotone(pairs@, i + 1, count as int);
                }
                return Err(NCDError::BadConfiguration("source too large".to_owned()));
            }
            total_length = total_length + k + v + 6;
            i = i + 1;
        }
        Ok(NCDStats { number_of_keys: count as u64, total_length })
    }

    /// Scan the source once and count its pairs.
    pub fn new<S: NCDValueSource>(source: &S) -> (r: Result<NCDStats, NCDError>)
        ensures
            r is Err ==> (r->Err_0 is IOError || r->Err_0 is BadConfiguration),
    {
        let pairs: Vec<(Vec<u8>, Vec<u8>)> = match crate::util::wrap_io_error(source.pairs()) {
            Ok(p) => p,
            Err(e) => { return Err(e); },
        };
        Self::stats_of_pairs(&pairs)
    }

    /// Statistics given outright, without a source.
    pub fn new_values(number_of_keys: u64, total_length: u64) -> (r: NCDStats)
        ensures
            r.number_of_keys == number_of_keys,
            r.total_length == total_length,
    {
        NCDStats { number_of_keys, total_length }
    }
}

/// The table pointer width the sizing reckons with, from the target page
/// size alone.
pub open spec fn spec_pointer_size_k(c: NCDBuildConfig) -> int {
    if c.target_page_size < 65536 {
        2
    } else {
        4
    }
}

/// The estimated page count: table space (keys over the load factor)
/// plus heap space (total length with wiggle room), divided by the page
/// size less the header, rounded up.
pub open spec fn spec_guess_pages(c: NCDBuildConfig, s: NCDStats) -> int {
    let k = spec_pointer_size_k(c);
    let numer = k * s.number_of_keys * c.target_load_factor.den * c.heap_wiggle_room.den
        + c.heap_wiggle_room.num * s.total_length * c.target_load_factor.num;
    let denom = c.target_load_factor.num * c.heap_wiggle_room.den * (c.target_page_size - 28);
    (numer + denom - 1) / denom
}

/// Estimate the number of pages, saturating at the largest file offset.
pub fn guess_number_of_pages(config: &NCDBuildConfig, stats: &NCDStats) -> (r: u64)
    requires
        config.wf(),
    ensures
        r == (if spec_guess_pages(*config, *stats) > u64::MAX {
            u64::MAX as int
        } else {
            spec_guess_pages(*config, *stats)
        }),
{
    let k: u64 = if config.target_page_size < 65536 {
        2
    } else {
        4
    };
    let f = config.target_load_factor;
    let w = config.heap_wiggle_room;
    proof {
        assert((k as int) * (stats.number_of_keys as int) <= 0x40000000000000000 && (k as int)
            * (stats.number_of_keys as int) * (f.den as int) <= 0x400000000000000000000 && (
        k as int) * (stats.number_of_keys as int) * (f.den as int) * (w.den as int)
            <= 0x4000000000000000000000000 && (w.num as int) * (stats.total_length as int)
            <= 0x100000000000000000000 && (w.num as int) * (stats.total_length as int) * (
        f.num as int) <= 0x1000000000000000000000000 && (f.num as int) * (w.den as int)
            <= 0x100000000 && (f.num as int) * (w.den as int) * ((config.target_page_size - 28)
            as int) <= 0x10000000000000000) by (nonlinear_arith)
            requires
                k <= 4,
                f.num <= 65536 && f.den <= 65536 && w.num <= 65536 && w.den <= 65536,
                stats.number_of_keys <= 0xFFFFFFFFFFFFFFFFu64,
                stats.total_length <= 0xFFFFFFFFFFFFFFFFu64,
                config.target_page_size <= 0xFFFFFFFFu32,
                config.target_page_size > 28,
        {
        }
        assert((f.num as int) * (w.den as int) * ((config.target_page_size - 28) as int) >= 1)
            by (nonlinear_arith)
            requires
                f.num >= 1,
                w.den >= 1,
                config.target_page_size > 28,
        {
        }
    }
    let numer: u128 = (k as u128) * (stats.number_of_keys as u128) * (f.den as u128) * (w.den
        as u128) + (w.num as u128) * (stats.total_length as u128) * (f.num as u128);
    let denom: u128 = (f.num as u128) * (w.den as u128) * ((config.target_page_size - 28) as u128);
    let pages: u128 = (numer + denom - 1) / denom;
    if pages > u64::MAX as u128 {
        u64::MAX
    } else {
        pages as u64
    }
}

/// Entries expected on each page: the keys spread over the pages, at
/// least one.
pub open spec fn spec_entries_per_page(s: NCDStats, pages: u64) -> int {
    if s.number_of_keys / pages >= 1 {
        (s.number_of_keys / pages) as int
    } else {
        1
    }
}

/// Table slots per page: the expected entries over the load factor, and
/// one more.
pub open spec fn spec_table_entries(c: NCDBuildConfig, entries: int) -> int {
    entries * c.target_load_factor.den / (c.target_load_factor.num as int) + 1
}

/// Heap bytes per page: what the page size leaves after the table and
/// stamp, never less than the header's 28 bytes.
pub open spec fn spec_heap_size(c: NCDBuildConfig, table_entries: int) -> int {
    let k = spec_pointer_size_k(c);
    if c.target_page_size >= table_entries * k + 4 + 28 {
        c.target_page_size - table_entries * k - 4
    } else {
        28
    }
}

/// The record size above which entries go external: the threshold
/// fraction of the heap, at least 16.
pub open spec fn spec_external_threshold(c: NCDBuildConfig, heap_size: int) -> int {
    let t = heap_size * c.external_threshold.num / (c.external_threshold.den as int);
    if t >= 16 {
        t
    } else {
        16
    }
}

/// Size a header (and the external threshold) from source statistics: an
/// empty source gets the trivial one-page file; otherwise pages, table
/// and heap are derived from the estimates above.
pub fn initial_header_guess(config: &NCDBuildConfig, stats: &NCDStats, stamp: u32) -> (r: Result<
    (NCDHeader, u64),
    NCDError,
>)
    requires
        config.wf(),
    ensures
        stats.number_of_keys == 0 ==> r is Ok && ({
            let h = r->Ok_0.0;
            &&& h.number_of_pages == 1
            &&& h.heap_size == 28
            &&& h.table_size == 0
            &&& h.stamp == stamp
            &&& r->Ok_0.1 == 0
        }),
        stats.number_of_keys > 0 ==> (r is Ok <==> ({
            let pages = if spec_guess_pages(*config, *stats) > u64::MAX {
                u64::MAX as int
            } else {
                spec_guess_pages(*config, *stats)
            };
            let entries = spec_entries_per_page(*stats, pages as u64);
            let table = spec_table_entries(*config, entries);
            &&& table <= 0xFFFFFFFF
            &&& crate::header::spec_new_ok(
                pages as u64,
                spec_heap_size(*config, table) as u32,
                table as u32,
                config.force_header_size,
            )
        })),
        stats.number_of_keys > 0 ==> r is Ok ==> ({
            let h = r->Ok_0.0;
            let pages = if spec_guess_pages(*config, *stats) > u64::MAX {
                u64::MAX as int
            } else {
                spec_guess_pages(*config, *stats)
            };
            let entries = spec_entries_per_page(*stats, pages as u64);
            let table = spec_table_entries(*config, entries);
            let heap = spec_heap_size(*config, table);
            &&& h.number_of_pages == pages
            &&& h.table_size == table
            &&& h.heap_size == heap
            &&& h.stamp == stamp
            &&& h.wf()
            &&& h.spec_pl() == crate::header::effective_pointer_size(
                config.force_header_size,
                heap as u32,
                table as u32,
            )
            &&& r->Ok_0.1 == spec_external_threshold(*config, heap)
        }),
        r is Err ==> r->Err_0 is BadConfiguration,
        r is Ok ==> r->Ok_0.0.wf(),
{
    if stats.number_of_keys == 0 {
        let h = match NCDHeader::new(1, HEADER_SIZE as u32, 0, None, stamp) {
            Ok(h) => h,
            Err(e) => { return Err(e); },
        };
        return Ok((h, 0));
    }
    let pages: u64 = guess_number_of_pages(config, stats);
    proof {
        let c = *config;
        let s = *stats;
        let denom = c.target_load_factor.num * c.heap_wiggle_room.den * (c.target_page_size
            - 28);
        assert(denom >= 1) by (nonlinear_arith)
            requires
                denom == c.target_load_factor.num * c.heap_wiggle_room.den * (
                c.target_page_size - 28),
                c.target_load_factor.num >= 1,
                c.heap_wiggle_room.den >= 1,
                c.target_page_size > 28,
        {
        }
        assert(spec_guess_pages(c, s) >= 1) by (nonlinear_arith)
            requires
                spec_guess_pages(c, s) == ({
                    let k = spec_pointer_size_k(c);
                    let numer = k * s.number_of_keys * c.target_load_factor.den
                        * c.heap_wiggle_room.den + c.heap_wiggle_room.num * s.total_length
                        * c.target_load_factor.num;
                    (numer + denom - 1) / denom
                }),
                denom >= 1,
                spec_pointer_size_k(c) >= 2,
                s.number_of_keys >= 1,
                c.target_load_factor.den >= 1,
                c.heap_wiggle_room.den >= 1,
                c.heap_wiggle_room.num >= 1,
                s.total_length >= 0,
                c.target_load_factor.num >= 1,
        {
        }
    }
    let entries_per_page: u64 = {
        let e = stats.number_of_keys / pages;
        if e >= 1 {
            e
        } else {
            1
        }
    };
    let f = config.target_load_factor;
    proof {
        assert((entries_per_page as int) * (f.den as int) <= 0x100000000000000000000) by (
        nonlinear_arith)
            requires
                entries_per_page <= 0xFFFFFFFFFFFFFFFFu64,
                f.den <= 65536,
        {
        }
    }
    let table_wide: u128 = (entries_per_page as u128) * (f.den as u128) / (f.num as u128) + 1;
    if table_wide > 0xFFFFFFFF {
        return Err(NCDError::BadConfiguration("table too large".to_owned()));
    }
    let table_size_entries: u32 = table_wide as u32;
    let k: u64 = if config.target_page_size < 65536 {
        2
    } else {
        4
    };
    let table_bytes: u64 = (table_size_entries as u64) * k;
    let heap_size: u32 = if (config.target_page_size as u64) >= table_bytes + 4 + 28 {
        ((config.target_page_size as u64) - table_bytes - 4) as u32
    } else {
        28
    };
    let e = config.external_threshold;
    proof {
        assert((heap_size as int) * (e.num as int) <= 0x1000000000000) by (nonlinear_arith)
            requires
                heap_size <= 0xFFFFFFFFu32,
                e.num <= 65536,
        {
        }
    }
    let threshold_raw: u64 = (heap_size as u64) * e.num / e.den;
    let threshold: u64 = if threshold_raw >= 16 {
        threshold_raw
    } else {
        16
    };
    let h = match NCDHeader::new(
        pages,
        heap_size,
        table_size_entries,
        config.force_header_size,
        stamp,
    ) {
        Ok(h) => h,
        Err(e) => { return Err(e); },
    };
    Ok((h, threshold))
}

/// Relies on std's `SystemTime`: the low 32 bits of the seconds since
/// the Unix epoch, or 0 for a clock before the epoch. Nothing is assumed
/// of the value.
#[verifier::external_body]
fn make_stamp() -> u32 {
    match std::time::SystemTime::now().duration_since(std::time::UNIX_EPOCH) {
        Ok(d) => (d.as_secs() & 0xFFFFFFFF) as u32,
        Err(_) => 0,
    }
}

/// The page count after one overflow: grown by the rebuild factor,
/// rounded up, saturating at the largest file offset.
pub open spec fn spec_cranked_pages(c: NCDBuildConfig, pages: u64) -> int {
    let q = (pages * c.rebuild_page_factor.num + c.rebuild_page_factor.den - 1) / (
    c.rebuild_page_factor.den as int);
    if q > u64::MAX {
        u64::MAX as int
    } else {
        q
    }
}

/// The build driver: owns the source, the current header guess, and the
/// image of the last successful attempt.
pub struct NCDBuild<'a, S: NCDValueSource> {
    pub source: &'a S,
    pub config: NCDBuildConfig,
    pub header: NCDHeader,
    pub threshold: u64,
    pub failure_reason: String,
    pub image: Option<Vec<u8>>,
}

impl<'a, S: NCDValueSource> NCDBuild<'a, S> {
    /// The driver is usable while its header and configuration are well
    /// formed.
    pub open spec fn wf(&self) -> bool {
        self.header.wf() && self.config.wf()
    }

    /// Set up a build: scan the source for statistics and make the first
    /// header guess, stamped with the current time.
    pub fn new(config: &NCDBuildConfig, source: &'a S) -> (r: Result<NCDBuild<'a, S>, NCDError>)
        requires
            config.wf(),
        ensures
            r is Ok ==> r->Ok_0.wf() && r->Ok_0.image is None && r->Ok_0.config == *config,
            r is Err ==> (r->Err_0 is IOError || r->Err_0 is BadConfiguration),
    {
        let stats = match NCDStats::new(source) {
            Ok(s) => s,
            Err(e) => { return Err(e); },
        };
        let guess = match initial_header_guess(config, &stats, make_stamp()) {
            Ok(g) => g,
            Err(e) => { return Err(e); },
        };
        let (header, threshold) = guess;
        Ok(
            NCDBuild {
                source,
                config: config.clone(),
                header,
                threshold,
                failure_reason: "uninitialized".to_owned(),
                image: None,
            },
        )
    }

    /// A short description of the coming attempt: its page count.
    pub fn describe_attempt(&self) -> (r: String)
        ensures
            r@ == dec_digits(self.header.number_of_pages as int) + " pages"@,
    {
        let mut s = u64_to_string(self.header.number_of_pages());
        s.append(" pages");
        s
    }

    /// What the last attempt came to, in words.
    pub fn result(&self) -> (r: &str)
        ensures
            r@ == self.failure_reason@,
    {
        self.failure_reason.as_str()
    }

    /// The header the same in everything but a page count grown by the
    /// rebuild factor.
    fn crank_page_count(&self) -> (r: Result<NCDHeader, NCDError>)
        requires
            self.wf(),
        ensures
            r is Ok ==> ({
                let h = r->Ok_0;
                &&& h.wf()
                &&& h.number_of_pages == spec_cranked_pages(self.config, self.header.number_of_pages)
                &&& h.heap_size == self.header.heap_size
                &&& h.table_size == self.header.table_size
                &&& h.stamp == self.header.stamp
                &&& (self.header.spec_pl() == crate::header::effective_pointer_size(
                    self.config.force_header_size,
                    self.header.heap_size,
                    self.header.table_size,
                ) ==> h.version == self.header.version)
            }),
            r is Err ==> r->Err_0 is BadConfiguration,
    {
        let rf = self.config.rebuild_page_factor;
        proof {
            assert((self.header.number_of_pages as int) * (rf.num as int)
                <= 0x100000000000000000000) by (nonlinear_arith)
                requires
                    self.header.number_of_pages <= 0xFFFFFFFFFFFFFFFFu64,
                    rf.num <= 65536,
            {
            }
        }
        let wide: u128 = ((self.header.number_of_pages() as u128) * (rf.num as u128) + (rf.den
            as u128) - 1) / (rf.den as u128);
        let new_pages: u64 = if wide > u64::MAX as u128 {
            u64::MAX
        } else {
            wide as u64
        };
        NCDHeader::new(
            new_pages,
            self.header.heap_size(),
            self.header.table_size_entries(),
            self.config.force_header_size,
            self.header.stamp(),
        )
    }

    /// React to a full table: grow the page count for the next attempt.
    fn fix_table_full(&mut self) -> (r: Result<(), NCDError>)
        requires
            old(self).wf(),
        ensures
            final(self).wf(),
            final(self).config == old(self).config,
            final(self).source == old(self).source,
            final(self).failure_reason == old(self).failure_reason,
            final(self).image == old(self).image,
            final(self).threshold == old(self).threshold,
            r is Ok ==> ({
                let h = final(self).header;
                &&& h.number_of_pages == spec_cranked_pages(
                    old(self).config,
                    old(self).header.number_of_pages,
                )
                &&& h.heap_size == old(self).header.heap_size
                &&& h.table_size == old(self).header.table_size
                &&& h.stamp == old(self).header.stamp
                &&& (old(self).header.spec_pl() == crate::header::effective_pointer_size(
                    old(self).config.force_header_size,
                    old(self).header.heap_size,
                    old(self).header.table_size,
                ) ==> h.version == old(self).header.version)
            }),
            r is Err ==> r->Err_0 is BadConfiguration,
    {
        let h = match self.crank_page_count() {
            Ok(h) => h,
            Err(e) => { return Err(e); },
        };
        self.header = h;
        Ok(())
    }

    /// React to a full heap: grow the page count for the next attempt.
    fn fix_heap_full(&mut self) -> (r: Result<(), NCDError>)
        requires
            old(self).wf(),
        ensures
            final(self).wf(),
            final(self).config == old(self).config,
            final(self).source == old(self).source,
            final(self).failure_reason == old(self).failure_reason,
            final(self).image == old(self).image,
            final(self).threshold == old(self).threshold,
            r is Ok ==> ({
                let h = final(self).header;
                &&& h.number_of_pages == spec_cranked_pages(
                    old(self).config,
                    old(self).header.number_of_pages,
                )
                &&& h.heap_size == old(self).header.heap_size
                &&& h.table_size == old(self).header.table_size
                &&& h.stamp == old(self).header.stamp
                &&& (old(self).header.spec_pl() == crate::header::effective_pointer_size(
                    old(self).config.force_header_size,
                    old(self).header.heap_size,
                    old(self).header.table_size,
                ) ==> h.version == old(self).header.version)
            }),
            r is Err ==> r->Err_0 is BadConfiguration,
    {
        let h = match self.crank_page_count() {
            Ok(h) => h,
            Err(e) => { return Err(e); },
        };
        self.header = h;
        Ok(())
    }

    /// Run one write attempt. `Ok(true)`: the image of the finished file
    /// is stored and describes itself in `result()`. `Ok(false)`: the
    /// page table or heap overflowed, and the header was regrown (only
    /// its page count: heap and table sizes are kept) for the next try.
    /// Any other failure aborts the build.
    pub fn attempt(&mut self) -> (r: Result<bool, NCDError>)
        requires
            old(self).wf(),
        ensures
            final(self).wf(),
            final(self).config == old(self).config,
            final(self).source == old(self).source,
            r is Ok && r->Ok_0 == true ==> ({
                &&& final(self).header == old(self).header
                &&& final(self).image is Some
                &&& final(self).image->0@.len() >= final(self).header.spec_structured_size()
                &&& (final(self).header.number_of_pages > 0 && final(self).header.heap_size >= 28)
                    ==> (final(self).image->0@.subrange(0, 28) == final(self).header.spec_bytes()
                    && crate::write::stamps_ok(final(self).image->0@, final(self).header))
            }),
            r is Ok && r->Ok_0 == false ==> ({
                let h = final(self).header;
                &&& h.number_of_pages == spec_cranked_pages(
                    old(self).config,
                    old(self).header.number_of_pages,
                )
                &&& h.heap_size == old(self).header.heap_size
                &&& h.table_size == old(self).header.table_size
                &&& h.stamp == old(self).header.stamp
                &&& (old(self).header.spec_pl() == crate::header::effective_pointer_size(
                    old(self).config.force_header_size,
                    old(self).header.heap_size,
                    old(self).header.table_size,
                ) ==> h.version == old(self).header.version)
                &&& (final(self).failure_reason@ == "table overflow"@
                    || final(self).failure_reason@ == "heap overflow"@)
            }),
    {
        let mut writer = match NCDWriteAttempt::new(&self.header, self.threshold) {
            Ok(w) => w,
            Err(e) => { return Err(e); },
        };
        match writer.add_all(self.source) {
            Err(NCDError::TableFull) => {
                self.failure_reason = "table overflow".to_owned();
                match self.fix_table_full() {
                    Ok(()) => {},
                    Err(e) => { return Err(e); },
                }
                Ok(false)
            },
            Err(NCDError::HeapFull) => {
                self.failure_reason = "heap overflow".to_owned();
                match self.fix_heap_full() {
                    Ok(()) => {},
                    Err(e) => { return Err(e); },
                }
                Ok(false)
            },
            Err(e) => Err(e),
            Ok(()) => {
                let mut s = u64_to_string(self.header.number_of_pages());
                s.append(" pages with ");
                let t = u64_to_string(self.header.table_size_entries() as u64);
                s.append(t.as_str());
                s.append(" entry, ");
                let p = u64_to_string(self.header.pointer_length() as u64);
                s.append(p.as_str());
                s.append("-byte hash-table entries and heap of ");
                let hs = u64_to_string(self.header.heap_size() as u64);
                s.append(hs.as_str());
                s.append(" bytes");
                self.failure_reason = s;
                self.image = Some(writer.into_image());
                Ok(true)
            },
        }
    }

    /// The image of the last successful attempt, if one finished.
    pub fn image(&self) -> (r: &Option<Vec<u8>>)
        ensures
            *r == self.image,
    {
        &self.image
    }
}

} // verus!
