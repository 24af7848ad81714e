//! Block-device I/O counters, as the kernel reports them in `/sys/block/<dev>/stat`.
use vstd::prelude::*;

use crate::log_prefix::LogPrefix;
use crate::text::{chars_of, is_whitespace, parse_u64, parse_u64_or_zero, scan_words, words};

verus! {

/// The number of counters that a `BlockStats` holds.
pub const STAT_FIELDS: usize = 17;

/// The counters of one block device, in the order of the kernel's stat file
/// (see `block/genhd.c`); all of them are kept as `u64`.
#[derive(Clone, Copy, PartialEq, Eq, Structural, PartialOrd, Debug)]
pub struct BlockStats {
    pub read_io: u64,
    pub read_merges: u64,
    pub read_sectors: u64,
    pub read_ticks: u64,
    pub write_io: u64,
    pub write_merges: u64,
    pub write_sectors: u64,
    pub write_ticks: u64,
    pub in_flight: u64,
    pub io_ticks: u64,
    pub time_in_queue: u64,
    pub discard_io: u64,
    pub discard_merges: u64,
    pub discard_sectors: u64,
    pub discard_ticks: u64,
    pub flush_io: u64,
    pub flush_ticks: u64,
}

impl View for BlockStats {
    type V = Seq<u64>;

    /// The counters in stat-file order.
    open spec fn view(&self) -> Seq<u64> {
        Seq::new(17, |k: int| self.field(k))
    }
}

/// The counters after reading the words `ws` of a stat file over `old`:
/// counter `k` takes the value of word `k` (zero where the word is not a
/// number), and counters beyond the last word keep their value.
pub open spec fn parse_into(old: Seq<u64>, ws: Seq<Seq<char>>) -> Seq<u64> {
    Seq::new(17, |k: int| if k < ws.len() { parse_u64_or_zero(ws[k]) } else { old[k] })
}

/// Seventeen zero counters.
pub open spec fn zero_fields() -> Seq<u64> {
    Seq::new(17, |k: int| 0u64)
}

impl BlockStats {
    /// Counter `k`, in stat-file order.
    pub open spec fn field(self, k: int) -> u64 {
        if k == 0 {
            self.read_io
        } else if k == 1 {
            self.read_merges
        } else if k == 2 {
            self.read_sectors
        } else if k == 3 {
            self.read_ticks
        } else if k == 4 {
            self.write_io
        } else if k == 5 {
            self.write_merges
        } else if k == 6 {
            self.write_sectors
        } else if k == 7 {
            self.write_ticks
        } else if k == 8 {
            self.in_flight
        } else if k == 9 {
            self.io_ticks
        } else if k == 10 {
            self.time_in_queue
        } else if k == 11 {
            self.discard_io
        } else if k == 12 {
            self.discard_merges
        } else if k == 13 {
            self.discard_sectors
        } else if k == 14 {
            self.discard_ticks
        } else if k == 15 {
            self.flush_io
        } else {
            self.flush_ticks
        }
    }

    /// The counters whose value at `k` is `f(k)`.
    pub open spec fn from_fields(f: spec_fn(int) -> u64) -> BlockStats {
        BlockStats {
            read_io: f(0),
            read_merges: f(1),
            read_sectors: f(2),
            read_ticks: f(3),
            write_io: f(4),
            write_merges: f(5),
            write_sectors: f(6),
            write_ticks: f(7),
            in_flight: f(8),
            io_ticks: f(9),
            time_in_queue: f(10),
            discard_io: f(11),
            discard_merges: f(12),
            discard_sectors: f(13),
            discard_ticks: f(14),
            flush_io: f(15),
            flush_ticks: f(16),
        }
    }

    /// All counters zero.
    pub open spec fn zero_stats() -> BlockStats {
        BlockStats::from_fields(|k: int| 0u64)
    }

    /// The counters whose view is `s`.
    pub open spec fn with_view(s: Seq<u64>) -> BlockStats {
        BlockStats::from_fields(|k: int| s[k])
    }

    /// The view of the counters built from a view of seventeen values is
    /// that view.
    pub proof fn lemma_view_of_with_view(s: Seq<u64>)
        requires
            s.len() == 17,
        ensures
            BlockStats::with_view(s)@ == s,
    {
        assert(BlockStats::with_view(s)@ =~= s);
    }

    /// The counters are determined by their view.
    pub proof fn lemma_with_view(b: BlockStats)
        ensures
            BlockStats::with_view(b@) == b,
    {
        BlockStats::lemma_fields(b);
    }

    /// Every counter of `self` is at least the one of `other`.
    pub open spec fn covers(self, other: BlockStats) -> bool {
        forall|k: int| 0 <= k < 17 ==> other.field(k) <= #[trigger] self.field(k)
    }

    /// Adding `other` counter by counter stays within `u64`.
    pub open spec fn sum_fits(self, other: BlockStats) -> bool {
        forall|k: int| 0 <= k < 17 ==> #[trigger] self.field(k) + other.field(k) <= u64::MAX
    }

    /// The counter-by-counter difference (meaningful where `self.covers(other)`).
    pub open spec fn minus(self, other: BlockStats) -> BlockStats {
        BlockStats::from_fields(|k: int| (self.field(k) - other.field(k)) as u64)
    }

    /// The counter-by-counter sum (meaningful where `self.sum_fits(other)`).
    pub open spec fn plus(self, other: BlockStats) -> BlockStats {
        BlockStats::from_fields(|k: int| (self.field(k) + other.field(k)) as u64)
    }

    /// Names each counter by its index.
    pub proof fn lemma_fields(s: BlockStats)
        ensures
            s.field(0) == s.read_io,
            s.field(1) == s.read_merges,
            s.field(2) == s.read_sectors,
            s.field(3) == s.read_ticks,
            s.field(4) == s.write_io,
            s.field(5) == s.write_merges,
            s.field(6) == s.write_sectors,
            s.field(7) == s.write_ticks,
            s.field(8) == s.in_flight,
            s.field(9) == s.io_ticks,
            s.field(10) == s.time_in_queue,
            s.field(11) == s.discard_io,
            s.field(12) == s.discard_merges,
            s.field(13) == s.discard_sectors,
            s.field(14) == s.discard_ticks,
            s.field(15) == s.flush_io,
            s.field(16) == s.flush_ticks,
    {
    }

    /// All counters zero.
    pub(crate) fn zero() -> (r: BlockStats)
        ensures
            r@ == zero_fields(),
            r == BlockStats::zero_stats(),
    {
        let r = BlockStats {
            read_io: 0,
            read_merges: 0,
            read_sectors: 0,
            read_ticks: 0,
            write_io: 0,
            write_merges: 0,
            write_sectors: 0,
            write_ticks: 0,
            in_flight: 0,
            io_ticks: 0,
            time_in_queue: 0,
            discard_io: 0,
            discard_merges: 0,
            discard_sectors: 0,
            discard_ticks: 0,
            flush_io: 0,
            flush_ticks: 0,
        };
        assert(r@ =~= zero_fields());
        r
    }

    /// The counters read from the text of a stat file: counter `k` is the
    /// `k`-th whitespace-separated word of `contents` (zero where that word is
    /// not a number, or where there is no such word).
    pub fn new(contents: &str) -> (r: Self)
        ensures
            r@ == parse_into(zero_fields(), words(contents@)),
            r == BlockStats::with_view(parse_into(zero_fields(), words(contents@))),
    {
        let mut r = BlockStats::zero();
        r.get_current_stats(contents);
        proof {
            BlockStats::lemma_with_view(r);
        }
        r
    }

    /// Sets counter `k` to `v`.
    fn set_field(&mut self, k: usize, v: u64)
        requires
            k < 17,
        ensures
            final(self)@ == old(self)@.update(k as int, v),
    {
        if k == 0 {
            self.read_io = v;
        } else if k == 1 {
            self.read_merges = v;
        } else if k == 2 {
            self.read_sectors = v;
        } else if k == 3 {
            self.read_ticks = v;
        } else if k == 4 {
            self.write_io = v;
        } else if k == 5 {
            self.write_merges = v;
        } else if k == 6 {
            self.write_sectors = v;
        } else if k == 7 {
            self.write_ticks = v;
        } else if k == 8 {
            self.in_flight = v;
        } else if k == 9 {
            self.io_ticks = v;
        } else if k == 10 {
            self.time_in_queue = v;
        } else if k == 11 {
            self.discard_io = v;
        } else if k == 12 {
            self.discard_merges = v;
        } else if k == 13 {
            self.discard_sectors = v;
        } else if k == 14 {
            self.discard_ticks = v;
        } else if k == 15 {
            self.flush_io = v;
        } else {
            self.flush_ticks = v;
        }
        assert(final(self)@ =~= old(self)@.update(k as int, v));
    }

    /// Reads the text of a stat file into the counters: counter `k` takes the
    /// value of the `k`-th whitespace-separated word (zero where that word is
    /// not a number); counters beyond the last word keep their value, and
    /// words beyond the seventeenth are ignored.
    pub fn get_current_stats(&mut self, contents: &str)
        ensures
            final(self)@ == parse_into(old(self)@, words(contents@)),
    {
        let cs = chars_of(contents);
        let n = cs.len();
        let mut cur: Vec<char> = Vec::new();
        let mut n_done: usize = 0;
        let ghost start = self@;
        assert(cs@.take(0) =~= Seq::<char>::empty());
        assert(parse_into(start, Seq::empty()) =~= start);
        let mut i: usize = 0;
        while i < n
            invariant
                i <= n == cs@.len(),
                cs@ == contents@,
                n_done <= i,
                cur@ == scan_words(cs@.take(i as int)).1,
                n_done == scan_words(cs@.take(i as int)).0.len(),
                self@ == parse_into(start, scan_words(cs@.take(i as int)).0),
            decreases n - i,
        {
            let c = cs[i];
            let ghost before = scan_words(cs@.take(i as int));
            assert(cs@.take(i + 1).drop_last() =~= cs@.take(i as int));
            assert(cs@.take(i + 1).last() == c);
            if is_whitespace(c) {
                if cur.len() > 0 {
                    self.finish_word(&cur, n_done, Ghost(start), Ghost(before.0));
                    n_done = n_done + 1;
                    cur.clear();
                }
            } else {
                cur.push(c);
            }
            i = i + 1;
        }
        assert(cs@.take(n as int) =~= cs@);
        if cur.len() > 0 {
            let ghost before = scan_words(cs@);
            self.finish_word(&cur, n_done, Ghost(start), Ghost(before.0));
        }
    }

    /// Records a completed word: it sets counter `n_done` when that is one of
    /// the seventeen.
    fn finish_word(
        &mut self,
        word: &Vec<char>,
        n_done: usize,
        Ghost(start): Ghost<Seq<u64>>,
        Ghost(done): Ghost<Seq<Seq<char>>>,
    )
        requires
            n_done == done.len(),
            old(self)@ == parse_into(start, done),
        ensures
            final(self)@ == parse_into(start, done.push(word@)),
    {
        if n_done < STAT_FIELDS {
            let v = match parse_u64(word.as_slice()) {
                Ok(v) => v,
                Err(_) => 0,
            };
            self.set_field(n_done, v);
        }
        assert(self@ =~= parse_into(start, done.push(word@)));
    }

    /// Counter `k`.
    fn get_field(&self, k: usize) -> (r: u64)
        requires
            k < 17,
        ensures
            r == self.field(k as int),
    {
        if k == 0 {
            self.read_io
        } else if k == 1 {
            self.read_merges
        } else if k == 2 {
            self.read_sectors
        } else if k == 3 {
            self.read_ticks
        } else if k == 4 {
            self.write_io
        } else if k == 5 {
            self.write_merges
        } else if k == 6 {
            self.write_sectors
        } else if k == 7 {
            self.write_ticks
        } else if k == 8 {
            self.in_flight
        } else if k == 9 {
            self.io_ticks
        } else if k == 10 {
            self.time_in_queue
        } else if k == 11 {
            self.discard_io
        } else if k == 12 {
            self.discard_merges
        } else if k == 13 {
            self.discard_sectors
        } else if k == 14 {
            self.discard_ticks
        } else if k == 15 {
            self.flush_io
        } else {
            self.flush_ticks
        }
    }

    /// Whether every counter is at least the one of `other` (so that
    /// `self - other` is defined).
    pub fn dominates(&self, other: &BlockStats) -> (r: bool)
        ensures
            r == self.covers(*other),
    {
        let mut k: usize = 0;
        while k < STAT_FIELDS
            invariant
                k <= 17,
                forall|j: int| 0 <= j < k ==> other.field(j) <= #[trigger] self.field(j),
            decreases 17 - k,
        {
            if self.get_field(k) < other.get_field(k) {
                return false;
            }
            k = k + 1;
        }
        true
    }

    /// Whether adding `other` counter by counter stays within `u64`.
    pub fn can_add(&self, other: &BlockStats) -> (r: bool)
        ensures
            r == self.sum_fits(*other),
    {
        let mut k: usize = 0;
        while k < STAT_FIELDS
            invariant
                k <= 17,
                forall|j: int| 0 <= j < k ==> #[trigger] self.field(j) + other.field(j) <= u64::MAX,
            decreases 17 - k,
        {
            if self.get_field(k) > u64::MAX - other.get_field(k) {
                return false;
            }
            k = k + 1;
        }
        true
    }

    /// Adds the difference `current_stats - prev_stats` to these counters.
    pub fn accumulate_stats(&mut self, current_stats: BlockStats, prev_stats: BlockStats)
        requires
            current_stats.covers(prev_stats),
            old(self).sum_fits(current_stats.minus(prev_stats)),
        ensures
            *final(self) == old(self).plus(current_stats.minus(prev_stats)),
    {
        let diff = current_stats - prev_stats;
        self.add_assign(diff);
    }

    /// Adds `rhs` counter by counter.
    pub fn add_assign(&mut self, rhs: Self)
        requires
            old(self).sum_fits(rhs),
        ensures
            *final(self) == old(self).plus(rhs),
    {
        proof {
            BlockStats::lemma_fields(*self);
            BlockStats::lemma_fields(rhs);
        }
        *self = Self {
            read_io: self.read_io + rhs.read_io,
            read_merges: self.read_merges + rhs.read_merges,
            read_sectors: self.read_sectors + rhs.read_sectors,
            read_ticks: self.read_ticks + rhs.read_ticks,
            write_io: self.write_io + rhs.write_io,
            write_merges: self.write_merges + rhs.write_merges,
            write_sectors: self.write_sectors + rhs.write_sectors,
            write_ticks: self.write_ticks + rhs.write_ticks,
            in_flight: self.in_flight + rhs.in_flight,
            io_ticks: self.io_ticks + rhs.io_ticks,
            time_in_queue: self.time_in_queue + rhs.time_in_queue,
            discard_io: self.discard_io + rhs.discard_io,
            discard_merges: self.discard_merges + rhs.discard_merges,
            discard_sectors: self.discard_sectors + rhs.discard_sectors,
            discard_ticks: self.discard_ticks + rhs.discard_ticks,
            flush_io: self.flush_io + rhs.flush_io,
            flush_ticks: self.flush_ticks + rhs.flush_ticks,
        };
    }
}

impl BlockStats {
    /// Accumulating the increments of successive readings adds up to the
    /// increment from the first reading to the last: adding `c1 - p` and then
    /// `c2 - c1` to stored counters gives what adding `c2 - p` at once gives.
    pub proof fn lemma_accumulation_telescopes(
        s: BlockStats,
        p: BlockStats,
        c1: BlockStats,
        c2: BlockStats,
    )
        requires
            c1.covers(p),
            c2.covers(c1),
            s.sum_fits(c1.minus(p)),
            s.plus(c1.minus(p)).sum_fits(c2.minus(c1)),
        ensures
            c2.covers(p),
            s.sum_fits(c2.minus(p)),
            s.plus(c1.minus(p)).plus(c2.minus(c1)) == s.plus(c2.minus(p)),
    {
        let a = s.plus(c1.minus(p));
        let lhs = a.plus(c2.minus(c1));
        let rhs = s.plus(c2.minus(p));
        assert forall|k: int| 0 <= k < 17 implies #[trigger] lhs.field(k) == rhs.field(k)
            && p.field(k) <= c2.field(k) && s.field(k) + c2.minus(p).field(k) <= u64::MAX by {
            assert(c1.minus(p).field(k) == c1.field(k) - p.field(k));
            assert(c2.minus(c1).field(k) == c2.field(k) - c1.field(k));
            assert(c2.minus(p).field(k) == c2.field(k) - p.field(k));
            assert(a.field(k) == s.field(k) + c1.minus(p).field(k));
            assert(lhs.field(k) == a.field(k) + c2.minus(c1).field(k));
            assert(rhs.field(k) == s.field(k) + c2.minus(p).field(k));
        }
        BlockStats::lemma_fields(lhs);
        BlockStats::lemma_fields(rhs);
    }

    /// Adding the difference from a base back to the base gives the reading:
    /// `p + (c - p) == c`.
    pub proof fn lemma_difference_restores(p: BlockStats, c: BlockStats)
        requires
            c.covers(p),
        ensures
            p.sum_fits(c.minus(p)),
            p.plus(c.minus(p)) == c,
    {
        let r = p.plus(c.minus(p));
        assert forall|k: int| 0 <= k < 17 implies #[trigger] r.field(k) == c.field(k)
            && p.field(k) + c.minus(p).field(k) <= u64::MAX by {
            assert(c.minus(p).field(k) == c.field(k) - p.field(k));
            assert(r.field(k) == p.field(k) + c.minus(p).field(k));
        }
        BlockStats::lemma_fields(r);
        BlockStats::lemma_fields(c);
    }
}

impl Default for BlockStats {
    fn default() -> (r: Self)
        ensures
            r@ == zero_fields(),
    {
        BlockStats::zero()
    }
}

impl core::ops::Sub for BlockStats {
    type Output = BlockStats;

    fn sub(self, rhs: Self) -> (r: Self) {
        proof {
            BlockStats::lemma_fields(self);
            BlockStats::lemma_fields(rhs);
        }
        Self {
            read_io: self.read_io - rhs.read_io,
            read_merges: self.read_merges - rhs.read_merges,
            read_sectors: self.read_sectors - rhs.read_sectors,
            read_ticks: self.read_ticks - rhs.read_ticks,
            write_io: self.write_io - rhs.write_io,
            write_merges: self.write_merges - rhs.write_merges,
            write_sectors: self.write_sectors - rhs.write_sectors,
            write_ticks: self.write_ticks - rhs.write_ticks,
            in_flight: self.in_flight - rhs.in_flight,
            io_ticks: self.io_ticks - rhs.io_ticks,
            time_in_queue: self.time_in_queue - rhs.time_in_queue,
            discard_io: self.discard_io - rhs.discard_io,
            discard_merges: self.discard_merges - rhs.discard_merges,
            discard_sectors: self.discard_sectors - rhs.discard_sectors,
            discard_ticks: self.discard_ticks - rhs.discard_ticks,
            flush_io: self.flush_io - rhs.flush_io,
            flush_ticks: self.flush_ticks - rhs.flush_ticks,
        }
    }
}

impl vstd::std_specs::ops::SubSpecImpl for BlockStats {
    open spec fn obeys_sub_spec() -> bool {
        true
    }

    open spec fn sub_req(self, rhs: Self) -> bool {
        self.covers(rhs)
    }

    open spec fn sub_spec(self, rhs: Self) -> Self {
        self.minus(rhs)
    }
}

impl LogPrefix for BlockStats {
    open spec fn prefix_spec(&self) -> Seq<char> {
        "BlockStats: "@
    }

    fn log_prefix(&self) -> (r: String) {
        String::from_str("BlockStats: ")
    }
}

} // verus!
