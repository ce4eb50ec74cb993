//! The timestamped price store: nine-byte binary messages are decoded into
//! insert or query commands, and a query answers with the mean of the prices
//! whose timestamps fall in the requested closed interval.

use vstd::prelude::*;
use vstd::arithmetic::div_mod::{lemma_div_by_multiple, lemma_div_is_ordered};

verus! {

/// The unsigned big-endian value of four bytes.
pub open spec fn be_u32(b: Seq<u8>) -> int
    recommends
        b.len() == 4,
{
    b[0] * 0x100_0000 + b[1] * 0x1_0000 + b[2] * 0x100 + b[3]
}

/// The two's-complement big-endian value of four bytes.
pub open spec fn be_i32(b: Seq<u8>) -> int
    recommends
        b.len() == 4,
{
    if be_u32(b) < 0x8000_0000 {
        be_u32(b)
    } else {
        be_u32(b) - 0x1_0000_0000
    }
}

/// One decoded wire message: an insertion, a range query, or neither.
#[derive(Clone, Copy, PartialEq, Eq, Structural, Debug)]
pub enum Message {
    Insert { price: i32, timestamp: i32 },
    Query { mintime: i32, maxtime: i32 },
    Invalid,
}

/// The message a nine-byte frame stands for: `I` opens an insert, `Q` a
/// query, and anything else is invalid.
pub open spec fn spec_cast(b: Seq<u8>) -> Message
    recommends
        b.len() == 9,
{
    if b[0] == 73 {
        Message::Insert {
            timestamp: be_i32(b.subrange(1, 5)) as i32,
            price: be_i32(b.subrange(5, 9)) as i32,
        }
    } else if b[0] == 81 {
        Message::Query {
            mintime: be_i32(b.subrange(1, 5)) as i32,
            maxtime: be_i32(b.subrange(5, 9)) as i32,
        }
    } else {
        Message::Invalid
    }
}

impl Message {
    /// Decodes a nine-byte frame into a message.
    pub fn cast(bytes: [u8; 9]) -> (r: Message)
        ensures
            r == spec_cast(bytes@),
    {
        let s = bytes.as_slice();
        match s[0] {
            73 => Message::Insert {
                timestamp: Self::parse_int(&s[1..5]),
                price: Self::parse_int(&s[5..9]),
            },
            81 => Message::Query {
                mintime: Self::parse_int(&s[1..5]),
                maxtime: Self::parse_int(&s[5..9]),
            },
            _ => Message::Invalid,
        }
    }

    /// Reads four bytes as a big-endian two's-complement integer.
    pub fn parse_int(bytes: &[u8]) -> (r: i32)
        requires
            bytes@.len() == 4,
        ensures
            r as int == be_i32(bytes@),
    {
        let v: i64 = (bytes[0] as i64) * 0x100_0000 + (bytes[1] as i64) * 0x1_0000
            + (bytes[2] as i64) * 0x100 + (bytes[3] as i64);
        let w: i64 = if v >= 0x8000_0000 {
            v - 0x1_0000_0000
        } else {
            v
        };
        w as i32
    }
}

/// Whether an entry's timestamp lies in the closed interval `[lo, hi]`.
pub open spec fn in_range(e: (i32, i32), lo: i32, hi: i32) -> bool {
    lo <= e.0 <= hi
}

/// The sum of the prices of the entries whose timestamps lie in `[lo, hi]`.
pub open spec fn range_sum(s: Seq<(i32, i32)>, lo: i32, hi: i32) -> int
    decreases s.len(),
{
    if s.len() == 0 {
        0
    } else {
        range_sum(s.drop_last(), lo, hi) + if in_range(s.last(), lo, hi) {
            s.last().1 as int
        } else {
            0
        }
    }
}

/// How many entries have a timestamp in `[lo, hi]`.
pub open spec fn range_count(s: Seq<(i32, i32)>, lo: i32, hi: i32) -> int
    decreases s.len(),
{
    if s.len() == 0 {
        0
    } else {
        range_count(s.drop_last(), lo, hi) + if in_range(s.last(), lo, hi) {
            1int
        } else {
            0
        }
    }
}

/// The mean of a sum over a count, rounded toward zero; zero when the
/// count is zero.
pub open spec fn spec_mean(sum: int, count: int) -> int {
    if count <= 0 {
        0
    } else if sum >= 0 {
        sum / count
    } else {
        -((-sum) / count)
    }
}

/// The store after setting `t` to `p`: the one entry already carrying
/// timestamp `t` is overwritten, or a new entry is appended.
pub open spec fn spec_upsert(s: Seq<(i32, i32)>, t: i32, p: i32) -> Seq<(i32, i32)> {
    if exists|i: int| 0 <= i < s.len() && (#[trigger] s[i]).0 == t {
        s.update(choose|i: int| 0 <= i < s.len() && (#[trigger] s[i]).0 == t, (t, p))
    } else {
        s.push((t, p))
    }
}

/// Each timestamp appears at most once.
pub open spec fn unique_timestamps(s: Seq<(i32, i32)>) -> bool {
    forall|i: int, j: int|
        0 <= i < j < s.len() ==> (#[trigger] s[i]).0 != (#[trigger] s[j]).0
}

/// One connection's store of prices, keyed by timestamp.
pub struct PriceDb {
    entries: Vec<(i32, i32)>,
}

impl View for PriceDb {
    type V = Seq<(i32, i32)>;

    closed spec fn view(&self) -> Seq<(i32, i32)> {
        self.entries@
    }
}

impl PriceDb {
    /// Whether every timestamp appears at most once.
    pub open spec fn wf(&self) -> bool {
        unique_timestamps(self@)
    }

    /// An empty store.
    pub fn new() -> (r: PriceDb)
        ensures
            r@ == Seq::<(i32, i32)>::empty(),
            r.wf(),
    {
        PriceDb { entries: Vec::new() }
    }

    /// Records `price` at `timestamp`, overwriting a previous price at the
    /// same timestamp.
    pub fn insert(&mut self, timestamp: i32, price: i32)
        requires
            old(self).wf(),
        ensures
            final(self)@ == spec_upsert(old(self)@, timestamp, price),
            final(self).wf(),
    {
        let n = self.entries.len();
        let mut i: usize = 0;
        while i < n
            invariant
                self.entries@ == old(self)@,
                n == self.entries.len(),
                0 <= i <= n,
                unique_timestamps(self.entries@),
                forall|j: int| 0 <= j < i ==> (#[trigger] self.entries@[j]).0 != timestamp,
            decreases n - i,
        {
            if self.entries[i].0 == timestamp {
                self.entries[i] = (timestamp, price);
                proof {
                    let s0 = old(self)@;
                    assert(0 <= i < s0.len() && s0[i as int].0 == timestamp);
                    let k = choose|k: int|
                        0 <= k < s0.len() && (#[trigger] s0[k]).0 == timestamp;
                    assert(s0[k].0 == timestamp);
                    if k < i as int {
                        assert(s0[k].0 != s0[i as int].0);
                    } else if k > i as int {
                        assert(s0[i as int].0 != s0[k].0);
                    }
                    assert(k == i as int);
                }
                return ;
            }
            i = i + 1;
        }
        proof {
            let s0 = old(self)@;
            if exists|k: int| 0 <= k < s0.len() && (#[trigger] s0[k]).0 == timestamp {
                let k = choose|k: int| 0 <= k < s0.len() && (#[trigger] s0[k]).0 == timestamp;
                assert(s0[k].0 != timestamp);
            }
        }
        self.entries.push((timestamp, price));
    }

    /// Answers a range query with the truncated mean of the prices whose
    /// timestamps lie in `[mintime, maxtime]`; zero when the interval holds
    /// none, in particular whenever `mintime > maxtime`.
    pub fn query(&self, mintime: i32, maxtime: i32) -> (mean: i32)
        ensures
            mean as int == spec_mean(
                range_sum(self@, mintime, maxtime),
                range_count(self@, mintime, maxtime),
            ),
    {
        let n = self.entries.len();
        let mut sum: i128 = 0;
        let mut count: u64 = 0;
        let mut i: usize = 0;
        while i < n
            invariant
                n == self.entries.len(),
                0 <= i <= n,
                count <= i,
                sum == range_sum(self.entries@.subrange(0, i as int), mintime, maxtime),
                count == range_count(self.entries@.subrange(0, i as int), mintime, maxtime),
                -(count as int) * 0x8000_0000 <= sum <= (count as int) * 0x7FFF_FFFF,
            decreases n - i,
        {
            let (t, p) = self.entries[i];
            proof {
                let pre = self.entries@.subrange(0, i as int);
                let post = self.entries@.subrange(0, i as int + 1);
                assert(post.drop_last() =~= pre);
                assert(post.last() == self.entries@[i as int]);
            }
            if mintime <= t && t <= maxtime {
                proof {
                    assert(-(count as int + 1) * 0x8000_0000 == -(count as int) * 0x8000_0000
                        - 0x8000_0000);
                    assert((count as int + 1) * 0x7FFF_FFFF == (count as int) * 0x7FFF_FFFF
                        + 0x7FFF_FFFF);
                }
                sum = sum + (p as i128);
                count = count + 1;
            }
            i = i + 1;
        }
        proof {
            assert(self.entries@.subrange(0, n as int) =~= self.entries@);
        }
        if count == 0 {
            return 0;
        }
        let mean64: i64 = if sum >= 0 {
            proof {
                lemma_div_is_ordered(sum as int, (count as int) * 0x7FFF_FFFF, count as int);
                lemma_div_by_multiple(0x7FFF_FFFF, count as int);
                assert((count as int) * 0x7FFF_FFFF == 0x7FFF_FFFF * (count as int));
            }
            let q: u128 = (sum as u128) / (count as u128);
            q as i64
        } else {
            proof {
                lemma_div_is_ordered(-(sum as int), (count as int) * 0x8000_0000, count as int);
                lemma_div_by_multiple(0x8000_0000, count as int);
                assert((count as int) * 0x8000_0000 == 0x8000_0000 * (count as int));
            }
            let q: u128 = ((-sum) as u128) / (count as u128);
            -(q as i64)
        };
        mean64 as i32
    }
}

} // verus!
