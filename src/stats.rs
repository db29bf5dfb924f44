use vstd::prelude::*;

verus! {

/// Counters of the tile cache's work, which only ever grow.
#[derive(Debug, Clone, Copy, PartialEq, Eq, Structural)]
pub struct TileStats {
    pub cache_hits: u64,
    pub cache_misses: u64,
    pub served_count: u64,
    pub served_nanos_total: u64,
}

/// `a + b`, held at `u64::MAX`.
pub open spec fn sat_add(a: u64, b: u64) -> u64 {
    if a + b > u64::MAX {
        u64::MAX
    } else {
        (a + b) as u64
    }
}

impl TileStats {
    /// All counters at zero.
    pub fn new() -> (r: Self)
        ensures
            r == (TileStats { cache_hits: 0, cache_misses: 0, served_count: 0, served_nanos_total: 0 }),
    {
        TileStats { cache_hits: 0, cache_misses: 0, served_count: 0, served_nanos_total: 0 }
    }

    /// Counts one cache lookup: a hit when the tile was there, else a miss.
    pub fn record_lookup(&mut self, hit: bool)
        ensures
            final(self).cache_hits == if hit {
                sat_add(old(self).cache_hits, 1)
            } else {
                old(self).cache_hits
            },
            final(self).cache_misses == if hit {
                old(self).cache_misses
            } else {
                sat_add(old(self).cache_misses, 1)
            },
            final(self).served_count == old(self).served_count,
            final(self).served_nanos_total == old(self).served_nanos_total,
    {
        if hit {
            self.cache_hits = self.cache_hits.saturating_add(1);
        } else {
            self.cache_misses = self.cache_misses.saturating_add(1);
        }
    }

    /// Counts one tile served, which took `nanos` nanoseconds.
    pub fn record_served(&mut self, nanos: u64)
        ensures
            final(self).served_count == sat_add(old(self).served_count, 1),
            final(self).served_nanos_total == sat_add(old(self).served_nanos_total, nanos),
            final(self).cache_hits == old(self).cache_hits,
            final(self).cache_misses == old(self).cache_misses,
    {
        self.served_count = self.served_count.saturating_add(1);
        self.served_nanos_total = self.served_nanos_total.saturating_add(nanos);
    }
}

/// How the number of cached tiles moved since the last frame.
#[derive(Debug, Clone, Copy, PartialEq, Eq, Structural)]
pub enum Growth {
    Growing(u64),
    Shrinking(u64),
    Stable,
}

/// What the live dashboard shows once a second, beside the ratios that the
/// caller draws from the same counters.
#[derive(Debug, Clone, Copy, PartialEq, Eq, Structural)]
pub struct DashboardFrame {
    pub cache_size: u64,
    pub max_cache: u64,
    pub growth: Growth,
    /// The cache is over 90% full while under 70% of lookups hit.
    pub ram_recommend: bool,
}

/// More RAM is recommended when the cache is over 90% full while under 70% of
/// lookups hit (an unused cache counts as all hits, an unbounded one as empty).
pub open spec fn recommend_ram(cache_size: u64, max_cache: u64, hits: u64, misses: u64) -> bool {
    &&& max_cache > 0
    &&& 10 * cache_size > 9 * max_cache
    &&& hits + misses > 0
    &&& 10 * hits < 7 * (hits + misses)
}

/// The next frame of the dashboard, from the cache size shown in the last frame
/// and the present counters.
pub fn dashboard_frame(prev_cache_size: u64, cache_size: u64, max_cache: u64, hits: u64, misses: u64) -> (r: DashboardFrame)
    ensures
        r.cache_size == cache_size,
        r.max_cache == max_cache,
        r.growth == if cache_size > prev_cache_size {
            Growth::Growing((cache_size - prev_cache_size) as u64)
        } else if cache_size < prev_cache_size {
            Growth::Shrinking((prev_cache_size - cache_size) as u64)
        } else {
            Growth::Stable
        },
        r.ram_recommend == recommend_ram(cache_size, max_cache, hits, misses),
{
    let growth = if cache_size > prev_cache_size {
        Growth::Growing(cache_size - prev_cache_size)
    } else if cache_size < prev_cache_size {
        Growth::Shrinking(prev_cache_size - cache_size)
    } else {
        Growth::Stable
    };
    let total = hits as u128 + misses as u128;
    let ram_recommend = max_cache > 0 && 10 * (cache_size as u128) > 9 * (max_cache as u128) && total > 0
        && 10 * (hits as u128) < 7 * total;
    DashboardFrame { cache_size, max_cache, growth, ram_recommend }
}

} // verus!
