use vstd::prelude::*;

use crate::eviction_policy::EvictionPolicy;

verus! {

/// Why a cache could not be built from its configuration. Construction fails
/// fast on a zero-sized routing unit instead of silently clamping it.
#[derive(Debug, Clone, Copy, PartialEq, Eq, Structural)]
pub enum ConfigError {
    /// `num_of_segments` (or `num_of_buckets` in the flat topology) is zero.
    ZeroRoutingUnits,
    /// `num_of_normal_buckets` is zero.
    ZeroNormalBuckets,
    /// `num_of_stash_buckets` is zero.
    ZeroStashBuckets,
    /// `bucket_size` is zero.
    ZeroBucketSize,
}

/// Configuration of the two-level segmented cache.
#[derive(Debug, Clone, Copy)]
pub struct DashSettings {
    pub num_of_segments: usize,
    pub num_of_normal_buckets: usize,
    pub num_of_stash_buckets: usize,
    pub bucket_size: usize,
    pub eviction_policy: EvictionPolicy,
    pub debug_mode: usize,
}

impl DashSettings {
    /// A configuration is usable iff every routing unit has at least one slot.
    pub open spec fn wf(&self) -> bool {
        &&& self.num_of_segments >= 1
        &&& self.num_of_normal_buckets >= 1
        &&& self.num_of_stash_buckets >= 1
        &&& self.bucket_size >= 1
    }

    /// Fail-fast validation: succeeds exactly on usable configurations and
    /// names the first zero-sized unit otherwise.
    pub fn validate(&self) -> (r: Result<(), ConfigError>)
        ensures
            r is Ok <==> self.wf(),
            self.num_of_segments == 0 ==> r == Err::<(), ConfigError>(
                ConfigError::ZeroRoutingUnits,
            ),
            self.num_of_segments >= 1 && self.num_of_normal_buckets == 0 ==> r == Err::<
                (),
                ConfigError,
            >(ConfigError::ZeroNormalBuckets),
            self.num_of_segments >= 1 && self.num_of_normal_buckets >= 1
                && self.num_of_stash_buckets == 0 ==> r == Err::<(), ConfigError>(
                ConfigError::ZeroStashBuckets,
            ),
            self.num_of_segments >= 1 && self.num_of_normal_buckets >= 1
                && self.num_of_stash_buckets >= 1 && self.bucket_size == 0 ==> r == Err::<
                (),
                ConfigError,
            >(ConfigError::ZeroBucketSize),
    {
        if self.num_of_segments == 0 {
            Err(ConfigError::ZeroRoutingUnits)
        } else if self.num_of_normal_buckets == 0 {
            Err(ConfigError::ZeroNormalBuckets)
        } else if self.num_of_stash_buckets == 0 {
            Err(ConfigError::ZeroStashBuckets)
        } else if self.bucket_size == 0 {
            Err(ConfigError::ZeroBucketSize)
        } else {
            Ok(())
        }
    }
}

impl Default for DashSettings {
    /// One segment of 28 primary and 4 stash buckets of 16 entries each,
    /// under the classic LRU policy.
    fn default() -> (r: Self)
        ensures
            r == (DashSettings {
                num_of_segments: 1,
                num_of_normal_buckets: 28,
                num_of_stash_buckets: 4,
                bucket_size: 16,
                eviction_policy: EvictionPolicy::ClassicLRU,
                debug_mode: 1,
            }),
            r.wf(),
    {
        DashSettings {
            num_of_segments: 1,
            num_of_normal_buckets: 28,
            num_of_stash_buckets: 4,
            bucket_size: 16,
            eviction_policy: EvictionPolicy::ClassicLRU,
            debug_mode: 1,
        }
    }
}

/// Configuration of the flat single-level cache.
#[derive(Debug, Clone, Copy)]
pub struct AssociativeCacheSettings {
    pub num_of_buckets: usize,
    pub bucket_size: usize,
    pub eviction_policy: EvictionPolicy,
}

impl AssociativeCacheSettings {
    /// A configuration is usable iff every routing unit has at least one slot.
    pub open spec fn wf(&self) -> bool {
        &&& self.num_of_buckets >= 1
        &&& self.bucket_size >= 1
    }

    /// Fail-fast validation: succeeds exactly on usable configurations and
    /// names the first zero-sized unit otherwise.
    pub fn validate(&self) -> (r: Result<(), ConfigError>)
        ensures
            r is Ok <==> self.wf(),
            self.num_of_buckets == 0 ==> r == Err::<(), ConfigError>(
                ConfigError::ZeroRoutingUnits,
            ),
            self.num_of_buckets >= 1 && self.bucket_size == 0 ==> r == Err::<(), ConfigError>(
                ConfigError::ZeroBucketSize,
            ),
    {
        if self.num_of_buckets == 0 {
            Err(ConfigError::ZeroRoutingUnits)
        } else if self.bucket_size == 0 {
            Err(ConfigError::ZeroBucketSize)
        } else {
            Ok(())
        }
    }
}

impl Default for AssociativeCacheSettings {
    /// A single bucket of 8 entries under the classic LRU policy.
    fn default() -> (r: Self)
        ensures
            r == (AssociativeCacheSettings {
                num_of_buckets: 1,
                bucket_size: 8,
                eviction_policy: EvictionPolicy::ClassicLRU,
            }),
            r.wf(),
    {
        AssociativeCacheSettings {
            num_of_buckets: 1,
            bucket_size: 8,
            eviction_policy: EvictionPolicy::ClassicLRU,
        }
    }
}

} // verus!
