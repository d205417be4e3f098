//! How a transfer is carried out: the size of a chunk, and what to do when the
//! store or the network fails in the middle of one.

use vstd::arithmetic::power2::is_pow2;
use vstd::prelude::*;

verus! {

/// The number of bytes in one megabyte, as chunk sizes count them.
pub const BYTES_PER_MB: u64 = 1048576;

/// The chunk size, in megabytes, that is used where none is asked for.
pub const DEFAULT_CHUNK_MB: u64 = 64;

/// Doubling a power of two `k` times gives a power of two.
pub proof fn lemma_pow2_doubled(n: int, k: nat)
    requires
        is_pow2(n),
    ensures
        is_pow2(n * vstd::arithmetic::power2::pow2(k)),
    decreases k,
{
    reveal(is_pow2);
    vstd::arithmetic::power2::lemma2_to64();
    if k == 0 {
        assert(n * 1 == n);
    } else {
        lemma_pow2_doubled(n, (k - 1) as nat);
        vstd::arithmetic::power2::lemma_pow2_unfold(k);
        let half = n * vstd::arithmetic::power2::pow2((k - 1) as nat);
        assert(n * vstd::arithmetic::power2::pow2(k) == 2 * half) by (nonlinear_arith)
            requires
                vstd::arithmetic::power2::pow2(k) == 2 * vstd::arithmetic::power2::pow2(
                    (k - 1) as nat,
                ),
                half == n * vstd::arithmetic::power2::pow2((k - 1) as nat),
        ;
        assert(half > 0);
        assert((2 * half) / 2 == half);
    }
}

/// Whether `n` is a power of two.
pub fn is_power_of_two(n: u64) -> (b: bool)
    ensures
        b == is_pow2(n as int),
{
    if n == 0 {
        proof {
            reveal(is_pow2);
        }
        return false;
    }
    let mut rest = n;
    while rest % 2 == 0
        invariant
            rest >= 1,
            is_pow2(rest as int) == is_pow2(n as int),
        decreases rest,
    {
        proof {
            reveal(is_pow2);
        }
        rest = rest / 2;
    }
    proof {
        reveal(is_pow2);
    }
    rest == 1
}

/// The size of one chunk of a chunked transfer: a power-of-two number of bytes.
#[derive(Debug, PartialEq, Eq)]
pub struct ChunkSize {
    bytes: u64,
}

impl View for ChunkSize {
    type V = u64;

    closed spec fn view(&self) -> u64 {
        self.bytes
    }
}

impl ChunkSize {
    #[verifier::type_invariant]
    pub open spec fn well_formed(self) -> bool {
        is_pow2(self@ as int)
    }

    /// A chunk of `bytes` bytes, if that is a power of two.
    pub fn from_bytes(bytes: u64) -> (chunk: Option<ChunkSize>)
        ensures
            chunk is Some <==> is_pow2(bytes as int),
            chunk is Some ==> chunk->0@ == bytes,
    {
        if is_power_of_two(bytes) {
            Some(ChunkSize { bytes })
        } else {
            None
        }
    }

    /// A chunk of `megabytes` megabytes, if that is a power of two and the
    /// number of bytes fits in 64 bits.
    pub fn from_mb(megabytes: u64) -> (chunk: Option<ChunkSize>)
        ensures
            chunk is Some <==> is_pow2(megabytes as int) && megabytes * BYTES_PER_MB <= u64::MAX,
            chunk is Some ==> chunk->0@ == megabytes * BYTES_PER_MB,
    {
        if !is_power_of_two(megabytes) {
            return None;
        }
        match megabytes.checked_mul(BYTES_PER_MB) {
            Some(bytes) => {
                proof {
                    vstd::arithmetic::power2::lemma2_to64();
                    lemma_pow2_doubled(megabytes as int, 20);
                }
                Some(ChunkSize { bytes })
            },
            None => None,
        }
    }

    /// The size of the chunk in bytes.
    pub fn in_bytes(&self) -> (bytes: u64)
        ensures
            bytes == self@,
            is_pow2(bytes as int),
    {
        proof {
            use_type_invariant(self);
        }
        self.bytes
    }

    /// A chunk of the same size.
    pub fn duplicate(&self) -> (chunk: ChunkSize)
        ensures
            chunk@ == self@,
    {
        proof {
            use_type_invariant(self);
        }
        ChunkSize { bytes: self.bytes }
    }
}

impl Default for ChunkSize {
    /// The chunk that is used where none is asked for.
    fn default() -> (chunk: ChunkSize)
        ensures
            chunk@ == DEFAULT_CHUNK_MB * BYTES_PER_MB,
    {
        proof {
            vstd::arithmetic::power2::lemma2_to64();
            reveal(is_pow2);
            assert(is_pow2(1));
            lemma_pow2_doubled(1, 26);
            assert(1 * vstd::arithmetic::power2::pow2(26) == 67108864);
        }
        ChunkSize { bytes: 67108864 }
    }
}

/// How often and how long to wait before a failed chunk is sent again.
#[derive(Debug, Clone, Copy, PartialEq, Eq, Structural)]
pub struct BackoffConfig {
    /// After this many failures in a row the transfer is given up.
    pub max_retries: u32,
    /// The wait after the first failure, in seconds.
    pub min_sleep: u64,
    /// No wait is longer than this, in seconds.
    pub max_sleep: u64,
}

/// The wait, in seconds, after the `failures`-th failure in a row: `min_sleep`
/// after the first, twice the wait before after each further one, and never
/// more than `max_sleep`.
pub open spec fn backoff_delay(min_sleep: nat, max_sleep: nat, failures: nat) -> nat
    decreases failures,
{
    if failures <= 1 {
        if min_sleep <= max_sleep {
            min_sleep
        } else {
            max_sleep
        }
    } else {
        let before = backoff_delay(min_sleep, max_sleep, (failures - 1) as nat);
        if 2 * before <= max_sleep {
            2 * before
        } else {
            max_sleep
        }
    }
}

/// No wait is longer than `max_sleep`, and none is shorter than `min_sleep`
/// unless `max_sleep` is.
pub proof fn lemma_backoff_bounded(min_sleep: nat, max_sleep: nat, failures: nat)
    ensures
        backoff_delay(min_sleep, max_sleep, failures) <= max_sleep,
        min_sleep <= max_sleep ==> min_sleep <= backoff_delay(min_sleep, max_sleep, failures),
    decreases failures,
{
    if failures > 1 {
        lemma_backoff_bounded(min_sleep, max_sleep, (failures - 1) as nat);
    }
}

/// The wait never gets shorter from one failure to the next.
pub proof fn lemma_backoff_increasing(min_sleep: nat, max_sleep: nat, earlier: nat, later: nat)
    requires
        earlier <= later,
    ensures
        backoff_delay(min_sleep, max_sleep, earlier) <= backoff_delay(min_sleep, max_sleep, later),
    decreases later,
{
    if earlier < later {
        if later > 1 {
            lemma_backoff_increasing(min_sleep, max_sleep, earlier, (later - 1) as nat);
            lemma_backoff_bounded(min_sleep, max_sleep, (later - 1) as nat);
        }
    }
}

proof fn lemma_backoff_stays_at_max(min_sleep: nat, max_sleep: nat, reached: nat, later: nat)
    requires
        1 <= reached <= later,
        backoff_delay(min_sleep, max_sleep, reached) == max_sleep,
    ensures
        backoff_delay(min_sleep, max_sleep, later) == max_sleep,
{
    lemma_backoff_increasing(min_sleep, max_sleep, reached, later);
    lemma_backoff_bounded(min_sleep, max_sleep, later);
}

/// What kind of failure interrupted a transfer.
#[derive(Debug, Clone, Copy, PartialEq, Eq, Structural)]
pub enum Failure {
    /// The network failed before the store answered.
    Network,
    /// The store answered with this HTTP status.
    Status(u16),
}

/// A failure is transient if it is the network's or a server error (5xx).
pub open spec fn is_transient(failure: Failure) -> bool {
    match failure {
        Failure::Network => true,
        Failure::Status(code) => 500 <= code <= 599,
    }
}

/// What to do after a failure.
#[derive(Debug, Clone, Copy, PartialEq, Eq, Structural)]
pub enum Retry {
    /// Wait this many seconds, then send the chunk again from the last
    /// acknowledged offset.
    After(u64),
    /// Give the transfer up.
    Abort,
}

impl BackoffConfig {
    /// The policy of an upload: one hundred thousand tries, waits from one
    /// second to one minute.
    pub fn for_upload() -> (config: BackoffConfig)
        ensures
            config == (BackoffConfig { max_retries: 100000, min_sleep: 1, max_sleep: 60 }),
    {
        BackoffConfig { max_retries: 100000, min_sleep: 1, max_sleep: 60 }
    }

    /// The wait, in seconds, after the `failures`-th failure in a row.
    pub fn delay(&self, failures: u32) -> (seconds: u64)
        ensures
            seconds == backoff_delay(self.min_sleep as nat, self.max_sleep as nat, failures as nat),
    {
        let ghost lo = self.min_sleep as nat;
        let ghost hi = self.max_sleep as nat;
        let mut seconds = if self.min_sleep <= self.max_sleep {
            self.min_sleep
        } else {
            self.max_sleep
        };
        let mut counted: u32 = 1;
        while counted < failures && seconds < self.max_sleep
            invariant
                lo == self.min_sleep,
                hi == self.max_sleep,
                1 <= counted,
                counted <= failures || (failures == 0 && counted == 1),
                seconds == backoff_delay(lo, hi, counted as nat),
                seconds <= self.max_sleep,
            decreases failures - counted,
        {
            counted = counted + 1;
            seconds = if seconds <= self.max_sleep - seconds {
                2 * seconds
            } else {
                self.max_sleep
            };
        }
        proof {
            if counted < failures {
                lemma_backoff_stays_at_max(lo, hi, counted as nat, failures as nat);
            } else if failures == 0 {
                assert(backoff_delay(lo, hi, 0) == backoff_delay(lo, hi, 1));
            }
        }
        seconds
    }

    /// What to do after the `failures`-th failure in a row: wait and try again
    /// while the failure is transient and the tries are not used up, else give
    /// up.
    pub fn decide(&self, failure: Failure, failures: u32) -> (retry: Retry)
        ensures
            retry == if is_transient(failure) && failures <= self.max_retries {
                Retry::After(
                    backoff_delay(
                        self.min_sleep as nat,
                        self.max_sleep as nat,
                        failures as nat,
                    ) as u64,
                )
            } else {
                Retry::Abort
            },
    {
        let transient = match failure {
            Failure::Network => true,
            Failure::Status(code) => 500 <= code && code <= 599,
        };
        if transient && failures <= self.max_retries {
            Retry::After(self.delay(failures))
        } else {
            Retry::Abort
        }
    }
}

/// How the transfers of one upload are carried out.
#[derive(Debug, PartialEq, Eq)]
pub struct UploadDelegateConfig {
    pub chunk_size: ChunkSize,
    pub backoff_config: BackoffConfig,
    pub print_chunk_errors: bool,
    pub print_chunk_info: bool,
}

} // verus!
