//! Configuration of the paged key/value cache.

use vstd::prelude::*;

verus! {

/// Memory on the host, in megabytes. Nothing is swapped out, so this is only a
/// placeholder.
pub const CPU_MEGABYTES: usize = 512;

/// The part of the device memory that is used unless the user says otherwise,
/// in percent.
pub const DEFAULT_UTILIZATION_PERCENT: u32 = 90;

/// How much device memory the cache takes. The kind of fraction, `F`, is the
/// caller's.
#[derive(Debug, PartialEq, Eq)]
pub enum CacheMemory<F> {
    /// So many megabytes.
    Megabytes(usize),
    /// The fraction that the user asks for.
    Utilization(F),
    /// So many percent.
    UtilizationPercent(u32),
}

/// The configuration of the cache.
#[derive(Debug, PartialEq, Eq)]
pub struct CacheConfig<F> {
    /// Tokens in a block, or the engine's own choice.
    pub block_size: Option<usize>,
    pub cpu_megabytes: usize,
    pub memory: CacheMemory<F>,
}

/// What the user says of the cache.
#[derive(Debug, PartialEq, Eq)]
pub struct CacheArgs<F> {
    pub block_size: Option<usize>,
    pub gpu_megabytes: Option<usize>,
    pub gpu_utilization: Option<F>,
    /// Whether the user forbids a paged cache.
    pub disabled: bool,
}

/// The configuration, and whether a memory size was passed over in it.
#[derive(Debug, PartialEq, Eq)]
pub struct CacheChoice<F> {
    /// `None` for a cache that is not paged.
    pub config: Option<CacheConfig<F>>,
    /// Whether both a size and a fraction were given, so that the size is not
    /// used.
    pub size_ignored: bool,
}

/// How much memory the arguments ask for: a fraction goes before a size, and
/// without either the default fraction holds.
pub open spec fn memory_spec<F>(args: CacheArgs<F>) -> CacheMemory<F> {
    match (args.gpu_megabytes, args.gpu_utilization) {
        (_, Some(fraction)) => CacheMemory::Utilization(fraction),
        (Some(megabytes), None) => CacheMemory::Megabytes(megabytes),
        (None, None) => CacheMemory::UtilizationPercent(DEFAULT_UTILIZATION_PERCENT),
    }
}

/// The cache is paged where the engine can do it and the user does not forbid
/// it.
pub open spec fn cache_spec<F>(args: CacheArgs<F>, supported: bool) -> CacheChoice<F> {
    if supported && !args.disabled {
        CacheChoice {
            config: Some(
                CacheConfig {
                    block_size: args.block_size,
                    cpu_megabytes: CPU_MEGABYTES,
                    memory: memory_spec(args),
                },
            ),
            size_ignored: args.gpu_megabytes is Some && args.gpu_utilization is Some,
        }
    } else {
        CacheChoice { config: None, size_ignored: false }
    }
}

/// Chooses the configuration of the cache. `supported` says whether the engine
/// has paged attention.
pub fn cache_config<F>(args: CacheArgs<F>, supported: bool) -> (choice: CacheChoice<F>)
    ensures
        choice == cache_spec(args, supported),
        choice.config is Some <==> supported && !args.disabled,
        choice.config matches Some(config) ==> {
            &&& config.block_size == args.block_size
            &&& config.cpu_megabytes == 512
        },
        choice.size_ignored <==> choice.config is Some && args.gpu_megabytes is Some
            && args.gpu_utilization is Some,
{
    if !supported || args.disabled {
        return CacheChoice { config: None, size_ignored: false };
    }
    let (memory, size_ignored) = match (args.gpu_megabytes, args.gpu_utilization) {
        (None, None) => (CacheMemory::UtilizationPercent(DEFAULT_UTILIZATION_PERCENT), false),
        (Some(megabytes), None) => (CacheMemory::Megabytes(megabytes), false),
        (None, Some(fraction)) => (CacheMemory::Utilization(fraction), false),
        (Some(_), Some(fraction)) => (CacheMemory::Utilization(fraction), true),
    };
    CacheChoice {
        config: Some(
            CacheConfig { block_size: args.block_size, cpu_megabytes: CPU_MEGABYTES, memory },
        ),
        size_ignored,
    }
}

/// A fraction is always used over a size: with a fraction given, the size
/// changes nothing of the configuration.
pub proof fn fraction_goes_before_size<F>(a: CacheArgs<F>, b: CacheArgs<F>, supported: bool)
    requires
        a.gpu_utilization is Some,
        b == (CacheArgs { gpu_megabytes: b.gpu_megabytes, ..a }),
    ensures
        cache_spec(a, supported).config == cache_spec(b, supported).config,
{
}

/// The cache is paged if and only if the engine can do it and the user does not
/// forbid it, whatever else the user says; the block size is passed on as it is.
pub proof fn cache_is_paged_wherever_it_can_be<F>(args: CacheArgs<F>, supported: bool)
    ensures
        cache_spec(args, supported).config is Some <==> supported && !args.disabled,
        cache_spec(args, supported).config matches Some(config) ==> config.block_size
            == args.block_size && config.cpu_megabytes == 512,
{
}

/// The memory is what the user asks for, a fraction before a size, and nine
/// tenths where the user asks for nothing. The size is passed over just where
/// it is given beside a fraction.
pub proof fn cache_memory_is_what_was_asked<F>(args: CacheArgs<F>, supported: bool)
    requires
        supported,
        !args.disabled,
    ensures
        ({
            let choice = cache_spec(args, supported);
            let memory = choice.config->0.memory;
            &&& args.gpu_utilization matches Some(fraction) ==> memory
                == CacheMemory::Utilization(fraction)
            &&& args.gpu_utilization is None ==> {
                &&& args.gpu_megabytes matches Some(megabytes) ==> memory
                    == CacheMemory::<F>::Megabytes(megabytes)
                &&& args.gpu_megabytes is None ==> memory
                    == CacheMemory::<F>::UtilizationPercent(90)
            }
            &&& choice.size_ignored <==> args.gpu_megabytes is Some && args.gpu_utilization is Some
        }),
{
}

/// The block size decides nothing but itself.
pub proof fn block_size_changes_nothing_else<F>(a: CacheArgs<F>, b: CacheArgs<F>, supported: bool)
    requires
        b == (CacheArgs { block_size: b.block_size, ..a }),
    ensures
        cache_spec(a, supported).size_ignored == cache_spec(b, supported).size_ignored,
        cache_spec(a, supported).config is Some == cache_spec(b, supported).config is Some,
        cache_spec(a, supported).config is Some ==> cache_spec(a, supported).config->0.memory
            == cache_spec(b, supported).config->0.memory,
{
}

/// An engine without paged attention is treated as if the user had forbidden it.
pub proof fn unsupported_is_as_disabled<F>(a: CacheArgs<F>, b: CacheArgs<F>, supported: bool)
    requires
        b.disabled,
    ensures
        cache_spec(a, false) == cache_spec(b, supported),
        cache_spec(a, false).config is None,
        !cache_spec(a, false).size_ignored,
{
}

} // verus!
