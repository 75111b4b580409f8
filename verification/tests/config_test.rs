use mistralrs_bench::attention::{flash_attn_notices, FlashAttnNotices};
use mistralrs_bench::cache::{cache_config, CacheArgs, CacheChoice, CacheConfig, CacheMemory};
use mistralrs_bench::scheduler::{scheduler, Scheduler, SchedulerError};
use mistralrs_bench::session::concurrency_levels;

fn cache_args(gpu_megabytes: Option<usize>, gpu_utilization: Option<f32>) -> CacheArgs<f32> {
    CacheArgs {
        block_size: Some(16),
        gpu_megabytes,
        gpu_utilization,
        disabled: false,
    }
}

fn paged(memory: CacheMemory<f32>) -> Option<CacheConfig<f32>> {
    Some(CacheConfig {
        block_size: Some(16),
        cpu_megabytes: 512,
        memory,
    })
}

#[test]
fn cache_uses_ninety_percent_by_default() {
    let choice = cache_config(cache_args(None, None), true);
    assert_eq!(choice.config, paged(CacheMemory::UtilizationPercent(90)));
    assert!(!choice.size_ignored);
}

#[test]
fn cache_takes_a_size() {
    let choice = cache_config(cache_args(Some(4096), None), true);
    assert_eq!(choice.config, paged(CacheMemory::Megabytes(4096)));
    assert!(!choice.size_ignored);
}

#[test]
fn cache_takes_a_fraction() {
    let choice = cache_config(cache_args(None, Some(0.5)), true);
    assert_eq!(choice.config, paged(CacheMemory::Utilization(0.5)));
    assert!(!choice.size_ignored);
}

#[test]
fn cache_fraction_goes_before_size() {
    let choice = cache_config(cache_args(Some(4096), Some(0.5)), true);
    assert_eq!(choice.config, paged(CacheMemory::Utilization(0.5)));
    assert!(choice.size_ignored);
}

#[test]
fn cache_is_not_paged_without_support_or_consent() {
    let none = CacheChoice {
        config: None,
        size_ignored: false,
    };
    assert_eq!(cache_config(cache_args(Some(1), Some(0.5)), false), none);
    let mut disabled = cache_args(Some(1), Some(0.5));
    disabled.disabled = true;
    assert_eq!(cache_config(disabled, true), none);
}

#[test]
fn scheduler_takes_the_highest_level() {
    assert_eq!(
        scheduler(&vec![2, 8, 8, 4], true),
        Ok(Scheduler::PagedAttention { max_num_seqs: 8 })
    );
    assert_eq!(
        scheduler(&vec![1], false),
        Ok(Scheduler::Fixed { max_num_seqs: 1 })
    );
    assert_eq!(
        scheduler(&vec![0, 3], false),
        Ok(Scheduler::Fixed { max_num_seqs: 3 })
    );
}

#[test]
fn scheduler_of_zero_sequences() {
    assert_eq!(
        scheduler(&vec![0, 0], true),
        Ok(Scheduler::PagedAttention { max_num_seqs: 0 })
    );
    let error = scheduler(&vec![0, 0], false).unwrap_err();
    assert_eq!(error, SchedulerError::ZeroSequences);
    assert_eq!(
        error.message(),
        "called `Result::unwrap()` on an `Err` value: TryFromIntError(())"
    );
}

#[test]
fn scheduler_needs_a_level() {
    for paged in [false, true] {
        let error = scheduler(&Vec::new(), paged).unwrap_err();
        assert_eq!(error, SchedulerError::NoLevels);
        assert_eq!(
            error.message(),
            "called `Option::unwrap()` on a `None` value"
        );
    }
}

#[test]
fn concurrency_is_one_by_default() {
    assert_eq!(concurrency_levels(None), vec![1]);
    assert_eq!(concurrency_levels(Some(vec![4, 2])), vec![4, 2]);
}

#[test]
fn flash_attention_is_announced_and_warned_of() {
    let notices = |used, no_effect| FlashAttnNotices { used, no_effect };
    assert_eq!(flash_attn_notices(false, false), notices(false, false));
    assert_eq!(flash_attn_notices(false, true), notices(false, false));
    assert_eq!(flash_attn_notices(true, false), notices(true, false));
    assert_eq!(flash_attn_notices(true, true), notices(true, true));
}
