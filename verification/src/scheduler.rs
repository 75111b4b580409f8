//! Configuration of the engine's scheduler.

use vstd::prelude::*;

verus! {

/// How the engine schedules sequences, and how many at once.
#[derive(Clone, Copy, Debug, PartialEq, Eq, Structural)]
pub enum Scheduler {
    /// The scheduler of the paged cache.
    PagedAttention { max_num_seqs: usize },
    /// The default scheduler; the number is not zero.
    Fixed { max_num_seqs: usize },
}

/// Why there is no scheduler for the levels of concurrency.
#[derive(Clone, Copy, Debug, PartialEq, Eq, Structural)]
pub enum SchedulerError {
    /// There are no levels.
    NoLevels,
    /// No level is above zero, and the default scheduler needs one.
    ZeroSequences,
}

/// The highest level of concurrency.
pub open spec fn max_level(levels: Seq<usize>) -> Option<usize>
    decreases levels.len(),
{
    if levels.len() == 0 {
        None
    } else {
        match max_level(levels.drop_last()) {
            Some(highest) if highest > levels.last() => Some(highest),
            _ => Some(levels.last()),
        }
    }
}

/// The scheduler for the levels of concurrency: one that can take the highest.
pub open spec fn scheduler_spec(levels: Seq<usize>, paged: bool) -> Result<
    Scheduler,
    SchedulerError,
> {
    match max_level(levels) {
        None => Err(SchedulerError::NoLevels),
        Some(max_num_seqs) => if paged {
            Ok(Scheduler::PagedAttention { max_num_seqs })
        } else if max_num_seqs == 0 {
            Err(SchedulerError::ZeroSequences)
        } else {
            Ok(Scheduler::Fixed { max_num_seqs })
        },
    }
}

/// Chooses the scheduler. `paged` says whether the cache is paged.
pub fn scheduler(levels: &Vec<usize>, paged: bool) -> (choice: Result<Scheduler, SchedulerError>)
    ensures
        choice == scheduler_spec(levels@, paged),
        levels@.len() > 0 && paged <==> choice matches Ok(Scheduler::PagedAttention { .. }),
        levels@.len() == 0 <==> choice == Err::<Scheduler, SchedulerError>(
            SchedulerError::NoLevels,
        ),
{
    if levels.len() == 0 {
        return Err(SchedulerError::NoLevels);
    }
    let mut max_num_seqs: usize = levels[0];
    let mut i: usize = 1;
    assert(levels@.take(1).drop_last() =~= Seq::<usize>::empty());
    assert(max_level(levels@.take(1).drop_last()) is None);
    while i < levels.len()
        invariant
            1 <= i <= levels.len(),
            max_level(levels@.take(i as int)) == Some(max_num_seqs),
        decreases levels.len() - i,
    {
        assert(levels@.take(i + 1).drop_last() =~= levels@.take(i as int));
        if levels[i] >= max_num_seqs {
            max_num_seqs = levels[i];
        }
        i += 1;
    }
    assert(levels@.take(i as int) =~= levels@);
    if paged {
        Ok(Scheduler::PagedAttention { max_num_seqs })
    } else if max_num_seqs == 0 {
        Err(SchedulerError::ZeroSequences)
    } else {
        Ok(Scheduler::Fixed { max_num_seqs })
    }
}

impl SchedulerError {
    /// What is said when there is no scheduler.
    pub open spec fn message_spec(self) -> Seq<char> {
        match self {
            SchedulerError::NoLevels => "called `Option::unwrap()` on a `None` value"@,
            SchedulerError::ZeroSequences =>
                "called `Result::unwrap()` on an `Err` value: TryFromIntError(())"@,
        }
    }

    /// The message with which the benchmark gives up.
    pub fn message(&self) -> (text: &'static str)
        ensures
            text@ == self.message_spec(),
            *self is NoLevels ==> text@ == "called `Option::unwrap()` on a `None` value"@,
            *self is ZeroSequences ==> text@
                == "called `Result::unwrap()` on an `Err` value: TryFromIntError(())"@,
    {
        match self {
            SchedulerError::NoLevels => "called `Option::unwrap()` on a `None` value",
            SchedulerError::ZeroSequences =>
                "called `Result::unwrap()` on an `Err` value: TryFromIntError(())",
        }
    }
}

/// The highest level is one of the levels, and no level is above it; there is
/// one unless there are no levels.
pub proof fn max_level_is_highest(levels: Seq<usize>)
    ensures
        match max_level(levels) {
            None => levels.len() == 0,
            Some(highest) => levels.contains(highest) && forall|i: int|
                0 <= i < levels.len() ==> #[trigger] levels[i] <= highest,
        },
    decreases levels.len(),
{
    if levels.len() > 0 {
        max_level_is_highest(levels.drop_last());
        let before = levels.drop_last();
        assert(levels[levels.len() - 1] == levels.last());
        assert forall|i: int| 0 <= i < levels.len() implies #[trigger] levels[i]
            <= max_level(levels)->0 by {
            if i < before.len() {
                assert(before[i] == levels[i]);
            }
        }
        if max_level(levels) == max_level(before) && max_level(before) is Some {
            let i = choose|i: int| 0 <= i < before.len() && before[i] == max_level(before)->0;
            assert(levels[i] == before[i]);
        }
    }
}

/// No level of concurrency asks for more sequences than the scheduler takes.
pub proof fn scheduler_takes_every_level(levels: Seq<usize>, paged: bool, i: int)
    requires
        0 <= i < levels.len(),
        scheduler_spec(levels, paged) is Ok,
    ensures
        match scheduler_spec(levels, paged)->Ok_0 {
            Scheduler::PagedAttention { max_num_seqs } => levels[i] <= max_num_seqs,
            Scheduler::Fixed { max_num_seqs } => levels[i] <= max_num_seqs,
        },
{
    max_level_is_highest(levels);
}

/// The cache alone decides the kind of scheduler: with a paged cache it is the
/// paged one for any levels, and without one it is the default one unless every
/// level is zero.
pub proof fn cache_decides_the_scheduler(levels: Seq<usize>, paged: bool)
    requires
        levels.len() > 0,
    ensures
        scheduler_spec(levels, paged) matches Ok(Scheduler::PagedAttention { .. }) <==> paged,
        scheduler_spec(levels, paged) matches Ok(Scheduler::Fixed { .. }) <==> !paged && exists|
            i: int,
        |
            0 <= i < levels.len() && #[trigger] levels[i] > 0,
        scheduler_spec(levels, paged) == Err::<Scheduler, SchedulerError>(
            SchedulerError::ZeroSequences,
        ) <==> !paged && forall|i: int| 0 <= i < levels.len() ==> #[trigger] levels[i] == 0,
{
    max_level_is_highest(levels);
    let highest = max_level(levels)->0;
    let k = choose|k: int| 0 <= k < levels.len() && levels[k] == highest;
    assert(levels[k] == highest);
}

/// The number of sequences is the highest level itself: one of the levels, and
/// no level is above it.
pub proof fn scheduler_takes_the_highest_level(levels: Seq<usize>, paged: bool)
    requires
        scheduler_spec(levels, paged) is Ok,
    ensures
        ({
            let sequences = match scheduler_spec(levels, paged)->Ok_0 {
                Scheduler::PagedAttention { max_num_seqs } => max_num_seqs,
                Scheduler::Fixed { max_num_seqs } => max_num_seqs,
            };
            &&& exists|i: int| 0 <= i < levels.len() && #[trigger] levels[i] == sequences
            &&& forall|i: int| 0 <= i < levels.len() ==> #[trigger] levels[i] <= sequences
        }),
{
    max_level_is_highest(levels);
    let highest = max_level(levels)->0;
    let k = choose|k: int| 0 <= k < levels.len() && levels[k] == highest;
    assert(levels[k] == highest);
}

/// Only a list without levels has no levels.
pub proof fn no_levels_no_scheduler(levels: Seq<usize>, paged: bool)
    ensures
        scheduler_spec(levels, paged) == Err::<Scheduler, SchedulerError>(SchedulerError::NoLevels)
            <==> levels.len() == 0,
{
    max_level_is_highest(levels);
}

} // verus!
