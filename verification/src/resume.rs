//! Where an interrupted transcription resumes.
//!
//! A resume boundary is recorded before results are rewound and again after,
//! so that an interruption at any point repeats the same boundary.

use vstd::prelude::*;

use crate::failure;
use crate::failure::Failure;
use crate::results::ResultView;
use crate::results::TranscriptionResult;
use crate::session::CheckpointView;
use crate::session::SessionRecord;
use crate::text;
use crate::work_items::WorkItem;

verus! {

pub const RESUME_PREPARED_PREFIX: &'static str = "transcription_resume_prepared_";

pub const RESUME_APPLIED_PREFIX: &'static str = "transcription_resume_applied_";

/// The boundary at which an attempt resumes, and whether an earlier attempt
/// had already recorded it.
#[derive(Clone, Copy, Debug, PartialEq, Eq, Structural)]
pub struct ResumePlan {
    pub sequence: u64,
    pub previously_prepared: bool,
}

impl DeepView for ResumePlan {
    type V = ResumePlan;

    open spec fn deep_view(&self) -> ResumePlan {
        *self
    }
}

/// The last boundary that was recorded, and how far it was carried out.
#[derive(Clone, Copy, Debug, PartialEq, Eq, Structural)]
pub enum ResumeCheckpoint {
    Prepared(u64),
    Applied(u64),
}

impl DeepView for ResumeCheckpoint {
    type V = ResumeCheckpoint;

    open spec fn deep_view(&self) -> ResumeCheckpoint {
        *self
    }
}

pub open spec fn resume_sequence_of(value: Seq<char>) -> Result<u64, Seq<char>> {
    match text::parsed_u64(value) {
        Some(sequence) if sequence != 0 => Ok(sequence),
        _ => Err(
            "invalid transcription resume checkpoint sequence "@ + text::debug_form(value),
        ),
    }
}

pub fn parse_resume_sequence(value: &str) -> (sequence: Result<u64, Failure>)
    ensures
        failure::outcome(sequence) == resume_sequence_of(value@),
{
    match text::parse_u64(value) {
        Some(sequence) if sequence != 0 => Ok(sequence),
        _ => Err(
            Failure::new(
                "invalid transcription resume checkpoint sequence ".to_owned().concat(
                    text::debug_text(value).as_str(),
                ),
            ),
        ),
    }
}

/// What a checkpoint says of resuming, if it does.
pub open spec fn resume_stage(stage: Seq<char>) -> Option<Result<ResumeCheckpoint, Seq<char>>> {
    match text::after_prefix(stage, RESUME_PREPARED_PREFIX@) {
        Some(value) => Some(
            match resume_sequence_of(value) {
                Ok(sequence) => Ok(ResumeCheckpoint::Prepared(sequence)),
                Err(message) => Err(message),
            },
        ),
        None => match text::after_prefix(stage, RESUME_APPLIED_PREFIX@) {
            Some(value) => Some(
                match resume_sequence_of(value) {
                    Ok(sequence) => Ok(ResumeCheckpoint::Applied(sequence)),
                    Err(message) => Err(message),
                },
            ),
            None => None,
        },
    }
}

/// The last checkpoint that speaks of resuming.
pub open spec fn latest_resume(checkpoints: Seq<CheckpointView>) -> Result<
    Option<ResumeCheckpoint>,
    Seq<char>,
>
    decreases checkpoints.len(),
{
    if checkpoints.len() == 0 {
        Ok(None)
    } else {
        match resume_stage(checkpoints.last().stage) {
            Some(Ok(checkpoint)) => Ok(Some(checkpoint)),
            Some(Err(message)) => Err(message),
            None => latest_resume(checkpoints.drop_last()),
        }
    }
}

pub fn latest_resume_checkpoint(record: &SessionRecord) -> (latest: Result<
    Option<ResumeCheckpoint>,
    Failure,
>)
    ensures
        failure::outcome(latest) == latest_resume(record.deep_view().checkpoints),
{
    let ghost checkpoints = record.deep_view().checkpoints;
    let mut count: usize = record.checkpoints.len();
    assert(checkpoints.take(count as int) =~= checkpoints);
    while count > 0
        invariant
            count <= record.checkpoints.len(),
            checkpoints == record.deep_view().checkpoints,
            latest_resume(checkpoints) == latest_resume(checkpoints.take(count as int)),
        decreases count,
    {
        let stage = record.checkpoints[count - 1].stage.as_str();
        proof {
            assert(checkpoints.take(count as int).last() == checkpoints[count - 1]);
            assert(checkpoints[count - 1] == record.checkpoints@[count - 1].deep_view());
            assert(checkpoints.take(count as int).drop_last() =~= checkpoints.take(count - 1));
        }
        match text::strip_prefix(stage, RESUME_PREPARED_PREFIX) {
            Some(value) => {
                return match parse_resume_sequence(value) {
                    Ok(sequence) => Ok(Some(ResumeCheckpoint::Prepared(sequence))),
                    Err(refusal) => Err(refusal),
                };
            },
            None => {},
        }
        match text::strip_prefix(stage, RESUME_APPLIED_PREFIX) {
            Some(value) => {
                return match parse_resume_sequence(value) {
                    Ok(sequence) => Ok(Some(ResumeCheckpoint::Applied(sequence))),
                    Err(refusal) => Err(refusal),
                };
            },
            None => {},
        }
        count = count - 1;
    }
    Ok(None)
}

/// The sequence behind a number of committed results.
pub open spec fn next_sequence_after(count: nat) -> Result<u64, Seq<char>> {
    if count + 1 > u64::MAX {
        Err("transcription result sequence overflow"@)
    } else {
        Ok((count + 1) as u64)
    }
}

pub fn next_sequence(count: usize) -> (sequence: Result<u64, Failure>)
    ensures
        failure::outcome(sequence) == next_sequence_after(count as nat),
{
    match (count as u64).checked_add(1) {
        Some(value) => Ok(value),
        None => Err(Failure::from_text("transcription result sequence overflow")),
    }
}

/// The session time from which a rewind repeats work.
pub open spec fn rewind_boundary(committed_end_ms: u64, rewind_seconds: u64) -> int {
    if committed_end_ms >= rewind_seconds * 1_000 {
        committed_end_ms - rewind_seconds * 1_000
    } else {
        0
    }
}

/// A result reaches into the stretch between a boundary and an end.
pub open spec fn reaches_into(result: ResultView, boundary: int, end_ms: u64) -> bool {
    result.start_ms < end_ms && result.end_ms > boundary
}

/// The first of some results that reaches into a stretch.
pub open spec fn first_reaching(results: Seq<ResultView>, boundary: int, end_ms: u64) -> Option<int>
    decreases results.len(),
{
    if results.len() == 0 {
        None
    } else {
        match first_reaching(results.drop_last(), boundary, end_ms) {
            Some(index) => Some(index),
            None => if reaches_into(results.last(), boundary, end_ms) {
                Some(results.len() - 1)
            } else {
                None
            },
        }
    }
}

/// Where to resume behind committed results: at once behind them, or at the
/// first result that reaches into the rewound stretch.
pub open spec fn resume_after(committed: Seq<ResultView>, rewind_seconds: u64) -> Result<
    u64,
    Seq<char>,
> {
    match next_sequence_after(committed.len()) {
        Err(message) => Err(message),
        Ok(next) => if rewind_seconds == 0 || committed.len() == 0 {
            Ok(next)
        } else {
            let end_ms = committed.last().end_ms;
            match first_reaching(committed, rewind_boundary(end_ms, rewind_seconds), end_ms) {
                Some(index) => Ok(committed[index].sequence),
                None => Ok(next),
            }
        },
    }
}

proof fn lemma_first_reaching(results: Seq<ResultView>, boundary: int, end_ms: u64)
    ensures
        match first_reaching(results, boundary, end_ms) {
            Some(index) => {
                &&& 0 <= index < results.len()
                &&& reaches_into(results[index], boundary, end_ms)
                &&& forall|i: int|
                    0 <= i < index ==> !reaches_into(#[trigger] results[i], boundary, end_ms)
            },
            None => forall|i: int|
                0 <= i < results.len() ==> !reaches_into(#[trigger] results[i], boundary, end_ms),
        },
    decreases results.len(),
{
    if results.len() > 0 {
        let shorter = results.drop_last();
        lemma_first_reaching(shorter, boundary, end_ms);
        match first_reaching(shorter, boundary, end_ms) {
            Some(index) => {
                assert(results[index] == shorter[index]);
                assert forall|i: int| 0 <= i < index implies !reaches_into(
                    #[trigger] results[i],
                    boundary,
                    end_ms,
                ) by {
                    assert(results[i] == shorter[i]);
                }
            },
            None => {
                assert forall|i: int| 0 <= i < shorter.len() implies !reaches_into(
                    #[trigger] results[i],
                    boundary,
                    end_ms,
                ) by {
                    assert(results[i] == shorter[i]);
                }
            },
        }
    }
}

proof fn lemma_first_reaching_is(
    results: Seq<ResultView>,
    boundary: int,
    end_ms: u64,
    index: int,
)
    requires
        0 <= index < results.len(),
        reaches_into(results[index], boundary, end_ms),
        forall|i: int| 0 <= i < index ==> !reaches_into(#[trigger] results[i], boundary, end_ms),
    ensures
        first_reaching(results, boundary, end_ms) == Some(index),
{
    lemma_first_reaching(results, boundary, end_ms);
}

/// Find where to resume behind committed results.
pub fn calculate_resume_sequence(committed: &Vec<TranscriptionResult>, rewind_seconds: u64) -> (sequence:
    Result<u64, Failure>)
    ensures
        failure::outcome(sequence) == resume_after(committed.deep_view(), rewind_seconds),
{
    let current_next: u64 = match next_sequence(committed.len()) {
        Ok(value) => value,
        Err(refusal) => {
            return Err(refusal);
        },
    };
    if rewind_seconds == 0 || committed.len() == 0 {
        return Ok(current_next);
    }
    let ghost views = committed.deep_view();
    let committed_end: u64 = committed[committed.len() - 1].end_ms;
    let boundary: u64 = match rewind_seconds.checked_mul(1_000) {
        Some(rewind_ms) => if committed_end >= rewind_ms {
            committed_end - rewind_ms
        } else {
            0
        },
        None => 0,
    };
    assert(boundary == rewind_boundary(committed_end, rewind_seconds));
    let mut index: usize = 0;
    while index < committed.len()
        invariant
            index <= committed.len(),
            committed.len() > 0,
            rewind_seconds != 0,
            views == committed.deep_view(),
            next_sequence_after(views.len()) is Ok,
            committed_end == views.last().end_ms,
            boundary == rewind_boundary(committed_end, rewind_seconds),
            forall|i: int|
                0 <= i < index ==> !reaches_into(
                    #[trigger] views[i],
                    boundary as int,
                    committed_end,
                ),
        decreases committed.len() - index,
    {
        let result = &committed[index];
        assert(views[index as int] == result.deep_view());
        if result.start_ms < committed_end && result.end_ms > boundary {
            proof {
                lemma_first_reaching_is(views, boundary as int, committed_end, index as int);
            }
            return Ok(result.sequence);
        }
        index = index + 1;
    }
    proof {
        lemma_first_reaching(views, boundary as int, committed_end);
    }
    Ok(current_next)
}

/// The plan that the last recorded boundary and the committed results give,
/// before it is held against them.
pub open spec fn proposed_plan(
    latest: Option<ResumeCheckpoint>,
    committed: Seq<ResultView>,
    next: u64,
    rewind_seconds: u64,
) -> Result<ResumePlan, Seq<char>> {
    match latest {
        Some(ResumeCheckpoint::Prepared(sequence)) => Ok(
            ResumePlan { sequence, previously_prepared: true },
        ),
        Some(ResumeCheckpoint::Applied(sequence)) if next == sequence => Ok(
            ResumePlan { sequence, previously_prepared: false },
        ),
        Some(ResumeCheckpoint::Applied(sequence)) if next < sequence => Err(
            "result authority ends at sequence "@ + text::decimal((next - 1) as nat)
                + " before the previously applied resume sequence "@ + text::decimal(
                sequence as nat,
            ),
        ),
        _ => match resume_after(committed, rewind_seconds) {
            Ok(sequence) => Ok(ResumePlan { sequence, previously_prepared: false }),
            Err(message) => Err(message),
        },
    }
}

/// The plan by which a transcription resumes, or why there is none.
pub open spec fn resume_plan(
    checkpoints: Seq<CheckpointView>,
    committed: Seq<ResultView>,
    item_count: nat,
    rewind_seconds: u64,
) -> Result<ResumePlan, Seq<char>> {
    match next_sequence_after(committed.len()) {
        Err(message) => Err(message),
        Ok(next) => if item_count + 1 > u64::MAX {
            Err("work-item sequence overflow"@)
        } else {
            match latest_resume(checkpoints) {
                Err(message) => Err(message),
                Ok(latest) => match proposed_plan(latest, committed, next, rewind_seconds) {
                    Err(message) => Err(message),
                    Ok(plan) => if plan.sequence == 0 || plan.sequence > next || plan.sequence
                        > item_count + 1 {
                        Err(
                            "prepared transcription resume sequence "@ + text::decimal(
                                plan.sequence as nat,
                            ) + " is incompatible with committed prefix ending at sequence "@
                                + text::decimal((next - 1) as nat),
                        )
                    } else {
                        Ok(plan)
                    },
                },
            }
        },
    }
}

/// Choose the boundary at which an interrupted transcription resumes. Without
/// progress since the last boundary, that boundary is repeated, not rewound
/// again.
pub fn select_resume_plan(
    record: &SessionRecord,
    committed: &Vec<TranscriptionResult>,
    work_items: &Vec<WorkItem>,
    rewind_seconds: u64,
) -> (plan: Result<ResumePlan, Failure>)
    ensures
        failure::outcome(plan) == resume_plan(
            record.deep_view().checkpoints,
            committed.deep_view(),
            work_items@.len(),
            rewind_seconds,
        ),
{
    let current_next: u64 = match next_sequence(committed.len()) {
        Ok(value) => value,
        Err(refusal) => {
            return Err(refusal);
        },
    };
    let maximum_next: u64 = match (work_items.len() as u64).checked_add(1) {
        Some(value) => value,
        None => {
            return Err(Failure::from_text("work-item sequence overflow"));
        },
    };
    let latest = match latest_resume_checkpoint(record) {
        Ok(latest) => latest,
        Err(refusal) => {
            return Err(refusal);
        },
    };
    let plan = match latest {
        Some(ResumeCheckpoint::Prepared(sequence)) => ResumePlan {
            sequence,
            previously_prepared: true,
        },
        Some(ResumeCheckpoint::Applied(sequence)) if current_next == sequence => ResumePlan {
            sequence,
            previously_prepared: false,
        },
        Some(ResumeCheckpoint::Applied(sequence)) if current_next < sequence => {
            return Err(
                Failure::new(
                    "result authority ends at sequence ".to_owned().concat(
                        text::decimal_text(current_next - 1).as_str(),
                    ).concat(" before the previously applied resume sequence ").concat(
                        text::decimal_text(sequence).as_str(),
                    ),
                ),
            );
        },
        _ => match calculate_resume_sequence(committed, rewind_seconds) {
            Ok(sequence) => ResumePlan { sequence, previously_prepared: false },
            Err(refusal) => {
                return Err(refusal);
            },
        },
    };
    if plan.sequence == 0 || plan.sequence > current_next || plan.sequence > maximum_next {
        return Err(
            Failure::new(
                "prepared transcription resume sequence ".to_owned().concat(
                    text::decimal_text(plan.sequence).as_str(),
                ).concat(" is incompatible with committed prefix ending at sequence ").concat(
                    text::decimal_text(current_next - 1).as_str(),
                ),
            ),
        );
    }
    Ok(plan)
}

/// Results stand under the sequences of the first work items.
pub open spec fn in_sequence(results: Seq<ResultView>) -> bool {
    forall|i: int| 0 <= i < results.len() ==> (#[trigger] results[i]).sequence == i + 1
}

/// The results that stand when they are rewound to the boundary of a plan:
/// those before it.
pub fn kept_results(committed: Vec<TranscriptionResult>, plan: ResumePlan) -> (kept: Vec<
    TranscriptionResult,
>)
    requires
        1 <= plan.sequence <= committed@.len() + 1,
    ensures
        kept@ == committed@.take(plan.sequence - 1),
{
    let mut kept = committed;
    let count: usize = kept.len();
    assert(plan.sequence - 1 <= count);
    kept.truncate((plan.sequence - 1) as usize);
    kept
}

/// A rewind keeps a contiguous prefix that ends before the rewound stretch: no
/// kept result reaches into it, and the first repeated one does.
pub proof fn rewind_keeps_an_untouched_prefix(committed: Seq<ResultView>, rewind_seconds: u64)
    requires
        in_sequence(committed),
        committed.len() < u64::MAX,
    ensures
        ({
            let resume = resume_after(committed, rewind_seconds);
            let kept = (resume->Ok_0 - 1) as nat;
            let end_ms = committed.last().end_ms;
            let boundary = rewind_boundary(end_ms, rewind_seconds);
            &&& resume is Ok
            &&& 1 <= resume->Ok_0 <= committed.len() + 1
            &&& rewind_seconds == 0 ==> kept == committed.len()
            &&& rewind_seconds > 0 && committed.len() > 0 ==> {
                &&& forall|i: int|
                    0 <= i < kept ==> !reaches_into(#[trigger] committed[i], boundary, end_ms)
                &&& kept < committed.len() ==> reaches_into(
                    committed[kept as int],
                    boundary,
                    end_ms,
                )
            }
        }),
{
    if rewind_seconds > 0 && committed.len() > 0 {
        let end_ms = committed.last().end_ms;
        lemma_first_reaching(committed, rewind_boundary(end_ms, rewind_seconds), end_ms);
    }
}

/// A result speaks of the last seconds before an end: it starts before the end
/// and ends later than that many seconds, 1000 milliseconds each, before it. A
/// result without any extent at the very start of a session never does.
pub open spec fn within_last_seconds(result: ResultView, seconds: u64, end_ms: u64) -> bool {
    &&& result.start_ms < end_ms
    &&& result.end_ms > 0
    &&& result.end_ms + seconds * 1_000 > end_ms
}

/// Where a rewind resumes: at the first committed result that speaks of the
/// last `rewind_seconds` seconds before the end of the last committed result;
/// behind all of them where none does, where nothing is committed and where
/// nothing is to be rewound.
pub proof fn rewind_resumes_within_the_last_seconds(
    committed: Seq<ResultView>,
    rewind_seconds: u64,
)
    requires
        committed.len() < u64::MAX,
    ensures
        resume_after(committed, rewind_seconds) is Ok,
        rewind_seconds == 0 || committed.len() == 0 ==> resume_after(
            committed,
            rewind_seconds,
        )->Ok_0 == committed.len() + 1,
        rewind_seconds > 0 ==> forall|k: int|
            0 <= k < committed.len() && #[trigger] within_last_seconds(
                committed[k],
                rewind_seconds,
                committed.last().end_ms,
            ) && (forall|i: int|
                0 <= i < k ==> !within_last_seconds(
                    #[trigger] committed[i],
                    rewind_seconds,
                    committed.last().end_ms,
                )) ==> resume_after(committed, rewind_seconds)->Ok_0 == committed[k].sequence,
        (forall|i: int|
            0 <= i < committed.len() ==> !within_last_seconds(
                #[trigger] committed[i],
                rewind_seconds,
                committed.last().end_ms,
            )) ==> resume_after(committed, rewind_seconds)->Ok_0 == committed.len() + 1,
{
    if rewind_seconds > 0 && committed.len() > 0 {
        let end_ms = committed.last().end_ms;
        let boundary = rewind_boundary(end_ms, rewind_seconds);
        lemma_first_reaching(committed, boundary, end_ms);
        assert forall|i: int| 0 <= i < committed.len() implies within_last_seconds(
            #[trigger] committed[i],
            rewind_seconds,
            end_ms,
        ) == reaches_into(committed[i], boundary, end_ms) by {}
        let found = first_reaching(committed, boundary, end_ms);
        assert forall|k: int|
            0 <= k < committed.len() && #[trigger] within_last_seconds(
                committed[k],
                rewind_seconds,
                end_ms,
            ) && (forall|i: int|
                0 <= i < k ==> !within_last_seconds(
                    #[trigger] committed[i],
                    rewind_seconds,
                    end_ms,
                )) implies resume_after(committed, rewind_seconds)->Ok_0
            == committed[k].sequence by {
            assert(reaches_into(committed[k], boundary, end_ms));
            let index = found->0;
            if index < k {
                assert(!within_last_seconds(committed[index], rewind_seconds, end_ms));
            }
            if k < index {
                assert(!reaches_into(committed[k], boundary, end_ms));
            }
        }
        if found is Some {
            assert(within_last_seconds(committed[found->0], rewind_seconds, end_ms));
        }
    }
}

/// What a rewind keeps of results in sequence: the longest run from the first
/// of which none speaks of the last `rewind_seconds` seconds.
pub proof fn kept_results_end_before_the_last_seconds(
    committed: Seq<ResultView>,
    rewind_seconds: u64,
)
    requires
        in_sequence(committed),
        0 < committed.len() < u64::MAX,
        rewind_seconds > 0,
    ensures
        ({
            let resume = resume_after(committed, rewind_seconds)->Ok_0;
            &&& 1 <= resume <= committed.len() + 1
            &&& forall|i: int|
                0 <= i < resume - 1 ==> !within_last_seconds(
                    #[trigger] committed[i],
                    rewind_seconds,
                    committed.last().end_ms,
                )
            &&& resume <= committed.len() ==> within_last_seconds(
                committed[resume - 1],
                rewind_seconds,
                committed.last().end_ms,
            )
        }),
{
    let end_ms = committed.last().end_ms;
    lemma_first_reaching(committed, rewind_boundary(end_ms, rewind_seconds), end_ms);
}

/// Progress behind the last applied boundary, or without any boundary, is
/// rewound by the configured seconds.
pub proof fn progress_is_rewound(
    checkpoints: Seq<CheckpointView>,
    committed: Seq<ResultView>,
    item_count: nat,
    rewind_seconds: u64,
)
    requires
        in_sequence(committed),
        committed.len() <= item_count < u64::MAX,
        latest_resume(checkpoints) is Ok,
        match latest_resume(checkpoints)->Ok_0 {
            None => true,
            Some(ResumeCheckpoint::Applied(sequence)) => sequence <= committed.len(),
            Some(ResumeCheckpoint::Prepared(_)) => false,
        },
    ensures
        ({
            let plan = resume_plan(checkpoints, committed, item_count, rewind_seconds);
            let resume = plan->Ok_0.sequence;
            &&& plan is Ok
            &&& !plan->Ok_0.previously_prepared
            &&& 1 <= resume <= committed.len() + 1
            &&& rewind_seconds == 0 ==> resume == committed.len() + 1
            &&& rewind_seconds > 0 ==> {
                &&& forall|i: int|
                    0 <= i < resume - 1 ==> !within_last_seconds(
                        #[trigger] committed[i],
                        rewind_seconds,
                        committed.last().end_ms,
                    )
                &&& resume <= committed.len() ==> within_last_seconds(
                    committed[resume - 1],
                    rewind_seconds,
                    committed.last().end_ms,
                )
            }
        }),
{
    if rewind_seconds > 0 && committed.len() > 0 {
        kept_results_end_before_the_last_seconds(committed, rewind_seconds);
    }
}

/// A recorded boundary that lies beyond the committed results or beyond the
/// work is refused.
pub proof fn boundaries_beyond_the_results_are_refused(
    checkpoints: Seq<CheckpointView>,
    at: u64,
    sequence: u64,
    committed: Seq<ResultView>,
    item_count: nat,
    rewind_seconds: u64,
)
    requires
        sequence > committed.len() + 1 || sequence > item_count + 1,
    ensures
        resume_plan(
            checkpoints.push(
                CheckpointView { completed_at_unix_millis: at, stage: prepared_stage(sequence) },
            ),
            committed,
            item_count,
            rewind_seconds,
        ) is Err,
        sequence > committed.len() + 1 ==> resume_plan(
            checkpoints.push(
                CheckpointView { completed_at_unix_millis: at, stage: applied_stage(sequence) },
            ),
            committed,
            item_count,
            rewind_seconds,
        ) is Err,
{
    recorded_boundaries_read_back(checkpoints, at, sequence);
}

/// Checkpoints of other stages say nothing of resuming.
pub proof fn other_checkpoints_are_passed_over(
    checkpoints: Seq<CheckpointView>,
    other: CheckpointView,
)
    requires
        text::after_prefix(other.stage, "transcription_resume_"@) is None,
    ensures
        latest_resume(checkpoints.push(other)) == latest_resume(checkpoints),
{
    reveal_strlit("transcription_resume_");
    reveal_strlit("transcription_resume_prepared_");
    reveal_strlit("transcription_resume_applied_");
    let stage = other.stage;
    let shared = "transcription_resume_"@;
    assert(shared.len() == 21);
    assert(RESUME_PREPARED_PREFIX@.take(21) =~= shared);
    assert(RESUME_APPLIED_PREFIX@.take(21) =~= shared);
    if text::after_prefix(stage, RESUME_PREPARED_PREFIX@) is Some {
        let length = RESUME_PREPARED_PREFIX@.len() as int;
        assert(stage.take(21) =~= stage.take(length).take(21));
    }
    if text::after_prefix(stage, RESUME_APPLIED_PREFIX@) is Some {
        let length = RESUME_APPLIED_PREFIX@.len() as int;
        assert(stage.take(21) =~= stage.take(length).take(21));
    }
    assert(checkpoints.push(other).drop_last() =~= checkpoints);
    assert(checkpoints.push(other).last() == other);
}

/// Every plan resumes at a work item behind a kept prefix of the committed
/// results.
pub proof fn plans_stay_within_the_work(
    checkpoints: Seq<CheckpointView>,
    committed: Seq<ResultView>,
    item_count: nat,
    rewind_seconds: u64,
)
    requires
        resume_plan(checkpoints, committed, item_count, rewind_seconds) is Ok,
    ensures
        ({
            let plan = resume_plan(checkpoints, committed, item_count, rewind_seconds)->Ok_0;
            1 <= plan.sequence <= committed.len() + 1 && plan.sequence <= item_count + 1
        }),
{
}

/// The checkpoint stage that records a boundary before results are rewound.
pub open spec fn prepared_stage(sequence: u64) -> Seq<char> {
    RESUME_PREPARED_PREFIX@ + text::decimal(sequence as nat)
}

/// The checkpoint stage that records a boundary after results are rewound.
pub open spec fn applied_stage(sequence: u64) -> Seq<char> {
    RESUME_APPLIED_PREFIX@ + text::decimal(sequence as nat)
}

proof fn lemma_prefixes_differ(sequence: u64)
    ensures
        text::after_prefix(applied_stage(sequence), RESUME_PREPARED_PREFIX@) is None,
{
    reveal_strlit("transcription_resume_prepared_");
    reveal_strlit("transcription_resume_applied_");
    let stage = applied_stage(sequence);
    assert(stage[21] == 'a');
    assert(RESUME_PREPARED_PREFIX@[21] == 'p');
    if RESUME_PREPARED_PREFIX@.len() <= stage.len() {
        assert(stage.take(RESUME_PREPARED_PREFIX@.len() as int)[21] == 'a');
    }
}

proof fn lemma_after_own_prefix(prefix: Seq<char>, rest: Seq<char>)
    ensures
        text::after_prefix(prefix + rest, prefix) == Some(rest),
{
    assert((prefix + rest).take(prefix.len() as int) =~= prefix);
    assert((prefix + rest).skip(prefix.len() as int) =~= rest);
}

proof fn lemma_stages_read_back(sequence: u64)
    requires
        sequence != 0,
    ensures
        resume_stage(prepared_stage(sequence)) == Some(
            Ok::<ResumeCheckpoint, Seq<char>>(ResumeCheckpoint::Prepared(sequence)),
        ),
        resume_stage(applied_stage(sequence)) == Some(
            Ok::<ResumeCheckpoint, Seq<char>>(ResumeCheckpoint::Applied(sequence)),
        ),
{
    let digits = text::decimal(sequence as nat);
    text::decimal_reads_back(sequence);
    lemma_prefixes_differ(sequence);
    lemma_after_own_prefix(RESUME_PREPARED_PREFIX@, digits);
    lemma_after_own_prefix(RESUME_APPLIED_PREFIX@, digits);
    assert(resume_sequence_of(digits) == Ok::<u64, Seq<char>>(sequence));
}

/// A recorded boundary is read back, with how far it was carried out.
pub proof fn recorded_boundaries_read_back(
    checkpoints: Seq<CheckpointView>,
    at: u64,
    sequence: u64,
)
    requires
        sequence != 0,
    ensures
        latest_resume(
            checkpoints.push(
                CheckpointView { completed_at_unix_millis: at, stage: prepared_stage(sequence) },
            ),
        ) == Ok::<Option<ResumeCheckpoint>, Seq<char>>(Some(ResumeCheckpoint::Prepared(sequence))),
        latest_resume(
            checkpoints.push(
                CheckpointView { completed_at_unix_millis: at, stage: applied_stage(sequence) },
            ),
        ) == Ok::<Option<ResumeCheckpoint>, Seq<char>>(Some(ResumeCheckpoint::Applied(sequence))),
{
    lemma_stages_read_back(sequence);
    let prepared = CheckpointView {
        completed_at_unix_millis: at,
        stage: prepared_stage(sequence),
    };
    let applied = CheckpointView { completed_at_unix_millis: at, stage: applied_stage(sequence) };
    assert(checkpoints.push(prepared).last() == prepared);
    assert(checkpoints.push(applied).last() == applied);
}

/// An interruption between recording a boundary and carrying it out repeats
/// that boundary: with the boundary recorded and the results it keeps still
/// committed, the next plan is the same.
pub proof fn interrupted_resume_repeats_its_boundary(
    checkpoints: Seq<CheckpointView>,
    at: u64,
    sequence: u64,
    committed: Seq<ResultView>,
    item_count: nat,
    rewind_seconds: u64,
)
    requires
        1 <= sequence <= committed.len() + 1,
        sequence <= item_count + 1,
        committed.len() < u64::MAX,
        item_count < u64::MAX,
    ensures
        resume_plan(
            checkpoints.push(
                CheckpointView { completed_at_unix_millis: at, stage: prepared_stage(sequence) },
            ),
            committed,
            item_count,
            rewind_seconds,
        ) == Ok::<ResumePlan, Seq<char>>(ResumePlan { sequence, previously_prepared: true }),
{
    recorded_boundaries_read_back(checkpoints, at, sequence);
}

/// Without progress behind an applied boundary, the boundary is repeated and
/// nothing further is rewound.
pub proof fn attempt_without_progress_is_not_rewound(
    checkpoints: Seq<CheckpointView>,
    at: u64,
    sequence: u64,
    committed: Seq<ResultView>,
    item_count: nat,
    rewind_seconds: u64,
)
    requires
        sequence == committed.len() + 1,
        sequence <= item_count + 1,
        item_count < u64::MAX,
    ensures
        resume_plan(
            checkpoints.push(
                CheckpointView { completed_at_unix_millis: at, stage: applied_stage(sequence) },
            ),
            committed,
            item_count,
            rewind_seconds,
        ) == Ok::<ResumePlan, Seq<char>>(ResumePlan { sequence, previously_prepared: false }),
{
    recorded_boundaries_read_back(checkpoints, at, sequence);
}

} // verus!
