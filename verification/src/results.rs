//! Durable transcription results and the transcript rendered from them.
//!
//! The worker appends results in order. A record it did not finish is not part
//! of the authority; a finished record that does not belong where it stands is
//! damage.

use vstd::prelude::*;

use crate::artifacts::TRANSCRIPTION_RESULT_FORMAT_VERSION;
use crate::failure;
use crate::failure::Failure;
use crate::records;
use crate::text;
use crate::work_items::WorkItem;
use crate::work_items::WorkItemView;

verus! {

/// What the worker made of one work item.
#[derive(Debug)]
pub struct TranscriptionResult {
    pub format: u16,
    pub work_item_id: String,
    pub session_id: String,
    pub sequence: u64,
    pub discord_user_id: String,
    pub speaker: String,
    pub role: String,
    pub character: Option<String>,
    pub start_ms: u64,
    pub end_ms: u64,
    pub source: String,
    pub source_start_ms: u64,
    pub source_end_ms: u64,
    pub text: String,
    pub status: String,
}

pub struct ResultView {
    pub format: u16,
    pub work_item_id: Seq<char>,
    pub session_id: Seq<char>,
    pub sequence: u64,
    pub discord_user_id: Seq<char>,
    pub speaker: Seq<char>,
    pub role: Seq<char>,
    pub character: Option<Seq<char>>,
    pub start_ms: u64,
    pub end_ms: u64,
    pub source: Seq<char>,
    pub source_start_ms: u64,
    pub source_end_ms: u64,
    pub text: Seq<char>,
    pub status: Seq<char>,
}

impl DeepView for TranscriptionResult {
    type V = ResultView;

    open spec fn deep_view(&self) -> ResultView {
        ResultView {
            format: self.format,
            work_item_id: self.work_item_id@,
            session_id: self.session_id@,
            sequence: self.sequence,
            discord_user_id: self.discord_user_id@,
            speaker: self.speaker@,
            role: self.role@,
            character: self.character.deep_view(),
            start_ms: self.start_ms,
            end_ms: self.end_ms,
            source: self.source@,
            source_start_ms: self.source_start_ms,
            source_end_ms: self.source_end_ms,
            text: self.text@,
            status: self.status@,
        }
    }
}

/// A result belongs to a work item: it is complete, repeats the item's
/// attribution and boundaries, and its text stands on one line.
pub open spec fn result_matches(result: ResultView, item: WorkItemView) -> bool {
    &&& result.format == TRANSCRIPTION_RESULT_FORMAT_VERSION
    &&& result.status == "complete"@
    &&& result.work_item_id == item.id
    &&& result.session_id == item.session_id
    &&& result.sequence == item.sequence
    &&& result.discord_user_id == item.discord_user_id
    &&& result.speaker == item.speaker
    &&& result.role == item.role
    &&& result.character == item.character
    &&& result.start_ms == item.start_ms
    &&& result.end_ms == item.end_ms
    &&& result.source == item.source
    &&& result.source_start_ms == item.source_start_ms
    &&& result.source_end_ms == item.source_end_ms
    &&& text::single_line(result.text)
}

pub open spec fn mismatch(result: ResultView, item: WorkItemView) -> Seq<char> {
    "transcription result sequence "@ + text::decimal(result.sequence as nat)
        + " does not match work item "@ + item.id
}

fn same_optional(left: &Option<String>, right: &Option<String>) -> (result: bool)
    ensures
        result == (left.deep_view() == right.deep_view()),
{
    match (left, right) {
        (Some(left), Some(right)) => *left == *right,
        (None, None) => true,
        _ => false,
    }
}

pub fn validate_result_matches_work_item(result: &TranscriptionResult, item: &WorkItem) -> (outcome:
    Result<(), Failure>)
    ensures
        failure::outcome(outcome) == (if result_matches(result.deep_view(), item.deep_view()) {
            Ok::<(), Seq<char>>(())
        } else {
            Err(mismatch(result.deep_view(), item.deep_view()))
        }),
{
    if result.format != TRANSCRIPTION_RESULT_FORMAT_VERSION || !text::same_text(
        result.status.as_str(),
        "complete",
    ) || result.work_item_id != item.id || result.session_id != item.session_id
        || result.sequence != item.sequence || result.discord_user_id != item.discord_user_id
        || result.speaker != item.speaker || result.role != item.role || !same_optional(
        &result.character,
        &item.character,
    ) || result.start_ms != item.start_ms || result.end_ms != item.end_ms || result.source
        != item.source || result.source_start_ms != item.source_start_ms || result.source_end_ms
        != item.source_end_ms || !text::is_single_line(result.text.as_str()) {
        return Err(
            Failure::new(
                "transcription result sequence ".to_owned().concat(
                    text::decimal_text(result.sequence).as_str(),
                ).concat(" does not match work item ").concat(item.id.as_str()),
            ),
        );
    }
    Ok(())
}

/// Damaged result authority: what is wrong, and up to where it is sound.
#[derive(Debug)]
pub struct ResultAuthorityFailure {
    pub message: String,
    pub safely_validated_prefix_length: usize,
    pub earliest_unsafe_sequence: u64,
    pub earliest_unsafe_work_item_id: String,
}

pub struct AuthorityFailureView {
    pub message: Seq<char>,
    pub safely_validated_prefix_length: nat,
    pub earliest_unsafe_sequence: u64,
    pub earliest_unsafe_work_item_id: Seq<char>,
}

impl DeepView for ResultAuthorityFailure {
    type V = AuthorityFailureView;

    open spec fn deep_view(&self) -> AuthorityFailureView {
        AuthorityFailureView {
            message: self.message@,
            safely_validated_prefix_length: self.safely_validated_prefix_length as nat,
            earliest_unsafe_sequence: self.earliest_unsafe_sequence,
            earliest_unsafe_work_item_id: self.earliest_unsafe_work_item_id@,
        }
    }
}

impl AuthorityFailureView {
    /// The sentence shown to the operator.
    pub open spec fn text(self) -> Seq<char> {
        self.message + "; safely validated prefix length "@ + text::decimal(
            self.safely_validated_prefix_length,
        ) + "; earliest unsafe sequence "@ + text::decimal(self.earliest_unsafe_sequence as nat)
            + "; earliest unsafe work item "@ + self.earliest_unsafe_work_item_id
    }
}

impl ResultAuthorityFailure {
    /// The sentence shown to the operator.
    pub fn text(&self) -> (shown: String)
        ensures
            shown@ == self.deep_view().text(),
    {
        self.message.clone().concat("; safely validated prefix length ").concat(
            text::decimal_text(self.safely_validated_prefix_length as u64).as_str(),
        ).concat("; earliest unsafe sequence ").concat(
            text::decimal_text(self.earliest_unsafe_sequence).as_str(),
        ).concat("; earliest unsafe work item ").concat(
            self.earliest_unsafe_work_item_id.as_str(),
        )
    }
}

/// A fault found behind a number of sound results.
pub open spec fn authority_fault(message: Seq<char>, sound: nat, items: Seq<WorkItemView>) -> AuthorityFailureView {
    AuthorityFailureView {
        message,
        safely_validated_prefix_length: sound,
        earliest_unsafe_sequence: if sound + 1 <= u64::MAX {
            (sound + 1) as u64
        } else {
            u64::MAX
        },
        earliest_unsafe_work_item_id: if sound < items.len() {
            items[sound as int].id
        } else {
            "none"@
        },
    }
}

pub fn result_authority_failure(
    message: String,
    safely_validated_prefix_length: usize,
    work_items: &Vec<WorkItem>,
) -> (fault: ResultAuthorityFailure)
    ensures
        fault.deep_view() == authority_fault(
            message@,
            safely_validated_prefix_length as nat,
            work_items.deep_view(),
        ),
{
    let earliest_unsafe_sequence: u64 = match (safely_validated_prefix_length as u64).checked_add(
        1,
    ) {
        Some(value) => value,
        None => u64::MAX,
    };
    let earliest_unsafe_work_item_id = if safely_validated_prefix_length < work_items.len() {
        work_items[safely_validated_prefix_length].id.clone()
    } else {
        "none".to_owned()
    };
    ResultAuthorityFailure {
        message,
        safely_validated_prefix_length,
        earliest_unsafe_sequence,
        earliest_unsafe_work_item_id,
    }
}

/// What each record was read as: a result, or why it is malformed.
pub open spec fn read_results(parsed: Seq<Result<TranscriptionResult, Failure>>) -> Seq<
    Result<ResultView, Seq<char>>,
> {
    parsed.map_values(|entry: Result<TranscriptionResult, Failure>| failure::outcome(entry))
}

/// The results of committed records, or the first record at fault and how many
/// sound results stand before it.
pub open spec fn committed_results(
    records: Seq<Seq<u8>>,
    parsed: Seq<Result<ResultView, Seq<char>>>,
    path: Seq<char>,
    items: Seq<WorkItemView>,
) -> Result<Seq<ResultView>, (Seq<char>, nat)>
    decreases records.len(),
{
    if records.len() == 0 {
        Ok(Seq::empty())
    } else {
        match committed_results(records.drop_last(), parsed, path, items) {
            Err(fault) => Err(fault),
            Ok(results) => if records.last().len() == 0 {
                Err(
                    (
                        "blank interior transcription result at line "@ + text::decimal(
                            records.len(),
                        ) + " in "@ + path,
                        results.len(),
                    ),
                )
            } else {
                match parsed[records.len() - 1] {
                    Err(message) => Err(
                        (
                            "malformed interior transcription result at line "@ + text::decimal(
                                records.len(),
                            ) + " in "@ + path + ": "@ + message,
                            results.len(),
                        ),
                    ),
                    Ok(result) => if results.len() >= items.len() {
                        Err(
                            (
                                "transcription results contain sequence "@ + text::decimal(
                                    result.sequence as nat,
                                ) + " beyond the work manifest"@,
                                results.len(),
                            ),
                        )
                    } else if !result_matches(result, items[results.len() as int]) {
                        Err((mismatch(result, items[results.len() as int]), results.len()))
                    } else {
                        Ok(results.push(result))
                    },
                }
            },
        }
    }
}

/// The sound results of a results file and how many of its bytes hold them.
#[derive(Debug)]
pub struct ResultPrefix {
    pub results: Vec<TranscriptionResult>,
    pub committed_length: usize,
    /// Whether bytes of an unfinished record follow.
    pub needs_repair: bool,
}

proof fn lemma_committed_results_stop(
    records: Seq<Seq<u8>>,
    parsed: Seq<Result<ResultView, Seq<char>>>,
    path: Seq<char>,
    items: Seq<WorkItemView>,
    count: int,
)
    requires
        0 <= count <= records.len(),
        committed_results(records.take(count), parsed, path, items) is Err,
    ensures
        committed_results(records, parsed, path, items) == committed_results(
            records.take(count),
            parsed,
            path,
            items,
        ),
    decreases records.len(),
{
    if count == records.len() {
        assert(records.take(count) =~= records);
    } else {
        assert(records.drop_last().take(count) =~= records.take(count));
        lemma_committed_results_stop(records.drop_last(), parsed, path, items, count);
    }
}

/// Accepted results are a prefix of the work: the results stand for the first
/// work items, one for one and in order, and never reach beyond them.
pub proof fn committed_results_match_the_work(
    records: Seq<Seq<u8>>,
    parsed: Seq<Result<ResultView, Seq<char>>>,
    path: Seq<char>,
    items: Seq<WorkItemView>,
)
    requires
        committed_results(records, parsed, path, items) is Ok,
    ensures
        ({
            let results = committed_results(records, parsed, path, items)->Ok_0;
            &&& results.len() == records.len()
            &&& results.len() <= items.len()
            &&& forall|i: int|
                0 <= i < results.len() ==> result_matches(#[trigger] results[i], items[i])
        }),
    decreases records.len(),
{
    if records.len() > 0 {
        committed_results_match_the_work(records.drop_last(), parsed, path, items);
        let fewer = committed_results(records.drop_last(), parsed, path, items)->Ok_0;
        let results = committed_results(records, parsed, path, items)->Ok_0;
        assert forall|i: int| 0 <= i < results.len() implies result_matches(
            #[trigger] results[i],
            items[i],
        ) by {
            if i < fewer.len() {
                assert(results[i] == fewer[i]);
            }
        }
    }
}

/// The committed bytes of a results file.
pub open spec fn committed_bytes(bytes: Seq<u8>) -> Seq<u8> {
    bytes.take(records::committed_length(bytes) as int)
}

/// What a results file comes to: its sound results, or the first fault.
pub open spec fn result_authority(
    read: Result<Seq<u8>, Seq<char>>,
    parsed: Seq<Result<ResultView, Seq<char>>>,
    path: Seq<char>,
    items: Seq<WorkItemView>,
) -> Result<Seq<ResultView>, AuthorityFailureView> {
    match read {
        Err(message) => Err(
            authority_fault("failed to read results "@ + path + ": "@ + message, 0, items),
        ),
        Ok(bytes) => match committed_results(
            records::records(committed_bytes(bytes)),
            parsed,
            path,
            items,
        ) {
            Err((message, sound)) => Err(authority_fault(message, sound, items)),
            Ok(results) => Ok(results),
        },
    }
}

pub open spec fn read_bytes(read: Result<Vec<u8>, Failure>) -> Result<Seq<u8>, Seq<char>> {
    match read {
        Ok(bytes) => Ok(bytes@),
        Err(refusal) => Err(refusal@),
    }
}

/// Validate the committed prefix of a results file against the work items,
/// from its bytes and from what each committed record parses as. The prefix
/// says whether an unfinished record must be cut off.
pub fn validate_and_repair_result_prefix_detailed(
    read: &Result<Vec<u8>, Failure>,
    parsed: Vec<Result<TranscriptionResult, Failure>>,
    path: &str,
    work_items: &Vec<WorkItem>,
) -> (prefix: Result<ResultPrefix, ResultAuthorityFailure>)
    requires
        read matches Ok(bytes) ==> parsed@.len() == records::records(
            committed_bytes(bytes@),
        ).len(),
    ensures
        match (prefix, result_authority(
            read_bytes(*read),
            read_results(parsed@),
            path@,
            work_items.deep_view(),
        )) {
            (Ok(prefix), Ok(results)) => {
                &&& prefix.results.deep_view() == results
                &&& read is Ok
                &&& prefix.committed_length == records::committed_length(read->Ok_0@)
                &&& prefix.committed_length <= read->Ok_0@.len()
                &&& prefix.needs_repair == (prefix.committed_length != read->Ok_0@.len())
            },
            (Err(fault), Err(expected)) => fault.deep_view() == expected,
            _ => false,
        },
{
    let bytes = match read {
        Err(refusal) => {
            return Err(
                result_authority_failure(
                    "failed to read results ".to_owned().concat(path).concat(": ").concat(
                        refusal.text(),
                    ),
                    0,
                    work_items,
                ),
            );
        },
        Ok(bytes) => bytes,
    };
    let committed_length: usize = records::find_committed_length(bytes);
    let all = records::split_records(bytes, committed_length);
    let ghost lines = records::records(committed_bytes(bytes@));
    let ghost reads = read_results(parsed@);
    let ghost items = work_items.deep_view();
    let mut results: Vec<TranscriptionResult> = Vec::new();
    assert(lines.take(0) =~= Seq::<Seq<u8>>::empty());
    assert(results.deep_view() =~= Seq::<ResultView>::empty());
    let count: usize = all.len();
    let mut index: usize = 0;
    for entry in it: parsed
        invariant
            it.seq() == parsed@,
            it.index() == index,
            parsed@.len() == lines.len(),
            count == lines.len(),
            *read == Ok::<Vec<u8>, Failure>(*bytes),
            all.deep_view() == lines,
            lines == records::records(committed_bytes(bytes@)),
            reads == read_results(parsed@),
            items == work_items.deep_view(),
            results@.len() == index,
            committed_results(lines.take(index as int), reads, path@, items) == Ok::<
                Seq<ResultView>,
                (Seq<char>, nat),
            >(results.deep_view()),
    {
        let ghost before = results.deep_view();
        let ghost longer = lines.take(index + 1);
        proof {
            assert(longer.drop_last() =~= lines.take(index as int));
            assert(longer.last() == lines[index as int]);
            assert(lines[index as int] == all@[index as int].deep_view());
            assert(reads[index as int] == failure::outcome(entry));
            if committed_results(longer, reads, path@, items) is Err {
                lemma_committed_results_stop(lines, reads, path@, items, index + 1);
            }
        }
        if all[index].len() == 0 {
            return Err(
                result_authority_failure(
                    "blank interior transcription result at line ".to_owned().concat(
                        text::decimal_text(index as u64 + 1).as_str(),
                    ).concat(" in ").concat(path),
                    results.len(),
                    work_items,
                ),
            );
        }
        let result = match entry {
            Err(refusal) => {
                return Err(
                    result_authority_failure(
                        "malformed interior transcription result at line ".to_owned().concat(
                            text::decimal_text(index as u64 + 1).as_str(),
                        ).concat(" in ").concat(path).concat(": ").concat(refusal.text()),
                        results.len(),
                        work_items,
                    ),
                );
            },
            Ok(result) => result,
        };
        if results.len() >= work_items.len() {
            return Err(
                result_authority_failure(
                    "transcription results contain sequence ".to_owned().concat(
                        text::decimal_text(result.sequence).as_str(),
                    ).concat(" beyond the work manifest"),
                    results.len(),
                    work_items,
                ),
            );
        }
        let item = &work_items[results.len()];
        assert(item.deep_view() == items[index as int]);
        match validate_result_matches_work_item(&result, item) {
            Err(refusal) => {
                return Err(result_authority_failure(refusal.message, results.len(), work_items));
            },
            Ok(_) => {},
        }
        let ghost added = result;
        results.push(result);
        assert(results.deep_view() =~= before.push(added.deep_view()));
        index = index + 1;
    }
    assert(lines.take(lines.len() as int) =~= lines);
    Ok(ResultPrefix { results, committed_length, needs_repair: committed_length != bytes.len() })
}

/// The step at which cutting off an unfinished record failed, and why.
#[derive(Debug)]
pub enum RepairFailure {
    Open(String),
    Truncate(String),
    Synchronise(String),
    SynchroniseDirectory(String),
}

impl RepairFailure {
    pub open spec fn spec_text(self, path: Seq<char>) -> Seq<char> {
        match self {
            RepairFailure::Open(cause) => "failed to open truncated results "@ + path
                + " for repair: "@ + cause@,
            RepairFailure::Truncate(cause) => "failed to truncate result byte tail: "@ + cause@,
            RepairFailure::Synchronise(cause) => "failed to synchronise repaired results: "@
                + cause@,
            RepairFailure::SynchroniseDirectory(cause) => "failed to synchronise repaired result directory: "@
                + cause@,
        }
    }

    fn text(&self, path: &str) -> (text: String)
        ensures
            text@ == self.spec_text(path@),
    {
        match self {
            RepairFailure::Open(cause) => "failed to open truncated results ".to_owned().concat(
                path,
            ).concat(" for repair: ").concat(cause.as_str()),
            RepairFailure::Truncate(cause) => "failed to truncate result byte tail: ".to_owned().concat(
            cause.as_str()),
            RepairFailure::Synchronise(cause) => "failed to synchronise repaired results: ".to_owned().concat(
            cause.as_str()),
            RepairFailure::SynchroniseDirectory(cause) => "failed to synchronise repaired result directory: ".to_owned().concat(
            cause.as_str()),
        }
    }
}

/// Accept the results of a prefix whose unfinished tail was cut off, or report
/// why it could not be.
pub fn conclude_repair(
    prefix: ResultPrefix,
    repair: Result<(), RepairFailure>,
    path: &str,
    work_items: &Vec<WorkItem>,
) -> (results: Result<Vec<TranscriptionResult>, ResultAuthorityFailure>)
    ensures
        match repair {
            Err(fault) if prefix.needs_repair => results matches Err(failure)
                && failure.deep_view() == authority_fault(
                fault.spec_text(path@),
                prefix.results@.len(),
                work_items.deep_view(),
            ),
            _ => results matches Ok(results) && results.deep_view()
                == prefix.results.deep_view(),
        },
{
    match repair {
        Err(fault) => {
            if prefix.needs_repair {
                let message = fault.text(path);
                return Err(result_authority_failure(message, prefix.results.len(), work_items));
            }
        },
        Ok(_) => {},
    }
    Ok(prefix.results)
}

/// As [`conclude_repair`], with the fault as the sentence that reports it.
pub fn validate_and_repair_result_prefix(
    detailed: Result<Vec<TranscriptionResult>, ResultAuthorityFailure>,
) -> (results: Result<Vec<TranscriptionResult>, Failure>)
    ensures
        match detailed {
            Ok(accepted) => results == Ok::<Vec<TranscriptionResult>, Failure>(accepted),
            Err(fault) => failure::outcome(results) == Err::<Seq<ResultView>, Seq<char>>(
                fault.deep_view().text(),
            ),
        },
{
    match detailed {
        Ok(results) => Ok(results),
        Err(fault) => Err(Failure::new(fault.text())),
    }
}

/// The transcript line of a result: elapsed time, speaker and text.
pub open spec fn line_of(result: ResultView) -> Seq<char> {
    let elapsed_seconds = result.start_ms / 1_000;
    "["@ + text::zero_padded((elapsed_seconds / 3_600) as nat, 2) + ":"@ + text::zero_padded(
        ((elapsed_seconds % 3_600) / 60) as nat,
        2,
    ) + ":"@ + text::zero_padded((elapsed_seconds % 60) as nat, 2) + "] "@ + result.speaker
        + ": "@ + result.text + "\n"@
}

pub fn transcript_line(result: &TranscriptionResult) -> (line: String)
    ensures
        line@ == line_of(result.deep_view()),
{
    let elapsed_seconds: u64 = result.start_ms / 1_000;
    let hours: u64 = elapsed_seconds / 3_600;
    let minutes: u64 = (elapsed_seconds % 3_600) / 60;
    let seconds: u64 = elapsed_seconds % 60;
    "[".to_owned().concat(text::zero_padded_text(hours, 2).as_str()).concat(":").concat(
        text::zero_padded_text(minutes, 2).as_str(),
    ).concat(":").concat(text::zero_padded_text(seconds, 2).as_str()).concat("] ").concat(
        result.speaker.as_str(),
    ).concat(": ").concat(result.text.as_str()).concat("\n")
}

/// The transcript of results: their lines in order, without those that say
/// nothing.
pub open spec fn transcript_of(results: Seq<ResultView>) -> Seq<char>
    decreases results.len(),
{
    if results.len() == 0 {
        Seq::empty()
    } else if text::blank(results.last().text) {
        transcript_of(results.drop_last())
    } else {
        transcript_of(results.drop_last()) + line_of(results.last())
    }
}

/// Render the human-readable transcript.
pub fn render_transcript(results: &Vec<TranscriptionResult>) -> (transcript: String)
    ensures
        transcript@ == transcript_of(results.deep_view()),
{
    let ghost views = results.deep_view();
    let mut transcript = String::new();
    let mut index: usize = 0;
    assert(views.take(0) =~= Seq::<ResultView>::empty());
    while index < results.len()
        invariant
            index <= results.len(),
            views == results.deep_view(),
            transcript@ == transcript_of(views.take(index as int)),
        decreases results.len() - index,
    {
        let result = &results[index];
        proof {
            let longer = views.take(index + 1);
            assert(longer.drop_last() =~= views.take(index as int));
            assert(longer.last() == result.deep_view());
        }
        if !text::is_blank(result.text.as_str()) {
            transcript.append(transcript_line(result).as_str());
        }
        index = index + 1;
    }
    assert(views.take(views.len() as int) =~= views);
    transcript
}

/// A partial transcript is the beginning of the whole: the transcript of more
/// results continues that of fewer.
pub proof fn transcripts_only_grow(results: Seq<ResultView>, count: int)
    requires
        0 <= count <= results.len(),
    ensures
        transcript_of(results.take(count)).is_prefix_of(transcript_of(results)),
    decreases results.len(),
{
    if count == results.len() {
        assert(results.take(count) =~= results);
    } else {
        transcripts_only_grow(results.drop_last(), count);
        assert(results.drop_last().take(count) =~= results.take(count));
    }
}

} // verus!
