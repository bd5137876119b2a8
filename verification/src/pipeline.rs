use crate::batch::{
    drained, lemma_drained, lemma_source_has_success, lemma_success_has_source, planned, sampled,
    successes, BatchModel,
};
use crate::classify::{canonical_path, path_recognized};
use crate::decoder::{decoded_image, image_extent, image_pixels, Format};
use crate::encoder::{blurhash_text, GRID, MAX_ENCODER_WIDTH};
use crate::item::{
    advanced, begun, hashed, hashed_as, oversize, read_format, EventModel, ItemModel, Skip,
};
use crate::record::RecordModel;
use vstd::prelude::*;

verus! {

/// What the file system answers for one entry in the course of a run:
/// whether a rename goes through, and the bytes of the file that is then
/// read, if it can be read.
pub struct Answers {
    pub renamed: bool,
    pub contents: Option<Seq<u8>>,
}

/// The answer to a rename.
pub open spec fn rename_answer(answers: Answers) -> EventModel {
    if answers.renamed {
        EventModel::Renamed
    } else {
        EventModel::RenameFailed
    }
}

/// The answer to a read.
pub open spec fn contents_answer(answers: Answers) -> EventModel {
    match answers.contents {
        Some(bytes) => EventModel::Contents(bytes),
        None => EventModel::Unreadable,
    }
}

/// The path under which an entry is read: its own where the extension is
/// recognized, else the one it is renamed to.
pub open spec fn read_path(path: Seq<char>) -> Seq<char> {
    if path_recognized(path) {
        path
    } else {
        canonical_path(path)
    }
}

/// Whether the file of an entry gets read: the entry needs no rename, or the
/// rename goes through.
pub open spec fn reached(path: Seq<char>, answers: Answers) -> bool {
    path_recognized(path) || answers.renamed
}

/// The image that the bytes of an entry's file decode to, read as the format
/// of the path they are read under.
pub open spec fn decoded_entry(path: Seq<char>, bytes: Seq<u8>) -> Option<image::DynamicImage> {
    decoded_image(bytes, read_format(read_path(path)))
}

/// The outcome of one entry: a record if the entry needs no rename or the
/// rename goes through, the file can be read, and its bytes hash; else the
/// first of these that failed.
pub open spec fn outcome_of(path: Seq<char>, answers: Answers) -> Result<RecordModel, Skip> {
    if reached(path, answers) {
        match answers.contents {
            Some(bytes) => hashed(read_path(path), bytes),
            None => Err(Skip::Unreadable),
        }
    } else {
        Err(Skip::RenameFailed)
    }
}

/// What an entry hands to the results: its record, if it has one.
pub open spec fn kept_of(path: Seq<char>, answers: Answers) -> Option<RecordModel> {
    match outcome_of(path, answers) {
        Ok(record) => Some(record),
        Err(_) => None,
    }
}

/// The state in which an item ends when each of its questions is answered
/// as the file system would.
pub open spec fn played(path: Seq<char>, answers: Answers) -> ItemModel {
    let first = begun(path);
    let second = if first is AwaitRename {
        advanced(first, rename_answer(answers))
    } else {
        first
    };
    if second is AwaitContents {
        advanced(second, contents_answer(answers))
    } else {
        second
    }
}

/// An item is settled after at most two answers, with the outcome of its
/// entry.
pub proof fn lemma_item_settles(path: Seq<char>, answers: Answers)
    ensures
        played(path, answers) == (ItemModel::Done { outcome: outcome_of(path, answers) }),
{
}

/// An entry with a recognized extension is never renamed, and its outcome
/// does not depend on what a rename would have answered.
pub proof fn lemma_recognized_is_not_renamed(path: Seq<char>, first: Answers, second: Answers)
    requires
        path_recognized(path),
        first.contents == second.contents,
    ensures
        begun(path) is AwaitContents,
        outcome_of(path, first) == outcome_of(path, second),
        outcome_of(path, first) matches Ok(record) ==> record.file == path,
{
}

/// An entry has a record exactly if its file is reached and read, its bytes
/// decode, the image is within the size guard and the encoder can take it.
/// The record then holds the path that was read and the blurhash of the
/// decoded pixels: there is no other kind of record.
pub proof fn lemma_record_means_hashed(path: Seq<char>, answers: Answers)
    ensures
        outcome_of(path, answers) is Ok <==> reached(path, answers) && (
        answers.contents matches Some(bytes) && (decoded_entry(path, bytes) matches Some(image)
            && !oversize(image_extent(image).0, image_extent(image).1) && image_extent(image).0
            <= MAX_ENCODER_WIDTH)),
        outcome_of(path, answers) matches Ok(record) ==> record.file == read_path(path) && (
        answers.contents matches Some(bytes) && (decoded_entry(path, bytes) matches Some(image)
            && record.blurhash == blurhash_text(
            GRID,
            GRID,
            image_extent(image).0,
            image_extent(image).1,
            image_pixels(image).rgba,
        ))),
{
}

/// Each way in which an entry goes without a record has its own cause: the
/// rename was refused, the file was not read, its bytes did not decode, or
/// the size of the image forbade the hashing.
pub proof fn lemma_skip_names_its_cause(path: Seq<char>, answers: Answers)
    ensures
        outcome_of(path, answers) == Err::<RecordModel, Skip>(Skip::RenameFailed) <==> !reached(
            path,
            answers,
        ),
        outcome_of(path, answers) == Err::<RecordModel, Skip>(Skip::Unreadable) <==> reached(
            path,
            answers,
        ) && answers.contents is None,
        outcome_of(path, answers) == Err::<RecordModel, Skip>(Skip::Undecodable) <==> reached(
            path,
            answers,
        ) && (answers.contents matches Some(bytes) && decoded_entry(path, bytes) is None),
        outcome_of(path, answers) matches Err(Skip::Oversize { width, height }) ==> oversize(
            width,
            height,
        ),
        outcome_of(path, answers) matches Err(Skip::Unencodable { width, height }) ==> !oversize(
            width,
            height,
        ) && width > MAX_ENCODER_WIDTH && height == 0,
{
    match outcome_of(path, answers) {
        Err(Skip::Unencodable { width, height }) => {
            assert(height == 0) by (nonlinear_arith)
                requires
                    width * height <= 10_000_000,
                    width > 1_073_741_823,
                    height >= 0,
            ;
        },
        _ => {},
    }
}

/// An image of more than ten million pixels is never hashed, though it
/// decodes.
pub proof fn lemma_oversize_is_skipped(path: Seq<char>, format: Format, contents: Seq<u8>)
    requires
        decoded_image(contents, format) matches Some(image) && image_extent(image).0
            * image_extent(image).1 > 10_000_000,
    ensures
        hashed_as(path, format, contents) matches Err(Skip::Oversize { width, height }) && (
            width,
            height,
        ) == image_extent(decoded_image(contents, format)->0),
{
}

/// An entry whose file decodes to an image of more than ten million pixels
/// has no record.
pub proof fn lemma_oversize_has_no_record(path: Seq<char>, answers: Answers)
    requires
        answers.contents matches Some(bytes) && (decoded_entry(path, bytes) matches Some(image)
            && image_extent(image).0 * image_extent(image).1 > 10_000_000),
    ensures
        outcome_of(path, answers) is Err,
        kept_of(path, answers) is None,
{
}

/// The outcomes of a list of entries, where `answers[i]` are the answers for
/// entry `i`.
pub open spec fn outcomes_of(entries: Seq<Seq<char>>, answers: Seq<Answers>) -> Seq<
    Option<RecordModel>,
> {
    Seq::new(entries.len(), |i: int| kept_of(entries[i], answers[i]))
}

/// A whole run: the batch is planned, and its chunks are worked off one
/// after the other until none is left.
pub open spec fn run(
    entries: Seq<Seq<char>>,
    answers: Seq<Answers>,
    sample: Option<usize>,
    chunk_size: usize,
) -> BatchModel {
    drained(
        planned(entries, sample, chunk_size),
        outcomes_of(sampled(entries, sample), answers),
    )
}

/// A run attempts every entry that is considered exactly once: all of them
/// without a sample size, else the first ones up to the sample size. The
/// chunk size has no part in it.
pub proof fn lemma_run_attempts_every_entry(
    entries: Seq<Seq<char>>,
    answers: Seq<Answers>,
    sample: Option<usize>,
    chunk_size: usize,
)
    requires
        chunk_size >= 1,
    ensures
        run(entries, answers, sample, chunk_size).attempted == sampled(entries, sample).len(),
        sample is Some && sample->0 < entries.len() ==> run(
            entries,
            answers,
            sample,
            chunk_size,
        ).attempted == sample->0,
        sample is None || sample->0 >= entries.len() ==> run(
            entries,
            answers,
            sample,
            chunk_size,
        ).attempted == entries.len(),
{
    lemma_drained(
        planned(entries, sample, chunk_size),
        outcomes_of(sampled(entries, sample), answers),
    );
}

/// The records of a run are exactly the records among the outcomes of the
/// entries considered, in the order of the entries: each record belongs to
/// one of these entries, and each of these entries that has a record has it
/// in the results.
pub proof fn lemma_run_gathers_the_successes(
    entries: Seq<Seq<char>>,
    answers: Seq<Answers>,
    sample: Option<usize>,
    chunk_size: usize,
)
    requires
        chunk_size >= 1,
    ensures
        run(entries, answers, sample, chunk_size).results == successes(
            outcomes_of(sampled(entries, sample), answers),
        ),
        forall|k: int|
            0 <= k < run(entries, answers, sample, chunk_size).results.len() ==> exists|i: int|
                0 <= i < sampled(entries, sample).len() && kept_of(
                    sampled(entries, sample)[i],
                    answers[i],
                ) == Some(#[trigger] run(entries, answers, sample, chunk_size).results[k]),
        forall|i: int|
            0 <= i < sampled(entries, sample).len() && (#[trigger] kept_of(
                sampled(entries, sample)[i],
                answers[i],
            )) is Some ==> run(entries, answers, sample, chunk_size).results.contains(
                kept_of(sampled(entries, sample)[i], answers[i])->0,
            ),
{
    let considered = sampled(entries, sample);
    let outcomes = outcomes_of(considered, answers);
    let results = run(entries, answers, sample, chunk_size).results;
    lemma_drained(planned(entries, sample, chunk_size), outcomes);
    assert(outcomes.skip(0) =~= outcomes);
    assert(results =~= successes(outcomes));
    assert forall|k: int| 0 <= k < results.len() implies exists|i: int|
        0 <= i < considered.len() && kept_of(considered[i], answers[i]) == Some(
            #[trigger] results[k],
        ) by {
        lemma_success_has_source(outcomes, k);
        let i = choose|i: int| 0 <= i < outcomes.len() && outcomes[i] == Some(results[k]);
        assert(kept_of(considered[i], answers[i]) == Some(results[k]));
    }
    assert forall|i: int|
        0 <= i < considered.len() && (#[trigger] kept_of(
            considered[i],
            answers[i],
        )) is Some implies results.contains(kept_of(considered[i], answers[i])->0) by {
        assert(outcomes[i] == kept_of(considered[i], answers[i]));
        lemma_source_has_success(outcomes, i);
    }
}

/// The chunk size changes neither the records of a run nor their order nor
/// the number of entries attempted. In particular a run in chunks ends like
/// a run with all entries in one chunk.
pub proof fn lemma_chunk_size_is_immaterial(
    entries: Seq<Seq<char>>,
    answers: Seq<Answers>,
    sample: Option<usize>,
    chunk_size: usize,
    other_chunk_size: usize,
)
    requires
        chunk_size >= 1,
        other_chunk_size >= 1,
    ensures
        run(entries, answers, sample, chunk_size).results == run(
            entries,
            answers,
            sample,
            other_chunk_size,
        ).results,
        run(entries, answers, sample, chunk_size).attempted == run(
            entries,
            answers,
            sample,
            other_chunk_size,
        ).attempted,
{
    let outcomes = outcomes_of(sampled(entries, sample), answers);
    lemma_drained(planned(entries, sample, chunk_size), outcomes);
    lemma_drained(planned(entries, sample, other_chunk_size), outcomes);
}

/// A sample size below the number of entries makes the run one over the
/// first entries alone; any other sample size makes no difference.
pub proof fn lemma_sample_bounds_the_run(
    entries: Seq<Seq<char>>,
    answers: Seq<Answers>,
    n: usize,
    chunk_size: usize,
)
    ensures
        n < entries.len() ==> run(entries, answers, Some(n), chunk_size) == run(
            entries.take(n as int),
            answers,
            None,
            chunk_size,
        ),
        n >= entries.len() ==> run(entries, answers, Some(n), chunk_size) == run(
            entries,
            answers,
            None,
            chunk_size,
        ),
{
}

/// Where every entry carries a recognized extension, no entry is renamed,
/// every record names its entry, and two runs that read the same bytes end
/// with the same records.
pub proof fn lemma_recognized_runs_repeat(
    entries: Seq<Seq<char>>,
    first: Seq<Answers>,
    second: Seq<Answers>,
    sample: Option<usize>,
    chunk_size: usize,
)
    requires
        chunk_size >= 1,
        forall|i: int| 0 <= i < entries.len() ==> path_recognized(#[trigger] entries[i]),
        forall|i: int|
            0 <= i < entries.len() ==> (#[trigger] first[i]).contents == second[i].contents,
    ensures
        forall|i: int| 0 <= i < entries.len() ==> begun(#[trigger] entries[i]) is AwaitContents,
        run(entries, first, sample, chunk_size).results == run(
            entries,
            second,
            sample,
            chunk_size,
        ).results,
        forall|k: int|
            0 <= k < run(entries, first, sample, chunk_size).results.len() ==> exists|i: int|
                0 <= i < entries.len() && entries[i] == (#[trigger] run(
                    entries,
                    first,
                    sample,
                    chunk_size,
                ).results[k]).file,
{
    let considered = sampled(entries, sample);
    let results = run(entries, first, sample, chunk_size).results;
    assert forall|i: int| 0 <= i < considered.len() implies kept_of(considered[i], first[i])
        == kept_of(considered[i], second[i]) by {
        assert(considered[i] == entries[i]);
        lemma_recognized_is_not_renamed(entries[i], first[i], second[i]);
    }
    assert(outcomes_of(considered, first) =~= outcomes_of(considered, second));
    lemma_run_gathers_the_successes(entries, first, sample, chunk_size);
    assert forall|k: int| 0 <= k < results.len() implies exists|i: int|
        0 <= i < entries.len() && entries[i] == (#[trigger] results[k]).file by {
        let i = choose|i: int|
            0 <= i < considered.len() && kept_of(considered[i], first[i]) == Some(results[k]);
        assert(considered[i] == entries[i]);
        lemma_recognized_is_not_renamed(entries[i], first[i], second[i]);
    }
}

} // verus!
