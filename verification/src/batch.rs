use crate::record::{kept_model, Record, RecordModel};
use vstd::prelude::*;
use vstd::seq_lib::{lemma_multiset_commutative, to_multiset_build};
use vstd::slice::slice_subrange;

verus! {

/// The paths of a list of entries, as texts.
pub open spec fn path_texts(paths: Seq<String>) -> Seq<Seq<char>> {
    paths.map_values(|path: String| path@)
}

/// The records of a list, as models.
pub open spec fn record_models(records: Seq<Record>) -> Seq<RecordModel> {
    records.map_values(|record: Record| record@)
}

/// The outcomes of a list, as models.
pub open spec fn outcome_models(outcomes: Seq<Option<Record>>) -> Seq<Option<RecordModel>> {
    outcomes.map_values(|outcome: Option<Record>| kept_model(outcome))
}

/// The records among a list of outcomes, in the order of the list.
pub open spec fn successes(outcomes: Seq<Option<RecordModel>>) -> Seq<RecordModel>
    decreases outcomes.len(),
{
    if outcomes.len() == 0 {
        Seq::empty()
    } else {
        match outcomes.last() {
            Some(record) => successes(outcomes.drop_last()).push(record),
            None => successes(outcomes.drop_last()),
        }
    }
}

/// The entries that are considered: the first `n` where a sample size `n`
/// below the number of entries is given, else all of them.
pub open spec fn sampled(entries: Seq<Seq<char>>, sample: Option<usize>) -> Seq<Seq<char>> {
    match sample {
        Some(n) => if n < entries.len() {
            entries.take(n as int)
        } else {
            entries
        },
        None => entries,
    }
}

/// Cuts a list of entries down to the sample size, if one is given.
pub fn take_sample(entries: Vec<String>, sample: Option<usize>) -> (kept: Vec<String>)
    ensures
        path_texts(kept@) == sampled(path_texts(entries@), sample),
{
    let mut kept = entries;
    match sample {
        Some(n) => {
            if n < kept.len() {
                kept.truncate(n);
                assert(path_texts(kept@) =~= path_texts(entries@).take(n as int));
            }
        },
        None => {},
    }
    kept
}

/// A batch in contracts: the entries considered, the chunk size, how many
/// entries have been attempted, and the records gathered from them.
pub struct BatchModel {
    pub entries: Seq<Seq<char>>,
    pub chunk_size: nat,
    pub attempted: nat,
    pub results: Seq<RecordModel>,
}

impl BatchModel {
    /// What holds of every batch: chunks are not empty, and no more entries
    /// are attempted than there are.
    pub open spec fn well_formed(self) -> bool {
        self.chunk_size >= 1 && self.attempted <= self.entries.len()
    }

    /// Whether every entry has been attempted.
    pub open spec fn complete(self) -> bool {
        self.attempted >= self.entries.len()
    }

    /// The index behind the last entry of the next chunk.
    pub open spec fn chunk_end(self) -> nat {
        if self.attempted + self.chunk_size < self.entries.len() {
            self.attempted + self.chunk_size
        } else {
            self.entries.len()
        }
    }

    /// The next chunk: the entries that follow those attempted, up to the
    /// chunk size.
    pub open spec fn pending(self) -> Seq<Seq<char>> {
        self.entries.subrange(self.attempted as int, self.chunk_end() as int)
    }

    /// Whether a list of outcomes answers the next chunk, one outcome for
    /// each of its entries.
    pub open spec fn answers_chunk(self, outcomes: Seq<Option<RecordModel>>) -> bool {
        outcomes.len() == self.chunk_end() - self.attempted
    }

    /// The batch after the outcomes of its next chunk came in: every entry
    /// of the chunk counts as attempted, and the records among the outcomes
    /// follow those gathered before.
    pub open spec fn absorb(self, outcomes: Seq<Option<RecordModel>>) -> BatchModel {
        BatchModel {
            attempted: self.attempted + outcomes.len(),
            results: self.results + successes(outcomes),
            ..self
        }
    }
}

/// The batch that a run starts from.
pub open spec fn planned(
    entries: Seq<Seq<char>>,
    sample: Option<usize>,
    chunk_size: usize,
) -> BatchModel {
    BatchModel {
        entries: sampled(entries, sample),
        chunk_size: chunk_size as nat,
        attempted: 0,
        results: Seq::empty(),
    }
}

/// The entries of a run, cut into chunks that are worked off one after the
/// other, and the records gathered so far.
#[derive(Debug)]
pub struct Batch {
    entries: Vec<String>,
    chunk_size: usize,
    attempted: usize,
    results: Vec<Record>,
}

impl View for Batch {
    type V = BatchModel;

    closed spec fn view(&self) -> BatchModel {
        BatchModel {
            entries: path_texts(self.entries@),
            chunk_size: self.chunk_size as nat,
            attempted: self.attempted as nat,
            results: record_models(self.results@),
        }
    }
}

/// The key under which the written document holds the list of records.
pub const RESULTS_KEY: &'static str = "results";

/// The key under which a written record holds its path.
pub const FILE_KEY: &'static str = "file";

/// The key under which a written record holds its blurhash.
pub const BLURHASH_KEY: &'static str = "blurhash";

/// The final product of a run: the records in the order in which they were
/// gathered. It is written out as a JSON object with the one key
/// `RESULTS_KEY`, whose value is the list of the records, each an object
/// with the two keys `FILE_KEY` and `BLURHASH_KEY`.
#[derive(Debug, PartialEq, Eq)]
pub struct OutputDocument {
    pub results: Vec<Record>,
}

impl View for OutputDocument {
    type V = Seq<RecordModel>;

    open spec fn view(&self) -> Seq<RecordModel> {
        record_models(self.results@)
    }
}

impl Batch {
    #[verifier::type_invariant]
    spec fn well_formed(self) -> bool {
        self.chunk_size >= 1 && self.attempted <= self.entries@.len()
    }

    /// Plans a run over the entries of a directory, in the order in which
    /// they were listed. With a sample size only the first entries are
    /// considered.
    pub fn new(entries: Vec<String>, sample: Option<usize>, chunk_size: usize) -> (batch: Batch)
        requires
            chunk_size >= 1,
        ensures
            batch@ == planned(path_texts(entries@), sample, chunk_size),
            batch@.well_formed(),
    {
        let entries = take_sample(entries, sample);
        let batch = Batch { entries, chunk_size, attempted: 0, results: Vec::new() };
        assert(batch@.results =~= Seq::empty());
        batch
    }

    /// The number of entries considered.
    pub fn total(&self) -> (total: usize)
        ensures
            total == self@.entries.len(),
    {
        self.entries.len()
    }

    /// The number of entries attempted so far, with or without success.
    pub fn attempted(&self) -> (attempted: usize)
        ensures
            attempted == self@.attempted,
    {
        self.attempted
    }

    /// The number of records gathered so far.
    pub fn succeeded(&self) -> (succeeded: usize)
        ensures
            succeeded == self@.results.len(),
    {
        self.results.len()
    }

    /// Whether every entry has been attempted.
    pub fn is_complete(&self) -> (complete: bool)
        ensures
            complete == self@.complete(),
    {
        self.attempted >= self.entries.len()
    }

    /// The entries of the next chunk, empty once the batch is complete.
    pub fn next_chunk(&self) -> (chunk: &[String])
        ensures
            self@.well_formed(),
            path_texts(chunk@) == self@.pending(),
            chunk@.len() == self@.chunk_end() - self@.attempted,
    {
        proof {
            use_type_invariant(self);
        }
        let total = self.entries.len();
        let end = if self.chunk_size < total - self.attempted {
            self.attempted + self.chunk_size
        } else {
            total
        };
        let chunk = slice_subrange(self.entries.as_slice(), self.attempted, end);
        assert(path_texts(chunk@) =~= self@.pending());
        chunk
    }

    /// Takes in the outcomes of the next chunk, one for each of its entries.
    /// The records are gathered in the order of the list, so a caller who
    /// wants them in the order of the entries hands the outcomes over in that
    /// order. A list of any other length is refused and changes nothing.
    pub fn record_chunk(&mut self, outcomes: Vec<Option<Record>>) -> (accepted: bool)
        ensures
            accepted == old(self)@.answers_chunk(outcome_models(outcomes@)),
            accepted ==> final(self)@ == old(self)@.absorb(outcome_models(outcomes@)),
            !accepted ==> final(self)@ == old(self)@,
            final(self)@.attempted == old(self)@.attempted + if accepted {
                outcomes@.len()
            } else {
                0
            },
            final(self)@.well_formed(),
    {
        proof {
            use_type_invariant(&*self);
        }
        let total = self.entries.len();
        let end = if self.chunk_size < total - self.attempted {
            self.attempted + self.chunk_size
        } else {
            total
        };
        let count = outcomes.len();
        if count != end - self.attempted {
            return false;
        }
        let ghost before = self@;
        let ghost all = outcome_models(outcomes@);
        let mut results: Vec<Record> = Vec::new();
        core::mem::swap(&mut self.results, &mut results);
        for outcome in it: outcomes.into_iter()
            invariant
                it.seq() == outcomes@,
                all == outcome_models(outcomes@),
                record_models(results@) == before.results + successes(all.take(it.index())),
        {
            proof {
                let i = it.index();
                assert(all.take(i + 1).drop_last() =~= all.take(i));
                assert(all.take(i + 1).last() == kept_model(outcome));
            }
            match outcome {
                Some(record) => {
                    let ghost gathered = results@;
                    results.push(record);
                    assert(record_models(results@) =~= record_models(gathered).push(record@));
                },
                None => {},
            }
        }
        assert(all.take(count as int) =~= all);
        core::mem::swap(&mut self.results, &mut results);
        self.attempted = self.attempted + count;
        true
    }

    /// Ends the run. The document is handed out only once every entry has
    /// been attempted; until then the batch comes back unchanged.
    pub fn finish(self) -> (end: Result<OutputDocument, Batch>)
        ensures
            end is Ok <==> self@.complete(),
            end matches Ok(document) ==> document@ == self@.results,
            end matches Err(batch) ==> batch@ == self@,
    {
        if self.attempted >= self.entries.len() {
            Ok(OutputDocument { results: self.results })
        } else {
            Err(self)
        }
    }
}

/// The batch after its remaining chunks were worked off one after the other,
/// where `outcomes[i]` is the outcome of entry `i`. A list that does not hold
/// one outcome for each entry leaves the batch as it is.
pub open spec fn drained(batch: BatchModel, outcomes: Seq<Option<RecordModel>>) -> BatchModel
    decreases batch.entries.len() - batch.attempted,
{
    if batch.well_formed() && !batch.complete() && outcomes.len() == batch.entries.len() {
        drained(
            batch.absorb(outcomes.subrange(batch.attempted as int, batch.chunk_end() as int)),
            outcomes,
        )
    } else {
        batch
    }
}

/// The records of two lists of outcomes laid end to end are the records of
/// the first followed by those of the second.
pub proof fn lemma_successes_concat(
    first: Seq<Option<RecordModel>>,
    second: Seq<Option<RecordModel>>,
)
    ensures
        successes(first + second) == successes(first) + successes(second),
    decreases second.len(),
{
    if second.len() == 0 {
        assert(first + second =~= first);
        assert(successes(first) + successes(second) =~= successes(first));
    } else {
        assert((first + second).drop_last() =~= first + second.drop_last());
        assert((first + second).last() == second.last());
        lemma_successes_concat(first, second.drop_last());
        assert(successes(first + second) =~= successes(first) + successes(second));
    }
}

/// Every record among the successes is the outcome of some item of the list,
/// and there are no more records than outcomes.
pub proof fn lemma_success_has_source(outcomes: Seq<Option<RecordModel>>, k: int)
    requires
        0 <= k < successes(outcomes).len(),
    ensures
        exists|i: int| 0 <= i < outcomes.len() && outcomes[i] == Some(successes(outcomes)[k]),
    decreases outcomes.len(),
{
    let rest = outcomes.drop_last();
    if outcomes.last() is Some && k == successes(rest).len() {
        assert(outcomes[outcomes.len() - 1] == Some(successes(outcomes)[k]));
    } else {
        lemma_success_has_source(rest, k);
        let i = choose|i: int| 0 <= i < rest.len() && rest[i] == Some(successes(rest)[k]);
        assert(outcomes[i] == Some(successes(outcomes)[k]));
    }
}

/// Every outcome that holds a record has it among the successes.
pub proof fn lemma_source_has_success(outcomes: Seq<Option<RecordModel>>, i: int)
    requires
        0 <= i < outcomes.len(),
        outcomes[i] is Some,
    ensures
        successes(outcomes).contains(outcomes[i]->0),
    decreases outcomes.len(),
{
    let rest = outcomes.drop_last();
    if i == outcomes.len() - 1 {
        assert(successes(outcomes)[successes(rest).len() as int] == outcomes[i]->0);
    } else {
        lemma_source_has_success(rest, i);
        let k = choose|k: int| 0 <= k < successes(rest).len() && successes(rest)[k] == rest[i]->0;
        assert(successes(outcomes)[k] == outcomes[i]->0);
    }
}

/// A record stands among the successes as often as it stands among the
/// outcomes.
pub proof fn lemma_successes_count(outcomes: Seq<Option<RecordModel>>, record: RecordModel)
    ensures
        successes(outcomes).to_multiset().count(record) == outcomes.to_multiset().count(
            Some(record),
        ),
    decreases outcomes.len(),
{
    if outcomes.len() == 0 {
        assert(outcomes =~= Seq::empty());
        assert(successes(outcomes) =~= Seq::empty());
        Seq::<Option<RecordModel>>::empty().to_multiset_ensures();
        Seq::<RecordModel>::empty().to_multiset_ensures();
        assert(outcomes.to_multiset().len() == 0);
        assert(successes(outcomes).to_multiset().len() == 0);
    } else {
        let rest = outcomes.drop_last();
        lemma_successes_count(rest, record);
        assert(outcomes =~= rest.push(outcomes.last()));
        to_multiset_build(rest, outcomes.last());
        match outcomes.last() {
            Some(last) => {
                to_multiset_build(successes(rest), last);
            },
            None => {},
        }
    }
}

/// In whatever order the outcomes of a chunk come in, the same records are
/// gathered, each as often, and the same number of entries counts as
/// attempted. Only the order of the chunk's records follows the order of its
/// outcomes.
pub proof fn lemma_order_within_chunk_is_immaterial(
    batch: BatchModel,
    first: Seq<Option<RecordModel>>,
    second: Seq<Option<RecordModel>>,
)
    requires
        first.to_multiset() == second.to_multiset(),
    ensures
        batch.answers_chunk(first) == batch.answers_chunk(second),
        batch.absorb(first).attempted == batch.absorb(second).attempted,
        batch.absorb(first).results.to_multiset() == batch.absorb(second).results.to_multiset(),
{
    first.to_multiset_ensures();
    second.to_multiset_ensures();
    assert forall|record: RecordModel|
        successes(first).to_multiset().count(record) == successes(second).to_multiset().count(
            record,
        ) by {
        lemma_successes_count(first, record);
        lemma_successes_count(second, record);
    }
    assert(successes(first).to_multiset() =~= successes(second).to_multiset());
    lemma_multiset_commutative(batch.results, successes(first));
    lemma_multiset_commutative(batch.results, successes(second));
}

/// Working off a batch attempts every entry once and gathers exactly the
/// records among the outcomes of the entries that were still open, in their
/// order, whatever the chunk size is.
pub proof fn lemma_drained(batch: BatchModel, outcomes: Seq<Option<RecordModel>>)
    requires
        batch.well_formed(),
        outcomes.len() == batch.entries.len(),
    ensures
        drained(batch, outcomes).entries == batch.entries,
        drained(batch, outcomes).chunk_size == batch.chunk_size,
        drained(batch, outcomes).attempted == batch.entries.len(),
        drained(batch, outcomes).results == batch.results + successes(
            outcomes.skip(batch.attempted as int),
        ),
    decreases batch.entries.len() - batch.attempted,
{
    if batch.complete() {
        assert(outcomes.skip(batch.attempted as int) =~= Seq::empty());
        assert(batch.results + successes(outcomes.skip(batch.attempted as int)) =~= batch.results);
    } else {
        let chunk = outcomes.subrange(batch.attempted as int, batch.chunk_end() as int);
        let next = batch.absorb(chunk);
        lemma_drained(next, outcomes);
        assert(outcomes.skip(batch.attempted as int) =~= chunk + outcomes.skip(
            next.attempted as int,
        ));
        lemma_successes_concat(chunk, outcomes.skip(next.attempted as int));
        assert(drained(batch, outcomes).results =~= batch.results + successes(
            outcomes.skip(batch.attempted as int),
        ));
    }
}

} // verus!
