use vstd::prelude::*;

verus! {

/// What a record is in contracts: the two texts it holds.
pub struct RecordModel {
    pub file: Seq<char>,
    pub blurhash: Seq<char>,
}

/// One line of the output: the path of an image as it is on disk after
/// processing, and the blurhash computed from its pixels.
#[derive(Debug, PartialEq, Eq)]
pub struct Record {
    pub file: String,
    pub blurhash: String,
}

impl View for Record {
    type V = RecordModel;

    open spec fn view(&self) -> RecordModel {
        RecordModel { file: self.file@, blurhash: self.blurhash@ }
    }
}

/// What an item hands to the results, in contracts: its record, or nothing
/// where it was skipped or failed.
pub open spec fn kept_model(kept: Option<Record>) -> Option<RecordModel> {
    match kept {
        Some(record) => Some(record@),
        None => None,
    }
}

} // verus!
