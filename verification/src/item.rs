use crate::classify::{canonical_path, classify, path_recognized, Classification};
use crate::decoder::{
    decode, decoded_image, extent, format_of, image_pixels, path_format, DecodedImage, Format,
    PixelsModel,
};
use crate::encoder::{blurhash_of, blurhash_text, GRID, MAX_ENCODER_WIDTH};
use crate::record::{Record, RecordModel};
use vstd::prelude::*;

verus! {

/// The largest number of pixels an image may hold and still be hashed.
pub const MAX_PIXELS: u64 = 10_000_000;

/// Why an entry has no record. None of these ends the run: the entry is
/// counted as attempted and left out of the results.
#[derive(Clone, Copy, Debug, PartialEq, Eq, Structural)]
pub enum Skip {
    /// The entry could not be renamed to the canonical extension.
    RenameFailed,
    /// The file could not be opened or read.
    Unreadable,
    /// The bytes of the file are no image of the expected format.
    Undecodable,
    /// The image holds more than `MAX_PIXELS` pixels.
    Oversize { width: u32, height: u32 },
    /// The image is wider than the encoder can address.
    Unencodable { width: u32, height: u32 },
}

/// The size guard: whether an image holds more than `MAX_PIXELS` pixels.
pub open spec fn oversize(width: u32, height: u32) -> bool {
    width * height > MAX_PIXELS
}

/// Why an image of this size is not hashed, if it is not. An image within
/// the size guard can be too wide for the encoder only if it has no rows.
pub open spec fn size_fault(width: u32, height: u32) -> Option<Skip> {
    if oversize(width, height) {
        Some(Skip::Oversize { width, height })
    } else if width > MAX_ENCODER_WIDTH {
        Some(Skip::Unencodable { width, height })
    } else {
        None
    }
}

/// Checks the size of an image before anything is computed from its pixels.
pub fn check_size(width: u32, height: u32) -> (fault: Option<Skip>)
    ensures
        fault == size_fault(width, height),
{
    assert(width * height <= 0xffff_ffff * 0xffff_ffff) by (nonlinear_arith)
        requires
            width <= 0xffff_ffff,
            height <= 0xffff_ffff,
    ;
    if (width as u64) * (height as u64) > MAX_PIXELS {
        Some(Skip::Oversize { width, height })
    } else if width > MAX_ENCODER_WIDTH {
        Some(Skip::Unencodable { width, height })
    } else {
        None
    }
}

/// The outcome of an item in contracts.
pub open spec fn outcome_model(outcome: Result<Record, Skip>) -> Result<RecordModel, Skip> {
    match outcome {
        Ok(record) => Ok(record@),
        Err(skip) => Err(skip),
    }
}

/// The outcome for decoded pixels: the fault of their size, if there is
/// one, else the record that pairs the path with the blurhash of the pixels
/// on the fixed grid.
pub open spec fn hashed_pixels(path: Seq<char>, pixels: PixelsModel) -> Result<RecordModel, Skip> {
    match size_fault(pixels.width, pixels.height) {
        Some(skip) => Err(skip),
        None => Ok(
            RecordModel {
                file: path,
                blurhash: blurhash_text(GRID, GRID, pixels.width, pixels.height, pixels.rgba),
            },
        ),
    }
}

/// The outcome for the bytes of a file read as a given format: they do not
/// decode, or the outcome for the decoded pixels.
pub open spec fn hashed_as(path: Seq<char>, format: Format, contents: Seq<u8>) -> Result<
    RecordModel,
    Skip,
> {
    match decoded_image(contents, format) {
        Some(image) => hashed_pixels(path, image_pixels(image)),
        None => Err(Skip::Undecodable),
    }
}

/// The format that a file is read as: the one that its path stands for, and
/// JPEG where the path stands for none.
pub open spec fn read_format(path: Seq<char>) -> Format {
    match path_format(path) {
        Some(format) => format,
        None => Format::Jpeg,
    }
}

/// The outcome for the bytes of a file, read as the format that its path
/// stands for.
pub open spec fn hashed(path: Seq<char>, contents: Seq<u8>) -> Result<RecordModel, Skip> {
    hashed_as(path, read_format(path), contents)
}

/// Hashes a decoded image unless its size forbids it. A blurhash on the
/// fixed grid is 36 characters long.
pub fn hash_decoded(path: &str, image: &DecodedImage) -> (outcome: Result<Record, Skip>)
    ensures
        outcome_model(outcome) == hashed_pixels(path@, image@),
        outcome matches Ok(record) ==> record.blurhash@.len() == 36,
{
    let width = image.width();
    let height = image.height();
    match check_size(width, height) {
        Some(skip) => Err(skip),
        None => {
            let blurhash = blurhash_of(width, height, image.rgba());
            Ok(Record { file: path.to_owned(), blurhash })
        },
    }
}

/// Decodes the bytes of a file as a given format and hashes the image. The
/// size is checked before the pixels are converted to RGBA, so an oversize
/// image costs no second buffer.
pub fn hash_as(path: &str, format: Format, contents: &[u8]) -> (outcome: Result<Record, Skip>)
    ensures
        outcome_model(outcome) == hashed_as(path@, format, contents@),
        outcome matches Ok(record) ==> record.blurhash@.len() == 36,
{
    match decode(contents, format) {
        Err(_) => Err(Skip::Undecodable),
        Ok(image) => {
            let (width, height) = extent(&image);
            match check_size(width, height) {
                Some(skip) => Err(skip),
                None => {
                    let pixels = DecodedImage::of_image(&image, width, height);
                    hash_decoded(path, &pixels)
                },
            }
        },
    }
}

/// Decodes the bytes of a file as the format that its path stands for, or
/// as a JPEG where the path stands for none, and hashes the image.
pub fn hash_contents(path: &str, contents: &[u8]) -> (outcome: Result<Record, Skip>)
    ensures
        outcome_model(outcome) == hashed(path@, contents@),
        outcome matches Ok(record) ==> record.blurhash@.len() == 36,
{
    let format = match format_of(path) {
        Some(format) => format,
        None => Format::Jpeg,
    };
    hash_as(path, format, contents)
}

/// What an item is waiting for, or how it ended.
#[derive(Debug, PartialEq, Eq)]
pub enum ItemState {
    /// The file system is asked to rename `from` to `to`.
    AwaitRename { from: String, to: String },
    /// The file system is asked for the bytes of `path`.
    AwaitContents { path: String },
    /// The item is settled, with a record or without one.
    Done { outcome: Result<Record, Skip> },
}

/// An answer of the file system.
#[derive(Debug, PartialEq, Eq)]
pub enum ItemEvent {
    /// The rename went through.
    Renamed,
    /// The rename was refused.
    RenameFailed,
    /// The bytes of the file.
    Contents(Vec<u8>),
    /// The file could not be opened or read.
    Unreadable,
}

/// An item's state in contracts.
pub enum ItemModel {
    AwaitRename { from: Seq<char>, to: Seq<char> },
    AwaitContents { path: Seq<char> },
    Done { outcome: Result<RecordModel, Skip> },
}

/// An answer of the file system in contracts.
pub enum EventModel {
    Renamed,
    RenameFailed,
    Contents(Seq<u8>),
    Unreadable,
}

impl View for ItemState {
    type V = ItemModel;

    open spec fn view(&self) -> ItemModel {
        match *self {
            ItemState::AwaitRename { from, to } => ItemModel::AwaitRename { from: from@, to: to@ },
            ItemState::AwaitContents { path } => ItemModel::AwaitContents { path: path@ },
            ItemState::Done { outcome } => ItemModel::Done { outcome: outcome_model(outcome) },
        }
    }
}

impl View for ItemEvent {
    type V = EventModel;

    open spec fn view(&self) -> EventModel {
        match *self {
            ItemEvent::Renamed => EventModel::Renamed,
            ItemEvent::RenameFailed => EventModel::RenameFailed,
            ItemEvent::Contents(bytes) => EventModel::Contents(bytes@),
            ItemEvent::Unreadable => EventModel::Unreadable,
        }
    }
}

/// The first state of an item: an entry with a recognized extension is read
/// as it stands, any other is renamed to the canonical extension first.
pub open spec fn begun(path: Seq<char>) -> ItemModel {
    if path_recognized(path) {
        ItemModel::AwaitContents { path }
    } else {
        ItemModel::AwaitRename { from: path, to: canonical_path(path) }
    }
}

/// The state that follows a state and an answer.
///
/// A refused rename and an unreadable file settle the item without a record.
/// After a rename the new path is read. The bytes of a file settle the item
/// with the outcome of hashing them. An answer to a question that the item
/// is not asking changes nothing; a settled item asks none.
pub open spec fn advanced(state: ItemModel, event: EventModel) -> ItemModel {
    match (state, event) {
        (ItemModel::AwaitRename { from, to }, EventModel::Renamed) => ItemModel::AwaitContents {
            path: to,
        },
        (ItemModel::AwaitRename { from, to }, EventModel::RenameFailed) => ItemModel::Done {
            outcome: Err(Skip::RenameFailed),
        },
        (ItemModel::AwaitContents { path }, EventModel::Contents(bytes)) => ItemModel::Done {
            outcome: hashed(path, bytes),
        },
        (ItemModel::AwaitContents { path }, EventModel::Unreadable) => ItemModel::Done {
            outcome: Err(Skip::Unreadable),
        },
        _ => state,
    }
}

/// Starts the processing of an entry.
pub fn begin(path: &str) -> (state: ItemState)
    ensures
        state@ == begun(path@),
{
    match classify(path) {
        Classification::Recognized => ItemState::AwaitContents { path: path.to_owned() },
        Classification::NeedsRename { target } => ItemState::AwaitRename {
            from: path.to_owned(),
            to: target,
        },
    }
}

/// Takes an item one step further with an answer of the file system.
pub fn advance(state: ItemState, event: ItemEvent) -> (next: ItemState)
    ensures
        next@ == advanced(state@, event@),
        next matches ItemState::Done { outcome: Ok(record) } ==> state is Done
            || record.blurhash@.len() == 36,
{
    match state {
        ItemState::AwaitRename { from, to } => match event {
            ItemEvent::Renamed => ItemState::AwaitContents { path: to },
            ItemEvent::RenameFailed => ItemState::Done { outcome: Err(Skip::RenameFailed) },
            _ => ItemState::AwaitRename { from, to },
        },
        ItemState::AwaitContents { path } => match event {
            ItemEvent::Contents(bytes) => ItemState::Done {
                outcome: hash_contents(path.as_str(), bytes.as_slice()),
            },
            ItemEvent::Unreadable => ItemState::Done { outcome: Err(Skip::Unreadable) },
            _ => ItemState::AwaitContents { path },
        },
        ItemState::Done { outcome } => ItemState::Done { outcome },
    }
}

} // verus!
