//! Blurhash summaries for a directory of images, computed in bounded chunks.
//!
//! The library holds every decision of the pipeline: how a command line is
//! read, how an entry is classified, when it is renamed, which images are
//! hashed and which are skipped, how the list of entries is cut into chunks
//! and how the outcomes are gathered. Listing the directory, renaming and
//! reading files, running the workers of a chunk side by side and writing
//! the document are left to the caller, who asks the library what to do next
//! and tells it what the file system answered.
//!
//! A run goes like this. `cli::parse_args` reads the command line.
//! `batch::Batch::new` takes the entries of the directory and hands them out
//! chunk by chunk. Each entry of a chunk starts with `item::begin` and is
//! taken to its end with `item::advance`, one answer of the file system at a
//! time. The outcomes of the chunk go back into the batch, and when no chunk
//! is left the batch gives up the document.
//!
//! Paths are handled as text. An entry whose extension is not one of `jpg`,
//! `jpeg` and `png`, spelled exactly so, is renamed to the extension `jpg`
//! before it is read, whatever it holds: a directory of notes ends up as a
//! directory of `.jpg` files that do not decode. The rename is lasting and
//! easy to be surprised by. Callers who want their directory left alone have
//! to keep such entries away from the batch.

pub mod record;
pub mod text;
pub mod batch;
pub mod classify;
pub mod cli;
pub mod decoder;
pub mod encoder;
pub mod item;
pub mod pipeline;
