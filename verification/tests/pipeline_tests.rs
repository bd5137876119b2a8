use blurhash_batch::batch::Batch;
use blurhash_batch::item::{advance, begin, ItemEvent, ItemState, Skip};
use blurhash_batch::record::Record;
use std::collections::BTreeMap;

struct FakeDisk {
    files: BTreeMap<String, Vec<u8>>,
    locked: Vec<String>,
    renames: Vec<(String, String)>,
}

impl FakeDisk {
    fn new() -> FakeDisk {
        FakeDisk { files: BTreeMap::new(), locked: Vec::new(), renames: Vec::new() }
    }

    fn rename(&mut self, from: &str, to: &str) -> bool {
        if self.locked.iter().any(|path| path == from) {
            return false;
        }
        match self.files.remove(from) {
            Some(bytes) => {
                self.files.insert(to.to_string(), bytes);
                self.renames.push((from.to_string(), to.to_string()));
                true
            }
            None => false,
        }
    }

    fn read(&self, path: &str) -> Option<Vec<u8>> {
        self.files.get(path).cloned()
    }

    fn listing(&self) -> Vec<String> {
        self.files.keys().cloned().collect()
    }
}

struct RunLog {
    ticks: usize,
    skips: Vec<Skip>,
    results: Vec<Record>,
    attempted: usize,
}

fn settle(disk: &mut FakeDisk, path: &str) -> Result<Record, Skip> {
    let mut state = begin(path);
    loop {
        let event = match &state {
            ItemState::AwaitRename { from, to } => {
                if disk.rename(from, to) {
                    ItemEvent::Renamed
                } else {
                    ItemEvent::RenameFailed
                }
            }
            ItemState::AwaitContents { path, .. } => match disk.read(path) {
                Some(bytes) => ItemEvent::Contents(bytes),
                None => ItemEvent::Unreadable,
            },
            ItemState::Done { .. } => break,
        };
        state = advance(state, event);
    }
    match state {
        ItemState::Done { outcome } => outcome,
        other => panic!("unsettled item {:?}", other),
    }
}

fn run(disk: &mut FakeDisk, entries: Vec<String>, sample: Option<usize>, chunk_size: usize) -> RunLog {
    let mut batch = Batch::new(entries, sample, chunk_size);
    let mut ticks = 0;
    let mut skips = Vec::new();
    while !batch.is_complete() {
        let chunk: Vec<String> = batch.next_chunk().to_vec();
        let mut outcomes = Vec::new();
        for path in &chunk {
            let outcome = settle(disk, path);
            ticks += 1;
            match outcome {
                Ok(record) => outcomes.push(Some(record)),
                Err(skip) => {
                    skips.push(skip);
                    outcomes.push(None);
                }
            }
        }
        assert!(batch.record_chunk(outcomes));
    }
    let attempted = batch.attempted();
    RunLog { ticks, skips, results: batch.finish().unwrap().results, attempted }
}

fn picture(width: u32, height: u32, format: image::ImageFormat) -> Vec<u8> {
    let mut buffer = image::RgbImage::new(width, height);
    for (x, y, pixel) in buffer.enumerate_pixels_mut() {
        *pixel = image::Rgb([(x * 2 % 256) as u8, (y * 5 % 256) as u8, ((x + y) % 256) as u8]);
    }
    let mut out = std::io::Cursor::new(Vec::new());
    image::DynamicImage::ImageRgb8(buffer).write_to(&mut out, format).unwrap();
    out.into_inner()
}

fn three_files() -> FakeDisk {
    let mut disk = FakeDisk::new();
    disk.files.insert("dir/a.png".to_string(), picture(100, 100, image::ImageFormat::Png));
    disk.files.insert("dir/b.txt".to_string(), b"remember the milk".to_vec());
    disk.files.insert("dir/c.jpeg".to_string(), picture(50, 50, image::ImageFormat::Jpeg));
    disk
}

fn files_of(results: &[Record]) -> Vec<&str> {
    results.iter().map(|record| record.file.as_str()).collect()
}

#[test]
fn a_directory_of_three_files_gives_two_records() {
    let mut disk = three_files();
    let entries = disk.listing();
    assert_eq!(entries, vec!["dir/a.png", "dir/b.txt", "dir/c.jpeg"]);
    let log = run(&mut disk, entries, None, 100);
    assert_eq!(files_of(&log.results), vec!["dir/a.png", "dir/c.jpeg"]);
    for record in &log.results {
        assert!(!record.blurhash.is_empty());
        assert_eq!(record.blurhash.chars().count(), 36);
    }
    assert_eq!(log.ticks, 3);
    assert_eq!(log.attempted, 3);
    assert_eq!(log.skips, vec![Skip::Undecodable]);
    assert_eq!(disk.renames, vec![("dir/b.txt".to_string(), "dir/b.jpg".to_string())]);
    assert_eq!(disk.listing(), vec!["dir/a.png", "dir/b.jpg", "dir/c.jpeg"]);
}

#[test]
fn the_records_hold_the_hashes_of_the_pictures() {
    let mut disk = three_files();
    let entries = disk.listing();
    let log = run(&mut disk, entries, None, 100);
    let a = image::load_from_memory(&disk.read("dir/a.png").unwrap()).unwrap().to_rgba8();
    let c = image::load_from_memory(&disk.read("dir/c.jpeg").unwrap()).unwrap().to_rgba8();
    assert_eq!(log.results[0].blurhash, blurhash::encode(4, 4, 100, 100, &a).unwrap());
    assert_eq!(log.results[1].blurhash, blurhash::encode(4, 4, 50, 50, &c).unwrap());
    assert_ne!(log.results[0].blurhash, log.results[1].blurhash);
}

#[test]
fn a_second_run_renames_nothing_and_repeats_the_results() {
    let mut disk = three_files();
    let entries = disk.listing();
    let first = run(&mut disk, entries, None, 2);
    assert_eq!(disk.renames.len(), 1);
    let entries = disk.listing();
    let second = run(&mut disk, entries, None, 2);
    assert_eq!(disk.renames.len(), 1);
    assert_eq!(second.results, first.results);
    assert_eq!(second.attempted, 3);
    let entries = disk.listing();
    let third = run(&mut disk, entries, None, 1);
    assert_eq!(disk.renames.len(), 1);
    assert_eq!(third.results, first.results);
}

#[test]
fn the_chunk_size_does_not_change_a_run() {
    let mut whole = three_files();
    let in_one_chunk = run(&mut whole, vec![
        "dir/a.png".to_string(),
        "dir/b.txt".to_string(),
        "dir/c.jpeg".to_string(),
    ], None, 3);
    for chunk_size in [1usize, 2, 4, 100] {
        let mut disk = three_files();
        let entries = disk.listing();
        let log = run(&mut disk, entries, None, chunk_size);
        assert_eq!(log.results, in_one_chunk.results);
        assert_eq!(log.ticks, 3);
        assert_eq!(log.attempted, 3);
        assert_eq!(disk.listing(), whole.listing());
    }
}

#[test]
fn a_sample_leaves_the_other_entries_alone() {
    let mut disk = three_files();
    let entries = disk.listing();
    let log = run(&mut disk, entries, Some(1), 100);
    assert_eq!(files_of(&log.results), vec!["dir/a.png"]);
    assert_eq!(log.ticks, 1);
    assert_eq!(log.attempted, 1);
    assert!(disk.renames.is_empty());
    assert_eq!(disk.listing(), vec!["dir/a.png", "dir/b.txt", "dir/c.jpeg"]);

    let mut disk = three_files();
    let entries = disk.listing();
    let log = run(&mut disk, entries, Some(2), 1);
    assert_eq!(files_of(&log.results), vec!["dir/a.png"]);
    assert_eq!(log.attempted, 2);
    assert_eq!(disk.renames.len(), 1);
}

#[test]
fn a_sample_at_or_above_the_count_runs_over_everything() {
    for sample in [Some(3), Some(4), Some(usize::MAX), None] {
        let mut disk = three_files();
        let entries = disk.listing();
        let log = run(&mut disk, entries, sample, 2);
        assert_eq!(files_of(&log.results), vec!["dir/a.png", "dir/c.jpeg"]);
        assert_eq!(log.attempted, 3);
    }
}

#[test]
fn every_failure_is_counted_and_left_out() {
    let mut disk = three_files();
    disk.files.insert("dir/d.dat".to_string(), vec![0; 8]);
    disk.locked.push("dir/d.dat".to_string());
    let big = image::GrayImage::new(4000, 2501);
    let mut out = std::io::Cursor::new(Vec::new());
    image::DynamicImage::ImageLuma8(big).write_to(&mut out, image::ImageFormat::Png).unwrap();
    disk.files.insert("dir/e.png".to_string(), out.into_inner());
    let mut entries = disk.listing();
    entries.push("dir/gone.png".to_string());
    let log = run(&mut disk, entries, None, 4);
    assert_eq!(files_of(&log.results), vec!["dir/a.png", "dir/c.jpeg"]);
    assert_eq!(log.ticks, 6);
    assert_eq!(log.attempted, 6);
    assert_eq!(
        log.skips,
        vec![
            Skip::Undecodable,
            Skip::RenameFailed,
            Skip::Oversize { width: 4000, height: 2501 },
            Skip::Unreadable,
        ]
    );
    assert!(disk.files.contains_key("dir/d.dat"));
}

#[test]
fn a_renamed_jpeg_is_listed_under_its_new_path() {
    let mut disk = FakeDisk::new();
    disk.files.insert("scan.JPG".to_string(), picture(20, 10, image::ImageFormat::Jpeg));
    let log = run(&mut disk, vec!["scan.JPG".to_string()], None, 100);
    assert_eq!(files_of(&log.results), vec!["scan.jpg"]);
    assert_eq!(disk.listing(), vec!["scan.jpg"]);
}
