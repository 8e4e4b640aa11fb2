use std::path::PathBuf;

use filego::check::ChunkAudit;
use filego::error::ProcessErrorKind;
use filego::merge::merge_order;
use filego::ordinal::chunk_name;
use filego::split::{Chunk, Chunker, Split, SplitResult};
use filego::{BUFFER_CAPACITY_MAX_DEFAULT, CHUNK_SIZE_DEFAULT};

const MIB: usize = 1024 * 1024;

fn sample(len: usize) -> Vec<u8> {
    (0..len).map(|i| (i % 251) as u8).collect()
}

/// Feeds `data` to a chunker in pieces of `stride` bytes and collects every chunk.
fn split_in_memory(data: &[u8], chunk_size: usize, stride: usize) -> (Vec<Chunk>, SplitResult) {
    let mut chunker = Chunker::new(chunk_size);
    let mut chunks: Vec<Chunk> = Vec::new();
    for piece in data.chunks(stride) {
        chunks.extend(chunker.feed(piece));
    }
    if let Some(last) = chunker.finish() {
        chunks.push(last);
    }
    let result = SplitResult { file_size: data.len(), total_chunks: chunks.len() };
    (chunks, result)
}

#[test]
fn five_mib_split_into_two_mib_chunks() {
    let data = sample(5 * MIB);
    let (chunks, result) = split_in_memory(&data, 2 * MIB, 2 * MIB);
    assert_eq!(result, SplitResult { file_size: 5 * 1024 * 1024, total_chunks: 3 });
    let sizes: Vec<usize> = chunks.iter().map(|c| c.data.len()).collect();
    assert_eq!(sizes, vec![2 * MIB, 2 * MIB, MIB]);
    let ordinals: Vec<usize> = chunks.iter().map(|c| c.ordinal).collect();
    assert_eq!(ordinals, vec![0, 1, 2]);

    let mut audit = ChunkAudit::new(result.file_size, result.total_chunks);
    while !audit.is_complete() {
        let i = audit.next_ordinal();
        audit.record(Some(chunks[i].data.len()));
    }
    let check = audit.finish();
    assert!(check.success);
    assert!(check.error.is_none());

    let names: Vec<String> = vec![chunk_name(2), chunk_name(0), chunk_name(1)];
    let contents: Vec<&Vec<u8>> = vec![&chunks[2].data, &chunks[0].data, &chunks[1].data];
    let order = merge_order(&names).unwrap();
    assert_eq!(order, vec![1, 2, 0]);
    let merged: Vec<u8> = order.iter().flat_map(|&j| contents[j].iter().copied()).collect();
    assert_eq!(merged, data);
}

#[test]
fn empty_input_yields_no_chunk() {
    let (chunks, result) = split_in_memory(&[], 2 * MIB, 2 * MIB);
    assert!(chunks.is_empty());
    assert_eq!(result, SplitResult { file_size: 0, total_chunks: 0 });
    let check = ChunkAudit::new(0, 0).finish();
    assert!(check.success);
    assert!(check.error.is_none());
}

#[test]
fn reads_that_straddle_chunk_boundaries() {
    let data = sample(23);
    let (chunks, result) = split_in_memory(&data, 5, 3);
    assert_eq!(result.total_chunks, 5);
    let sizes: Vec<usize> = chunks.iter().map(|c| c.data.len()).collect();
    assert_eq!(sizes, vec![5, 5, 5, 5, 3]);
    assert_eq!(chunks[1].data, data[5..10].to_vec());
    assert_eq!(chunks[4].data, data[20..23].to_vec());
    let ordinals: Vec<usize> = chunks.iter().map(|c| c.ordinal).collect();
    assert_eq!(ordinals, vec![0, 1, 2, 3, 4]);
}

#[test]
fn exact_multiple_has_no_short_chunk() {
    let data = sample(12);
    let (chunks, result) = split_in_memory(&data, 4, 7);
    assert_eq!(result.total_chunks, 3);
    assert!(chunks.iter().all(|c| c.data.len() == 4));
}

#[test]
fn one_large_read_completes_several_chunks() {
    let data = sample(10);
    let mut chunker = Chunker::new(3);
    let out = chunker.feed(&data);
    assert_eq!(out.len(), 3);
    assert_eq!(chunker.total_chunks(), 3);
    assert_eq!(chunker.consumed_len(), 10);
    let last = chunker.finish().unwrap();
    assert_eq!(last.ordinal, 3);
    assert_eq!(last.data, vec![data[9]]);
}

#[test]
fn chunk_size_one() {
    let data = sample(4);
    let (chunks, result) = split_in_memory(&data, 1, 2);
    assert_eq!(result.total_chunks, 4);
    assert!(chunks.iter().all(|c| c.data.len() == 1));
}

#[test]
fn split_then_check_and_merge_round_trip() {
    let data = sample(1000);
    let (chunks, result) = split_in_memory(&data, 64, 100);
    let mut audit = ChunkAudit::new(result.file_size, result.total_chunks);
    for c in &chunks {
        audit.record(Some(c.data.len()));
    }
    assert!(audit.finish().success);

    let listing: Vec<usize> = (0..chunks.len()).rev().collect();
    let names: Vec<String> = listing.iter().map(|&o| chunk_name(o)).collect();
    let order = merge_order(&names).unwrap();
    let merged: Vec<u8> =
        order.iter().flat_map(|&j| chunks[listing[j]].data.iter().copied()).collect();
    assert_eq!(merged, data);
}

#[test]
fn split_defaults() {
    let split = Split::new();
    assert!(split.in_file.is_none());
    assert!(split.out_dir.is_none());
    assert_eq!(split.chunk_size, CHUNK_SIZE_DEFAULT);
    assert_eq!(split.cap_max, BUFFER_CAPACITY_MAX_DEFAULT);
    assert_eq!(CHUNK_SIZE_DEFAULT, 2 * 1024 * 1024);
    assert_eq!(BUFFER_CAPACITY_MAX_DEFAULT, 10 * 1024 * 1024);
    let split = Split::default();
    assert_eq!(split.chunk_size, CHUNK_SIZE_DEFAULT);
}

#[test]
fn split_options_report_the_first_unset_setting() {
    let e = Split::new().options().unwrap_err();
    assert_eq!(e.kind, ProcessErrorKind::InvalidInput);
    assert_eq!(e.message, "in_file is not set");

    let e = Split::new().in_file(PathBuf::from("a")).options().unwrap_err();
    assert_eq!(e.message, "out_dir is not set");

    let e = Split::new()
        .in_file(PathBuf::from("a"))
        .out_dir(PathBuf::from("b"))
        .chunk_size(0)
        .options()
        .unwrap_err();
    assert_eq!(e.kind, ProcessErrorKind::InvalidInput);
    assert_eq!(e.message, "chunk_size is 0");
}

#[test]
fn split_options_carry_the_settings() {
    let options = Split::new()
        .in_file(PathBuf::from("in").join("file"))
        .out_dir(PathBuf::from("out"))
        .chunk_size(1024)
        .max_buffer_capacity(512)
        .options()
        .unwrap();
    assert_eq!(options.in_file, PathBuf::from("in").join("file"));
    assert_eq!(options.out_dir, PathBuf::from("out"));
    assert_eq!(options.chunk_size, 1024);
    assert_eq!(options.max_buffer_capacity, 512);
    assert_eq!(options.buffer_capacity(), 512);

    let options = Split::new()
        .in_file(PathBuf::from("in"))
        .out_dir(PathBuf::from("out"))
        .chunk_size(100)
        .options()
        .unwrap();
    assert_eq!(options.buffer_capacity(), 100);
}
