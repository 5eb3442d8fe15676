use std::collections::BTreeMap;

use compositor::{contains_cluster_magic, MatroskaChunker, Part, DEFAULT_CHUNK_SIZE, SEARCH_LIMIT};

const MAGIC: [u8; 4] = [0x1F, 0x43, 0xB6, 0x75];

/// A small buffer that starts a new cluster.
fn cluster_start(n: u8) -> Vec<u8> {
    let mut b = MAGIC.to_vec();
    b.extend_from_slice(&[n; 12]);
    b
}

/// A large buffer of cluster data.
fn cluster_data(n: u8, len: usize) -> Vec<u8> {
    (0..len).map(|i| (i as u8).wrapping_mul(31).wrapping_add(n)).collect()
}

fn collect(parts: &mut BTreeMap<u64, Vec<u8>>, part: Option<Part>) {
    if let Some(p) = part {
        parts.insert(p.index, p.bytes);
    }
}

#[test]
fn cluster_magic_is_found_anywhere() {
    assert!(contains_cluster_magic(&MAGIC));
    assert!(contains_cluster_magic(&[1, 2, 0x1F, 0x43, 0xB6, 0x75, 9]));
    assert!(!contains_cluster_magic(&[0x1F, 0x43, 0xB6]));
    assert!(!contains_cluster_magic(&[0x1F, 0x43, 0xB6, 0x76]));
    assert!(!contains_cluster_magic(&[]));
}

#[test]
fn new_chunker_defaults() {
    let mut c = MatroskaChunker::new();
    assert_eq!(c.chunk_size(), DEFAULT_CHUNK_SIZE);
    assert_eq!(c.chunk_size(), 5_000_000);
    c.set_chunk_size(10);
    assert_eq!(c.chunk_size(), 10);
    assert_eq!(c.parts_produced(), 0);
    assert_eq!(SEARCH_LIMIT, 400);
}

#[test]
fn writes_fit_the_counters() {
    let mut c = MatroskaChunker::new();
    assert!(c.can_write(0));
    assert!(c.can_write(usize::MAX));
    c.write(&[1, 2, 3]);
    assert!(c.can_write(usize::MAX - 3));
    assert!(!c.can_write(usize::MAX - 2));
}

#[test]
fn parts_are_numbered_and_reach_the_chunk_size() {
    let mut c = MatroskaChunker::new();
    c.set_chunk_size(1000);
    let mut seen = Vec::new();
    assert!(c.write(&[7u8; 50]).is_none());
    for n in 0..10u8 {
        if let Some(p) = c.write(&cluster_start(n)) {
            seen.push(p);
        }
        assert!(c.write(&cluster_data(n, 700)).is_none());
    }
    assert!(!seen.is_empty());
    for (i, p) in seen.iter().enumerate() {
        assert_eq!(p.index, i as u64);
        assert!(p.bytes.len() >= 1000);
    }
    assert_eq!(c.parts_produced(), seen.len() as u64);
}

#[test]
fn large_buffers_are_not_searched() {
    let mut c = MatroskaChunker::new();
    c.set_chunk_size(1);
    let mut big = cluster_start(1);
    big.extend_from_slice(&[0u8; 400]);
    assert!(c.write(&[1, 2, 3]).is_none());
    // a large buffer with the magic bytes does not start a cluster
    assert!(c.write(&big).is_none());
    // a short one does, and hands out everything so far
    let p = c.write(&cluster_start(2)).unwrap();
    assert_eq!(p.index, 0);
    assert_eq!(p.bytes.len(), 3 + big.len());
}

#[test]
fn writing_keeps_every_byte() {
    let mut c = MatroskaChunker::new();
    c.set_chunk_size(300);
    let mut stream = Vec::new();
    let mut parts = Vec::new();
    for n in 0..20u8 {
        for buf in [cluster_start(n), cluster_data(n, 450 + n as usize)] {
            stream.extend_from_slice(&buf);
            if let Some(p) = c.write(&buf) {
                parts.extend_from_slice(&p.bytes);
            }
        }
        // every cluster but the current one has been handed out, in order
        assert_eq!(&parts[..], &stream[..parts.len()]);
        assert_eq!(stream.len() - parts.len(), 16 + 450 + n as usize);
    }
}

#[test]
fn seek_within_the_current_cluster_overwrites() {
    let mut c = MatroskaChunker::new();
    c.set_chunk_size(1);
    assert!(c.write(&[1, 2, 3, 4]).is_none());
    c.seek(1);
    assert!(c.write(&[9]).is_none());
    // a gap after the end is filled with zeros
    c.seek(6);
    assert!(c.write(&[5]).is_none());
    let parts = c.finish();
    assert_eq!(parts.len(), 1);
    assert_eq!(parts[0].index, 0);
    assert_eq!(parts[0].bytes, vec![1, 9, 3, 4, 0, 0, 5]);
}

#[test]
fn segments_without_byte_offset_are_ignored() {
    let mut c = MatroskaChunker::new();
    assert!(!c.handle_segment(None));
    assert!(c.handle_segment(Some(0)));
}

#[test]
fn finish_without_data_hands_out_an_empty_first_part() {
    let mut c = MatroskaChunker::new();
    let parts = c.finish();
    assert_eq!(parts.len(), 1);
    assert_eq!(parts[0].index, 0);
    assert!(parts[0].bytes.is_empty());
}

#[test]
fn multipart_upload_simulator() {
    let mut c = MatroskaChunker::new();
    c.set_chunk_size(5_000);
    let header: Vec<u8> = (0..60u8).collect();
    let mut stream = header.clone();
    let mut parts: BTreeMap<u64, Vec<u8>> = BTreeMap::new();
    collect(&mut parts, c.write(&header));
    for n in 0..40u8 {
        let start = cluster_start(n);
        let data = cluster_data(n, 1200);
        stream.extend_from_slice(&start);
        stream.extend_from_slice(&data);
        collect(&mut parts, c.write(&start));
        collect(&mut parts, c.write(&data));
    }
    // the muxer rewrites the header at the end of the stream
    let rewritten: Vec<u8> = (100..160u8).collect();
    assert!(c.handle_segment(Some(0)));
    collect(&mut parts, c.write(&rewritten));
    for p in c.finish() {
        parts.insert(p.index, p.bytes);
    }
    let mut file = vec![];
    for chunk in parts.values() {
        file.extend_from_slice(chunk);
    }
    let mut expected = stream.clone();
    expected[..60].copy_from_slice(&rewritten);
    assert_eq!(file.len(), expected.len());
    assert_eq!(file, expected);
    assert!(parts.len() > 2);
}

#[test]
fn header_rewritten_in_place_is_uploaded() {
    let mut c = MatroskaChunker::new();
    c.set_chunk_size(3_000);
    let header: Vec<u8> = (0..80u8).collect();
    let mut stream = header.clone();
    let mut parts: BTreeMap<u64, Vec<u8>> = BTreeMap::new();
    collect(&mut parts, c.write(&header));
    for n in 0..20u8 {
        let start = cluster_start(n);
        let data = cluster_data(n, 900);
        stream.extend_from_slice(&start);
        stream.extend_from_slice(&data);
        collect(&mut parts, c.write(&start));
        collect(&mut parts, c.write(&data));
    }
    // the muxer goes back into the header and fixes two fields in it
    assert!(c.handle_segment(Some(10)));
    collect(&mut parts, c.write(&[0xAA; 8]));
    collect(&mut parts, c.write(&[0xBB; 4]));
    assert!(c.handle_segment(Some(40)));
    collect(&mut parts, c.write(&[0xCC; 16]));
    for p in c.finish() {
        parts.insert(p.index, p.bytes);
    }
    let file: Vec<u8> = parts.values().flatten().copied().collect();
    let mut expected = stream.clone();
    expected[10..18].copy_from_slice(&[0xAA; 8]);
    expected[18..22].copy_from_slice(&[0xBB; 4]);
    expected[40..56].copy_from_slice(&[0xCC; 16]);
    assert_eq!(file, expected);
    assert!(parts.len() > 2);
}
