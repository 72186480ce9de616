use meta_hybrid::sparse::{
    copy_sparse_file, copy_sparse_with_reads, is_all_zero, ChunkAction, CopyAction, Segment,
    SegmentType, SparseCopy, CHUNK_SIZE,
};

fn data(start: u64, end: u64) -> Segment {
    Segment { segment_type: SegmentType::Data, start, end }
}

fn hole(start: u64, end: u64) -> Segment {
    Segment { segment_type: SegmentType::Hole, start, end }
}

fn sample(len: usize) -> Vec<u8> {
    (0..len).map(|i| (i % 251) as u8 + 1).collect()
}

#[test]
fn copy_without_hole_punch_equals_source() {
    let mut src = vec![0u8; 20000];
    for i in 0..4500 {
        src[i] = (i % 200) as u8 + 1;
    }
    for i in 12288..20000 {
        src[i] = (i % 7) as u8;
    }
    let segments = vec![data(0, 4499), hole(4500, 12287), data(12288, 19999)];
    let dst = copy_sparse_file(&src, segments, false);
    assert_eq!(dst.len(), src.len());
    assert_eq!(dst, src);
}

#[test]
fn copy_with_hole_punch_equals_source() {
    let mut src = vec![0u8; 3 * 4096 + 17];
    for i in 4096..8192 {
        src[i] = 9;
    }
    src[3 * 4096 + 16] = 1;
    let segments = vec![data(0, 3 * 4096 + 16)];
    assert_eq!(copy_sparse_file(&src, segments.clone(), true), src);
    assert_eq!(copy_sparse_file(&src, segments, false), src);
}

#[test]
fn bytes_outside_data_segments_are_not_copied() {
    let src = sample(100);
    let dst = copy_sparse_file(&src, vec![data(10, 19), hole(20, 29), data(90, 500)], false);
    assert_eq!(dst.len(), 100);
    for i in 0..100 {
        let expected = if (10..20).contains(&i) || i >= 90 { src[i] } else { 0 };
        assert_eq!(dst[i], expected, "byte {i}");
    }
}

#[test]
fn empty_and_degenerate_inputs() {
    assert_eq!(copy_sparse_file(&vec![], vec![data(0, 10)], false), Vec::<u8>::new());
    let src = sample(10);
    assert_eq!(copy_sparse_file(&src, vec![], false), vec![0u8; 10]);
    assert_eq!(copy_sparse_file(&src, vec![data(5, 4)], false), vec![0u8; 10]);
    assert_eq!(copy_sparse_file(&src, vec![data(3, 3)], false)[3], src[3]);
    assert_eq!(copy_sparse_file(&src, vec![data(0, u64::MAX)], true), src);
    assert_eq!(copy_sparse_file(&src, vec![data(u64::MAX, u64::MAX)], true), vec![0u8; 10]);
}

#[test]
fn zero_chunk_is_skipped_only_when_punching() {
    let zeros = vec![0u8; 4096];
    let mut punch = SparseCopy::new(vec![data(0, 8191)], true);
    assert_eq!(punch.next(), CopyAction::Seek { offset: 0, len: 4096 });
    assert_eq!(punch.chunk(&zeros), ChunkAction::Skip);
    let mut plain = SparseCopy::new(vec![data(0, 8191)], false);
    assert_eq!(plain.next(), CopyAction::Seek { offset: 0, len: 4096 });
    assert_eq!(plain.chunk(&zeros), ChunkAction::Write);
    let mut mixed = zeros.clone();
    mixed[4095] = 1;
    assert_eq!(punch.next(), CopyAction::Read { len: 4096 });
    assert_eq!(punch.chunk(&mixed), ChunkAction::Write);
    assert_eq!(punch.next(), CopyAction::Done);
    assert!(is_all_zero(&zeros));
    assert!(!is_all_zero(&mixed));
    assert!(is_all_zero(&[]));
}

#[test]
fn requests_walk_the_data_segments_in_chunks() {
    assert_eq!(CHUNK_SIZE, 4096);
    let mut copy = SparseCopy::new(
        vec![hole(0, 99), data(100, 100 + 4096 + 9), data(9000, 8999), data(10000, 10000)],
        false,
    );
    let buf = vec![7u8; 4096];
    assert_eq!(copy.next(), CopyAction::Seek { offset: 100, len: 4096 });
    assert_eq!(copy.next(), CopyAction::Read { len: 4096 });
    assert_eq!(copy.chunk(&buf[..1000]), ChunkAction::Write);
    assert_eq!(copy.next(), CopyAction::Read { len: 3106 });
    assert_eq!(copy.chunk(&buf[..3106]), ChunkAction::Write);
    assert_eq!(copy.next(), CopyAction::Seek { offset: 10000, len: 1 });
    assert_eq!(copy.chunk(&buf[..1]), ChunkAction::Write);
    assert_eq!(copy.next(), CopyAction::Done);
    assert_eq!(copy.next(), CopyAction::Done);
    assert_eq!(copy.chunk(&buf[..1]), ChunkAction::End);
}

#[test]
fn empty_read_ends_the_segment() {
    let mut copy = SparseCopy::new(vec![data(0, 99), data(200, 299)], true);
    assert_eq!(copy.next(), CopyAction::Seek { offset: 0, len: 100 });
    assert_eq!(copy.chunk(&[]), ChunkAction::End);
    assert_eq!(copy.next(), CopyAction::Seek { offset: 200, len: 100 });
}

#[test]
fn short_reads_change_nothing() {
    let mut src = sample(3 * 4096 + 100);
    for b in &mut src[5000..9500] {
        *b = 0;
    }
    let segments = vec![data(0, 4999), hole(5000, 9499), data(9500, 3 * 4096 + 99)];
    for punch in [false, true] {
        let full = copy_sparse_file(&src, segments.clone(), punch);
        assert_eq!(full, src);
        for reads in [vec![1], vec![0], vec![7, 4096, 0, 3], vec![5000], vec![4095, 1]] {
            assert_eq!(copy_sparse_with_reads(&src, segments.clone(), punch, &reads), full);
        }
    }
    let partial = vec![data(10, 20), data(15, 5000)];
    let expected = copy_sparse_file(&src, partial.clone(), true);
    assert_eq!(copy_sparse_with_reads(&src, partial, true, &vec![3, 1000]), expected);
    assert_eq!(&expected[..10], &[0u8; 10][..]);
    assert_eq!(&expected[10..5000], &src[10..5000]);
}
