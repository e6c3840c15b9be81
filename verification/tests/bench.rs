use std::collections::hash_map::DefaultHasher;
use std::hash::Hasher;
use uring_positioned_io::bench::{
    check_read, copy_block, madvise_rand, random_position, read_position, samples_since,
    time_is_over, Metric, MmapWorker, Progress, ReadFault, LOOK_INTERVAL, PLAIN_LOOK_INTERVAL,
};
use uring_positioned_io::block::{
    gen_block, gen_hash, verify_buf, verify_buf_le, verify_words, Mismatch, BLOCK_SIZE,
};
use uring_positioned_io::channel::FinishSignal;
use uring_positioned_io::error::UringError;
use uring_positioned_io::generate::{block_file_name, Generate, GenerateAction};
use uring_positioned_io::word::{get_word, put_word, ByteOrder};

fn expected_hash(id: usize, block: usize) -> u64 {
    let mut hasher = DefaultHasher::default();
    hasher.write_usize(id);
    hasher.write_usize(block);
    hasher.finish()
}

#[test]
fn the_hash_is_that_of_the_two_numbers() {
    for (id, block) in [(0, 0), (0, 1), (1, 0), (127, 262143), (usize::MAX, 1 << 40)] {
        assert_eq!(gen_hash(id, block), expected_hash(id, block));
    }
    assert_ne!(gen_hash(0, 1), gen_hash(1, 0));
}

#[test]
fn words_have_their_order() {
    let mut buf = vec![9];
    put_word(ByteOrder::Big, &mut buf, 0x0102030405060708);
    put_word(ByteOrder::Little, &mut buf, 0x0102030405060708);
    assert_eq!(buf, vec![9, 1, 2, 3, 4, 5, 6, 7, 8, 8, 7, 6, 5, 4, 3, 2, 1]);
    let mut rest = &buf[1..];
    assert_eq!(get_word(ByteOrder::Big, &mut rest), 0x0102030405060708);
    assert_eq!(get_word(ByteOrder::Little, &mut rest), 0x0102030405060708);
    assert!(rest.is_empty());
}

#[test]
fn a_block_is_filled_with_its_hash() {
    let block = gen_block(ByteOrder::Big, 3, 5);
    assert_eq!(block.len(), 4096);
    for word in block.chunks(8) {
        assert_eq!(word, expected_hash(3, 5).to_be_bytes());
    }
    let block = gen_block(ByteOrder::Little, 3, 5);
    assert_eq!(block.len(), BLOCK_SIZE);
    for word in block.chunks(8) {
        assert_eq!(word, expected_hash(3, 5).to_le_bytes());
    }
}

#[test]
fn a_generated_block_verifies() {
    assert_eq!(verify_buf(&gen_block(ByteOrder::Big, 3, 5), 3, 5), Ok(()));
    assert_eq!(verify_buf_le(&gen_block(ByteOrder::Little, 3, 5), 3, 5), Ok(()));
}

#[test]
fn another_block_does_not_verify() {
    let found = gen_hash(5, 3);
    let expected = gen_hash(3, 5);
    assert_eq!(
        verify_buf(&gen_block(ByteOrder::Big, 5, 3), 3, 5),
        Err(Mismatch::Word { index: 0, found, expected })
    );
    let mut block = gen_block(ByteOrder::Big, 3, 5);
    block[8 * 511 + 7] ^= 1;
    assert_eq!(
        verify_buf(&block, 3, 5),
        Err(Mismatch::Word { index: 511, found: expected ^ 1, expected })
    );
}

#[test]
fn a_block_has_its_length() {
    let block = gen_block(ByteOrder::Big, 3, 5);
    assert_eq!(verify_buf(&block[..4088], 3, 5), Err(Mismatch::Length { len: 4088 }));
    assert_eq!(verify_buf(&[], 3, 5), Err(Mismatch::Length { len: 0 }));
    let block = gen_block(ByteOrder::Little, 3, 5);
    assert_eq!(verify_buf_le(&block[..4088], 3, 5), Ok(()));
    assert_eq!(verify_buf_le(&[], 3, 5), Ok(()));
    assert_eq!(verify_buf_le(&block[..13], 3, 5), Err(Mismatch::Trailing { left: 5 }));
}

#[test]
fn the_first_wrong_word_is_reported() {
    let bytes = [0, 0, 0, 0, 0, 0, 0, 1, 0, 0, 0, 0, 0, 0, 0, 2, 0, 0, 0, 0, 0, 0, 0, 3];
    assert_eq!(
        verify_words(ByteOrder::Big, &bytes, 1),
        Err(Mismatch::Word { index: 1, found: 2, expected: 1 })
    );
    assert_eq!(
        verify_words(ByteOrder::Little, &bytes, 1),
        Err(Mismatch::Word { index: 0, found: 1 << 56, expected: 1 })
    );
}

#[test]
fn files_are_named_by_their_number() {
    assert_eq!(block_file_name(0), "0.blk");
    assert_eq!(block_file_name(7), "7.blk");
    assert_eq!(block_file_name(10), "10.blk");
    assert_eq!(block_file_name(1234567890), "1234567890.blk");
    assert_eq!(block_file_name(usize::MAX), format!("{}.blk", usize::MAX));
}

fn generated(order: ByteOrder, nf: usize, nb: usize) -> Vec<(String, Vec<u8>)> {
    let mut job = Generate::new(order, nf, nb);
    let mut files: Vec<(String, Vec<u8>)> = vec![];
    loop {
        match job.next() {
            GenerateAction::Open { id, name } => {
                assert_eq!(id, files.len());
                files.push((name, vec![]));
            }
            GenerateAction::Write(bytes) => files.last_mut().unwrap().1.extend(bytes),
            GenerateAction::Done => {
                assert_eq!(job.next(), GenerateAction::Done);
                return files;
            }
        }
    }
}

#[test]
fn every_block_of_every_file_verifies() {
    let files = generated(ByteOrder::Big, 3, 4);
    assert_eq!(files.len(), 3);
    for (fid, (name, file)) in files.iter().enumerate() {
        assert_eq!(*name, format!("{}.blk", fid));
        assert_eq!(file.len(), 4 * 4096);
        for blkid in 0..4 {
            let (id, offset) = read_position(fid, blkid);
            assert_eq!(id as usize, fid);
            let from = offset as usize;
            let buf = &file[from..from + 4096];
            assert_eq!(check_read(4096, buf, fid, blkid), Ok(()));
            assert_eq!(copy_block(file, blkid), buf);
            assert!(check_read(4096, buf, fid, blkid + 1).is_err());
        }
    }
    for (fid, (_, file)) in generated(ByteOrder::Little, 2, 2).iter().enumerate() {
        assert_eq!(verify_buf_le(&file[..4096], fid, 0), Ok(()));
        assert_eq!(verify_buf_le(&file[4096..], fid, 1), Ok(()));
    }
}

#[test]
fn files_without_blocks_are_empty() {
    assert_eq!(
        generated(ByteOrder::Big, 2, 0),
        vec![("0.blk".to_string(), vec![]), ("1.blk".to_string(), vec![])]
    );
    assert_eq!(generated(ByteOrder::Big, 0, 5), vec![]);
}

#[test]
fn positions_lie_in_the_files() {
    for _ in 0..200 {
        let (fid, blkid) = random_position(3, 5);
        assert!(fid < 3 && blkid < 5);
    }
    assert_eq!(random_position(1, 1), (0, 0));
    assert!((0..200).any(|_| random_position(1000, 1000) != random_position(1000, 1000)));
}

#[test]
fn offsets_are_in_bytes() {
    assert_eq!(read_position(2, 3), (2, 12288));
    assert_eq!(read_position(0x1_0000_0002, 0), (2, 0));
}

#[test]
fn a_short_read_is_a_fault() {
    let block = gen_block(ByteOrder::Big, 3, 5);
    assert_eq!(check_read(100, &block, 3, 5), Err(ReadFault::Size(100)));
    assert_eq!(
        check_read(4096, &block[..8], 3, 5),
        Err(ReadFault::Block(Mismatch::Length { len: 8 }))
    );
}

#[test]
fn the_clock_is_looked_at_now_and_then() {
    let mut progress = Progress::new();
    let looks = (0..25000).filter(|_| progress.completed(LOOK_INTERVAL)).count();
    assert_eq!(looks, 2);
    assert_eq!(progress.cnt, 25000);
    assert_eq!((0..3000).filter(|_| progress.completed(PLAIN_LOOK_INTERVAL)).count(), 3);
    assert_eq!(PLAIN_LOOK_INTERVAL, 1000);
}

#[test]
fn the_reading_is_told_to_stop_once() {
    let mut progress = Progress::new();
    assert!(!progress.looked(false));
    assert!(progress.looked(true));
    assert!(!progress.looked(true));
    assert!(!progress.looked(false));
}

#[test]
fn a_worker_stops_at_the_end_of_its_channel() {
    assert!(MmapWorker::stops(10000, FinishSignal::Disconnected));
    assert!(!MmapWorker::stops(10001, FinishSignal::Disconnected));
    assert!(!MmapWorker::stops(10000, FinishSignal::Received));
    assert!(!MmapWorker::stops(10000, FinishSignal::Empty));
    let (tx, rx) = crossbeam_channel::unbounded();
    let mut worker = MmapWorker::new(rx);
    assert!(!(0..10000).any(|_| worker.completed()));
    tx.send(()).unwrap();
    drop(tx);
    assert!(!(0..10000).any(|_| worker.completed()));
    assert_eq!((0..10000).position(|_| worker.completed()), Some(9999));
}

#[test]
fn a_report_counts_what_is_new() {
    let mut total = 0;
    assert_eq!(samples_since(None, &mut total), 0);
    assert_eq!(samples_since(Some(30), &mut total), 30);
    assert_eq!(samples_since(Some(42), &mut total), 12);
    assert_eq!(total, 42);
}

#[test]
fn advice_that_fails_has_a_code() {
    assert_eq!(madvise_rand::<()>(0, 22), Ok(()));
    assert_eq!(madvise_rand::<()>(-1, 22), Err(UringError::Os(22)));
}

#[test]
fn the_metric_has_a_name() {
    assert_eq!(Metric::BlockOp.to_string(), "BlockOp");
}

#[test]
fn every_sample_is_reported_once() {
    let counts = [None, Some(3), Some(3), Some(10), Some(11)];
    let mut total = 0;
    let samples: Vec<u64> = counts.iter().map(|count| samples_since(*count, &mut total)).collect();
    assert_eq!(samples, vec![0, 3, 0, 7, 1]);
    assert_eq!(samples.iter().sum::<u64>(), 11);
    assert_eq!(total, 11);
}

#[test]
fn the_time_is_over_after_its_seconds() {
    assert!(!time_is_over(59, 60));
    assert!(time_is_over(60, 60));
    assert!(time_is_over(61, 60));
    assert!(time_is_over(0, 0));
}
