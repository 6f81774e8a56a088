//! Block hashes and stored blocks.

use cascade_engine::p2p_bridge::{indexed_id, parse_block_hash, stored_blocks, BlockHashError};
use cascade_engine::types::{FileEntry, ItemId};

#[test]
fn a_written_hash_reads_back() {
    let block: Vec<u8> = (0..32).map(|n| n * 7 + 1).collect();
    let lower: String = block.iter().map(|b| format!("{b:02x}")).collect();
    let upper: String = block.iter().map(|b| format!("{b:02X}")).collect();
    assert_eq!(parse_block_hash(&lower), Ok(Some(block.clone())));
    assert_eq!(parse_block_hash(&upper), Ok(Some(block)));
}

#[test]
fn hashes_of_another_length_name_no_block() {
    assert_eq!(parse_block_hash(""), Ok(None));
    assert_eq!(parse_block_hash("00ff"), Ok(None));
    assert_eq!(parse_block_hash(&"ab".repeat(33)), Ok(None));
}

#[test]
fn hashes_that_cannot_be_read_say_why() {
    let odd = parse_block_hash("abc").unwrap_err();
    assert_eq!(odd, BlockHashError::OutOfRange { at: 2 });
    assert_eq!(odd.message(), "hash string index out of range at 2");
    let digit = parse_block_hash("zz").unwrap_err();
    assert_eq!(digit, BlockHashError::InvalidDigit);
    assert_eq!(
        digit.message(),
        u8::from_str_radix("zz", 16).unwrap_err().to_string()
    );
    // A two-byte character is a pair, but no number; one that a pair would cut
    // is out of range.
    assert_eq!(parse_block_hash("é"), Err(BlockHashError::InvalidDigit));
    assert_eq!(
        parse_block_hash("aéb"),
        Err(BlockHashError::OutOfRange { at: 0 })
    );
    assert_eq!(
        parse_block_hash("00€0"),
        Err(BlockHashError::OutOfRange { at: 2 })
    );
    // The first fault is reported.
    assert_eq!(parse_block_hash("xxa"), Err(BlockHashError::InvalidDigit));
}

#[test]
fn pairs_are_read_as_std_reads_them() {
    for a in 0x20u8..0x7f {
        for b in 0x20u8..0x7f {
            let pair = format!("{}{}", a as char, b as char);
            let expected = u8::from_str_radix(&pair, 16).ok();
            let read = parse_block_hash(&format!("{pair}{}", "00".repeat(31)))
                .ok()
                .flatten()
                .map(|block| block[0]);
            assert_eq!(read, expected, "pair {pair:?}");
        }
    }
}

#[test]
fn test_try_fetch_returns_none_when_no_index() {
    let file = FileEntry::file(
        ItemId::new("gdrive", "nonexistent"),
        ItemId::new("gdrive", "root"),
        "test.txt".into(),
    );
    assert!(stored_blocks(&file, Vec::new()).is_none());
    let blocks = stored_blocks(&file, vec![vec![7; 32]]).unwrap();
    assert_eq!(blocks.size, 0);
    assert_eq!(blocks.hashes, vec![vec![7; 32]]);
    let sized = stored_blocks(&file.with_size(Some(9)), vec![vec![7; 32]]).unwrap();
    assert_eq!(sized.size, 9);
}

#[test]
fn files_are_indexed_by_path() {
    assert_eq!(indexed_id("a/b.txt"), ItemId::new("p2p", "a/b.txt"));
    assert_eq!(indexed_id("a").0, "p2p:a");
}
