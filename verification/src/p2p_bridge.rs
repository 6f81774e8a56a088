//! The bridge to peers: reading block hashes, and which stored blocks make up a
//! file.

use vstd::prelude::*;

use crate::bytes;
use crate::text;
use crate::types::{FileEntry, ItemId};

verus! {

/// How many bytes a block hash has.
pub const BLOCK_HASH_LEN: usize = 32;

/// Why a block hash cannot be read.
#[derive(Debug, Clone, Copy, PartialEq, Eq, Structural)]
pub enum BlockHashError {
    /// There are no two whole characters' bytes left at this offset.
    OutOfRange {
        /// The offset in bytes.
        at: usize,
    },
    /// Two bytes are no hexadecimal number.
    InvalidDigit,
}

impl BlockHashError {
    /// The error's text.
    pub open spec fn text(self) -> Seq<char> {
        match self {
            BlockHashError::OutOfRange { at } => "hash string index out of range at "@
                + text::decimal(at as int),
            BlockHashError::InvalidDigit => "invalid digit found in string"@,
        }
    }

    /// The error's text.
    pub fn message(&self) -> (r: String)
        ensures
            r@ == self.text(),
    {
        match self {
            BlockHashError::OutOfRange { at } => {
                let mut m: String = "hash string index out of range at ".to_owned();
                m.append(text::u64_text(*at as u64).as_str());
                m
            },
            BlockHashError::InvalidDigit => "invalid digit found in string".to_owned(),
        }
    }
}

/// The value of a hexadecimal digit, in either case of letters.
pub open spec fn hex_digit(b: u8) -> Option<int> {
    if 0x30 <= b <= 0x39 {
        Some(b - 0x30)
    } else if 0x41 <= b <= 0x46 {
        Some(b - 0x41 + 10)
    } else if 0x61 <= b <= 0x66 {
        Some(b - 0x61 + 10)
    } else {
        None
    }
}

/// The number that two bytes spell in hexadecimal. A plus sign may stand for the
/// first digit.
pub open spec fn hex_pair(a: u8, b: u8) -> Option<int> {
    match (hex_digit(a), hex_digit(b)) {
        (Some(x), Some(y)) => Some(x * 16 + y),
        (None, Some(y)) if a == 0x2b => Some(y),
        _ => None,
    }
}

/// Whether a character begins or the text ends at byte `i`.
pub open spec fn boundary(utf8: Seq<u8>, i: int) -> bool {
    i == utf8.len() || (0 <= i < utf8.len() && !(0x80 <= utf8[i] < 0xc0))
}

/// What two bytes at `i` of a hash stand for.
pub open spec fn pair_at(utf8: Seq<u8>, i: int) -> Result<u8, BlockHashError> {
    if i + 2 > utf8.len() || !boundary(utf8, i) || !boundary(utf8, i + 2) {
        Err(BlockHashError::OutOfRange { at: i as usize })
    } else {
        match hex_pair(utf8[i], utf8[i + 1]) {
            Some(n) => Ok(n as u8),
            None => Err(BlockHashError::InvalidDigit),
        }
    }
}

/// The bytes that a hash from byte `i` on stands for, pair by pair, or the first
/// thing wrong with it.
pub open spec fn pairs_from(utf8: Seq<u8>, i: int) -> Result<Seq<u8>, BlockHashError>
    decreases utf8.len() - i,
{
    if i >= utf8.len() {
        Ok(Seq::empty())
    } else {
        match pair_at(utf8, i) {
            Err(error) => Err(error),
            Ok(byte) => match pairs_from(utf8, i + 2) {
                Err(error) => Err(error),
                Ok(rest) => Ok(seq![byte] + rest),
            },
        }
    }
}

/// The value of a hexadecimal digit, in either case of letters.
fn digit_value(b: u8) -> (r: Option<u8>)
    ensures
        match r {
            Some(n) => hex_digit(b) == Some(n as int) && n < 16,
            None => hex_digit(b) is None,
        },
{
    if 0x30 <= b && b <= 0x39 {
        Some(b - 0x30)
    } else if 0x41 <= b && b <= 0x46 {
        Some(b - 0x41 + 10)
    } else if 0x61 <= b && b <= 0x66 {
        Some(b - 0x61 + 10)
    } else {
        None
    }
}

/// Whether a character begins or the text ends at byte `i`.
fn at_boundary(utf8: &[u8], i: usize) -> (r: bool)
    requires
        i <= utf8@.len(),
    ensures
        r == boundary(utf8@, i as int),
{
    i == utf8.len() || utf8[i] < 0x80 || utf8[i] >= 0xc0
}

/// Reads a block hash written in hexadecimal. A text that reads well but is not
/// the length of a block hash names no block.
pub fn parse_block_hash(hash: &str) -> (r: Result<Option<Vec<u8>>, BlockHashError>)
    ensures
        match r {
            Ok(Some(block)) => pairs_from(bytes::utf8(hash@), 0) == Ok::<Seq<u8>, BlockHashError>(
                block@,
            ) && block@.len() == BLOCK_HASH_LEN,
            Ok(None) => pairs_from(bytes::utf8(hash@), 0) matches Ok(block) && block.len()
                != BLOCK_HASH_LEN,
            Err(error) => pairs_from(bytes::utf8(hash@), 0) == Err::<Seq<u8>, BlockHashError>(
                error,
            ),
        },
{
    let utf8: &[u8] = hash.as_bytes();
    let n: usize = utf8.len();
    let ghost whole = pairs_from(utf8@, 0);
    let mut block: Vec<u8> = Vec::new();
    let mut i: usize = 0;
    while i < n
        invariant
            i <= n == utf8@.len(),
            utf8@ == bytes::utf8(hash@),
            whole == pairs_from(utf8@, 0),
            whole == (match pairs_from(utf8@, i as int) {
                Err(error) => Err::<Seq<u8>, BlockHashError>(error),
                Ok(rest) => Ok(block@ + rest),
            }),
        decreases n - i,
    {
        if n - i < 2 || !at_boundary(utf8, i) || !at_boundary(utf8, i + 2) {
            return Err(BlockHashError::OutOfRange { at: i });
        }
        let byte: u8 = match (digit_value(utf8[i]), digit_value(utf8[i + 1])) {
            (Some(x), Some(y)) => x * 16 + y,
            (None, Some(y)) if utf8[i] == 0x2b => y,
            _ => {
                return Err(BlockHashError::InvalidDigit);
            },
        };
        let ghost before = block@;
        block.push(byte);
        i += 2;
        proof {
            if let Ok(rest) = pairs_from(utf8@, i as int) {
                assert(before + (seq![byte] + rest) =~= block@ + rest);
            }
        }
    }
    assert(block@ + Seq::<u8>::empty() =~= block@);
    if block.len() == BLOCK_HASH_LEN {
        Ok(Some(block))
    } else {
        Ok(None)
    }
}

/// The blocks of a file as they are looked up: its size and the hashes in order.
#[derive(Debug)]
pub struct StoredBlocks {
    /// The file's size, or zero where it is not known.
    pub size: u64,
    /// The hashes of its blocks.
    pub hashes: Vec<Vec<u8>>,
}

/// The size that a file is put together to: its own, or zero where it is not known.
pub open spec fn block_size(file: FileEntry) -> u64 {
    match file.size {
        Some(size) => size,
        None => 0,
    }
}

/// A file is put together to its own size.
pub proof fn law_a_file_keeps_its_size(file: FileEntry)
    ensures
        file.size matches Some(size) ==> block_size(file) == size,
        file.size is None ==> block_size(file) == 0,
{
}

/// The blocks to put a file together from, given the hashes indexed for it; there
/// are none where nothing is indexed.
pub fn stored_blocks(file: &FileEntry, hashes: Vec<Vec<u8>>) -> (r: Option<StoredBlocks>)
    ensures
        r is Some == (hashes@.len() > 0),
        r matches Some(blocks) ==> blocks.size == block_size(*file),
        r matches Some(blocks) ==> blocks.hashes == hashes && blocks.size == (match file.size {
            Some(size) => size,
            None => 0,
        }),
{
    if hashes.len() == 0 {
        None
    } else {
        Some(StoredBlocks { size: file.size.unwrap_or(0), hashes })
    }
}

/// The identity under which a file is indexed by its path.
pub fn indexed_id(path: &str) -> (r: ItemId)
    ensures
        r@ == "p2p"@ + ":"@ + path@,
{
    ItemId::new("p2p", path)
}

/// The hexadecimal digit for a number below 16.
pub open spec fn hex_char(n: int) -> u8 {
    if n < 10 {
        (n + 0x30) as u8
    } else {
        (n - 10 + 0x61) as u8
    }
}

/// A block hash written out in hexadecimal.
pub open spec fn hex(block: Seq<u8>) -> Seq<u8>
    decreases block.len(),
{
    if block.len() == 0 {
        Seq::empty()
    } else {
        seq![hex_char(block[0] as int / 16), hex_char(block[0] as int % 16)] + hex(block.skip(1))
    }
}

/// Reading what was written out gives the block hash back.
pub proof fn law_a_written_hash_reads_back(block: Seq<u8>)
    ensures
        pairs_from(hex(block), 0) == Ok::<Seq<u8>, BlockHashError>(block),
{
    assert(hex(block) == Seq::<u8>::empty() + hex(block));
    lemma_reads_back(Seq::empty(), block);
}

/// The same behind other digits.
proof fn lemma_reads_back(before: Seq<u8>, block: Seq<u8>)
    ensures
        pairs_from(before + hex(block), before.len() as int) == Ok::<Seq<u8>, BlockHashError>(
            block,
        ),
    decreases block.len(),
{
    let text = before + hex(block);
    let i = before.len() as int;
    if block.len() > 0 {
        let pair = seq![hex_char(block[0] as int / 16), hex_char(block[0] as int % 16)];
        let rest = hex(block.skip(1));
        lemma_reads_back(before + pair, block.skip(1));
        assert(text =~= before + pair + rest);
        assert(text[i] == pair[0]);
        assert(text[i + 1] == pair[1]);
        if block.skip(1).len() > 0 {
            assert(rest[0] == hex_char(block.skip(1)[0] as int / 16));
            assert(text[i + 2] == rest[0]);
        } else {
            assert(rest.len() == 0);
        }
        assert(boundary(text, i));
        assert(boundary(text, i + 2));
        assert(pair_at(text, i) == Ok::<u8, BlockHashError>(block[0]));
        assert(seq![block[0]] + block.skip(1) =~= block);
    } else {
        assert(hex(block).len() == 0);
        assert(block =~= Seq::<u8>::empty());
    }
}

/// A hexadecimal digit stands for less than sixteen, a letter for the same in either
/// case, and each digit for one more than the one before.
pub proof fn law_hexadecimal_digits(b: u8)
    ensures
        hex_digit(b) matches Some(n) ==> 0 <= n < 16,
        hex_digit(0x30) == Some(0int),
        hex_digit(0x61) == Some(10int),
        0x41 <= b <= 0x46 ==> hex_digit(b) == hex_digit((b + 0x20) as u8),
        0x30 <= b < 0x39 || 0x61 <= b < 0x66 ==> hex_digit((b + 1) as u8)->0 == hex_digit(b)->0
            + 1,
        hex_digit(b) is Some ==> 0x30 <= b <= 0x39 || 0x41 <= b <= 0x46 || 0x61 <= b <= 0x66,
{
}

/// Two digits stand for sixteen times the first and the second, and a hash that can
/// be read has two digits for each of its bytes.
pub proof fn law_a_hash_has_two_digits_a_byte(utf8: Seq<u8>, i: int)
    requires
        0 <= i <= utf8.len(),
    ensures
        pairs_from(utf8, i) matches Ok(block) ==> {
            &&& utf8.len() - i == 2 * block.len()
            &&& forall|k: int|
                0 <= k < block.len() ==> hex_pair(utf8[i + 2 * k], utf8[i + 2 * k + 1]) == Some(
                    (#[trigger] block[k]) as int,
                )
        },
        forall|a: u8, b: u8|
            hex_digit(a) is Some && hex_digit(b) is Some ==> #[trigger] hex_pair(a, b) == Some(
                16 * hex_digit(a)->0 + hex_digit(b)->0,
            ),
    decreases utf8.len() - i,
{
    if i < utf8.len() && pairs_from(utf8, i) is Ok {
        law_a_hash_has_two_digits_a_byte(utf8, i + 2);
        let block = pairs_from(utf8, i)->Ok_0;
        let rest = pairs_from(utf8, i + 2)->Ok_0;
        assert(block.len() == rest.len() + 1);
        assert forall|k: int| 0 <= k < block.len() implies hex_pair(
            utf8[i + 2 * k],
            utf8[i + 2 * k + 1],
        ) == Some((#[trigger] block[k]) as int) by {
            if k > 0 {
                assert(block[k] == rest[k - 1]);
                assert(i + 2 + 2 * (k - 1) == i + 2 * k);
            }
        }
    }
}

/// A hash is refused at its first bad pair: for a lone last byte or a pair that splits a
/// character with the offset, and for bytes that are no digits as such. What stands
/// behind a good pair decides otherwise.
pub proof fn law_where_a_hash_is_refused(utf8: Seq<u8>, i: int)
    requires
        0 <= i < utf8.len() <= usize::MAX,
    ensures
        i + 1 == utf8.len() ==> (pairs_from(utf8, i) matches Err(BlockHashError::OutOfRange { at })
            && at == i),
        i + 2 == utf8.len() && !(0x80 <= utf8[i] < 0xc0) ==> {
            &&& hex_pair(utf8[i], utf8[i + 1]) is None ==> pairs_from(utf8, i) == Err::<
                Seq<u8>,
                BlockHashError,
            >(BlockHashError::InvalidDigit)
            &&& hex_pair(utf8[i], utf8[i + 1]) is Some ==> pairs_from(utf8, i) is Ok
        },
        0x80 <= utf8[i] < 0xc0 || (i + 2 < utf8.len() && 0x80 <= utf8[i + 2] < 0xc0) ==> (
        pairs_from(utf8, i) matches Err(BlockHashError::OutOfRange { at }) && at == i),
        pairs_from(utf8, i) is Ok ==> pairs_from(utf8, i + 2) is Ok,
        pairs_from(utf8, i + 2) is Err ==> pairs_from(utf8, i) is Err,
{
    if i + 2 == utf8.len() {
        assert(pairs_from(utf8, i + 2) == Ok::<Seq<u8>, BlockHashError>(Seq::empty()));
    }
}

/// The error about a hash that ends too soon gives the offset.
pub proof fn law_a_short_hash_is_located(at: usize)
    ensures
        text::decimal(at as int).is_suffix_of((BlockHashError::OutOfRange { at }).text()),
{
    let said = (BlockHashError::OutOfRange { at }).text();
    let end = text::decimal(at as int);
    assert(said.subrange(said.len() - end.len(), said.len() as int) =~= end);
}

} // verus!
