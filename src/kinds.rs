//! Operation kinds and the interest mask built from them.

use vstd::prelude::*;

verus! {

/// Bit of the mask for an inserted row.
pub const INSERT: u8 = 2;

/// Bit of the mask for an updated row.
pub const UPDATE: u8 = 4;

/// Bit of the mask for a deleted row.
pub const DELETE: u8 = 8;

/// The three kinds together, what `*` stands for.
pub const ALL_KINDS: u8 = 14;

/// The bits that a token of the kinds list adds to a mask.
pub open spec fn token_bits(tok: Seq<char>) -> u8 {
    if tok == "insert"@ {
        INSERT
    } else if tok == "update"@ {
        UPDATE
    } else if tok == "delete"@ {
        DELETE
    } else if tok == "*"@ {
        ALL_KINDS
    } else {
        0
    }
}

/// Whether `flag` has the bit `kind` set.
pub open spec fn has_bit(flag: u8, kind: u8) -> bool {
    flag & kind != 0
}

/// A mask made only of the three kind bits.
pub open spec fn is_kind_mask(flag: u8) -> bool {
    flag & ALL_KINDS == flag
}

/// One of the three single-kind bits.
pub open spec fn is_single_kind(kind: u8) -> bool {
    kind == INSERT || kind == UPDATE || kind == DELETE
}

pub proof fn lemma_or_bits(f: u8)
    ensures
        f | 2u8 | 4u8 | 8u8 == f | 14u8,
        f | 0u8 == f,
{
    assert(f | 2u8 | 4u8 | 8u8 == f | 14u8) by (bit_vector);
    assert(f | 0u8 == f) by (bit_vector);
}

/// Tells whether two texts hold the same characters.
pub fn same_text(a: &str, b: &str) -> (r: bool)
    ensures
        r == (a@ == b@),
{
    let n = a.unicode_len();
    if n != b.unicode_len() {
        return false;
    }
    let mut i: usize = 0;
    while i < n
        invariant
            n == a@.len(),
            n == b@.len(),
            i <= n,
            a@.subrange(0, i as int) == b@.subrange(0, i as int),
        decreases n - i,
    {
        if a.get_char(i) != b.get_char(i) {
            assert(a@[i as int] != b@[i as int]);
            return false;
        }
        assert(a@.subrange(0, i + 1) == a@.subrange(0, i as int).push(a@[i as int]));
        assert(b@.subrange(0, i + 1) == b@.subrange(0, i as int).push(b@[i as int]));
        i = i + 1;
    }
    assert(a@ == a@.subrange(0, n as int));
    assert(b@ == b@.subrange(0, n as int));
    true
}

/// Adds to `flag` the bits of one token of a kinds list: `insert`, `update`,
/// `delete`, or `*` for all three. Any other token leaves the mask unchanged.
pub fn apply_flag(flag: &mut u8, ctype: &str)
    ensures
        *final(flag) == *old(flag) | token_bits(ctype@),
{
    if same_text(ctype, "insert") {
        *flag = *flag | INSERT;
    } else if same_text(ctype, "update") {
        *flag = *flag | UPDATE;
    } else if same_text(ctype, "delete") {
        *flag = *flag | DELETE;
    } else if same_text(ctype, "*") {
        *flag = *flag | INSERT;
        *flag = *flag | UPDATE;
        *flag = *flag | DELETE;
        proof { lemma_or_bits(*old(flag)); }
    } else {
        proof { lemma_or_bits(*old(flag)); }
    }
}

/// The operation kind named by a token.
#[derive(Debug, Clone, Copy, PartialEq, Eq, Structural)]
pub enum ChangeType {
    INSERT,
    UPDATE,
    DELETE,
    UNKNOWN,
    ALL,
}

/// The kind that a token names.
pub open spec fn change_type_of(tok: Seq<char>) -> ChangeType {
    if tok == "insert"@ {
        ChangeType::INSERT
    } else if tok == "update"@ {
        ChangeType::UPDATE
    } else if tok == "delete"@ {
        ChangeType::DELETE
    } else if tok == "*"@ {
        ChangeType::ALL
    } else {
        ChangeType::UNKNOWN
    }
}

/// Reads a kind token: `insert`, `update`, `delete`, `*`, else `UNKNOWN`.
pub fn str_to_change_type(change_type: &str) -> (r: ChangeType)
    ensures
        r == change_type_of(change_type@),
{
    if same_text(change_type, "insert") {
        ChangeType::INSERT
    } else if same_text(change_type, "update") {
        ChangeType::UPDATE
    } else if same_text(change_type, "delete") {
        ChangeType::DELETE
    } else if same_text(change_type, "*") {
        ChangeType::ALL
    } else {
        ChangeType::UNKNOWN
    }
}

} // verus!
