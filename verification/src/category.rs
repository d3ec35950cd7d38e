//! Categories and the composite keys under which their records are stored.
//!
//! A record is addressed by a category and a raw key. The store keeps it under
//! a single byte string, the composite key: the category's literal prefix
//! followed by the raw key. Two addresses name the same record exactly when
//! their composite keys are equal, so everything the store promises about
//! independence of records rests on the facts about composite keys proved at
//! the end of this file.

use vstd::prelude::*;

verus! {

/// The logical namespace a record belongs to.
#[derive(Clone, Copy, Debug, PartialEq, Eq, Structural)]
pub enum DataCategory {
    Block,
    Transaction,
    Receipt,
    State,
    TransactionPool,
    TransactionPosition,
}

/// The bytes of a text whose characters are all ASCII: one byte per character.
pub open spec fn ascii(text: Seq<char>) -> Seq<u8> {
    Seq::new(text.len(), |i: int| text[i] as u8)
}

impl DataCategory {
    /// The literal text that precedes every raw key of this category.
    pub open spec fn prefix_text(self) -> Seq<char> {
        match self {
            DataCategory::Block => "block-"@,
            DataCategory::Transaction => "transaction-"@,
            DataCategory::Receipt => "receipt-"@,
            DataCategory::State => "state-"@,
            DataCategory::TransactionPool => "transaction-pool-"@,
            DataCategory::TransactionPosition => "transaction-position-"@,
        }
    }

    /// The prefix as bytes.
    pub open spec fn prefix(self) -> Seq<u8> {
        ascii(self.prefix_text())
    }
}

/// The key under which the record `(c, key)` is stored: the category's
/// prefix followed by the raw key.
pub open spec fn composite_key(c: DataCategory, key: Seq<u8>) -> Seq<u8> {
    c.prefix() + key
}

/// The composite keys of `keys`, element by element.
pub open spec fn composite_keys(c: DataCategory, keys: Seq<Seq<u8>>) -> Seq<Seq<u8>> {
    Seq::new(keys.len(), |i: int| composite_key(c, keys[i]))
}

/// Two categories overlap when the prefix of one begins with the prefix of
/// the other.
pub open spec fn prefixes_overlap(c1: DataCategory, c2: DataCategory) -> bool {
    c1.prefix().is_prefix_of(c2.prefix()) || c2.prefix().is_prefix_of(c1.prefix())
}

/// The bytes of an ASCII string: one byte per character.
fn ascii_bytes(text: &'static str) -> (r: &'static [u8])
    requires
        vstd::string::is_ascii(text),
    ensures
        r@ == ascii(text@),
{
    proof {
        vstd::string::is_ascii_spec_bytes(text);
    }
    text.as_bytes()
}

/// The prefix of `c`, as the bytes that precede a raw key.
pub fn prefix_bytes(c: &DataCategory) -> (r: &'static [u8])
    ensures
        r@ == c.prefix(),
{
    match c {
        DataCategory::Block => {
            proof {
                reveal_strlit("block-");
            }
            ascii_bytes("block-")
        },
        DataCategory::Transaction => {
            proof {
                reveal_strlit("transaction-");
            }
            ascii_bytes("transaction-")
        },
        DataCategory::Receipt => {
            proof {
                reveal_strlit("receipt-");
            }
            ascii_bytes("receipt-")
        },
        DataCategory::State => {
            proof {
                reveal_strlit("state-");
            }
            ascii_bytes("state-")
        },
        DataCategory::TransactionPool => {
            proof {
                reveal_strlit("transaction-pool-");
            }
            ascii_bytes("transaction-pool-")
        },
        DataCategory::TransactionPosition => {
            proof {
                reveal_strlit("transaction-position-");
            }
            ascii_bytes("transaction-position-")
        },
    }
}

/// Builds the composite key of `(c, key)`.
pub fn gen_key(c: &DataCategory, key: &[u8]) -> (r: Vec<u8>)
    ensures
        r@ == composite_key(*c, key@),
{
    let mut out: Vec<u8> = Vec::new();
    out.extend_from_slice(prefix_bytes(c));
    out.extend_from_slice(key);
    out
}

/// Builds the composite key of each of `keys`, in the same order.
pub fn gen_keys(c: &DataCategory, keys: &[Vec<u8>]) -> (r: Vec<Vec<u8>>)
    ensures
        r.len() == keys.len(),
        r.deep_view() == composite_keys(*c, keys.deep_view()),
{
    let mut out: Vec<Vec<u8>> = Vec::new();
    let mut i: usize = 0;
    while i < keys.len()
        invariant
            i <= keys.len(),
            out.len() == i,
            forall|j: int|
                0 <= j < i ==> (#[trigger] out[j]).deep_view() == composite_key(
                    *c,
                    keys[j].deep_view(),
                ),
        decreases keys.len() - i,
    {
        let composite = gen_key(c, keys[i].as_slice());
        proof {
            lemma_deep_view_bytes(composite);
            lemma_deep_view_bytes(keys[i as int]);
        }
        out.push(composite);
        i += 1;
    }
    assert(out.deep_view() =~= composite_keys(*c, keys.deep_view()));
    out
}

/// Seen as deeply as possible, a vector of bytes is still the sequence of its
/// bytes.
pub proof fn lemma_deep_view_bytes(bytes: Vec<u8>)
    ensures
        bytes.deep_view() == bytes@,
{
    assert(bytes.deep_view() =~= bytes@);
}

/// The prefixes, byte by byte.
pub proof fn lemma_prefix_values()
    ensures
        DataCategory::Block.prefix() == seq![0x62u8, 0x6c, 0x6f, 0x63, 0x6b, 0x2d],
        DataCategory::Transaction.prefix() == seq![
            0x74u8, 0x72, 0x61, 0x6e, 0x73, 0x61, 0x63, 0x74, 0x69, 0x6f, 0x6e, 0x2d,
        ],
        DataCategory::Receipt.prefix() == seq![0x72u8, 0x65, 0x63, 0x65, 0x69, 0x70, 0x74, 0x2d],
        DataCategory::State.prefix() == seq![0x73u8, 0x74, 0x61, 0x74, 0x65, 0x2d],
        DataCategory::TransactionPool.prefix() == seq![
            0x74u8, 0x72, 0x61, 0x6e, 0x73, 0x61, 0x63, 0x74, 0x69, 0x6f, 0x6e, 0x2d,
            0x70, 0x6f, 0x6f, 0x6c, 0x2d,
        ],
        DataCategory::TransactionPosition.prefix() == seq![
            0x74u8, 0x72, 0x61, 0x6e, 0x73, 0x61, 0x63, 0x74, 0x69, 0x6f, 0x6e, 0x2d,
            0x70, 0x6f, 0x73, 0x69, 0x74, 0x69, 0x6f, 0x6e, 0x2d,
        ],
{
    reveal_strlit("block-");
    reveal_strlit("transaction-");
    reveal_strlit("receipt-");
    reveal_strlit("state-");
    reveal_strlit("transaction-pool-");
    reveal_strlit("transaction-position-");
}

/// A composite key begins with its category's prefix and continues with the
/// raw key, unchanged.
pub proof fn lemma_composite_key_parts(c: DataCategory, key: Seq<u8>)
    ensures
        composite_key(c, key).len() == c.prefix().len() + key.len(),
        c.prefix().is_prefix_of(composite_key(c, key)),
        composite_key(c, key).skip(c.prefix().len() as int) == key,
{
    assert(composite_key(c, key).skip(c.prefix().len() as int) =~= key);
}

/// Within one category, two raw keys share a composite key only if they are
/// the same key.
pub proof fn lemma_composite_key_injective(c: DataCategory, k1: Seq<u8>, k2: Seq<u8>)
    ensures
        composite_key(c, k1) == composite_key(c, k2) <==> k1 == k2,
{
    lemma_composite_key_parts(c, k1);
    lemma_composite_key_parts(c, k2);
}

/// No two categories have the same prefix.
pub proof fn lemma_prefixes_distinct(c1: DataCategory, c2: DataCategory)
    ensures
        c1.prefix() == c2.prefix() <==> c1 == c2,
{
    lemma_prefix_values();
    if c1 != c2 {
        assert(c1.prefix().len() != c2.prefix().len() || c1.prefix()[0] != c2.prefix()[0]);
    }
}

/// The same raw key under two different categories never names the same
/// record.
pub proof fn lemma_same_key_distinct_categories(c1: DataCategory, c2: DataCategory, key: Seq<u8>)
    requires
        c1 != c2,
    ensures
        composite_key(c1, key) != composite_key(c2, key),
{
    lemma_prefixes_distinct(c1, c2);
    if composite_key(c1, key) == composite_key(c2, key) {
        let whole = composite_key(c1, key);
        lemma_composite_key_parts(c1, key);
        lemma_composite_key_parts(c2, key);
        assert(c1.prefix().len() == c2.prefix().len());
        assert(c1.prefix() =~= whole.take(c1.prefix().len() as int));
        assert(c2.prefix() =~= whole.take(c2.prefix().len() as int));
    }
}

/// Records of two categories whose prefixes do not overlap never share a
/// composite key, whatever their raw keys are.
pub proof fn lemma_disjoint_prefixes_never_collide(
    c1: DataCategory,
    c2: DataCategory,
    k1: Seq<u8>,
    k2: Seq<u8>,
)
    requires
        !prefixes_overlap(c1, c2),
    ensures
        composite_key(c1, k1) != composite_key(c2, k2),
{
    if composite_key(c1, k1) == composite_key(c2, k2) {
        let whole = composite_key(c1, k1);
        let left = c1.prefix();
        let right = c2.prefix();
        assert(left =~= whole.take(left.len() as int));
        assert(right =~= whole.take(right.len() as int));
        if left.len() <= right.len() {
            assert(left =~= right.subrange(0, left.len() as int));
        } else {
            assert(right =~= left.subrange(0, right.len() as int));
        }
    }
}

/// Which categories overlap: each with itself, and `Transaction` with
/// `TransactionPool` and with `TransactionPosition`. No others do.
pub proof fn lemma_overlapping_categories(c1: DataCategory, c2: DataCategory)
    ensures
        prefixes_overlap(c1, c2) <==> {
            ||| c1 == c2
            ||| c1 == DataCategory::Transaction && c2 == DataCategory::TransactionPool
            ||| c1 == DataCategory::Transaction && c2 == DataCategory::TransactionPosition
            ||| c1 == DataCategory::TransactionPool && c2 == DataCategory::Transaction
            ||| c1 == DataCategory::TransactionPosition && c2 == DataCategory::Transaction
        },
{
    lemma_prefix_values();
    let left = c1.prefix();
    let right = c2.prefix();
    if c1 == c2 {
        assert(left =~= right.subrange(0, left.len() as int));
    } else if c1 == DataCategory::Transaction && (c2 == DataCategory::TransactionPool || c2
        == DataCategory::TransactionPosition) {
        assert(left =~= right.subrange(0, left.len() as int));
    } else if c2 == DataCategory::Transaction && (c1 == DataCategory::TransactionPool || c1
        == DataCategory::TransactionPosition) {
        assert(right =~= left.subrange(0, right.len() as int));
    } else {
        // The two differ within the shorter one: `transaction-pool-` and
        // `transaction-position-` at the byte after `transaction-po`, any
        // other two at their first byte.
        let at: int = if c1 != DataCategory::Transaction && c2 != DataCategory::Transaction
            && left[0] == right[0] {
            14
        } else {
            0
        };
        assert(left[at] != right[at]);
        if left.is_prefix_of(right) {
            assert(left[at] == right.subrange(0, left.len() as int)[at]);
        }
        if right.is_prefix_of(left) {
            assert(right[at] == left.subrange(0, right.len() as int)[at]);
        }
    }
}

/// Where prefixes overlap, records do collide: a `Transaction` record whose
/// raw key begins with `pool-` is the `TransactionPool` record of the rest of
/// that key, and likewise for `position-` and `TransactionPosition`.
pub proof fn lemma_transaction_keys_collide(rest: Seq<u8>)
    ensures
        composite_key(DataCategory::Transaction, ascii("pool-"@) + rest) == composite_key(
            DataCategory::TransactionPool,
            rest,
        ),
        composite_key(DataCategory::Transaction, ascii("position-"@) + rest) == composite_key(
            DataCategory::TransactionPosition,
            rest,
        ),
{
    lemma_prefix_values();
    reveal_strlit("pool-");
    reveal_strlit("position-");
    assert(composite_key(DataCategory::Transaction, ascii("pool-"@) + rest) =~= composite_key(
        DataCategory::TransactionPool,
        rest,
    ));
    assert(composite_key(DataCategory::Transaction, ascii("position-"@) + rest) =~= composite_key(
        DataCategory::TransactionPosition,
        rest,
    ));
}

} // verus!
