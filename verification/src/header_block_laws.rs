//! Laws of header blocks: which of them can be read to their end.

use crate::header_block;
use vstd::prelude::*;

verus! {

/// An item of a header block.
pub enum Item {
    Indexed(u8),
    Literal(u8, Seq<u8>, Seq<u8>),
    Named(u8, Seq<u8>),
    TableSize(u8),
}

/// The item fits the short forms: numbers below the largest that the first byte holds, and texts
/// of less than 127 bytes. A literal starts with the bits that say whether it is kept.
pub open spec fn is_short(item: Item) -> bool {
    match item {
        Item::Indexed(n) => n < 127,
        Item::Literal(kind, name, value) => (kind == 64 || kind == 0 || kind == 16) && name.len()
            < 127 && value.len() < 127,
        Item::Named(n, value) => 0 < n < 63 && value.len() < 127,
        Item::TableSize(n) => n < 31,
    }
}

/// The bytes of an item.
pub open spec fn item_bytes(item: Item) -> Seq<u8> {
    match item {
        Item::Indexed(n) => seq![(128 + n) as u8],
        Item::Literal(kind, name, value) => seq![kind, name.len() as u8] + name + (seq![
            value.len() as u8,
        ] + value),
        Item::Named(n, value) => seq![(64 + n) as u8] + (seq![value.len() as u8] + value),
        Item::TableSize(n) => seq![(32 + n) as u8],
    }
}

/// The bytes of items, one after the other.
pub open spec fn block_bytes(items: Seq<Item>) -> Seq<u8>
    decreases items.len(),
{
    if items.len() == 0 {
        Seq::empty()
    } else {
        item_bytes(items[0]) + block_bytes(items.drop_first())
    }
}

/// A text of less than 127 bytes ends behind its bytes.
proof fn lemma_string(b: Seq<u8>, p: int, value: Seq<u8>)
    requires
        value.len() < 127,
        0 <= p,
        p + 1 + value.len() <= b.len(),
        b[p] == value.len(),
    ensures
        header_block::string_end(b, p) == Some(p + 1 + value.len()),
{
    assert(b[p] as int % 128 == value.len());
    assert(header_block::integer_at(b, p, 127) == Some((value.len() as int, p + 1)));
}

/// A short item ends behind its bytes.
proof fn lemma_item(before: Seq<u8>, item: Item, rest: Seq<u8>)
    requires
        is_short(item),
    ensures
        header_block::item_end(before + item_bytes(item) + rest, before.len() as int) == Some(
            (before.len() + item_bytes(item).len()) as int,
        ),
{
    let w = item_bytes(item);
    let b = before + w + rest;
    let p = before.len() as int;
    assert(b[p] == w[0]);
    match item {
        Item::Indexed(n) => {
            assert(b[p] as int % 128 == n);
        },
        Item::Literal(kind, name, value) => {
            let l = name.len() as int;
            assert(w[1] == name.len() as u8);
            assert(w[2 + l] == value.len() as u8);
            assert(b[p + 1] == w[1]);
            assert(b[p + 2 + l] == w[2 + l]);
            lemma_string(b, p + 1, name);
            lemma_string(b, p + 2 + l, value);
            if kind == 64 {
                assert(b[p] as int % 64 == 0);
            } else {
                assert(b[p] as int % 16 == 0);
            }
        },
        Item::Named(n, value) => {
            assert(w[1] == value.len() as u8);
            assert(b[p + 1] == w[1]);
            lemma_string(b, p + 1, value);
            assert(b[p] as int % 64 == n);
        },
        Item::TableSize(n) => {
            assert(b[p] as int % 32 == n);
        },
    }
}

/// The search goes on behind short items.
proof fn lemma_items(before: Seq<u8>, items: Seq<Item>, rest: Seq<u8>)
    requires
        forall|i: int| 0 <= i < items.len() ==> is_short(#[trigger] items[i]),
    ensures
        header_block::broken_update_from(
            before + block_bytes(items) + rest,
            before.len() as int,
        ) == header_block::broken_update_from(
            before + block_bytes(items) + rest,
            (before.len() + block_bytes(items).len()) as int,
        ),
    decreases items.len(),
{
    if items.len() > 0 {
        let w = item_bytes(items[0]);
        let fewer = items.drop_first();
        let b = before + block_bytes(items) + rest;
        assert(is_short(items[0]));
        assert forall|i: int| 0 <= i < fewer.len() implies is_short(#[trigger] fewer[i]) by {
            assert(fewer[i] == items[i + 1]);
        }
        assert(b =~= before + w + (block_bytes(fewer) + rest));
        lemma_item(before, items[0], block_bytes(fewer) + rest);
        assert(b =~= (before + w) + block_bytes(fewer) + rest);
        lemma_items(before + w, fewer, rest);
        assert(w.len() > 0);
    }
}

/// The search in items with something behind them is the search behind them.
proof fn lemma_behind(items: Seq<Item>, rest: Seq<u8>)
    requires
        forall|i: int| 0 <= i < items.len() ==> is_short(#[trigger] items[i]),
    ensures
        header_block::broken_update(block_bytes(items) + rest) == header_block::broken_update_from(
            block_bytes(items) + rest,
            block_bytes(items).len() as int,
        ),
        (block_bytes(items) + rest).take(block_bytes(items).len() as int) == block_bytes(items),
{
    let none = Seq::<u8>::empty();
    let b = block_bytes(items);
    lemma_items(none, items, rest);
    assert(none + b + rest =~= b + rest);
    assert((b + rest).take(b.len() as int) =~= b);
}

/// A block of whole items is read as it is.
pub proof fn law_whole_blocks_are_read(blocks: Seq<Seq<u8>>, items: Seq<Item>)
    requires
        forall|i: int| 0 <= i < items.len() ==> is_short(#[trigger] items[i]),
    ensures
        ({
            let b = block_bytes(items);
            &&& header_block::readable(b) == b
            &&& header_block::fields_of_block(blocks, b) == header_block::hpack_fields(
                blocks.push(b),
            )
        }),
{
    let b = block_bytes(items);
    lemma_behind(items, Seq::empty());
    assert(b + Seq::<u8>::empty() =~= b);
}

/// A block that ends in the middle of a change of the table size gives no fields, and is read up to
/// there.
pub proof fn law_cut_blocks_are_read_to_the_cut(blocks: Seq<Seq<u8>>, items: Seq<Item>, more: u8)
    requires
        forall|i: int| 0 <= i < items.len() ==> is_short(#[trigger] items[i]),
        more >= 128,
    ensures
        ({
            let b = block_bytes(items);
            &&& header_block::readable(b + seq![63u8]) == b
            &&& header_block::fields_of_block(blocks, b + seq![63u8]) is None
            &&& header_block::readable(b + seq![63u8, more]) == b
            &&& header_block::fields_of_block(blocks, b + seq![63u8, more]) is None
        }),
{
    lemma_cut_one(items);
    lemma_cut_two(items, more);
}

proof fn lemma_cut_one(items: Seq<Item>)
    requires
        forall|i: int| 0 <= i < items.len() ==> is_short(#[trigger] items[i]),
    ensures
        header_block::broken_update(block_bytes(items) + seq![63u8]) == Some(
            block_bytes(items).len() as int,
        ),
        header_block::readable(block_bytes(items) + seq![63u8]) == block_bytes(items),
{
    let b = block_bytes(items);
    let n = b.len() as int;
    let s = b + seq![63u8];
    lemma_behind(items, seq![63u8]);
    assert(s[n] == 63);
    assert(s.len() == n + 1);
    assert(s[n] as int % 32 == 31);
    assert(header_block::integer_rest(s, n + 1, 1, 1, 31) is None);
    assert(header_block::integer_at(s, n, 31) is None);
    assert(header_block::item_end(s, n) is None);
}

proof fn lemma_cut_two(items: Seq<Item>, more: u8)
    requires
        forall|i: int| 0 <= i < items.len() ==> is_short(#[trigger] items[i]),
        more >= 128,
    ensures
        header_block::broken_update(block_bytes(items) + seq![63u8, more]) == Some(
            block_bytes(items).len() as int,
        ),
        header_block::readable(block_bytes(items) + seq![63u8, more]) == block_bytes(items),
{
    let b = block_bytes(items);
    let n = b.len() as int;
    let s = b + seq![63u8, more];
    lemma_behind(items, seq![63u8, more]);
    assert(s[n] == 63);
    assert(s[n + 1] == more);
    assert(s.len() == n + 2);
    assert(s[n] as int % 32 == 31);
    let sum = 31 + (s[n + 1] % 128) * 1;
    assert(header_block::integer_rest(s, n + 2, 2, 128, sum) is None);
    assert(header_block::integer_rest(s, n + 1, 1, 1, 31) == header_block::integer_rest(
        s,
        n + 2,
        2,
        128,
        sum,
    ));
    assert(header_block::integer_at(s, n, 31) is None);
    assert(header_block::item_end(s, n) is None);
}

} // verus!
