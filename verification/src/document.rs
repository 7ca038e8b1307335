//! Property lists as plain values, and the stream of property lists that the sampler writes.

use crate::markup;
use plist::Value;
use std::time::{Duration, SystemTime, UNIX_EPOCH};
use vstd::prelude::*;
use vstd::slice::slice_subrange;

verus! {

/// A point in time, as its distance from 1970-01-01 00:00:00 UTC.
#[derive(Debug, Clone, Copy, PartialEq, Eq, Structural)]
pub enum Moment {
    /// At the epoch or after it.
    After { secs: u64, nanos: u32 },
    /// Before the epoch.
    Before { secs: u64, nanos: u32 },
}

impl Moment {
    /// The moment lies in the years 0 to 9999, which is what a four-digit year can name.
    pub open spec fn in_calendar(self) -> bool {
        match self {
            Moment::After { secs, nanos } => secs < 253_402_300_800 && nanos < 1_000_000_000,
            Moment::Before { secs, nanos } => nanos < 1_000_000_000 && (secs < 62_167_219_200 || (
            secs == 62_167_219_200 && nanos == 0)),
        }
    }
}

/// What a property list value holds.
pub enum Tree {
    Array(Seq<Tree>),
    Dictionary(Seq<(Seq<char>, Tree)>),
    Date(Moment),
    /// A 64-bit real, by its IEEE 754 bit pattern.
    Real(u64),
    Integer(int),
    String(Seq<char>),
    /// A boolean, a block of data or a reference: nothing here reads them.
    Other,
}

/// A property list value.
#[derive(Debug)]
pub enum Item {
    Array(Vec<Item>),
    /// Keys with their values, in the order in which they were written.
    Dictionary(Vec<(String, Item)>),
    Date(Moment),
    /// A 64-bit real, by its IEEE 754 bit pattern.
    Real(u64),
    Integer(i128),
    String(String),
    /// A boolean, a block of data or a reference: nothing here reads them.
    Other,
}

impl Item {
    /// What the value holds.
    pub open spec fn tree(self) -> Tree
        decreases self,
    {
        match self {
            Item::Array(items) => Tree::Array(
                Seq::new(
                    items@.len(),
                    |i: int|
                        if 0 <= i < items@.len() {
                            items@[i].tree()
                        } else {
                            Tree::Other
                        },
                ),
            ),
            Item::Dictionary(entries) => Tree::Dictionary(
                Seq::new(
                    entries@.len(),
                    |i: int|
                        if 0 <= i < entries@.len() {
                            (entries@[i].0@, entries@[i].1.tree())
                        } else {
                            (Seq::empty(), Tree::Other)
                        },
                ),
            ),
            Item::Date(moment) => Tree::Date(moment),
            Item::Real(bits) => Tree::Real(bits),
            Item::Integer(n) => Tree::Integer(n as int),
            Item::String(text) => Tree::String(text@),
            Item::Other => Tree::Other,
        }
    }
}

/// A value of the `plist` crate. Only `open_value` looks inside.
#[verifier::external_type_specification]
#[verifier::external_body]
pub struct ExPlistValue(plist::Value);

/// What a `plist::Value` holds: a dictionary its keys and values in their order, an array its
/// values.
pub uninterp spec fn value_tree(value: plist::Value) -> Tree;

/// What `plist::Value::from_reader` reads from `bytes`; `None` where it reports an error.
pub uninterp spec fn plist_tree(bytes: Seq<u8>) -> Option<Tree>;

/// What `plist::Date::to_xml_format` writes for the date at `moment`.
pub uninterp spec fn date_xml(moment: Moment) -> Seq<char>;

/// Calls `plist::Value::from_reader` on a cursor over `bytes`. The outcome is a function of the
/// bytes. A date of XML text that falls into the year 10000 once its offset is taken off makes
/// the reader panic, so texts in which it comes to one are left out. So are zero bytes, without
/// which no binary list, whose shared parts can multiply without bound, is well-formed.
#[verifier::external_body]
fn read_plist(bytes: &[u8]) -> (r: Option<Value>)
    requires
        !markup::comes_to_far_date(bytes@),
        !bytes@.contains(0),
    ensures
        match r {
            Some(value) => plist_tree(bytes@) == Some(value_tree(value)),
            None => plist_tree(bytes@) is None,
        },
{
    Value::from_reader(std::io::Cursor::new(bytes)).ok()
}

/// One level of a `plist::Value`.
enum Node {
    Array(Vec<Value>),
    Dictionary(Vec<(String, Value)>),
    Date(Moment),
    Real(u64),
    Integer(Option<i64>, Option<u64>),
    String(String),
    Other,
}

/// `n` as a signed 64-bit integer, where it is one.
spec fn as_signed(n: int) -> Option<i64> {
    if i64::MIN <= n <= i64::MAX {
        Some(n as i64)
    } else {
        None
    }
}

/// `n` as an unsigned 64-bit integer, where it is one.
spec fn as_unsigned(n: int) -> Option<u64> {
    if 0 <= n <= u64::MAX {
        Some(n as u64)
    } else {
        None
    }
}

/// Takes a `plist::Value` apart by its variants. `Dictionary` hands its entries out in order.
/// `Integer::as_signed` and `Integer::as_unsigned` give the integer where it fits their type,
/// and every integer of the crate fits one of the two. A `Date` is a `SystemTime`.
#[verifier::external_body]
fn open_value(value: Value) -> (node: Node)
    ensures
        match node {
            Node::Array(items) => value_tree(value) == Tree::Array(
                items@.map_values(|v: Value| value_tree(v)),
            ),
            Node::Dictionary(entries) => value_tree(value) == Tree::Dictionary(
                entries@.map_values(|e: (String, Value)| (e.0@, value_tree(e.1))),
            ),
            Node::Date(moment) => value_tree(value) == Tree::Date(moment),
            Node::Real(bits) => value_tree(value) == Tree::Real(bits),
            Node::Integer(signed, unsigned) => {
                &&& value_tree(value) matches Tree::Integer(n)
                &&& i64::MIN <= n <= u64::MAX
                &&& signed == as_signed(n)
                &&& unsigned == as_unsigned(n)
            },
            Node::String(text) => value_tree(value) == Tree::String(text@),
            Node::Other => value_tree(value) == Tree::Other,
        },
{
    match value {
        Value::Array(items) => Node::Array(items),
        Value::Dictionary(entries) => Node::Dictionary(entries.into_iter().collect()),
        Value::Date(date) => match SystemTime::from(date).duration_since(UNIX_EPOCH) {
            Ok(gap) => Node::Date(Moment::After { secs: gap.as_secs(), nanos: gap.subsec_nanos() }),
            Err(gap) => Node::Date(Moment::Before { secs: gap.duration().as_secs(), nanos: gap.duration().subsec_nanos() }),
        },
        Value::Real(number) => Node::Real(number.to_bits()),
        Value::Integer(number) => Node::Integer(number.as_signed(), number.as_unsigned()),
        Value::String(text) => Node::String(text),
        _ => Node::Other,
    }
}

/// Calls `plist::Date::to_xml_format` on the date at `moment`. The call panics on dates outside
/// the four-digit years.
#[verifier::external_body]
fn format_date(moment: Moment) -> (r: String)
    requires
        moment.in_calendar(),
    ensures
        r@ == date_xml(moment),
{
    let date: SystemTime = match moment {
        Moment::After { secs, nanos } => UNIX_EPOCH + Duration::new(secs, nanos),
        Moment::Before { secs, nanos } => UNIX_EPOCH - Duration::new(secs, nanos),
    };
    plist::Date::from(date).to_xml_format()
}

/// The date at `moment` in the notation of XML property lists; `None` outside the years that the
/// notation can name.
pub fn date_text(moment: Moment) -> (r: Option<String>)
    ensures
        r is Some <==> moment.in_calendar(),
        r matches Some(text) ==> text@ == date_xml(moment),
{
    let fits: bool = match moment {
        Moment::After { secs, nanos } => secs < 253_402_300_800 && nanos < 1_000_000_000,
        Moment::Before { secs, nanos } => nanos < 1_000_000_000 && (secs < 62_167_219_200 || (secs
            == 62_167_219_200 && nanos == 0)),
    };
    if fits {
        Some(format_date(moment))
    } else {
        None
    }
}

/// Turns a value of the `plist` crate into a plain one.
fn item_of(value: Value) -> (r: Item)
    ensures
        r.tree() == value_tree(value),
    decreases value_tree(value),
{
    match open_value(value) {
        Node::Array(nodes) => {
            let ghost all = nodes@;
            let ghost trees = all.map_values(|v: Value| value_tree(v));
            let mut items: Vec<Item> = Vec::new();
            for node in it: nodes
                invariant
                    it.seq() == all,
                    trees == all.map_values(|v: Value| value_tree(v)),
                    value_tree(value) == Tree::Array(trees),
                    items.len() == it.index(),
                    forall|i: int|
                        0 <= i < items.len() ==> (#[trigger] items@[i]).tree() == trees[i],
            {
                proof {
                    assert(trees[it.index() as int] == value_tree(node));
                    assert(decreases_to!(value_tree(value) => value_tree(value)->Array_0[it.index() as int]));
                }
                items.push(item_of(node));
            }
            let item: Item = Item::Array(items);
            assert(item.tree()->Array_0 =~= trees);
            item
        },
        Node::Dictionary(nodes) => {
            let ghost all = nodes@;
            let ghost trees = all.map_values(|e: (String, Value)| (e.0@, value_tree(e.1)));
            let mut entries: Vec<(String, Item)> = Vec::new();
            for node in it: nodes
                invariant
                    it.seq() == all,
                    trees == all.map_values(
                        |e: (String, Value)| (e.0@, value_tree(e.1)),
                    ),
                    value_tree(value) == Tree::Dictionary(trees),
                    entries.len() == it.index(),
                    forall|i: int|
                        0 <= i < entries.len() ==> (#[trigger] entries@[i]).0@ == trees[i].0
                            && entries@[i].1.tree() == trees[i].1,
            {
                proof {
                    assert(trees[it.index() as int] == (node.0@, value_tree(node.1)));
                    assert(decreases_to!(value_tree(value) => value_tree(value)->Dictionary_0[it.index() as int].1));
                }
                let (key, inner) = node;
                entries.push((key, item_of(inner)));
            }
            let item: Item = Item::Dictionary(entries);
            assert(item.tree()->Dictionary_0 =~= trees);
            item
        },
        Node::Date(moment) => Item::Date(moment),
        Node::Real(bits) => Item::Real(bits),
        Node::Integer(signed, unsigned) => match signed {
            Some(n) => Item::Integer(n as i128),
            None => match unsigned {
                Some(n) => Item::Integer(n as i128),
                None => Item::Other,
            },
        },
        Node::String(text) => Item::String(text),
        Node::Other => Item::Other,
    }
}

/// Where the last chunk of `bytes` begins: behind its last zero byte.
pub open spec fn last_chunk_start(bytes: Seq<u8>) -> nat
    decreases bytes.len(),
{
    if bytes.len() == 0 || bytes.last() == 0 {
        bytes.len()
    } else {
        last_chunk_start(bytes.drop_last())
    }
}

/// The non-empty runs of `bytes` between its zero bytes, the last one first.
pub open spec fn newest_chunks(bytes: Seq<u8>) -> Seq<Seq<u8>>
    decreases bytes.len(),
{
    if bytes.len() == 0 {
        Seq::empty()
    } else {
        let start = last_chunk_start(bytes) as int;
        let older = if 0 < start <= bytes.len() {
            newest_chunks(bytes.take(start - 1))
        } else {
            Seq::empty()
        };
        if start < bytes.len() {
            seq![bytes.skip(start)] + older
        } else {
            older
        }
    }
}

/// Behind `start` there is no zero byte, and before it there is one or nothing.
proof fn lemma_last_chunk_start(bytes: Seq<u8>, start: int)
    requires
        0 <= start <= bytes.len(),
        forall|i: int| start <= i < bytes.len() ==> bytes[i] != 0,
        start == 0 || bytes[start - 1] == 0,
    ensures
        last_chunk_start(bytes) == start,
    decreases bytes.len(),
{
    if start < bytes.len() {
        lemma_last_chunk_start(bytes.drop_last(), start);
    }
}

/// Splits `bytes` at its zero bytes into chunks, the newest first, leaving the empty ones out.
pub fn split_newest_first<'a>(bytes: &'a [u8]) -> (r: Vec<&'a [u8]>)
    ensures
        r@.map_values(|chunk: &'a [u8]| chunk@) == newest_chunks(bytes@),
{
    let mut out: Vec<&'a [u8]> = Vec::new();
    let mut end: usize = bytes.len();
    assert(bytes@.take(end as int) =~= bytes@);
    assert(out@.map_values(|chunk: &'a [u8]| chunk@) =~= Seq::empty());
    assert(Seq::<Seq<u8>>::empty() + newest_chunks(bytes@) =~= newest_chunks(bytes@));
    while end > 0
        invariant
            end <= bytes@.len(),
            newest_chunks(bytes@) == out@.map_values(|chunk: &'a [u8]| chunk@) + newest_chunks(
                bytes@.take(end as int),
            ),
        decreases end,
    {
        let ghost head = bytes@.take(end as int);
        let ghost before = out@.map_values(|chunk: &'a [u8]| chunk@);
        let mut start: usize = end;
        while start > 0 && bytes[start - 1] != 0
            invariant
                start <= end <= bytes@.len(),
                forall|i: int| start <= i < end ==> bytes@[i] != 0,
            decreases start,
        {
            start = start - 1;
        }
        proof {
            lemma_last_chunk_start(head, start as int);
        }
        if start < end {
            out.push(slice_subrange(bytes, start, end));
            assert(out@.map_values(|chunk: &'a [u8]| chunk@) =~= before.push(head.skip(start as int))) by {
                assert(bytes@.subrange(start as int, end as int) =~= head.skip(start as int));
            }
        }
        if start > 0 {
            proof {
                assert(head.take(start - 1) =~= bytes@.take(start - 1));
            }
            end = start - 1;
        } else {
            end = 0;
        }
        assert(newest_chunks(bytes@) =~= out@.map_values(|chunk: &'a [u8]| chunk@) + newest_chunks(
            bytes@.take(end as int),
        ));
    }
    assert(newest_chunks(bytes@.take(0)) =~= Seq::empty());
    assert(newest_chunks(bytes@) =~= out@.map_values(|chunk: &'a [u8]| chunk@));
    out
}

/// What the first readable property list among `chunks` holds. A property list in which the reader
/// comes to a date that it cannot take counts as one that cannot be read.
pub open spec fn first_plist(chunks: Seq<Seq<u8>>) -> Option<Tree>
    decreases chunks.len(),
{
    if chunks.len() == 0 {
        None
    } else if markup::comes_to_far_date(chunks[0]) || plist_tree(chunks[0]) is None {
        first_plist(chunks.skip(1))
    } else {
        plist_tree(chunks[0])
    }
}

/// Where no chunk can be read there is nothing, and of several that can be read the first one
/// counts, whatever comes behind it and whatever cannot be read comes before it. The reader cannot
/// read on where it comes to a date that it cannot take.
pub proof fn law_first_readable_counts(chunks: Seq<Seq<u8>>, k: int)
    requires
        0 <= k <= chunks.len(),
        forall|i: int|
            0 <= i < k ==> plist_tree(#[trigger] chunks[i]) is None || markup::comes_to_far_date(
                chunks[i],
            ),
        k < chunks.len() ==> plist_tree(chunks[k]) is Some && !markup::comes_to_far_date(chunks[k]),
    ensures
        first_plist(chunks) == (if k < chunks.len() {
            plist_tree(chunks[k])
        } else {
            None
        }),
    decreases chunks.len(),
{
    if k > 0 {
        let rest = chunks.skip(1);
        assert forall|i: int| 0 <= i < k - 1 implies plist_tree(#[trigger] rest[i]) is None
            || markup::comes_to_far_date(rest[i]) by {
            assert(rest[i] == chunks[i + 1]);
        }
        law_first_readable_counts(rest, k - 1);
    }
}

/// What lies behind the start of the last chunk, and what lies before it.
proof fn lemma_behind_last_chunk_start(bytes: Seq<u8>)
    ensures
        last_chunk_start(bytes) <= bytes.len(),
        last_chunk_start(bytes) > 0 ==> bytes[last_chunk_start(bytes) - 1] == 0,
        forall|i: int| last_chunk_start(bytes) <= i < bytes.len() ==> bytes[i] != 0,
    decreases bytes.len(),
{
    if bytes.len() > 0 && bytes.last() != 0 {
        lemma_behind_last_chunk_start(bytes.drop_last());
        assert forall|i: int| last_chunk_start(bytes) <= i < bytes.len() implies bytes[i] != 0 by {
            if i < bytes.len() - 1 {
                assert(bytes.drop_last()[i] == bytes[i]);
            }
        }
    }
}

/// Chunks are non-empty and hold no zero byte.
pub proof fn lemma_chunks(bytes: Seq<u8>)
    ensures
        forall|i: int|
            0 <= i < newest_chunks(bytes).len() ==> (#[trigger] newest_chunks(bytes)[i]).len() > 0
                && !newest_chunks(bytes)[i].contains(0),
    decreases bytes.len(),
{
    if bytes.len() > 0 {
        lemma_behind_last_chunk_start(bytes);
        let start = last_chunk_start(bytes) as int;
        if start > 0 {
            lemma_chunks(bytes.take(start - 1));
        }
        let all = newest_chunks(bytes);
        let older = if 0 < start <= bytes.len() {
            newest_chunks(bytes.take(start - 1))
        } else {
            Seq::empty()
        };
        assert forall|i: int| 0 <= i < all.len() implies (#[trigger] all[i]).len() > 0
            && !all[i].contains(0) by {
            if start < bytes.len() {
                if i > 0 {
                    assert(all[i] == older[i - 1]);
                }
            } else {
                assert(all[i] == older[i]);
            }
        }
    }
}

/// Chunks one list behind the other: the first list counts where it has one that can be read.
proof fn lemma_first_plist_joined(newer: Seq<Seq<u8>>, older: Seq<Seq<u8>>)
    ensures
        first_plist(newer + older) == (if first_plist(newer) is Some {
            first_plist(newer)
        } else {
            first_plist(older)
        }),
    decreases newer.len(),
{
    if newer.len() == 0 {
        assert(newer + older =~= older);
    } else {
        assert((newer + older).skip(1) =~= newer.skip(1) + older);
        assert((newer + older)[0] == newer[0]);
        lemma_first_plist_joined(newer.skip(1), older);
    }
}

/// The chunks of two streams with a zero byte between them are those of both.
proof fn lemma_chunks_joined(older: Seq<u8>, newer: Seq<u8>)
    ensures
        newest_chunks(older.push(0) + newer) == newest_chunks(newer) + newest_chunks(older),
    decreases newer.len(),
{
    let all = older.push(0) + newer;
    let start = last_chunk_start(newer) as int;
    let whole_start = older.len() + 1 + start;
    lemma_behind_last_chunk_start(newer);
    assert forall|i: int| whole_start <= i < all.len() implies all[i] != 0 by {
        assert(all[i] == newer[i - older.len() - 1]);
    }
    if start > 0 {
        assert(all[whole_start - 1] == newer[start - 1]);
    }
    lemma_last_chunk_start(all, whole_start);
    assert(all.skip(whole_start) =~= newer.skip(start));
    if start > 0 {
        lemma_chunks_joined(older, newer.take(start - 1));
        assert(all.take(whole_start - 1) =~= older.push(0) + newer.take(start - 1));
    } else {
        assert(all.take(whole_start - 1) =~= older);
    }
    assert(newest_chunks(all) =~= newest_chunks(newer) + newest_chunks(older));
}

/// Of two streams with a zero byte between them the newer one counts where it has a property list
/// that can be read, whatever the older one holds; where it has none, as while its first list is
/// still being written, what counted before still does.
pub proof fn law_newer_stream_counts(older: Seq<u8>, newer: Seq<u8>)
    ensures
        newest_chunks(older.push(0) + newer) == newest_chunks(newer) + newest_chunks(older),
        first_plist(newest_chunks(older.push(0) + newer)) == (if first_plist(newest_chunks(newer))
            is Some {
            first_plist(newest_chunks(newer))
        } else {
            first_plist(newest_chunks(older))
        }),
{
    lemma_chunks_joined(older, newer);
    lemma_first_plist_joined(newest_chunks(newer), newest_chunks(older));
}

/// Reads the newest property list of the stream that can be read.
pub fn latest_document(bytes: &[u8]) -> (r: Option<Item>)
    ensures
        match r {
            Some(item) => first_plist(newest_chunks(bytes@)) == Some(item.tree()),
            None => first_plist(newest_chunks(bytes@)) is None,
        },
{
    let chunks: Vec<&[u8]> = split_newest_first(bytes);
    let ghost all = newest_chunks(bytes@);
    proof {
        lemma_chunks(bytes@);
        assert(all.skip(0) =~= all);
    }
    let mut i: usize = 0;
    while i < chunks.len()
        invariant
            i <= chunks.len(),
            all == newest_chunks(bytes@),
            chunks.len() == all.len(),
            forall|j: int| 0 <= j < all.len() ==> (#[trigger] chunks@[j])@ == all[j],
            forall|j: int| 0 <= j < all.len() ==> !(#[trigger] all[j]).contains(0),
            first_plist(all) == first_plist(all.skip(i as int)),
        decreases chunks.len() - i,
    {
        assert(all.skip(i as int).skip(1) =~= all.skip(i + 1));
        if !markup::holds_far_date(chunks[i]) {
            if let Some(value) = read_plist(chunks[i]) {
                return Some(item_of(value));
            }
        }
        i = i + 1;
    }
    None
}

} // verus!
