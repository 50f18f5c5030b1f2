//! Values as bytes, and bytes as values.
//!
//! The form is the one that `bincode` gives with its default options, so
//! that a configuration written here is read by `bincode` into the same
//! shape of maps, lists and texts, and the other way round.

use crate::name_map::{entries_from, lemma_entries_from_distinct, names_distinct, NameMap};
use vstd::bytes::{
    lemma_auto_spec_u16_to_from_le_bytes, lemma_auto_spec_u32_to_from_le_bytes,
    lemma_auto_spec_u64_to_from_le_bytes, spec_u16_from_le_bytes, spec_u16_to_le_bytes,
    spec_u32_from_le_bytes, spec_u32_to_le_bytes, spec_u64_from_le_bytes, spec_u64_to_le_bytes,
    u16_from_le_bytes, u16_to_le_bytes, u32_from_le_bytes, u32_to_le_bytes, u64_from_le_bytes,
    u64_to_le_bytes,
};
use vstd::prelude::*;
use vstd::slice::slice_subrange;
use vstd::utf8::{
    decode_utf8, encode_utf8, encode_utf8_decode_utf8, encode_utf8_valid_utf8, valid_utf8,
};

verus! {

/// A type with a form in bytes. The form is compact and positional: integers
/// are little-endian and of fixed width, a text is its length in bytes as a
/// `u64` and its UTF-8 bytes, a list is its length as a `u64` and its items,
/// and an optional value is one byte, 0 or 1, and the value where it is 1.
pub trait Wire: DeepView + Sized {
    /// The bytes that stand for a value.
    spec fn wire(value: Self::V) -> Seq<u8>;

    /// The value at the front of the bytes and the bytes that follow it, or
    /// `None` where the bytes do not start with the form of a value.
    spec fn parse(bytes: Seq<u8>) -> Option<(Self::V, Seq<u8>)>;

    /// Whether the bytes keep all of a value. They do not where an address
    /// carries what its stored form leaves out.
    spec fn kept(value: Self::V) -> bool;

    /// Whether a value is read back from its bytes as itself: the bytes keep
    /// all of it, and every length in it can be written.
    spec fn stable(value: Self::V) -> bool;

    /// A stable value is read back from its bytes, whatever follows them.
    proof fn lemma_reads_back(value: Self::V, rest: Seq<u8>)
        requires
            Self::stable(value),
        ensures
            Self::parse(Self::wire(value) + rest) == Some((value, rest)),
    ;

    /// Writes the bytes of the value at the end of `out`. A value that is
    /// held in memory has no length that cannot be written.
    fn encode(&self, out: &mut Vec<u8>)
        ensures
            final(out)@ == old(out)@ + Self::wire(self.deep_view()),
            Self::kept(self.deep_view()) ==> Self::stable(self.deep_view()),
    ;

    /// Reads a value from the bytes that start at `start`, and says where
    /// the bytes after it start. Nothing is read from beyond the bytes.
    fn decode(bytes: &[u8], start: usize) -> (read: Option<(Self, usize)>)
        ensures
            start > bytes@.len() ==> read is None,
            start <= bytes@.len() ==> match Self::parse(bytes@.skip(start as int)) {
                Some((value, rest)) => read matches Some((held, end)) && held.deep_view() == value
                    && start <= end <= bytes@.len() && rest == bytes@.skip(end as int),
                None => read is None,
            },
    ;
}

impl Wire for u8 {
    open spec fn wire(value: u8) -> Seq<u8> {
        seq![value]
    }

    open spec fn parse(bytes: Seq<u8>) -> Option<(u8, Seq<u8>)> {
        if bytes.len() >= 1 {
            Some((bytes[0], bytes.skip(1)))
        } else {
            None
        }
    }

    open spec fn kept(value: u8) -> bool {
        true
    }

    open spec fn stable(value: u8) -> bool {
        true
    }

    proof fn lemma_reads_back(value: u8, rest: Seq<u8>) {
        assert((seq![value] + rest).skip(1) =~= rest);
    }

    fn encode(&self, out: &mut Vec<u8>) {
        out.push(*self);
        assert(out@ =~= old(out)@ + seq![*self]);
    }

    fn decode(bytes: &[u8], start: usize) -> (read: Option<(Self, usize)>) {
        if start <= bytes.len() && bytes.len() - start >= 1 {
            assert(bytes@.skip(start as int).skip(1) =~= bytes@.skip(start + 1));
            Some((bytes[start], start + 1))
        } else {
            None
        }
    }
}

impl Wire for u16 {
    open spec fn wire(value: u16) -> Seq<u8> {
        spec_u16_to_le_bytes(value)
    }

    open spec fn parse(bytes: Seq<u8>) -> Option<(u16, Seq<u8>)> {
        if bytes.len() >= 2 {
            Some((spec_u16_from_le_bytes(bytes.take(2)), bytes.skip(2)))
        } else {
            None
        }
    }

    open spec fn kept(value: u16) -> bool {
        true
    }

    open spec fn stable(value: u16) -> bool {
        true
    }

    proof fn lemma_reads_back(value: u16, rest: Seq<u8>) {
        lemma_auto_spec_u16_to_from_le_bytes();
        let all = spec_u16_to_le_bytes(value) + rest;
        assert(all.take(2) =~= spec_u16_to_le_bytes(value));
        assert(all.skip(2) =~= rest);
    }

    fn encode(&self, out: &mut Vec<u8>) {
        let mut held = u16_to_le_bytes(*self);
        out.append(&mut held);
    }

    fn decode(bytes: &[u8], start: usize) -> (read: Option<(Self, usize)>) {
        if start <= bytes.len() && bytes.len() - start >= 2 {
            let part = slice_subrange(bytes, start, start + 2);
            assert(part@ =~= bytes@.skip(start as int).take(2));
            assert(bytes@.skip(start as int).skip(2) =~= bytes@.skip(start + 2));
            Some((u16_from_le_bytes(part), start + 2))
        } else {
            None
        }
    }
}

impl Wire for u32 {
    open spec fn wire(value: u32) -> Seq<u8> {
        spec_u32_to_le_bytes(value)
    }

    open spec fn parse(bytes: Seq<u8>) -> Option<(u32, Seq<u8>)> {
        if bytes.len() >= 4 {
            Some((spec_u32_from_le_bytes(bytes.take(4)), bytes.skip(4)))
        } else {
            None
        }
    }

    open spec fn kept(value: u32) -> bool {
        true
    }

    open spec fn stable(value: u32) -> bool {
        true
    }

    proof fn lemma_reads_back(value: u32, rest: Seq<u8>) {
        lemma_auto_spec_u32_to_from_le_bytes();
        let all = spec_u32_to_le_bytes(value) + rest;
        assert(all.take(4) =~= spec_u32_to_le_bytes(value));
        assert(all.skip(4) =~= rest);
    }

    fn encode(&self, out: &mut Vec<u8>) {
        let mut held = u32_to_le_bytes(*self);
        out.append(&mut held);
    }

    fn decode(bytes: &[u8], start: usize) -> (read: Option<(Self, usize)>) {
        if start <= bytes.len() && bytes.len() - start >= 4 {
            let part = slice_subrange(bytes, start, start + 4);
            assert(part@ =~= bytes@.skip(start as int).take(4));
            assert(bytes@.skip(start as int).skip(4) =~= bytes@.skip(start + 4));
            Some((u32_from_le_bytes(part), start + 4))
        } else {
            None
        }
    }
}

impl Wire for u64 {
    open spec fn wire(value: u64) -> Seq<u8> {
        spec_u64_to_le_bytes(value)
    }

    open spec fn parse(bytes: Seq<u8>) -> Option<(u64, Seq<u8>)> {
        if bytes.len() >= 8 {
            Some((spec_u64_from_le_bytes(bytes.take(8)), bytes.skip(8)))
        } else {
            None
        }
    }

    open spec fn kept(value: u64) -> bool {
        true
    }

    open spec fn stable(value: u64) -> bool {
        true
    }

    proof fn lemma_reads_back(value: u64, rest: Seq<u8>) {
        lemma_auto_spec_u64_to_from_le_bytes();
        let all = spec_u64_to_le_bytes(value) + rest;
        assert(all.take(8) =~= spec_u64_to_le_bytes(value));
        assert(all.skip(8) =~= rest);
    }

    fn encode(&self, out: &mut Vec<u8>) {
        let mut held = u64_to_le_bytes(*self);
        out.append(&mut held);
    }

    fn decode(bytes: &[u8], start: usize) -> (read: Option<(Self, usize)>) {
        if start <= bytes.len() && bytes.len() - start >= 8 {
            let part = slice_subrange(bytes, start, start + 8);
            assert(part@ =~= bytes@.skip(start as int).take(8));
            assert(bytes@.skip(start as int).skip(8) =~= bytes@.skip(start + 8));
            Some((u64_from_le_bytes(part), start + 8))
        } else {
            None
        }
    }
}

/// `core::str::Utf8Error`, which says why bytes are no UTF-8 text.
#[verifier::external_type_specification]
#[verifier::external_body]
pub struct ExUtf8Error(core::str::Utf8Error);

/// `core::str::from_utf8`: the bytes as a text, which succeeds exactly on
/// valid UTF-8; the text then consists of these very bytes.
#[verifier::external_body]
fn text_of_bytes(bytes: &[u8]) -> (text: Result<&str, core::str::Utf8Error>)
    ensures
        text is Ok <==> valid_utf8(bytes@),
        text matches Ok(s) ==> encode_utf8(s@) == bytes@,
{
    core::str::from_utf8(bytes)
}

impl Wire for String {
    open spec fn wire(value: Seq<char>) -> Seq<u8> {
        <u64 as Wire>::wire(encode_utf8(value).len() as u64) + encode_utf8(value)
    }

    open spec fn parse(bytes: Seq<u8>) -> Option<(Seq<char>, Seq<u8>)> {
        match <u64 as Wire>::parse(bytes) {
            Some((length, rest)) => if length <= rest.len() && valid_utf8(
                rest.take(length as int),
            ) {
                Some((decode_utf8(rest.take(length as int)), rest.skip(length as int)))
            } else {
                None
            },
            None => None,
        }
    }

    open spec fn kept(value: Seq<char>) -> bool {
        true
    }

    open spec fn stable(value: Seq<char>) -> bool {
        encode_utf8(value).len() <= u64::MAX
    }

    proof fn lemma_reads_back(value: Seq<char>, rest: Seq<u8>) {
        let text = encode_utf8(value);
        let length = text.len() as u64;
        <u64 as Wire>::lemma_reads_back(length, text + rest);
        assert(<u64 as Wire>::wire(length) + (text + rest) =~= Self::wire(value) + rest);
        assert((text + rest).take(length as int) =~= text);
        assert((text + rest).skip(length as int) =~= rest);
        encode_utf8_valid_utf8(value);
        encode_utf8_decode_utf8(value);
    }

    fn encode(&self, out: &mut Vec<u8>) {
        let text = self.as_str().as_bytes();
        let length: u64 = text.len() as u64;
        length.encode(out);
        let ghost with_length = out@;
        let mut i: usize = 0;
        while i < text.len()
            invariant
                i <= text@.len(),
                out@ == with_length + text@.take(i as int),
            decreases text@.len() - i,
        {
            out.push(text[i]);
            assert(text@.take(i + 1) =~= text@.take(i as int).push(text@[i as int]));
            i = i + 1;
        }
        assert(text@.take(i as int) =~= text@);
        assert(out@ =~= old(out)@ + Self::wire(self@));
    }

    fn decode(bytes: &[u8], start: usize) -> (read: Option<(Self, usize)>) {
        match u64::decode(bytes, start) {
            Some((length, at)) => {
                if length <= (bytes.len() - at) as u64 {
                    let end: usize = at + length as usize;
                    let part = slice_subrange(bytes, at, end);
                    assert(part@ =~= bytes@.skip(at as int).take(length as int));
                    assert(bytes@.skip(at as int).skip(length as int) =~= bytes@.skip(end as int));
                    match text_of_bytes(part) {
                        Ok(text) => {
                            proof {
                                encode_utf8_decode_utf8(text@);
                            }
                            Some((text.to_owned(), end))
                        },
                        Err(_) => None,
                    }
                } else {
                    None
                }
            },
            None => None,
        }
    }
}

impl<T: Wire> Wire for Option<T> {
    open spec fn wire(value: Option<T::V>) -> Seq<u8> {
        match value {
            None => seq![0u8],
            Some(held) => seq![1u8] + T::wire(held),
        }
    }

    open spec fn parse(bytes: Seq<u8>) -> Option<(Option<T::V>, Seq<u8>)> {
        if bytes.len() >= 1 && bytes[0] == 0 {
            Some((None, bytes.skip(1)))
        } else if bytes.len() >= 1 && bytes[0] == 1 {
            match T::parse(bytes.skip(1)) {
                Some((held, rest)) => Some((Some(held), rest)),
                None => None,
            }
        } else {
            None
        }
    }

    open spec fn kept(value: Option<T::V>) -> bool {
        match value {
            None => true,
            Some(held) => T::kept(held),
        }
    }

    open spec fn stable(value: Option<T::V>) -> bool {
        match value {
            None => true,
            Some(held) => T::stable(held),
        }
    }

    proof fn lemma_reads_back(value: Option<T::V>, rest: Seq<u8>) {
        match value {
            None => {
                assert((seq![0u8] + rest).skip(1) =~= rest);
            },
            Some(held) => {
                T::lemma_reads_back(held, rest);
                assert((seq![1u8] + T::wire(held) + rest).skip(1) =~= T::wire(held) + rest);
            },
        }
    }

    fn encode(&self, out: &mut Vec<u8>) {
        match self {
            None => {
                out.push(0u8);
                assert(out@ =~= old(out)@ + seq![0u8]);
            },
            Some(held) => {
                out.push(1u8);
                held.encode(out);
                assert(out@ =~= old(out)@ + (seq![1u8] + T::wire(held.deep_view())));
            },
        }
    }

    fn decode(bytes: &[u8], start: usize) -> (read: Option<(Self, usize)>) {
        if start <= bytes.len() && bytes.len() - start >= 1 {
            assert(bytes@.skip(start as int).skip(1) =~= bytes@.skip(start + 1));
            let tag: u8 = bytes[start];
            if tag == 0 {
                Some((None, start + 1))
            } else if tag == 1 {
                match T::decode(bytes, start + 1) {
                    Some((held, end)) => Some((Some(held), end)),
                    None => None,
                }
            } else {
                None
            }
        } else {
            None
        }
    }
}

impl<A: Wire, B: Wire> Wire for (A, B) {
    open spec fn wire(value: (A::V, B::V)) -> Seq<u8> {
        A::wire(value.0) + B::wire(value.1)
    }

    open spec fn parse(bytes: Seq<u8>) -> Option<((A::V, B::V), Seq<u8>)> {
        match A::parse(bytes) {
            Some((first, rest)) => match B::parse(rest) {
                Some((second, end)) => Some(((first, second), end)),
                None => None,
            },
            None => None,
        }
    }

    open spec fn kept(value: (A::V, B::V)) -> bool {
        A::kept(value.0) && B::kept(value.1)
    }

    open spec fn stable(value: (A::V, B::V)) -> bool {
        A::stable(value.0) && B::stable(value.1)
    }

    proof fn lemma_reads_back(value: (A::V, B::V), rest: Seq<u8>) {
        A::lemma_reads_back(value.0, B::wire(value.1) + rest);
        B::lemma_reads_back(value.1, rest);
        assert(A::wire(value.0) + (B::wire(value.1) + rest) =~= Self::wire(value) + rest);
    }

    fn encode(&self, out: &mut Vec<u8>) {
        self.0.encode(out);
        self.1.encode(out);
        assert(out@ =~= old(out)@ + Self::wire(self.deep_view()));
    }

    fn decode(bytes: &[u8], start: usize) -> (read: Option<(Self, usize)>) {
        match A::decode(bytes, start) {
            Some((first, at)) => match B::decode(bytes, at) {
                Some((second, end)) => Some(((first, second), end)),
                None => None,
            },
            None => None,
        }
    }
}

/// The bytes of the items, one after the other.
pub open spec fn wire_items<T: Wire>(items: Seq<T::V>) -> Seq<u8>
    decreases items.len(),
{
    if items.len() == 0 {
        Seq::empty()
    } else {
        wire_items::<T>(items.drop_last()) + T::wire(items.last())
    }
}

/// The `count` items at the front of the bytes and the bytes that follow
/// them, or `None` where the bytes do not start with that many items.
pub open spec fn parse_items<T: Wire>(bytes: Seq<u8>, count: nat) -> Option<(Seq<T::V>, Seq<u8>)>
    decreases count,
{
    if count == 0 {
        Some((Seq::empty(), bytes))
    } else {
        match T::parse(bytes) {
            Some((first, rest)) => match parse_items::<T>(rest, (count - 1) as nat) {
                Some((others, end)) => Some((seq![first] + others, end)),
                None => None,
            },
            None => None,
        }
    }
}

/// The bytes keep all of every item.
pub open spec fn all_kept<T: Wire>(items: Seq<T::V>) -> bool {
    forall|i: int| 0 <= i < items.len() ==> T::kept(#[trigger] items[i])
}

/// Where the bytes keep all of every item, they keep all of each.
pub proof fn lemma_kept_item<T: Wire>(items: Seq<T::V>, i: int)
    requires
        all_kept::<T>(items),
        0 <= i < items.len(),
    ensures
        T::kept(items[i]),
{
}

/// Every item is read back from its bytes as itself.
pub open spec fn all_stable<T: Wire>(items: Seq<T::V>) -> bool {
    forall|i: int| 0 <= i < items.len() ==> T::stable(#[trigger] items[i])
}

/// What `parse_items` gives with some items already read.
pub open spec fn parse_more<T: Wire>(read: Seq<T::V>, bytes: Seq<u8>, count: nat) -> Option<
    (Seq<T::V>, Seq<u8>),
> {
    match parse_items::<T>(bytes, count) {
        Some((others, end)) => Some((read + others, end)),
        None => None,
    }
}

proof fn lemma_wire_items_front<T: Wire>(items: Seq<T::V>)
    requires
        items.len() > 0,
    ensures
        wire_items::<T>(items) == T::wire(items.first()) + wire_items::<T>(items.drop_first()),
    decreases items.len(),
{
    if items.len() == 1 {
        assert(items.drop_last() =~= Seq::<T::V>::empty());
        assert(items.drop_first() =~= Seq::<T::V>::empty());
        assert(wire_items::<T>(items) =~= T::wire(items.first()) + wire_items::<T>(
            items.drop_first(),
        ));
    } else {
        lemma_wire_items_front::<T>(items.drop_last());
        assert(items.drop_last().drop_first() =~= items.drop_first().drop_last());
        assert(items.drop_last().first() == items.first());
        assert(items.drop_first().last() == items.last());
        assert(wire_items::<T>(items) =~= T::wire(items.first()) + wire_items::<T>(
            items.drop_first(),
        ));
    }
}

/// Stable items are read back from their bytes, whatever follows them.
pub proof fn lemma_items_read_back<T: Wire>(items: Seq<T::V>, rest: Seq<u8>)
    requires
        all_stable::<T>(items),
    ensures
        parse_items::<T>(wire_items::<T>(items) + rest, items.len()) == Some((items, rest)),
    decreases items.len(),
{
    if items.len() == 0 {
        assert(wire_items::<T>(items) + rest =~= rest);
        assert(items =~= Seq::<T::V>::empty());
    } else {
        let others = items.drop_first();
        lemma_wire_items_front::<T>(items);
        assert(T::stable(items[0]));
        assert forall|i: int| 0 <= i < others.len() implies T::stable(#[trigger] others[i]) by {
            assert(T::stable(items[i + 1]));
        }
        T::lemma_reads_back(items.first(), wire_items::<T>(others) + rest);
        assert(T::wire(items.first()) + (wire_items::<T>(others) + rest) =~= wire_items::<T>(items)
            + rest);
        lemma_items_read_back::<T>(others, rest);
        assert(seq![items.first()] + others =~= items);
    }
}

/// Reading one more item: what is still to be read, with the item at the end
/// of what was read, gives what was to be read before.
proof fn lemma_parse_step<T: Wire>(read: Seq<T::V>, bytes: Seq<u8>, count: nat)
    requires
        count > 0,
    ensures
        parse_more::<T>(read, bytes, count) == match T::parse(bytes) {
            Some((first, rest)) => parse_more::<T>(read.push(first), rest, (count - 1) as nat),
            None => None,
        },
{
    match T::parse(bytes) {
        Some((first, rest)) => {
            match parse_items::<T>(rest, (count - 1) as nat) {
                Some((others, end)) => {
                    assert(read + (seq![first] + others) =~= read.push(first) + others);
                },
                None => {},
            }
        },
        None => {},
    }
}

impl<T: Wire> Wire for Vec<T> {
    open spec fn wire(value: Seq<T::V>) -> Seq<u8> {
        <u64 as Wire>::wire(value.len() as u64) + wire_items::<T>(value)
    }

    open spec fn parse(bytes: Seq<u8>) -> Option<(Seq<T::V>, Seq<u8>)> {
        match <u64 as Wire>::parse(bytes) {
            Some((count, rest)) => parse_items::<T>(rest, count as nat),
            None => None,
        }
    }

    open spec fn kept(value: Seq<T::V>) -> bool {
        all_kept::<T>(value)
    }

    open spec fn stable(value: Seq<T::V>) -> bool {
        value.len() <= u64::MAX && all_stable::<T>(value)
    }

    proof fn lemma_reads_back(value: Seq<T::V>, rest: Seq<u8>) {
        let count = value.len() as u64;
        <u64 as Wire>::lemma_reads_back(count, wire_items::<T>(value) + rest);
        assert(<u64 as Wire>::wire(count) + (wire_items::<T>(value) + rest) =~= Self::wire(value)
            + rest);
        lemma_items_read_back::<T>(value, rest);
    }

    fn encode(&self, out: &mut Vec<u8>) {
        let count: u64 = self.len() as u64;
        count.encode(out);
        let ghost with_count = out@;
        let mut i: usize = 0;
        while i < self.len()
            invariant
                i <= self@.len(),
                out@ == with_count + wire_items::<T>(self.deep_view().take(i as int)),
                forall|j: int|
                    0 <= j < i && T::kept(#[trigger] self.deep_view()[j]) ==> T::stable(
                        self.deep_view()[j],
                    ),
            decreases self@.len() - i,
        {
            let ghost before = self.deep_view().take(i as int);
            let ghost after = self.deep_view().take(i + 1);
            proof {
                assert(after.drop_last() =~= before);
                assert(after.last() == self@[i as int].deep_view());
            }
            self[i].encode(out);
            assert(out@ =~= with_count + wire_items::<T>(after));
            i = i + 1;
        }
        assert(self.deep_view().take(i as int) =~= self.deep_view());
        assert(out@ =~= old(out)@ + Self::wire(self.deep_view()));
    }

    fn decode(bytes: &[u8], start: usize) -> (read: Option<(Self, usize)>) {
        match u64::decode(bytes, start) {
            Some((count, first)) => {
                let mut items: Vec<T> = Vec::new();
                let mut at: usize = first;
                let mut i: u64 = 0;
                assert(Seq::<T::V>::empty() + items.deep_view() =~= items.deep_view());
                assert(items.deep_view() =~= Seq::<T::V>::empty());
                assert(parse_more::<T>(
                    items.deep_view(),
                    bytes@.skip(at as int),
                    (count - i) as nat,
                ) == parse_items::<T>(bytes@.skip(first as int), count as nat)) by {
                    match parse_items::<T>(bytes@.skip(first as int), count as nat) {
                        Some((others, end)) => {
                            assert(Seq::<T::V>::empty() + others =~= others);
                        },
                        None => {},
                    }
                }
                while i < count
                    invariant
                        i <= count,
                        first <= at <= bytes@.len(),
                        start <= first,
                        Self::parse(bytes@.skip(start as int)) == parse_items::<T>(
                            bytes@.skip(first as int),
                            count as nat,
                        ),
                        parse_more::<T>(
                            items.deep_view(),
                            bytes@.skip(at as int),
                            (count - i) as nat,
                        ) == parse_items::<T>(bytes@.skip(first as int), count as nat),
                    decreases count - i,
                {
                    proof {
                        lemma_parse_step::<T>(
                            items.deep_view(),
                            bytes@.skip(at as int),
                            (count - i) as nat,
                        );
                    }
                    match T::decode(bytes, at) {
                        Some((item, next)) => {
                            let ghost before = items.deep_view();
                            items.push(item);
                            assert(items.deep_view() =~= before.push(item.deep_view()));
                            at = next;
                        },
                        None => {
                            return None;
                        },
                    }
                    i = i + 1;
                }
                assert(items.deep_view() + Seq::<T::V>::empty() =~= items.deep_view());
                Some((items, at))
            },
            None => None,
        }
    }
}

impl<V: Wire> Wire for NameMap<V> {
    open spec fn wire(value: Seq<(Seq<char>, V::V)>) -> Seq<u8> {
        <Vec<(String, V)> as Wire>::wire(value)
    }

    open spec fn parse(bytes: Seq<u8>) -> Option<(Seq<(Seq<char>, V::V)>, Seq<u8>)> {
        match <Vec<(String, V)> as Wire>::parse(bytes) {
            Some((pairs, rest)) => Some((entries_from(pairs), rest)),
            None => None,
        }
    }

    open spec fn kept(value: Seq<(Seq<char>, V::V)>) -> bool {
        <Vec<(String, V)> as Wire>::kept(value)
    }

    open spec fn stable(value: Seq<(Seq<char>, V::V)>) -> bool {
        <Vec<(String, V)> as Wire>::stable(value) && names_distinct(value)
    }

    proof fn lemma_reads_back(value: Seq<(Seq<char>, V::V)>, rest: Seq<u8>) {
        <Vec<(String, V)> as Wire>::lemma_reads_back(value, rest);
        lemma_entries_from_distinct(value);
    }

    fn encode(&self, out: &mut Vec<u8>) {
        let count: u64 = self.len() as u64;
        count.encode(out);
        let ghost with_count = out@;
        let mut i: usize = 0;
        while i < self.len()
            invariant
                i <= self.entries().len(),
                out@ == with_count + wire_items::<(String, V)>(self.entries().take(i as int)),
                forall|j: int|
                    0 <= j < i && <(String, V) as Wire>::kept(#[trigger] self.entries()[j])
                        ==> <(String, V) as Wire>::stable(self.entries()[j]),
            decreases self.entries().len() - i,
        {
            let ghost before = self.entries().take(i as int);
            let ghost after = self.entries().take(i + 1);
            proof {
                assert(after.drop_last() =~= before);
                assert(after.last() == self.entries()[i as int]);
            }
            match self.entry(i) {
                Some((name, value)) => {
                    name.encode(out);
                    value.encode(out);
                },
                None => {},
            }
            assert(out@ =~= with_count + wire_items::<(String, V)>(after));
            i = i + 1;
        }
        assert(self.entries().take(i as int) =~= self.entries());
        assert(out@ =~= old(out)@ + Self::wire(self.deep_view()));
    }

    fn decode(bytes: &[u8], start: usize) -> (read: Option<(Self, usize)>) {
        match u64::decode(bytes, start) {
            Some((count, first)) => {
                let mut held: NameMap<V> = NameMap::new();
                let ghost mut pairs: Seq<(Seq<char>, V::V)> = Seq::empty();
                let mut at: usize = first;
                let mut i: u64 = 0;
                assert(parse_more::<(String, V)>(pairs, bytes@.skip(at as int), (count - i) as nat)
                    == parse_items::<(String, V)>(bytes@.skip(first as int), count as nat)) by {
                    match parse_items::<(String, V)>(bytes@.skip(first as int), count as nat) {
                        Some((others, end)) => {
                            assert(pairs + others =~= others);
                        },
                        None => {},
                    }
                }
                while i < count
                    invariant
                        i <= count,
                        first <= at <= bytes@.len(),
                        start <= first,
                        <Vec<(String, V)> as Wire>::parse(bytes@.skip(start as int))
                            == parse_items::<(String, V)>(bytes@.skip(first as int), count as nat),
                        parse_more::<(String, V)>(pairs, bytes@.skip(at as int), (count - i) as nat)
                            == parse_items::<(String, V)>(bytes@.skip(first as int), count as nat),
                        held.entries() == entries_from(pairs),
                    decreases count - i,
                {
                    proof {
                        lemma_parse_step::<(String, V)>(
                            pairs,
                            bytes@.skip(at as int),
                            (count - i) as nat,
                        );
                    }
                    match <(String, V)>::decode(bytes, at) {
                        Some((pair, next)) => {
                            proof {
                                let ghost longer = pairs.push(pair.deep_view());
                                assert(longer.drop_last() =~= pairs);
                                pairs = longer;
                            }
                            held.insert(pair.0, pair.1);
                            at = next;
                        },
                        None => {
                            return None;
                        },
                    }
                    i = i + 1;
                }
                assert(pairs + Seq::<(Seq<char>, V::V)>::empty() =~= pairs);
                Some((held, at))
            },
            None => None,
        }
    }
}

} // verus!
