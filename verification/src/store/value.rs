//! The value model: a closed, tagged set of scalar and array types, and
//! its byte layout.
//!
//! A value is laid out as a four-byte tag, least significant byte first,
//! followed by the payload of its variant.  Integers are fixed-width and
//! least significant byte first, a string is its byte length in eight
//! bytes and then its UTF-8 bytes, a character is its UTF-8 bytes alone,
//! and an array is its element count in eight bytes and then its elements.
use vstd::prelude::*;
use vstd::utf8::*;
use crate::store::bytes::{
    le32, le64, from_le32, from_le64, lemma_le32_round_trip, lemma_le64_round_trip,
    lemma_le32_bytes_round_trip, lemma_le64_bytes_round_trip, put_le32, put_le64, get_le32,
    get_le64,
};
use crate::text::{append_bytes, copy_range, push_char, string_from_utf8};

verus! {

/// Everything that can be stored under a key.
///
/// The two floating-point variants hold the IEEE 754 bit pattern of their
/// number, which is also what is written out.
#[derive(Debug, PartialEq)]
pub enum Value {
    Null,
    Bool(bool),
    Int32(i32),
    Int64(i64),
    Float32(u32),
    Float64(u64),
    String(String),
    Char(char),
    Array(Box<Vec<Value>>),
}

/// The mathematical content of a [`Value`].
pub enum ValueView {
    Null,
    Bool(bool),
    Int32(i32),
    Int64(i64),
    Float32(u32),
    Float64(u64),
    String(Seq<char>),
    Char(char),
    Array(Seq<ValueView>),
}

/// The views of the first `n` values of `items`.
pub open spec fn view_items(items: Seq<Value>, n: nat) -> Seq<ValueView>
    decreases items, n,
{
    if n == 0 || n > items.len() {
        Seq::empty()
    } else {
        view_items(items, (n - 1) as nat).push(items[n - 1].view())
    }
}

impl View for Value {
    type V = ValueView;

    open spec fn view(&self) -> ValueView
        decreases self,
    {
        match self {
            Value::Null => ValueView::Null,
            Value::Bool(b) => ValueView::Bool(*b),
            Value::Int32(x) => ValueView::Int32(*x),
            Value::Int64(x) => ValueView::Int64(*x),
            Value::Float32(bits) => ValueView::Float32(*bits),
            Value::Float64(bits) => ValueView::Float64(*bits),
            Value::String(s) => ValueView::String(s@),
            Value::Char(c) => ValueView::Char(*c),
            Value::Array(items) => ValueView::Array(view_items(items@, items@.len())),
        }
    }
}

impl Value {
    /// A copy of this value.
    #[verifier::loop_isolation(false)]
    pub fn duplicate(&self) -> (copy: Value)
        ensures
            copy@ == self@,
        decreases self,
    {
        match self {
            Value::Null => Value::Null,
            Value::Bool(b) => Value::Bool(*b),
            Value::Int32(x) => Value::Int32(*x),
            Value::Int64(x) => Value::Int64(*x),
            Value::Float32(bits) => Value::Float32(*bits),
            Value::Float64(bits) => Value::Float64(*bits),
            Value::String(s) => Value::String(s.clone()),
            Value::Char(c) => Value::Char(*c),
            Value::Array(items) => {
                let mut copies: Vec<Value> = Vec::new();
                let mut i: usize = 0;
                while i < items.len()
                    invariant
                        i <= items@.len(),
                        copies@.len() == i,
                        forall|j: int| 0 <= j < i ==> (#[trigger] copies@[j])@ == items@[j]@,
                    decreases items@.len() - i,
                {
                    proof {
                        vstd::std_specs::vec::axiom_vec_index_decreases(**items, i as int);
                    }
                    let item = items[i].duplicate();
                    copies.push(item);
                    i += 1;
                }
                proof {
                    lemma_view_items(items@, items@.len());
                    lemma_view_items(copies@, copies@.len());
                    assert(view_items(copies@, copies@.len()) =~= view_items(
                        items@,
                        items@.len(),
                    ));
                }
                Value::Array(Box::new(copies))
            },
        }
    }
}

impl Clone for Value {
    fn clone(&self) -> (copy: Value)
        ensures
            copy@ == self@,
    {
        self.duplicate()
    }
}

/// The view of a value, variant by variant.
pub proof fn lemma_view(v: Value)
    ensures
        v@ == (match v {
            Value::Null => ValueView::Null,
            Value::Bool(b) => ValueView::Bool(b),
            Value::Int32(x) => ValueView::Int32(x),
            Value::Int64(x) => ValueView::Int64(x),
            Value::Float32(bits) => ValueView::Float32(bits),
            Value::Float64(bits) => ValueView::Float64(bits),
            Value::String(s) => ValueView::String(s@),
            Value::Char(c) => ValueView::Char(c),
            Value::Array(items) => ValueView::Array(view_items(items@, items@.len())),
        }),
{
}

/// `view_items` is the element-wise view.
pub proof fn lemma_view_items(items: Seq<Value>, n: nat)
    requires
        n <= items.len(),
    ensures
        view_items(items, n).len() == n,
        forall|i: int| 0 <= i < n ==> (#[trigger] view_items(items, n)[i]) == items[i].view(),
    decreases n,
{
    if n > 0 {
        lemma_view_items(items, (n - 1) as nat);
        assert(view_items(items, n) == view_items(items, (n - 1) as nat).push(items[n - 1].view()));
    } else {
        assert(view_items(items, n) == Seq::<ValueView>::empty());
    }
}

/// The two's-complement bit pattern of a 32-bit signed integer.
pub open spec fn i32_bits(x: i32) -> u32 {
    if x >= 0 {
        x as u32
    } else {
        (x + 0x1_0000_0000) as u32
    }
}

/// The signed integer with the given two's-complement bit pattern.
pub open spec fn i32_of_bits(u: u32) -> i32 {
    if u < 0x8000_0000 {
        u as i32
    } else {
        (u - 0x1_0000_0000) as i32
    }
}

/// The two's-complement bit pattern of a 64-bit signed integer.
pub open spec fn i64_bits(x: i64) -> u64 {
    if x >= 0 {
        x as u64
    } else {
        (x + 0x1_0000_0000_0000_0000) as u64
    }
}

/// The signed integer with the given two's-complement bit pattern.
pub open spec fn i64_of_bits(u: u64) -> i64 {
    if u < 0x8000_0000_0000_0000 {
        u as i64
    } else {
        (u - 0x1_0000_0000_0000_0000) as i64
    }
}

/// The tag that starts the layout of each variant.
pub open spec fn tag_of(v: ValueView) -> u32 {
    match v {
        ValueView::Null => 0,
        ValueView::Bool(_) => 1,
        ValueView::Int32(_) => 2,
        ValueView::Int64(_) => 3,
        ValueView::Float32(_) => 4,
        ValueView::Float64(_) => 5,
        ValueView::String(_) => 6,
        ValueView::Char(_) => 7,
        ValueView::Array(_) => 8,
    }
}

/// Whether every length inside `v` fits the eight bytes it is written in.
/// This holds of every value that exists in memory.
pub open spec fn encodable(v: ValueView) -> bool
    decreases v,
{
    match v {
        ValueView::String(s) => encode_utf8(s).len() <= u64::MAX,
        ValueView::Array(items) => items.len() <= u64::MAX && all_encodable(items),
        _ => true,
    }
}

/// Whether every value of `items` is [`encodable`].
pub open spec fn all_encodable(items: Seq<ValueView>) -> bool
    decreases items,
{
    if items.len() == 0 {
        true
    } else {
        encodable(items[0]) && all_encodable(items.drop_first())
    }
}

/// The byte layout of a value.
pub open spec fn value_bytes(v: ValueView) -> Seq<u8>
    decreases v,
{
    match v {
        ValueView::Null => le32(0),
        ValueView::Bool(b) => le32(1) + seq![if b { 1u8 } else { 0u8 }],
        ValueView::Int32(x) => le32(2) + le32(i32_bits(x)),
        ValueView::Int64(x) => le32(3) + le64(i64_bits(x)),
        ValueView::Float32(bits) => le32(4) + le32(bits),
        ValueView::Float64(bits) => le32(5) + le64(bits),
        ValueView::String(s) => le32(6) + le64(encode_utf8(s).len() as u64) + encode_utf8(s),
        ValueView::Char(c) => le32(7) + encode_utf8(seq![c]),
        ValueView::Array(items) => le32(8) + le64(items.len() as u64) + items_bytes(items),
    }
}

/// The layouts of the values of `items`, one after the other.
pub open spec fn items_bytes(items: Seq<ValueView>) -> Seq<u8>
    decreases items,
{
    if items.len() == 0 {
        Seq::empty()
    } else {
        value_bytes(items[0]) + items_bytes(items.drop_first())
    }
}

/// What the front of `b` holds: a value and the number of bytes it takes,
/// or nothing where `b` does not start with the layout of a value.
pub open spec fn parse_value(b: Seq<u8>) -> Option<(ValueView, nat)>
    decreases b.len(), 0nat,
{
    if b.len() < 4 {
        None
    } else {
        let tag = from_le32(b.subrange(0, 4));
        let p = b.subrange(4, b.len() as int);
        if tag == 0 {
            Some((ValueView::Null, 4nat))
        } else if tag == 1 {
            if p.len() >= 1 && p[0] <= 1 {
                Some((ValueView::Bool(p[0] == 1), 5nat))
            } else {
                None
            }
        } else if tag == 2 {
            if p.len() >= 4 {
                Some((ValueView::Int32(i32_of_bits(from_le32(p.subrange(0, 4)))), 8nat))
            } else {
                None
            }
        } else if tag == 3 {
            if p.len() >= 8 {
                Some((ValueView::Int64(i64_of_bits(from_le64(p.subrange(0, 8)))), 12nat))
            } else {
                None
            }
        } else if tag == 4 {
            if p.len() >= 4 {
                Some((ValueView::Float32(from_le32(p.subrange(0, 4))), 8nat))
            } else {
                None
            }
        } else if tag == 5 {
            if p.len() >= 8 {
                Some((ValueView::Float64(from_le64(p.subrange(0, 8))), 12nat))
            } else {
                None
            }
        } else if tag == 6 {
            if p.len() >= 8 {
                let n = from_le64(p.subrange(0, 8)) as int;
                if p.len() - 8 >= n && valid_utf8(p.subrange(8, 8 + n)) {
                    Some((ValueView::String(decode_utf8(p.subrange(8, 8 + n))), (12 + n) as nat))
                } else {
                    None
                }
            } else {
                None
            }
        } else if tag == 7 {
            if valid_first_scalar(p) {
                Some(
                    (
                        ValueView::Char(decode_first_scalar(p) as char),
                        (4 + length_of_first_scalar(p)) as nat,
                    ),
                )
            } else {
                None
            }
        } else if tag == 8 {
            if p.len() >= 8 {
                let count = from_le64(p.subrange(0, 8)) as nat;
                match parse_items(p.subrange(8, p.len() as int), count) {
                    Some((items, used)) => Some((ValueView::Array(items), 12 + used)),
                    None => None,
                }
            } else {
                None
            }
        } else {
            None
        }
    }
}

/// What the front of `b` holds as `count` values in a row, and the number
/// of bytes they take together.
pub open spec fn parse_items(b: Seq<u8>, count: nat) -> Option<(Seq<ValueView>, nat)>
    decreases b.len(), count + 1,
{
    if count == 0 {
        Some((Seq::empty(), 0nat))
    } else {
        match parse_value(b) {
            Some((first, used)) => if used <= b.len() {
                match parse_items(b.subrange(used as int, b.len() as int), (count - 1) as nat) {
                    Some((rest, more)) => Some((seq![first] + rest, used + more)),
                    None => None,
                }
            } else {
                None
            },
            None => None,
        }
    }
}

/// A single character's UTF-8 bytes are recognised at the front of any
/// longer sequence of bytes.
pub proof fn lemma_char_round_trip(c: char, rest: Seq<u8>)
    ensures
        encode_utf8(seq![c]).len() >= 1,
        valid_first_scalar(encode_utf8(seq![c]) + rest),
        decode_first_scalar(encode_utf8(seq![c]) + rest) as char == c,
        length_of_first_scalar(encode_utf8(seq![c]) + rest) == encode_utf8(seq![c]).len(),
{
    let chars = seq![c];
    let e = encode_utf8(chars);
    encode_utf8_first_scalar(chars);
    assert(chars.drop_first() =~= Seq::<char>::empty());
    assert(encode_utf8(chars.drop_first()) =~= Seq::<u8>::empty());
    assert(e =~= encode_scalar(c as u32));
    char_u32_cast(c, c as u32);
    let b = e + rest;
    assert(forall|i: int| 0 <= i < e.len() ==> b[i] == e[i]);
}

/// What is recognised as a character at the front of `p` is laid out as
/// exactly the bytes that were read.
pub proof fn lemma_char_canonical(p: Seq<u8>)
    requires
        valid_first_scalar(p),
    ensures
        1 <= length_of_first_scalar(p) <= p.len(),
        encode_utf8(seq![decode_first_scalar(p) as char]) == p.subrange(
            0,
            length_of_first_scalar(p),
        ),
{
    let n = length_of_first_scalar(p);
    let take = p.subrange(0, n);
    assert(forall|i: int| 0 <= i < n ==> take[i] == p[i]);
    assert(valid_first_scalar(take));
    assert(length_of_first_scalar(take) == n);
    assert(pop_first_scalar(take) =~= Seq::<u8>::empty());
    assert(valid_utf8(pop_first_scalar(take)));
    assert(valid_utf8(take));
    decode_utf8_first_scalar(take);
    assert(take_first_scalar(take) =~= take);
    assert(decode_first_scalar(take) == decode_first_scalar(p));
    let c = decode_first_scalar(p) as char;
    let chars = seq![c];
    assert(chars.drop_first() =~= Seq::<char>::empty());
    assert(encode_utf8(chars.drop_first()) =~= Seq::<u8>::empty());
    assert(encode_utf8(chars) =~= encode_scalar(c as u32));
}

/// A parsed value never takes more bytes than there are, and never fewer
/// than its tag.
pub proof fn lemma_parse_value_bounds(b: Seq<u8>)
    ensures
        parse_value(b) matches Some((_, used)) ==> 4 <= used <= b.len(),
    decreases b.len(), 0nat,
{
    if b.len() >= 4 {
        let tag = from_le32(b.subrange(0, 4));
        let p = b.subrange(4, b.len() as int);
        if tag == 7 {
            if valid_first_scalar(p) {
                lemma_char_canonical(p);
            }
        } else if tag == 8 {
            if p.len() >= 8 {
                let count = from_le64(p.subrange(0, 8)) as nat;
                lemma_parse_items_bounds(p.subrange(8, p.len() as int), count);
            }
        }
    }
}

/// Parsed items never take more bytes than there are, and come in the
/// number that was asked for.
pub proof fn lemma_parse_items_bounds(b: Seq<u8>, count: nat)
    ensures
        parse_items(b, count) matches Some((items, used)) ==> used <= b.len() && items.len()
            == count,
    decreases b.len(), count + 1,
{
    if count > 0 {
        lemma_parse_value_bounds(b);
        match parse_value(b) {
            Some((first, used)) => {
                if used <= b.len() {
                    lemma_parse_items_bounds(
                        b.subrange(used as int, b.len() as int),
                        (count - 1) as nat,
                    );
                }
            },
            None => {},
        }
    }
}

/// Parsing what was laid out gives the value back, whatever follows it.
pub proof fn lemma_value_round_trip(v: ValueView, rest: Seq<u8>)
    requires
        encodable(v),
    ensures
        parse_value(value_bytes(v) + rest) == Some((v, value_bytes(v).len())),
    decreases v,
{
    let b = value_bytes(v) + rest;
    let tag = tag_of(v);
    lemma_le32_round_trip(tag);
    assert(b.subrange(0, 4) =~= le32(tag));
    let p = b.subrange(4, b.len() as int);
    match v {
        ValueView::Null => {},
        ValueView::Bool(flag) => {
            assert(p =~= seq![if flag { 1u8 } else { 0u8 }] + rest);
        },
        ValueView::Int32(x) => {
            lemma_le32_round_trip(i32_bits(x));
            assert(p.subrange(0, 4) =~= le32(i32_bits(x)));
        },
        ValueView::Int64(x) => {
            lemma_le64_round_trip(i64_bits(x));
            assert(p.subrange(0, 8) =~= le64(i64_bits(x)));
        },
        ValueView::Float32(bits) => {
            lemma_le32_round_trip(bits);
            assert(p.subrange(0, 4) =~= le32(bits));
        },
        ValueView::Float64(bits) => {
            lemma_le64_round_trip(bits);
            assert(p.subrange(0, 8) =~= le64(bits));
        },
        ValueView::String(s) => {
            let text = encode_utf8(s);
            lemma_le64_round_trip(text.len() as u64);
            assert(p.subrange(0, 8) =~= le64(text.len() as u64));
            assert(p.subrange(8, 8 + text.len() as int) =~= text);
            encode_utf8_valid_utf8(s);
            encode_utf8_decode_utf8(s);
        },
        ValueView::Char(c) => {
            lemma_char_round_trip(c, rest);
            assert(p =~= encode_utf8(seq![c]) + rest);
        },
        ValueView::Array(items) => {
            lemma_le64_round_trip(items.len() as u64);
            assert(p.subrange(0, 8) =~= le64(items.len() as u64));
            assert(p.subrange(8, p.len() as int) =~= items_bytes(items) + rest);
            lemma_items_round_trip(items, rest);
        },
    }
}

/// Parsing what was laid out for a row of values gives the row back.
pub proof fn lemma_items_round_trip(items: Seq<ValueView>, rest: Seq<u8>)
    requires
        all_encodable(items),
    ensures
        parse_items(items_bytes(items) + rest, items.len()) == Some(
            (items, items_bytes(items).len()),
        ),
    decreases items,
{
    if items.len() > 0 {
        let b = items_bytes(items) + rest;
        let first = items[0];
        let tail = items.drop_first();
        let after = items_bytes(tail) + rest;
        assert(b =~= value_bytes(first) + after);
        lemma_value_round_trip(first, after);
        let used = value_bytes(first).len();
        assert(b.subrange(used as int, b.len() as int) =~= after);
        lemma_items_round_trip(tail, rest);
        assert(seq![first] + tail =~= items);
    }
}

/// What was parsed is laid out as exactly the bytes that were read, so a
/// value has one layout only.
pub proof fn lemma_parse_value_canonical(b: Seq<u8>)
    ensures
        parse_value(b) matches Some((v, used)) ==> used <= b.len() && encodable(v)
            && value_bytes(v) == b.subrange(0, used as int),
    decreases b.len(), 0nat,
{
    lemma_parse_value_bounds(b);
    if b.len() >= 4 {
        let head = b.subrange(0, 4);
        let tag = from_le32(head);
        lemma_le32_bytes_round_trip(head);
        let p = b.subrange(4, b.len() as int);
        match parse_value(b) {
            Some((v, used)) => {
                let out = value_bytes(v);
                if tag == 0 {
                    assert(out =~= b.subrange(0, used as int));
                } else if tag == 1 {
                    assert(out =~= b.subrange(0, used as int));
                } else if tag == 2 {
                    lemma_le32_bytes_round_trip(p.subrange(0, 4));
                    assert(out =~= b.subrange(0, used as int));
                } else if tag == 3 {
                    lemma_le64_bytes_round_trip(p.subrange(0, 8));
                    assert(out =~= b.subrange(0, used as int));
                } else if tag == 4 {
                    lemma_le32_bytes_round_trip(p.subrange(0, 4));
                    assert(out =~= b.subrange(0, used as int));
                } else if tag == 5 {
                    lemma_le64_bytes_round_trip(p.subrange(0, 8));
                    assert(out =~= b.subrange(0, used as int));
                } else if tag == 6 {
                    let n = from_le64(p.subrange(0, 8)) as int;
                    let text = p.subrange(8, 8 + n);
                    lemma_le64_bytes_round_trip(p.subrange(0, 8));
                    decode_utf8_encode_utf8(text);
                    assert(out =~= b.subrange(0, used as int));
                } else if tag == 7 {
                    lemma_char_canonical(p);
                    assert(out =~= b.subrange(0, used as int));
                } else if tag == 8 {
                    let count = from_le64(p.subrange(0, 8)) as nat;
                    let body = p.subrange(8, p.len() as int);
                    lemma_le64_bytes_round_trip(p.subrange(0, 8));
                    lemma_parse_items_canonical(body, count);
                    lemma_parse_items_bounds(body, count);
                    assert(out =~= b.subrange(0, used as int));
                }
            },
            None => {},
        }
    }
}

/// What was parsed as a row is laid out as exactly the bytes that were read.
pub proof fn lemma_parse_items_canonical(b: Seq<u8>, count: nat)
    ensures
        parse_items(b, count) matches Some((items, used)) ==> used <= b.len() && all_encodable(
            items,
        ) && items_bytes(items) == b.subrange(0, used as int),
    decreases b.len(), count + 1,
{
    if count == 0 {
        assert(items_bytes(Seq::<ValueView>::empty()) =~= b.subrange(0, 0));
    } else {
        lemma_parse_value_canonical(b);
        match parse_value(b) {
            Some((first, used)) => {
                if used <= b.len() {
                    let after = b.subrange(used as int, b.len() as int);
                    lemma_parse_items_canonical(after, (count - 1) as nat);
                    match parse_items(after, (count - 1) as nat) {
                        Some((rest, more)) => {
                            let items = seq![first] + rest;
                            assert(items.drop_first() =~= rest);
                            assert(items[0] == first);
                            assert(items_bytes(items) =~= b.subrange(0, (used + more) as int));
                        },
                        None => {},
                    }
                }
            },
            None => {},
        }
    }
}

/// A row is encodable exactly when each of its values is.
pub proof fn lemma_all_encodable(items: Seq<ValueView>)
    ensures
        all_encodable(items) <==> forall|i: int| 0 <= i < items.len() ==> encodable(#[trigger] items[i]),
    decreases items.len(),
{
    if items.len() > 0 {
        let tail = items.drop_first();
        lemma_all_encodable(tail);
        assert(forall|i: int| 0 <= i < tail.len() ==> tail[i] == items[i + 1]);
        if all_encodable(items) {
            assert forall|i: int| 0 <= i < items.len() implies encodable(#[trigger] items[i]) by {
                if i > 0 {
                    assert(tail[i - 1] == items[i]);
                }
            }
        }
    }
}

/// The two's-complement bit pattern of `x`.
pub fn bits_of_i32(x: i32) -> (u: u32)
    ensures
        u == i32_bits(x),
{
    if x >= 0 {
        x as u32
    } else {
        ((x as i64) + 0x1_0000_0000) as u32
    }
}

/// The signed integer with bit pattern `u`.
pub fn i32_from_bits(u: u32) -> (x: i32)
    ensures
        x == i32_of_bits(u),
{
    if u < 0x8000_0000 {
        u as i32
    } else {
        ((u as i64) - 0x1_0000_0000) as i32
    }
}

/// The two's-complement bit pattern of `x`.
pub fn bits_of_i64(x: i64) -> (u: u64)
    ensures
        u == i64_bits(x),
{
    if x >= 0 {
        x as u64
    } else {
        ((x as i128) + 0x1_0000_0000_0000_0000) as u64
    }
}

/// The signed integer with bit pattern `u`.
pub fn i64_from_bits(u: u64) -> (x: i64)
    ensures
        x == i64_of_bits(u),
{
    if u < 0x8000_0000_0000_0000 {
        u as i64
    } else {
        ((u as i128) - 0x1_0000_0000_0000_0000) as i64
    }
}

impl Value {
    /// Appends the layout of this value to `buf`.
    #[verifier::loop_isolation(false)]
    pub fn encode_into(&self, buf: &mut Vec<u8>)
        ensures
            final(buf)@ == old(buf)@ + value_bytes(self@),
            encodable(self@),
        decreases self,
    {
        let ghost start = buf@;
        match self {
            Value::Null => {
                put_le32(buf, 0);
            },
            Value::Bool(b) => {
                put_le32(buf, 1);
                buf.push(if *b { 1u8 } else { 0u8 });
                assert(buf@ =~= start + value_bytes(self@));
            },
            Value::Int32(x) => {
                put_le32(buf, 2);
                put_le32(buf, bits_of_i32(*x));
                assert(buf@ =~= start + value_bytes(self@));
            },
            Value::Int64(x) => {
                put_le32(buf, 3);
                put_le64(buf, bits_of_i64(*x));
                assert(buf@ =~= start + value_bytes(self@));
            },
            Value::Float32(bits) => {
                put_le32(buf, 4);
                put_le32(buf, *bits);
                assert(buf@ =~= start + value_bytes(self@));
            },
            Value::Float64(bits) => {
                put_le32(buf, 5);
                put_le64(buf, *bits);
                assert(buf@ =~= start + value_bytes(self@));
            },
            Value::String(s) => {
                let text = s.as_str().as_bytes();
                put_le32(buf, 6);
                put_le64(buf, text.len() as u64);
                append_bytes(buf, text);
                assert(buf@ =~= start + value_bytes(self@));
            },
            Value::Char(c) => {
                let mut one = String::new();
                push_char(&mut one, *c);
                assert(one@ =~= seq![*c]);
                put_le32(buf, 7);
                append_bytes(buf, one.as_str().as_bytes());
                assert(buf@ =~= start + value_bytes(self@));
            },
            Value::Array(items) => {
                let ghost views = view_items(items@, items@.len());
                proof {
                    lemma_view_items(items@, items@.len());
                }
                put_le32(buf, 8);
                put_le64(buf, items.len() as u64);
                let ghost head = buf@;
                assert(views.subrange(0, views.len() as int) =~= views);
                let mut i: usize = 0;
                while i < items.len()
                    invariant
                        i <= items@.len(),
                        views.len() == items@.len(),
                        buf@ + items_bytes(views.subrange(i as int, views.len() as int)) == head
                            + items_bytes(views),
                        forall|j: int| 0 <= j < i ==> encodable(#[trigger] views[j]),
                    decreases items@.len() - i,
                {
                    proof {
                        vstd::std_specs::vec::axiom_vec_index_decreases(**items, i as int);
                    }
                    let ghost before = buf@;
                    let ghost remaining = views.subrange(i as int, views.len() as int);
                    items[i].encode_into(buf);
                    proof {
                        assert(remaining[0] == views[i as int]);
                        assert(remaining.drop_first() =~= views.subrange(
                            i + 1,
                            views.len() as int,
                        ));
                        assert(buf@ + items_bytes(remaining.drop_first()) =~= before + items_bytes(
                            remaining,
                        ));
                    }
                    i += 1;
                }
                proof {
                    assert(views.subrange(i as int, views.len() as int) =~= Seq::<
                        ValueView,
                    >::empty());
                    assert(buf@ =~= head + items_bytes(views));
                    lemma_all_encodable(views);
                    assert(buf@ =~= start + value_bytes(self@));
                }
            },
        }
    }

    /// The layout of this value.
    pub fn to_bytes(&self) -> (out: Vec<u8>)
        ensures
            out@ == value_bytes(self@),
            encodable(self@),
    {
        let mut out: Vec<u8> = Vec::new();
        self.encode_into(&mut out);
        assert(out@ =~= value_bytes(self@));
        out
    }

    /// Reads the value that starts at `pos`, and says where it ends.
    #[verifier::loop_isolation(false)]
    pub fn decode_at(bytes: &[u8], pos: usize) -> (r: Option<(Value, usize)>)
        requires
            pos <= bytes@.len(),
        ensures
            match parse_value(bytes@.subrange(pos as int, bytes@.len() as int)) {
                Some((v, used)) => r matches Some((value, next)) && value@ == v && next == pos
                    + used,
                None => r is None,
            },
        decreases bytes@.len() - pos,
    {
        let len = bytes.len();
        let ghost b = bytes@.subrange(pos as int, len as int);
        proof {
            lemma_parse_value_bounds(b);
        }
        if len - pos < 4 {
            return None;
        }
        let tag = get_le32(bytes, pos);
        let at = pos + 4;
        let ghost p = b.subrange(4, b.len() as int);
        assert(bytes@.subrange(pos as int, pos + 4) =~= b.subrange(0, 4));
        assert(p =~= bytes@.subrange(at as int, len as int));
        if tag == 0 {
            Some((Value::Null, at))
        } else if tag == 1 {
            if len - at >= 1 && bytes[at] <= 1 {
                Some((Value::Bool(bytes[at] == 1), at + 1))
            } else {
                None
            }
        } else if tag == 2 {
            if len - at >= 4 {
                assert(bytes@.subrange(at as int, at + 4) =~= p.subrange(0, 4));
                Some((Value::Int32(i32_from_bits(get_le32(bytes, at))), at + 4))
            } else {
                None
            }
        } else if tag == 3 {
            if len - at >= 8 {
                assert(bytes@.subrange(at as int, at + 8) =~= p.subrange(0, 8));
                Some((Value::Int64(i64_from_bits(get_le64(bytes, at))), at + 8))
            } else {
                None
            }
        } else if tag == 4 {
            if len - at >= 4 {
                assert(bytes@.subrange(at as int, at + 4) =~= p.subrange(0, 4));
                Some((Value::Float32(get_le32(bytes, at)), at + 4))
            } else {
                None
            }
        } else if tag == 5 {
            if len - at >= 8 {
                assert(bytes@.subrange(at as int, at + 8) =~= p.subrange(0, 8));
                Some((Value::Float64(get_le64(bytes, at)), at + 8))
            } else {
                None
            }
        } else if tag == 6 {
            if len - at >= 8 {
                assert(bytes@.subrange(at as int, at + 8) =~= p.subrange(0, 8));
                let n = get_le64(bytes, at);
                let body = at + 8;
                if n > (len - body) as u64 {
                    return None;
                }
                let n = n as usize;
                assert(bytes@.subrange(body as int, body + n) =~= p.subrange(8, 8 + n));
                match string_from_utf8(copy_range(bytes, body, body + n)) {
                    Some(s) => Some((Value::String(s), body + n)),
                    None => None,
                }
            } else {
                None
            }
        } else if tag == 7 {
            match Self::decode_char(bytes, at) {
                Some((c, next)) => Some((Value::Char(c), next)),
                None => None,
            }
        } else if tag == 8 {
            if len - at >= 8 {
                assert(bytes@.subrange(at as int, at + 8) =~= p.subrange(0, 8));
                let count = get_le64(bytes, at);
                let body = at + 8;
                let ghost rows = p.subrange(8, p.len() as int);
                assert(rows =~= bytes@.subrange(body as int, len as int));
                let mut out: Vec<Value> = Vec::new();
                let mut cur: usize = body;
                let mut i: u64 = 0;
                while i < count
                    invariant
                        i <= count,
                        body <= cur <= len,
                        out@.len() == i,
                        parse_items(rows, count as nat) == match parse_items(
                            bytes@.subrange(cur as int, len as int),
                            (count - i) as nat,
                        ) {
                            Some((rest, more)) => Some(
                                (view_items(out@, out@.len()) + rest, (cur - body + more) as nat),
                            ),
                            None => None,
                        },
                    decreases count - i,
                {
                    let ghost here = bytes@.subrange(cur as int, len as int);
                    let ghost done = view_items(out@, out@.len());
                    proof {
                        lemma_parse_value_bounds(here);
                        lemma_view_items(out@, out@.len());
                    }
                    match Self::decode_at(bytes, cur) {
                        Some((value, next)) => {
                            let ghost used = (next - cur) as nat;
                            proof {
                                assert(here.subrange(used as int, here.len() as int) =~= bytes@.subrange(
                                    next as int,
                                    len as int,
                                ));
                            }
                            let ghost view = value@;
                            out.push(value);
                            proof {
                                lemma_view_items(out@, out@.len());
                                assert(view_items(out@, out@.len()) =~= done.push(view));
                                match parse_items(
                                    bytes@.subrange(next as int, len as int),
                                    (count - i - 1) as nat,
                                ) {
                                    Some((rest, more)) => {
                                        assert(done + (seq![view] + rest) =~= done.push(view)
                                            + rest);
                                    },
                                    None => {},
                                }
                            }
                            cur = next;
                            i += 1;
                        },
                        None => {
                            return None;
                        },
                    }
                }
                proof {
                    lemma_view_items(out@, out@.len());
                    assert(view_items(out@, out@.len()) + Seq::<ValueView>::empty() =~= view_items(
                        out@,
                        out@.len(),
                    ));
                }
                Some((Value::Array(Box::new(out)), cur))
            } else {
                None
            }
        } else {
            None
        }
    }

    /// Reads the character whose UTF-8 bytes start at `pos`.
    fn decode_char(bytes: &[u8], pos: usize) -> (r: Option<(char, usize)>)
        requires
            pos <= bytes@.len(),
        ensures
            ({
                let p = bytes@.subrange(pos as int, bytes@.len() as int);
                if valid_first_scalar(p) {
                    r == Some((decode_first_scalar(p) as char, (pos + length_of_first_scalar(p)) as usize))
                        && pos + length_of_first_scalar(p) <= bytes@.len()
                } else {
                    r is None
                }
            }),
    {
        let len = bytes.len();
        let ghost p = bytes@.subrange(pos as int, len as int);
        if len - pos < 1 {
            return None;
        }
        let lead = bytes[pos];
        assert(p[0] == lead);
        let width: usize = if lead <= 0x7f {
            1
        } else if 0xc0 <= lead && lead <= 0xdf {
            2
        } else if 0xe0 <= lead && lead <= 0xef {
            3
        } else if 0xf0 <= lead && lead <= 0xf7 {
            4
        } else {
            return None;
        };
        if len - pos < width {
            return None;
        }
        let ghost take = p.subrange(0, width as int);
        assert(take =~= bytes@.subrange(pos as int, pos + width));
        assert(forall|i: int| 0 <= i < width ==> take[i] == p[i]);
        proof {
            if valid_first_scalar(p) {
                lemma_char_canonical(p);
                let c = decode_first_scalar(p) as char;
                encode_utf8_valid_utf8(seq![c]);
                encode_utf8_decode_utf8(seq![c]);
            }
            if valid_utf8(take) {
                assert(valid_first_scalar(take));
                assert(valid_first_scalar(p));
            }
        }
        match string_from_utf8(copy_range(bytes, pos, pos + width)) {
            Some(s) => {
                let c = s.as_str().get_char(0);
                Some((c, pos + width))
            },
            None => None,
        }
    }

    /// The value whose layout is exactly `bytes`, if there is one.
    pub fn from_bytes(bytes: &[u8]) -> (r: Option<Value>)
        ensures
            match parse_value(bytes@) {
                Some((v, used)) => if used == bytes@.len() {
                    r matches Some(value) && value@ == v
                } else {
                    r is None
                },
                None => r is None,
            },
    {
        assert(bytes@.subrange(0, bytes@.len() as int) =~= bytes@);
        match Self::decode_at(bytes, 0) {
            Some((value, next)) => if next == bytes.len() {
                Some(value)
            } else {
                None
            },
            None => None,
        }
    }
}

/// The byte layout of a text: its byte length in eight bytes, least
/// significant first, and then its UTF-8 bytes.
pub open spec fn text_bytes(s: Seq<char>) -> Seq<u8> {
    le64(encode_utf8(s).len() as u64) + encode_utf8(s)
}

/// What the front of `b` holds as a text, and the number of bytes it takes.
pub open spec fn parse_text(b: Seq<u8>) -> Option<(Seq<char>, nat)> {
    if b.len() < 8 {
        None
    } else {
        let n = from_le64(b.subrange(0, 8)) as int;
        if b.len() - 8 >= n && valid_utf8(b.subrange(8, 8 + n)) {
            Some((decode_utf8(b.subrange(8, 8 + n)), (8 + n) as nat))
        } else {
            None
        }
    }
}

/// Parsing what was laid out gives the text back, whatever follows it.
pub proof fn lemma_text_round_trip(s: Seq<char>, rest: Seq<u8>)
    requires
        encode_utf8(s).len() <= u64::MAX,
    ensures
        text_bytes(s).len() == 8 + encode_utf8(s).len(),
        parse_text(text_bytes(s) + rest) == Some((s, text_bytes(s).len())),
{
    let text = encode_utf8(s);
    let b = text_bytes(s) + rest;
    lemma_le64_round_trip(text.len() as u64);
    assert(b.subrange(0, 8) =~= le64(text.len() as u64));
    assert(b.subrange(8, 8 + text.len() as int) =~= text);
    encode_utf8_valid_utf8(s);
    encode_utf8_decode_utf8(s);
}

/// A parsed text takes no more bytes than there are.
pub proof fn lemma_parse_text_bounds(b: Seq<u8>)
    ensures
        parse_text(b) matches Some((_, used)) ==> 8 <= used <= b.len(),
{
}

/// Appends the layout of `text` to `buf`.
pub fn put_text(buf: &mut Vec<u8>, text: &str)
    ensures
        final(buf)@ == old(buf)@ + text_bytes(text@),
        encode_utf8(text@).len() <= u64::MAX,
{
    let bytes = text.as_bytes();
    let ghost start = buf@;
    put_le64(buf, bytes.len() as u64);
    append_bytes(buf, bytes);
    assert(buf@ =~= start + text_bytes(text@));
}

/// Reads the text that starts at `pos`, and says where it ends.
pub fn get_text(bytes: &[u8], pos: usize) -> (r: Option<(String, usize)>)
    requires
        pos <= bytes@.len(),
    ensures
        match parse_text(bytes@.subrange(pos as int, bytes@.len() as int)) {
            Some((s, used)) => r matches Some((text, next)) && text@ == s && next == pos + used
                && next <= bytes@.len(),
            None => r is None,
        },
{
    let len = bytes.len();
    let ghost b = bytes@.subrange(pos as int, len as int);
    if len - pos < 8 {
        return None;
    }
    assert(bytes@.subrange(pos as int, pos + 8) =~= b.subrange(0, 8));
    let n = get_le64(bytes, pos);
    let body = pos + 8;
    if n > (len - body) as u64 {
        return None;
    }
    let n = n as usize;
    assert(bytes@.subrange(body as int, body + n) =~= b.subrange(8, 8 + n));
    match string_from_utf8(copy_range(bytes, body, body + n)) {
        Some(s) => Some((s, body + n)),
        None => None,
    }
}

} // verus!
