//! One logged mutation and its byte layout.
//!
//! A record is a fixed header of twenty bytes followed by its body:
//! four bytes of operation tag, eight bytes of key length, eight bytes of
//! value length, both most significant byte first, then the key's UTF-8
//! bytes and the value's layout.
use vstd::prelude::*;
use vstd::utf8::*;
use crate::store::bytes::{
    le32, from_le32, be64, from_be64, lemma_le32_round_trip, lemma_le32_bytes_round_trip,
    lemma_be64_round_trip, lemma_be64_bytes_round_trip, put_le32, put_be64, get_le32, get_be64,
};
use crate::store::kv_error::KvError;
use crate::store::value::{
    Value, ValueView, value_bytes, parse_value, encodable, lemma_value_round_trip,
    lemma_parse_value_canonical, lemma_parse_value_bounds,
};
use crate::text::{append_bytes, copy_range, string_from_utf8};

verus! {

/// Width in bytes of each length field of the header.
pub const USIZE_SIZE: usize = 8;

/// Width in bytes of the header.
pub const ENTRY_META_SIZE: usize = 20;

/// The operation that a record logs.
#[derive(Debug, PartialEq, Eq, Clone, Copy, Structural)]
pub enum Command {
    Add,
    Delete,
}

/// The header of a record.
#[derive(Debug, PartialEq, Eq, Clone, Copy, Structural)]
pub struct Meta {
    pub command: Command,
    pub key_size: u64,
    pub value_size: u64,
}

/// One record: its header, its key and its value.  A `Delete` record
/// carries `Value::Null`.
#[derive(Debug, PartialEq)]
pub struct Entry {
    meta: Meta,
    key: String,
    value: Value,
}

/// The mathematical content of a record.
pub struct EntryView {
    pub command: Command,
    pub key: Seq<char>,
    pub value: ValueView,
}

/// The four-byte tag of an operation.
pub open spec fn command_tag(command: Command) -> u32 {
    match command {
        Command::Add => 0,
        Command::Delete => 1,
    }
}

/// The header's twenty bytes.
pub open spec fn meta_bytes(meta: Meta) -> Seq<u8> {
    le32(command_tag(meta.command)) + be64(meta.key_size) + be64(meta.value_size)
}

/// What twenty bytes say as a header, or the fault in them.
pub open spec fn parse_meta(b: Seq<u8>) -> core::result::Result<Meta, KvError>
    recommends
        b.len() == 20,
{
    let tag = from_le32(b.subrange(0, 4));
    let key_size = from_be64(b.subrange(4, 12));
    let value_size = from_be64(b.subrange(12, 20));
    if tag == 0 {
        Ok(Meta { command: Command::Add, key_size, value_size })
    } else if tag == 1 {
        Ok(Meta { command: Command::Delete, key_size, value_size })
    } else {
        Err(KvError::InvalidCommand)
    }
}

/// The header that belongs to a record.
pub open spec fn meta_of(r: EntryView) -> Meta {
    Meta {
        command: r.command,
        key_size: encode_utf8(r.key).len() as u64,
        value_size: value_bytes(r.value).len() as u64,
    }
}

/// Whether a record can be written: its lengths fit their eight bytes,
/// and a tombstone carries no value.
pub open spec fn storable(r: EntryView) -> bool {
    &&& encodable(r.value)
    &&& encode_utf8(r.key).len() <= u64::MAX
    &&& value_bytes(r.value).len() <= u64::MAX
    &&& (r.command is Delete ==> r.value is Null)
}

/// The number of bytes that a record takes in the log.
pub open spec fn record_size(r: EntryView) -> nat {
    20 + encode_utf8(r.key).len() + value_bytes(r.value).len()
}

/// The byte layout of a record.
pub open spec fn record_bytes(r: EntryView) -> Seq<u8> {
    meta_bytes(meta_of(r)) + encode_utf8(r.key) + value_bytes(r.value)
}

/// What the front of `b` holds: a record and the number of bytes it
/// takes, or the fault that stops the reading.
pub open spec fn parse_record(b: Seq<u8>) -> core::result::Result<(EntryView, nat), KvError> {
    if b.len() < 20 {
        Err(KvError::TruncatedRecord)
    } else {
        match parse_meta(b.subrange(0, 20)) {
            Err(e) => Err(e),
            Ok(meta) => {
                let key_end = 20 + meta.key_size;
                let end = key_end + meta.value_size;
                if b.len() < end {
                    Err(KvError::TruncatedRecord)
                } else if !valid_utf8(b.subrange(20, key_end)) {
                    Err(KvError::DecodeUtf8Error)
                } else {
                    match parse_value(b.subrange(key_end, end)) {
                        Some((value, used)) => {
                            if used != meta.value_size || (meta.command is Delete && !(value
                                is Null)) {
                                Err(KvError::InvalidValue)
                            } else {
                                Ok(
                                    (
                                        EntryView {
                                            command: meta.command,
                                            key: decode_utf8(b.subrange(20, key_end)),
                                            value,
                                        },
                                        end as nat,
                                    ),
                                )
                            }
                        },
                        None => Err(KvError::InvalidValue),
                    }
                }
            },
        }
    }
}

/// Reading back a header gives the header again.
pub proof fn lemma_meta_round_trip(meta: Meta)
    ensures
        meta_bytes(meta).len() == 20,
        parse_meta(meta_bytes(meta)) == Ok::<Meta, KvError>(meta),
{
    let b = meta_bytes(meta);
    lemma_le32_round_trip(command_tag(meta.command));
    lemma_be64_round_trip(meta.key_size);
    lemma_be64_round_trip(meta.value_size);
    assert(b.subrange(0, 4) =~= le32(command_tag(meta.command)));
    assert(b.subrange(4, 12) =~= be64(meta.key_size));
    assert(b.subrange(12, 20) =~= be64(meta.value_size));
}

/// A header is laid out as exactly the bytes it was read from.
pub proof fn lemma_parse_meta_canonical(b: Seq<u8>)
    requires
        b.len() == 20,
    ensures
        parse_meta(b) matches Ok(meta) ==> meta_bytes(meta) == b,
{
    lemma_le32_bytes_round_trip(b.subrange(0, 4));
    lemma_be64_bytes_round_trip(b.subrange(4, 12));
    lemma_be64_bytes_round_trip(b.subrange(12, 20));
    match parse_meta(b) {
        Ok(meta) => {
            assert(meta_bytes(meta) =~= b);
        },
        Err(_) => {},
    }
}

/// Parsing what was laid out gives the record back, whatever follows it.
pub proof fn lemma_record_round_trip(r: EntryView, rest: Seq<u8>)
    requires
        storable(r),
    ensures
        record_bytes(r).len() == record_size(r),
        parse_record(record_bytes(r) + rest) == Ok::<(EntryView, nat), KvError>(
            (r, record_size(r)),
        ),
{
    let meta = meta_of(r);
    let key = encode_utf8(r.key);
    let value = value_bytes(r.value);
    let b = record_bytes(r) + rest;
    lemma_meta_round_trip(meta);
    assert(b.subrange(0, 20) =~= meta_bytes(meta));
    assert(b.subrange(20, 20 + key.len() as int) =~= key);
    assert(b.subrange(20 + key.len() as int, 20 + key.len() as int + value.len() as int) =~= value);
    encode_utf8_valid_utf8(r.key);
    encode_utf8_decode_utf8(r.key);
    lemma_value_round_trip(r.value, Seq::<u8>::empty());
    assert(value + Seq::<u8>::empty() =~= value);
}

/// What was parsed is laid out as exactly the bytes that were read.
pub proof fn lemma_parse_record_canonical(b: Seq<u8>)
    ensures
        parse_record(b) matches Ok((r, used)) ==> 20 <= used <= b.len() && storable(r)
            && used == record_size(r) && record_bytes(r) == b.subrange(0, used as int)
            && parse_meta(b.subrange(0, 20)) == Ok::<Meta, KvError>(meta_of(r)),
{
    if b.len() >= 20 {
        lemma_parse_meta_canonical(b.subrange(0, 20));
        match parse_record(b) {
            Ok((r, used)) => {
                let meta = parse_meta(b.subrange(0, 20))->Ok_0;
                let key_end = 20 + meta.key_size;
                let end = key_end + meta.value_size;
                let key = b.subrange(20, key_end);
                let value = b.subrange(key_end, end);
                decode_utf8_encode_utf8(key);
                lemma_parse_value_canonical(value);
                assert(value.subrange(0, value.len() as int) =~= value);
                assert(meta_of(r) == meta);
                assert(record_bytes(r) =~= b.subrange(0, used as int));
            },
            Err(_) => {},
        }
    }
}

impl View for Entry {
    type V = EntryView;

    closed spec fn view(&self) -> EntryView {
        EntryView { command: self.meta.command, key: self.key@, value: self.value@ }
    }
}

impl Entry {
    /// The header of this entry.
    pub closed spec fn meta_view(&self) -> Meta {
        self.meta
    }

    /// Whether the header's sizes are those of the key's and the value's
    /// bytes, and a tombstone carries no value.
    pub open spec fn well_sized(&self) -> bool {
        &&& storable(self@)
        &&& self.meta_view() == meta_of(self@)
    }

    /// An `Add` record for `key` and `value`; `value_size` is the number of
    /// bytes of the value's layout.
    pub fn add(key: String, value: Value, value_size: usize) -> (entry: Entry)
        ensures
            entry@ == (EntryView { command: Command::Add, key: key@, value: value@ }),
            entry.meta_view() == (Meta {
                command: Command::Add,
                key_size: encode_utf8(key@).len() as u64,
                value_size: value_size as u64,
            }),
            encodable(value@) && value_size == value_bytes(value@).len() ==> entry.well_sized(),
    {
        let key_size = key.as_str().as_bytes().len() as u64;
        Entry {
            meta: Meta { command: Command::Add, key_size, value_size: value_size as u64 },
            key,
            value,
        }
    }

    /// A `Delete` record, a tombstone, for `key`.
    pub fn delete(key: String) -> (entry: Entry)
        ensures
            entry@ == (EntryView { command: Command::Delete, key: key@, value: ValueView::Null }),
            entry.meta_view() == (Meta {
                command: Command::Delete,
                key_size: encode_utf8(key@).len() as u64,
                value_size: 4,
            }),
            entry.well_sized(),
    {
        proof {
            lemma_le32_round_trip(0);
        }
        let key_size = key.as_str().as_bytes().len() as u64;
        Entry {
            meta: Meta { command: Command::Delete, key_size, value_size: 4 },
            key,
            value: Value::Null,
        }
    }

    /// The operation of this record.
    pub fn command(&self) -> (command: Command)
        ensures
            command == self@.command,
    {
        self.meta.command
    }

    /// The header of this record.
    pub fn meta(&self) -> (meta: Meta)
        ensures
            meta == self.meta_view(),
    {
        self.meta
    }

    /// The key of this record.
    pub fn key(&self) -> (key: &String)
        ensures
            key@ == self@.key,
    {
        &self.key
    }

    /// The value of this record.
    pub fn value(&self) -> (value: &Value)
        ensures
            value@ == self@.value,
    {
        &self.value
    }

    /// Gives up the entry for its key and value.
    pub fn into_parts(self) -> (parts: (String, Value))
        ensures
            parts.0@ == self@.key,
            parts.1@ == self@.value,
    {
        (self.key, self.value)
    }

    /// The number of bytes that the header declares for the whole record.
    pub fn size(&self) -> (size: usize)
        requires
            20 + self.meta_view().key_size + self.meta_view().value_size <= usize::MAX,
        ensures
            size == 20 + self.meta_view().key_size + self.meta_view().value_size,
    {
        ENTRY_META_SIZE + self.meta.key_size as usize + self.meta.value_size as usize
    }

    /// The bytes of this record.  Fails with `SizeMismatch` where the
    /// header's sizes are not those of the key and the value, or a tombstone
    /// carries a value.
    pub fn encode(&self) -> (r: core::result::Result<Vec<u8>, KvError>)
        ensures
            match r {
                Ok(buf) => self.well_sized() && buf@ == record_bytes(self@),
                Err(e) => !self.well_sized() && e == KvError::SizeMismatch,
            },
    {
        let key = self.key.as_str().as_bytes();
        let value = self.value.to_bytes();
        let tombstone_ok = match (self.meta.command, &self.value) {
            (Command::Delete, Value::Null) => true,
            (Command::Delete, _) => false,
            (Command::Add, _) => true,
        };
        if key.len() as u64 != self.meta.key_size || value.len() as u64 != self.meta.value_size
            || !tombstone_ok {
            return Err(KvError::SizeMismatch);
        }
        let mut buf: Vec<u8> = Vec::new();
        put_le32(
            &mut buf,
            match self.meta.command {
                Command::Add => 0,
                Command::Delete => 1,
            },
        );
        put_be64(&mut buf, self.meta.key_size);
        put_be64(&mut buf, self.meta.value_size);
        append_bytes(&mut buf, key);
        append_bytes(&mut buf, value.as_slice());
        assert(buf@ =~= record_bytes(self@));
        Ok(buf)
    }

    /// Reads a header.
    pub fn decode(buf: &[u8; ENTRY_META_SIZE]) -> (r: core::result::Result<Meta, KvError>)
        ensures
            r == parse_meta(buf@),
    {
        let bytes = vstd::array::array_as_slice(buf);
        assert(bytes@.subrange(0, 20) =~= bytes@);
        Self::decode_meta(bytes, 0)
    }

    /// Reads the header that starts at `pos`.
    pub fn decode_meta(bytes: &[u8], pos: usize) -> (r: core::result::Result<Meta, KvError>)
        requires
            pos + 20 <= bytes@.len(),
        ensures
            r == parse_meta(bytes@.subrange(pos as int, pos + 20)),
    {
        let ghost b = bytes@.subrange(pos as int, pos + 20);
        assert(b.subrange(0, 4) =~= bytes@.subrange(pos as int, pos + 4));
        assert(b.subrange(4, 12) =~= bytes@.subrange(pos + 4, pos + 12));
        assert(b.subrange(12, 20) =~= bytes@.subrange(pos + 12, pos + 20));
        let len: usize = bytes.len();
        let tag = get_le32(bytes, pos);
        let key_size = get_be64(bytes, pos + 4);
        let value_size = get_be64(bytes, pos + 12);
        if tag == 0 {
            Ok(Meta { command: Command::Add, key_size, value_size })
        } else if tag == 1 {
            Ok(Meta { command: Command::Delete, key_size, value_size })
        } else {
            Err(KvError::InvalidCommand)
        }
    }

    /// Reads the record that starts at `pos`.
    pub fn decode_at(bytes: &[u8], pos: usize) -> (r: core::result::Result<Entry, KvError>)
        requires
            pos <= bytes@.len(),
        ensures
            match parse_record(bytes@.subrange(pos as int, bytes@.len() as int)) {
                Ok((view, used)) => r matches Ok(entry) && entry@ == view && entry.well_sized()
                    && used == record_size(view) && pos + used <= bytes@.len(),
                Err(e) => r == Err::<Entry, KvError>(e),
            },
    {
        let len: usize = bytes.len();
        let ghost b = bytes@.subrange(pos as int, len as int);
        proof {
            lemma_parse_record_canonical(b);
        }
        if len - pos < 20 {
            return Err(KvError::TruncatedRecord);
        }
        assert(b.subrange(0, 20) =~= bytes@.subrange(pos as int, pos + 20));
        let meta = match Self::decode_meta(bytes, pos) {
            Ok(meta) => meta,
            Err(e) => {
                return Err(e);
            },
        };
        let room = (len - pos - 20) as u64;
        if meta.key_size > room || meta.value_size > room - meta.key_size {
            return Err(KvError::TruncatedRecord);
        }
        let key_start = pos + 20;
        let key_end = key_start + meta.key_size as usize;
        let end = key_end + meta.value_size as usize;
        assert(b.subrange(20, 20 + meta.key_size) =~= bytes@.subrange(
            key_start as int,
            key_end as int,
        ));
        let ghost value_part = b.subrange(20 + meta.key_size, 20 + meta.key_size + meta.value_size);
        assert(value_part =~= bytes@.subrange(key_end as int, end as int));
        let key = match string_from_utf8(copy_range(bytes, key_start, key_end)) {
            Some(key) => key,
            None => {
                return Err(KvError::DecodeUtf8Error);
            },
        };
        let value_bytes = copy_range(bytes, key_end, end);
        assert(value_bytes@.subrange(0, value_bytes@.len() as int) =~= value_bytes@);
        proof {
            lemma_parse_value_bounds(value_part);
        }
        let value = match Value::decode_at(value_bytes.as_slice(), 0) {
            Some((value, used)) => {
                if used != value_bytes.len() {
                    return Err(KvError::InvalidValue);
                }
                value
            },
            None => {
                return Err(KvError::InvalidValue);
            },
        };
        match (meta.command, &value) {
            (Command::Delete, Value::Null) => {},
            (Command::Delete, _) => {
                return Err(KvError::InvalidValue);
            },
            (Command::Add, _) => {},
        }
        Ok(Entry { meta, key, value })
    }
}

} // verus!
