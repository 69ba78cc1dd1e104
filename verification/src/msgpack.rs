//! MessagePack encoding, as far as the report on a map needs it. The bytes
//! are made by `rmp`; this module states which bytes those are.

use rmp::encode::ByteBuf;
use rmp::encode::ValueWriteError;
use vstd::prelude::*;
use vstd::utf8::encode_utf8;

verus! {

/// `rmp::encode::ByteBuf`: an output buffer that grows as bytes are written
/// to it. What it holds is known through `written` only.
#[verifier::external_type_specification]
#[verifier::external_body]
pub struct ExByteBuf(ByteBuf);

/// The bytes that an output buffer holds.
pub uninterp spec fn written(buf: ByteBuf) -> Seq<u8>;

/// The `width` low bytes of `value`, most significant first.
pub open spec fn be_bytes(value: nat, width: nat) -> Seq<u8>
    decreases width,
{
    if width == 0 {
        Seq::empty()
    } else {
        be_bytes(value / 256, (width - 1) as nat).push((value % 256) as u8)
    }
}

/// An unsigned integer in the shortest of its five forms.
pub open spec fn uint_encoding(value: u64) -> Seq<u8> {
    if value < 0x80 {
        seq![value as u8]
    } else if value < 0x100 {
        seq![0xccu8] + be_bytes(value as nat, 1)
    } else if value < 0x1_0000 {
        seq![0xcdu8] + be_bytes(value as nat, 2)
    } else if value < 0x1_0000_0000 {
        seq![0xceu8] + be_bytes(value as nat, 4)
    } else {
        seq![0xcfu8] + be_bytes(value as nat, 8)
    }
}

/// The header of a map with `len` entries.
pub open spec fn map_len_encoding(len: u32) -> Seq<u8> {
    if len < 0x10 {
        seq![(0x80 + len) as u8]
    } else if len < 0x1_0000 {
        seq![0xdeu8] + be_bytes(len as nat, 2)
    } else {
        seq![0xdfu8] + be_bytes(len as nat, 4)
    }
}

/// The header of a string of `len` bytes.
pub open spec fn str_len_encoding(len: u32) -> Seq<u8> {
    if len < 0x20 {
        seq![(0xa0 + len) as u8]
    } else if len < 0x100 {
        seq![0xd9u8] + be_bytes(len as nat, 1)
    } else if len < 0x1_0000 {
        seq![0xdau8] + be_bytes(len as nat, 2)
    } else {
        seq![0xdbu8] + be_bytes(len as nat, 4)
    }
}

/// A string: the header with its length in bytes, then its UTF-8 bytes.
pub open spec fn str_encoding(text: Seq<char>) -> Seq<u8> {
    str_len_encoding(encode_utf8(text).len() as u32) + encode_utf8(text)
}

/// A boolean.
pub open spec fn bool_encoding(value: bool) -> Seq<u8> {
    if value {
        seq![0xc3u8]
    } else {
        seq![0xc2u8]
    }
}

/// `ByteBuf::new`: an output buffer that holds no bytes.
#[verifier::external_body]
pub(crate) fn buffer_new() -> (buf: ByteBuf)
    ensures
        written(buf).len() == 0,
{
    ByteBuf::new()
}

/// `ByteBuf::into_vec`: the bytes that the buffer holds.
#[verifier::external_body]
pub(crate) fn buffer_into_vec(buf: ByteBuf) -> (bytes: Vec<u8>)
    ensures
        bytes@ == written(buf),
{
    buf.into_vec()
}

/// `rmp::encode::write_uint`: appends the shortest encoding of `value`. A
/// `ByteBuf` takes every write, so the call cannot fail.
#[verifier::external_body]
pub(crate) fn write_uint(buf: &mut ByteBuf, value: u64)
    ensures
        written(*final(buf)) == written(*old(buf)) + uint_encoding(value),
{
    match rmp::encode::write_uint(buf, value) {
        Ok(_) => {},
        Err(ValueWriteError::InvalidMarkerWrite(never)) => match never {},
        Err(ValueWriteError::InvalidDataWrite(never)) => match never {},
    }
}

/// `rmp::encode::write_map_len`: appends the header of a map with `len`
/// entries. A `ByteBuf` takes every write, so the call cannot fail.
#[verifier::external_body]
pub(crate) fn write_map_len(buf: &mut ByteBuf, len: u32)
    ensures
        written(*final(buf)) == written(*old(buf)) + map_len_encoding(len),
{
    match rmp::encode::write_map_len(buf, len) {
        Ok(_) => {},
        Err(ValueWriteError::InvalidMarkerWrite(never)) => match never {},
        Err(ValueWriteError::InvalidDataWrite(never)) => match never {},
    }
}

/// `rmp::encode::write_str`: appends the header with the length of `text`
/// in bytes, then the bytes of `text`. The length must fit 32 bits, or the
/// header would hold a truncated one. A `ByteBuf` takes every write, so the
/// call cannot fail.
#[verifier::external_body]
pub(crate) fn write_str(buf: &mut ByteBuf, text: &str)
    requires
        encode_utf8(text@).len() <= u32::MAX,
    ensures
        written(*final(buf)) == written(*old(buf)) + str_encoding(text@),
{
    match rmp::encode::write_str(buf, text) {
        Ok(()) => {},
        Err(ValueWriteError::InvalidMarkerWrite(never)) => match never {},
        Err(ValueWriteError::InvalidDataWrite(never)) => match never {},
    }
}

/// `rmp::encode::write_bool`: appends the one byte that stands for `value`.
/// A `ByteBuf` takes every write, so the call cannot fail.
#[verifier::external_body]
pub(crate) fn write_bool(buf: &mut ByteBuf, value: bool)
    ensures
        written(*final(buf)) == written(*old(buf)) + bool_encoding(value),
{
    match rmp::encode::write_bool(buf, value) {
        Ok(()) => {},
        Err(never) => match never {},
    }
}

} // verus!
