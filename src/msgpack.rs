//! The MessagePack framing of the payloads handed to the store's scripts.
use crate::error::EncoderError;
use vstd::prelude::*;
use vstd::string::*;
use vstd::utf8::*;

verus! {

/// Two bytes, most significant first.
pub open spec fn be16(n: nat) -> Seq<u8> {
    seq![(n / 256) as u8, (n % 256) as u8]
}

/// Four bytes, most significant first.
pub open spec fn be32(n: nat) -> Seq<u8> {
    seq![(n / 16777216) as u8, ((n / 65536) % 256) as u8, ((n / 256) % 256) as u8, (n % 256) as u8]
}

/// The marker of a str of `n` bytes.
pub open spec fn str_header(n: nat) -> Seq<u8> {
    if n < 32 {
        seq![(0xa0 + n) as u8]
    } else if n < 256 {
        seq![0xd9u8, n as u8]
    } else if n < 65536 {
        seq![0xdau8] + be16(n)
    } else {
        seq![0xdbu8] + be32(n)
    }
}

/// The marker of an array of `n` items.
pub open spec fn array_header(n: nat) -> Seq<u8> {
    if n < 16 {
        seq![(0x90 + n) as u8]
    } else if n < 65536 {
        seq![0xdcu8] + be16(n)
    } else {
        seq![0xddu8] + be32(n)
    }
}

/// The marker of a map of `n` entries.
pub open spec fn map_header(n: nat) -> Seq<u8> {
    if n < 16 {
        seq![(0x80 + n) as u8]
    } else if n < 65536 {
        seq![0xdeu8] + be16(n)
    } else {
        seq![0xdfu8] + be32(n)
    }
}

/// A text as a MessagePack str.
pub open spec fn msgpack_str(s: Seq<char>) -> Seq<u8> {
    str_header(encode_utf8(s).len()) + encode_utf8(s)
}

/// A text whose UTF-8 length the str framing can hold.
pub open spec fn fits(s: Seq<char>) -> bool {
    encode_utf8(s).len() <= u32::MAX
}

/// Relies on `rmp::encode::write_str`: it appends the str marker for the
/// text's UTF-8 length (fixstr, str8, str16 or str32, the length big-endian)
/// and then the UTF-8 bytes. Writing into a `Vec` cannot fail.
#[verifier::external_body]
fn rmp_write_str(buf: &mut Vec<u8>, s: &str)
    requires
        fits(s@),
    ensures
        final(buf)@ == old(buf)@ + msgpack_str(s@),
{
    let _ = rmp::encode::write_str(buf, s);
}

/// Relies on `rmp::encode::write_array_len`: it appends the array marker
/// for `len` items (fixarray, array16 or array32, the length big-endian).
#[verifier::external_body]
fn rmp_write_array_len(buf: &mut Vec<u8>, len: u32)
    ensures
        final(buf)@ == old(buf)@ + array_header(len as nat),
{
    let _ = rmp::encode::write_array_len(buf, len);
}

/// Relies on `rmp::encode::write_map_len`: it appends the map marker for
/// `len` entries (fixmap, map16 or map32, the length big-endian).
#[verifier::external_body]
fn rmp_write_map_len(buf: &mut Vec<u8>, len: u32)
    ensures
        final(buf)@ == old(buf)@ + map_header(len as nat),
{
    let _ = rmp::encode::write_map_len(buf, len);
}

/// Appends `s` as a str; `TooLong(owner)` when its UTF-8 form exceeds the
/// framing, leaving `buf` as it was.
pub fn write_str(buf: &mut Vec<u8>, s: &str, owner: &str) -> (r: Result<(), EncoderError>)
    ensures
        r is Ok <==> fits(s@),
        r is Ok ==> final(buf)@ == old(buf)@ + msgpack_str(s@),
        r matches Err(e) ==> e.is_too_long(owner@),
{
    let bytes = s.as_bytes();
    if bytes.len() > 4294967295 {
        return Err(EncoderError::TooLong(String::from_str(owner)));
    }
    rmp_write_str(buf, s);
    Ok(())
}

/// Appends the marker of an array of `len` items.
pub fn write_array_len(buf: &mut Vec<u8>, len: u32)
    ensures
        final(buf)@ == old(buf)@ + array_header(len as nat),
{
    rmp_write_array_len(buf, len);
}

/// Appends the marker of a map of `len` entries.
pub fn write_map_len(buf: &mut Vec<u8>, len: u32)
    ensures
        final(buf)@ == old(buf)@ + map_header(len as nat),
{
    rmp_write_map_len(buf, len);
}

} // verus!
