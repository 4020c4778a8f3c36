//! The binary glTF container: a 12-byte header, then a JSON chunk and a
//! binary chunk, each with its length and type and padded to four bytes.

use vstd::prelude::*;

use crate::gltf::padding;
use crate::le::u32_le;

verus! {

/// `"glTF"`, read as a little-endian `u32`.
pub const GLB_MAGIC: u32 = 0x4654_6c67;

/// `"JSON"`, read as a little-endian `u32`.
pub const JSON_CHUNK: u32 = 0x4e4f_534a;

/// `"BIN\0"`, read as a little-endian `u32`.
pub const BIN_CHUNK: u32 = 0x004e_4942;

/// `n` rounded up to a multiple of four.
pub open spec fn padded4(n: int) -> int {
    n + padding(n, 4)
}

/// The length of the whole container: the header, and each chunk with its
/// own header, padded.
pub open spec fn glb_length(json_len: int, bin_len: int) -> int {
    12 + 8 + padded4(json_len) + 8 + padded4(bin_len)
}

/// The bytes of the container.
pub open spec fn glb_le(json: Seq<u8>, bin: Seq<u8>) -> Seq<u8> {
    u32_le(GLB_MAGIC) + u32_le(2) + u32_le(glb_length(json.len() as int, bin.len() as int) as u32)
        + u32_le(padded4(json.len() as int) as u32) + u32_le(JSON_CHUNK) + json + Seq::new(
        padding(json.len() as int, 4) as nat,
        |i: int| 0x20u8,
    ) + u32_le(padded4(bin.len() as int) as u32) + u32_le(BIN_CHUNK) + bin + Seq::new(
        padding(bin.len() as int, 4) as nat,
        |i: int| 0u8,
    )
}

/// The length of the container of a JSON text and a binary buffer.
pub fn calculate_length(json_len: usize, bin_len: usize) -> (r: u64)
    requires
        json_len <= u32::MAX,
        bin_len <= u32::MAX,
    ensures
        r == glb_length(json_len as int, bin_len as int),
{
    let json = json_len as u64;
    let bin = bin_len as u64;
    let total: u64 = 28 + json + (4 - json % 4) % 4 + bin + (4 - bin % 4) % 4;
    assert(total == glb_length(json_len as int, bin_len as int));
    total
}

/// Relies on `gltf::Glb::to_vec`: the magic and version 2, the total length
/// it computes as [`glb_length`] does (the header's own length is not read),
/// then the JSON chunk padded with spaces and the binary chunk padded with
/// zeros, each after its padded length and its type. It writes into a `Vec`,
/// whose writes never fail, so it always succeeds.
#[verifier::external_body]
fn glb_to_vec(json: Vec<u8>, bin: Vec<u8>, length: u32) -> (r: Option<Vec<u8>>)
    requires
        glb_length(json@.len() as int, bin@.len() as int) <= u32::MAX,
    ensures
        r is Some,
        r matches Some(b) ==> b@ == glb_le(json@, bin@),
{
    let header = gltf::binary::Header { magic: *b"glTF", version: 2, length };
    let glb = gltf::Glb {
        header,
        json: std::borrow::Cow::Owned(json),
        bin: Some(std::borrow::Cow::Owned(bin)),
    };
    glb.to_vec().ok()
}

/// Wraps a JSON text and a binary buffer into a container, whose length must
/// fit its header's 32-bit field.
pub fn glb_container(json: Vec<u8>, bin: Vec<u8>) -> (r: Vec<u8>)
    requires
        glb_length(json@.len() as int, bin@.len() as int) <= u32::MAX,
    ensures
        r@ == glb_le(json@, bin@),
        r@.len() == glb_length(json@.len() as int, bin@.len() as int),
{
    let ghost (j, b) = (json@, bin@);
    let length = calculate_length(json.len(), bin.len());
    match glb_to_vec(json, bin, length as u32) {
        Some(bytes) => {
            proof {
                assert(0 <= padding(j.len() as int, 4) < 4);
                assert(0 <= padding(b.len() as int, 4) < 4);
            }
            bytes
        },
        None => Vec::new(),
    }
}

} // verus!
