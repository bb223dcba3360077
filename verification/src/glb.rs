//! glTF 2.0 binary (glb) framing and BIN-chunk packing.
//!
//! File layout:
//! `[12 B header][8 B JSON chunk header][JSON][8 B BIN chunk header][BIN]`.

use vstd::prelude::*;
use byteorder::{LittleEndian, WriteBytesExt};
use crate::mesh::FeatureProps;
use vstd::utf8::encode_utf8;

verus! {

/// `glTF` in little-endian ASCII.
pub const GLTF_MAGIC: u32 = 0x4654_6C67;
/// Container version written into the header.
pub const VERSION: u32 = 2;
/// Chunk type of the JSON chunk (`JSON`).
pub const JSON_TYPE: u32 = 0x4E4F_534A;
/// Chunk type of the binary chunk (`BIN\0`).
pub const BIN_TYPE: u32 = 0x004E_4942;

/// Little-endian bytes of a `u32`.
pub open spec fn le32(v: u32) -> Seq<u8> {
    seq![(v & 0xff) as u8, ((v >> 8u32) & 0xff) as u8, ((v >> 16u32) & 0xff) as u8, ((v >> 24u32) & 0xff) as u8]
}

/// Little-endian bytes of a `u16`.
pub open spec fn le16(v: u16) -> Seq<u8> {
    seq![(v & 0xff) as u8, ((v >> 8u16) & 0xff) as u8]
}

/// Little-endian bytes of a `u64`.
pub open spec fn le64(v: u64) -> Seq<u8> {
    seq![
        (v & 0xff) as u8, ((v >> 8u64) & 0xff) as u8, ((v >> 16u64) & 0xff) as u8,
        ((v >> 24u64) & 0xff) as u8, ((v >> 32u64) & 0xff) as u8, ((v >> 40u64) & 0xff) as u8,
        ((v >> 48u64) & 0xff) as u8, ((v >> 56u64) & 0xff) as u8,
    ]
}

/// The little-endian `u32` stored at byte offset `o` of `s`.
pub open spec fn u32_at(s: Seq<u8>, o: int) -> int {
    s[o] as int + s[o + 1] as int * 256 + s[o + 2] as int * 65536 + s[o + 3] as int * 16777216
}

pub proof fn lemma_le32_roundtrip(v: u32)
    ensures
        u32_at(le32(v), 0) == v,
{
    let b0 = v & 0xff;
    let b1 = (v >> 8u32) & 0xff;
    let b2 = (v >> 16u32) & 0xff;
    let b3 = (v >> 24u32) & 0xff;
    assert(b0 < 256 && b1 < 256 && b2 < 256 && b3 < 256) by (bit_vector)
        requires b0 == v & 0xff, b1 == (v >> 8u32) & 0xff, b2 == (v >> 16u32) & 0xff, b3 == (v >> 24u32) & 0xff;
    assert(b0 + b1 * 256 + b2 * 65536 + b3 * 16777216 == v) by (bit_vector)
        requires b0 == v & 0xff, b1 == (v >> 8u32) & 0xff, b2 == (v >> 16u32) & 0xff, b3 == (v >> 24u32) & 0xff;
}

/// Appends `v` in little-endian order through `byteorder`'s
/// `WriteBytesExt::write_u32::<LittleEndian>`; the crate documents the
/// four little-endian bytes as exactly what is written, and writing into a
/// `Vec<u8>` cannot fail.
#[verifier::external_body]
fn push_u32_le(out: &mut Vec<u8>, v: u32)
    ensures
        final(out)@ == old(out)@ + le32(v),
{
    out.write_u32::<LittleEndian>(v).unwrap();
}

/// Appends `v` in little-endian order through `byteorder`'s
/// `WriteBytesExt::write_u16::<LittleEndian>` (two bytes, low byte first).
#[verifier::external_body]
fn push_u16_le(out: &mut Vec<u8>, v: u16)
    ensures
        final(out)@ == old(out)@ + le16(v),
{
    out.write_u16::<LittleEndian>(v).unwrap();
}

/// Appends `v` in little-endian order through `byteorder`'s
/// `WriteBytesExt::write_u64::<LittleEndian>` (eight bytes, low byte first).
#[verifier::external_body]
fn push_u64_le(out: &mut Vec<u8>, v: u64)
    ensures
        final(out)@ == old(out)@ + le64(v),
{
    out.write_u64::<LittleEndian>(v).unwrap();
}

/// Number of filler bytes that bring `n` up to a multiple of `align`.
pub open spec fn pad_len(n: int, align: int) -> int {
    if n % align == 0 { 0 } else { align - n % align }
}

/// `s` followed by `filler` until its length is a multiple of `align`.
pub open spec fn padded_with(s: Seq<u8>, align: int, filler: u8) -> Seq<u8> {
    s + Seq::new(pad_len(s.len() as int, align) as nat, |i: int| filler)
}

/// Append zero bytes until `buf.len()` is a multiple of `align`.
pub fn pad_to(buf: &mut Vec<u8>, align: usize)
    requires
        align > 0,
        old(buf)@.len() + align <= usize::MAX,
    ensures
        final(buf)@ == padded_with(old(buf)@, align as int, 0u8),
        final(buf)@.len() % (align as nat) == 0,
{
    let ghost start = buf@;
    let r = buf.len() % align;
    let n: usize = if r == 0 { 0 } else { align - r };
    assert(n as int == pad_len(start.len() as int, align as int));
    for i in 0..n
        invariant
            buf@ =~= start + Seq::new(i as nat, |j: int| 0u8),
    {
        buf.push(0u8);
    }
    assert(buf@ =~= padded_with(start, align as int, 0u8));
    proof { lemma_pad_len_aligns(start.len() as int, align as int); }
}

pub proof fn lemma_pad_len_aligns(n: int, align: int)
    requires
        n >= 0,
        align > 0,
    ensures
        0 <= pad_len(n, align) < align,
        (n + pad_len(n, align)) % align == 0,
{
    let r = n % align;
    assert(0 <= r < align) by (nonlinear_arith) requires align > 0, r == n % align;
    if r != 0 {
        assert((n + (align - r)) % align == 0) by (nonlinear_arith)
            requires align > 0, r == n % align, 0 < r < align;
    }
}

/// Bytes reserved at the front of the BIN buffer for the glb header and the
/// JSON chunk, so that large files are finished in place.
pub const PREFIX_GAP: usize = 8192;

/// Payload size from which filling the reserved gap beats copying the file.
pub const GAP_MIN_PAYLOAD: usize = 1048576;

/// JSON chunk length used when the reserved gap is filled in place:
/// the gap minus the 12-byte file header and the two 8-byte chunk headers.
pub const GAP_JSON_LEN: usize = 8164;

/// A complete glb file holding `json` as its JSON chunk and `bin` as its BIN
/// chunk. Lengths are written as `u32`, as the container format stores them.
pub open spec fn glb_file(json: Seq<u8>, bin: Seq<u8>) -> Seq<u8> {
    let total = 28 + json.len() + bin.len();
    glb_head(total as u32, json.len() as u32) + json + le32(bin.len() as u32) + le32(BIN_TYPE) + bin
}

/// A glb file with only the header and a JSON chunk.
pub open spec fn glb_json_only_file(json: Seq<u8>) -> Seq<u8> {
    let total = 20 + json.len();
    glb_head(total as u32, json.len() as u32) + json
}

/// Split a glb file into its JSON chunk and BIN chunk, checking the framing:
/// magic, version, total length equal to the file length, a 4-aligned JSON
/// chunk, the chunk types, and a BIN chunk that ends exactly at the end of
/// the file.
pub open spec fn glb_chunks(s: Seq<u8>) -> Option<(Seq<u8>, Seq<u8>)> {
    if s.len() >= 28 && u32_at(s, 0) == GLTF_MAGIC && u32_at(s, 4) == VERSION && u32_at(s, 8)
        == s.len() && u32_at(s, 16) == JSON_TYPE {
        let jl = u32_at(s, 12);
        if jl % 4 == 0 && 28 + jl <= s.len() && u32_at(s, 24 + jl) == BIN_TYPE && 28 + jl + u32_at(
            s,
            20 + jl,
        ) == s.len() {
            Some((s.subrange(20, 20 + jl), s.subrange(28 + jl, s.len() as int)))
        } else {
            None
        }
    } else {
        None
    }
}

proof fn lemma_u32_at_prefix(x: Seq<u8>, y: Seq<u8>, o: int)
    requires
        0 <= o,
        o + 4 <= x.len(),
    ensures
        u32_at(x + y, o) == u32_at(x, o),
{
    assert((x + y)[o] == x[o]);
    assert((x + y)[o + 1] == x[o + 1]);
    assert((x + y)[o + 2] == x[o + 2]);
    assert((x + y)[o + 3] == x[o + 3]);
}

proof fn lemma_u32_at_suffix(x: Seq<u8>, y: Seq<u8>, o: int)
    requires
        0 <= o,
        o + 4 <= y.len(),
    ensures
        u32_at(x + y, x.len() + o) == u32_at(y, o),
{
    assert((x + y)[x.len() + o] == y[o]);
    assert((x + y)[x.len() + o + 1] == y[o + 1]);
    assert((x + y)[x.len() + o + 2] == y[o + 2]);
    assert((x + y)[x.len() + o + 3] == y[o + 3]);
}

/// The 20-byte glb file header followed by the JSON chunk header.
pub open spec fn glb_head(total: u32, json_len: u32) -> Seq<u8> {
    le32(GLTF_MAGIC) + le32(VERSION) + le32(total) + le32(json_len) + le32(JSON_TYPE)
}

proof fn lemma_glb_head_fields(total: u32, jl: u32)
    ensures
        glb_head(total, jl).len() == 20,
        u32_at(glb_head(total, jl), 0) == GLTF_MAGIC,
        u32_at(glb_head(total, jl), 4) == VERSION,
        u32_at(glb_head(total, jl), 8) == total,
        u32_at(glb_head(total, jl), 12) == jl,
        u32_at(glb_head(total, jl), 16) == JSON_TYPE,
{
    let h0 = le32(GLTF_MAGIC);
    let h1 = le32(VERSION);
    let h2 = le32(total);
    let h3 = le32(jl);
    let h4 = le32(JSON_TYPE);
    lemma_le32_roundtrip(GLTF_MAGIC);
    lemma_le32_roundtrip(VERSION);
    lemma_le32_roundtrip(total);
    lemma_le32_roundtrip(jl);
    lemma_le32_roundtrip(JSON_TYPE);
    lemma_u32_at_prefix(h0, h1, 0);
    lemma_u32_at_suffix(h0, h1, 0);
    lemma_u32_at_prefix(h0 + h1, h2, 0);
    lemma_u32_at_prefix(h0 + h1, h2, 4);
    lemma_u32_at_suffix(h0 + h1, h2, 0);
    lemma_u32_at_prefix(h0 + h1 + h2, h3, 0);
    lemma_u32_at_prefix(h0 + h1 + h2, h3, 4);
    lemma_u32_at_prefix(h0 + h1 + h2, h3, 8);
    lemma_u32_at_suffix(h0 + h1 + h2, h3, 0);
    lemma_u32_at_prefix(h0 + h1 + h2 + h3, h4, 0);
    lemma_u32_at_prefix(h0 + h1 + h2 + h3, h4, 4);
    lemma_u32_at_prefix(h0 + h1 + h2 + h3, h4, 8);
    lemma_u32_at_prefix(h0 + h1 + h2 + h3, h4, 12);
    lemma_u32_at_suffix(h0 + h1 + h2 + h3, h4, 0);
}

/// A glb file built by [`glb_file`] splits back into the chunks it was built
/// from, whenever its JSON chunk is 4-aligned and the file fits the `u32`
/// length fields.
pub proof fn lemma_glb_file_chunks(json: Seq<u8>, bin: Seq<u8>)
    requires
        json.len() % 4 == 0,
        28 + json.len() + bin.len() <= u32::MAX,
    ensures
        glb_chunks(glb_file(json, bin)) == Some((json, bin)),
{
    let total = (28 + json.len() + bin.len()) as u32;
    let jl = json.len() as u32;
    let bl = bin.len() as u32;
    let head = glb_head(total, jl);
    let h5 = le32(bl);
    let h6 = le32(BIN_TYPE);
    let s = glb_file(json, bin);
    lemma_glb_head_fields(total, jl);
    lemma_le32_roundtrip(bl);
    lemma_le32_roundtrip(BIN_TYPE);
    let a = head + json;
    assert(s == a + h5 + h6 + bin);
    // header fields
    assert forall|o: int| 0 <= o <= 16 && o % 4 == 0 implies u32_at(s, o) == u32_at(head, o) by {
        lemma_u32_at_prefix(head, json, o);
        lemma_u32_at_prefix(a, h5, o);
        lemma_u32_at_prefix(a + h5, h6, o);
        lemma_u32_at_prefix(a + h5 + h6, bin, o);
    }
    assert(u32_at(s, 0) == GLTF_MAGIC);
    assert(u32_at(s, 4) == VERSION);
    assert(u32_at(s, 8) == total);
    assert(u32_at(s, 12) == jl);
    assert(u32_at(s, 16) == JSON_TYPE);
    // BIN chunk header
    lemma_u32_at_suffix(a, h5, 0);
    lemma_u32_at_prefix(a + h5, h6, a.len() as int);
    lemma_u32_at_prefix(a + h5 + h6, bin, a.len() as int);
    assert(u32_at(s, 20 + jl) == bl);
    lemma_u32_at_suffix(a + h5, h6, 0);
    lemma_u32_at_prefix(a + h5 + h6, bin, a.len() as int + 4);
    assert(u32_at(s, 24 + jl) == BIN_TYPE);
    assert(s.len() == total);
    assert(s.subrange(20, 20 + json.len() as int) =~= json);
    assert(s.subrange(28 + json.len() as int, s.len() as int) =~= bin);
}

/// Build the finished file in a second buffer: JSON padded with spaces to a
/// multiple of four, followed by the BIN chunk holding `bin`.
pub fn assemble_copied(bin: &[u8], json_bytes: Vec<u8>) -> (out: Vec<u8>)
    requires
        json_bytes@.len() + bin@.len() + 31 <= usize::MAX,
    ensures
        out@ == glb_file(padded_with(json_bytes@, 4, 0x20u8), bin@),
{
    let mut json_bytes = json_bytes;
    let ghost json_in = json_bytes@;
    pad_with_spaces(&mut json_bytes);
    let total_len = 12 + 8 + json_bytes.len() + 8 + bin.len();
    let mut out: Vec<u8> = Vec::with_capacity(total_len);
    push_u32_le(&mut out, GLTF_MAGIC);
    push_u32_le(&mut out, VERSION);
    push_u32_le(&mut out, total_len as u32);
    push_u32_le(&mut out, json_bytes.len() as u32);
    push_u32_le(&mut out, JSON_TYPE);
    out.extend_from_slice(json_bytes.as_slice());
    push_u32_le(&mut out, bin.len() as u32);
    push_u32_le(&mut out, BIN_TYPE);
    let ghost before_bin = out@;
    out.extend_from_slice(bin);
    assert(out@ =~= before_bin + bin@);
    assert(out@ =~= glb_file(padded_with(json_in, 4, 0x20u8), bin@));
    out
}

/// Pad `buf` with ASCII spaces to a multiple of four bytes (JSON chunks are
/// space-padded).
fn pad_with_spaces(buf: &mut Vec<u8>)
    requires
        old(buf)@.len() + 4 <= usize::MAX,
    ensures
        final(buf)@ == padded_with(old(buf)@, 4, 0x20u8),
        final(buf)@.len() % 4 == 0,
{
    let ghost start = buf@;
    let r = buf.len() % 4;
    let n: usize = if r == 0 { 0 } else { 4 - r };
    assert(n as int == pad_len(start.len() as int, 4));
    for i in 0..n
        invariant
            buf@ =~= start + Seq::new(i as nat, |j: int| 0x20u8),
    {
        buf.push(0x20u8);
    }
    assert(buf@ =~= padded_with(start, 4, 0x20u8));
    proof { lemma_pad_len_aligns(start.len() as int, 4); }
}

/// `json` padded with spaces to the fixed in-place JSON chunk length.
pub open spec fn gap_json(json: Seq<u8>) -> Seq<u8> {
    json + Seq::new((GAP_JSON_LEN - json.len()) as nat, |i: int| 0x20u8)
}

/// The file [`assemble`] produces from a BIN buffer (reserved gap included)
/// and the JSON bytes.
pub open spec fn assembled(bin: Seq<u8>, json: Seq<u8>) -> Seq<u8> {
    let payload = bin.subrange(PREFIX_GAP as int, bin.len() as int);
    if json.len() > GAP_JSON_LEN || payload.len() < GAP_MIN_PAYLOAD {
        glb_file(padded_with(json, 4, 0x20u8), payload)
    } else {
        glb_file(gap_json(json), payload)
    }
}

/// Finish a glb from `bin`, whose first [`PREFIX_GAP`] bytes are reserved:
/// large payloads get the header and a space-padded JSON chunk written into
/// the gap in place; small payloads (or JSON that outgrew the gap) are
/// copied into a fresh buffer by [`assemble_copied`].
pub fn assemble(bin: Vec<u8>, json_bytes: Vec<u8>) -> (out: Vec<u8>)
    requires
        bin@.len() >= PREFIX_GAP,
        json_bytes@.len() + bin@.len() + 31 <= usize::MAX,
    ensures
        out@ == assembled(bin@, json_bytes@),
{
    let mut bin = bin;
    let mut json_bytes = json_bytes;
    let bin_len = bin.len() - PREFIX_GAP;
    let json_len = PREFIX_GAP - (12 + 8 + 8);
    if json_bytes.len() > json_len || bin_len < GAP_MIN_PAYLOAD {
        let payload = vstd::slice::slice_subrange(bin.as_slice(), PREFIX_GAP, bin.len());
        return assemble_copied(payload, json_bytes);
    }
    let ghost json0 = json_bytes@;
    json_bytes.resize(json_len, 0x20u8);
    assert(json_bytes@ =~= gap_json(json0)) by {
        assert forall|i: int| 0 <= i < json_bytes@.len() implies json_bytes@[i] == gap_json(json0)[i] by {
            if i >= json0.len() {
                assert(cloned::<u8>(0x20u8, json_bytes@[i]));
            }
        }
    }
    let total_len = PREFIX_GAP + bin_len;
    let mut head: Vec<u8> = Vec::with_capacity(PREFIX_GAP);
    push_u32_le(&mut head, GLTF_MAGIC);
    push_u32_le(&mut head, VERSION);
    push_u32_le(&mut head, total_len as u32);
    push_u32_le(&mut head, json_len as u32);
    push_u32_le(&mut head, JSON_TYPE);
    head.extend_from_slice(json_bytes.as_slice());
    push_u32_le(&mut head, bin_len as u32);
    push_u32_le(&mut head, BIN_TYPE);
    assert(head@.len() == PREFIX_GAP);
    let ghost bin0 = bin@;
    for i in 0..PREFIX_GAP
        invariant
            head@.len() == PREFIX_GAP,
            bin@.len() == bin0.len(),
            bin0.len() >= PREFIX_GAP,
            forall|k: int| 0 <= k < i ==> bin@[k] == head@[k],
            forall|k: int| PREFIX_GAP <= k < bin0.len() ==> bin@[k] == bin0[k],
    {
        bin.set(i, head[i]);
    }
    let ghost payload = bin0.subrange(PREFIX_GAP as int, bin0.len() as int);
    assert(bin@ =~= head@ + payload);
    assert(bin@ =~= glb_file(gap_json(json0), payload));
    bin
}

/// Frame a JSON-only glb (no BIN chunk): the JSON is padded with spaces to a
/// multiple of four and preceded by the 20-byte header.
pub fn frame_json_only_glb(json_bytes: Vec<u8>) -> (out: Vec<u8>)
    requires
        json_bytes@.len() + 24 <= usize::MAX,
    ensures
        out@ == glb_json_only_file(padded_with(json_bytes@, 4, 0x20u8)),
{
    let mut json_bytes = json_bytes;
    let ghost json_in = json_bytes@;
    pad_with_spaces(&mut json_bytes);
    let total_len = 12 + 8 + json_bytes.len();
    let mut out: Vec<u8> = Vec::with_capacity(total_len);
    push_u32_le(&mut out, GLTF_MAGIC);
    push_u32_le(&mut out, VERSION);
    push_u32_le(&mut out, total_len as u32);
    push_u32_le(&mut out, json_bytes.len() as u32);
    push_u32_le(&mut out, JSON_TYPE);
    let ghost before = out@;
    out.extend_from_slice(json_bytes.as_slice());
    assert(out@ =~= before + json_bytes@);
    assert(out@ =~= glb_json_only_file(padded_with(json_in, 4, 0x20u8)));
    out
}

/// Both ways of finishing a glb — in place in the reserved gap, or copied
/// into a fresh buffer — produce a well-framed file: its BIN chunk is exactly
/// the payload after the gap, and its JSON chunk is the given JSON followed
/// only by spaces, 4-aligned.
pub proof fn law_assembled_glb_frames(bin: Seq<u8>, json: Seq<u8>)
    requires
        bin.len() >= PREFIX_GAP,
        json.len() + bin.len() + 32 <= u32::MAX,
    ensures
        ({
            let payload = bin.subrange(PREFIX_GAP as int, bin.len() as int);
            match glb_chunks(assembled(bin, json)) {
                Some((j, p)) => {
                    &&& p == payload
                    &&& j.len() % 4 == 0
                    &&& j.len() >= json.len()
                    &&& j.subrange(0, json.len() as int) == json
                    &&& forall|k: int| json.len() <= k < j.len() ==> j[k] == 0x20u8
                },
                None => false,
            }
        }),
{
    let payload = bin.subrange(PREFIX_GAP as int, bin.len() as int);
    if json.len() > GAP_JSON_LEN || payload.len() < GAP_MIN_PAYLOAD {
        let j = padded_with(json, 4, 0x20u8);
        lemma_pad_len_aligns(json.len() as int, 4);
        lemma_glb_file_chunks(j, payload);
        assert(j.subrange(0, json.len() as int) =~= json);
    } else {
        let j = gap_json(json);
        assert(GAP_JSON_LEN % 4 == 0);
        lemma_glb_file_chunks(j, payload);
        assert(j.subrange(0, json.len() as int) =~= json);
    }
}

// ---------------- BIN chunk packing ----------------

/// Index of the buffer that holds the actual (compressed) bytes.
pub const BUFFER_REAL: usize = 0;
/// Index of the byte-less buffer that declares the decompressed sizes.
pub const BUFFER_VIRTUAL: usize = 1;
/// glTF `ARRAY_BUFFER` target.
pub const TARGET_ARRAY_BUFFER: u32 = 34962;
/// glTF `ELEMENT_ARRAY_BUFFER` target.
pub const TARGET_ELEMENT_ARRAY_BUFFER: u32 = 34963;

/// `EXT_meshopt_compression` part of a buffer view: where the compressed
/// bytes live in the real buffer and how to decode them.
#[derive(Clone, Copy)]
pub struct MeshoptView {
    pub byte_offset: usize,
    pub byte_length: usize,
    pub byte_stride: usize,
    pub count: usize,
    /// `TRIANGLES` mode when true, `ATTRIBUTES` (filter `NONE`) otherwise.
    pub triangles: bool,
}

/// One glTF buffer view. Offsets into the real buffer are relative to the
/// start of the BIN chunk payload (after the reserved gap).
#[derive(Clone, Copy)]
pub struct BufferView {
    pub buffer: usize,
    pub byte_offset: usize,
    pub byte_length: usize,
    pub byte_stride: Option<usize>,
    pub target: Option<u32>,
    pub meshopt: Option<MeshoptView>,
}

/// Offset in the real buffer of the bytes a view stores.
pub open spec fn stored_offset(v: BufferView) -> int {
    match v.meshopt {
        Some(m) => m.byte_offset as int,
        None => v.byte_offset as int,
    }
}

/// Number of bytes a view stores in the real buffer.
pub open spec fn stored_length(v: BufferView) -> int {
    match v.meshopt {
        Some(m) => m.byte_length as int,
        None => v.byte_length as int,
    }
}

/// The stored bytes of `v` lie inside `bin`'s payload.
pub open spec fn view_within(bin: Seq<u8>, v: BufferView) -> bool {
    PREFIX_GAP + stored_offset(v) + stored_length(v) <= bin.len() && stored_offset(v) >= 0
}

/// The stored bytes of `v`, read from `bin` (reserved gap included).
pub open spec fn stored_bytes(bin: Seq<u8>, v: BufferView) -> Seq<u8> {
    bin.subrange(PREFIX_GAP + stored_offset(v), PREFIX_GAP + stored_offset(v) + stored_length(v))
}

/// `n` rounded up to a multiple of `align`.
pub open spec fn align_up(n: int, align: int) -> int {
    n + pad_len(n, align)
}

/// Alignment of view `k` of a building glb's BIN chunk: the `u64`
/// feature-id column (view 4) starts on 8 bytes, every other view on 4.
pub open spec fn view_align(k: int) -> int {
    if k == 4 { 8 } else { 4 }
}

/// Where the stored bytes of the views before view `k` end in the payload.
pub open spec fn views_end(views: Seq<BufferView>, k: int) -> int {
    if k <= 0 { 0 } else { stored_offset(views[k - 1]) + stored_length(views[k - 1]) }
}

/// The layout is tight: each view starts where the previous one ends,
/// rounded up to its alignment ([`view_align`]), and the payload ends where
/// the last view ends, rounded up to 4.
#[verifier::opaque]
pub open spec fn views_tight(bin: Seq<u8>, views: Seq<BufferView>) -> bool {
    &&& forall|k: int| 0 <= k < views.len() ==> #[trigger] stored_offset(views[k])
        == align_up(views_end(views, k), view_align(k))
    &&& bin.len() == PREFIX_GAP + align_up(views_end(views, views.len() as int), 4)
}

/// Every view stores exactly its expected payload inside `bin`, starting at
/// a 4-aligned offset, views follow one another without overlapping, and
/// the layout is tight ([`views_tight`]).
pub open spec fn views_laid_out(bin: Seq<u8>, views: Seq<BufferView>, payloads: Seq<Seq<u8>>) -> bool {
    &&& views.len() == payloads.len()
    &&& forall|k: int| 0 <= k < views.len() ==> #[trigger] stored_offset(views[k]) % 4 == 0
    &&& forall|k: int| 0 <= k < views.len() ==> #[trigger] view_within(bin, views[k])
    &&& forall|k: int| 0 <= k < views.len() ==> #[trigger] stored_bytes(bin, views[k]) == payloads[k]
    &&& forall|k: int| 0 <= k < views.len() ==> #[trigger] stored_length(views[k]) == payloads[k].len()
    &&& forall|j: int, k: int|
        0 <= j < k < views.len() ==> stored_offset(#[trigger] views[j]) + stored_length(views[j])
            <= stored_offset(#[trigger] views[k])
    &&& views_tight(bin, views)
}

/// `s` concatenated little-endian `u16`s.
pub open spec fn le16s(v: Seq<u16>) -> Seq<u8>
    decreases v.len(),
{
    if v.len() == 0 { Seq::empty() } else { le16s(v.drop_last()) + le16(v.last()) }
}

/// Concatenated little-endian `u32`s.
pub open spec fn le32s(v: Seq<u32>) -> Seq<u8>
    decreases v.len(),
{
    if v.len() == 0 { Seq::empty() } else { le32s(v.drop_last()) + le32(v.last()) }
}

/// Concatenated little-endian `u64`s.
pub open spec fn le64s(v: Seq<u64>) -> Seq<u8>
    decreases v.len(),
{
    if v.len() == 0 { Seq::empty() } else { le64s(v.drop_last()) + le64(v.last()) }
}

proof fn lemma_le16s_len(v: Seq<u16>)
    ensures le16s(v).len() == 2 * v.len(),
    decreases v.len(),
{
    if v.len() > 0 { lemma_le16s_len(v.drop_last()); }
}

proof fn lemma_le32s_len(v: Seq<u32>)
    ensures le32s(v).len() == 4 * v.len(),
    decreases v.len(),
{
    if v.len() > 0 { lemma_le32s_len(v.drop_last()); }
}

proof fn lemma_le64s_len(v: Seq<u64>)
    ensures le64s(v).len() == 8 * v.len(),
    decreases v.len(),
{
    if v.len() > 0 { lemma_le64s_len(v.drop_last()); }
}

/// Concatenation of byte strings, in order.
pub open spec fn concat_bytes(ts: Seq<Seq<u8>>) -> Seq<u8>
    decreases ts.len(),
{
    if ts.len() == 0 { Seq::empty() } else { concat_bytes(ts.drop_last()) + ts.last() }
}

/// Byte offset of each string's start in the concatenation, plus the total
/// length at the end (`ts.len() + 1` entries), as stored `u32`s.
pub open spec fn string_offsets(ts: Seq<Seq<u8>>) -> Seq<u32> {
    Seq::new((ts.len() + 1) as nat, |i: int| concat_bytes(ts.take(i)).len() as u32)
}

/// `b` after a view with payload `p` was appended at alignment `align`:
/// zero padding to `align`, the payload, then zero padding to 4.
pub open spec fn appended(b: Seq<u8>, align: int, p: Seq<u8>) -> Seq<u8> {
    padded_with(padded_with(b, align, 0u8) + p, 4, 0u8)
}

/// A plain (uncompressed) view of the real buffer.
pub open spec fn plain_view(offset: int, length: int, target: Option<u32>) -> BufferView {
    BufferView {
        buffer: BUFFER_REAL,
        byte_offset: offset as usize,
        byte_length: length as usize,
        byte_stride: None,
        target,
        meshopt: None,
    }
}

proof fn lemma_padded_with_len(s: Seq<u8>, align: int, filler: u8)
    requires align > 0,
    ensures
        padded_with(s, align, filler).len() == s.len() + pad_len(s.len() as int, align),
        (padded_with(s, align, filler).len() as int) % align == 0,
        padded_with(s, align, filler).subrange(0, s.len() as int) == s,
        padded_with(s, align, filler).len() < s.len() + align,
{
    lemma_pad_len_aligns(s.len() as int, align);
    assert(padded_with(s, align, filler).subrange(0, s.len() as int) =~= s);
}

/// Appending a view after a tight layout keeps it tight.
proof fn lemma_tight_push(b: Seq<u8>, views: Seq<BufferView>, align: int, p: Seq<u8>, v: BufferView)
    requires
        align == 1 || align == 2 || align == 4 || align == 8,
        (if align == 8 { 8int } else { 4int }) == view_align(views.len() as int),
        views_tight(b, views),
        forall|k: int| 0 <= k < views.len() ==> #[trigger] view_within(b, views[k]),
        stored_offset(v) == padded_with(b, align, 0u8).len() - PREFIX_GAP,
        stored_length(v) == p.len(),
    ensures
        views_tight(appended(b, align, p), views.push(v)),
{
    reveal(views_tight);
    let nv = views.push(v);
    let b1 = padded_with(b, align, 0u8);
    let b2 = b1 + p;
    lemma_padded_with_len(b, align, 0u8);
    lemma_padded_with_len(b2, 4, 0u8);
    let e = views_end(views, views.len() as int);
    assert(e >= 0) by {
        if views.len() > 0 {
            assert(view_within(b, views[views.len() - 1]));
        }
    }
    lemma_align_after_gap(e, align);
    assert(views_end(nv, nv.len() - 1) == e);
    lemma_pad_after_gap(stored_offset(v) + p.len());
    assert(views_end(nv, nv.len() as int) == stored_offset(v) + p.len());
    assert forall|k: int| 0 <= k < nv.len() implies #[trigger] stored_offset(nv[k])
        == align_up(views_end(nv, k), view_align(k)) by {
        if k < views.len() {
            assert(nv[k] == views[k]);
            if k > 0 {
                assert(nv[k - 1] == views[k - 1]);
            }
        }
    }
}

/// A view padded to `align` after a 4-aligned payload end `e` (behind the
/// 8-aligned reserved gap) starts at `e` rounded up to 4, or to 8 for an
/// 8-aligned view.
proof fn lemma_align_after_gap(e: int, align: int)
    requires
        e >= 0,
        align == 1 || align == 2 || align == 4 || align == 8,
    ensures
        ({
            let blen = PREFIX_GAP + align_up(e, 4);
            blen + pad_len(blen, align) - PREFIX_GAP == align_up(e, if align == 8 { 8int } else { 4int })
        }),
{
    let r4 = align_up(e, 4);
    lemma_pad_len_aligns(e, 4);
    lemma_pad_len_aligns(e, 8);
    assert(r4 % 4 == 0);
    if align == 8 {
        assert(pad_len(PREFIX_GAP + r4, 8) == pad_len(e, 8) - pad_len(e, 4)) by {
            assert((8192 + r4) % 8 == r4 % 8);
        }
    } else {
        assert((8192 + r4) % align == 0);
    }
}

/// Padding to 4 is the same behind the reserved gap as without it.
proof fn lemma_pad_after_gap(x: int)
    requires
        x >= 0,
    ensures
        PREFIX_GAP + x + pad_len(PREFIX_GAP + x, 4) == PREFIX_GAP + align_up(x, 4),
{
    assert((8192 + x) % 4 == x % 4);
}


/// Appending a view keeps every earlier view's bytes and places the new
/// payload right after them.
proof fn lemma_append_view(
    b: Seq<u8>,
    views: Seq<BufferView>,
    payloads: Seq<Seq<u8>>,
    align: int,
    p: Seq<u8>,
    v: BufferView,
)
    requires
        align == 1 || align == 2 || align == 4 || align == 8,
        (if align == 8 { 8int } else { 4int }) == view_align(views.len() as int),
        b.len() >= PREFIX_GAP,
        b.len() % 4 == 0,
        views_laid_out(b, views, payloads),
        stored_offset(v) == padded_with(b, align, 0u8).len() - PREFIX_GAP,
        stored_length(v) == p.len(),
    ensures
        views_laid_out(appended(b, align, p), views.push(v), payloads.push(p)),
        appended(b, align, p).len() % 4 == 0,
        stored_offset(v) % align == 0,
        appended(b, align, p).len() >= b.len(),
        appended(b, align, p).len() <= b.len() + align + p.len() + 3,
        appended(b, align, p).subrange(0, b.len() as int) == b,
{
    let b1 = padded_with(b, align, 0u8);
    let b2 = b1 + p;
    let b3 = padded_with(b2, 4, 0u8);
    lemma_padded_with_len(b, align, 0u8);
    lemma_padded_with_len(b2, 4, 0u8);
    assert(b3.subrange(0, b.len() as int) =~= b) by {
        assert(b3.subrange(0, b2.len() as int) == b2);
        assert(b2.subrange(0, b1.len() as int) =~= b1);
    }
    let nv = views.push(v);
    let np = payloads.push(p);
    lemma_tight_push(b, views, align, p, v);
    assert forall|k: int| 0 <= k < nv.len() implies #[trigger] stored_offset(nv[k]) % 4 == 0 by {
        if k < views.len() {
            assert(nv[k] == views[k]);
        }
    }
    assert forall|k: int| 0 <= k < nv.len() implies #[trigger] view_within(b3, nv[k]) by {
        if k < views.len() {
            assert(view_within(b, views[k]));
        }
    }
    assert forall|k: int| 0 <= k < nv.len() implies #[trigger] stored_bytes(b3, nv[k]) == np[k] by {
        if k < views.len() {
            assert(view_within(b, views[k]));
            assert(stored_bytes(b, views[k]) == payloads[k]);
            let lo = PREFIX_GAP + stored_offset(views[k]);
            let hi = lo + stored_length(views[k]);
            assert(b3.subrange(lo, hi) =~= b3.subrange(0, b.len() as int).subrange(lo, hi));
        } else {
            assert(b3.subrange(0, b2.len() as int) == b2);
            assert(stored_bytes(b3, v) =~= b2.subrange(b1.len() as int, b2.len() as int));
            assert(b2.subrange(b1.len() as int, b2.len() as int) =~= p);
        }
    }
    assert forall|k: int| 0 <= k < nv.len() implies #[trigger] stored_length(nv[k]) == np[k].len() by {
        if k < views.len() {
        }
    }
    assert forall|j: int, k: int| 0 <= j < k < nv.len() implies stored_offset(#[trigger] nv[j])
        + stored_length(nv[j]) <= stored_offset(#[trigger] nv[k]) by {
        if k < views.len() {
        } else {
            assert(view_within(b, views[j]));
        }
    }
}

/// Start a plain view: pad `bin` to `align` and return where its bytes begin.
fn begin_view(bin: &mut Vec<u8>, align: usize) -> (start: usize)
    requires
        align > 0,
        old(bin)@.len() + align <= usize::MAX,
    ensures
        final(bin)@ == padded_with(old(bin)@, align as int, 0u8),
        start == final(bin)@.len(),
{
    pad_to(bin, align);
    bin.len()
}

/// Close a plain view whose bytes begin at `start`: pad `bin` to 4 and
/// record the view.
fn finish_view(bin: &mut Vec<u8>, views: &mut Vec<BufferView>, start: usize, target: Option<u32>) -> (idx: usize)
    requires
        PREFIX_GAP <= start <= old(bin)@.len(),
        old(bin)@.len() + 4 <= usize::MAX,
    ensures
        final(bin)@ == padded_with(old(bin)@, 4, 0u8),
        final(views)@ == old(views)@.push(plain_view(start - PREFIX_GAP, old(bin)@.len() - start, target)),
        idx == old(views)@.len(),
{
    let len = bin.len() - start;
    pad_to(bin, 4);
    let idx = views.len();
    views.push(BufferView {
        buffer: BUFFER_REAL,
        byte_offset: start - PREFIX_GAP,
        byte_length: len,
        byte_stride: None,
        target,
        meshopt: None,
    });
    idx
}

/// Append a plain view of little-endian `u16`s, written straight into `bin`.
fn push_u16_view(bin: &mut Vec<u8>, views: &mut Vec<BufferView>, target: Option<u32>, align: usize, vals: &[u16]) -> (idx: usize)
    requires
        align > 0,
        old(bin)@.len() >= PREFIX_GAP,
        old(bin)@.len() + align + 2 * vals@.len() + 4 <= usize::MAX,
    ensures
        final(bin)@ == appended(old(bin)@, align as int, le16s(vals@)),
        final(views)@ == old(views)@.push(plain_view(
            padded_with(old(bin)@, align as int, 0u8).len() - PREFIX_GAP, 2 * vals@.len() as int, target)),
        idx == old(views)@.len(),
{
    let ghost b0 = bin@;
    proof { lemma_padded_with_len(b0, align as int, 0u8); }
    let start = begin_view(bin, align);
    let ghost b1 = bin@;
    for i in 0..vals.len()
        invariant
            bin@ == b1 + le16s(vals@.take(i as int)),
            b1.len() == start,
            start + 2 * vals@.len() + 4 <= usize::MAX,
    {
        proof { lemma_le16s_len(vals@.take(i as int)); }
        push_u16_le(bin, vals[i]);
        assert(vals@.take(i + 1).drop_last() =~= vals@.take(i as int));
    }
    assert(vals@.take(vals@.len() as int) =~= vals@);
    proof { lemma_le16s_len(vals@); }
    finish_view(bin, views, start, target)
}

/// Append a plain view of little-endian `u32`s, written straight into `bin`.
fn push_u32_view(bin: &mut Vec<u8>, views: &mut Vec<BufferView>, target: Option<u32>, align: usize, vals: &[u32]) -> (idx: usize)
    requires
        align > 0,
        old(bin)@.len() >= PREFIX_GAP,
        old(bin)@.len() + align + 4 * vals@.len() + 4 <= usize::MAX,
    ensures
        final(bin)@ == appended(old(bin)@, align as int, le32s(vals@)),
        final(views)@ == old(views)@.push(plain_view(
            padded_with(old(bin)@, align as int, 0u8).len() - PREFIX_GAP, 4 * vals@.len() as int, target)),
        idx == old(views)@.len(),
{
    let ghost b0 = bin@;
    proof { lemma_padded_with_len(b0, align as int, 0u8); }
    let start = begin_view(bin, align);
    let ghost b1 = bin@;
    for i in 0..vals.len()
        invariant
            bin@ == b1 + le32s(vals@.take(i as int)),
            b1.len() == start,
            start + 4 * vals@.len() + 4 <= usize::MAX,
    {
        proof { lemma_le32s_len(vals@.take(i as int)); }
        push_u32_le(bin, vals[i]);
        assert(vals@.take(i + 1).drop_last() =~= vals@.take(i as int));
    }
    assert(vals@.take(vals@.len() as int) =~= vals@);
    proof { lemma_le32s_len(vals@); }
    finish_view(bin, views, start, target)
}

/// Append a plain view of little-endian `u64`s, written straight into `bin`.
fn push_u64_view(bin: &mut Vec<u8>, views: &mut Vec<BufferView>, target: Option<u32>, align: usize, vals: &[u64]) -> (idx: usize)
    requires
        align > 0,
        old(bin)@.len() >= PREFIX_GAP,
        old(bin)@.len() + align + 8 * vals@.len() + 4 <= usize::MAX,
    ensures
        final(bin)@ == appended(old(bin)@, align as int, le64s(vals@)),
        final(views)@ == old(views)@.push(plain_view(
            padded_with(old(bin)@, align as int, 0u8).len() - PREFIX_GAP, 8 * vals@.len() as int, target)),
        idx == old(views)@.len(),
{
    let ghost b0 = bin@;
    proof { lemma_padded_with_len(b0, align as int, 0u8); }
    let start = begin_view(bin, align);
    let ghost b1 = bin@;
    for i in 0..vals.len()
        invariant
            bin@ == b1 + le64s(vals@.take(i as int)),
            b1.len() == start,
            start + 8 * vals@.len() + 4 <= usize::MAX,
    {
        proof { lemma_le64s_len(vals@.take(i as int)); }
        push_u64_le(bin, vals[i]);
        assert(vals@.take(i + 1).drop_last() =~= vals@.take(i as int));
    }
    assert(vals@.take(vals@.len() as int) =~= vals@);
    proof { lemma_le64s_len(vals@); }
    finish_view(bin, views, start, target)
}

/// Indices of the two views of a string property column.
pub struct StringBv {
    pub values: usize,
    pub string_offsets: usize,
}

proof fn lemma_concat_bytes_step(ts: Seq<Seq<u8>>, i: int)
    requires 0 <= i < ts.len(),
    ensures concat_bytes(ts.take(i + 1)) == concat_bytes(ts.take(i)) + ts[i],
{
    assert(ts.take(i + 1).drop_last() =~= ts.take(i));
}

/// Append the two views of a string column: the concatenated UTF-8 bytes of
/// `texts`, then the `u32` byte offsets of each string (plus the total).
fn push_string_column(bin: &mut Vec<u8>, views: &mut Vec<BufferView>, texts: &Vec<&str>) -> (bv: StringBv)
    requires
        old(bin)@.len() >= PREFIX_GAP,
        old(bin)@.len() + concat_bytes(Seq::new(texts@.len(), |i: int| encode_utf8(texts@[i]@))).len()
            + 4 * texts@.len() + 24 <= usize::MAX,
    ensures
        ({
            let ts = Seq::new(texts@.len(), |i: int| encode_utf8(texts@[i]@));
            let b1 = appended(old(bin)@, 4, concat_bytes(ts));
            &&& final(bin)@ == appended(b1, 4, le32s(string_offsets(ts)))
            &&& final(views)@ == old(views)@.push(plain_view(
                padded_with(old(bin)@, 4, 0u8).len() - PREFIX_GAP, concat_bytes(ts).len() as int, None))
                .push(plain_view(padded_with(b1, 4, 0u8).len() - PREFIX_GAP, 4 * (ts.len() + 1) as int, None))
            &&& bv.values == old(views)@.len()
            &&& bv.string_offsets == old(views)@.len() + 1
        }),
{
    let ghost ts = Seq::new(texts@.len(), |i: int| encode_utf8(texts@[i]@));
    let ghost b0 = bin@;
    proof { lemma_padded_with_len(b0, 4, 0u8); }
    let mut offsets: Vec<u32> = Vec::with_capacity(texts.len() + 1);
    offsets.push(0);
    let start = begin_view(bin, 4);
    let ghost b1 = bin@;
    assert(ts.take(0) =~= Seq::<Seq<u8>>::empty());
    assert(bin@ =~= b1 + concat_bytes(ts.take(0)));
    assert(offsets@ =~= Seq::new(1nat, |k: int| concat_bytes(ts.take(k)).len() as u32));
    for i in 0..texts.len()
        invariant
            ts == Seq::new(texts@.len(), |i: int| encode_utf8(texts@[i]@)),
            bin@ == b1 + concat_bytes(ts.take(i as int)),
            b1.len() == start,
            start + concat_bytes(ts).len() + 4 * ts.len() + 20 <= usize::MAX,
            offsets@ =~= Seq::new((i + 1) as nat, |k: int| concat_bytes(ts.take(k)).len() as u32),
    {
        proof {
            lemma_concat_bytes_step(ts, i as int);
            lemma_concat_bytes_prefix_len(ts, i + 1);
        }
        let bytes = texts[i].as_bytes();
        bin.extend_from_slice(bytes);
        assert(bin@ =~= b1 + concat_bytes(ts.take(i + 1)));
        offsets.push((bin.len() - start) as u32);
    }
    assert(ts.take(ts.len() as int) =~= ts);
    assert(offsets@ =~= string_offsets(ts));
    let values = finish_view(bin, views, start, None);
    let ghost bv1 = bin@;
    proof {
        lemma_padded_with_len(bin@, 4, 0u8);
    }
    let string_offsets = push_u32_view(bin, views, None, 4, offsets.as_slice());
    StringBv { values, string_offsets }
}

proof fn lemma_concat_bytes_prefix_len(ts: Seq<Seq<u8>>, i: int)
    requires 0 <= i <= ts.len(),
    ensures concat_bytes(ts.take(i)).len() <= concat_bytes(ts).len(),
    decreases ts.len() - i,
{
    if i < ts.len() {
        lemma_concat_bytes_step(ts, i);
        lemma_concat_bytes_prefix_len(ts, i + 1);
    } else {
        assert(ts.take(i) =~= ts);
    }
}

/// Append meshopt-compressed attribute bytes, declaring their decompressed
/// extent in the virtual buffer at `*virtual_offset` (which then advances by
/// the decompressed size rounded up to 4).
fn push_compressed_attributes(
    bin: &mut Vec<u8>,
    views: &mut Vec<BufferView>,
    virtual_offset: &mut usize,
    compressed: Vec<u8>,
    byte_stride: usize,
    count: usize,
    target: Option<u32>,
) -> (idx: usize)
    requires
        old(bin)@.len() >= PREFIX_GAP,
        old(bin)@.len() + compressed@.len() + 4 <= usize::MAX,
        byte_stride * count % 4 == 0,
        *old(virtual_offset) + byte_stride * count + 4 <= usize::MAX,
    ensures
        final(bin)@ == appended(old(bin)@, 1, compressed@),
        final(views)@ == old(views)@.push(BufferView {
            buffer: BUFFER_VIRTUAL,
            byte_offset: *old(virtual_offset),
            byte_length: (byte_stride * count) as usize,
            byte_stride: Some(byte_stride),
            target,
            meshopt: Some(MeshoptView {
                byte_offset: (old(bin)@.len() - PREFIX_GAP) as usize,
                byte_length: compressed@.len() as usize,
                byte_stride,
                count,
                triangles: false,
            }),
        }),
        *final(virtual_offset) == *old(virtual_offset) + byte_stride * count,
        idx == old(views)@.len(),
{
    proof { lemma_padded_with_len(old(bin)@, 1, 0u8); }
    assert(padded_with(old(bin)@, 1, 0u8) =~= old(bin)@);
    let real_offset = bin.len() - PREFIX_GAP;
    let real_len = compressed.len();
    bin.extend_from_slice(compressed.as_slice());
    pad_to(bin, 4);
    let uncompressed_len = byte_stride * count;
    let virtual_pos = *virtual_offset;
    let step = round_up(uncompressed_len, 4);
    *virtual_offset = *virtual_offset + step;
    let idx = views.len();
    views.push(BufferView {
        buffer: BUFFER_VIRTUAL,
        byte_offset: virtual_pos,
        byte_length: uncompressed_len,
        byte_stride: Some(byte_stride),
        target,
        meshopt: Some(MeshoptView {
            byte_offset: real_offset,
            byte_length: real_len,
            byte_stride,
            count,
            triangles: false,
        }),
    });
    idx
}

/// Append meshopt-compressed `u32` index bytes (`count` indices), declaring
/// their decompressed extent in the virtual buffer.
fn push_compressed_indices(
    bin: &mut Vec<u8>,
    views: &mut Vec<BufferView>,
    virtual_offset: &mut usize,
    compressed: Vec<u8>,
    count: usize,
    target: Option<u32>,
) -> (idx: usize)
    requires
        old(bin)@.len() >= PREFIX_GAP,
        old(bin)@.len() + compressed@.len() + 4 <= usize::MAX,
        *old(virtual_offset) + 4 * count + 4 <= usize::MAX,
    ensures
        final(bin)@ == appended(old(bin)@, 1, compressed@),
        final(views)@ == old(views)@.push(BufferView {
            buffer: BUFFER_VIRTUAL,
            byte_offset: *old(virtual_offset),
            byte_length: (4 * count) as usize,
            byte_stride: None,
            target,
            meshopt: Some(MeshoptView {
                byte_offset: (old(bin)@.len() - PREFIX_GAP) as usize,
                byte_length: compressed@.len() as usize,
                byte_stride: 4,
                count,
                triangles: true,
            }),
        }),
        *final(virtual_offset) == *old(virtual_offset) + 4 * count,
        idx == old(views)@.len(),
{
    proof { lemma_padded_with_len(old(bin)@, 1, 0u8); }
    assert(padded_with(old(bin)@, 1, 0u8) =~= old(bin)@);
    let real_offset = bin.len() - PREFIX_GAP;
    let real_len = compressed.len();
    bin.extend_from_slice(compressed.as_slice());
    pad_to(bin, 4);
    let byte_stride: usize = 4;
    let uncompressed_len = byte_stride * count;
    let virtual_pos = *virtual_offset;
    let step = round_up(uncompressed_len, 4);
    *virtual_offset = *virtual_offset + step;
    let idx = views.len();
    views.push(BufferView {
        buffer: BUFFER_VIRTUAL,
        byte_offset: virtual_pos,
        byte_length: uncompressed_len,
        byte_stride: None,
        target,
        meshopt: Some(MeshoptView {
            byte_offset: real_offset,
            byte_length: real_len,
            byte_stride,
            count,
            triangles: true,
        }),
    });
    idx
}

/// `n` rounded up to a multiple of `align`.
pub fn round_up(n: usize, align: usize) -> (r: usize)
    requires
        align > 0,
        n + align <= usize::MAX,
    ensures
        r % align == 0,
        n <= r < n + align,
        r == ((n + align - 1) / align as int) * align,
{
    let q = n / align + if n % align == 0 { 0 } else { 1 };
    assert(q * align == ((n + align - 1) / align as int) * align
        && (q * align) % (align as int) == 0 && n <= q * align < n + align) by (nonlinear_arith)
        requires align > 0, q == n / align + if n % align == 0 { 0int } else { 1int };
    q * align
}

/// The bytes meshopt's vertex codec produces for 12-byte `vertices` (a
/// function of the vertices alone: the codec version is a process-wide
/// setting that only an unsafe setter changes).
pub uninterp spec fn meshopt_vertex_encoding(vertices: Seq<[u32; 3]>) -> Seq<u8>;

/// Compresses a stream of 12-byte vertices with
/// `meshopt::encode_vertex_buffer`. The crate's code always returns `Ok`;
/// its C codec accepts any vertex size that is a multiple of 4 up to 256.
/// The output is at most the codec's bound for 12-byte vertices,
/// `1 + ceil(n / 256) * 3123 + 32`, which is below `13 * n + 3156`. What
/// the bytes are is left to the name.
#[verifier::external_body]
fn encode_vertex_buffer(vertices: &[[u32; 3]]) -> (r: Vec<u8>)
    ensures
        r@ == meshopt_vertex_encoding(vertices@),
        r@.len() <= 13 * vertices@.len() + 3156,
{
    meshopt::encode_vertex_buffer(vertices).expect("encode vertices")
}

/// The bytes meshopt's index codec produces for `indices` (a function of
/// the indices and the vertex count alone).
pub uninterp spec fn meshopt_index_encoding(indices: Seq<u32>, vertex_count: usize) -> Seq<u8>;

/// Compresses a triangle index list with `meshopt::encode_index_buffer`.
/// The crate's code always returns `Ok`, and its C codec asserts a whole
/// number of triangles; the output is at most the codec's documented bound
/// `1 + (n / 3) * (2 + 3 * groups) + 16` with `groups <= 5`, which is below
/// `6 * n + 17`. What the bytes are is left to the name.
#[verifier::external_body]
fn encode_index_buffer(indices: &[u32], vertex_count: usize) -> (r: Vec<u8>)
    requires
        indices@.len() % 3 == 0,
    ensures
        r@ == meshopt_index_encoding(indices@, vertex_count),
        r@.len() <= 6 * indices@.len() + 17,
{
    meshopt::encode_index_buffer(indices, vertex_count).expect("encode idx")
}

/// View of an optional string, the empty string when absent (the schema's
/// noData sentinel).
pub open spec fn text_view(s: Option<String>) -> Seq<char> {
    match s {
        Some(t) => t@,
        None => Seq::empty(),
    }
}

/// Text of string property column `c` for one feature: 0 `gers_id`,
/// 1 `name`, 2 `subtype`, 3 `class`, 4 `roof_shape`, 5 `height_method`.
pub open spec fn column_text(f: FeatureProps, c: int) -> Seq<char> {
    if c == 0 {
        text_view(f.gers_id)
    } else if c == 1 {
        text_view(f.name)
    } else if c == 2 {
        text_view(f.subtype)
    } else if c == 3 {
        text_view(f.class)
    } else if c == 4 {
        text_view(f.roof_shape)
    } else {
        f.height_method@
    }
}

/// UTF-8 bytes of string column `c`, one entry per feature.
pub open spec fn text_column(feats: Seq<FeatureProps>, c: int) -> Seq<Seq<u8>> {
    Seq::new(feats.len(), |i: int| encode_utf8(column_text(feats[i], c)))
}

/// `f32` bit patterns of float column `c`: 0 `height`, 1 `source_height`
/// (0 when absent), 2 `min_height`, 3 `roof_height`, 4 `ground_elev`.
pub open spec fn float_value(f: FeatureProps, c: int) -> u32 {
    if c == 0 {
        f.height_m_bits
    } else if c == 1 {
        match f.source_height_m_bits {
            Some(b) => b,
            None => 0u32,
        }
    } else if c == 2 {
        f.min_height_m_bits
    } else if c == 3 {
        f.roof_height_m_bits
    } else {
        f.ground_elev_m_bits
    }
}

pub open spec fn float_column(feats: Seq<FeatureProps>, c: int) -> Seq<u32> {
    Seq::new(feats.len(), |i: int| float_value(feats[i], c))
}

/// Feature ids, 0 (noData) when absent.
pub open spec fn feature_id_column(feats: Seq<FeatureProps>) -> Seq<u64> {
    Seq::new(
        feats.len(),
        |i: int|
            match feats[i].feature_id {
                Some(id) => id,
                None => 0u64,
            },
    )
}

pub open spec fn num_floors_column(feats: Seq<FeatureProps>) -> Seq<u16> {
    Seq::new(feats.len(), |i: int| feats[i].num_floors)
}

/// Payload of every buffer view [`pack_glb_bin`] writes, in view order:
/// positions, normals and indices (compressed), per-vertex feature ids, then
/// the property-table columns (feature id, five float columns, floor count,
/// and values/offsets for each of the six string columns).
pub open spec fn glb_payloads(
    pos: Seq<u8>,
    nrm: Seq<u8>,
    idx: Seq<u8>,
    fids: Seq<u16>,
    feats: Seq<FeatureProps>,
) -> Seq<Seq<u8>> {
    seq![
        pos, nrm, idx, le16s(fids), le64s(feature_id_column(feats)),
        le32s(float_column(feats, 0)), le32s(float_column(feats, 1)), le32s(float_column(feats, 2)),
        le32s(float_column(feats, 3)), le32s(float_column(feats, 4)),
        le16s(num_floors_column(feats)),
        concat_bytes(text_column(feats, 0)), le32s(string_offsets(text_column(feats, 0))),
        concat_bytes(text_column(feats, 1)), le32s(string_offsets(text_column(feats, 1))),
        concat_bytes(text_column(feats, 2)), le32s(string_offsets(text_column(feats, 2))),
        concat_bytes(text_column(feats, 3)), le32s(string_offsets(text_column(feats, 3))),
        concat_bytes(text_column(feats, 4)), le32s(string_offsets(text_column(feats, 4))),
        concat_bytes(text_column(feats, 5)), le32s(string_offsets(text_column(feats, 5))),
    ]
}

/// Total text bytes over the six string columns.
pub open spec fn text_total(feats: Seq<FeatureProps>) -> int {
    texts_upto(feats, 6)
}

/// An upper bound on the packed BIN size.
pub open spec fn pack_budget(pos: int, nrm: int, n_idx: int, n_fid: int, feats: Seq<FeatureProps>) -> int {
    PREFIX_GAP + pos + nrm + 6 * n_idx + 17 + 2 * n_fid + 56 * feats.len() + text_total(feats) + 24
        * 7 + 23 * 16
}

/// The five float property columns hold, feature by feature, the field
/// they are named after: view 5 (`ids.height`) the resolved heights, view 6
/// (`ids.source_height`) the upstream heights (0 when absent), view 7
/// (`ids.min_height`) the minimum heights, view 8 (`ids.roof_height`) the
/// roof heights and view 9 (`ids.ground_elev`) the ground elevations, each
/// as little-endian `f32`s.
pub proof fn law_float_columns_by_field(
    pos: Seq<u8>,
    nrm: Seq<u8>,
    idx: Seq<u8>,
    fids: Seq<u16>,
    feats: Seq<FeatureProps>,
)
    ensures
        ({
            let p = glb_payloads(pos, nrm, idx, fids, feats);
            let n = feats.len();
            &&& p[5] == le32s(Seq::new(n, |i: int| feats[i].height_m_bits))
            &&& p[6] == le32s(Seq::new(n, |i: int| match feats[i].source_height_m_bits {
                Some(b) => b,
                None => 0u32,
            }))
            &&& p[7] == le32s(Seq::new(n, |i: int| feats[i].min_height_m_bits))
            &&& p[8] == le32s(Seq::new(n, |i: int| feats[i].roof_height_m_bits))
            &&& p[9] == le32s(Seq::new(n, |i: int| feats[i].ground_elev_m_bits))
        }),
{
    let n = feats.len();
    assert(float_column(feats, 0) =~= Seq::new(n, |i: int| feats[i].height_m_bits));
    assert(float_column(feats, 1) =~= Seq::new(n, |i: int| match feats[i].source_height_m_bits {
        Some(b) => b,
        None => 0u32,
    }));
    assert(float_column(feats, 2) =~= Seq::new(n, |i: int| feats[i].min_height_m_bits));
    assert(float_column(feats, 3) =~= Seq::new(n, |i: int| feats[i].roof_height_m_bits));
    assert(float_column(feats, 4) =~= Seq::new(n, |i: int| feats[i].ground_elev_m_bits));
}

/// The string property columns hold, feature by feature, the field they
/// are named after, as concatenated UTF-8 (absent strings empty): view 11
/// (`ids.gers_id.values`) the GERS ids, 13 the names, 15 the subtypes, 17
/// the classes, 19 the roof shapes and 21 the height-method tags; and the
/// feature-id column (view 4) and floor-count column (view 10) hold each
/// feature's id (0 when absent) and floor count.
pub proof fn law_text_columns_by_field(
    pos: Seq<u8>,
    nrm: Seq<u8>,
    idx: Seq<u8>,
    fids: Seq<u16>,
    feats: Seq<FeatureProps>,
)
    ensures
        ({
            let p = glb_payloads(pos, nrm, idx, fids, feats);
            let n = feats.len();
            &&& p[4] == le64s(Seq::new(n, |i: int| match feats[i].feature_id {
                Some(id) => id,
                None => 0u64,
            }))
            &&& p[10] == le16s(Seq::new(n, |i: int| feats[i].num_floors))
            &&& p[11] == concat_bytes(Seq::new(n, |i: int| encode_utf8(text_view(feats[i].gers_id))))
            &&& p[13] == concat_bytes(Seq::new(n, |i: int| encode_utf8(text_view(feats[i].name))))
            &&& p[15] == concat_bytes(Seq::new(n, |i: int| encode_utf8(text_view(feats[i].subtype))))
            &&& p[17] == concat_bytes(Seq::new(n, |i: int| encode_utf8(text_view(feats[i].class))))
            &&& p[19] == concat_bytes(Seq::new(n, |i: int| encode_utf8(text_view(feats[i].roof_shape))))
            &&& p[21] == concat_bytes(Seq::new(n, |i: int| encode_utf8(feats[i].height_method@)))
        }),
{
    let n = feats.len();
    assert(text_column(feats, 0) =~= Seq::new(n, |i: int| encode_utf8(text_view(feats[i].gers_id))));
    assert(text_column(feats, 1) =~= Seq::new(n, |i: int| encode_utf8(text_view(feats[i].name))));
    assert(text_column(feats, 2) =~= Seq::new(n, |i: int| encode_utf8(text_view(feats[i].subtype))));
    assert(text_column(feats, 3) =~= Seq::new(n, |i: int| encode_utf8(text_view(feats[i].class))));
    assert(text_column(feats, 4) =~= Seq::new(n, |i: int| encode_utf8(text_view(feats[i].roof_shape))));
    assert(text_column(feats, 5) =~= Seq::new(n, |i: int| encode_utf8(feats[i].height_method@)));
    assert(feature_id_column(feats) =~= Seq::new(n, |i: int| match feats[i].feature_id {
        Some(id) => id,
        None => 0u64,
    }));
    assert(num_floors_column(feats) =~= Seq::new(n, |i: int| feats[i].num_floors));
}

/// View indices of everything [`pack_glb_bin`] writes.
pub struct GlbViewIds {
    pub pos: usize,
    pub nrm: usize,
    pub idx: usize,
    pub fid: usize,
    pub feature_id: usize,
    pub height: usize,
    pub source_height: usize,
    pub min_height: usize,
    pub roof_height: usize,
    pub ground_elev: usize,
    pub num_floors: usize,
    pub gers_id: StringBv,
    pub name: StringBv,
    pub subtype: StringBv,
    pub class: StringBv,
    pub roof_shape: StringBv,
    pub height_method: StringBv,
}

/// The packed BIN buffer (with its reserved gap), its buffer views, and the
/// size of the decompressed virtual buffer.
pub struct GlbBin {
    pub bin: Vec<u8>,
    pub views: Vec<BufferView>,
    pub virtual_total: usize,
    pub ids: GlbViewIds,
}

fn opt_str(s: &Option<String>) -> (r: &str)
    ensures
        r@ == text_view(*s),
{
    match s {
        Some(t) => t.as_str(),
        None => {
            proof {
                reveal_strlit("");
            }
            ""
        },
    }
}

fn text_of(f: &FeatureProps, c: usize) -> (r: &str)
    ensures
        r@ == column_text(*f, c as int),
{
    if c == 0 {
        opt_str(&f.gers_id)
    } else if c == 1 {
        opt_str(&f.name)
    } else if c == 2 {
        opt_str(&f.subtype)
    } else if c == 3 {
        opt_str(&f.class)
    } else if c == 4 {
        opt_str(&f.roof_shape)
    } else {
        f.height_method
    }
}

fn texts_of(feats: &Vec<FeatureProps>, c: usize) -> (r: Vec<&str>)
    ensures
        r@.len() == feats@.len(),
        forall|i: int| 0 <= i < feats@.len() ==> #[trigger] r@[i]@ == column_text(feats@[i], c as int),
{
    let mut r: Vec<&str> = Vec::with_capacity(feats.len());
    for i in 0..feats.len()
        invariant
            r@.len() == i,
            forall|k: int| 0 <= k < i ==> #[trigger] r@[k]@ == column_text(feats@[k], c as int),
    {
        r.push(text_of(&feats[i], c));
    }
    r
}

fn float_bits_of(f: &FeatureProps, c: usize) -> (r: u32)
    ensures
        r == float_value(*f, c as int),
{
    if c == 0 {
        f.height_m_bits
    } else if c == 1 {
        match f.source_height_m_bits {
            Some(b) => b,
            None => 0,
        }
    } else if c == 2 {
        f.min_height_m_bits
    } else if c == 3 {
        f.roof_height_m_bits
    } else {
        f.ground_elev_m_bits
    }
}

fn float_column_of(feats: &Vec<FeatureProps>, c: usize) -> (r: Vec<u32>)
    ensures
        r@ == float_column(feats@, c as int),
{
    let mut r: Vec<u32> = Vec::with_capacity(feats.len());
    for i in 0..feats.len()
        invariant
            r@ =~= Seq::new(i as nat, |k: int| float_value(feats@[k], c as int)),
    {
        r.push(float_bits_of(&feats[i], c));
    }
    r
}

proof fn lemma_text_column_agrees(texts: Seq<&str>, feats: Seq<FeatureProps>, c: int)
    requires
        texts.len() == feats.len(),
        forall|i: int| 0 <= i < feats.len() ==> #[trigger] texts[i]@ == column_text(feats[i], c),
    ensures
        Seq::new(texts.len(), |i: int| encode_utf8(texts[i]@)) == text_column(feats, c),
{
    assert(Seq::new(texts.len(), |i: int| encode_utf8(texts[i]@)) =~= text_column(feats, c));
}

/// Pack the BIN chunk of a building glb: the meshopt-compressed positions
/// and normals (12-byte vertices as `f32` bit patterns), the triangle
/// indices (compressed too), the per-vertex feature ids, and every
/// property-table column of `features`. Each view's bytes are exactly its
/// payload from [`glb_payloads`], the views follow one another without
/// overlap inside the payload after the reserved gap, each at a 4-aligned
/// offset (the `u64` feature-id column at an 8-aligned one), and the
/// virtual buffer declares 12-byte positions and normals followed by 4-byte
/// indices.
pub fn pack_glb_bin(
    positions: &[[u32; 3]],
    normals: &[[u32; 3]],
    indices: Vec<u32>,
    feature_ids: Vec<u16>,
    features: &Vec<FeatureProps>,
) -> (out: GlbBin)
    requires
        indices@.len() % 3 == 0,
        pack_budget(
            13 * positions@.len() as int + 3156,
            13 * normals@.len() as int + 3156,
            indices@.len() as int,
            feature_ids@.len() as int,
            features@,
        ) <= usize::MAX,
        24 * positions@.len() + 4 * indices@.len() + 8 <= usize::MAX,
    ensures
        out.bin@.len() >= PREFIX_GAP,
        (out.bin@.len() - PREFIX_GAP) % 4 == 0,
        views_laid_out(
            out.bin@,
            out.views@,
            glb_payloads(
                meshopt_vertex_encoding(positions@),
                meshopt_vertex_encoding(normals@),
                meshopt_index_encoding(indices@, positions@.len() as usize),
                feature_ids@,
                features@,
            ),
        ),
        out.virtual_total == 24 * positions@.len() + 4 * indices@.len(),
        out.views@[4].byte_offset % 8 == 0,
        out.views@[0].buffer == BUFFER_VIRTUAL && out.views@[0].byte_offset == 0
            && out.views@[0].byte_length == 12 * positions@.len() && out.views@[0].byte_stride == Some(12usize)
            && out.views@[0].target == Some(TARGET_ARRAY_BUFFER)
            && (out.views@[0].meshopt matches Some(m) && m.count == positions@.len() && m.byte_stride == 12 && !m.triangles),
        out.views@[1].buffer == BUFFER_VIRTUAL && out.views@[1].byte_offset == 12 * positions@.len()
            && out.views@[1].byte_length == 12 * positions@.len() && out.views@[1].byte_stride == Some(12usize)
            && out.views@[1].target == Some(TARGET_ARRAY_BUFFER)
            && (out.views@[1].meshopt matches Some(m) && m.count == positions@.len() && m.byte_stride == 12 && !m.triangles),
        out.views@[2].buffer == BUFFER_VIRTUAL && out.views@[2].byte_offset == 24 * positions@.len()
            && out.views@[2].byte_length == 4 * indices@.len() && out.views@[2].byte_stride is None
            && out.views@[2].target == Some(TARGET_ELEMENT_ARRAY_BUFFER)
            && (out.views@[2].meshopt matches Some(m) && m.count == indices@.len() && m.byte_stride == 4 && m.triangles),
        forall|k: int| 3 <= k < out.views@.len() ==> (#[trigger] out.views@[k]).buffer == BUFFER_REAL
            && out.views@[k].meshopt is None && out.views@[k].byte_stride is None
            && out.views@[k].target == (if k == 3 { Some(TARGET_ARRAY_BUFFER) } else { None::<u32> }),
        out.ids.pos == 0 && out.ids.nrm == 1 && out.ids.idx == 2 && out.ids.fid == 3,
        out.ids.feature_id == 4 && out.ids.height == 5 && out.ids.source_height == 6,
        out.ids.min_height == 7 && out.ids.roof_height == 8 && out.ids.ground_elev == 9,
        out.ids.num_floors == 10,
        out.ids.gers_id.values == 11 && out.ids.gers_id.string_offsets == 12,
        out.ids.name.values == 13 && out.ids.name.string_offsets == 14,
        out.ids.subtype.values == 15 && out.ids.subtype.string_offsets == 16,
        out.ids.class.values == 17 && out.ids.class.string_offsets == 18,
        out.ids.roof_shape.values == 19 && out.ids.roof_shape.string_offsets == 20,
        out.ids.height_method.values == 21 && out.ids.height_method.string_offsets == 22,
{
    let n = features.len();
    let ghost feats = features@;
    let pos_count = positions.len();
    let pos_compressed = encode_vertex_buffer(positions);
    let nrm_compressed = encode_vertex_buffer(normals);
    let mut bin: Vec<u8> = vec![0u8; PREFIX_GAP];
    let mut views: Vec<BufferView> = Vec::new();
    let ghost idx_enc = meshopt_index_encoding(indices@, pos_count);
    proof { lemma_texts_upto_mono(feats, 0, 6); }
    assert(views_tight(bin@, views@)) by {
        reveal(views_tight);
    }
    assert(views_laid_out(bin@, views@, Seq::empty()));
    let ghost p0: Seq<Seq<u8>> = Seq::empty();
    let ghost pos = pos_compressed@;
    let ghost nrm = nrm_compressed@;
    let ghost fids = feature_ids@;
    let ghost n_idx = indices@.len();
    let virtual_total = pack_geometry(
        &mut bin, &mut views, Ghost(p0), pos_compressed, nrm_compressed, pos_count, indices, feature_ids);
    let ghost p1 = seq![pos, nrm, idx_enc, le16s(fids)];
    let ghost b1 = bin@;
    let ghost v1 = views@;
    let float_ids = pack_numeric_columns(&mut bin, &mut views, Ghost(p1), features);
    let ghost v2 = views@;
    let ghost p2 = p1 + seq![
        le64s(feature_id_column(feats)),
        le32s(float_column(feats, 0)), le32s(float_column(feats, 1)), le32s(float_column(feats, 2)),
        le32s(float_column(feats, 3)), le32s(float_column(feats, 4)),
        le16s(num_floors_column(feats))];
    let string_bvs = pack_string_columns(&mut bin, &mut views, Ghost(p2), features);
    let ghost expected = glb_payloads(pos, nrm, idx_enc, fids, feats);
    let ghost p3 = p2 + Seq::new(12, |k: int| if k % 2 == 0 {
        concat_bytes(text_column(feats, k / 2))
    } else {
        le32s(string_offsets(text_column(feats, k / 2)))
    });
    assert(p3 =~= expected);
    assert forall|k: int| 3 <= k < views@.len() implies (#[trigger] views@[k]).buffer == BUFFER_REAL
        && views@[k].meshopt is None && views@[k].byte_stride is None
        && views@[k].target == (if k == 3 { Some(TARGET_ARRAY_BUFFER) } else { None::<u32> }) by {
        if k < 11 {
            assert(views@[k] == views@.subrange(0, 11)[k]);
            assert(views@[k] == v2[k]);
            if k < 4 {
                assert(v2[k] == v2.subrange(0, 4)[k]);
                assert(v2[k] == v1[k]);
            }
        }
    }
    assert(views@[4] == v2[4]) by {
        assert(views@[4] == views@.subrange(0, 11)[4]);
    }
    assert(views@[0] == v1[0] && views@[1] == v1[1] && views@[2] == v1[2]) by {
        assert(views@[0] == views@.subrange(0, 11)[0] && views@[1] == views@.subrange(0, 11)[1] && views@[2] == views@.subrange(0, 11)[2]);
        assert(v2[0] == v2.subrange(0, 4)[0] && v2[1] == v2.subrange(0, 4)[1] && v2[2] == v2.subrange(0, 4)[2]);
    }
    let ids_out = GlbViewIds {
        pos: 0,
        nrm: 1,
        idx: 2,
        fid: 3,
        feature_id: 4,
        height: float_ids[0],
        source_height: float_ids[1],
        min_height: float_ids[2],
        roof_height: float_ids[3],
        ground_elev: float_ids[4],
        num_floors: 10,
        gers_id: StringBv { values: string_bvs[0].values, string_offsets: string_bvs[0].string_offsets },
        name: StringBv { values: string_bvs[1].values, string_offsets: string_bvs[1].string_offsets },
        subtype: StringBv { values: string_bvs[2].values, string_offsets: string_bvs[2].string_offsets },
        class: StringBv { values: string_bvs[3].values, string_offsets: string_bvs[3].string_offsets },
        roof_shape: StringBv { values: string_bvs[4].values, string_offsets: string_bvs[4].string_offsets },
        height_method: StringBv { values: string_bvs[5].values, string_offsets: string_bvs[5].string_offsets },
    };
    GlbBin { bin, views, virtual_total, ids: ids_out }
}

/// Views 0-3: compressed positions, normals and indices, then the plain
/// per-vertex feature-id view. Returns the virtual buffer's total size.
fn pack_geometry(
    bin: &mut Vec<u8>,
    views: &mut Vec<BufferView>,
    Ghost(p0): Ghost<Seq<Seq<u8>>>,
    pos_compressed: Vec<u8>,
    nrm_compressed: Vec<u8>,
    pos_count: usize,
    indices: Vec<u32>,
    feature_ids: Vec<u16>,
) -> (virtual_total: usize)
    requires
        old(bin)@.len() == PREFIX_GAP,
        old(views)@.len() == 0,
        p0.len() == 0,
        views_laid_out(old(bin)@, old(views)@, p0),
        indices@.len() % 3 == 0,
        PREFIX_GAP + pos_compressed@.len() + nrm_compressed@.len() + 6 * indices@.len() + 17
            + 2 * feature_ids@.len() + 40 <= usize::MAX,
        24 * pos_count + 4 * indices@.len() + 8 <= usize::MAX,
    ensures
        views_laid_out(final(bin)@, final(views)@, seq![pos_compressed@, nrm_compressed@,
            meshopt_index_encoding(indices@, pos_count), le16s(feature_ids@)]),
        final(bin)@.len() % 4 == 0,
        final(bin)@.len() >= PREFIX_GAP,
        final(bin)@.len() <= PREFIX_GAP + pos_compressed@.len() + nrm_compressed@.len() + 6 * indices@.len()
            + 17 + 2 * feature_ids@.len() + 40,
        virtual_total == 24 * pos_count + 4 * indices@.len(),
        final(views)@[0].buffer == BUFFER_VIRTUAL && final(views)@[0].byte_offset == 0
            && final(views)@[0].byte_length == 12 * pos_count && final(views)@[0].byte_stride == Some(12usize)
            && final(views)@[0].target == Some(TARGET_ARRAY_BUFFER)
            && (final(views)@[0].meshopt matches Some(m) && m.count == pos_count && m.byte_stride == 12 && !m.triangles),
        final(views)@[1].buffer == BUFFER_VIRTUAL && final(views)@[1].byte_offset == 12 * pos_count
            && final(views)@[1].byte_length == 12 * pos_count && final(views)@[1].byte_stride == Some(12usize)
            && final(views)@[1].target == Some(TARGET_ARRAY_BUFFER)
            && (final(views)@[1].meshopt matches Some(m) && m.count == pos_count && m.byte_stride == 12 && !m.triangles),
        final(views)@[2].buffer == BUFFER_VIRTUAL && final(views)@[2].byte_offset == 24 * pos_count
            && final(views)@[2].byte_length == 4 * indices@.len() && final(views)@[2].byte_stride is None
            && final(views)@[2].target == Some(TARGET_ELEMENT_ARRAY_BUFFER)
            && (final(views)@[2].meshopt matches Some(m) && m.count == indices@.len() && m.byte_stride == 4 && m.triangles),
        final(views)@[3] == plain_view(stored_offset(final(views)@[3]), 2 * feature_ids@.len() as int, Some(TARGET_ARRAY_BUFFER)),
{
    let mut virtual_offset: usize = 0;
    let ghost mut payloads = p0;
    let ghost idx_enc = meshopt_index_encoding(indices@, pos_count);
    let ghost pos = pos_compressed@;
    let ghost nrm = nrm_compressed@;
    let ghost b = bin@;
    let ghost vs = views@;
    proof { lemma_padded_with_len(b, 1, 0u8); }
    push_compressed_attributes(
        bin, views, &mut virtual_offset, pos_compressed, 12, pos_count, Some(TARGET_ARRAY_BUFFER));
    proof {
        lemma_append_view(b, vs, payloads, 1, pos, views@.last());
        payloads = payloads.push(pos);
    }
    let ghost b = bin@;
    let ghost vs = views@;
    proof { lemma_padded_with_len(b, 1, 0u8); }
    push_compressed_attributes(
        bin, views, &mut virtual_offset, nrm_compressed, 12, pos_count, Some(TARGET_ARRAY_BUFFER));
    proof {
        lemma_append_view(b, vs, payloads, 1, nrm, views@.last());
        payloads = payloads.push(nrm);
    }
    let idx_count = indices.len();
    let encoded = encode_index_buffer(indices.as_slice(), pos_count);
    let ghost b = bin@;
    let ghost vs = views@;
    proof { lemma_padded_with_len(b, 1, 0u8); }
    push_compressed_indices(
        bin, views, &mut virtual_offset, encoded, idx_count, Some(TARGET_ELEMENT_ARRAY_BUFFER));
    proof {
        lemma_append_view(b, vs, payloads, 1, idx_enc, views@.last());
        payloads = payloads.push(idx_enc);
    }
    let ghost b = bin@;
    let ghost vs = views@;
    proof { lemma_le16s_len(feature_ids@); lemma_padded_with_len(b, 2, 0u8); }
    push_u16_view(bin, views, Some(TARGET_ARRAY_BUFFER), 2, feature_ids.as_slice());
    proof {
        lemma_append_view(b, vs, payloads, 2, le16s(feature_ids@), views@.last());
        payloads = payloads.push(le16s(feature_ids@));
    }
    assert(payloads =~= seq![pos, nrm, idx_enc, le16s(feature_ids@)]);
    virtual_offset
}

/// Views 4-10: feature ids (u64), the five float columns (as `f32` bit
/// patterns) and the floor counts (u16). Returns the float views' indices.
fn pack_numeric_columns(
    bin: &mut Vec<u8>,
    views: &mut Vec<BufferView>,
    Ghost(p0): Ghost<Seq<Seq<u8>>>,
    features: &Vec<FeatureProps>,
) -> (float_ids: [usize; 5])
    requires
        old(views)@.len() == 4,
        views_laid_out(old(bin)@, old(views)@, p0),
        old(bin)@.len() % 4 == 0,
        old(bin)@.len() >= PREFIX_GAP,
        old(bin)@.len() + 32 * features@.len() + 100 <= usize::MAX,
    ensures
        views_laid_out(final(bin)@, final(views)@, p0 + seq![
            le64s(feature_id_column(features@)),
            le32s(float_column(features@, 0)), le32s(float_column(features@, 1)),
            le32s(float_column(features@, 2)), le32s(float_column(features@, 3)),
            le32s(float_column(features@, 4)),
            le16s(num_floors_column(features@))]),
        final(bin)@.len() % 4 == 0,
        final(bin)@.len() >= PREFIX_GAP,
        final(bin)@.len() <= old(bin)@.len() + 30 * features@.len() + 100,
        forall|k: int| 4 <= k < 11 ==> #[trigger] final(views)@[k] == plain_view(stored_offset(final(views)@[k]),
            stored_length(final(views)@[k]), None),
        forall|j: int| 0 <= j < 5 ==> #[trigger] float_ids[j] == 5 + j,
        final(views)@.subrange(0, 4) == old(views)@,
        stored_offset(final(views)@[4]) % 8 == 0,
{
    let n = features.len();
    let ghost feats = features@;
    let ghost mut payloads = p0;
    let ghost b_start = bin@;
    let ghost v_start = views@;
    let mut ids: Vec<u64> = Vec::with_capacity(n);
    for i in 0..n
        invariant
            n == features@.len(),
            ids@ =~= Seq::new(i as nat, |k: int| match features@[k].feature_id { Some(id) => id, None => 0u64 }),
    {
        let v = match features[i].feature_id {
            Some(id) => id,
            None => 0,
        };
        ids.push(v);
    }
    assert(ids@ =~= feature_id_column(feats));
    let ghost b = bin@;
    let ghost vs = views@;
    proof { lemma_le64s_len(ids@); lemma_padded_with_len(b, 8, 0u8); }
    push_u64_view(bin, views, None, 8, ids.as_slice());
    proof {
        lemma_append_view(b, vs, payloads, 8, le64s(ids@), views@.last());
        payloads = payloads.push(le64s(ids@));
        assert(views@.subrange(0, 4) =~= vs);
    }
    let ghost id_view = views@[4];
    assert(stored_offset(id_view) % 8 == 0);
    let mut float_ids: [usize; 5] = [0; 5];
    for c in 0..5usize
        invariant
            n == features@.len(),
            feats == features@,
            bin@.len() >= PREFIX_GAP,
            bin@.len() % 4 == 0,
            views_laid_out(bin@, views@, payloads),
            payloads.len() == 5 + c,
            views@.len() == 5 + c,
            payloads.subrange(0, 5) == p0.push(le64s(feature_id_column(feats))),
            forall|j: int| 0 <= j < c ==> #[trigger] payloads[5 + j] == le32s(float_column(feats, j)),
            forall|j: int| 0 <= j < c ==> #[trigger] float_ids[j] == 5 + j,
            views@.subrange(0, 4) == v_start,
            views@[4] == id_view,
            stored_offset(id_view) % 8 == 0,
            forall|k: int| 4 <= k < 5 + c ==> #[trigger] views@[k] == plain_view(stored_offset(views@[k]),
                stored_length(views@[k]), None),
            bin@.len() + (4 * n + 11) * (5 - c) <= b_start.len() + 8 * n + 11 + (4 * n + 11) * 5,
            b_start.len() + 32 * n + 100 <= usize::MAX,
    {
        assert((4 * n + 11) * (5 - c) == (4 * n + 11) + (4 * n + 11) * (4 - c)) by (nonlinear_arith)
            requires c < 5;
        let col = float_column_of(features, c);
        let ghost b = bin@;
        let ghost vs = views@;
        proof { lemma_le32s_len(col@); lemma_padded_with_len(b, 4, 0u8); }
        let v = push_u32_view(bin, views, None, 4, col.as_slice());
        proof {
            lemma_append_view(b, vs, payloads, 4, le32s(col@), views@.last());
            payloads = payloads.push(le32s(col@));
            assert(views@.subrange(0, 4) =~= vs.subrange(0, 4));
            assert(views@[4] == vs[4]);
        }
        float_ids[c] = v;
    }
    let mut floors: Vec<u16> = Vec::with_capacity(n);
    for i in 0..n
        invariant
            n == features@.len(),
            floors@ =~= Seq::new(i as nat, |k: int| features@[k].num_floors),
    {
        floors.push(features[i].num_floors);
    }
    assert(floors@ =~= num_floors_column(feats));
    let ghost b = bin@;
    let ghost vs = views@;
    let ghost pl = payloads;
    proof { lemma_le16s_len(floors@); lemma_padded_with_len(b, 4, 0u8); }
    push_u16_view(bin, views, None, 4, floors.as_slice());
    proof {
        lemma_append_view(b, vs, payloads, 4, le16s(floors@), views@.last());
        payloads = payloads.push(le16s(floors@));
        assert(views@.subrange(0, 4) =~= vs.subrange(0, 4));
        assert(views@[4] == vs[4]);
    }
    assert(payloads =~= p0 + seq![
        le64s(feature_id_column(feats)),
        le32s(float_column(feats, 0)), le32s(float_column(feats, 1)),
        le32s(float_column(feats, 2)), le32s(float_column(feats, 3)),
        le32s(float_column(feats, 4)),
        le16s(num_floors_column(feats))]) by {
        let expect = p0 + seq![
            le64s(feature_id_column(feats)),
            le32s(float_column(feats, 0)), le32s(float_column(feats, 1)),
            le32s(float_column(feats, 2)), le32s(float_column(feats, 3)),
            le32s(float_column(feats, 4)),
            le16s(num_floors_column(feats))];
        assert forall|k: int| 0 <= k < payloads.len() implies payloads[k] == expect[k] by {
            if k < 5 {
                assert(payloads[k] == pl[k]);
                assert(pl[k] == pl.subrange(0, 5)[k]);
            } else if k < 10 {
                assert(payloads[k] == pl[k]);
                assert(pl[5 + (k - 5)] == le32s(float_column(feats, k - 5)));
            }
        }
    }
    float_ids
}

/// Views 11-22: values and offsets for each of the six string columns.
fn pack_string_columns(
    bin: &mut Vec<u8>,
    views: &mut Vec<BufferView>,
    Ghost(p0): Ghost<Seq<Seq<u8>>>,
    features: &Vec<FeatureProps>,
) -> (string_bvs: Vec<StringBv>)
    requires
        old(views)@.len() == 11,
        views_laid_out(old(bin)@, old(views)@, p0),
        old(bin)@.len() % 4 == 0,
        old(bin)@.len() >= PREFIX_GAP,
        old(bin)@.len() + texts_upto(features@, 6) + (4 * features@.len() + 30) * 6 <= usize::MAX,
    ensures
        views_laid_out(final(bin)@, final(views)@, p0 + Seq::new(12, |k: int| if k % 2 == 0 {
            concat_bytes(text_column(features@, k / 2))
        } else {
            le32s(string_offsets(text_column(features@, k / 2)))
        })),
        final(bin)@.len() % 4 == 0,
        final(bin)@.len() >= PREFIX_GAP,
        string_bvs@.len() == 6,
        forall|j: int| 0 <= j < 6 ==> (#[trigger] string_bvs@[j]).values == 11 + 2 * j
            && string_bvs@[j].string_offsets == 12 + 2 * j,
        forall|k: int| 11 <= k < 23 ==> #[trigger] final(views)@[k] == plain_view(stored_offset(final(views)@[k]),
            stored_length(final(views)@[k]), None),
        final(views)@.subrange(0, 11) == old(views)@,
{
    let n = features.len();
    let ghost feats = features@;
    let ghost mut payloads = p0;
    let ghost b_start = bin@;
    let ghost lim: int = b_start.len() + texts_upto(feats, 6) + (4 * n + 30) * 6;
    let ghost v_start = views@;
    proof { lemma_texts_upto_mono(feats, 0, 6); }
    let mut string_bvs: Vec<StringBv> = Vec::with_capacity(6);
    for c in 0..6usize
        invariant
            n == features@.len(),
            feats == features@,
            bin@.len() >= PREFIX_GAP,
            bin@.len() % 4 == 0,
            views_laid_out(bin@, views@, payloads),
            payloads.len() == 11 + 2 * c,
            views@.len() == 11 + 2 * c,
            string_bvs@.len() == c,
            payloads.subrange(0, 11) == p0,
            views@.subrange(0, 11) == v_start,
            forall|j: int| 0 <= j < 2 * c ==> #[trigger] payloads[11 + j] == (if j % 2 == 0 {
                concat_bytes(text_column(feats, j / 2))
            } else {
                le32s(string_offsets(text_column(feats, j / 2)))
            }),
            forall|j: int| 0 <= j < c ==> (#[trigger] string_bvs@[j]).values == 11 + 2 * j
                && string_bvs@[j].string_offsets == 12 + 2 * j,
            forall|k: int| 11 <= k < 11 + 2 * c ==> #[trigger] views@[k] == plain_view(stored_offset(views@[k]),
                stored_length(views@[k]), None),
            bin@.len() + (texts_upto(feats, 6) - texts_upto(feats, c as int)) + (4 * n + 30) * (6 - c) <= lim,
            lim <= usize::MAX,
    {
        assert((4 * n + 30) * (6 - c) == (4 * n + 30) + (4 * n + 30) * (5 - c)) by (nonlinear_arith)
            requires c < 6;
        proof {
            lemma_texts_upto_mono(feats, c as int, 6);
            lemma_texts_upto_mono(feats, c as int + 1, 6);
        }
        assert(texts_upto(feats, c as int + 1) == texts_upto(feats, c as int) + concat_bytes(text_column(feats, c as int)).len());
        let texts = texts_of(features, c);
        proof { lemma_text_column_agrees(texts@, feats, c as int); }
        let ghost ts = text_column(feats, c as int);
        let ghost b = bin@;
        let ghost vs = views@;
        proof { lemma_padded_with_len(b, 4, 0u8); }
        let sbv = push_string_column(bin, views, &texts);
        proof {
            let b1 = appended(b, 4, concat_bytes(ts));
            lemma_append_view(b, vs, payloads, 4, concat_bytes(ts), views@[vs.len() as int]);
            lemma_padded_with_len(b1, 4, 0u8);
            lemma_le32s_len(string_offsets(ts));
            lemma_append_view(b1, vs.push(views@[vs.len() as int]), payloads.push(concat_bytes(ts)), 4,
                le32s(string_offsets(ts)), views@[vs.len() as int + 1]);
            assert(views@ =~= vs.push(views@[vs.len() as int]).push(views@[vs.len() as int + 1]));
            payloads = payloads.push(concat_bytes(ts)).push(le32s(string_offsets(ts)));
            assert(views@.subrange(0, 11) =~= vs.subrange(0, 11));
        }
        string_bvs.push(sbv);
    }
    let ghost tail = Seq::new(12, |k: int| if k % 2 == 0 {
        concat_bytes(text_column(feats, k / 2))
    } else {
        le32s(string_offsets(text_column(feats, k / 2)))
    });
    assert(payloads =~= p0 + tail) by {
        assert forall|k: int| 0 <= k < payloads.len() implies payloads[k] == (p0 + tail)[k] by {
            if k < 11 {
                assert(payloads[k] == payloads.subrange(0, 11)[k]);
            } else {
                assert(payloads[11 + (k - 11)] == tail[k - 11]);
            }
        }
    }
    string_bvs
}

proof fn lemma_texts_upto_mono(feats: Seq<FeatureProps>, c: int, d: int)
    requires 0 <= c <= d,
    ensures 0 <= texts_upto(feats, c) <= texts_upto(feats, d),
    decreases d,
{
    if d > c {
        lemma_texts_upto_mono(feats, c, d - 1);
    } else if c > 0 {
        lemma_texts_upto_mono(feats, c - 1, c - 1);
    }
}

/// Text bytes of string columns `0..c`.
pub open spec fn texts_upto(feats: Seq<FeatureProps>, c: int) -> int
    decreases c,
{
    if c <= 0 { 0 } else { texts_upto(feats, c - 1) + concat_bytes(text_column(feats, c - 1)).len() }
}

} // verus!
