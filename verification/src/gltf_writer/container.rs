//! The binary containers of a tile: GLB, and B3DM around it.

use crate::bytes::{pad_to, push_all, push_u32_le};
use crate::json::{json_field, json_object, json_texts, json_u64, no_fields, put, write_json, Json};
use vstd::prelude::*;

verus! {

broadcast use crate::bytes::lemma_le_bytes_len;

/// Four bytes for a number, least significant first; a number that needs more
/// bits loses the high ones.
pub open spec fn word_of(n: int) -> Seq<u8> {
    crate::bytes::le_bytes(n as nat, 4)
}

/// The four characters "glTF".
pub open spec fn glb_magic() -> Seq<u8> {
    seq![0x67u8, 0x6cu8, 0x54u8, 0x46u8]
}

/// The four characters "JSON".
pub open spec fn json_tag() -> Seq<u8> {
    seq![0x4au8, 0x53u8, 0x4fu8, 0x4eu8]
}

/// The three characters "BIN" and a zero.
pub open spec fn bin_tag() -> Seq<u8> {
    seq![0x42u8, 0x49u8, 0x4eu8, 0u8]
}

/// The four characters "b3dm".
pub open spec fn b3dm_magic() -> Seq<u8> {
    seq![0x62u8, 0x33u8, 0x64u8, 0x6du8]
}

/// A GLB file: a header, the JSON document padded with blanks, and the buffer
/// padded with zeros.
pub open spec fn glb_of(json: Seq<u8>, bin: Seq<u8>) -> Seq<u8> {
    let j = crate::bytes::padded(json, 0, 4, 0x20);
    let b = crate::bytes::padded(bin, 0, 4, 0);
    glb_magic() + word_of(2) + word_of((28 + j.len() + b.len()) as int) + word_of(j.len() as int)
        + json_tag() + j + word_of(b.len() as int) + bin_tag() + b
}

/// A B3DM file: a header, the feature table and the batch table padded with
/// blanks to multiples of eight bytes in the file, and the GLB file.
pub open spec fn b3dm_of(features: Seq<u8>, batches: Seq<u8>, glb: Seq<u8>) -> Seq<u8> {
    let f = crate::bytes::padded(features, 28, 8, 0x20);
    let b = crate::bytes::padded(batches, 28int + f.len(), 8, 0x20);
    b3dm_magic() + word_of(1) + word_of((28 + f.len() + b.len() + glb.len()) as int) + word_of(
        f.len() as int,
    ) + word_of(0) + word_of(b.len() as int) + word_of(0) + f + b + glb
}

/// Only the low 32 bits of a number count.
proof fn lemma_word_of_low(n: nat)
    ensures
        crate::bytes::le_bytes(n % 0x1_0000_0000, 4) == crate::bytes::le_bytes(n, 4),
{
    reveal_with_fuel(crate::bytes::le_bytes, 5);
    let m = n % 0x1_0000_0000;
    assert(m % 256 == n % 256);
    assert(m / 256 % 256 == n / 256 % 256);
    assert(m / 256 / 256 % 256 == n / 256 / 256 % 256);
    assert(m / 256 / 256 / 256 % 256 == n / 256 / 256 / 256 % 256);
}

/// Appends the low 32 bits of a number.
fn push_word(out: &mut Vec<u8>, n: u128)
    ensures
        final(out)@ == old(out)@ + word_of(n as int),
{
    proof {
        lemma_word_of_low(n as nat);
    }
    push_u32_le(out, (n % 0x1_0000_0000) as u32);
}

/// Appends four bytes.
fn push_four(out: &mut Vec<u8>, a: u8, b: u8, c: u8, d: u8)
    ensures
        final(out)@ == old(out)@ + seq![a, b, c, d],
{
    let ghost before = out@;
    out.push(a);
    out.push(b);
    out.push(c);
    out.push(d);
    assert(out@ =~= before + seq![a, b, c, d]);
}

/// Packs a document and a buffer as a GLB file.
pub fn pack_glb(mut json: Vec<u8>, mut bin: Vec<u8>) -> (r: Vec<u8>)
    ensures
        r@ == glb_of(json@, bin@),
{
    let ghost json0 = json@;
    let ghost bin0 = bin@;
    pad_to(&mut json, 0, 4, 0x20);
    pad_to(&mut bin, 0, 4, 0);
    let mut out: Vec<u8> = Vec::new();
    push_four(&mut out, 0x67, 0x6c, 0x54, 0x46);
    push_word(&mut out, 2);
    push_word(&mut out, 28 + json.len() as u128 + bin.len() as u128);
    push_word(&mut out, json.len() as u128);
    push_four(&mut out, 0x4a, 0x53, 0x4f, 0x4e);
    push_all(&mut out, json.as_slice());
    push_word(&mut out, bin.len() as u128);
    push_four(&mut out, 0x42, 0x49, 0x4e, 0);
    push_all(&mut out, bin.as_slice());
    assert(out@ =~= glb_of(json0, bin0));
    out
}

/// Packs a GLB file with its tables as a B3DM file.
pub fn pack_b3dm(mut features: Vec<u8>, mut batches: Vec<u8>, glb: &[u8]) -> (r: Vec<u8>)
    ensures
        r@ == b3dm_of(features@, batches@, glb@),
{
    let ghost features0 = features@;
    let ghost batches0 = batches@;
    pad_to(&mut features, 28, 8, 0x20);
    proof {
        crate::bytes::lemma_padding(28int + features0.len(), 8);
        assert((28 + features@.len()) % 8 == 0);
        assert((28 + features@.len() + batches0.len()) % 8 == (batches0.len()) % 8);
    }
    pad_to(&mut batches, 0, 8, 0x20);
    let total: u128 = 28 + features.len() as u128 + batches.len() as u128 + glb.len() as u128;
    let mut out: Vec<u8> = Vec::new();
    push_four(&mut out, 0x62, 0x33, 0x64, 0x6d);
    push_word(&mut out, 1);
    push_word(&mut out, total);
    push_word(&mut out, features.len() as u128);
    push_word(&mut out, 0);
    push_word(&mut out, batches.len() as u128);
    push_word(&mut out, 0);
    push_all(&mut out, features.as_slice());
    push_all(&mut out, batches.as_slice());
    push_all(&mut out, glb);
    assert(out@ =~= b3dm_of(features0, batches0, glb@));
    out
}

/// The feature table: how many surfaces there are.
pub open spec fn feature_table(count: int) -> Json {
    Json::Obj(map!["BATCH_LENGTH"@ => Json::Int(count)])
}

/// The batch table: what is known of each surface.
pub open spec fn batch_table(
    ids: Seq<Seq<char>>,
    types: Seq<Seq<char>>,
    surface_types: Seq<Seq<char>>,
) -> Json {
    Json::Obj(map![
        "BuildingId"@ => crate::json::texts_json(ids),
        "CityObjectType"@ => crate::json::texts_json(types),
        "SurfaceType"@ => crate::json::texts_json(surface_types),
    ])
}

/// Wraps a GLB file in a B3DM file.
pub fn wrap_b3dm(
    glb: &[u8],
    building_ids: &[String],
    city_object_types: &[String],
    surface_types: &[String],
) -> (r: Vec<u8>)
    ensures
        r@ == b3dm_of(
            crate::json::json_text(feature_table(building_ids@.len() as int)),
            crate::json::json_text(
                batch_table(
                    crate::json::texts_of(building_ids@),
                    crate::json::texts_of(city_object_types@),
                    crate::json::texts_of(surface_types@),
                ),
            ),
            glb@,
        ),
{
    let features = write_json(&json_field("BATCH_LENGTH", json_u64(building_ids.len() as u64)));
    let mut table = no_fields();
    put(&mut table, "BuildingId", json_texts(building_ids));
    put(&mut table, "CityObjectType", json_texts(city_object_types));
    put(&mut table, "SurfaceType", json_texts(surface_types));
    let batches = write_json(&json_object(table));
    pack_b3dm(features, batches, glb)
}

// -------------------------------------------------------------------- laws

/// The number in four bytes of a file.
pub open spec fn word_at(s: Seq<u8>, at: int) -> nat {
    crate::bytes::le_value(s.subrange(at, at + 4))
}

proof fn lemma_word_at(s: Seq<u8>, at: int, n: int)
    requires
        0 <= at,
        at + 4 <= s.len(),
        s.subrange(at, at + 4) == word_of(n),
        0 <= n < 0x1_0000_0000,
    ensures
        word_at(s, at) == n,
{
    crate::bytes::lemma_le_round_trip(n as nat, 4);
    reveal_with_fuel(crate::bytes::byte_range, 5);
    assert(crate::bytes::byte_range(4) == 0x1_0000_0000);
}

/// A GLB file tells its own length and the lengths of its two parts, which are
/// multiples of four; the document and the buffer can be read back.
pub proof fn law_glb_can_be_taken_apart(json: Seq<u8>, bin: Seq<u8>)
    requires
        glb_of(json, bin).len() < 0x1_0000_0000,
    ensures
        ({
            let glb = glb_of(json, bin);
            let j = word_at(glb, 12) as int;
            let b = word_at(glb, 20 + j) as int;
            &&& glb.take(4) == glb_magic()
            &&& word_at(glb, 4) == 2
            &&& word_at(glb, 8) == glb.len()
            &&& j % 4 == 0
            &&& b % 4 == 0
            &&& json.len() <= j
            &&& bin.len() <= b
            &&& glb.len() == 28 + j + b
            &&& glb.subrange(20, 20int + json.len()) == json
            &&& glb.subrange(28 + j, 28 + j + bin.len()) == bin
        }),
{
    let glb = glb_of(json, bin);
    let j = crate::bytes::padded(json, 0, 4, 0x20);
    let b = crate::bytes::padded(bin, 0, 4, 0);
    crate::bytes::lemma_padding(json.len() as int, 4);
    crate::bytes::lemma_padding(bin.len() as int, 4);
    assert(glb.take(4) =~= glb_magic());
    assert(glb.subrange(4, 8) =~= word_of(2));
    assert(glb.subrange(8, 12) =~= word_of((28int + j.len() + b.len()) as int));
    assert(glb.subrange(12, 16) =~= word_of(j.len() as int));
    assert(glb.subrange(20int + j.len(), 24int + j.len()) =~= word_of(b.len() as int));
    lemma_word_at(glb, 4, 2);
    lemma_word_at(glb, 8, (28 + j.len() + b.len()) as int);
    lemma_word_at(glb, 12, j.len() as int);
    lemma_word_at(glb, 20int + j.len(), b.len() as int);
    assert(glb.subrange(20, 20int + json.len()) =~= json);
    assert(glb.subrange(28int + j.len(), 28int + j.len() + bin.len()) =~= bin);
}

/// A B3DM file tells its own length and the lengths of its two tables. What
/// follows the tables is the GLB file. The second table and the GLB file begin
/// at multiples of eight.
pub proof fn law_b3dm_gives_back_its_glb(features: Seq<u8>, batches: Seq<u8>, glb: Seq<u8>)
    requires
        b3dm_of(features, batches, glb).len() < 0x1_0000_0000,
    ensures
        ({
            let file = b3dm_of(features, batches, glb);
            let f = word_at(file, 12) as int;
            let b = word_at(file, 20) as int;
            &&& file.take(4) == b3dm_magic()
            &&& word_at(file, 4) == 1
            &&& word_at(file, 8) == file.len()
            &&& word_at(file, 16) == 0
            &&& word_at(file, 24) == 0
            &&& (28 + f) % 8 == 0
            &&& (28 + f + b) % 8 == 0
            &&& 28 + f + b <= file.len()
            &&& file.skip(28 + f + b) == glb
            &&& file.subrange(28, 28int + features.len()) == features
            &&& file.subrange(28 + f, 28 + f + batches.len()) == batches
        }),
{
    let file = b3dm_of(features, batches, glb);
    let f = crate::bytes::padded(features, 28, 8, 0x20);
    let b = crate::bytes::padded(batches, 28int + f.len(), 8, 0x20);
    crate::bytes::lemma_padding(28int + features.len(), 8);
    crate::bytes::lemma_padding((28 + f.len() + batches.len()) as int, 8);
    assert(file.take(4) =~= b3dm_magic());
    assert(file.subrange(4, 8) =~= word_of(1));
    assert(file.subrange(8, 12) =~= word_of((28int + f.len() + b.len() + glb.len()) as int));
    assert(file.subrange(12, 16) =~= word_of(f.len() as int));
    assert(file.subrange(16, 20) =~= word_of(0));
    assert(file.subrange(20, 24) =~= word_of(b.len() as int));
    assert(file.subrange(24, 28) =~= word_of(0));
    lemma_word_at(file, 4, 1);
    lemma_word_at(file, 8, (28 + f.len() + b.len() + glb.len()) as int);
    lemma_word_at(file, 12, f.len() as int);
    lemma_word_at(file, 16, 0);
    lemma_word_at(file, 20, b.len() as int);
    lemma_word_at(file, 24, 0);
    assert(file.skip((28 + f.len() + b.len()) as int) =~= glb);
    assert(file.subrange(28, 28int + features.len()) =~= features);
    assert(file.subrange(28int + f.len(), 28int + f.len() + batches.len()) =~= batches);
}

/// The two parts of a GLB file have their tags, "JSON" and "BIN", after their
/// lengths.
pub proof fn law_glb_parts_are_tagged(json: Seq<u8>, bin: Seq<u8>)
    requires
        glb_of(json, bin).len() < 0x1_0000_0000,
    ensures
        ({
            let glb = glb_of(json, bin);
            let j = word_at(glb, 12) as int;
            &&& glb.subrange(16, 20) == seq![0x4au8, 0x53u8, 0x4fu8, 0x4eu8]
            &&& glb.subrange(24 + j, 28 + j) == seq![0x42u8, 0x49u8, 0x4eu8, 0u8]
        }),
{
    let glb = glb_of(json, bin);
    law_glb_can_be_taken_apart(json, bin);
    let padded = crate::bytes::padded(json, 0, 4, 0x20);
    assert(glb.subrange(12, 16) =~= word_of(padded.len() as int));
    lemma_word_at(glb, 12, padded.len() as int);
    assert(glb.subrange(16, 20) =~= json_tag());
    assert(glb.subrange(24int + padded.len(), 28int + padded.len()) =~= bin_tag());
}

/// The tables of a tile can be read: the number of surfaces, and of each surface
/// the id, the type of its object and its own type.
pub proof fn law_tables_can_be_read(
    ids: Seq<Seq<char>>,
    types: Seq<Seq<char>>,
    surface_types: Seq<Seq<char>>,
    i: int,
)
    requires
        0 <= i < ids.len(),
        ids.len() == types.len(),
        ids.len() == surface_types.len(),
    ensures
        feature_table(ids.len() as int) matches Json::Obj(features) && features["BATCH_LENGTH"@]
            == Json::Int(ids.len() as int),
        batch_table(ids, types, surface_types) matches Json::Obj(batches) && {
            &&& batches["BuildingId"@] matches Json::Arr(items) && items.len() == ids.len()
                && items[i] == Json::Str(ids[i])
            &&& batches["CityObjectType"@] matches Json::Arr(items) && items.len() == ids.len()
                && items[i] == Json::Str(types[i])
            &&& batches["SurfaceType"@] matches Json::Arr(items) && items.len() == ids.len()
                && items[i] == Json::Str(surface_types[i])
        },
{
    reveal_strlit("BuildingId");
    reveal_strlit("CityObjectType");
    reveal_strlit("SurfaceType");
    assert("BuildingId"@.len() == 10);
    assert("CityObjectType"@.len() == 14);
    assert("SurfaceType"@.len() == 11);
}

} // verus!
