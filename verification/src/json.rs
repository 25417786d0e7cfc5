//! JSON documents, built from `serde_json` values.
//!
//! A `serde_json::Value` is opaque to the proofs. What it holds is named by
//! [`json_of`], a tree of the kind [`Json`]; the functions here build values
//! and say which tree each of them holds.

use serde_json::Value;
use vstd::prelude::*;

verus! {

/// What a JSON value holds.
pub enum Json {
    Null,
    Bool(bool),
    /// A whole number.
    Int(int),
    /// A number that is not whole in its notation and has a value in single
    /// precision, by the bits that it has there.
    Float(u32),
    /// Any other number: a double, by its bits.
    Double(u64),
    Str(Seq<char>),
    Arr(Seq<Json>),
    Obj(Map<Seq<char>, Json>),
}

/// `serde_json::Value`.
#[verifier::external_type_specification]
#[verifier::external_body]
pub struct ExValue(serde_json::Value);

/// `serde_json::Map`, the fields of an object.
#[verifier::external_type_specification]
#[verifier::external_body]
#[verifier::reject_recursive_types(K)]
#[verifier::reject_recursive_types(V)]
pub struct ExFields<K, V>(serde_json::Map<K, V>);

/// What a `serde_json::Value` holds.
pub uninterp spec fn json_of(v: serde_json::Value) -> Json;

/// What a `serde_json::Map` holds.
pub uninterp spec fn fields_of(m: serde_json::Map<String, serde_json::Value>) -> Map<
    Seq<char>,
    Json,
>;

/// No fields.
pub open spec fn empty_fields() -> Map<Seq<char>, Json> {
    Map::empty()
}

/// What the values of a list hold.
pub open spec fn jsons_of(items: Seq<Value>) -> Seq<Json> {
    Seq::new(items.len(), |i: int| json_of(items[i]))
}

/// Adding a value to a list adds what it holds.
pub broadcast proof fn lemma_jsons_push(items: Seq<Value>, item: Value)
    ensures
        #[trigger] jsons_of(items.push(item)) == jsons_of(items).push(json_of(item)),
{
    assert(jsons_of(items.push(item)) =~= jsons_of(items).push(json_of(item)));
}

/// The constant `serde_json::Value::Null`. Claims that it holds null.
#[verifier::external_body]
pub(crate) fn json_null() -> (r: Value)
    ensures
        json_of(r) == Json::Null,
{
    Value::Null
}

/// Calls `serde_json::Value::from` on a truth value. Claims that the result
/// holds it.
#[verifier::external_body]
pub(crate) fn json_bool(b: bool) -> (r: Value)
    ensures
        json_of(r) == Json::Bool(b),
{
    Value::from(b)
}

/// Calls `serde_json::Value::from` on an unsigned number. Claims that the
/// result holds it.
#[verifier::external_body]
pub(crate) fn json_u64(n: u64) -> (r: Value)
    ensures
        json_of(r) == Json::Int(n as int),
{
    Value::from(n)
}

/// Calls `serde_json::Value::from` on a signed number. Claims that the result
/// holds it.
#[verifier::external_body]
pub(crate) fn json_i64(n: i64) -> (r: Value)
    ensures
        json_of(r) == Json::Int(n as int),
{
    Value::from(n)
}

/// What a single precision number becomes: itself where it is finite, else
/// null.
pub open spec fn float_json(bits: u32) -> Json {
    if crate::float_bits::f32_magnitude(bits) < 0x7f80_0000 {
        Json::Float(bits)
    } else {
        Json::Null
    }
}

/// Calls `serde_json::Value::from` on the single precision number with these
/// bits, read by `byteorder::ByteOrder`. Claims that the result holds the
/// number, or null where it is infinite or NaN.
#[verifier::external_body]
pub(crate) fn json_float(bits: u32) -> (r: Value)
    ensures
        json_of(r) == float_json(bits),
{
    let bytes = bits.to_le_bytes();
    Value::from(<byteorder::LittleEndian as byteorder::ByteOrder>::read_f32(&bytes))
}

/// Calls `serde_json::Value::from` on a text. Claims that the result holds it.
#[verifier::external_body]
pub(crate) fn json_str(s: &str) -> (r: Value)
    ensures
        json_of(r) == Json::Str(s@),
{
    Value::from(s)
}

/// Calls `serde_json::Value::from` on a list. Claims that the result is an
/// array of what the items hold.
#[verifier::external_body]
pub(crate) fn json_array(items: Vec<Value>) -> (r: Value)
    ensures
        json_of(r) == Json::Arr(jsons_of(items@)),
{
    Value::from(items)
}

/// Calls `serde_json::Map::new`. Claims that the result holds no fields.
#[verifier::external_body]
pub(crate) fn no_fields() -> (r: serde_json::Map<String, Value>)
    ensures
        fields_of(r) == empty_fields(),
{
    serde_json::Map::new()
}

/// Calls `serde_json::Map::insert`. Claims that the field is set, and that the
/// other fields stay as they are.
#[verifier::external_body]
pub(crate) fn put(fields: &mut serde_json::Map<String, Value>, name: &str, value: Value)
    ensures
        fields_of(*final(fields)) == fields_of(*old(fields)).insert(name@, json_of(value)),
{
    fields.insert(name.to_string(), value);
}

/// Calls `serde_json::Value::from` on some fields. Claims that the result is
/// an object with them.
#[verifier::external_body]
pub(crate) fn json_object(fields: serde_json::Map<String, Value>) -> (r: Value)
    ensures
        json_of(r) == Json::Obj(fields_of(fields)),
{
    Value::from(fields)
}

/// The text that `serde_json::to_vec` writes for a document.
pub uninterp spec fn json_text(doc: Json) -> Seq<u8>;

/// Calls `serde_json::to_vec`, which does not fail on a value. Claims that the
/// text is a function of what the value holds: fields are written in the order
/// of their names.
#[verifier::external_body]
pub(crate) fn write_json(value: &Value) -> (r: Vec<u8>)
    ensures
        r@ == json_text(json_of(*value)),
{
    serde_json::to_vec(value).unwrap()
}

/// The document that `serde_json::from_str` reads from a text, or nothing
/// where the text is not JSON.
pub uninterp spec fn parsed_json(text: Seq<char>) -> Option<Json>;

/// Calls `serde_json::from_str`. Claims that what is read, if anything, is a
/// function of the text.
#[verifier::external_body]
pub(crate) fn read_json(text: &str) -> (r: Option<Value>)
    ensures
        match r {
            Some(value) => parsed_json(text@) == Some(json_of(value)),
            None => parsed_json(text@) is None,
        },
{
    serde_json::from_str(text).ok()
}

/// The text in a field of an object.
pub open spec fn text_field(doc: Json, name: Seq<char>) -> Option<Seq<char>> {
    match doc {
        Json::Obj(fields) => if fields.contains_key(name) {
            match fields[name] {
                Json::Str(text) => Some(text),
                _ => None,
            }
        } else {
            None
        },
        _ => None,
    }
}

/// Calls `serde_json::Value::get`. Claims that the result is the field of that
/// name, and nothing where the value is no object or has no such field.
#[verifier::external_body]
fn get_field<'a>(value: &'a Value, name: &str) -> (r: Option<&'a Value>)
    ensures
        match (r, json_of(*value)) {
            (Some(field), Json::Obj(fields)) => fields.contains_key(name@) && json_of(*field)
                == fields[name@],
            (Some(_), _) => false,
            (None, Json::Obj(fields)) => !fields.contains_key(name@),
            (None, _) => true,
        },
{
    value.get(name)
}

/// Calls `serde_json::Value::as_str`. Claims that the result is the text, and
/// nothing where the value is no text.
#[verifier::external_body]
fn as_text(value: &Value) -> (r: Option<&str>)
    ensures
        match (r, json_of(*value)) {
            (Some(text), Json::Str(s)) => text@ == s,
            (Some(_), _) => false,
            (None, Json::Str(_)) => false,
            (None, _) => true,
        },
{
    value.as_str()
}

/// The text in a field of an object.
pub(crate) fn get_text<'a>(value: &'a Value, name: &str) -> (r: Option<&'a str>)
    ensures
        match r {
            Some(text) => text_field(json_of(*value), name@) == Some(text@),
            None => text_field(json_of(*value), name@) is None,
        },
{
    match get_field(value, name) {
        Some(field) => as_text(field),
        None => None,
    }
}

// ------------------------------------------------------------- glTF roots

/// `gltf::json::Root`, a glTF document.
#[verifier::external_type_specification]
#[verifier::external_body]
pub struct ExRoot(gltf::json::Root);

/// What a glTF root holds: the document that is written for it. Its raw parts,
/// the `extras`, stand in it as the texts that spell them.
pub uninterp spec fn root_of(root: gltf::json::Root) -> Json;

/// What the glTF root holds that `serde_json::from_value` reads from a
/// document, or nothing where the document is not that of a glTF root.
pub uninterp spec fn root_read(doc: Json) -> Option<Json>;

/// The text that `gltf::json::serialize::to_string` writes for a glTF root, or
/// nothing where it fails.
pub uninterp spec fn root_text(doc: Json) -> Option<Seq<char>>;

/// The materials of a glTF document.
pub open spec fn materials_in(doc: Json) -> Seq<Json> {
    match doc {
        Json::Obj(fields) => if fields.contains_key("materials"@) {
            match fields["materials"@] {
                Json::Arr(items) => items,
                _ => Seq::empty(),
            }
        } else {
            Seq::empty()
        },
        _ => Seq::empty(),
    }
}

/// The field of an object; null where there is none.
pub open spec fn field_of(doc: Json, name: Seq<char>) -> Json {
    match doc {
        Json::Obj(fields) => if fields.contains_key(name) {
            fields[name]
        } else {
            Json::Null
        },
        _ => Json::Null,
    }
}

/// An object with a field set.
pub open spec fn with_field(doc: Json, name: Seq<char>, value: Json) -> Json {
    match doc {
        Json::Obj(fields) => Json::Obj(fields.insert(name, value)),
        _ => doc,
    }
}

/// A glTF document whose first material has the given factors, single
/// precision numbers by their bits.
pub open spec fn with_factors(doc: Json, metallic: u32, roughness: u32) -> Json {
    let material = materials_in(doc)[0];
    let look = field_of(material, "pbrMetallicRoughness"@);
    let changed = with_field(
        with_field(look, "metallicFactor"@, float_json(metallic)),
        "roughnessFactor"@,
        float_json(roughness),
    );
    with_field(
        doc,
        "materials"@,
        Json::Arr(
            materials_in(doc).update(0, with_field(material, "pbrMetallicRoughness"@, changed)),
        ),
    )
}

/// Calls `serde_json::from_value` to read a glTF root. Claims that what the
/// root holds is a function of what the value holds, and that the root of an
/// object has as many materials as the object.
#[verifier::external_body]
pub(crate) fn read_root(value: Value) -> (r: Option<gltf::json::Root>)
    ensures
        match r {
            Some(root) => {
                &&& root_read(json_of(value)) == Some(root_of(root))
                &&& json_of(value) is Obj ==> materials_in(root_of(root)).len()
                    == materials_in(json_of(value)).len()
            },
            None => root_read(json_of(value)) is None,
        },
{
    serde_json::from_value(value).ok()
}

/// Sets `metallic_factor` and `roughness_factor` of the first material of a
/// `gltf::json::Root` to the single precision numbers with these bits, read by
/// `byteorder::ByteOrder`. Claims that nothing else changes, and that numbers
/// that are infinite or NaN are written as null.
#[verifier::external_body]
pub(crate) fn set_factors(root: &mut gltf::json::Root, metallic: u32, roughness: u32)
    requires
        materials_in(root_of(*old(root))).len() > 0,
    ensures
        root_of(*final(root)) == with_factors(root_of(*old(root)), metallic, roughness),
{
    let look = &mut root.materials[0].pbr_metallic_roughness;
    let m = <byteorder::LittleEndian as byteorder::ByteOrder>::read_f32(&metallic.to_le_bytes());
    let r = <byteorder::LittleEndian as byteorder::ByteOrder>::read_f32(&roughness.to_le_bytes());
    look.metallic_factor = gltf::json::material::StrengthFactor(m);
    look.roughness_factor = gltf::json::material::StrengthFactor(r);
}

/// Calls `gltf::json::serialize::to_string`. Claims that the text is a function
/// of what the root holds.
#[verifier::external_body]
pub(crate) fn write_root(root: &gltf::json::Root) -> (r: Option<String>)
    ensures
        match r {
            Some(text) => root_text(root_of(*root)) == Some(text@),
            None => root_text(root_of(*root)) is None,
        },
{
    gltf::json::serialize::to_string(root).ok()
}

// ------------------------------------------------------ shapes used often

/// An array with one item.
pub(crate) fn json_one(item: Value) -> (r: Value)
    ensures
        json_of(r) == Json::Arr(seq![json_of(item)]),
{
    let items: Vec<Value> = vec![item];
    proof {
        assert(jsons_of(items@) =~= seq![json_of(item)]);
    }
    json_array(items)
}

/// An object with one field.
pub(crate) fn json_field(name: &str, value: Value) -> (r: Value)
    ensures
        json_of(r) == Json::Obj(map![name@ => json_of(value)]),
{
    let mut fields = no_fields();
    put(&mut fields, name, value);
    json_object(fields)
}

/// The texts of a list.
pub open spec fn texts_of(items: Seq<String>) -> Seq<Seq<char>> {
    Seq::new(items.len(), |i: int| items[i]@)
}

/// An array of texts.
pub open spec fn texts_json(items: Seq<Seq<char>>) -> Json {
    Json::Arr(Seq::new(items.len(), |i: int| Json::Str(items[i])))
}

/// An array of texts.
pub(crate) fn json_texts(items: &[String]) -> (r: Value)
    ensures
        json_of(r) == texts_json(texts_of(items@)),
{
    let mut out: Vec<Value> = Vec::new();
    let n: usize = items.len();
    let mut i: usize = 0;
    while i < n
        invariant
            i <= n,
            n == items@.len(),
            jsons_of(out@) =~= Seq::new(i as nat, |k: int| Json::Str(items@[k]@)),
        decreases n - i,
    {
        let item = json_str(items[i].as_str());
        proof {
            lemma_jsons_push(out@, item);
        }
        out.push(item);
        i += 1;
    }
    proof {
        assert(jsons_of(out@) =~= Seq::new(n as nat, |k: int| Json::Str(texts_of(items@)[k])));
    }
    json_array(out)
}

} // verus!
