//! City features as they are read, and the object that a row is made of.

use crate::geoparquet_writer::attributes::{strings_contain, Attribute};
use crate::text::same_text;
use serde_json::Value;
use vstd::prelude::*;

verus! {

/// A surface as the semantics of a geometry describe it.
#[derive(Debug)]
pub struct SemanticSurface {
    pub surface_type: String,
    pub attributes: Vec<Attribute>,
}

/// What a geometry says of its surfaces.
#[derive(Debug)]
pub struct Semantics {
    pub surfaces: Option<Vec<SemanticSurface>>,
}

/// A geometry. Its boundaries are of the shape that its type asks for.
pub struct ExtendedGeometry {
    pub geometry_type: String,
    pub lod: String,
    pub boundaries: Value,
    pub semantics: Option<Semantics>,
}

/// A city object.
pub struct ExtendedCityObject {
    pub cotype: String,
    pub attributes: Option<Vec<Attribute>>,
    pub geometry: Option<Vec<ExtendedGeometry>>,
}

/// A city object under its id.
pub struct NamedObject {
    pub id: String,
    pub object: ExtendedCityObject,
}

/// A feature: city objects that share their vertices.
pub struct ExtendedCityJSONFeature {
    pub id: String,
    pub feature_type: String,
    pub objects: Vec<NamedObject>,
}

/// The name of a type in a file.
pub open spec fn type_in_file(name: Seq<char>) -> Seq<char> {
    if name == "GenericCityObject"@ {
        "+GenericCityObject"@
    } else {
        name
    }
}

/// Whether buildings are asked for: no types are named, or buildings are.
pub open spec fn wants_buildings(types: Option<&[String]>) -> bool {
    match types {
        None => true,
        Some(list) => crate::json::texts_of(list@).contains("Building"@),
    }
}

/// Whether an object is of a kind that rows are made of. Where buildings are
/// asked for, only buildings are.
pub open spec fn is_wanted(types: Option<&[String]>, cotype: Seq<char>) -> bool {
    if wants_buildings(types) {
        cotype == "Building"@
    } else {
        exists|i: int|
            0 <= i < types->0@.len() && type_in_file(#[trigger] types->0@[i]@) == cotype
    }
}

fn wants(types: Option<&[String]>, cotype: &str) -> (r: bool)
    ensures
        r == is_wanted(types, cotype@),
{
    let list = match types {
        None => {
            return same_text(cotype, "Building");
        },
        Some(list) => list,
    };
    if strings_contain("Building", list) {
        return same_text(cotype, "Building");
    }
    let n: usize = list.len();
    let mut i: usize = 0;
    while i < n
        invariant
            i <= n,
            n == list@.len(),
            types == Some(list),
            !wants_buildings(types),
            forall|k: int| 0 <= k < i ==> type_in_file(#[trigger] list@[k]@) != cotype@,
        decreases n - i,
    {
        let name = list[i].as_str();
        let matches = if same_text(name, "GenericCityObject") {
            same_text(cotype, "+GenericCityObject")
        } else {
            same_text(cotype, name)
        };
        if matches {
            assert(type_in_file(types->0@[i as int]@) == cotype@);
            return true;
        }
        i += 1;
    }
    false
}

/// The object of a feature that a row is made of: the first that is wanted.
pub fn find_main_object(objects: &[NamedObject], types: Option<&[String]>) -> (r: Option<usize>)
    ensures
        match r {
            Some(i) => {
                &&& i < objects@.len()
                &&& is_wanted(types, objects@[i as int].object.cotype@)
                &&& forall|k: int|
                    0 <= k < i ==> !is_wanted(types, (#[trigger] objects@[k]).object.cotype@)
            },
            None => forall|k: int|
                0 <= k < objects@.len() ==> !is_wanted(
                    types,
                    (#[trigger] objects@[k]).object.cotype@,
                ),
        },
{
    let n: usize = objects.len();
    let mut i: usize = 0;
    while i < n
        invariant
            i <= n,
            n == objects@.len(),
            forall|k: int|
                0 <= k < i ==> !is_wanted(types, (#[trigger] objects@[k]).object.cotype@),
        decreases n - i,
    {
        if wants(types, objects[i].object.cotype.as_str()) {
            return Some(i);
        }
        i += 1;
    }
    None
}

/// Whether `i` is the first geometry of a level of detail.
pub open spec fn first_lod(geometries: Seq<ExtendedGeometry>, lod: Seq<char>, i: int) -> bool {
    &&& 0 <= i < geometries.len()
    &&& geometries[i].lod@ == lod
    &&& forall|k: int| 0 <= k < i ==> (#[trigger] geometries[k]).lod@ != lod
}

/// Whether no geometry is of a level of detail.
pub open spec fn no_lod(geometries: Seq<ExtendedGeometry>, lod: Seq<char>) -> bool {
    forall|k: int| 0 <= k < geometries.len() ==> (#[trigger] geometries[k]).lod@ != lod
}

/// The first geometry of a level of detail.
pub fn find_lod(geometries: &[ExtendedGeometry], lod: &str) -> (r: Option<usize>)
    ensures
        match r {
            Some(i) => first_lod(geometries@, lod@, i as int),
            None => no_lod(geometries@, lod@),
        },
{
    let n: usize = geometries.len();
    let mut i: usize = 0;
    while i < n
        invariant
            i <= n,
            n == geometries@.len(),
            forall|k: int| 0 <= k < i ==> (#[trigger] geometries@[k]).lod@ != lod@,
        decreases n - i,
    {
        if same_text(geometries[i].lod.as_str(), lod) {
            return Some(i);
        }
        i += 1;
    }
    None
}

/// Whether `i` is the geometry with the roof: the first of level 2.2, else of
/// 1.3, else of 1.2.
pub open spec fn is_detailed(geometries: Seq<ExtendedGeometry>, i: int) -> bool {
    ||| first_lod(geometries, "2.2"@, i)
    ||| no_lod(geometries, "2.2"@) && first_lod(geometries, "1.3"@, i)
    ||| no_lod(geometries, "2.2"@) && no_lod(geometries, "1.3"@) && first_lod(
        geometries,
        "1.2"@,
        i,
    )
}

/// Whether no geometry is of a level with a roof.
pub open spec fn none_detailed(geometries: Seq<ExtendedGeometry>) -> bool {
    no_lod(geometries, "2.2"@) && no_lod(geometries, "1.3"@) && no_lod(geometries, "1.2"@)
}

/// The geometry with the roof.
pub fn find_detailed(geometries: &[ExtendedGeometry]) -> (r: Option<usize>)
    ensures
        match r {
            Some(i) => i < geometries@.len() && is_detailed(geometries@, i as int),
            None => none_detailed(geometries@),
        },
{
    match find_lod(geometries, "2.2") {
        Some(i) => Some(i),
        None => match find_lod(geometries, "1.3") {
            Some(i) => Some(i),
            None => find_lod(geometries, "1.2"),
        },
    }
}

/// Whether `i` is the first geometry with semantics.
pub open spec fn first_with_semantics(geometries: Seq<ExtendedGeometry>, i: int) -> bool {
    &&& 0 <= i < geometries.len()
    &&& geometries[i].semantics is Some
    &&& forall|k: int| 0 <= k < i ==> (#[trigger] geometries[k]).semantics is None
}

/// Whether `i` is the geometry with the footprint: the first with a roof, else
/// of level 1, else of level 0, else the first with semantics.
pub open spec fn is_ground(geometries: Seq<ExtendedGeometry>, i: int) -> bool {
    ||| is_detailed(geometries, i)
    ||| none_detailed(geometries) && first_lod(geometries, "1"@, i)
    ||| none_detailed(geometries) && no_lod(geometries, "1"@) && first_lod(geometries, "0"@, i)
    ||| none_detailed(geometries) && no_lod(geometries, "1"@) && no_lod(geometries, "0"@)
        && first_with_semantics(geometries, i)
}

/// Whether no geometry has a footprint.
pub open spec fn no_ground(geometries: Seq<ExtendedGeometry>) -> bool {
    &&& none_detailed(geometries)
    &&& no_lod(geometries, "1"@)
    &&& no_lod(geometries, "0"@)
    &&& forall|k: int| 0 <= k < geometries.len() ==> (#[trigger] geometries[k]).semantics is None
}

/// The geometry with the footprint.
pub fn find_ground(geometries: &[ExtendedGeometry]) -> (r: Option<usize>)
    ensures
        match r {
            Some(i) => i < geometries@.len() && is_ground(geometries@, i as int),
            None => no_ground(geometries@),
        },
{
    match find_detailed(geometries) {
        Some(i) => {
            return Some(i);
        },
        None => {},
    }
    match find_lod(geometries, "1") {
        Some(i) => {
            return Some(i);
        },
        None => {},
    }
    match find_lod(geometries, "0") {
        Some(i) => {
            return Some(i);
        },
        None => {},
    }
    let n: usize = geometries.len();
    let mut i: usize = 0;
    while i < n
        invariant
            i <= n,
            n == geometries@.len(),
            none_detailed(geometries@),
            no_lod(geometries@, "1"@),
            no_lod(geometries@, "0"@),
            forall|k: int| 0 <= k < i ==> (#[trigger] geometries@[k]).semantics is None,
        decreases n - i,
    {
        if geometries[i].semantics.is_some() {
            return Some(i);
        }
        i += 1;
    }
    None
}

// -------------------------------------------------------------------- laws

/// The levels of detail in the order in which they are looked for.
pub open spec fn rank(lod: Seq<char>) -> int {
    if lod == "2.2"@ {
        0
    } else if lod == "1.3"@ {
        1
    } else if lod == "1.2"@ {
        2
    } else if lod == "1"@ {
        3
    } else if lod == "0"@ {
        4
    } else {
        5
    }
}

proof fn lemma_levels()
    ensures
        "2.2"@.len() == 3 && "1.3"@.len() == 3 && "1.2"@.len() == 3,
        "1"@.len() == 1 && "0"@.len() == 1,
        "1"@ != "0"@,
        "2.2"@ != "1.3"@,
        "2.2"@ != "1.2"@,
        "1.3"@ != "1.2"@,
{
    reveal_strlit("1");
    reveal_strlit("0");
    assert("1"@[0] == '1');
    assert("0"@[0] == '0');
    reveal_strlit("2.2");
    reveal_strlit("1.3");
    reveal_strlit("1.2");
    assert("2.2"@.len() == 3);
    assert("1.3"@.len() == 3);
    assert("1.2"@.len() == 3);
    assert("1.2"@[0] == '1');
    assert("1.2"@[2] == '2');
    assert("1.3"@[0] == '1');
    assert("1.3"@[2] == '3');
    assert("2.2"@[0] == '2');
}

/// No geometry is of a more detailed level than the one with the footprint, and
/// none before it is of the same; only where no level is known the first with
/// semantics has it.
pub proof fn law_most_detailed_geometry_is_taken(geometries: Seq<ExtendedGeometry>, i: int)
    requires
        is_ground(geometries, i),
    ensures
        0 <= i < geometries.len(),
        forall|k: int|
            0 <= k < geometries.len() ==> rank(geometries[i].lod@) <= rank(
                (#[trigger] geometries[k]).lod@,
            ),
        rank(geometries[i].lod@) < 5 ==> forall|k: int|
            0 <= k < i ==> rank((#[trigger] geometries[k]).lod@) > rank(geometries[i].lod@),
        rank(geometries[i].lod@) == 5 ==> geometries[i].semantics is Some && forall|k: int|
            0 <= k < i ==> (#[trigger] geometries[k]).semantics is None,
{
    lemma_levels();
}

/// The geometry with the roof is of the most detailed of the levels with roofs.
pub proof fn law_most_detailed_roof_is_taken(geometries: Seq<ExtendedGeometry>, i: int)
    requires
        is_detailed(geometries, i),
    ensures
        0 <= i < geometries.len(),
        rank(geometries[i].lod@) <= 2,
        forall|k: int|
            0 <= k < geometries.len() ==> rank(geometries[i].lod@) <= rank(
                (#[trigger] geometries[k]).lod@,
            ),
        forall|k: int|
            0 <= k < i ==> rank((#[trigger] geometries[k]).lod@) > rank(geometries[i].lod@),
{
    lemma_levels();
}

/// There is a geometry with a footprint unless no geometry has a known level or
/// semantics.
pub proof fn law_known_levels_have_footprints(geometries: Seq<ExtendedGeometry>, k: int)
    requires
        0 <= k < geometries.len(),
        rank(geometries[k].lod@) < 5 || geometries[k].semantics is Some,
    ensures
        !no_ground(geometries),
{
}

/// Without a list, and with a list that has buildings on it, only buildings are
/// wanted; with any other list, what is on it, where generic objects have a plus
/// before their name.
pub proof fn law_wanted_types(types: Option<&[String]>, i: int, cotype: Seq<char>)
    ensures
        types is None ==> (is_wanted(types, cotype) <==> cotype == "Building"@),
        types matches Some(list) ==> {
            &&& 0 <= i < list@.len() && list@[i]@ == "Building"@ ==> (is_wanted(types, cotype)
                <==> cotype == "Building"@)
            &&& (forall|k: int| 0 <= k < list@.len() ==> (#[trigger] list@[k])@ != "Building"@)
                && 0 <= i < list@.len() ==> {
                &&& list@[i]@ == "GenericCityObject"@ ==> is_wanted(types, "+GenericCityObject"@)
                &&& list@[i]@ != "GenericCityObject"@ ==> is_wanted(types, list@[i]@)
                &&& !is_wanted(types, "Building"@)
            }
        },
{
    reveal_strlit("Building");
    reveal_strlit("GenericCityObject");
    reveal_strlit("+GenericCityObject");
    assert("Building"@.len() == 8);
    assert("+GenericCityObject"@.len() == 18);
    match types {
        Some(list) => {
            let texts = crate::json::texts_of(list@);
            if 0 <= i < list@.len() {
                assert(texts[i] == list@[i]@);
                assert(is_wanted(types, type_in_file(types->0@[i]@)) || texts.contains(
                    "Building"@,
                ));
            }
        },
        None => {},
    }
}

} // verus!
