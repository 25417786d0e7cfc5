//! The attributes of city objects, and which of them are kept.

use crate::text::{begins_with, same_text};
use vstd::prelude::*;

verus! {

/// The value of an attribute. `double` holds the bits of a number in double
/// precision, `whole` the number itself where it is whole and fits.
#[derive(Debug)]
pub enum Scalar {
    Text(String),
    Flag(bool),
    Number { double: u64, whole: Option<i64> },
    /// Null, a list or an object.
    Other,
}

/// An attribute.
#[derive(Debug)]
pub struct Attribute {
    pub name: String,
    pub value: Scalar,
}

/// The position of the first attribute of a name.
pub open spec fn position_of(attributes: Seq<Attribute>, name: Seq<char>) -> Option<int>
    decreases attributes.len(),
{
    if attributes.len() == 0 {
        None
    } else {
        match position_of(attributes.drop_last(), name) {
            Some(i) => Some(i),
            None => if attributes.last().name@ == name {
                Some(attributes.len() - 1)
            } else {
                None
            },
        }
    }
}

/// The position of an attribute is that of an attribute of the name, and it is
/// the first; where there is none, no attribute has the name.
pub proof fn law_position_is_first(attributes: Seq<Attribute>, name: Seq<char>)
    ensures
        match position_of(attributes, name) {
            Some(i) => {
                &&& 0 <= i < attributes.len()
                &&& attributes[i].name@ == name
                &&& forall|k: int| 0 <= k < i ==> (#[trigger] attributes[k]).name@ != name
            },
            None => forall|k: int|
                0 <= k < attributes.len() ==> (#[trigger] attributes[k]).name@ != name,
        },
    decreases attributes.len(),
{
    if attributes.len() > 0 {
        law_position_is_first(attributes.drop_last(), name);
        assert forall|k: int| 0 <= k < attributes.len() implies (#[trigger] attributes[k]) == (
        if k < attributes.len() - 1 {
            attributes.drop_last()[k]
        } else {
            attributes.last()
        }) by {}
    }
}

/// The value of an attribute.
pub open spec fn value_of(attributes: Seq<Attribute>, name: Seq<char>) -> Option<Scalar> {
    match position_of(attributes, name) {
        Some(i) => Some(attributes[i].value),
        None => None,
    }
}

/// The number in an attribute, by its bits.
pub open spec fn number_in(attributes: Seq<Attribute>, name: Seq<char>) -> Option<u64> {
    match value_of(attributes, name) {
        Some(Scalar::Number { double, .. }) => Some(double),
        _ => None,
    }
}

/// The whole number in an attribute.
pub open spec fn whole_in(attributes: Seq<Attribute>, name: Seq<char>) -> Option<i64> {
    match value_of(attributes, name) {
        Some(Scalar::Number { whole, .. }) => whole,
        _ => None,
    }
}

/// The flag in an attribute.
pub open spec fn flag_in(attributes: Seq<Attribute>, name: Seq<char>) -> Option<bool> {
    match value_of(attributes, name) {
        Some(Scalar::Flag(b)) => Some(b),
        _ => None,
    }
}

/// The text in an attribute.
pub open spec fn text_in(attributes: Seq<Attribute>, name: Seq<char>) -> Option<Seq<char>> {
    match value_of(attributes, name) {
        Some(Scalar::Text(s)) => Some(s@),
        _ => None,
    }
}

/// The value of an attribute.
pub fn get<'a>(attributes: &'a [Attribute], name: &str) -> (r: Option<&'a Scalar>)
    ensures
        match r {
            Some(value) => value_of(attributes@, name@) == Some(*value),
            None => value_of(attributes@, name@) is None,
        },
{
    let n: usize = attributes.len();
    let mut i: usize = 0;
    while i < n
        invariant
            i <= n,
            n == attributes@.len(),
            position_of(attributes@.take(i as int), name@) is None,
        decreases n - i,
    {
        proof {
            assert(attributes@.take(i + 1).drop_last() =~= attributes@.take(i as int));
        }
        if same_text(attributes[i].name.as_str(), name) {
            proof {
                assert(position_of(attributes@.take(i + 1), name@) == Some(i as int));
                lemma_position_stays(attributes@, name@, i + 1);
            }
            return Some(&attributes[i].value);
        }
        i += 1;
    }
    assert(attributes@.take(n as int) =~= attributes@);
    None
}

proof fn lemma_position_stays(attributes: Seq<Attribute>, name: Seq<char>, n: int)
    requires
        0 <= n <= attributes.len(),
        position_of(attributes.take(n), name) is Some,
    ensures
        position_of(attributes, name) == position_of(attributes.take(n), name),
    decreases attributes.len(),
{
    if n == attributes.len() {
        assert(attributes.take(n) =~= attributes);
    } else {
        assert(attributes.drop_last().take(n) =~= attributes.take(n));
        lemma_position_stays(attributes.drop_last(), name, n);
    }
}

/// The number in an attribute, by its bits.
pub fn get_number(attributes: &[Attribute], name: &str) -> (r: Option<u64>)
    ensures
        r == number_in(attributes@, name@),
{
    match get(attributes, name) {
        Some(Scalar::Number { double, .. }) => Some(*double),
        _ => None,
    }
}

/// The whole number in an attribute.
pub fn get_whole(attributes: &[Attribute], name: &str) -> (r: Option<i64>)
    ensures
        r == whole_in(attributes@, name@),
{
    match get(attributes, name) {
        Some(Scalar::Number { whole, .. }) => *whole,
        _ => None,
    }
}

/// The flag in an attribute.
pub fn get_flag(attributes: &[Attribute], name: &str) -> (r: Option<bool>)
    ensures
        r == flag_in(attributes@, name@),
{
    match get(attributes, name) {
        Some(Scalar::Flag(b)) => Some(*b),
        _ => None,
    }
}

/// The text in an attribute.
pub fn get_text<'a>(attributes: &'a [Attribute], name: &str) -> (r: Option<&'a str>)
    ensures
        match r {
            Some(s) => text_in(attributes@, name@) == Some(s@),
            None => text_in(attributes@, name@) is None,
        },
{
    match get(attributes, name) {
        Some(Scalar::Text(s)) => Some(s.as_str()),
        _ => None,
    }
}

// ------------------------------------------------------------ configuration

/// How the pages of the file are compressed.
#[derive(Clone, Copy, Debug, PartialEq, Eq, Structural)]
pub enum Compression {
    Zstd,
    Uncompressed,
    Snappy,
    LZ4,
}

/// How features are converted.
#[derive(Debug)]
pub struct GeoParquetConfig {
    /// The attributes to keep; where there is no list, the default ones.
    pub include_attributes: Option<Vec<String>>,
    /// Beginnings of attribute names to leave out, besides the default ones.
    pub exclude_attributes: Option<Vec<String>>,
    pub output_path: String,
    pub compression: Option<Compression>,
}

impl Default for GeoParquetConfig {
    fn default() -> (r: GeoParquetConfig)
        ensures
            r.include_attributes is None,
            r.exclude_attributes is None,
            r.output_path@ == "buildings.parquet"@,
            r.compression == Some(Compression::Zstd),
    {
        GeoParquetConfig {
            include_attributes: None,
            exclude_attributes: None,
            output_path: "buildings.parquet".to_owned(),
            compression: Some(Compression::Zstd),
        }
    }
}

impl GeoParquetConfig {
    /// How the pages are compressed; not at all where nothing is said.
    pub fn effective_compression(&self) -> (r: Compression)
        ensures
            r == (match self.compression {
                Some(compression) => compression,
                None => Compression::Uncompressed,
            }),
    {
        match self.compression {
            Some(compression) => compression,
            None => Compression::Uncompressed,
        }
    }
}

/// The attributes that are kept by default.
pub open spec fn default_included() -> Seq<Seq<char>> {
    seq![
        "feature_id"@,
        "bldgarea"@,
        "heightmax"@,
        "heightmin"@,
        "elevmax"@,
        "elevmin"@,
        "rf_roof_n_planes"@,
        "rf_roof_type"@,
        "rf_is_glass_roof"@,
        "rf_volume_lod22"@,
    ]
}

/// The beginnings of attribute names that are left out.
pub open spec fn default_excluded() -> Seq<Seq<char>> {
    seq![
        "acqtech"@,
        "acqtech_en"@,
        "acqtech_fr"@,
        "provider"@,
        "provideren"@,
        "providerfr"@,
        "qltylvl"@,
        "qltylvl_en"@,
        "qltylvl_fr"@,
        "haccmax"@,
        "haccmin"@,
        "vaccmax"@,
        "vaccmin"@,
        "rf_pc_select_"@,
        "rf_pc_source_"@,
        "rf_pc_year_"@,
        "rf_reconstruction_time_"@,
        "rf_val3dity_"@,
        "rf_rmse_"@,
        "rf_pt_density_"@,
        "rf_nodata_"@,
        "rf_h_pc_98p"@,
        "datemax"@,
        "datemin"@,
        "rf_extrusion_mode"@,
        "rf_force_lod11_"@,
        "rf_pointcloud_unusable"@,
        "rf_success_"@,
        "SHAPE_Area"@,
        "SHAPE_Leng"@,
    ]
}

/// The texts of a list of string slices.
pub open spec fn slices_of(list: Seq<&str>) -> Seq<Seq<char>> {
    Seq::new(list.len(), |i: int| list[i]@)
}

fn included_names() -> (r: Vec<&'static str>)
    ensures
        slices_of(r@) == default_included(),
{
    let r: Vec<&'static str> = vec![
        "feature_id",
        "bldgarea",
        "heightmax",
        "heightmin",
        "elevmax",
        "elevmin",
        "rf_roof_n_planes",
        "rf_roof_type",
        "rf_is_glass_roof",
        "rf_volume_lod22",
    ];
    assert(slices_of(r@) =~= default_included());
    r
}

fn excluded_beginnings() -> (r: Vec<&'static str>)
    ensures
        slices_of(r@) == default_excluded(),
{
    let r: Vec<&'static str> = vec![
        "acqtech",
        "acqtech_en",
        "acqtech_fr",
        "provider",
        "provideren",
        "providerfr",
        "qltylvl",
        "qltylvl_en",
        "qltylvl_fr",
        "haccmax",
        "haccmin",
        "vaccmax",
        "vaccmin",
        "rf_pc_select_",
        "rf_pc_source_",
        "rf_pc_year_",
        "rf_reconstruction_time_",
        "rf_val3dity_",
        "rf_rmse_",
        "rf_pt_density_",
        "rf_nodata_",
        "rf_h_pc_98p",
        "datemax",
        "datemin",
        "rf_extrusion_mode",
        "rf_force_lod11_",
        "rf_pointcloud_unusable",
        "rf_success_",
        "SHAPE_Area",
        "SHAPE_Leng",
    ];
    assert(slices_of(r@) =~= default_excluded());
    r
}

/// Whether a name begins with one of some texts.
pub open spec fn begins_with_any(name: Seq<char>, beginnings: Seq<Seq<char>>) -> bool {
    exists|i: int|
        0 <= i < beginnings.len() && crate::text::has_prefix(name, #[trigger] beginnings[i])
}

/// Whether an attribute is kept: its name begins with nothing that is left out
/// and is on the list of names to keep.
pub open spec fn is_kept(config: GeoParquetConfig, name: Seq<char>) -> bool {
    &&& !begins_with_any(name, default_excluded())
    &&& match config.exclude_attributes {
        Some(list) => !begins_with_any(name, crate::json::texts_of(list@)),
        None => true,
    }
    &&& match config.include_attributes {
        Some(list) => crate::json::texts_of(list@).contains(name),
        None => default_included().contains(name),
    }
}

/// The attributes that are kept, in order.
pub open spec fn kept_attributes(config: GeoParquetConfig, attributes: Seq<Attribute>) -> Seq<int>
    decreases attributes.len(),
{
    if attributes.len() == 0 {
        Seq::empty()
    } else if is_kept(config, attributes.last().name@) {
        kept_attributes(config, attributes.drop_last()).push(attributes.len() - 1)
    } else {
        kept_attributes(config, attributes.drop_last())
    }
}

fn slice_begins(name: &str, beginnings: &[&str]) -> (r: bool)
    ensures
        r == begins_with_any(name@, slices_of(beginnings@)),
{
    let n: usize = beginnings.len();
    let mut i: usize = 0;
    while i < n
        invariant
            i <= n,
            n == beginnings@.len(),
            forall|k: int|
                0 <= k < i ==> !crate::text::has_prefix(
                    name@,
                    #[trigger] slices_of(beginnings@)[k],
                ),
        decreases n - i,
    {
        if begins_with(name, beginnings[i]) {
            assert(crate::text::has_prefix(name@, slices_of(beginnings@)[i as int]));
            return true;
        }
        i += 1;
    }
    false
}

fn slice_contains(name: &str, list: &[&str]) -> (r: bool)
    ensures
        r == slices_of(list@).contains(name@),
{
    let n: usize = list.len();
    let mut i: usize = 0;
    while i < n
        invariant
            i <= n,
            n == list@.len(),
            forall|k: int| 0 <= k < i ==> #[trigger] slices_of(list@)[k] != name@,
        decreases n - i,
    {
        if same_text(name, list[i]) {
            assert(slices_of(list@)[i as int] == name@);
            return true;
        }
        i += 1;
    }
    false
}

fn strings_begin(name: &str, beginnings: &[String]) -> (r: bool)
    ensures
        r == begins_with_any(name@, crate::json::texts_of(beginnings@)),
{
    let n: usize = beginnings.len();
    let mut i: usize = 0;
    while i < n
        invariant
            i <= n,
            n == beginnings@.len(),
            forall|k: int|
                0 <= k < i ==> !crate::text::has_prefix(
                    name@,
                    #[trigger] crate::json::texts_of(beginnings@)[k],
                ),
        decreases n - i,
    {
        if begins_with(name, beginnings[i].as_str()) {
            assert(crate::text::has_prefix(
                name@,
                crate::json::texts_of(beginnings@)[i as int],
            ));
            return true;
        }
        i += 1;
    }
    false
}

pub(crate) fn strings_contain(name: &str, list: &[String]) -> (r: bool)
    ensures
        r == crate::json::texts_of(list@).contains(name@),
{
    let n: usize = list.len();
    let mut i: usize = 0;
    while i < n
        invariant
            i <= n,
            n == list@.len(),
            forall|k: int| 0 <= k < i ==> #[trigger] crate::json::texts_of(list@)[k] != name@,
        decreases n - i,
    {
        if same_text(name, list[i].as_str()) {
            assert(crate::json::texts_of(list@)[i as int] == name@);
            return true;
        }
        i += 1;
    }
    false
}

/// Whether an attribute is kept.
pub fn keeps_attribute(config: &GeoParquetConfig, name: &str) -> (r: bool)
    ensures
        r == is_kept(*config, name@),
{
    if slice_begins(name, excluded_beginnings().as_slice()) {
        return false;
    }
    match &config.exclude_attributes {
        Some(list) => {
            if strings_begin(name, list.as_slice()) {
                return false;
            }
        },
        None => {},
    }
    match &config.include_attributes {
        Some(list) => strings_contain(name, list.as_slice()),
        None => slice_contains(name, included_names().as_slice()),
    }
}

/// Which attributes are kept, by their positions.
pub fn filter_attributes(attributes: &[Attribute], config: &GeoParquetConfig) -> (r: Vec<usize>)
    ensures
        r@.map_values(|i: usize| i as int) == kept_attributes(*config, attributes@),
{
    let mut r: Vec<usize> = Vec::new();
    let n: usize = attributes.len();
    let mut i: usize = 0;
    assert(r@.map_values(|i: usize| i as int) =~= Seq::<int>::empty());
    while i < n
        invariant
            i <= n,
            n == attributes@.len(),
            r@.map_values(|i: usize| i as int) == kept_attributes(
                *config,
                attributes@.take(i as int),
            ),
        decreases n - i,
    {
        let ghost before = r@;
        proof {
            assert(attributes@.take(i + 1).drop_last() =~= attributes@.take(i as int));
        }
        if keeps_attribute(config, attributes[i].name.as_str()) {
            r.push(i);
            assert(r@.map_values(|i: usize| i as int) =~= before.map_values(
                |i: usize| i as int,
            ).push(i as int));
        }
        i += 1;
    }
    assert(attributes@.take(n as int) =~= attributes@);
    r
}

// -------------------------------------------------------------------- laws

/// What the first attribute of a name holds is what is found under the name, by
/// its own kind and by no other.
pub proof fn law_first_attribute_is_found(
    before: Seq<Attribute>,
    attribute: Attribute,
    after: Seq<Attribute>,
)
    requires
        forall|k: int| 0 <= k < before.len() ==> (#[trigger] before[k]).name@ != attribute.name@,
    ensures
        ({
            let all = before + seq![attribute] + after;
            let name = attribute.name@;
            match attribute.value {
                Scalar::Number { double, whole } => {
                    &&& number_in(all, name) == Some(double)
                    &&& whole_in(all, name) == whole
                    &&& flag_in(all, name) is None
                    &&& text_in(all, name) is None
                },
                Scalar::Flag(flag) => {
                    &&& flag_in(all, name) == Some(flag)
                    &&& number_in(all, name) is None
                    &&& whole_in(all, name) is None
                    &&& text_in(all, name) is None
                },
                Scalar::Text(text) => {
                    &&& text_in(all, name) == Some(text@)
                    &&& number_in(all, name) is None
                    &&& whole_in(all, name) is None
                    &&& flag_in(all, name) is None
                },
                Scalar::Other => {
                    &&& text_in(all, name) is None
                    &&& number_in(all, name) is None
                    &&& whole_in(all, name) is None
                    &&& flag_in(all, name) is None
                },
            }
        }),
{
    let all = before + seq![attribute] + after;
    let n = before.len() as int;
    law_position_is_first(all, attribute.name@);
    assert(all[n] == attribute);
    assert forall|k: int| 0 <= k < n implies (#[trigger] all[k]).name@ != attribute.name@ by {
        assert(before[k] == all[k]);
    }
}

/// Nothing is found under a name that no attribute has.
pub proof fn law_other_names_are_not_found(attributes: Seq<Attribute>, name: Seq<char>)
    requires
        forall|k: int| 0 <= k < attributes.len() ==> (#[trigger] attributes[k]).name@ != name,
    ensures
        number_in(attributes, name) is None,
        whole_in(attributes, name) is None,
        flag_in(attributes, name) is None,
        text_in(attributes, name) is None,
{
    law_position_is_first(attributes, name);
}

/// The attributes that are kept are all those whose names are, and no others, in
/// their order.
pub proof fn law_kept_attributes_are_in_order(config: GeoParquetConfig, attributes: Seq<Attribute>)
    ensures
        forall|i: int|
            0 <= i < attributes.len() ==> (kept_attributes(config, attributes).contains(i) <==> is_kept(config, (#[trigger] attributes[i]).name@)),
        forall|k: int|
            0 <= k < kept_attributes(config, attributes).len() ==> 0 <= #[trigger] kept_attributes(config, attributes)[k] < attributes.len(),
        forall|j: int, k: int|
            0 <= j < k < kept_attributes(config, attributes).len() ==> #[trigger] kept_attributes(config, attributes)[j] < #[trigger] kept_attributes(config, attributes)[k],
    decreases attributes.len(),
{
    if attributes.len() > 0 {
        let head = attributes.drop_last();
        let before = kept_attributes(config, head);
        let all = kept_attributes(config, attributes);
        let last = (attributes.len() - 1) as int;
        law_kept_attributes_are_in_order(config, head);
        assert(!before.contains(last)) by {
            if before.contains(last) {
                let k = choose|k: int| 0 <= k < before.len() && before[k] == last;
                assert(before[k] < head.len());
            }
        }
        assert forall|i: int| 0 <= i < attributes.len() implies (all.contains(i) <==> is_kept(config, (#[trigger] attributes[i]).name@)) by {
            vstd::seq_lib::lemma_seq_contains_after_push(before, last, i);
            if i < head.len() {
                assert(head[i] == attributes[i]);
            } else {
                assert(attributes[i] == attributes.last());
            }
        }
    }
}

/// An attribute is left out whose name begins with a text on the list of those to
/// leave out, also where it is on the list of those to keep; so is one that is
/// not on that list.
pub proof fn law_exclusion_wins(
    config: GeoParquetConfig,
    beginning: Seq<char>,
    rest: Seq<char>,
    name: Seq<char>,
)
    ensures
        (config.exclude_attributes matches Some(list) && crate::json::texts_of(list@).contains(
            beginning,
        )) ==> !is_kept(config, beginning + rest),
        default_excluded().contains(beginning) ==> !is_kept(config, beginning + rest),
        (config.include_attributes matches Some(list) && !crate::json::texts_of(list@).contains(
            name,
        )) ==> !is_kept(config, name),
        config.include_attributes is None && !default_included().contains(name) ==> !is_kept(
            config,
            name,
        ),
{
    assert((beginning + rest).take(beginning.len() as int) =~= beginning);
    assert(crate::text::has_prefix(beginning + rest, beginning));
    if default_excluded().contains(beginning) {
        let i = choose|i: int|
            0 <= i < default_excluded().len() && default_excluded()[i] == beginning;
        assert(crate::text::has_prefix(beginning + rest, default_excluded()[i]));
    }
    match config.exclude_attributes {
        Some(list) => {
            let texts = crate::json::texts_of(list@);
            if texts.contains(beginning) {
                let i = choose|i: int| 0 <= i < texts.len() && texts[i] == beginning;
                assert(crate::text::has_prefix(beginning + rest, texts[i]));
            }
        },
        None => {},
    }
}

/// An attribute is kept that is on the list of those to keep and begins with
/// nothing to leave out.
pub proof fn law_listed_attributes_are_kept(config: GeoParquetConfig, name: Seq<char>)
    requires
        forall|i: int|
            0 <= i < default_excluded().len() ==> !(#[trigger] default_excluded()[i]).is_prefix_of(
                name,
            ),
        config.exclude_attributes matches Some(list) ==> forall|i: int|
            0 <= i < list@.len() ==> !(#[trigger] list@[i])@.is_prefix_of(name),
        match config.include_attributes {
            Some(list) => crate::json::texts_of(list@).contains(name),
            None => default_included().contains(name),
        },
    ensures
        is_kept(config, name),
{
    assert forall|i: int| 0 <= i < default_excluded().len() implies !crate::text::has_prefix(
        name,
        #[trigger] default_excluded()[i],
    ) by {
        assert(!default_excluded()[i].is_prefix_of(name));
    }
    match config.exclude_attributes {
        Some(list) => {
            let texts = crate::json::texts_of(list@);
            assert forall|i: int| 0 <= i < texts.len() implies !crate::text::has_prefix(
                name,
                #[trigger] texts[i],
            ) by {
                assert(!list@[i]@.is_prefix_of(name));
            }
        },
        None => {},
    }
}

/// By default the ids, the measures and what the roof is like are kept.
pub proof fn law_default_names()
    ensures
        default_included().len() == 10,
        default_included().contains("feature_id"@),
        default_included().contains("bldgarea"@),
        default_included().contains("heightmax"@),
        default_included().contains("heightmin"@),
        default_included().contains("elevmax"@),
        default_included().contains("elevmin"@),
        default_included().contains("rf_roof_n_planes"@),
        default_included().contains("rf_roof_type"@),
        default_included().contains("rf_is_glass_roof"@),
        default_included().contains("rf_volume_lod22"@),
{
    let s = default_included();
    assert(s[0] == "feature_id"@);
    assert(s[1] == "bldgarea"@);
    assert(s[2] == "heightmax"@);
    assert(s[3] == "heightmin"@);
    assert(s[4] == "elevmax"@);
    assert(s[5] == "elevmin"@);
    assert(s[6] == "rf_roof_n_planes"@);
    assert(s[7] == "rf_roof_type"@);
    assert(s[8] == "rf_is_glass_roof"@);
    assert(s[9] == "rf_volume_lod22"@);
}

/// Whatever the lists say, an attribute is left out that tells how a building was
/// surveyed or reconstructed.
pub proof fn law_default_exclusions(config: GeoParquetConfig, rest: Seq<char>)
    ensures
        !is_kept(config, "acqtech"@ + rest),
        !is_kept(config, "acqtech_en"@ + rest),
        !is_kept(config, "acqtech_fr"@ + rest),
        !is_kept(config, "provider"@ + rest),
        !is_kept(config, "provideren"@ + rest),
        !is_kept(config, "providerfr"@ + rest),
        !is_kept(config, "qltylvl"@ + rest),
        !is_kept(config, "qltylvl_en"@ + rest),
        !is_kept(config, "qltylvl_fr"@ + rest),
        !is_kept(config, "haccmax"@ + rest),
        !is_kept(config, "haccmin"@ + rest),
        !is_kept(config, "vaccmax"@ + rest),
        !is_kept(config, "vaccmin"@ + rest),
        !is_kept(config, "rf_pc_select_"@ + rest),
        !is_kept(config, "rf_pc_source_"@ + rest),
        !is_kept(config, "rf_pc_year_"@ + rest),
        !is_kept(config, "rf_reconstruction_time_"@ + rest),
        !is_kept(config, "rf_val3dity_"@ + rest),
        !is_kept(config, "rf_rmse_"@ + rest),
        !is_kept(config, "rf_pt_density_"@ + rest),
        !is_kept(config, "rf_nodata_"@ + rest),
        !is_kept(config, "rf_h_pc_98p"@ + rest),
        !is_kept(config, "datemax"@ + rest),
        !is_kept(config, "datemin"@ + rest),
        !is_kept(config, "rf_extrusion_mode"@ + rest),
        !is_kept(config, "rf_force_lod11_"@ + rest),
        !is_kept(config, "rf_pointcloud_unusable"@ + rest),
        !is_kept(config, "rf_success_"@ + rest),
        !is_kept(config, "SHAPE_Area"@ + rest),
        !is_kept(config, "SHAPE_Leng"@ + rest),
{
    let s = default_excluded();
    assert(s[0] == "acqtech"@);
    law_exclusion_wins(config, "acqtech"@, rest, rest);
    assert(s[1] == "acqtech_en"@);
    law_exclusion_wins(config, "acqtech_en"@, rest, rest);
    assert(s[2] == "acqtech_fr"@);
    law_exclusion_wins(config, "acqtech_fr"@, rest, rest);
    assert(s[3] == "provider"@);
    law_exclusion_wins(config, "provider"@, rest, rest);
    assert(s[4] == "provideren"@);
    law_exclusion_wins(config, "provideren"@, rest, rest);
    assert(s[5] == "providerfr"@);
    law_exclusion_wins(config, "providerfr"@, rest, rest);
    assert(s[6] == "qltylvl"@);
    law_exclusion_wins(config, "qltylvl"@, rest, rest);
    assert(s[7] == "qltylvl_en"@);
    law_exclusion_wins(config, "qltylvl_en"@, rest, rest);
    assert(s[8] == "qltylvl_fr"@);
    law_exclusion_wins(config, "qltylvl_fr"@, rest, rest);
    assert(s[9] == "haccmax"@);
    law_exclusion_wins(config, "haccmax"@, rest, rest);
    assert(s[10] == "haccmin"@);
    law_exclusion_wins(config, "haccmin"@, rest, rest);
    assert(s[11] == "vaccmax"@);
    law_exclusion_wins(config, "vaccmax"@, rest, rest);
    assert(s[12] == "vaccmin"@);
    law_exclusion_wins(config, "vaccmin"@, rest, rest);
    assert(s[13] == "rf_pc_select_"@);
    law_exclusion_wins(config, "rf_pc_select_"@, rest, rest);
    assert(s[14] == "rf_pc_source_"@);
    law_exclusion_wins(config, "rf_pc_source_"@, rest, rest);
    assert(s[15] == "rf_pc_year_"@);
    law_exclusion_wins(config, "rf_pc_year_"@, rest, rest);
    assert(s[16] == "rf_reconstruction_time_"@);
    law_exclusion_wins(config, "rf_reconstruction_time_"@, rest, rest);
    assert(s[17] == "rf_val3dity_"@);
    law_exclusion_wins(config, "rf_val3dity_"@, rest, rest);
    assert(s[18] == "rf_rmse_"@);
    law_exclusion_wins(config, "rf_rmse_"@, rest, rest);
    assert(s[19] == "rf_pt_density_"@);
    law_exclusion_wins(config, "rf_pt_density_"@, rest, rest);
    assert(s[20] == "rf_nodata_"@);
    law_exclusion_wins(config, "rf_nodata_"@, rest, rest);
    assert(s[21] == "rf_h_pc_98p"@);
    law_exclusion_wins(config, "rf_h_pc_98p"@, rest, rest);
    assert(s[22] == "datemax"@);
    law_exclusion_wins(config, "datemax"@, rest, rest);
    assert(s[23] == "datemin"@);
    law_exclusion_wins(config, "datemin"@, rest, rest);
    assert(s[24] == "rf_extrusion_mode"@);
    law_exclusion_wins(config, "rf_extrusion_mode"@, rest, rest);
    assert(s[25] == "rf_force_lod11_"@);
    law_exclusion_wins(config, "rf_force_lod11_"@, rest, rest);
    assert(s[26] == "rf_pointcloud_unusable"@);
    law_exclusion_wins(config, "rf_pointcloud_unusable"@, rest, rest);
    assert(s[27] == "rf_success_"@);
    law_exclusion_wins(config, "rf_success_"@, rest, rest);
    assert(s[28] == "SHAPE_Area"@);
    law_exclusion_wins(config, "SHAPE_Area"@, rest, rest);
    assert(s[29] == "SHAPE_Leng"@);
    law_exclusion_wins(config, "SHAPE_Leng"@, rest, rest);
}

} // verus!
