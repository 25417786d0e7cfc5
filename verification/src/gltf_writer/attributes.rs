//! The attributes of city objects, and the columns they are written as.

use crate::text::{chars_of, comes_before, same_text};
use vstd::prelude::*;

verus! {

// ------------------------------------------------------------------ values

/// The value of an attribute. `single` is the number in single precision, by
/// its bits.
#[derive(Debug)]
pub enum AttrValue {
    Text(String),
    Flag(bool),
    /// A whole number; `value` is missing where it does not fit.
    Integer { value: Option<i64>, single: u32 },
    Real { single: u32 },
    /// Null, a list or an object.
    Other,
}

/// What an attribute value holds.
pub enum Attr {
    Text(Seq<char>),
    Flag(bool),
    Integer { value: Option<i64>, single: u32 },
    Real { single: u32 },
    Other,
}

impl View for AttrValue {
    type V = Attr;

    open spec fn view(&self) -> Attr {
        match self {
            AttrValue::Text(s) => Attr::Text(s@),
            AttrValue::Flag(b) => Attr::Flag(*b),
            AttrValue::Integer { value, single } => Attr::Integer {
                value: *value,
                single: *single,
            },
            AttrValue::Real { single } => Attr::Real { single: *single },
            AttrValue::Other => Attr::Other,
        }
    }
}

/// The type of a column.
#[derive(Clone, Copy, Debug, PartialEq, Eq, Structural)]
pub enum AttrType {
    String,
    Float32,
    Int32,
    Boolean,
}

/// The type that a value asks for; some values fit in no column.
pub open spec fn type_of(value: Attr) -> Option<AttrType> {
    match value {
        Attr::Text(_) => Some(AttrType::String),
        Attr::Flag(_) => Some(AttrType::Boolean),
        Attr::Integer { .. } => Some(AttrType::Int32),
        Attr::Real { .. } => Some(AttrType::Float32),
        Attr::Other => None,
    }
}

impl AttrValue {
    /// The type that this value asks for.
    pub fn attr_type(&self) -> (r: Option<AttrType>)
        ensures
            r == type_of(self@),
    {
        match self {
            AttrValue::Text(_) => Some(AttrType::String),
            AttrValue::Flag(_) => Some(AttrType::Boolean),
            AttrValue::Integer { .. } => Some(AttrType::Int32),
            AttrValue::Real { .. } => Some(AttrType::Float32),
            AttrValue::Other => None,
        }
    }

    /// A copy of the value.
    pub fn copy(&self) -> (r: AttrValue)
        ensures
            r@ == self@,
    {
        match self {
            AttrValue::Text(s) => AttrValue::Text(s.clone()),
            AttrValue::Flag(b) => AttrValue::Flag(*b),
            AttrValue::Integer { value, single } => AttrValue::Integer {
                value: *value,
                single: *single,
            },
            AttrValue::Real { single } => AttrValue::Real { single: *single },
            AttrValue::Other => AttrValue::Other,
        }
    }
}

// -------------------------------------------------------------------- sets

struct Attribute {
    name: String,
    value: AttrValue,
}

/// The attributes of one object, each with its own name.
pub struct AttributeSet {
    entries: Vec<Attribute>,
}

impl View for AttributeSet {
    type V = Map<Seq<char>, Attr>;

    closed spec fn view(&self) -> Map<Seq<char>, Attr> {
        entries_map(self.entries@)
    }
}

/// Entries as a map; a later entry would hide an earlier one of the same name.
spec fn entries_map(entries: Seq<Attribute>) -> Map<Seq<char>, Attr>
    decreases entries.len(),
{
    if entries.len() == 0 {
        Map::empty()
    } else {
        entries_map(entries.drop_last()).insert(entries.last().name@, entries.last().value@)
    }
}

spec fn names_differ(entries: Seq<Attribute>) -> bool {
    forall|i: int, j: int|
        0 <= i < j < entries.len() ==> #[trigger] entries[i].name@ != #[trigger] entries[j].name@
}

proof fn lemma_entries_map(entries: Seq<Attribute>)
    requires
        names_differ(entries),
    ensures
        forall|i: int|
            0 <= i < entries.len() ==> entries_map(entries).contains_key(
                #[trigger] entries[i].name@,
            ) && entries_map(entries)[entries[i].name@] == entries[i].value@,
        forall|name: Seq<char>| #[trigger]
            entries_map(entries).contains_key(name) ==> exists|i: int|
                0 <= i < entries.len() && #[trigger] entries[i].name@ == name,
    decreases entries.len(),
{
    if entries.len() > 0 {
        let rest = entries.drop_last();
        lemma_entries_map(rest);
        assert forall|i: int| 0 <= i < entries.len() implies entries_map(entries).contains_key(
            #[trigger] entries[i].name@,
        ) && entries_map(entries)[entries[i].name@] == entries[i].value@ by {
            if i < rest.len() {
                assert(rest[i].name@ == entries[i].name@);
            }
        }
        assert forall|name: Seq<char>| #[trigger]
            entries_map(entries).contains_key(name) implies exists|i: int|
            0 <= i < entries.len() && #[trigger] entries[i].name@ == name by {
            if name == entries.last().name@ {
                assert(entries[entries.len() - 1].name@ == name);
            } else {
                assert(entries_map(rest).contains_key(name));
                let i = choose|i: int| 0 <= i < rest.len() && #[trigger] rest[i].name@ == name;
                assert(entries[i].name@ == name);
            }
        }
    }
}

impl AttributeSet {
    pub closed spec fn wf(self) -> bool {
        names_differ(self.entries@)
    }

    /// No attributes.
    pub fn new() -> (r: AttributeSet)
        ensures
            r.wf(),
            r@ == Map::<Seq<char>, Attr>::empty(),
    {
        AttributeSet { entries: Vec::new() }
    }

    /// Sets an attribute, in place of an earlier one of the same name.
    pub fn insert(&mut self, name: &str, value: AttrValue)
        requires
            old(self).wf(),
        ensures
            final(self).wf(),
            final(self)@ == old(self)@.insert(name@, value@),
    {
        let ghost before = self.entries@;
        let n: usize = self.entries.len();
        let mut i: usize = 0;
        while i < n
            invariant
                i <= n,
                n == self.entries@.len(),
                self.entries@ == before,
                before == old(self).entries@,
                names_differ(before),
                forall|k: int| 0 <= k < i ==> #[trigger] before[k].name@ != name@,
            decreases n - i,
        {
            if same_text(self.entries[i].name.as_str(), name) {
                let text = name.to_owned();
                let entry = Attribute { name: text, value };
                self.entries.set(i, entry);
                proof {
                    let now = self.entries@;
                    assert(names_differ(now)) by {
                        assert forall|a: int, b: int| 0 <= a < b < now.len() implies #[trigger]
                            now[a].name@ != #[trigger] now[b].name@ by {
                            assert(now[a].name@ == before[a].name@);
                            assert(now[b].name@ == before[b].name@);
                        }
                    }
                    lemma_entries_map(before);
                    lemma_entries_map(now);
                    assert(self@ =~= entries_map(before).insert(name@, value@)) by {
                        assert forall|key: Seq<char>| #[trigger]
                            self@.contains_key(key) == entries_map(before).insert(
                                name@,
                                value@,
                            ).contains_key(key) by {
                            if self@.contains_key(key) {
                                let k = choose|k: int|
                                    0 <= k < now.len() && #[trigger] now[k].name@ == key;
                                assert(before[k].name@ == key);
                            }
                            if entries_map(before).contains_key(key) {
                                let k = choose|k: int|
                                    0 <= k < before.len() && #[trigger] before[k].name@ == key;
                                assert(now[k].name@ == key);
                            }
                            assert(now[i as int].name@ == name@);
                        }
                        assert forall|key: Seq<char>| #[trigger] self@.contains_key(key) implies self@[key]
                            == entries_map(before).insert(name@, value@)[key] by {
                            let k = choose|k: int|
                                0 <= k < now.len() && #[trigger] now[k].name@ == key;
                            assert(before[k].name@ == key);
                            if k != i {
                                assert(now[i as int].name@ != now[k].name@);
                            }
                        }
                    }
                }
                return ;
            }
            i += 1;
        }
        let entry = Attribute { name: name.to_owned(), value };
        self.entries.push(entry);
        proof {
            assert(self.entries@.drop_last() =~= before);
            assert forall|a: int, b: int| 0 <= a < b < self.entries@.len() implies #[trigger]
                self.entries@[a].name@ != #[trigger] self.entries@[b].name@ by {
                assert(self.entries@[a].name@ == before[a].name@);
                if b < n {
                    assert(self.entries@[b].name@ == before[b].name@);
                }
            }
        }
    }

    /// The value of an attribute.
    pub fn get(&self, name: &str) -> (r: Option<&AttrValue>)
        requires
            self.wf(),
        ensures
            match r {
                Some(value) => self@.contains_key(name@) && value@ == self@[name@],
                None => !self@.contains_key(name@),
            },
    {
        proof {
            lemma_entries_map(self.entries@);
        }
        let n: usize = self.entries.len();
        let mut i: usize = 0;
        while i < n
            invariant
                i <= n,
                n == self.entries@.len(),
                forall|k: int| 0 <= k < i ==> #[trigger] self.entries@[k].name@ != name@,
                forall|k: int|
                    0 <= k < n ==> self@.contains_key(#[trigger] self.entries@[k].name@)
                        && self@[self.entries@[k].name@] == self.entries@[k].value@,
            decreases n - i,
        {
            if same_text(self.entries[i].name.as_str(), name) {
                return Some(&self.entries[i].value);
            }
            i += 1;
        }
        None
    }

    /// Whether there are no attributes.
    pub fn is_empty(&self) -> (r: bool)
        ensures
            r == (self@ == Map::<Seq<char>, Attr>::empty()),
    {
        proof {
            if self.entries@.len() > 0 {
                assert(self@.contains_key(self.entries@.last().name@));
            }
        }
        self.entries.len() == 0
    }

    /// The attributes whose names are on a list.
    pub fn restricted_to(&self, names: &[String]) -> (r: AttributeSet)
        requires
            self.wf(),
        ensures
            r.wf(),
            r@ == self@.restrict(listed(names@)),
    {
        let mut r = AttributeSet::new();
        let n: usize = names.len();
        let mut i: usize = 0;
        proof {
            assert(r@ =~= self@.restrict(listed(names@.take(0))));
        }
        while i < n
            invariant
                i <= n,
                n == names@.len(),
                self.wf(),
                r.wf(),
                r@ == self@.restrict(listed(names@.take(i as int))),
            decreases n - i,
        {
            let name = names[i].as_str();
            let ghost before = r@;
            match self.get(name) {
                Some(value) => {
                    r.insert(name, value.copy());
                },
                None => {},
            }
            proof {
                let now = names@.take(i + 1);
                assert(now =~= names@.take(i as int).push(names@[i as int]));
                assert forall|key: Seq<char>| #[trigger] listed(now).contains(key) == (listed(
                    names@.take(i as int),
                ).contains(key) || key == name@) by {
                    lemma_listed_push(names@.take(i as int), names@[i as int], key);
                }
                assert(r@ =~= self@.restrict(listed(now)));
            }
            i += 1;
        }
        assert(names@.take(n as int) =~= names@);
        r
    }
}

/// The texts on a list.
pub open spec fn listed(names: Seq<String>) -> Set<Seq<char>> {
    Set::new(|text: Seq<char>| exists|i: int| 0 <= i < names.len() && #[trigger] names[i]@ == text)
}

proof fn lemma_listed_push(names: Seq<String>, name: String, text: Seq<char>)
    ensures
        listed(names.push(name)).contains(text) == (listed(names).contains(text) || text == name@),
{
    let more = names.push(name);
    if listed(more).contains(text) {
        let i = choose|i: int| 0 <= i < more.len() && #[trigger] more[i]@ == text;
        if i < names.len() {
            assert(names[i]@ == text);
        }
    }
    if listed(names).contains(text) {
        let i = choose|i: int| 0 <= i < names.len() && #[trigger] names[i]@ == text;
        assert(more[i]@ == text);
    }
    assert(more[names.len() as int]@ == name@);
}

// ------------------------------------------------------------------ schema

/// The type that a row asks for in the column of a name.
pub open spec fn kind_in(row: Map<Seq<char>, Attr>, name: Seq<char>) -> Option<AttrType> {
    if row.contains_key(name) {
        type_of(row[name])
    } else {
        None
    }
}

/// The type of a column after one more row: the first type stays, except that
/// whole numbers widen to single precision when such a number turns up.
pub open spec fn widened(so_far: Option<AttrType>, next: Option<AttrType>) -> Option<AttrType> {
    match (so_far, next) {
        (None, _) => next,
        (Some(AttrType::Int32), Some(AttrType::Float32)) => next,
        _ => so_far,
    }
}

/// The type of the column of a name, if any row asks for one.
pub open spec fn column_kind(rows: Seq<Map<Seq<char>, Attr>>, name: Seq<char>) -> Option<AttrType>
    decreases rows.len(),
{
    if rows.len() == 0 {
        None
    } else {
        widened(column_kind(rows.drop_last(), name), kind_in(rows.last(), name))
    }
}

/// The types of all columns by name.
pub open spec fn column_kinds(rows: Seq<Map<Seq<char>, Attr>>) -> Map<Seq<char>, AttrType> {
    Map::new(
        |name: Seq<char>| column_kind(rows, name) is Some,
        |name: Seq<char>| column_kind(rows, name)->0,
    )
}

/// A column is text, a flag or a single precision number only if some row has
/// such a value; it is of whole numbers only if some row has one and no row
/// has a single precision number.
pub proof fn law_column_kind_occurs(rows: Seq<Map<Seq<char>, Attr>>, name: Seq<char>)
    ensures
        column_kind(rows, name) matches Some(kind) ==> exists|i: int|
            0 <= i < rows.len() && kind_in(#[trigger] rows[i], name) == Some(kind),
        column_kind(rows, name) == Some(AttrType::Int32) ==> forall|i: int|
            0 <= i < rows.len() ==> kind_in(#[trigger] rows[i], name) != Some(AttrType::Float32),
        column_kind(rows, name) is None <==> forall|i: int|
            0 <= i < rows.len() ==> kind_in(#[trigger] rows[i], name) is None,
    decreases rows.len(),
{
    if rows.len() > 0 {
        let rest = rows.drop_last();
        law_column_kind_occurs(rest, name);
        assert(rows[rows.len() - 1] == rows.last());
        if column_kind(rows, name) is Some && column_kind(rows, name) == column_kind(rest, name) {
            let kind = column_kind(rest, name)->0;
            let i = choose|i: int|
                0 <= i < rest.len() && kind_in(#[trigger] rest[i], name) == Some(kind);
            assert(kind_in(rows[i], name) == Some(kind));
        }
        if column_kind(rest, name) is Some {
            let kind = column_kind(rest, name)->0;
            let i = choose|i: int|
                0 <= i < rest.len() && kind_in(#[trigger] rest[i], name) == Some(kind);
            assert(kind_in(rows[i], name) is Some);
        }
        assert forall|i: int| 0 <= i < rows.len() implies rows[i] == (if i < rest.len() {
            rest[i]
        } else {
            rows.last()
        }) by {}
    }
}

/// Whether `columns` lists the entries of `kinds` in the order of their names.
pub open spec fn lists(
    columns: Seq<(Seq<char>, AttrType)>,
    kinds: Map<Seq<char>, AttrType>,
) -> bool {
    &&& forall|i: int, j: int|
        0 <= i < j < columns.len() ==> crate::text::text_before(
            #[trigger] columns[i].0,
            #[trigger] columns[j].0,
        )
    &&& forall|i: int|
        0 <= i < columns.len() ==> kinds.contains_key(#[trigger] columns[i].0)
            && kinds[columns[i].0] == columns[i].1
    &&& forall|name: Seq<char>| #[trigger]
        kinds.contains_key(name) ==> exists|i: int|
            0 <= i < columns.len() && #[trigger] columns[i].0 == name
}

/// There is only one way to list the entries in order.
pub proof fn law_listing_is_unique(
    a: Seq<(Seq<char>, AttrType)>,
    b: Seq<(Seq<char>, AttrType)>,
    kinds: Map<Seq<char>, AttrType>,
)
    requires
        lists(a, kinds),
        lists(b, kinds),
    ensures
        a == b,
{
    lemma_listing_agrees(a, b, kinds, a.len() as int);
    lemma_listing_agrees(b, a, kinds, b.len() as int);
    assert(a =~= b);
}

proof fn lemma_listing_agrees(
    a: Seq<(Seq<char>, AttrType)>,
    b: Seq<(Seq<char>, AttrType)>,
    kinds: Map<Seq<char>, AttrType>,
    n: int,
)
    requires
        lists(a, kinds),
        lists(b, kinds),
        0 <= n <= a.len(),
    ensures
        n <= b.len(),
        forall|i: int| 0 <= i < n ==> a[i] == b[i],
    decreases n,
{
    if n > 0 {
        let i = n - 1;
        lemma_listing_agrees(a, b, kinds, i);
        assert(kinds.contains_key(a[i].0));
        let k = choose|k: int| 0 <= k < b.len() && #[trigger] b[k].0 == a[i].0;
        crate::text::lemma_before_irreflexive(a[i].0);
        if k < i {
            assert(a[k] == b[k]);
            assert(crate::text::text_before(a[k].0, a[i].0));
            assert(false);
        }
        if k > i {
            assert(kinds.contains_key(b[i].0));
            let l = choose|l: int| 0 <= l < a.len() && #[trigger] a[l].0 == b[i].0;
            assert(crate::text::text_before(b[i].0, b[k].0));
            if l < i {
                assert(a[l] == b[l]);
                assert(crate::text::text_before(b[l].0, b[i].0));
                crate::text::lemma_before_irreflexive(b[i].0);
            } else if l > i {
                assert(crate::text::text_before(a[i].0, a[l].0));
                crate::text::lemma_before_transitive(a[i].0, a[l].0, a[i].0);
            }
            assert(false);
        }
    }
}

/// The columns that some rows are written in, in the order of their names.
pub open spec fn schema_of(rows: Seq<Map<Seq<char>, Attr>>) -> Seq<(Seq<char>, AttrType)> {
    choose|columns: Seq<(Seq<char>, AttrType)>| lists(columns, column_kinds(rows))
}

/// A column of the attribute table.
pub struct Column {
    name: String,
    chars: Vec<char>,
    kind: AttrType,
}

impl Column {
    pub closed spec fn wf(self) -> bool {
        self.chars@ == self.name@
    }

    /// The name of the column.
    pub fn name(&self) -> (r: &str)
        ensures
            r@ == self@.0,
    {
        self.name.as_str()
    }

    /// The type of the column.
    pub fn kind(&self) -> (r: AttrType)
        ensures
            r == self@.1,
    {
        self.kind
    }
}

impl View for Column {
    type V = (Seq<char>, AttrType);

    closed spec fn view(&self) -> (Seq<char>, AttrType) {
        (self.name@, self.kind)
    }
}

/// Columns as pairs of name and type.
pub open spec fn columns_of(columns: Seq<Column>) -> Seq<(Seq<char>, AttrType)> {
    Seq::new(columns.len(), |i: int| columns[i]@)
}

spec fn all_wf(columns: Seq<Column>) -> bool {
    forall|i: int| 0 <= i < columns.len() ==> (#[trigger] columns[i]).wf()
}

/// What one more value does to the types.
spec fn noted(
    kinds: Map<Seq<char>, AttrType>,
    name: Seq<char>,
    kind: AttrType,
) -> Map<Seq<char>, AttrType> {
    kinds.insert(
        name,
        widened(
            if kinds.contains_key(name) {
                Some(kinds[name])
            } else {
                None
            },
            Some(kind),
        )->0,
    )
}

/// Takes a value of the given type in the column of a name into account.
fn note(columns: &mut Vec<Column>, name: &str, kind: AttrType, Ghost(kinds): Ghost<
    Map<Seq<char>, AttrType>,
>)
    requires
        all_wf(old(columns)@),
        lists(columns_of(old(columns)@), kinds),
    ensures
        all_wf(final(columns)@),
        lists(columns_of(final(columns)@), noted(kinds, name@, kind)),
{
    let chars = chars_of(name);
    let ghost before = columns@;
    let ghost was = columns_of(before);
    let n: usize = columns.len();
    let mut i: usize = 0;
    while i < n && comes_before(columns[i].chars.as_slice(), chars.as_slice())
        invariant
            i <= n,
            n == columns@.len(),
            columns@ == before,
            all_wf(before),
            chars@ == name@,
            was == columns_of(before),
            forall|k: int| 0 <= k < i ==> crate::text::text_before(#[trigger] was[k].0, name@),
        decreases n - i,
    {
        assert(columns@[i as int].wf());
        i += 1;
    }
    proof {
        if i < n {
            assert(before[i as int].wf());
            assert(!crate::text::text_before(was[i as int].0, name@));
        }
        crate::text::lemma_before_irreflexive(name@);
    }
    if i < n && same_text(columns[i].name.as_str(), name) {
        let old_kind = columns[i].kind;
        let new_kind = match (old_kind, kind) {
            (AttrType::Int32, AttrType::Float32) => AttrType::Float32,
            _ => old_kind,
        };
        let column = Column { name: name.to_owned(), chars, kind: new_kind };
        columns.set(i, column);
        proof {
            let now = columns_of(columns@);
            let goal = noted(kinds, name@, kind);
            assert(was[i as int].0 == name@);
            assert(kinds.contains_key(was[i as int].0));
            assert forall|k: int| 0 <= k < now.len() implies now[k] == (if k == i {
                (name@, new_kind)
            } else {
                was[k]
            }) by {}
            assert forall|k: int| 0 <= k < now.len() implies goal.contains_key(
                #[trigger] now[k].0,
            ) && goal[now[k].0] == now[k].1 by {
                assert(kinds.contains_key(was[k].0));
                if k < i {
                    assert(crate::text::text_before(was[k].0, was[i as int].0));
                } else if k > i {
                    assert(crate::text::text_before(was[i as int].0, was[k].0));
                }
            }
            assert forall|key: Seq<char>| #[trigger] goal.contains_key(key) implies exists|k: int|
                0 <= k < now.len() && #[trigger] now[k].0 == key by {
                if key == name@ {
                    assert(now[i as int].0 == key);
                } else {
                    assert(kinds.contains_key(key));
                    let k = choose|k: int| 0 <= k < was.len() && #[trigger] was[k].0 == key;
                    assert(now[k].0 == key);
                }
            }
            assert forall|a: int, b: int| 0 <= a < b < now.len() implies crate::text::text_before(
                #[trigger] now[a].0,
                #[trigger] now[b].0,
            ) by {
                assert(crate::text::text_before(was[a].0, was[b].0));
            }
        }
    } else {
        let column = Column { name: name.to_owned(), chars, kind };
        proof {
            if i < n {
                crate::text::lemma_before_total(was[i as int].0, name@);
                assert(crate::text::text_before(name@, was[i as int].0));
            }
            assert forall|k: int| i <= k < n implies crate::text::text_before(
                name@,
                #[trigger] was[k].0,
            ) by {
                if k > i {
                    assert(crate::text::text_before(was[i as int].0, was[k].0));
                    crate::text::lemma_before_transitive(name@, was[i as int].0, was[k].0);
                }
            }
            if kinds.contains_key(name@) {
                let k = choose|k: int| 0 <= k < was.len() && #[trigger] was[k].0 == name@;
                if k < i {
                    assert(crate::text::text_before(was[k].0, name@));
                } else {
                    assert(crate::text::text_before(name@, was[k].0));
                }
                assert(false);
            }
        }
        columns.insert(i, column);
        proof {
            let now = columns_of(columns@);
            let goal = noted(kinds, name@, kind);
            assert forall|k: int| 0 <= k < now.len() implies now[k] == (if k == i {
                (name@, kind)
            } else if k < i {
                was[k]
            } else {
                was[k - 1]
            }) by {}
            assert forall|k: int| 0 <= k < columns@.len() implies (#[trigger]
            columns@[k]).wf() by {
                if k < i {
                    assert(columns@[k] == before[k]);
                } else if k > i {
                    assert(columns@[k] == before[k - 1]);
                }
            }
            assert forall|k: int| 0 <= k < now.len() implies goal.contains_key(
                #[trigger] now[k].0,
            ) && goal[now[k].0] == now[k].1 by {
                if k < i {
                    assert(kinds.contains_key(was[k].0));
                    assert(crate::text::text_before(was[k].0, name@));
                } else if k > i {
                    assert(kinds.contains_key(was[k - 1].0));
                    assert(crate::text::text_before(name@, was[k - 1].0));
                }
            }
            assert forall|key: Seq<char>| #[trigger] goal.contains_key(key) implies exists|k: int|
                0 <= k < now.len() && #[trigger] now[k].0 == key by {
                if key == name@ {
                    assert(now[i as int].0 == key);
                } else {
                    assert(kinds.contains_key(key));
                    let k = choose|k: int| 0 <= k < was.len() && #[trigger] was[k].0 == key;
                    if k < i {
                        assert(now[k].0 == key);
                    } else {
                        assert(now[k + 1].0 == key);
                    }
                }
            }
            assert forall|a: int, b: int| 0 <= a < b < now.len() implies crate::text::text_before(
                #[trigger] now[a].0,
                #[trigger] now[b].0,
            ) by {
                if a < i && b < i {
                    assert(crate::text::text_before(was[a].0, was[b].0));
                } else if a < i && b == i {
                    assert(crate::text::text_before(was[a].0, name@));
                } else if a < i && b > i {
                    assert(crate::text::text_before(was[a].0, was[b - 1].0));
                } else if a == i {
                    assert(crate::text::text_before(name@, was[b - 1].0));
                } else {
                    assert(crate::text::text_before(was[a - 1].0, was[b - 1].0));
                }
            }
        }
    }
}

/// What one more row does to the types.
spec fn noted_row(kinds: Map<Seq<char>, AttrType>, row: Map<Seq<char>, Attr>) -> Map<
    Seq<char>,
    AttrType,
> {
    Map::new(
        |name: Seq<char>| kinds.contains_key(name) || kind_in(row, name) is Some,
        |name: Seq<char>|
            widened(
                if kinds.contains_key(name) {
                    Some(kinds[name])
                } else {
                    None
                },
                kind_in(row, name),
            )->0,
    )
}

/// Takes a row into account.
fn note_row(columns: &mut Vec<Column>, set: &AttributeSet, Ghost(kinds): Ghost<
    Map<Seq<char>, AttrType>,
>)
    requires
        set.wf(),
        all_wf(old(columns)@),
        lists(columns_of(old(columns)@), kinds),
    ensures
        all_wf(final(columns)@),
        lists(columns_of(final(columns)@), noted_row(kinds, set@)),
{
    let ghost entries = set.entries@;
    let n: usize = set.entries.len();
    let mut i: usize = 0;
    proof {
        assert(entries.take(0) =~= Seq::<Attribute>::empty());
        assert(noted_row(kinds, entries_map(entries.take(0))) =~= kinds);
    }
    while i < n
        invariant
            i <= n,
            n == set.entries@.len(),
            entries == set.entries@,
            names_differ(entries),
            all_wf(columns@),
            lists(columns_of(columns@), noted_row(kinds, entries_map(entries.take(i as int)))),
        decreases n - i,
    {
        let entry = &set.entries[i];
        let ghost row = entries_map(entries.take(i as int));
        let ghost next = entries_map(entries.take(i + 1));
        proof {
            assert(entries.take(i + 1).drop_last() =~= entries.take(i as int));
            assert(entries.take(i + 1).last() == entries[i as int]);
            assert(next == row.insert(entry.name@, entry.value@));
            assert(!row.contains_key(entry.name@)) by {
                let part = entries.take(i as int);
                assert forall|a: int, b: int| 0 <= a < b < part.len() implies #[trigger]
                    part[a].name@ != #[trigger] part[b].name@ by {
                    assert(entries[a].name@ != entries[b].name@);
                }
                lemma_entries_map(part);
                if row.contains_key(entry.name@) {
                    let k = choose|k: int|
                        0 <= k < part.len() && #[trigger] part[k].name@ == entry.name@;
                    assert(entries[k].name@ != entries[i as int].name@);
                }
            }
        }
        match entry.value.attr_type() {
            Some(kind) => {
                note(columns, entry.name.as_str(), kind, Ghost(noted_row(kinds, row)));
                proof {
                    assert(noted(noted_row(kinds, row), entry.name@, kind) =~= noted_row(
                        kinds,
                        next,
                    ));
                }
            },
            None => {
                proof {
                    assert(noted_row(kinds, row) =~= noted_row(kinds, next));
                }
            },
        }
        i += 1;
    }
    assert(entries.take(n as int) =~= entries);
}

/// The attributes of each row. A row may have none.
pub open spec fn row_maps(sets: Seq<AttributeSet>, rows: Seq<Option<usize>>) -> Seq<
    Map<Seq<char>, Attr>,
> {
    Seq::new(
        rows.len(),
        |i: int|
            match rows[i] {
                Some(k) => sets[k as int]@,
                None => Map::empty(),
            },
    )
}

/// Whether every row refers to one of the sets.
pub open spec fn rows_wf(sets: Seq<AttributeSet>, rows: Seq<Option<usize>>) -> bool {
    &&& forall|k: int| 0 <= k < sets.len() ==> (#[trigger] sets[k]).wf()
    &&& forall|i: int|
        0 <= i < rows.len() ==> (#[trigger] rows[i] matches Some(k) ==> k < sets.len())
}

/// The columns that the rows are written in, in the order of their names.
pub fn infer_schema(sets: &[AttributeSet], rows: &[Option<usize>]) -> (r: Vec<Column>)
    requires
        rows_wf(sets@, rows@),
    ensures
        lists(columns_of(r@), column_kinds(row_maps(sets@, rows@))),
        columns_of(r@) == schema_of(row_maps(sets@, rows@)),
{
    let ghost maps = row_maps(sets@, rows@);
    let mut columns: Vec<Column> = Vec::new();
    let n: usize = rows.len();
    let mut i: usize = 0;
    proof {
        assert(column_kinds(maps.take(0)) =~= Map::<Seq<char>, AttrType>::empty());
    }
    while i < n
        invariant
            i <= n,
            n == rows@.len(),
            rows_wf(sets@, rows@),
            maps == row_maps(sets@, rows@),
            all_wf(columns@),
            lists(columns_of(columns@), column_kinds(maps.take(i as int))),
        decreases n - i,
    {
        let ghost kinds = column_kinds(maps.take(i as int));
        proof {
            assert(maps.take(i + 1).drop_last() =~= maps.take(i as int));
            assert(maps.take(i + 1).last() == maps[i as int]);
            assert(noted_row(kinds, maps[i as int]) =~= column_kinds(maps.take(i + 1)));
        }
        match rows[i] {
            Some(k) => {
                assert(rows@[i as int] matches Some(k) ==> k < sets@.len());
                // A row like the one before changes nothing.
                let repeated: bool = i > 0 && match rows[i - 1] {
                    Some(previous) => previous == k,
                    None => false,
                };
                if repeated {
                    proof {
                        assert(maps.take(i as int).drop_last() =~= maps.take(i - 1));
                        assert(maps.take(i as int).last() == maps[i as int]);
                        assert(kinds =~= column_kinds(maps.take(i + 1)));
                    }
                } else {
                    note_row(&mut columns, &sets[k], Ghost(kinds));
                }
            },
            None => {
                proof {
                    assert(kinds =~= column_kinds(maps.take(i + 1)));
                }
            },
        }
        i += 1;
    }
    proof {
        assert(maps.take(n as int) =~= maps);
        law_listing_is_unique(columns_of(columns@), schema_of(maps), column_kinds(maps));
    }
    columns
}

/// The first row that asks for a type decides on that of the column; only where
/// it asks for whole numbers and a later row has a number in single precision,
/// the column is of such numbers.
pub proof fn law_first_type_decides(rows: Seq<Map<Seq<char>, Attr>>, name: Seq<char>, i: int)
    requires
        0 <= i < rows.len(),
        kind_in(rows[i], name) is Some,
        forall|k: int| 0 <= k < i ==> kind_in(#[trigger] rows[k], name) is None,
    ensures
        kind_in(rows[i], name) != Some(AttrType::Int32) ==> column_kind(rows, name) == kind_in(
            rows[i],
            name,
        ),
        kind_in(rows[i], name) == Some(AttrType::Int32) && (forall|k: int|
            i < k < rows.len() ==> kind_in(#[trigger] rows[k], name) != Some(AttrType::Float32))
            ==> column_kind(rows, name) == Some(AttrType::Int32),
        kind_in(rows[i], name) == Some(AttrType::Int32) && (exists|k: int|
            i < k < rows.len() && kind_in(#[trigger] rows[k], name) == Some(AttrType::Float32))
            ==> column_kind(rows, name) == Some(AttrType::Float32),
    decreases rows.len(),
{
    let head = rows.drop_last();
    assert(rows[rows.len() - 1] == rows.last());
    assert forall|k: int| 0 <= k < head.len() implies head[k] == rows[k] by {}
    if i < head.len() {
        assert(kind_in(head[i], name) is Some);
        assert forall|k: int| 0 <= k < i implies kind_in(#[trigger] head[k], name) is None by {
            assert(kind_in(rows[k], name) is None);
        }
        law_first_type_decides(head, name, i);
        if exists|k: int|
            i < k < head.len() && kind_in(#[trigger] head[k], name) == Some(AttrType::Float32) {
            let k = choose|k: int|
                i < k < head.len() && kind_in(#[trigger] head[k], name) == Some(AttrType::Float32);
            assert(kind_in(rows[k], name) == Some(AttrType::Float32));
        } else {
            assert forall|k: int| i < k < head.len() implies kind_in(#[trigger] head[k], name)
                != Some(AttrType::Float32) by {}
            if kind_in(rows.last(), name) != Some(AttrType::Float32) {
                assert forall|k: int| i < k < rows.len() implies kind_in(#[trigger] rows[k], name)
                    != Some(AttrType::Float32) by {
                    if k < head.len() {
                        assert(kind_in(head[k], name) != Some(AttrType::Float32));
                    }
                }
            }
        }
    } else {
        law_column_kind_occurs(head, name);
        assert forall|k: int| 0 <= k < head.len() implies kind_in(#[trigger] head[k], name)
            is None by {
            assert(kind_in(rows[k], name) is None);
        }
        assert(column_kind(head, name) is None);
    }
}

/// A column with a single value is of the type of the value; null, a list or an
/// object makes no column.
pub proof fn law_type_of_a_single_value(row: Map<Seq<char>, Attr>, name: Seq<char>)
    requires
        row.contains_key(name),
    ensures
        column_kind(seq![row], name) == (match row[name] {
            Attr::Text(_) => Some(AttrType::String),
            Attr::Flag(_) => Some(AttrType::Boolean),
            Attr::Integer { .. } => Some(AttrType::Int32),
            Attr::Real { .. } => Some(AttrType::Float32),
            Attr::Other => None,
        }),
{
    assert(seq![row].drop_last() =~= Seq::<Map<Seq<char>, Attr>>::empty());
    assert(seq![row].last() == row);
    reveal_with_fuel(column_kind, 2);
}

/// A list restricts attributes to those whose names are on it, with their values.
pub proof fn law_listed_names(set: Map<Seq<char>, Attr>, names: Seq<String>, name: Seq<char>)
    ensures
        set.restrict(listed(names)).contains_key(name) <==> set.contains_key(name) && exists|i: int|
            0 <= i < names.len() && #[trigger] names[i]@ == name,
        set.restrict(listed(names)).contains_key(name) ==> set.restrict(listed(names))[name]
            == set[name],
{
}

} // verus!
