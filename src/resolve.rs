//! Field type resolution: override table, backing-store enum catalog, scalar table.
use vstd::prelude::*;

use crate::expr::Argument;
use crate::import::{add_import, models, single_import, PurescriptImport};
use crate::outside::{pascal_case, pascal_of};

verus! {

/// A replacement type: its name, the module that exports it and that module's package.
#[derive(Debug, PartialEq, Eq, Hash)]
pub struct Mod {
    pub import: String,
    pub name: String,
    pub package: String,
}

/// One overridden field of an entity.
pub struct OverrideField {
    pub field: String,
    pub target: Mod,
}

/// The overridden fields of one entity.
pub struct OverrideEntity {
    pub entity: String,
    pub fields: Vec<OverrideField>,
}

/// The override table: entity, then field, to replacement type.
pub struct OutsideTypes {
    pub entities: Vec<OverrideEntity>,
}

/// A backing-store enum: its raw name, and the package, module and type that stand for it.
pub struct EnumEntry {
    pub name: String,
    pub package: String,
    pub import: String,
    pub type_ident: String,
}

/// The backing-store enum catalog.
pub struct EnumCatalog {
    pub entries: Vec<EnumEntry>,
}

/// Whether `s` ends with `p`.
pub open spec fn ends_with(s: Seq<char>, p: Seq<char>) -> bool {
    s.len() >= p.len() && s.subrange(s.len() - p.len(), s.len() as int) == p
}

/// Whether `s` starts with `p`.
pub open spec fn starts_with(s: Seq<char>, p: Seq<char>) -> bool {
    s.len() >= p.len() && s.subrange(0, p.len() as int) == p
}

/// The suffixes of generated input and helper types.
pub open spec fn module_suffixes() -> Seq<Seq<char>> {
    seq![
        "_insert_input"@,
        "_min_fields"@,
        "_max_fields"@,
        "_set_input"@,
        "_by_pk"@,
        "_pk_columns_input"@,
        "_bool_exp"@,
    ]
}

/// The prefixes of mutation verbs.
pub open spec fn module_prefixes() -> Seq<Seq<char>> {
    seq!["delete_"@, "update_"@]
}

/// The index of the first of `ps` that `s` ends with.
pub open spec fn first_suffix(s: Seq<char>, ps: Seq<Seq<char>>, from: int) -> Option<int>
    decreases ps.len() - from,
{
    if from < 0 || from >= ps.len() {
        None
    } else if ends_with(s, ps[from]) {
        Some(from)
    } else {
        first_suffix(s, ps, from + 1)
    }
}

/// `s` with each prefix of `ps`, in order, removed where it starts the text at that point.
pub open spec fn strip_prefixes(s: Seq<char>, ps: Seq<Seq<char>>) -> Seq<char>
    decreases ps.len(),
{
    if ps.len() == 0 {
        s
    } else {
        let t = strip_prefixes(s, ps.drop_last());
        if starts_with(t, ps.last()) {
            t.subrange(ps.last().len() as int, t.len() as int)
        } else {
            t
        }
    }
}

/// The name with the first generated-type suffix that ends it removed.
pub open spec fn strip_suffix(object: Seq<char>) -> Seq<char> {
    match first_suffix(object, module_suffixes(), 0) {
        None => object,
        Some(i) => object.subrange(0, object.len() - module_suffixes()[i].len()),
    }
}

/// The entity behind an input or helper type name: its generated-type suffix and its
/// mutation verb prefixes removed, each where present.
pub open spec fn entity_of(object: Seq<char>) -> Seq<char> {
    strip_prefixes(strip_suffix(object), module_prefixes())
}

/// The target language's type for a scalar of the schema.
pub open spec fn base_type(name: Seq<char>) -> Seq<char> {
    if name == "date"@ {
        "Date"@
    } else if name == "json"@ || name == "jsonb"@ {
        "Json"@
    } else if name == "uuid"@ {
        "String"@
    } else if name == "time"@ {
        "Time"@
    } else if name == "timestamp"@ || name == "timestamptz"@ {
        "DateTime"@
    } else if name == "smallint"@ {
        "Int"@
    } else if name == "bigint"@ || name == "numeric"@ {
        "Number"@
    } else if name == "citext"@ {
        "String"@
    } else if name == "Float"@ {
        "Number"@
    } else {
        name
    }
}

/// The index of the first entity of the given name.
pub open spec fn find_entity(s: Seq<OverrideEntity>, entity: Seq<char>, from: int) -> Option<int>
    decreases s.len() - from,
{
    if from < 0 || from >= s.len() {
        None
    } else if s[from].entity@ == entity {
        Some(from)
    } else {
        find_entity(s, entity, from + 1)
    }
}

/// The index of the first overridden field of the given name.
pub open spec fn find_field(s: Seq<OverrideField>, field: Seq<char>, from: int) -> Option<int>
    decreases s.len() - from,
{
    if from < 0 || from >= s.len() {
        None
    } else if s[from].field@ == field {
        Some(from)
    } else {
        find_field(s, field, from + 1)
    }
}

/// The index of the first catalog entry of the given name.
pub open spec fn find_enum(s: Seq<EnumEntry>, name: Seq<char>, from: int) -> Option<int>
    decreases s.len() - from,
{
    if from < 0 || from >= s.len() {
        None
    } else if s[from].name@ == name {
        Some(from)
    } else {
        find_enum(s, name, from + 1)
    }
}

/// A resolved type: the package and module it needs, if any, and its name.
pub struct Resolved {
    pub import: Option<(Seq<char>, Seq<char>)>,
    pub name: Seq<char>,
}

impl OutsideTypes {
    /// The override of a field of an entity.
    pub open spec fn lookup(self, entity: Seq<char>, field: Seq<char>) -> Option<Mod> {
        match find_entity(self.entities@, entity, 0) {
            None => None,
            Some(i) => match find_field(self.entities@[i].fields@, field, 0) {
                None => None,
                Some(j) => Some(self.entities@[i].fields@[j].target),
            },
        }
    }
}

/// How a field's base type resolves: the override of the field's entity, wrapped for a
/// comparison expression; else the catalog's enum; else the scalar table.
pub open spec fn resolve(
    outside: OutsideTypes,
    catalog: EnumCatalog,
    object: Seq<char>,
    field: Seq<char>,
    name: Seq<char>,
) -> Resolved {
    match outside.lookup(entity_of(object), field) {
        Some(m) => if ends_with(name, "_comparison_exp"@) {
            if name == "String_comparison_exp"@ {
                Resolved {
                    import: Some(("oa-ids"@, "Data.ComparisonExpString"@)),
                    name: "(ComparisonExpString "@ + m.name@ + ")"@,
                }
            } else {
                Resolved {
                    import: Some(("graphql-client"@, "GraphQL.Hasura.ComparisonExp"@)),
                    name: "(ComparisonExp "@ + m.name@ + ")"@,
                }
            }
        } else {
            Resolved { import: Some((m.package@, m.import@)), name: m.name@ }
        },
        None => match find_enum(catalog.entries@, name, 0) {
            Some(i) => Resolved {
                import: Some((catalog.entries@[i].package@, catalog.entries@[i].import@)),
                name: catalog.entries@[i].type_ident@,
            },
            None => Resolved { import: None, name: base_type(name) },
        },
    }
}

proof fn lemma_find_field_none(s: Seq<OverrideField>, field: Seq<char>, from: int)
    requires
        0 <= from,
        find_field(s, field, from) is None,
    ensures
        forall|k: int| from <= k < s.len() ==> (#[trigger] s[k]).field@ != field,
    decreases s.len() - from,
{
    if from < s.len() {
        lemma_find_field_none(s, field, from + 1);
    }
}

proof fn lemma_find_entity_none(s: Seq<OverrideEntity>, entity: Seq<char>, from: int)
    requires
        0 <= from,
        find_entity(s, entity, from) is None,
    ensures
        forall|k: int| from <= k < s.len() ==> (#[trigger] s[k]).entity@ != entity,
    decreases s.len() - from,
{
    if from < s.len() {
        lemma_find_entity_none(s, entity, from + 1);
    }
}

proof fn lemma_find_enum_none(s: Seq<EnumEntry>, name: Seq<char>, from: int)
    requires
        0 <= from,
        find_enum(s, name, from) is None,
    ensures
        forall|k: int| from <= k < s.len() ==> (#[trigger] s[k]).name@ != name,
    decreases s.len() - from,
{
    if from < s.len() {
        lemma_find_enum_none(s, name, from + 1);
    }
}

proof fn lemma_find_field_some(s: Seq<OverrideField>, field: Seq<char>, from: int)
    requires
        0 <= from,
    ensures
        find_field(s, field, from) matches Some(j) ==> from <= j < s.len() && s[j].field@ == field,
    decreases s.len() - from,
{
    if from < s.len() && s[from].field@ != field {
        lemma_find_field_some(s, field, from + 1);
    }
}

proof fn lemma_find_entity_some(s: Seq<OverrideEntity>, entity: Seq<char>, from: int)
    requires
        0 <= from,
    ensures
        find_entity(s, entity, from) matches Some(j) ==> from <= j < s.len() && s[j].entity@ == entity,
    decreases s.len() - from,
{
    if from < s.len() && s[from].entity@ != entity {
        lemma_find_entity_some(s, entity, from + 1);
    }
}

impl EnumCatalog {
    /// No two entries share a name.
    pub open spec fn wf(self) -> bool {
        forall|i: int, j: int|
            0 <= i < j < self.entries@.len() ==> self.entries@[i].name@ != self.entries@[j].name@
    }

    /// Adds an entry, replacing an earlier one of the same name.
    pub fn insert(&mut self, entry: EnumEntry)
        ensures
            match find_enum(old(self).entries@, entry.name@, 0) {
                Some(i) => final(self).entries@ == old(self).entries@.update(i, entry),
                None => final(self).entries@ == old(self).entries@.push(entry),
            },
            old(self).wf() ==> final(self).wf(),
    {
        let mut i: usize = 0;
        while i < self.entries.len()
            invariant
                i <= self.entries.len(),
                self.entries@ == old(self).entries@,
                find_enum(self.entries@, entry.name@, 0) == find_enum(self.entries@, entry.name@, i as int),
            decreases self.entries.len() - i,
        {
            if self.entries[i].name == entry.name {
                self.entries.set(i, entry);
                return;
            }
            i = i + 1;
        }
        proof {
            lemma_find_enum_none(old(self).entries@, entry.name@, 0);
        }
        self.entries.push(entry);
    }
}

impl OverrideEntity {
    /// No two overridden fields share a name.
    pub open spec fn wf(self) -> bool {
        forall|i: int, j: int| 0 <= i < j < self.fields@.len() ==> self.fields@[i].field@ != self.fields@[j].field@
    }

    /// An entity with no overridden fields yet.
    pub fn new(entity: &str) -> (r: OverrideEntity)
        ensures
            r.entity@ == entity@,
            r.fields@.len() == 0,
            r.wf(),
    {
        OverrideEntity { entity: entity.to_string(), fields: Vec::new() }
    }

    /// Sets the override of a field, replacing an earlier one of the same field.
    pub fn insert(&mut self, field: String, target: Mod)
        ensures
            final(self).entity == old(self).entity,
            match find_field(old(self).fields@, field@, 0) {
                Some(j) => final(self).fields@ == old(self).fields@.update(
                    j,
                    OverrideField { field: old(self).fields@[j].field, target },
                ),
                None => final(self).fields@ == old(self).fields@.push(OverrideField { field, target }),
            },
            old(self).wf() ==> final(self).wf(),
    {
        let mut j: usize = 0;
        while j < self.fields.len()
            invariant
                j <= self.fields.len(),
                self.fields@ == old(self).fields@,
                self.entity == old(self).entity,
                find_field(self.fields@, field@, 0) == find_field(self.fields@, field@, j as int),
            decreases self.fields.len() - j,
        {
            if self.fields[j].field == field {
                let existing = self.fields.remove(j);
                self.fields.insert(j, OverrideField { field: existing.field, target });
                assert(self.fields@ =~= old(self).fields@.update(
                    j as int,
                    OverrideField { field: old(self).fields@[j as int].field, target },
                ));
                return;
            }
            j = j + 1;
        }
        proof {
            lemma_find_field_none(old(self).fields@, field@, 0);
        }
        self.fields.push(OverrideField { field, target });
    }
}

impl OutsideTypes {
    /// No two entities share a name, and no entity has two overrides of one field.
    pub open spec fn wf(self) -> bool {
        &&& forall|i: int, j: int|
            0 <= i < j < self.entities@.len() ==> self.entities@[i].entity@ != self.entities@[j].entity@
        &&& forall|i: int| 0 <= i < self.entities@.len() ==> (#[trigger] self.entities@[i]).wf()
    }

    /// Sets the overrides of an entity, replacing earlier ones of the same entity.
    pub fn insert(&mut self, entity: OverrideEntity)
        ensures
            match find_entity(old(self).entities@, entity.entity@, 0) {
                Some(i) => final(self).entities@ == old(self).entities@.update(i, entity),
                None => final(self).entities@ == old(self).entities@.push(entity),
            },
            old(self).wf() && entity.wf() ==> final(self).wf(),
    {
        let mut i: usize = 0;
        while i < self.entities.len()
            invariant
                i <= self.entities.len(),
                self.entities@ == old(self).entities@,
                find_entity(self.entities@, entity.entity@, 0) == find_entity(
                    self.entities@,
                    entity.entity@,
                    i as int,
                ),
            decreases self.entities.len() - i,
        {
            if self.entities[i].entity == entity.entity {
                proof {
                    lemma_find_entity_some(old(self).entities@, entity.entity@, 0);
                }
                self.entities.set(i, entity);
                return;
            }
            i = i + 1;
        }
        proof {
            lemma_find_entity_none(old(self).entities@, entity.entity@, 0);
        }
        self.entities.push(entity);
    }
}

/// Whether `s` ends with `p`.
pub fn text_ends_with(s: &str, p: &str) -> (r: bool)
    ensures
        r == ends_with(s@, p@),
{
    let n = s.unicode_len();
    let k = p.unicode_len();
    if n < k {
        return false;
    }
    let mut i: usize = 0;
    while i < k
        invariant
            n == s@.len(),
            k == p@.len(),
            k <= n,
            i <= k,
            forall|j: int| 0 <= j < i ==> s@[n - k + j] == p@[j],
        decreases k - i,
    {
        if s.get_char(n - k + i) != p.get_char(i) {
            assert(s@.subrange(n - k, n as int)[i as int] != p@[i as int]);
            return false;
        }
        i = i + 1;
    }
    assert(s@.subrange(n - k, n as int) =~= p@);
    true
}

/// Whether `s` starts with `p`.
pub fn text_starts_with(s: &str, p: &str) -> (r: bool)
    ensures
        r == starts_with(s@, p@),
{
    let n = s.unicode_len();
    let k = p.unicode_len();
    if n < k {
        return false;
    }
    let mut i: usize = 0;
    while i < k
        invariant
            n == s@.len(),
            k == p@.len(),
            k <= n,
            i <= k,
            forall|j: int| 0 <= j < i ==> s@[j] == p@[j],
        decreases k - i,
    {
        if s.get_char(i) != p.get_char(i) {
            assert(s@.subrange(0, k as int)[i as int] != p@[i as int]);
            return false;
        }
        i = i + 1;
    }
    assert(s@.subrange(0, k as int) =~= p@);
    true
}

/// The suffixes of generated input and helper types, in the order they are tried.
fn suffix_list() -> (r: Vec<&'static str>)
    ensures
        r.deep_view() == module_suffixes(),
{
    let r = vec![
        "_insert_input",
        "_min_fields",
        "_max_fields",
        "_set_input",
        "_by_pk",
        "_pk_columns_input",
        "_bool_exp",
    ];
    assert(r.deep_view() =~= module_suffixes());
    r
}

/// The prefixes of mutation verbs, in the order they are tried.
fn prefix_list() -> (r: Vec<&'static str>)
    ensures
        r.deep_view() == module_prefixes(),
{
    let r = vec!["delete_", "update_"];
    assert(r.deep_view() =~= module_prefixes());
    r
}

/// The entity behind an input or helper type name: the first known suffix removed, then the
/// mutation verb prefixes.
pub fn entity_name(object: &str) -> (r: String)
    ensures
        r@ == entity_of(object@),
{
    let mut t = strip_module_suffix(object);
    let prefixes = prefix_list();
    let mut j: usize = 0;
    assert(prefixes.deep_view().take(0) =~= Seq::<Seq<char>>::empty());
    while j < prefixes.len()
        invariant
            j <= prefixes.len(),
            prefixes.deep_view() == module_prefixes(),
            t@ == strip_prefixes(strip_suffix(object@), prefixes.deep_view().take(j as int)),
        decreases prefixes.len() - j,
    {
        let prefix: &str = prefixes[j];
        assert(prefix@ == module_prefixes()[j as int]);
        assert(prefixes.deep_view().take(j as int + 1).drop_last() =~= prefixes.deep_view().take(j as int));
        if text_starts_with(t.as_str(), prefix) {
            let m = t.as_str().unicode_len();
            let pl = prefix.unicode_len();
            t = String::from_str(t.as_str().substring_char(pl, m));
        }
        j = j + 1;
    }
    assert(prefixes.deep_view().take(prefixes.len() as int) =~= module_prefixes());
    t
}

/// The name with the first generated-type suffix that ends it removed.
fn strip_module_suffix(object: &str) -> (r: String)
    ensures
        r@ == strip_suffix(object@),
{
    let suffixes = suffix_list();
    let mut i: usize = 0;
    while i < suffixes.len()
        invariant
            i <= suffixes.len(),
            suffixes.deep_view() == module_suffixes(),
            first_suffix(object@, module_suffixes(), 0) == first_suffix(object@, module_suffixes(), i as int),
        decreases suffixes.len() - i,
    {
        let suffix: &str = suffixes[i];
        assert(suffix@ == module_suffixes()[i as int]);
        if text_ends_with(object, suffix) {
            let n = object.unicode_len();
            let k = suffix.unicode_len();
            return String::from_str(object.substring_char(0, n - k));
        }
        i = i + 1;
    }
    object.to_string()
}

/// The target language's type for a scalar of the schema; other names pass unchanged.
pub fn base_types(type_ident: &str) -> (r: &str)
    ensures
        r@ == base_type(type_ident@),
{
    let t = type_ident.to_string();
    if t == "date".to_string() {
        "Date"
    } else if t == "json".to_string() || t == "jsonb".to_string() {
        "Json"
    } else if t == "uuid".to_string() {
        "String"
    } else if t == "time".to_string() {
        "Time"
    } else if t == "timestamp".to_string() || t == "timestamptz".to_string() {
        "DateTime"
    } else if t == "smallint".to_string() {
        "Int"
    } else if t == "bigint".to_string() || t == "numeric".to_string() {
        "Number"
    } else if t == "citext".to_string() {
        "String"
    } else if t == "Float".to_string() {
        "Number"
    } else {
        type_ident
    }
}

/// The override of a field of an entity, as (package, module, type).
pub fn get_outside_type(object: &str, field: &str, outside_types: &OutsideTypes) -> (r: Option<
    (String, String, String),
>)
    ensures
        match outside_types.lookup(object@, field@) {
            None => r is None,
            Some(m) => r matches Some((p, i, n)) && p@ == m.package@ && i@ == m.import@ && n@
                == m.name@,
        },
{
    let e = object.to_string();
    let f = field.to_string();
    let mut i: usize = 0;
    while i < outside_types.entities.len()
        invariant
            i <= outside_types.entities.len(),
            e@ == object@,
            f@ == field@,
            find_entity(outside_types.entities@, object@, 0) == find_entity(
                outside_types.entities@,
                object@,
                i as int,
            ),
        decreases outside_types.entities.len() - i,
    {
        let entity = &outside_types.entities[i];
        if entity.entity == e {
            let mut j: usize = 0;
            while j < entity.fields.len()
                invariant
                    j <= entity.fields.len(),
                    f@ == field@,
                    i < outside_types.entities.len(),
                    *entity == outside_types.entities@[i as int],
                    find_entity(outside_types.entities@, object@, 0) == Some(i as int),
                    find_field(entity.fields@, field@, 0) == find_field(entity.fields@, field@, j as int),
                decreases entity.fields.len() - j,
            {
                let fo = &entity.fields[j];
                if fo.field == f {
                    return Some(
                        (fo.target.package.clone(), fo.target.import.clone(), fo.target.name.clone()),
                    );
                }
                j = j + 1;
            }
            return None;
        }
        i = i + 1;
    }
    None
}

/// The catalog entry of a raw enum name, as (package, module, type).
fn get_enum_type(name: &str, catalog: &EnumCatalog) -> (r: Option<(String, String, String)>)
    ensures
        match find_enum(catalog.entries@, name@, 0) {
            None => r is None,
            Some(i) => r matches Some((p, m, t)) && p@ == catalog.entries@[i].package@ && m@
                == catalog.entries@[i].import@ && t@ == catalog.entries@[i].type_ident@,
        },
{
    let n = name.to_string();
    let mut i: usize = 0;
    while i < catalog.entries.len()
        invariant
            i <= catalog.entries.len(),
            n@ == name@,
            find_enum(catalog.entries@, name@, 0) == find_enum(catalog.entries@, name@, i as int),
        decreases catalog.entries.len() - i,
    {
        let entry = &catalog.entries[i];
        if entry.name == n {
            return Some((entry.package.clone(), entry.import.clone(), entry.type_ident.clone()));
        }
        i = i + 1;
    }
    None
}

/// Resolves the base type of a field, as (package and module needed, type name).
pub fn outside_type(
    object: &str,
    field: &str,
    name: &str,
    purs_types: &EnumCatalog,
    outside_types: &OutsideTypes,
) -> (r: (Option<(String, String)>, String))
    ensures
        r.1@ == resolve(*outside_types, *purs_types, object@, field@, name@).name,
        match resolve(*outside_types, *purs_types, object@, field@, name@).import {
            None => r.0 is None,
            Some((p, m)) => r.0 matches Some((rp, rm)) && rp@ == p && rm@ == m,
        },
{
    let is_comparison_fn = text_ends_with(name, "_comparison_exp");
    let entity = entity_name(object);
    match get_outside_type(entity.as_str(), field, outside_types) {
        Some((package, import, type_)) => {
            if is_comparison_fn {
                let mut t = String::new();
                if name.to_string() == "String_comparison_exp".to_string() {
                    t.append("(ComparisonExpString ");
                    t.append(type_.as_str());
                    t.append(")");
                    (Some(("oa-ids".to_string(), "Data.ComparisonExpString".to_string())), t)
                } else {
                    t.append("(ComparisonExp ");
                    t.append(type_.as_str());
                    t.append(")");
                    (Some(("graphql-client".to_string(), "GraphQL.Hasura.ComparisonExp".to_string())), t)
                }
            } else {
                (Some((package, import)), type_)
            }
        },
        None => match get_enum_type(name, purs_types) {
            Some((package, import, type_)) => (Some((package, import)), type_),
            None => (None, base_types(name).to_string()),
        },
    }
}

/// The type that `AsGql "name" T` denotes for a resolved type name.
pub open spec fn as_gql_shape(r: Argument, name: Seq<char>, t: Seq<char>) -> bool {
    r matches Argument::Type(n, args) && n@ == "AsGql"@ && args@.len() == 2 && (args@[0] matches Argument::Type(
        q,
        qa,
    ) && q@ == "\""@ + name + "\""@ && qa@.len() == 0) && (args@[1] matches Argument::Type(m, ma) && m@ == t
        && ma@.len() == 0)
}

/// The type of a field: `AsGql "name" T` for the resolved type `T`; an override or catalog
/// type brings its import, and a scalar's name is put in pascal case.
pub fn as_gql_field(
    object: &str,
    field: &str,
    name: &str,
    imports: &mut Vec<PurescriptImport>,
    purs_types: &EnumCatalog,
    outside_types: &OutsideTypes,
) -> (r: Argument)
    ensures
        ({
            let res = resolve(*outside_types, *purs_types, object@, field@, name@);
            match res.import {
                Some((p, m)) => as_gql_shape(r, name@, res.name) && models(final(imports)@)
                    == models(old(imports)@).push(single_import(p, m, res.name)),
                None => as_gql_shape(r, name@, pascal_of(res.name)) && final(imports)@
                    == old(imports)@,
            }
        }),
{
    let (import, type_) = outside_type(object, field, name, purs_types, outside_types);
    let mut quoted = String::new();
    quoted.append("\"");
    quoted.append(name);
    quoted.append("\"");
    let shown = match import {
        Some((field_package, field_import)) => {
            add_import(field_package.as_str(), field_import.as_str(), type_.as_str(), imports);
            type_
        },
        None => pascal_case(type_.as_str()),
    };
    let mut args: Vec<Argument> = Vec::new();
    args.push(Argument::new_type(quoted.as_str()));
    args.push(Argument::new_type(shown.as_str()));
    Argument::Type("AsGql".to_string(), args)
}

} // verus!
