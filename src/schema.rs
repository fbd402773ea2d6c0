//! The walk over an introspected schema that builds a role's module.
use vstd::prelude::*;

use crate::decl::{derive_new_type_instance, DeriveInstance, PurescriptType, Variant};
use crate::directives::named_leaf;
use crate::enum_gen::{
    emitted_originals, emitted_values, generate_enum, routes_shared, shared_source, EnumType, GeneratedEnum, SharedEnumConfig, SharedEnumModule,
};
use crate::error::ModelError;
use crate::expr::{args_texts, args_vars, fields_texts, fields_vars, Argument, Field, PurescriptRecord};
use crate::import::{add_import, models, single_import, ImportModel, PurescriptImport};
use crate::module::{dedup_types, is_dedup_of, module_text, print_module};
use crate::outside::{pascal_case, pascal_of};
use crate::record::has_label;
use crate::resolve::{
    as_gql_field, as_gql_shape, resolve, starts_with, text_starts_with, EnumCatalog, OutsideTypes,
};
use crate::wrapping::{
    argument_layers, copies, maybe_count, maybe_import, non_null_count, not_null_import,
    return_layers, return_type_wrapper, wrap_type, wrapped_in, WrappingType,
};

verus! {

/// A named type under its modifiers, innermost first.
pub struct TypeRef {
    pub name: String,
    pub wrapping: Vec<WrappingType>,
}

/// An argument of a field, or a field of an input object.
pub struct InputValue {
    pub name: String,
    pub ty: TypeRef,
}

/// A field of an object type.
pub struct FieldDef {
    pub name: String,
    pub args: Vec<InputValue>,
    pub ty: TypeRef,
}

/// An object type.
pub struct ObjectType {
    pub name: String,
    pub fields: Vec<FieldDef>,
}

/// An input object type.
pub struct InputObjectType {
    pub name: String,
    pub fields: Vec<InputValue>,
}

/// A type of the schema, by kind.
pub enum SchemaType {
    Object(ObjectType),
    Scalar(String),
    Enum(EnumType),
    InputObject(InputObjectType),
    Interface(String),
    Union(String),
}

/// An introspected schema, as far as module generation reads it.
pub struct Schema {
    pub query_type: String,
    pub mutation_type: Option<String>,
    pub subscription_type: Option<String>,
    pub types: Vec<SchemaType>,
    pub has_directives: bool,
}

/// Why a role's module could not be built.
#[derive(Debug, PartialEq, Eq)]
pub enum SchemaError {
    /// The schema names no query type.
    UnrecognizedSchemaShape,
    /// A record or declaration could not be built.
    ModelInvariantViolation(ModelError),
}

/// A role's module: its parts, and its text.
pub struct SchemaModule {
    pub types: Vec<PurescriptType>,
    pub records: Vec<PurescriptRecord>,
    pub imports: Vec<PurescriptImport>,
    pub variants: Vec<Variant>,
    pub instances: Vec<DeriveInstance>,
    pub shared_enums: Vec<SharedEnumModule>,
    pub text: String,
}

/// The labels of the root record.
pub open spec fn root_slots() -> Seq<Seq<char>> {
    seq!["query"@, "mutation"@, "subscription"@, "directives"@]
}

/// Whether the field of label `name` has the named type `t` with no arguments.
pub open spec fn slot_is(fields: Seq<Field>, name: Seq<char>, t: Seq<char>) -> bool {
    exists|i: int|
        0 <= i < fields.len() && fields[i].name@ == name && (fields[i].field_type matches Argument::Type(
            n,
            args,
        ) && n@ == t && args@.len() == 0)
}

/// Whether the root record has exactly the four slots, each unpopulated one of the placeholder
/// type.
pub open spec fn root_ok(root: PurescriptRecord, schema: Schema) -> bool {
    &&& root.fields@.len() == 4
    &&& forall|k: int| 0 <= k < 4 ==> has_label(root.fields@, #[trigger] root_slots()[k])
    &&& slot_is(root.fields@, "query"@, "Query"@)
    &&& (schema.mutation_type is None <==> slot_is(root.fields@, "mutation"@, "Void"@))
    &&& (schema.subscription_type is None <==> slot_is(root.fields@, "subscription"@, "Void"@))
    &&& (!schema.has_directives <==> slot_is(root.fields@, "directives"@, "Void"@))
}

/// Whether the root record holds, in order, the four slots with their exact types.
pub open spec fn root_exact(root: PurescriptRecord, s: Schema) -> bool {
    let f = root.fields@;
    &&& root.arguments@.len() == 0
    &&& f.len() == 4
    &&& f[0].name@ == "query"@ && named_leaf(f[0].field_type, "Query"@)
    &&& f[1].name@ == "mutation"@ && named_leaf(
        f[1].field_type,
        if s.mutation_type is Some {
            "Mutation"@
        } else {
            "Void"@
        },
    )
    &&& f[2].name@ == "subscription"@ && named_leaf(
        f[2].field_type,
        if s.subscription_type is Some {
            "Subscription"@
        } else {
            "Void"@
        },
    )
    &&& f[3].name@ == "directives"@ && if s.has_directives {
        f[3].field_type matches Argument::Type(n, args) && n@ == "Proxy"@ && args@.len() == 1
            && named_leaf(args@[0], "Directives"@)
    } else {
        named_leaf(f[3].field_type, "Void"@)
    }
}

/// Whether a scalar is one of GraphQL's own.
pub fn is_builtin_scalar(name: &str) -> (r: bool)
    ensures
        r == (name@ == "String"@ || name@ == "Boolean"@ || name@ == "Int"@ || name@ == "ID"@
            || name@ == "Float"@),
{
    let n = name.to_string();
    n == "String".to_string() || n == "Boolean".to_string() || n == "Int".to_string() || n
        == "ID".to_string() || n == "Float".to_string()
}

/// The import that a used scalar needs, as (package, module, symbol), if any.
pub open spec fn scalar_import_of(n: Seq<char>) -> Option<(Seq<char>, Seq<char>, Seq<char>)> {
    if n == "String"@ || n == "Boolean"@ || n == "Int"@ || n == "ID"@ || n == "Float"@ {
        None
    } else if n == "date"@ {
        Some(("datetime"@, "Data.Date"@, "Date"@))
    } else if n == "timestamp"@ || n == "timestamptz"@ {
        Some(("datetime"@, "Data.DateTime"@, "DateTime"@))
    } else if n == "json"@ || n == "jsonb"@ {
        Some(("argonaut-core"@, "Data.Argonaut.Core"@, "Json"@))
    } else if n == "time"@ {
        Some(("datetime"@, "Data.Time"@, "Time"@))
    } else {
        None
    }
}

/// The import that a used scalar needs, as (package, module, symbol), if any.
pub fn scalar_import(name: &str) -> (r: Option<(&'static str, &'static str, &'static str)>)
    ensures
        match scalar_import_of(name@) {
            None => r is None,
            Some((p, m, s)) => (r matches Some((rp, rm, rs)) && rp@ == p && rm@ == m && rs@ == s),
        },
{
    let n = name.to_string();
    if is_builtin_scalar(name) {
        None
    } else if n == "date".to_string() {
        Some(("datetime", "Data.Date", "Date"))
    } else if n == "timestamp".to_string() || n == "timestamptz".to_string() {
        Some(("datetime", "Data.DateTime", "DateTime"))
    } else if n == "json".to_string() || n == "jsonb".to_string() {
        Some(("argonaut-core", "Data.Argonaut.Core", "Json"))
    } else if n == "time".to_string() {
        Some(("datetime", "Data.Time", "Time"))
    } else {
        None
    }
}

fn map_model_error<T>(r: Result<T, ModelError>) -> (out: Result<T, SchemaError>)
    ensures
        match r {
            Ok(t) => out == Ok::<T, SchemaError>(t),
            Err(e) => out == Err::<T, SchemaError>(SchemaError::ModelInvariantViolation(e)),
        },
{
    match r {
        Ok(t) => Ok(t),
        Err(e) => Err(SchemaError::ModelInvariantViolation(e)),
    }
}

/// Whether no two values share a name.
pub open spec fn unique_values(vs: Seq<InputValue>) -> bool {
    forall|i: int, j: int| 0 <= i < j < vs.len() ==> vs[i].name@ != vs[j].name@
}

/// Whether no two fields share a name.
pub open spec fn unique_fields(fs: Seq<FieldDef>) -> bool {
    forall|i: int, j: int| 0 <= i < j < fs.len() ==> fs[i].name@ != fs[j].name@
}

/// Whether an object's fields, and each field's arguments, have unique names.
pub open spec fn object_ok(o: ObjectType) -> bool {
    unique_fields(o.fields@) && forall|k: int| 0 <= k < o.fields@.len() ==> unique_values(
        (#[trigger] o.fields@[k]).args@,
    )
}

/// Whether the walk over a type of the schema succeeds.
pub open spec fn type_ok(t: SchemaType) -> bool {
    match t {
        SchemaType::Object(o) => starts_with(o.name@, "__"@) || object_ok(o),
        SchemaType::InputObject(o) => starts_with(o.name@, "__"@) || unique_values(o.fields@),
        SchemaType::Enum(e) => starts_with(e.name@, "__"@) || (0 < e.values@.len() < usize::MAX),
        _ => true,
    }
}

/// Whether a module can be built from the schema: it names a query type, every enum has
/// values, and no record would get two fields of one label.
pub open spec fn schema_ok(s: Schema) -> bool {
    s.query_type@.len() > 0 && forall|k: int| 0 <= k < s.types@.len() ==> type_ok(#[trigger] s.types@[k])
}

pub(crate) proof fn lemma_leaf_vars(a: Argument)
    requires
        a matches Argument::Type(n, args) && args@.len() == 0,
    ensures
        a.vars().len() == 0,
{
    assert(args_vars(a->Type_1@) =~= Seq::<Seq<char>>::empty());
}

proof fn lemma_two_leaves_vars(a: Argument)
    requires
        a matches Argument::Type(n, args) && args@.len() == 2 && (args@[0] matches Argument::Type(
            m0,
            a0,
        ) && a0@.len() == 0) && (args@[1] matches Argument::Type(m1, a1) && a1@.len() == 0),
    ensures
        a.vars().len() == 0,
{
    let s = a->Type_1@;
    lemma_leaf_vars(s[0]);
    lemma_leaf_vars(s[1]);
    assert(s.drop_last().drop_last() =~= Seq::<Argument>::empty());
    assert(s.drop_last().last() == s[0]);
    assert(s.last() == s[1]);
    assert(args_vars(s.drop_last().drop_last()) =~= Seq::<Seq<char>>::empty());
    assert(args_vars(s.drop_last()) =~= args_vars(s.drop_last().drop_last()) + s[0].vars());
    assert(args_vars(s) =~= args_vars(s.drop_last()) + s[1].vars());
}

pub(crate) proof fn lemma_wrapped_vars(r: Argument, base: Argument, layers: Seq<Seq<char>>)
    requires
        wrapped_in(r, base, layers),
        base.vars().len() == 0,
    ensures
        r.vars().len() == 0,
    decreases layers.len(),
{
    if layers.len() > 0 {
        let inner = r->Type_1@[0];
        lemma_wrapped_vars(inner, base, layers.drop_last());
        assert(r->Type_1@.drop_last() =~= Seq::<Argument>::empty());
        assert(args_vars(r->Type_1@) =~= args_vars(r->Type_1@.drop_last()) + inner.vars());
    }
}

pub(crate) proof fn lemma_record_vars(fs: Seq<Field>)
    requires
        forall|k: int| 0 <= k < fs.len() ==> (#[trigger] fs[k]).field_type.vars().len() == 0,
    ensures
        fields_vars(fs).len() == 0,
    decreases fs.len(),
{
    if fs.len() > 0 {
        lemma_record_vars(fs.drop_last());
        assert(fs[fs.len() - 1].field_type.vars().len() == 0);
    }
}

proof fn lemma_function_vars(f: Argument, rec: PurescriptRecord, ret: Argument)
    requires
        f matches Argument::Function(g) && g.arguments@ == seq![Argument::Record(rec)] && g.return_type == ret,
        forall|k: int| 0 <= k < rec.fields@.len() ==> (#[trigger] rec.fields@[k]).field_type.vars().len() == 0,
        ret.vars().len() == 0,
    ensures
        f.vars().len() == 0,
{
    lemma_record_vars(rec.fields@);
    let s = seq![Argument::Record(rec)];
    assert(s.drop_last() =~= Seq::<Argument>::empty());
    assert(args_vars(s) =~= args_vars(s.drop_last()) + Argument::Record(rec).vars());
}

/// Adds a field whose type uses no type variable; succeeds where the label is new.
fn add_plain_field(record: &mut PurescriptRecord, name: &str, ty: Argument) -> (r: Result<(), SchemaError>)
    requires
        ty.vars().len() == 0,
    ensures
        !has_label(old(record).fields@, name@) <==> r is Ok,
        r is Ok ==> final(record).fields@.drop_last() == old(record).fields@,
        r is Ok ==> final(record).fields@.len() == old(record).fields@.len() + 1,
        r is Ok ==> final(record).fields@.last().name@ == name@,
        r is Ok ==> final(record).fields@.last().field_type == ty,
        final(record).arguments == old(record).arguments,
        final(record).name == old(record).name,
{
    map_model_error(record.add_plain_field(name, ty))
}

/// The `AsGql` form of a field's resolved type.
pub open spec fn gql_shape(
    r: Argument,
    object: Seq<char>,
    field: Seq<char>,
    name: Seq<char>,
    outside: OutsideTypes,
    catalog: EnumCatalog,
) -> bool {
    let res = resolve(outside, catalog, object, field, name);
    as_gql_shape(
        r,
        name,
        if res.import is Some {
            res.name
        } else {
            pascal_of(res.name)
        },
    )
}

/// The imports that resolving a field's type brings.
pub open spec fn gql_imports(
    object: Seq<char>,
    field: Seq<char>,
    name: Seq<char>,
    outside: OutsideTypes,
    catalog: EnumCatalog,
) -> Seq<ImportModel> {
    let res = resolve(outside, catalog, object, field, name);
    match res.import {
        Some((p, m)) => seq![single_import(p, m, res.name)],
        None => Seq::empty(),
    }
}

/// Whether `r` is the `AsGql` form of a field's type inside one constructor per layer.
pub open spec fn wraps_gql(
    r: Argument,
    layers: Seq<Seq<char>>,
    object: Seq<char>,
    field: Seq<char>,
    name: Seq<char>,
    outside: OutsideTypes,
    catalog: EnumCatalog,
) -> bool
    decreases layers.len(),
{
    if layers.len() == 0 {
        gql_shape(r, object, field, name, outside, catalog)
    } else {
        match r {
            Argument::Type(n, args) => n@ == layers.last() && args@.len() == 1 && wraps_gql(
                args@[0],
                layers.drop_last(),
                object,
                field,
                name,
                outside,
                catalog,
            ),
            _ => false,
        }
    }
}

proof fn lemma_wraps_gql(
    r: Argument,
    base: Argument,
    layers: Seq<Seq<char>>,
    object: Seq<char>,
    field: Seq<char>,
    name: Seq<char>,
    outside: OutsideTypes,
    catalog: EnumCatalog,
)
    requires
        wrapped_in(r, base, layers),
        gql_shape(base, object, field, name, outside, catalog),
    ensures
        wraps_gql(r, layers, object, field, name, outside, catalog),
    decreases layers.len(),
{
    if layers.len() > 0 {
        lemma_wraps_gql(r->Type_1@[0], base, layers.drop_last(), object, field, name, outside, catalog);
    }
}

/// Whether `a` is the argument type of the value `v` of `object`.
pub open spec fn value_type_ok(a: Argument, object: Seq<char>, v: InputValue, outside: OutsideTypes, catalog: EnumCatalog) -> bool {
    wraps_gql(a, argument_layers(v.ty.wrapping@), object, v.name@, v.ty.name@, outside, catalog)
}

/// Whether a record has one field per value, in order, each of the value's argument type.
pub open spec fn values_record_ok(
    rec: PurescriptRecord,
    object: Seq<char>,
    vs: Seq<InputValue>,
    outside: OutsideTypes,
    catalog: EnumCatalog,
) -> bool {
    rec.fields@.len() == vs.len() && forall|k: int|
        0 <= k < vs.len() ==> (#[trigger] rec.fields@[k]).name@ == vs[k].name@ && value_type_ok(
            rec.fields@[k].field_type,
            object,
            vs[k],
            outside,
            catalog,
        )
}

/// Whether `a` is the type of field `f` of object `object`: a function from the record of its
/// arguments to its wrapped return type.
pub open spec fn object_field_ok(a: Argument, object: Seq<char>, f: FieldDef, outside: OutsideTypes, catalog: EnumCatalog) -> bool {
    a matches Argument::Function(g) && g.arguments@.len() == 1 && (g.arguments@[0] matches Argument::Record(
        args,
    ) && values_record_ok(args, f.name@, f.args@, outside, catalog)) && wraps_gql(
        g.return_type,
        return_layers(f.ty.wrapping@),
        object,
        f.name@,
        f.ty.name@,
        outside,
        catalog,
    )
}

/// Whether a record has one field per field of the object, in order, each of its type.
pub open spec fn object_record_ok(rec: PurescriptRecord, o: ObjectType, outside: OutsideTypes, catalog: EnumCatalog) -> bool {
    rec.fields@.len() == o.fields@.len() && forall|k: int|
        0 <= k < o.fields@.len() ==> (#[trigger] rec.fields@[k]).name@ == o.fields@[k].name@
            && object_field_ok(rec.fields@[k].field_type, o.name@, o.fields@[k], outside, catalog)
}

/// The imports that the argument type of one value brings.
pub open spec fn value_imports(object: Seq<char>, v: InputValue, outside: OutsideTypes, catalog: EnumCatalog) -> Seq<ImportModel> {
    gql_imports(object, v.name@, v.ty.name@, outside, catalog) + copies(
        not_null_import(),
        non_null_count(v.ty.wrapping@),
    )
}

/// The imports that the argument types of values bring, in order.
pub open spec fn values_imports(object: Seq<char>, vs: Seq<InputValue>, outside: OutsideTypes, catalog: EnumCatalog) -> Seq<ImportModel>
    decreases vs.len(),
{
    if vs.len() == 0 {
        Seq::empty()
    } else {
        values_imports(object, vs.drop_last(), outside, catalog) + value_imports(
            object,
            vs.last(),
            outside,
            catalog,
        )
    }
}

/// The imports that one field of an object brings: its arguments', then its return type's.
pub open spec fn field_imports(object: Seq<char>, f: FieldDef, outside: OutsideTypes, catalog: EnumCatalog) -> Seq<ImportModel> {
    values_imports(f.name@, f.args@, outside, catalog) + gql_imports(
        object,
        f.name@,
        f.ty.name@,
        outside,
        catalog,
    ) + copies(maybe_import(), maybe_count(return_layers(f.ty.wrapping@)))
}

/// The imports that the fields of an object bring, in order.
pub open spec fn fields_imports(object: Seq<char>, fs: Seq<FieldDef>, outside: OutsideTypes, catalog: EnumCatalog) -> Seq<ImportModel>
    decreases fs.len(),
{
    if fs.len() == 0 {
        Seq::empty()
    } else {
        fields_imports(object, fs.drop_last(), outside, catalog) + field_imports(
            object,
            fs.last(),
            outside,
            catalog,
        )
    }
}

/// The `AsGql` form of a field's resolved type, with the imports it brings.
fn gql_field(
    object: &str,
    field: &str,
    name: &str,
    imports: &mut Vec<PurescriptImport>,
    catalog: &EnumCatalog,
    outside: &OutsideTypes,
) -> (r: Argument)
    ensures
        gql_shape(r, object@, field@, name@, *outside, *catalog),
        models(final(imports)@) == models(old(imports)@) + gql_imports(object@, field@, name@, *outside, *catalog),
        r.vars().len() == 0,
{
    let r = as_gql_field(object, field, name, imports, catalog, outside);
    proof {
        lemma_two_leaves_vars(r);
        assert(models(imports@) =~= models(old(imports)@) + gql_imports(object@, field@, name@, *outside, *catalog));
    }
    r
}

/// The record type of an object: each field a function from its arguments record to its
/// wrapped return type. Succeeds where field names, and each field's argument names, are
/// unique.
fn object_record(
    obj: &ObjectType,
    imports: &mut Vec<PurescriptImport>,
    catalog: &EnumCatalog,
    outside: &OutsideTypes,
) -> (r: Result<PurescriptRecord, SchemaError>)
    ensures
        object_ok(*obj) <==> r is Ok,
        r matches Ok(rec) ==> rec.arguments@.len() == 0 && forall|k: int|
            0 <= k < rec.fields@.len() ==> (#[trigger] rec.fields@[k]).field_type.vars().len() == 0,
        r matches Ok(rec) ==> rec.name@ == "Ignored"@ && object_record_ok(rec, *obj, *outside, *catalog),
        r is Ok ==> models(final(imports)@) == models(old(imports)@) + fields_imports(
            obj.name@,
            obj.fields@,
            *outside,
            *catalog,
        ),
{
    let mut record = PurescriptRecord::new("Ignored");
    let mut i: usize = 0;
    assert(models(imports@) =~= models(old(imports)@) + fields_imports(obj.name@, obj.fields@.take(0), *outside, *catalog));
    while i < obj.fields.len()
        invariant
            i <= obj.fields.len(),
            record.name@ == "Ignored"@,
            models(imports@) == models(old(imports)@) + fields_imports(
                obj.name@,
                obj.fields@.take(i as int),
                *outside,
                *catalog,
            ),
            forall|k: int| 0 <= k < i ==> object_field_ok(
                (#[trigger] record.fields@[k]).field_type,
                obj.name@,
                obj.fields@[k],
                *outside,
                *catalog,
            ),
            unique_fields(obj.fields@.take(i as int)),
            forall|k: int| 0 <= k < i ==> unique_values((#[trigger] obj.fields@[k]).args@),
            record.arguments@.len() == 0,
            record.fields@.len() == i,
            forall|k: int| 0 <= k < i ==> (#[trigger] record.fields@[k]).name@ == obj.fields@[k].name@,
            forall|k: int| 0 <= k < i ==> (#[trigger] record.fields@[k]).field_type.vars().len() == 0,
        decreases obj.fields.len() - i,
    {
        let field = &obj.fields[i];
        proof {
            if object_ok(*obj) {
                assert(unique_values(obj.fields@[i as int].args@));
            }
        }
        let mut args = PurescriptRecord::new("Arguments");
        let mut j: usize = 0;
        let ghost before_field = models(imports@);
        assert(models(imports@) =~= before_field + values_imports(field.name@, field.args@.take(0), *outside, *catalog));
        while j < field.args.len()
            invariant
                j <= field.args.len(),
                *field == obj.fields@[i as int],
                record.name@ == "Ignored"@,
                before_field == models(old(imports)@) + fields_imports(
                    obj.name@,
                    obj.fields@.take(i as int),
                    *outside,
                    *catalog,
                ),
                models(imports@) == before_field + values_imports(
                    field.name@,
                    field.args@.take(j as int),
                    *outside,
                    *catalog,
                ),
                forall|k: int| 0 <= k < i ==> object_field_ok(
                    (#[trigger] record.fields@[k]).field_type,
                    obj.name@,
                    obj.fields@[k],
                    *outside,
                    *catalog,
                ),
                forall|k: int| 0 <= k < j ==> value_type_ok(
                    (#[trigger] args.fields@[k]).field_type,
                    field.name@,
                    field.args@[k],
                    *outside,
                    *catalog,
                ),
                i < obj.fields.len(),
                object_ok(*obj) ==> unique_values(field.args@),
                unique_values(field.args@.take(j as int)),
                unique_fields(obj.fields@.take(i as int)),
                forall|k: int| 0 <= k < i ==> unique_values((#[trigger] obj.fields@[k]).args@),
                record.arguments@.len() == 0,
                record.fields@.len() == i,
                forall|k: int| 0 <= k < i ==> (#[trigger] record.fields@[k]).name@ == obj.fields@[k].name@,
                forall|k: int| 0 <= k < i ==> (#[trigger] record.fields@[k]).field_type.vars().len() == 0,
                args.arguments@.len() == 0,
                args.fields@.len() == j,
                forall|k: int| 0 <= k < j ==> (#[trigger] args.fields@[k]).name@ == field.args@[k].name@,
                forall|k: int| 0 <= k < j ==> (#[trigger] args.fields@[k]).field_type.vars().len() == 0,
            decreases field.args.len() - j,
        {
            let arg = &field.args[j];
            let ghost m0 = models(imports@);
            let base = gql_field(
                field.name.as_str(),
                arg.name.as_str(),
                arg.ty.name.as_str(),
                imports,
                catalog,
                outside,
            );
            let arg_type = wrap_type(base, &arg.ty.wrapping, imports);
            proof {
                lemma_wrapped_vars(arg_type, base, crate::wrapping::argument_layers(arg.ty.wrapping@));
                lemma_wraps_gql(arg_type, base, argument_layers(arg.ty.wrapping@), field.name@, arg.name@, arg.ty.name@, *outside, *catalog);
                assert(field.args@.take(j as int + 1).drop_last() =~= field.args@.take(j as int));
                assert(field.args@.take(j as int + 1).last() == *arg);
                assert(models(imports@) =~= before_field + values_imports(
                    field.name@,
                    field.args@.take(j as int + 1),
                    *outside,
                    *catalog,
                ));
                if unique_values(field.args@) && has_label(args.fields@, arg.name@) {
                    let k = choose|k: int| 0 <= k < args.fields@.len() && args.fields@[k].name@ == arg.name@;
                    assert(field.args@[k].name@ == field.args@[j as int].name@);
                }
            }
            let ghost before = args.fields@;
            proof {
                if !unique_values(field.args@) {
                    assert(!object_ok(*obj));
                }
            }
            add_plain_field(&mut args, arg.name.as_str(), arg_type)?;
            proof {
                assert forall|a: int, b: int| #![trigger field.args@.take(j as int + 1)[a], field.args@.take(j as int + 1)[b]] 0 <= a < b < j + 1 implies field.args@.take(j as int + 1)[a].name@
                    != field.args@.take(j as int + 1)[b].name@ by {
                    if b == j {
                        if field.args@[a].name@ == field.args@[b].name@ {
                            assert(before[a].name@ == arg.name@);
                        }
                    } else {
                        assert(field.args@.take(j as int)[a] == field.args@[a]);
                        assert(field.args@.take(j as int)[b] == field.args@[b]);
                    }
                }
                assert forall|k: int| 0 <= k < j + 1 implies (#[trigger] args.fields@[k]).name@ == field.args@[k].name@
                    && args.fields@[k].field_type.vars().len() == 0 && value_type_ok(
                    args.fields@[k].field_type,
                    field.name@,
                    field.args@[k],
                    *outside,
                    *catalog,
                ) by {
                    if k < j {
                        assert(args.fields@[k] == before[k]);
                    }
                }
            }
            j = j + 1;
        }
        let base = gql_field(
            obj.name.as_str(),
            field.name.as_str(),
            field.ty.name.as_str(),
            imports,
            catalog,
            outside,
        );
        let return_type = return_type_wrapper(base, &field.ty.wrapping, imports);
        proof {
            lemma_wrapped_vars(return_type, base, crate::wrapping::return_layers(field.ty.wrapping@));
            lemma_wraps_gql(return_type, base, return_layers(field.ty.wrapping@), obj.name@, field.name@, field.ty.name@, *outside, *catalog);
            assert(field.args@.take(field.args@.len() as int) =~= field.args@);
            assert(obj.fields@.take(i as int + 1).drop_last() =~= obj.fields@.take(i as int));
            assert(obj.fields@.take(i as int + 1).last() == *field);
            assert(models(imports@) =~= models(old(imports)@) + fields_imports(
                obj.name@,
                obj.fields@.take(i as int + 1),
                *outside,
                *catalog,
            ));
            assert(values_record_ok(args, field.name@, field.args@, *outside, *catalog));
        }
        let ghost rec = args;
        let ghost ret = return_type;
        let mut params: Vec<Argument> = Vec::new();
        params.push(Argument::new_record(args));
        assert(params@ =~= seq![Argument::Record(rec)]);
        let function_arg = Argument::new_function(params, return_type);
        proof {
            lemma_function_vars(function_arg, rec, ret);
            if object_ok(*obj) && has_label(record.fields@, field.name@) {
                let k = choose|k: int| 0 <= k < record.fields@.len() && record.fields@[k].name@ == field.name@;
                assert(obj.fields@[k].name@ == obj.fields@[i as int].name@);
            }
            if object_ok(*obj) {
                assert(unique_values(obj.fields@[i as int].args@));
            }
        }
        let ghost before = record.fields@;
        proof {
            assert(field.args@.take(field.args@.len() as int) =~= field.args@);
        }
        proof {
            assert(object_field_ok(function_arg, obj.name@, *field, *outside, *catalog));
        }
        add_plain_field(&mut record, field.name.as_str(), function_arg)?;
        proof {
            assert forall|k: int| 0 <= k < i + 1 implies (#[trigger] record.fields@[k]).name@ == obj.fields@[k].name@
                && record.fields@[k].field_type.vars().len() == 0 && object_field_ok(
                record.fields@[k].field_type,
                obj.name@,
                obj.fields@[k],
                *outside,
                *catalog,
            ) by {
                if k < i {
                    assert(record.fields@[k] == before[k]);
                }
            }
            assert forall|a: int, b: int| #![trigger obj.fields@.take(i as int + 1)[a], obj.fields@.take(i as int + 1)[b]] 0 <= a < b < i + 1 implies obj.fields@.take(i as int + 1)[a].name@
                != obj.fields@.take(i as int + 1)[b].name@ by {
                if b == i {
                    if obj.fields@[a].name@ == obj.fields@[b].name@ {
                        assert(before[a].name@ == field.name@);
                    }
                } else {
                    assert(obj.fields@.take(i as int)[a] == obj.fields@[a]);
                    assert(obj.fields@.take(i as int)[b] == obj.fields@[b]);
                }
            }
        }
        i = i + 1;
    }
    assert(obj.fields@.take(obj.fields@.len() as int) =~= obj.fields@);
    Ok(record)
}

/// The record type of an input object: each field its wrapped argument type. Succeeds where
/// field names are unique.
fn input_record(
    obj: &InputObjectType,
    imports: &mut Vec<PurescriptImport>,
    catalog: &EnumCatalog,
    outside: &OutsideTypes,
) -> (r: Result<PurescriptRecord, SchemaError>)
    ensures
        unique_values(obj.fields@) <==> r is Ok,
        r matches Ok(rec) ==> rec.arguments@.len() == 0 && forall|k: int|
            0 <= k < rec.fields@.len() ==> (#[trigger] rec.fields@[k]).field_type.vars().len() == 0,
        r matches Ok(rec) ==> rec.name@ == "Query"@ && values_record_ok(rec, obj.name@, obj.fields@, *outside, *catalog),
        r is Ok ==> models(final(imports)@) == models(old(imports)@) + values_imports(
            obj.name@,
            obj.fields@,
            *outside,
            *catalog,
        ),
{
    let mut record = PurescriptRecord::new("Query");
    let mut i: usize = 0;
    assert(models(imports@) =~= models(old(imports)@) + values_imports(obj.name@, obj.fields@.take(0), *outside, *catalog));
    while i < obj.fields.len()
        invariant
            i <= obj.fields.len(),
            record.name@ == "Query"@,
            models(imports@) == models(old(imports)@) + values_imports(
                obj.name@,
                obj.fields@.take(i as int),
                *outside,
                *catalog,
            ),
            forall|k: int| 0 <= k < i ==> value_type_ok(
                (#[trigger] record.fields@[k]).field_type,
                obj.name@,
                obj.fields@[k],
                *outside,
                *catalog,
            ),
            unique_values(obj.fields@.take(i as int)),
            record.arguments@.len() == 0,
            record.fields@.len() == i,
            forall|k: int| 0 <= k < i ==> (#[trigger] record.fields@[k]).name@ == obj.fields@[k].name@,
            forall|k: int| 0 <= k < i ==> (#[trigger] record.fields@[k]).field_type.vars().len() == 0,
        decreases obj.fields.len() - i,
    {
        let field = &obj.fields[i];
        let base = gql_field(
            obj.name.as_str(),
            field.name.as_str(),
            field.ty.name.as_str(),
            imports,
            catalog,
            outside,
        );
        let arg_type = wrap_type(base, &field.ty.wrapping, imports);
        proof {
            lemma_wraps_gql(arg_type, base, argument_layers(field.ty.wrapping@), obj.name@, field.name@, field.ty.name@, *outside, *catalog);
            assert(obj.fields@.take(i as int + 1).drop_last() =~= obj.fields@.take(i as int));
            assert(obj.fields@.take(i as int + 1).last() == *field);
            assert(models(imports@) =~= models(old(imports)@) + values_imports(
                obj.name@,
                obj.fields@.take(i as int + 1),
                *outside,
                *catalog,
            ));
            lemma_wrapped_vars(arg_type, base, crate::wrapping::argument_layers(field.ty.wrapping@));
            if unique_values(obj.fields@) && has_label(record.fields@, field.name@) {
                let k = choose|k: int| 0 <= k < record.fields@.len() && record.fields@[k].name@ == field.name@;
                assert(obj.fields@[k].name@ == obj.fields@[i as int].name@);
            }
        }
        let ghost before = record.fields@;
        add_plain_field(&mut record, field.name.as_str(), arg_type)?;
        proof {
            assert forall|k: int| 0 <= k < i + 1 implies (#[trigger] record.fields@[k]).name@ == obj.fields@[k].name@
                && record.fields@[k].field_type.vars().len() == 0 && value_type_ok(
                record.fields@[k].field_type,
                obj.name@,
                obj.fields@[k],
                *outside,
                *catalog,
            ) by {
                if k < i {
                    assert(record.fields@[k] == before[k]);
                }
            }
            assert forall|a: int, b: int| #![trigger obj.fields@.take(i as int + 1)[a], obj.fields@.take(i as int + 1)[b]] 0 <= a < b < i + 1 implies obj.fields@.take(i as int + 1)[a].name@
                != obj.fields@.take(i as int + 1)[b].name@ by {
                if b == i {
                    if obj.fields@[a].name@ == obj.fields@[b].name@ {
                        assert(before[a].name@ == field.name@);
                    }
                } else {
                    assert(obj.fields@.take(i as int)[a] == obj.fields@[a]);
                    assert(obj.fields@.take(i as int)[b] == obj.fields@[b]);
                }
            }
        }
        i = i + 1;
    }
    assert(obj.fields@.take(obj.fields@.len() as int) =~= obj.fields@);
    Ok(record)
}

/// A newtype over a record, with its `Newtype` instance.
fn newtype_of(
    name: &str,
    record: PurescriptRecord,
    types: &mut Vec<PurescriptType>,
    instances: &mut Vec<DeriveInstance>,
) -> (r: Result<(), SchemaError>)
    ensures
        (forall|k: int| 0 <= k < record.fields@.len() ==> (#[trigger] record.fields@[k]).field_type.vars().len() == 0)
            ==> r is Ok,
        r is Ok ==> final(types)@.len() == old(types)@.len() + 1 && final(types)@.drop_last()
            == old(types)@ && final(types)@.last().name@ == name@ && final(types)@.last().newtype
            && final(types)@.last().arguments@.len() == 0 && final(types)@.last().value
            == Argument::Record(record),
        r is Ok ==> final(instances)@.len() == old(instances)@.len() + 1 && final(instances)@.drop_last()
            == old(instances)@ && newtype_instance(final(instances)@.last(), name@),
{
    let value = Argument::new_record(record);
    proof {
        if forall|k: int| 0 <= k < record.fields@.len() ==> (#[trigger] record.fields@[k]).field_type.vars().len() == 0 {
            lemma_record_vars(record.fields@);
        }
    }
    let params: Vec<&str> = Vec::new();
    proof {
        assert(params.deep_view() =~= Seq::<Seq<char>>::empty());
    }
    let mut t = map_model_error(PurescriptType::new(name, params, value))?;
    t.set_newtype(true);
    instances.push(derive_new_type_instance(name));
    types.push(t);
    assert(types@.drop_last() =~= old(types)@);
    assert(instances@.drop_last() =~= old(instances)@);
    Ok(())
}

/// A type alias of a root operation type to its pascal-case name.
fn root_alias(alias: &str, target: &str) -> (r: Result<PurescriptType, SchemaError>)
    ensures
        r matches Ok(t) && alias_ok(t, alias@, target@),
{
    let name = pascal_case(target);
    let value = Argument::new_type(name.as_str());
    proof {
        lemma_leaf_vars(value);
    }
    let params: Vec<&str> = Vec::new();
    proof {
        assert(params.deep_view() =~= Seq::<Seq<char>>::empty());
    }
    map_model_error(PurescriptType::new(alias, params, value))
}

/// The field of a root slot: populated with the given type, or the placeholder `Void`.
fn root_slot(
    root: &mut PurescriptRecord,
    label: &str,
    populated: Option<Argument>,
    imports: &mut Vec<PurescriptImport>,
) -> (r: Result<(), SchemaError>)
    requires
        populated matches Some(a) ==> a.vars().len() == 0,
    ensures
        !has_label(old(root).fields@, label@) ==> r is Ok,
        r is Ok ==> final(root).fields@.len() == old(root).fields@.len() + 1 && final(root).fields@.drop_last()
            == old(root).fields@ && final(root).fields@.last().name@ == label@ && match populated {
            Some(a) => final(root).fields@.last().field_type == a,
            None => final(root).fields@.last().field_type matches Argument::Type(n, args) && n@
                == "Void"@ && args@.len() == 0,
        },
        populated is None ==> models(final(imports)@) == models(old(imports)@).push(void_import()),
        populated is Some ==> final(imports)@ == old(imports)@,
        final(root).name == old(root).name,
        final(root).arguments == old(root).arguments,
{
    let ty = match populated {
        Some(a) => a,
        None => {
            add_import("prelude", "Data.Void", "Void", imports);
            let v = Argument::new_type("Void");
            proof {
                lemma_leaf_vars(v);
            }
            v
        },
    };
    add_plain_field(root, label, ty)
}

proof fn lemma_one_leaf_vars(a: Argument)
    requires
        a matches Argument::Type(n, args) && args@.len() == 1 && (args@[0] matches Argument::Type(
            m,
            ma,
        ) && ma@.len() == 0),
    ensures
        a.vars().len() == 0,
{
    let s = a->Type_1@;
    lemma_leaf_vars(s[0]);
    assert(s.drop_last() =~= Seq::<Argument>::empty());
    assert(args_vars(s) =~= args_vars(s.drop_last()) + s[0].vars());
}

proof fn lemma_slot_labels_distinct()
    ensures
        "query"@ != "mutation"@,
        "query"@ != "subscription"@,
        "query"@ != "directives"@,
        "mutation"@ != "subscription"@,
        "mutation"@ != "directives"@,
        "subscription"@ != "directives"@,
{
    reveal_strlit("query");
    reveal_strlit("mutation");
    reveal_strlit("subscription");
    reveal_strlit("directives");
    assert("query"@[0] != "mutation"@[0]);
    assert("query"@[0] != "subscription"@[0]);
    assert("query"@[0] != "directives"@[0]);
    assert("mutation"@[0] != "subscription"@[0]);
    assert("mutation"@[0] != "directives"@[0]);
    assert("subscription"@[0] != "directives"@[0]);
}

/// Whether `i` is `derive instance Newtype name _`.
pub open spec fn newtype_instance(i: DeriveInstance, name: Seq<char>) -> bool {
    i.class@ == "Newtype"@ && i.for_type@ == name && i.arguments.deep_view() == seq!["_"@]
}

/// Whether `t` is `type alias = Target` for the pascal-case name of `target`.
pub open spec fn alias_ok(t: PurescriptType, alias: Seq<char>, target: Seq<char>) -> bool {
    t.name@ == alias && !t.newtype && t.arguments@.len() == 0 && named_leaf(t.value, pascal_of(target))
}

/// Whether a type of the schema becomes a newtype: an object or input object whose name does
/// not start with `__`.
pub open spec fn is_newtype_source(t: SchemaType) -> bool {
    match t {
        SchemaType::Object(o) => !starts_with(o.name@, "__"@),
        SchemaType::InputObject(o) => !starts_with(o.name@, "__"@),
        _ => false,
    }
}

/// The test of `is_newtype_source` as a function value.
pub open spec fn newtype_pred() -> spec_fn(SchemaType) -> bool {
    |t: SchemaType| is_newtype_source(t)
}

/// Whether a type of the schema is an enum, not starting with `__`, routed shared or not.
pub open spec fn is_enum_source(t: SchemaType, shared: bool, suffixes: Seq<Seq<char>>) -> bool {
    t matches SchemaType::Enum(e) && !starts_with(e.name@, "__"@) && routes_shared(
        pascal_of(e.name@),
        suffixes,
    ) == shared
}

/// The test of `is_enum_source` as a function value.
pub open spec fn enum_pred(shared: bool, suffixes: Seq<Seq<char>>) -> spec_fn(SchemaType) -> bool {
    |t: SchemaType| is_enum_source(t, shared, suffixes)
}

/// The name of an object, input object or enum type.
pub open spec fn source_name(t: SchemaType) -> Seq<char> {
    match t {
        SchemaType::Object(o) => o.name@,
        SchemaType::InputObject(o) => o.name@,
        SchemaType::Enum(e) => e.name@,
        _ => Seq::empty(),
    }
}

/// Whether `t` is the newtype of the object or input object `src`.
pub open spec fn newtype_ok(t: PurescriptType, src: SchemaType, outside: OutsideTypes, catalog: EnumCatalog) -> bool {
    t.name@ == pascal_of(source_name(src)) && t.newtype && t.arguments@.len() == 0 && match src {
        SchemaType::Object(o) => t.value matches Argument::Record(rec) && rec.name@ == "Ignored"@
            && object_record_ok(rec, o, outside, catalog),
        SchemaType::InputObject(o) => t.value matches Argument::Record(rec) && rec.name@ == "Query"@
            && values_record_ok(rec, o.name@, o.fields@, outside, catalog),
        _ => false,
    }
}

/// The number of root operation aliases.
pub open spec fn alias_count(s: Schema) -> nat {
    1 + (if s.mutation_type is Some { 1nat } else { 0 }) + (if s.subscription_type is Some { 1nat } else { 0 })
}

/// Whether `w` holds the root aliases, then the newtype of each newtype source in order.
pub open spec fn walked_types_ok(w: Seq<PurescriptType>, s: Schema, sources: Seq<SchemaType>, outside: OutsideTypes, catalog: EnumCatalog) -> bool {
    let n = alias_count(s) as int;
    &&& w.len() == n + sources.len()
    &&& alias_ok(w[0], "Query"@, s.query_type@)
    &&& (s.mutation_type matches Some(m) ==> alias_ok(w[1], "Mutation"@, m@))
    &&& (s.subscription_type matches Some(x) ==> alias_ok(w[n - 1], "Subscription"@, x@))
    &&& forall|k: int| 0 <= k < sources.len() ==> newtype_ok(#[trigger] w[n + k], sources[k], outside, catalog)
}

/// Whether `v` is the inline fragment of the enum `src`.
pub open spec fn variant_ok(v: Variant, src: SchemaType) -> bool {
    src matches SchemaType::Enum(e) && v.name@ == pascal_of(e.name@) && v.values.deep_view()
        == emitted_originals(e.values.deep_view())
}

/// Whether `m` is the shared module of the enum `src`.
pub open spec fn shared_ok(m: SharedEnumModule, src: SchemaType, cfg: SharedEnumConfig) -> bool {
    src matches SchemaType::Enum(e) && ({
        let name = pascal_of(e.name@);
        let module_name = pascal_of(cfg.lib@) + "."@ + name;
        &&& m.name@ == name
        &&& m.module_name@ == module_name
        &&& m.path@ == cfg.dir@ + cfg.lib@ + "/src/"@ + pascal_of(cfg.lib@) + "/"@ + name + ".purs"@
        &&& m.source@ == shared_source(
            module_name,
            name,
            emitted_values(e.values.deep_view()),
            emitted_originals(e.values.deep_view()),
        )
    })
}

/// The imports that walking one type of the schema brings.
pub open spec fn type_imports(t: SchemaType, outside: OutsideTypes, catalog: EnumCatalog, cfg: SharedEnumConfig) -> Seq<ImportModel> {
    match t {
        SchemaType::Object(o) => if starts_with(o.name@, "__"@) {
            Seq::empty()
        } else {
            fields_imports(o.name@, o.fields@, outside, catalog)
        },
        SchemaType::InputObject(o) => if starts_with(o.name@, "__"@) {
            Seq::empty()
        } else {
            values_imports(o.name@, o.fields@, outside, catalog)
        },
        SchemaType::Scalar(n) => match scalar_import_of(n@) {
            Some((p, m, sym)) => seq![single_import(p, m, sym)],
            None => Seq::empty(),
        },
        SchemaType::Enum(e) => if starts_with(e.name@, "__"@) {
            Seq::empty()
        } else if routes_shared(pascal_of(e.name@), cfg.suffixes.deep_view()) {
            seq![
                single_import(
                    "oa-gql-enums"@,
                    pascal_of(cfg.lib@) + "."@ + pascal_of(e.name@),
                    pascal_of(e.name@),
                ),
            ]
        } else {
            seq![
                single_import("prelude"@, "Prelude"@, "Unit"@),
                single_import("variant"@, "Data.Variant"@, "Variant"@),
            ]
        },
        _ => Seq::empty(),
    }
}

/// The imports that walking the types of the schema brings, in order.
pub open spec fn walk_imports(ts: Seq<SchemaType>, outside: OutsideTypes, catalog: EnumCatalog, cfg: SharedEnumConfig) -> Seq<ImportModel>
    decreases ts.len(),
{
    if ts.len() == 0 {
        Seq::empty()
    } else {
        walk_imports(ts.drop_last(), outside, catalog, cfg) + type_imports(ts.last(), outside, catalog, cfg)
    }
}

/// The imports every module starts with.
pub open spec fn fixed_imports() -> Seq<ImportModel> {
    seq![
        single_import("graphql-client"@, "GraphQL.Client.Args"@, "NotNull"@),
        single_import("graphql-client"@, "GraphQL.Client.AsGql"@, "AsGql"@),
        single_import("prelude"@, "Type.Proxy"@, "Proxy"@),
        single_import("newtype"@, "Data.Newtype"@, "class Newtype"@),
    ]
}

/// The import of the placeholder type.
pub open spec fn void_import() -> ImportModel {
    single_import("prelude"@, "Data.Void"@, "Void"@)
}

/// The imports of the root record's slots: the placeholder for each unpopulated one, and the
/// role's directives where the schema has directives.
pub open spec fn root_imports(s: Schema, role: Seq<char>) -> Seq<ImportModel> {
    (if s.mutation_type is None { seq![void_import()] } else { Seq::empty() }) + (if s.subscription_type is None {
        seq![void_import()]
    } else {
        Seq::empty()
    }) + (if s.has_directives {
        seq![single_import("prelude"@, role + ".Directives"@, "Directives"@)]
    } else {
        seq![void_import()]
    })
}

/// Whether the parts of a module are what walking the schema gives: the finalized root aliases
/// and newtypes, a `Newtype` instance per newtype, a fragment or shared module per enum, the
/// imports in walk order, and the root record `Schema`.
pub open spec fn walk_ok(
    m: SchemaModule,
    role: Seq<char>,
    s: Schema,
    outside: OutsideTypes,
    catalog: EnumCatalog,
    cfg: SharedEnumConfig,
) -> bool {
    let sources = s.types@.filter(newtype_pred());
    let inline = s.types@.filter(enum_pred(false, cfg.suffixes.deep_view()));
    let shared = s.types@.filter(enum_pred(true, cfg.suffixes.deep_view()));
    &&& (exists|w: Seq<PurescriptType>|
        walked_types_ok(w, s, sources, outside, catalog) && m.types@ == dedup_types(w) && is_dedup_of(m.types@, w))
    &&& m.instances@.len() == sources.len()
    &&& (forall|k: int| 0 <= k < sources.len() ==> newtype_instance(#[trigger] m.instances@[k], pascal_of(source_name(sources[k]))))
    &&& m.variants@.len() == inline.len()
    &&& (forall|k: int| 0 <= k < inline.len() ==> variant_ok(#[trigger] m.variants@[k], inline[k]))
    &&& m.shared_enums@.len() == shared.len()
    &&& (forall|k: int| 0 <= k < shared.len() ==> shared_ok(#[trigger] m.shared_enums@[k], shared[k], cfg))
    &&& models(m.imports@) == fixed_imports() + walk_imports(s.types@, outside, catalog, cfg) + root_imports(s, role)
    &&& m.records@.len() == 1
    &&& m.records@[0].name@ == "Schema"@
    &&& root_exact(m.records@[0], s)
}

proof fn lemma_filter_take<T>(s: Seq<T>, i: int, f: spec_fn(T) -> bool)
    requires
        0 <= i < s.len(),
    ensures
        s.take(i + 1).filter(f) == if f(s[i]) {
            s.take(i).filter(f).push(s[i])
        } else {
            s.take(i).filter(f)
        },
{
    reveal(Seq::filter);
    assert(s.take(i + 1).drop_last() =~= s.take(i));
}

proof fn lemma_args_texts_same(s1: Seq<Argument>, s2: Seq<Argument>, top: bool)
    requires
        s1.len() == s2.len(),
        forall|k: int| 0 <= k < s1.len() ==> (#[trigger] s1[k]).text(top) == s2[k].text(top),
    ensures
        args_texts(s1, top) == args_texts(s2, top),
    decreases s1.len(),
{
    if s1.len() > 0 {
        lemma_args_texts_same(s1.drop_last(), s2.drop_last(), top);
        assert(s1[s1.len() - 1].text(top) == s2[s2.len() - 1].text(top));
    }
}

proof fn lemma_fields_texts_same(s1: Seq<Field>, s2: Seq<Field>)
    requires
        s1.len() == s2.len(),
        forall|k: int| 0 <= k < s1.len() ==> (#[trigger] s1[k]).text() == s2[k].text(),
    ensures
        fields_texts(s1) == fields_texts(s2),
    decreases s1.len(),
{
    if s1.len() > 0 {
        lemma_fields_texts_same(s1.drop_last(), s2.drop_last());
        assert(s1[s1.len() - 1].text() == s2[s2.len() - 1].text());
    }
}

proof fn lemma_leaf_text(a1: Argument, a2: Argument, name: Seq<char>)
    requires
        named_leaf(a1, name),
        named_leaf(a2, name),
    ensures
        a1.text(true) == a2.text(true),
        a1.text(false) == a2.text(false),
{
    assert(args_texts(a1->Type_1@, false) =~= Seq::<Seq<char>>::empty());
    assert(args_texts(a2->Type_1@, false) =~= Seq::<Seq<char>>::empty());
}

proof fn lemma_gql_text(a1: Argument, a2: Argument, object: Seq<char>, field: Seq<char>, name: Seq<char>, outside: OutsideTypes, catalog: EnumCatalog)
    requires
        gql_shape(a1, object, field, name, outside, catalog),
        gql_shape(a2, object, field, name, outside, catalog),
    ensures
        a1.text(true) == a2.text(true),
        a1.text(false) == a2.text(false),
{
    let s1 = a1->Type_1@;
    let s2 = a2->Type_1@;
    lemma_leaf_text(s1[0], s2[0], s1[0]->Type_0@);
    lemma_leaf_text(s1[1], s2[1], s1[1]->Type_0@);
    assert forall|k: int| 0 <= k < s1.len() implies (#[trigger] s1[k]).text(false) == s2[k].text(false) by {
        if k == 0 {
        } else {
        }
    }
    lemma_args_texts_same(s1, s2, false);
}

proof fn lemma_wraps_gql_text(
    a1: Argument,
    a2: Argument,
    layers: Seq<Seq<char>>,
    object: Seq<char>,
    field: Seq<char>,
    name: Seq<char>,
    outside: OutsideTypes,
    catalog: EnumCatalog,
)
    requires
        wraps_gql(a1, layers, object, field, name, outside, catalog),
        wraps_gql(a2, layers, object, field, name, outside, catalog),
    ensures
        a1.text(true) == a2.text(true),
        a1.text(false) == a2.text(false),
    decreases layers.len(),
{
    if layers.len() == 0 {
        lemma_gql_text(a1, a2, object, field, name, outside, catalog);
    } else {
        let s1 = a1->Type_1@;
        let s2 = a2->Type_1@;
        lemma_wraps_gql_text(s1[0], s2[0], layers.drop_last(), object, field, name, outside, catalog);
        lemma_args_texts_same(s1, s2, false);
    }
}

proof fn lemma_values_record_text(r1: PurescriptRecord, r2: PurescriptRecord, object: Seq<char>, vs: Seq<InputValue>, outside: OutsideTypes, catalog: EnumCatalog)
    requires
        values_record_ok(r1, object, vs, outside, catalog),
        values_record_ok(r2, object, vs, outside, catalog),
    ensures
        r1.type_text() == r2.type_text(),
{
    assert forall|k: int| 0 <= k < r1.fields@.len() implies (#[trigger] r1.fields@[k]).text() == r2.fields@[k].text() by {
        lemma_wraps_gql_text(
            r1.fields@[k].field_type,
            r2.fields@[k].field_type,
            argument_layers(vs[k].ty.wrapping@),
            object,
            vs[k].name@,
            vs[k].ty.name@,
            outside,
            catalog,
        );
    }
    lemma_fields_texts_same(r1.fields@, r2.fields@);
}

proof fn lemma_object_record_text(r1: PurescriptRecord, r2: PurescriptRecord, o: ObjectType, outside: OutsideTypes, catalog: EnumCatalog)
    requires
        object_record_ok(r1, o, outside, catalog),
        object_record_ok(r2, o, outside, catalog),
    ensures
        r1.type_text() == r2.type_text(),
{
    assert forall|k: int| 0 <= k < r1.fields@.len() implies (#[trigger] r1.fields@[k]).text() == r2.fields@[k].text() by {
        let f = o.fields@[k];
        let a1 = r1.fields@[k].field_type;
        let a2 = r2.fields@[k].field_type;
        assert(object_field_ok(a1, o.name@, f, outside, catalog));
        assert(object_field_ok(a2, o.name@, f, outside, catalog));
        let g1 = a1->Function_0;
        let g2 = a2->Function_0;
        lemma_values_record_text(g1.arguments@[0]->Record_0, g2.arguments@[0]->Record_0, f.name@, f.args@, outside, catalog);
        lemma_wraps_gql_text(g1.return_type, g2.return_type, return_layers(f.ty.wrapping@), o.name@, f.name@, f.ty.name@, outside, catalog);
    }
    lemma_fields_texts_same(r1.fields@, r2.fields@);
}

proof fn lemma_newtype_text(t1: PurescriptType, t2: PurescriptType, src: SchemaType, outside: OutsideTypes, catalog: EnumCatalog)
    requires
        newtype_ok(t1, src, outside, catalog),
        newtype_ok(t2, src, outside, catalog),
    ensures
        t1.text() == t2.text(),
{
    assert(t1.arguments.deep_view() =~= Seq::<Seq<char>>::empty());
    assert(t2.arguments.deep_view() =~= Seq::<Seq<char>>::empty());
    match src {
        SchemaType::Object(o) => {
            lemma_object_record_text(t1.value->Record_0, t2.value->Record_0, o, outside, catalog);
        },
        SchemaType::InputObject(o) => {
            lemma_values_record_text(t1.value->Record_0, t2.value->Record_0, o.name@, o.fields@, outside, catalog);
        },
        _ => {},
    }
}

proof fn lemma_alias_text(t1: PurescriptType, t2: PurescriptType, alias: Seq<char>, target: Seq<char>)
    requires
        alias_ok(t1, alias, target),
        alias_ok(t2, alias, target),
    ensures
        t1.text() == t2.text(),
{
    assert(t1.arguments.deep_view() =~= Seq::<Seq<char>>::empty());
    assert(t2.arguments.deep_view() =~= Seq::<Seq<char>>::empty());
    lemma_leaf_text(t1.value, t2.value, pascal_of(target));
}

proof fn lemma_walked_texts(w1: Seq<PurescriptType>, w2: Seq<PurescriptType>, s: Schema, sources: Seq<SchemaType>, outside: OutsideTypes, catalog: EnumCatalog)
    requires
        walked_types_ok(w1, s, sources, outside, catalog),
        walked_types_ok(w2, s, sources, outside, catalog),
    ensures
        w1.len() == w2.len(),
        forall|k: int| 0 <= k < w1.len() ==> (#[trigger] w1[k]).name@ == w2[k].name@ && w1[k].text() == w2[k].text(),
{
    let n = alias_count(s) as int;
    assert forall|k: int| 0 <= k < w1.len() implies (#[trigger] w1[k]).name@ == w2[k].name@ && w1[k].text() == w2[k].text() by {
        if k >= n {
            assert(newtype_ok(w1[n + (k - n)], sources[k - n], outside, catalog));
            assert(newtype_ok(w2[n + (k - n)], sources[k - n], outside, catalog));
            lemma_newtype_text(w1[k], w2[k], sources[k - n], outside, catalog);
        } else if k == 0 {
            lemma_alias_text(w1[k], w2[k], "Query"@, s.query_type@);
        } else if k == 1 && s.mutation_type is Some {
            lemma_alias_text(w1[k], w2[k], "Mutation"@, s.mutation_type->Some_0@);
        } else {
            assert(k == n - 1 && s.subscription_type is Some);
            lemma_alias_text(w1[k], w2[k], "Subscription"@, s.subscription_type->Some_0@);
        }
    }
}

proof fn lemma_dedup_texts(d1: Seq<PurescriptType>, d2: Seq<PurescriptType>, w1: Seq<PurescriptType>, w2: Seq<PurescriptType>)
    requires
        is_dedup_of(d1, w1),
        is_dedup_of(d2, w2),
        w1.len() == w2.len(),
        forall|k: int| 0 <= k < w1.len() ==> (#[trigger] w1[k]).name@ == w2[k].name@ && w1[k].text() == w2[k].text(),
    ensures
        d1.map_values(|t: PurescriptType| t.text()) == d2.map_values(|t: PurescriptType| t.text()),
{
    crate::text::lemma_text_order();
    let n1 = crate::module::type_names(d1);
    let n2 = crate::module::type_names(d2);
    assert forall|x: Seq<char>| n1.contains(x) <==> n2.contains(x) by {
        if n1.contains(x) {
            let i = choose|i: int| 0 <= i < n1.len() && n1[i] == x;
            assert(crate::module::first_of_name(w1, d1[i]));
            let j = choose|j: int| 0 <= j < w1.len() && w1[j] == d1[i] && forall|q: int| 0 <= q < j ==> (#[trigger] w1[q]).name@ != d1[i].name@;
            assert(crate::module::has_name(d2, w2[j].name@));
            let k = choose|k: int| 0 <= k < d2.len() && d2[k].name@ == w2[j].name@;
            assert(n2[k] == x);
        }
        if n2.contains(x) {
            let i = choose|i: int| 0 <= i < n2.len() && n2[i] == x;
            assert(crate::module::first_of_name(w2, d2[i]));
            let j = choose|j: int| 0 <= j < w2.len() && w2[j] == d2[i] && forall|q: int| 0 <= q < j ==> (#[trigger] w2[q]).name@ != d2[i].name@;
            assert(crate::module::has_name(d1, w1[j].name@));
            let k = choose|k: int| 0 <= k < d1.len() && d1[k].name@ == w1[j].name@;
            assert(n1[k] == x);
        }
    }
    assert(crate::order::sorted_by(n1, crate::text::text_order()));
    assert(crate::order::sorted_by(n2, crate::text::text_order()));
    crate::order::lemma_sorted_unique(n1, n2, crate::text::text_order());
    assert forall|i: int| 0 <= i < d1.len() implies (#[trigger] d1[i]).text() == d2[i].text() by {
        assert(n1[i] == n2[i]);
        assert(crate::module::first_of_name(w1, d1[i]));
        assert(crate::module::first_of_name(w2, d2[i]));
        let j1 = choose|j: int| 0 <= j < w1.len() && w1[j] == d1[i] && forall|q: int| 0 <= q < j ==> (#[trigger] w1[q]).name@ != d1[i].name@;
        let j2 = choose|j: int| 0 <= j < w2.len() && w2[j] == d2[i] && forall|q: int| 0 <= q < j ==> (#[trigger] w2[q]).name@ != d2[i].name@;
        if j1 < j2 {
            assert(w2[j1].name@ == w1[j1].name@);
        } else if j2 < j1 {
            assert(w1[j2].name@ == w2[j2].name@);
        }
    }
    assert(d1.map_values(|t: PurescriptType| t.text()) =~= d2.map_values(|t: PurescriptType| t.text()));
}

/// The same role, schema, tables and settings give the same module text and the same imports,
/// hence the same package manifest.
pub proof fn law_build_deterministic(
    role: Seq<char>,
    s: Schema,
    outside: OutsideTypes,
    catalog: EnumCatalog,
    cfg: SharedEnumConfig,
    m1: SchemaModule,
    m2: SchemaModule,
)
    requires
        walk_ok(m1, role, s, outside, catalog, cfg),
        walk_ok(m2, role, s, outside, catalog, cfg),
        m1.text@ == module_text(role, m1.types@, m1.records@, models(m1.imports@), m1.variants@, m1.instances@),
        m2.text@ == module_text(role, m2.types@, m2.records@, models(m2.imports@), m2.variants@, m2.instances@),
    ensures
        m1.text@ == m2.text@,
        models(m1.imports@) == models(m2.imports@),
{
    let sources = s.types@.filter(newtype_pred());
    let w1 = choose|w: Seq<PurescriptType>|
        walked_types_ok(w, s, sources, outside, catalog) && m1.types@ == dedup_types(w) && is_dedup_of(m1.types@, w);
    let w2 = choose|w: Seq<PurescriptType>|
        walked_types_ok(w, s, sources, outside, catalog) && m2.types@ == dedup_types(w) && is_dedup_of(m2.types@, w);
    lemma_walked_texts(w1, w2, s, sources, outside, catalog);
    lemma_build_types_text(m1, m2, w1, w2);
    lemma_root_text(m1.records@[0], m2.records@[0], s);
    assert(m1.records@.map_values(|r: PurescriptRecord| r.text()) =~= m2.records@.map_values(|r: PurescriptRecord| r.text()));
    assert(m1.variants@.map_values(|v: Variant| v.text()) =~= m2.variants@.map_values(|v: Variant| v.text()));
    assert(m1.instances@.map_values(|i: DeriveInstance| i.text()) =~= m2.instances@.map_values(|i: DeriveInstance| i.text()));
}

proof fn lemma_build_types_text(m1: SchemaModule, m2: SchemaModule, w1: Seq<PurescriptType>, w2: Seq<PurescriptType>)
    requires
        m1.types@ == dedup_types(w1),
        m2.types@ == dedup_types(w2),
        is_dedup_of(m1.types@, w1),
        is_dedup_of(m2.types@, w2),
        w1.len() == w2.len(),
        forall|k: int| 0 <= k < w1.len() ==> (#[trigger] w1[k]).name@ == w2[k].name@ && w1[k].text() == w2[k].text(),
    ensures
        crate::module::types_text(dedup_types(m1.types@)) == crate::module::types_text(dedup_types(m2.types@)),
{
    let d1 = m1.types@;
    let d2 = m2.types@;
    crate::module::lemma_dedup_fixed(d1, w1);
    crate::module::lemma_dedup_fixed(d2, w2);
    lemma_dedup_texts(d1, d2, w1, w2);
}

proof fn lemma_root_text(r1: PurescriptRecord, r2: PurescriptRecord, s: Schema)
    requires
        root_exact(r1, s),
        root_exact(r2, s),
        r1.name@ == r2.name@,
        r1.arguments@.len() == 0,
        r2.arguments@.len() == 0,
    ensures
        r1.text() == r2.text(),
{
    let f1 = r1.fields@;
    let f2 = r2.fields@;
    lemma_leaf_text(f1[0].field_type, f2[0].field_type, "Query"@);
    lemma_leaf_text(f1[1].field_type, f2[1].field_type, f1[1].field_type->Type_0@);
    lemma_leaf_text(f1[2].field_type, f2[2].field_type, f1[2].field_type->Type_0@);
    if s.has_directives {
        let a1 = f1[3].field_type->Type_1@;
        let a2 = f2[3].field_type->Type_1@;
        lemma_leaf_text(a1[0], a2[0], "Directives"@);
        lemma_args_texts_same(a1, a2, false);
    } else {
        lemma_leaf_text(f1[3].field_type, f2[3].field_type, "Void"@);
    }
    assert forall|k: int| 0 <= k < f1.len() implies (#[trigger] f1[k]).text() == f2[k].text() by {}
    lemma_fields_texts_same(f1, f2);
    lemma_args_texts_same(r1.arguments@, r2.arguments@, true);
}

/// Whether a type of the schema is one the walk skips: an interface or a union.
pub open spec fn is_skipped(t: SchemaType) -> bool {
    t is Interface || t is Union
}

/// The types of a schema without its interfaces and unions.
pub open spec fn without_skipped(ts: Seq<SchemaType>) -> Seq<SchemaType> {
    ts.filter(|t: SchemaType| !is_skipped(t))
}

proof fn lemma_filter_within(ts: Seq<SchemaType>, p: spec_fn(SchemaType) -> bool)
    requires
        forall|t: SchemaType| #[trigger] p(t) ==> !is_skipped(t),
    ensures
        without_skipped(ts).filter(p) == ts.filter(p),
    decreases ts.len(),
{
    reveal(Seq::filter);
    if ts.len() > 0 {
        lemma_filter_within(ts.drop_last(), p);
        let q = |t: SchemaType| !is_skipped(t);
        let last = ts.last();
        if q(last) {
            assert(without_skipped(ts) == without_skipped(ts.drop_last()).push(last));
            assert(without_skipped(ts).drop_last() =~= without_skipped(ts.drop_last()));
        } else {
            assert(without_skipped(ts) == without_skipped(ts.drop_last()));
            assert(!p(last));
        }
    }
}

proof fn lemma_walk_imports_within(ts: Seq<SchemaType>, outside: OutsideTypes, catalog: EnumCatalog, cfg: SharedEnumConfig)
    ensures
        walk_imports(without_skipped(ts), outside, catalog, cfg) == walk_imports(ts, outside, catalog, cfg),
    decreases ts.len(),
{
    reveal(Seq::filter);
    if ts.len() > 0 {
        lemma_walk_imports_within(ts.drop_last(), outside, catalog, cfg);
        let q = |t: SchemaType| !is_skipped(t);
        let last = ts.last();
        if q(last) {
            assert(without_skipped(ts) == without_skipped(ts.drop_last()).push(last));
            assert(without_skipped(ts).drop_last() =~= without_skipped(ts.drop_last()));
        } else {
            assert(without_skipped(ts) == without_skipped(ts.drop_last()));
            assert(type_imports(last, outside, catalog, cfg) =~= Seq::<ImportModel>::empty());
            assert(walk_imports(ts, outside, catalog, cfg) =~= walk_imports(ts.drop_last(), outside, catalog, cfg));
        }
    }
}

/// Interfaces and unions change nothing: two schemas that differ only in them give the same
/// module text and imports.
pub proof fn law_skipped_types_ignored(
    role: Seq<char>,
    s1: Schema,
    s2: Schema,
    outside: OutsideTypes,
    catalog: EnumCatalog,
    cfg: SharedEnumConfig,
    m1: SchemaModule,
    m2: SchemaModule,
)
    requires
        s1.query_type == s2.query_type,
        s1.mutation_type == s2.mutation_type,
        s1.subscription_type == s2.subscription_type,
        s1.has_directives == s2.has_directives,
        without_skipped(s1.types@) == without_skipped(s2.types@),
        walk_ok(m1, role, s1, outside, catalog, cfg),
        walk_ok(m2, role, s2, outside, catalog, cfg),
        m1.text@ == module_text(role, m1.types@, m1.records@, models(m1.imports@), m1.variants@, m1.instances@),
        m2.text@ == module_text(role, m2.types@, m2.records@, models(m2.imports@), m2.variants@, m2.instances@),
    ensures
        m1.text@ == m2.text@,
        models(m1.imports@) == models(m2.imports@),
{
    let sfx = cfg.suffixes.deep_view();
    lemma_filter_within(s1.types@, newtype_pred());
    lemma_filter_within(s2.types@, newtype_pred());
    lemma_filter_within(s1.types@, enum_pred(false, sfx));
    lemma_filter_within(s2.types@, enum_pred(false, sfx));
    lemma_filter_within(s1.types@, enum_pred(true, sfx));
    lemma_filter_within(s2.types@, enum_pred(true, sfx));
    lemma_walk_imports_within(s1.types@, outside, catalog, cfg);
    lemma_walk_imports_within(s2.types@, outside, catalog, cfg);
    let sources = s1.types@.filter(newtype_pred());
    let w2 = choose|w: Seq<PurescriptType>|
        walked_types_ok(w, s2, sources, outside, catalog) && m2.types@ == dedup_types(w) && is_dedup_of(m2.types@, w);
    assert(walked_types_ok(w2, s1, sources, outside, catalog));
    assert(root_imports(s1, role) == root_imports(s2, role));
    assert(root_exact(m2.records@[0], s1));
    assert(walk_ok(m2, role, s1, outside, catalog, cfg));
    law_build_deterministic(role, s1, outside, catalog, cfg, m1, m2);
}

/// Builds a role's module from its schema: a newtype per object and input object, an alias
/// per root operation type, an inline variant fragment or a shared module per enum, and the
/// root record of the four slots. Fails on a schema with no query type or no enum values, and
/// where a record would get two fields of one label.
pub fn build_schema(
    role: &str,
    schema: &Schema,
    catalog: &EnumCatalog,
    outside: &OutsideTypes,
    enums: &SharedEnumConfig,
) -> (r: Result<SchemaModule, SchemaError>)
    ensures
        schema.query_type@.len() == 0 ==> r == Err::<SchemaModule, SchemaError>(
            SchemaError::UnrecognizedSchemaShape,
        ),
        schema_ok(*schema) <==> r is Ok,
        r matches Ok(m) ==> walk_ok(m, role@, *schema, *outside, *catalog, *enums),
        r matches Ok(m) ==> m.text@ == module_text(
            role@,
            m.types@,
            m.records@,
            models(m.imports@),
            m.variants@,
            m.instances@,
        ) && m.records@.len() == 1 && root_ok(m.records@[0], *schema),
        r matches Ok(m) ==> forall|k: int|
            0 <= k < m.variants@.len() ==> !routes_shared(
                (#[trigger] m.variants@[k]).name@,
                enums.suffixes.deep_view(),
            ),
        r matches Ok(m) ==> forall|k: int|
            0 <= k < m.shared_enums@.len() ==> routes_shared(
                (#[trigger] m.shared_enums@[k]).name@,
                enums.suffixes.deep_view(),
            ),
{
    if schema.query_type.as_str().unicode_len() == 0 {
        return Err(SchemaError::UnrecognizedSchemaShape);
    }
    let mut types: Vec<PurescriptType> = Vec::new();
    let mut imports: Vec<PurescriptImport> = Vec::new();
    let mut variants: Vec<Variant> = Vec::new();
    let mut instances: Vec<DeriveInstance> = Vec::new();
    let mut shared_enums: Vec<SharedEnumModule> = Vec::new();

    add_import("graphql-client", "GraphQL.Client.Args", "NotNull", &mut imports);
    add_import("graphql-client", "GraphQL.Client.AsGql", "AsGql", &mut imports);
    add_import("prelude", "Type.Proxy", "Proxy", &mut imports);
    add_import("newtype", "Data.Newtype", "class Newtype", &mut imports);

    types.push(root_alias("Query", schema.query_type.as_str())?);
    match &schema.mutation_type {
        Some(t) => types.push(root_alias("Mutation", t.as_str())?),
        None => {},
    }
    match &schema.subscription_type {
        Some(t) => types.push(root_alias("Subscription", t.as_str())?),
        None => {},
    }
    proof {
        assert(schema.types@.take(0) =~= Seq::<SchemaType>::empty());
        reveal(Seq::filter);
        assert(schema.types@.take(0).filter(newtype_pred()) =~= Seq::<SchemaType>::empty());
        assert(schema.types@.take(0).filter(enum_pred(false, enums.suffixes.deep_view())) =~= Seq::<SchemaType>::empty());
        assert(schema.types@.take(0).filter(enum_pred(true, enums.suffixes.deep_view())) =~= Seq::<SchemaType>::empty());
        assert(models(imports@) =~= fixed_imports() + walk_imports(schema.types@.take(0), *outside, *catalog, *enums));
        assert(walked_types_ok(types@, *schema, schema.types@.take(0).filter(newtype_pred()), *outside, *catalog));
    }

    let mut i: usize = 0;
    while i < schema.types.len()
        invariant
            i <= schema.types.len(),
            schema.query_type@.len() > 0,
            forall|k: int| 0 <= k < i ==> type_ok(#[trigger] schema.types@[k]),
            walked_types_ok(types@, *schema, schema.types@.take(i as int).filter(newtype_pred()), *outside, *catalog),
            instances@.len() == schema.types@.take(i as int).filter(newtype_pred()).len(),
            forall|k: int|
                0 <= k < instances@.len() ==> newtype_instance(
                    #[trigger] instances@[k],
                    pascal_of(source_name(schema.types@.take(i as int).filter(newtype_pred())[k])),
                ),
            variants@.len() == schema.types@.take(i as int).filter(enum_pred(false, enums.suffixes.deep_view())).len(),
            forall|k: int|
                0 <= k < variants@.len() ==> variant_ok(
                    #[trigger] variants@[k],
                    schema.types@.take(i as int).filter(enum_pred(false, enums.suffixes.deep_view()))[k],
                ),
            shared_enums@.len() == schema.types@.take(i as int).filter(enum_pred(true, enums.suffixes.deep_view())).len(),
            forall|k: int|
                0 <= k < shared_enums@.len() ==> shared_ok(
                    #[trigger] shared_enums@[k],
                    schema.types@.take(i as int).filter(enum_pred(true, enums.suffixes.deep_view()))[k],
                    *enums,
                ),
            models(imports@) == fixed_imports() + walk_imports(schema.types@.take(i as int), *outside, *catalog, *enums),
            forall|k: int|
                0 <= k < variants@.len() ==> !routes_shared(
                    (#[trigger] variants@[k]).name@,
                    enums.suffixes.deep_view(),
                ),
            forall|k: int|
                0 <= k < shared_enums@.len() ==> routes_shared(
                    (#[trigger] shared_enums@[k]).name@,
                    enums.suffixes.deep_view(),
                ),
        decreases schema.types.len() - i,
    {
        let ghost ts = schema.types@;
        let ghost sfx = enums.suffixes.deep_view();
        let ghost src0 = ts.take(i as int).filter(newtype_pred());
        let ghost inl0 = ts.take(i as int).filter(enum_pred(false, sfx));
        let ghost sh0 = ts.take(i as int).filter(enum_pred(true, sfx));
        let ghost types0 = types@;
        let ghost inst0 = instances@;
        let ghost var0 = variants@;
        let ghost shared0 = shared_enums@;
        let ghost imp0 = models(imports@);
        proof {
            lemma_filter_take(ts, i as int, newtype_pred());
            lemma_filter_take(ts, i as int, enum_pred(false, sfx));
            lemma_filter_take(ts, i as int, enum_pred(true, sfx));
            assert(ts.take(i as int + 1).drop_last() =~= ts.take(i as int));
            assert(ts.take(i as int + 1).last() == ts[i as int]);
            assert(walk_imports(ts.take(i as int + 1), *outside, *catalog, *enums) == imp0.subrange(
                0,
                0,
            ) + walk_imports(ts.take(i as int), *outside, *catalog, *enums) + type_imports(ts[i as int], *outside, *catalog, *enums));
        }
        match &schema.types[i] {
            SchemaType::Object(obj) => {
                assert(schema_ok(*schema) ==> type_ok(schema.types@[i as int]));
                if !text_starts_with(obj.name.as_str(), "__") {
                    let name = pascal_case(obj.name.as_str());
                    let record = object_record(obj, &mut imports, catalog, outside)?;
                    newtype_of(name.as_str(), record, &mut types, &mut instances)?;
                    proof {
                        let n = alias_count(*schema) as int;
                        let src1 = ts.take(i as int + 1).filter(newtype_pred());
                        assert(src1 == src0.push(ts[i as int]));
                        assert(types@[0] == types0[0]);
                        if schema.mutation_type is Some {
                            assert(types@[1] == types0[1]);
                        }
                        assert(types@[n - 1] == types0[n - 1]);
                        assert forall|k: int| 0 <= k < src1.len() implies newtype_ok(
                            #[trigger] types@[n + k],
                            src1[k],
                            *outside,
                            *catalog,
                        ) by {
                            if k < src0.len() {
                                assert(types@[n + k] == types0[n + k]);
                            } else {
                                assert(types@[n + k] == types@.last());
                            }
                        }
                        assert forall|k: int| 0 <= k < instances@.len() implies newtype_instance(
                            #[trigger] instances@[k],
                            pascal_of(source_name(src1[k])),
                        ) by {
                            if k < inst0.len() {
                                assert(instances@[k] == inst0[k]);
                            }
                        }
                    }
                }
            },
            SchemaType::Scalar(name) => {
                match scalar_import(name.as_str()) {
                    Some((package, module, symbol)) => add_import(package, module, symbol, &mut imports),
                    None => {},
                }
            },
            SchemaType::Enum(en) => {
                assert(schema_ok(*schema) ==> type_ok(schema.types@[i as int]));
                if !text_starts_with(en.name.as_str(), "__") {
                    if en.values.len() == 0 || en.values.len() == usize::MAX {
                        return Err(SchemaError::UnrecognizedSchemaShape);
                    }
                    match generate_enum(en, &mut imports, enums) {
                        GeneratedEnum::Inline(variant) => {
                            add_import("prelude", "Prelude", "Unit", &mut imports);
                            add_import("variant", "Data.Variant", "Variant", &mut imports);
                            variants.push(variant);
                        },
                        GeneratedEnum::Shared(m) => shared_enums.push(m),
                    }
                }
            },
            SchemaType::InputObject(obj) => {
                assert(schema_ok(*schema) ==> type_ok(schema.types@[i as int]));
                if !text_starts_with(obj.name.as_str(), "__") {
                    let name = pascal_case(obj.name.as_str());
                    let record = input_record(obj, &mut imports, catalog, outside)?;
                    newtype_of(name.as_str(), record, &mut types, &mut instances)?;
                    proof {
                        let n = alias_count(*schema) as int;
                        let src1 = ts.take(i as int + 1).filter(newtype_pred());
                        assert(src1 == src0.push(ts[i as int]));
                        assert(types@[0] == types0[0]);
                        if schema.mutation_type is Some {
                            assert(types@[1] == types0[1]);
                        }
                        assert(types@[n - 1] == types0[n - 1]);
                        assert forall|k: int| 0 <= k < src1.len() implies newtype_ok(
                            #[trigger] types@[n + k],
                            src1[k],
                            *outside,
                            *catalog,
                        ) by {
                            if k < src0.len() {
                                assert(types@[n + k] == types0[n + k]);
                            } else {
                                assert(types@[n + k] == types@.last());
                            }
                        }
                        assert forall|k: int| 0 <= k < instances@.len() implies newtype_instance(
                            #[trigger] instances@[k],
                            pascal_of(source_name(src1[k])),
                        ) by {
                            if k < inst0.len() {
                                assert(instances@[k] == inst0[k]);
                            }
                        }
                    }
                }
            },
            SchemaType::Interface(_) => {},
            SchemaType::Union(_) => {},
        }
        i = i + 1;
    }

    proof {
        assert(schema.types@.take(schema.types@.len() as int) =~= schema.types@);
    }
    let ghost imp_walk = models(imports@);
    let mut root = PurescriptRecord::new("Schema");
    proof {
        lemma_slot_labels_distinct();
    }
    let query = Argument::new_type("Query");
    proof {
        lemma_leaf_vars(query);
    }
    root_slot(&mut root, "query", Some(query), &mut imports)?;
    let ghost f0 = root.fields@;
    let mutation = match &schema.mutation_type {
        Some(_) => {
            let a = Argument::new_type("Mutation");
            proof {
                lemma_leaf_vars(a);
            }
            Some(a)
        },
        None => None,
    };
    assert(!has_label(root.fields@, "mutation"@)) by {
        assert(root.fields@[0].name@ == "query"@);
    }
    root_slot(&mut root, "mutation", mutation, &mut imports)?;
    let ghost f1 = root.fields@;
    let ghost imp1 = models(imports@);
    let subscription = match &schema.subscription_type {
        Some(_) => {
            let a = Argument::new_type("Subscription");
            proof {
                lemma_leaf_vars(a);
            }
            Some(a)
        },
        None => None,
    };
    assert(!has_label(root.fields@, "subscription"@)) by {
        assert(root.fields@[0] == f0[0]);
        assert(root.fields@[0].name@ == "query"@);
        assert(root.fields@[1].name@ == "mutation"@);
    }
    root_slot(&mut root, "subscription", subscription, &mut imports)?;
    let ghost f2 = root.fields@;
    let ghost imp2 = models(imports@);
    let directives = if schema.has_directives {
        let mut module = role.to_string();
        module.append(".Directives");
        add_import("prelude", module.as_str(), "Directives", &mut imports);
        let a = Argument::new_type("Proxy").with_argument(Argument::new_type("Directives"));
        proof {
            lemma_one_leaf_vars(a);
            assert(a matches Argument::Type(n, args) && n@ == "Proxy"@ && args@.len() == 1 && named_leaf(args@[0], "Directives"@));
        }
        Some(a)
    } else {
        None
    };
    assert(!has_label(root.fields@, "directives"@)) by {
        assert(root.fields@[0] == f1[0]);
        assert(f1[0] == f0[0]);
        assert(root.fields@[0].name@ == "query"@);
        assert(root.fields@[1] == f1[1]);
        assert(root.fields@[1].name@ == "mutation"@);
        assert(root.fields@[2].name@ == "subscription"@);
    }
    root_slot(&mut root, "directives", directives, &mut imports)?;
    proof {
        lemma_root_ok(root, *schema, f0, f1, f2);
        assert(root.fields@[0] == f0[0]);
        assert(root.fields@[1] == f1[1]);
        assert(root.fields@[2] == f2[2]);
        assert(root_exact(root, *schema));
        let m_part: Seq<ImportModel> = if schema.mutation_type is None { seq![void_import()] } else { Seq::empty() };
        let s_part: Seq<ImportModel> = if schema.subscription_type is None { seq![void_import()] } else { Seq::empty() };
        assert(imp1 =~= imp_walk + m_part);
        assert(imp2 =~= imp_walk + m_part + s_part);
        assert(models(imports@) =~= imp_walk + root_imports(*schema, role@));
    }
    let mut records: Vec<PurescriptRecord> = Vec::new();
    records.push(root);
    let ghost walked = types@;
    let text = print_module(role, &mut types, &mut records, &mut imports, &mut variants, &mut instances);
    proof {
        crate::module::lemma_dedup_fixed(types@, walked);
    }
    let m = SchemaModule { types, records, imports, variants, instances, shared_enums, text };
    proof {
        let sources = schema.types@.filter(newtype_pred());
        assert(walked_types_ok(walked, *schema, sources, *outside, *catalog) && m.types@ == dedup_types(walked) && is_dedup_of(m.types@, walked));
        assert(models(m.imports@) == fixed_imports() + walk_imports(schema.types@, *outside, *catalog, *enums) + root_imports(*schema, role@));
    }
    Ok(m)
}

proof fn lemma_root_ok(root: PurescriptRecord, schema: Schema, f0: Seq<Field>, f1: Seq<Field>, f2: Seq<Field>)
    requires
        f0.len() == 1,
        f0.last().name@ == "query"@,
        f0.last().field_type matches Argument::Type(n, args) && n@ == "Query"@ && args@.len() == 0,
        f1.len() == 2,
        f1.drop_last() == f0,
        f1.last().name@ == "mutation"@,
        schema.mutation_type is None ==> (f1.last().field_type matches Argument::Type(n, args) && n@ == "Void"@ && args@.len() == 0),
        schema.mutation_type is Some ==> (f1.last().field_type matches Argument::Type(n, args) && n@ == "Mutation"@ && args@.len() == 0),
        f2.len() == 3,
        f2.drop_last() == f1,
        f2.last().name@ == "subscription"@,
        schema.subscription_type is None ==> (f2.last().field_type matches Argument::Type(n, args) && n@ == "Void"@ && args@.len() == 0),
        schema.subscription_type is Some ==> (f2.last().field_type matches Argument::Type(n, args) && n@ == "Subscription"@ && args@.len() == 0),
        root.fields@.len() == 4,
        root.fields@.drop_last() == f2,
        root.fields@.last().name@ == "directives"@,
        !schema.has_directives ==> (root.fields@.last().field_type matches Argument::Type(n, args) && n@ == "Void"@ && args@.len() == 0),
        schema.has_directives ==> (root.fields@.last().field_type matches Argument::Type(n, args) && n@ == "Proxy"@),
    ensures
        root_ok(root, schema),
{
    reveal_strlit("query");
    reveal_strlit("mutation");
    reveal_strlit("subscription");
    reveal_strlit("directives");
    reveal_strlit("Void");
    reveal_strlit("Mutation");
    reveal_strlit("Subscription");
    reveal_strlit("Proxy");
    let fs = root.fields@;
    assert(fs[0] == f0[0]);
    assert(fs[1] == f1[1]);
    assert(fs[2] == f2[2]);
    assert(has_label(fs, "query"@)) by { assert(fs[0].name@ == "query"@); }
    assert(has_label(fs, "mutation"@)) by { assert(fs[1].name@ == "mutation"@); }
    assert(has_label(fs, "subscription"@)) by { assert(fs[2].name@ == "subscription"@); }
    assert(has_label(fs, "directives"@)) by { assert(fs[3].name@ == "directives"@); }
    assert forall|k: int| 0 <= k < 4 implies has_label(fs, #[trigger] root_slots()[k]) by {
        if k == 0 {} else if k == 1 {} else if k == 2 {} else {}
    }
    assert(slot_is(fs, "query"@, "Query"@)) by { assert(fs[0].name@ == "query"@); }
    assert("query"@ != "mutation"@) by { assert("query"@[0] != "mutation"@[0]); }
    assert("query"@ != "subscription"@) by { assert("query"@[0] != "subscription"@[0]); }
    assert("query"@ != "directives"@) by { assert("query"@[0] != "directives"@[0]); }
    assert("mutation"@ != "subscription"@) by { assert("mutation"@[0] != "subscription"@[0]); }
    assert("mutation"@ != "directives"@) by { assert("mutation"@[0] != "directives"@[0]); }
    assert("subscription"@ != "directives"@) by { assert("subscription"@[0] != "directives"@[0]); }
    assert(fs[0].name@ != "mutation"@ && fs[2].name@ != "mutation"@ && fs[3].name@ != "mutation"@);
    assert(fs[0].name@ != "subscription"@ && fs[1].name@ != "subscription"@ && fs[3].name@ != "subscription"@);
    assert(fs[0].name@ != "directives"@ && fs[1].name@ != "directives"@ && fs[2].name@ != "directives"@);
    if schema.mutation_type is None {
        assert(slot_is(fs, "mutation"@, "Void"@)) by { assert(fs[1].name@ == "mutation"@); }
    } else {
        assert("Mutation"@ != "Void"@) by { assert("Mutation"@[0] != "Void"@[0]); }
    }
    if schema.subscription_type is None {
        assert(slot_is(fs, "subscription"@, "Void"@)) by { assert(fs[2].name@ == "subscription"@); }
    } else {
        assert("Subscription"@ != "Void"@) by { assert("Subscription"@[0] != "Void"@[0]); }
    }
    if !schema.has_directives {
        assert(slot_is(fs, "directives"@, "Void"@)) by { assert(fs[3].name@ == "directives"@); }
    } else {
        assert("Proxy"@ != "Void"@) by { assert("Proxy"@[0] != "Void"@[0]); }
    }
}

} // verus!
