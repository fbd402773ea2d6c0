use purs_schema_gen::enum_gen::{EnumType, SharedEnumConfig};
use purs_schema_gen::resolve::{
    as_gql_field, base_types, entity_name, outside_type, EnumCatalog, EnumEntry, Mod, OutsideTypes,
    OverrideEntity, OverrideField,
};
use purs_schema_gen::import::PurescriptImport;
use purs_schema_gen::schema::{
    build_schema, FieldDef, InputObjectType, InputValue, ObjectType, Schema, SchemaError,
    SchemaType, TypeRef,
};
use purs_schema_gen::wrapping::WrappingType;

fn ty(name: &str, wrapping: Vec<WrappingType>) -> TypeRef {
    TypeRef { name: name.to_string(), wrapping }
}

fn config() -> SharedEnumConfig {
    SharedEnumConfig { suffixes: vec!["Enum".to_string()], lib: "shared-enums".to_string(), dir: "libs/".to_string() }
}

fn empty_tables() -> (EnumCatalog, OutsideTypes) {
    (EnumCatalog { entries: vec![] }, OutsideTypes { entities: vec![] })
}

fn user_schema() -> Schema {
    Schema {
        query_type: "Query".to_string(),
        mutation_type: None,
        subscription_type: None,
        types: vec![
            SchemaType::Object(ObjectType {
                name: "User".to_string(),
                fields: vec![
                    FieldDef { name: "id".to_string(), args: vec![], ty: ty("ID", vec![WrappingType::NonNull]) },
                    FieldDef { name: "name".to_string(), args: vec![], ty: ty("String", vec![]) },
                ],
            }),
            SchemaType::Enum(EnumType { name: "Status".to_string(), values: vec!["ACTIVE".to_string(), "DONE".to_string()] }),
            SchemaType::Scalar("String".to_string()),
        ],
        has_directives: false,
    }
}

#[test]
fn end_to_end_user_schema() {
    let (catalog, outside) = empty_tables();
    let m = build_schema("Admin", &user_schema(), &catalog, &outside, &config()).ok().unwrap();
    let text = m.text;
    assert!(text.starts_with("module Schema.Admin where\n\n"));
    assert!(text.contains(
        "type Schema =\n  { query :: Query\n  , mutation :: Void\n  , subscription :: Void\n  , directives :: Void\n  }"
    ));
    assert!(text.contains(
        "newtype User = User\n  { id :: {} -> AsGql \"ID\" Id\n  , name :: {} -> Maybe (AsGql \"String\" String)\n  }"
    ));
    assert!(text.contains("type Status = Variant\n  ( \"ACTIVE\" :: Unit\n  , \"DONE\" :: Unit\n  )"));
    assert!(text.contains("type Query = Query"));
    assert!(text.contains("import Data.Void (Void)"));
    assert!(text.ends_with("derive instance Newtype User _"));
}

#[test]
fn root_record_has_four_slots() {
    let (catalog, outside) = empty_tables();
    let m = build_schema("Admin", &user_schema(), &catalog, &outside, &config()).ok().unwrap();
    assert_eq!(m.records.len(), 1);
    let root = &m.records[0];
    assert_eq!(root.fields.len(), 4);
    for slot in ["query", "mutation", "subscription", "directives"] {
        assert!(root.has_field(slot));
    }
    assert_eq!(root.fields[1].field_type.to_string(), "Void");
    assert_eq!(root.fields[2].field_type.to_string(), "Void");
}

#[test]
fn populated_slots_are_not_placeholders() {
    let (catalog, outside) = empty_tables();
    let mut s = user_schema();
    s.mutation_type = Some("mutation_root".to_string());
    s.has_directives = true;
    let m = build_schema("Admin", &s, &catalog, &outside, &config()).ok().unwrap();
    assert!(m.text.contains("  , mutation :: Mutation\n"));
    assert!(m.text.contains("  , directives :: Proxy Directives\n"));
    assert!(m.text.contains("type Mutation = MutationRoot"));
    assert!(m.text.contains("import Admin.Directives (Directives)"));
}

#[test]
fn generation_is_deterministic() {
    let (catalog, outside) = empty_tables();
    let a = build_schema("Admin", &user_schema(), &catalog, &outside, &config()).ok().unwrap();
    let b = build_schema("Admin", &user_schema(), &catalog, &outside, &config()).ok().unwrap();
    assert_eq!(a.text, b.text);
}

#[test]
fn missing_query_type_is_rejected() {
    let (catalog, outside) = empty_tables();
    let mut s = user_schema();
    s.query_type = String::new();
    assert_eq!(build_schema("Admin", &s, &catalog, &outside, &config()).err(), Some(SchemaError::UnrecognizedSchemaShape));
}

#[test]
fn duplicate_input_fields_are_rejected() {
    let (catalog, outside) = empty_tables();
    let mut s = user_schema();
    s.types.push(SchemaType::InputObject(InputObjectType {
        name: "users_insert_input".to_string(),
        fields: vec![
            InputValue { name: "id".to_string(), ty: ty("uuid", vec![]) },
            InputValue { name: "id".to_string(), ty: ty("uuid", vec![]) },
        ],
    }));
    assert!(matches!(
        build_schema("Admin", &s, &catalog, &outside, &config()),
        Err(SchemaError::ModelInvariantViolation(_))
    ));
}

fn overrides() -> OutsideTypes {
    OutsideTypes {
        entities: vec![OverrideEntity {
            entity: "users".to_string(),
            fields: vec![OverrideField {
                field: "user_id".to_string(),
                target: Mod { import: "Data.Id.UserId".to_string(), name: "UserId".to_string(), package: "oa-ids".to_string() },
            }],
        }],
    }
}

#[test]
fn entity_names_lose_suffix_and_verb() {
    assert_eq!(entity_name("users_insert_input"), "users");
    assert_eq!(entity_name("update_users_set_input"), "users");
    assert_eq!(entity_name("delete_users_by_pk"), "users");
    assert_eq!(entity_name("users"), "users");
    assert_eq!(entity_name("update_users"), "users");
}

#[test]
fn override_table_wins() {
    let catalog = EnumCatalog { entries: vec![] };
    let (imp, t) = outside_type("users_set_input", "user_id", "uuid", &catalog, &overrides());
    assert_eq!(imp, Some(("oa-ids".to_string(), "Data.Id.UserId".to_string())));
    assert_eq!(t, "UserId");
    let (imp, t) = outside_type("users_bool_exp", "user_id", "uuid_comparison_exp", &catalog, &overrides());
    assert_eq!(imp, Some(("graphql-client".to_string(), "GraphQL.Hasura.ComparisonExp".to_string())));
    assert_eq!(t, "(ComparisonExp UserId)");
    let (imp, t) = outside_type("users_bool_exp", "user_id", "String_comparison_exp", &catalog, &overrides());
    assert_eq!(imp, Some(("oa-ids".to_string(), "Data.ComparisonExpString".to_string())));
    assert_eq!(t, "(ComparisonExpString UserId)");
}

#[test]
fn catalog_then_scalars() {
    let catalog = EnumCatalog {
        entries: vec![EnumEntry {
            name: "frequency".to_string(),
            package: "pg-enums".to_string(),
            import: "PgEnums.Frequency".to_string(),
            type_ident: "Frequency".to_string(),
        }],
    };
    let none = OutsideTypes { entities: vec![] };
    let (imp, t) = outside_type("events", "freq", "frequency", &catalog, &none);
    assert_eq!(imp, Some(("pg-enums".to_string(), "PgEnums.Frequency".to_string())));
    assert_eq!(t, "Frequency");
    let (imp, t) = outside_type("events", "at", "timestamptz", &catalog, &none);
    assert_eq!(imp, None);
    assert_eq!(t, "DateTime");
    assert_eq!(base_types("bigint"), "Number");
    assert_eq!(base_types("Float"), "Number");
    assert_eq!(base_types("citext"), "String");
    assert_eq!(base_types("Other"), "Other");
}

#[test]
fn as_gql_wraps_and_imports() {
    let catalog = EnumCatalog { entries: vec![] };
    let mut imports: Vec<PurescriptImport> = Vec::new();
    let a = as_gql_field("users", "user_id", "uuid", &mut imports, &catalog, &overrides());
    assert_eq!(a.to_string(), "AsGql \"uuid\" UserId");
    assert_eq!(imports.len(), 1);
    assert_eq!(imports[0].to_string(), "import Data.Id.UserId (UserId)");
    let b = as_gql_field("users", "name", "citext", &mut imports, &catalog, &overrides());
    assert_eq!(b.to_string(), "AsGql \"citext\" String");
    assert_eq!(imports.len(), 1);
    let c = as_gql_field("users", "kind", "user_kind", &mut imports, &catalog, &overrides());
    assert_eq!(c.to_string(), "AsGql \"user_kind\" UserKind");
}

#[test]
fn interfaces_and_unions_change_nothing() {
    let (catalog, outside) = empty_tables();
    let plain = build_schema("Admin", &user_schema(), &catalog, &outside, &config()).ok().unwrap();
    let mut s = user_schema();
    s.types.insert(1, SchemaType::Interface("Node".to_string()));
    s.types.push(SchemaType::Union("SearchResult".to_string()));
    let with_skipped = build_schema("Admin", &s, &catalog, &outside, &config()).ok().unwrap();
    assert_eq!(plain.text, with_skipped.text);
}

#[test]
fn root_record_is_named_schema_and_imports_void() {
    let (catalog, outside) = empty_tables();
    let m = build_schema("Admin", &user_schema(), &catalog, &outside, &config()).ok().unwrap();
    assert_eq!(m.records[0].name, "Schema");
    assert!(m.imports.iter().any(|i| i.to_string() == "import Data.Void (Void)" && i.package == "prelude"));
    assert_eq!(m.instances.len(), 1);
    assert_eq!(m.instances[0].to_string(), "derive instance Newtype User _");
}
