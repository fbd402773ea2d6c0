use purs_schema_gen::config::{
    WorkspaceConfig, ids_spago_yaml, mocked_id_module, replace_dollar_text, split_text, to_type_value, ConfigError, TypeFamily,
};
use purs_schema_gen::resolve::{EnumCatalog, EnumEntry, Mod, OutsideTypes, OverrideEntity};

fn families() -> Vec<TypeFamily> {
    vec![TypeFamily { name: "id".to_string(), descriptor: "x, Data.Id.$, oa-ids".to_string() }]
}

#[test]
fn split_on_separator() {
    assert_eq!(split_text("a, b, c", ", "), vec!["a".to_string(), "b".to_string(), "c".to_string()]);
    assert_eq!(split_text("abc", ", "), vec!["abc".to_string()]);
    assert_eq!(split_text("a=", "="), vec!["a".to_string(), "".to_string()]);
}

#[test]
fn dollar_substitution() {
    assert_eq!(replace_dollar_text("Data.Id.$", "UserId"), "Data.Id.UserId");
    assert_eq!(replace_dollar_text("$.$", "X"), "X.X");
    assert_eq!(replace_dollar_text("none", "X"), "none");
}

#[test]
fn type_value_from_family() {
    let m = to_type_value(&"id=UserId".to_string(), &families()).unwrap();
    assert_eq!(m.import, "Data.Id.UserId");
    assert_eq!(m.name, "UserId");
    assert_eq!(m.package, "oa-ids");
}

#[test]
fn type_value_written_out() {
    let m = to_type_value(&"FrequencyType, GeneratedPostgres.Enum.FrequencyType, pg-enums".to_string(), &families()).unwrap();
    assert_eq!(m.name, "FrequencyType");
    assert_eq!(m.import, "GeneratedPostgres.Enum.FrequencyType");
    assert_eq!(m.package, "pg-enums");
}

#[test]
fn type_value_errors() {
    assert_eq!(
        to_type_value(&"nope=UserId".to_string(), &families()),
        Err(ConfigError::UnknownTypeFamily("nope=UserId".to_string()))
    );
    assert_eq!(
        to_type_value(&"JustAName".to_string(), &families()),
        Err(ConfigError::MalformedTypeValue("JustAName".to_string()))
    );
    let bad = vec![TypeFamily { name: "id".to_string(), descriptor: "only-one".to_string() }];
    assert!(matches!(to_type_value(&"id=X".to_string(), &bad), Err(ConfigError::MalformedTypeFamily(_))));
}

#[test]
fn override_inserts_replace() {
    let mut e = OverrideEntity::new("users");
    let m = |n: &str| Mod { import: format!("M.{n}"), name: n.to_string(), package: "p".to_string() };
    e.insert("a".to_string(), m("A"));
    e.insert("b".to_string(), m("B"));
    e.insert("a".to_string(), m("C"));
    assert_eq!(e.fields.len(), 2);
    assert_eq!(e.fields[0].field, "a");
    assert_eq!(e.fields[0].target.name, "C");
    let mut t = OutsideTypes { entities: vec![] };
    t.insert(e);
    t.insert(OverrideEntity::new("users"));
    assert_eq!(t.entities.len(), 1);
    assert_eq!(t.entities[0].fields.len(), 0);
}

#[test]
fn mocked_identifier_module() {
    let m = Mod { import: "Data.Id.UserId".to_string(), name: "UserId".to_string(), package: "oa-ids".to_string() };
    assert_eq!(mocked_id_module(&m), "module Data.Id.UserId (UserId) where\n\nnewtype UserId = UserId String");
    assert_eq!(ids_spago_yaml(), "package:\n  name: oa-ids\n  dependencies:\n    - prelude\n");
}

#[test]
fn workspace_settings_need_every_key() {
    let keys = [
        "postgres_enums_lib",
        "postgres_enums_dir",
        "shared_graphql_enums_lib",
        "shared_graphql_enums_dir",
        "schema_libs_prefix",
        "schema_libs_dir",
    ];
    let mut entries: Vec<(String, String)> = keys.iter().map(|k| (k.to_string(), format!("{k}-value"))).collect();
    let c = WorkspaceConfig::new(&entries).unwrap();
    assert_eq!(c.schema_libs_prefix, "schema_libs_prefix-value");
    assert_eq!(c.postgres_enums_dir, "postgres_enums_dir-value");
    entries.remove(3);
    assert!(WorkspaceConfig::new(&entries).is_none());
}

#[test]
fn catalog_insert_keeps_names_unique() {
    let e = |t: &str| EnumEntry { name: "freq".to_string(), package: "p".to_string(), import: "M".to_string(), type_ident: t.to_string() };
    let mut c = EnumCatalog { entries: vec![] };
    c.insert(e("A"));
    c.insert(e("B"));
    assert_eq!(c.entries.len(), 1);
    assert_eq!(c.entries[0].type_ident, "B");
}
