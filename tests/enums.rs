use purs_schema_gen::enum_gen::{
    catalog_entry, decimal_text, enum_body, enum_instances, first_upper, generate_enum, write_enum_module,
    EnumType, GeneratedEnum, PgEnum, SharedEnumConfig,
};
use purs_schema_gen::error::ModelError;
use purs_schema_gen::import::PurescriptImport;

fn config() -> SharedEnumConfig {
    SharedEnumConfig { suffixes: vec!["Enum".to_string()], lib: "shared-enums".to_string(), dir: "libs/".to_string() }
}

fn strings(v: &[&str]) -> Vec<String> {
    v.iter().map(|s| s.to_string()).collect()
}

#[test]
fn empty_enum_gets_one_synthetic_value_inline() {
    let mut imports: Vec<PurescriptImport> = Vec::new();
    let en = EnumType { name: "empty".to_string(), values: strings(&["_PLACEHOLDER"]) };
    match generate_enum(&en, &mut imports, &config()) {
        GeneratedEnum::Inline(v) => {
            assert_eq!(v.values, strings(&["ENUM_PLACEHOLDER"]));
            assert!(!v.to_string().contains("\"_PLACEHOLDER\""));
        }
        GeneratedEnum::Shared(_) => panic!("expected an inline fragment"),
    }
    assert!(imports.is_empty());
}

#[test]
fn empty_enum_gets_one_synthetic_value_shared() {
    let mut imports: Vec<PurescriptImport> = Vec::new();
    let en = EnumType { name: "empty_enum".to_string(), values: strings(&["_PLACEHOLDER"]) };
    match generate_enum(&en, &mut imports, &config()) {
        GeneratedEnum::Shared(m) => {
            assert!(m.source.contains("data EmptyEnum\n  = ENUM_PLACEHOLDER\n"));
            assert!(!m.source.contains("\"_PLACEHOLDER\""));
        }
        GeneratedEnum::Inline(_) => panic!("expected a shared module"),
    }
}

#[test]
fn shared_suffix_routes_to_module() {
    let mut imports: Vec<PurescriptImport> = Vec::new();
    let en = EnumType { name: "status_enum".to_string(), values: strings(&["active", "done"]) };
    match generate_enum(&en, &mut imports, &config()) {
        GeneratedEnum::Shared(m) => {
            assert_eq!(m.name, "StatusEnum");
            assert_eq!(m.module_name, "SharedEnums.StatusEnum");
            assert_eq!(m.path, "libs/shared-enums/src/SharedEnums/StatusEnum.purs");
            assert!(m.source.starts_with("module SharedEnums.StatusEnum (StatusEnum) where\n\nimport Prelude\n"));
            assert!(m.source.contains("data StatusEnum\n  = Active\n  | Done"));
            assert!(m.source.contains("instance Show StatusEnum where\n  show a = case a of\n    Active -> \"active\"\n    Done -> \"done\""));
            assert!(m.source.contains("instance Bounded StatusEnum where\n  top = Done\n  bottom = Active"));
        }
        GeneratedEnum::Inline(_) => panic!("expected a shared module"),
    }
    assert_eq!(imports.len(), 1);
    assert_eq!(imports[0].to_string(), "import SharedEnums.StatusEnum (StatusEnum)");
}

#[test]
fn other_names_route_inline() {
    let mut imports: Vec<PurescriptImport> = Vec::new();
    let en = EnumType { name: "Status".to_string(), values: strings(&["ACTIVE", "DONE"]) };
    match generate_enum(&en, &mut imports, &config()) {
        GeneratedEnum::Inline(v) => assert_eq!(
            v.to_string(),
            "type Status = Variant\n  ( \"ACTIVE\" :: Unit\n  , \"DONE\" :: Unit\n  )"
        ),
        GeneratedEnum::Shared(_) => panic!("expected an inline fragment"),
    }
    assert!(imports.is_empty());
}

#[test]
fn instances_cover_every_capability() {
    let t = enum_instances("Color", &strings(&["Red", "Green"]), &strings(&["red", "green"])).unwrap();
    assert!(t.starts_with("\n\ninstance FC.Decode Color where"));
    assert!(t.contains("instance DecodeJson Color where\n  decodeJson = decodeJson >=> case _ of\n    \"red\" -> pure Red\n    \"green\" -> pure Green\n    s -> Left $ TypeMismatch $ \"Not a Color: \" <> s"));
    assert!(t.contains("instance Enum Color where\n  succ a = case a of\n    Red -> Just Green\n    Green -> Nothing\n  pred a = case a of\n    Red -> Nothing\n    Green -> Just Red"));
    assert!(t.ends_with("instance BoundedEnum Color where\n  cardinality = Cardinality 2\n  toEnum a = case a of\n    0 -> Just Red\n    1 -> Just Green\n    _ -> Nothing\n  fromEnum a = case a of\n    Red -> 0\n    Green -> 1"));
}

#[test]
fn mismatched_values_fail() {
    assert_eq!(enum_instances("C", &strings(&["A", "B"]), &strings(&["a"])), Err(ModelError::MismatchedEnumValues));
    assert_eq!(enum_body("C", &strings(&["A"]), &strings(&["a", "b"])), Err(ModelError::MismatchedEnumValues));
}

#[test]
fn decimal_numerals() {
    assert_eq!(decimal_text(0), "0");
    assert_eq!(decimal_text(7), "7");
    assert_eq!(decimal_text(1205), "1205");
}

#[test]
fn first_upper_changes_first_character_only() {
    assert_eq!(first_upper("active"), "Active");
    assert_eq!(first_upper("ACTIVE"), "ACTIVE");
    assert_eq!(first_upper(""), "");
}

#[test]
fn backing_store_enum_module() {
    let row = PgEnum { enumtype: "frequency_type".to_string(), enumlabel: Some(strings(&["weekly", "dailyRun"])) };
    let src = write_enum_module(&row, "GeneratedPostgres.Enum");
    assert!(src.starts_with("module GeneratedPostgres.Enum.FrequencyType (FrequencyType(..)) where\n\nimport Prelude\n"));
    assert!(src.contains("data FrequencyType\n  = WEEKLY\n  | DAILY_RUN\n\nallFrequencyType :: Array FrequencyType\nallFrequencyType =\n  [ WEEKLY\n  , DAILY_RUN\n  ]"));
    assert!(src.contains("    WEEKLY -> \"weekly\"\n    DAILY_RUN -> \"dailyRun\""));
    let none = PgEnum { enumtype: "empty".to_string(), enumlabel: None };
    assert!(write_enum_module(&none, "P").contains("data Empty\n  = ENUM_PLACEHOLDER"));
}

#[test]
fn catalog_entries() {
    let e = catalog_entry("frequency_type", "pg-enums", "PgEnums");
    assert_eq!(e.type_ident, "FrequencyType");
    assert_eq!(e.import, "PgEnums.FrequencyType");
    assert_eq!(e.package, "pg-enums");
}
