use purs_schema_gen::decl::{DeriveInstance, PurescriptType};
use purs_schema_gen::expr::Argument;
use purs_schema_gen::import::PurescriptImport;
use purs_schema_gen::module::print_module;
use purs_schema_gen::manifest::to_spago_yaml;

fn lines(v: &Vec<PurescriptImport>) -> Vec<String> {
    v.iter().map(|i| i.to_string()).collect()
}

fn sample() -> Vec<PurescriptImport> {
    vec![
        PurescriptImport::new("Data.Maybe", "maybe").add_specified("Maybe"),
        PurescriptImport::new("Prelude", "prelude").add_specified("Unit"),
        PurescriptImport::new("Data.Maybe", "maybe").add_specified("fromMaybe").add_specified("Maybe"),
        PurescriptImport::new("Data.Array", "arrays").add_specified("head"),
    ]
}

#[test]
fn merge_groups_and_sorts() {
    let m = PurescriptImport::merge(&sample());
    assert_eq!(
        lines(&m),
        vec![
            "import Data.Array (head)".to_string(),
            "import Data.Maybe (Maybe, fromMaybe)".to_string(),
            "import Prelude (Unit)".to_string(),
        ]
    );
}

#[test]
fn merge_is_idempotent() {
    let once = PurescriptImport::merge(&sample());
    let twice = PurescriptImport::merge(&once);
    assert_eq!(lines(&once), lines(&twice));
    assert_eq!(once.iter().map(|i| i.specified.clone()).collect::<Vec<_>>(), twice.iter().map(|i| i.specified.clone()).collect::<Vec<_>>());
}

#[test]
fn merge_ignores_input_order() {
    let mut reversed = sample();
    reversed.reverse();
    assert_eq!(lines(&PurescriptImport::merge(&sample())), lines(&PurescriptImport::merge(&reversed)));
}

#[test]
fn aliases_keep_imports_apart() {
    let mut a = PurescriptImport::new("Foreign", "foreign");
    a.as_name = Some("F".to_string());
    let b = PurescriptImport::new("Foreign", "foreign").add_specified("readString");
    let m = PurescriptImport::merge(&vec![a, b]);
    assert_eq!(lines(&m), vec!["import Foreign (readString)".to_string(), "import Foreign as F".to_string()]);
}

#[test]
fn symbols_print_sorted_once() {
    let i = PurescriptImport::new("M", "p").add_specified("b").add_specified("a").add_specified("b");
    assert_eq!(i.to_string(), "import M (a, b)");
    assert_eq!(PurescriptImport::new("M", "p").to_string(), "import M");
}

#[test]
fn manifest_lists_packages_sorted() {
    let yaml = to_spago_yaml("schema-", "Admin", &sample());
    assert_eq!(
        yaml,
        "package:\n  name: schema-admin\n  dependencies:\n    - arrays\n    - maybe\n    - prelude\n    - typelevel-lists"
    );
}

#[test]
fn empty_sections_are_left_out() {
    let text = print_module("R", &mut vec![], &mut vec![], &mut vec![], &mut vec![], &mut vec![]);
    assert_eq!(text, "module Schema.R where");
}

#[test]
fn comparison_modules_import_one_symbol() {
    let mut imports = vec![
        PurescriptImport::new("GraphQL.Hasura.ComparisonExp", "graphql-client").add_specified("(ComparisonExp UserId)"),
        PurescriptImport::new("GraphQL.Hasura.ComparisonExp", "graphql-client").add_specified("(ComparisonExp EventId)"),
        PurescriptImport::new("Data.ComparisonExpString", "oa-ids").add_specified("(ComparisonExpString UserId)"),
    ];
    let mut instances = vec![DeriveInstance::new("User", "Newtype").with_argument("_")];
    let text = print_module("R", &mut vec![], &mut vec![], &mut imports, &mut vec![], &mut instances);
    assert_eq!(
        text,
        "module Schema.R where\n\nimport Data.ComparisonExpString (ComparisonExpString)\nimport GraphQL.Hasura.ComparisonExp (ComparisonExp)\n\nderive instance Newtype User _"
    );
}

#[test]
fn declarations_sorted_and_first_kept() {
    let mut types = vec![
        PurescriptType::new("B", vec![], Argument::new_type("Int")).ok().unwrap(),
        PurescriptType::new("A", vec![], Argument::new_type("First")).ok().unwrap(),
        PurescriptType::new("A", vec![], Argument::new_type("Second")).ok().unwrap(),
    ];
    let text = print_module("R", &mut types, &mut vec![], &mut vec![], &mut vec![], &mut vec![]);
    assert_eq!(text, "module Schema.R where\n\ntype A = First\n\ntype B = Int");
    assert_eq!(types.len(), 2);
    assert_eq!(types[0].to_string(), "type A = First");
    assert_eq!(types[1].name, "B");
}
