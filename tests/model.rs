use purs_schema_gen::decl::{derive_new_type_instance, DeriveInstance, Enum, PurescriptType, Variant};
use purs_schema_gen::error::ModelError;
use purs_schema_gen::expr::{Argument, Field, PurescriptRecord};

#[test]
fn duplicate_field_fails() {
    let mut r = PurescriptRecord::new("R");
    assert_eq!(r.add_field(Field::new("a")), Ok(()));
    assert_eq!(r.add_field(Field::new("a").with_type("Int")), Err(ModelError::DuplicateField("a".to_string())));
    assert_eq!(r.fields.len(), 1);
}

#[test]
fn repeated_field_in_batch_fails() {
    let mut r = PurescriptRecord::new("R");
    let res = r.add_fields(vec![Field::new("a"), Field::new("b"), Field::new("a")]);
    assert_eq!(res, Err(ModelError::RepeatedField("a".to_string())));
    assert_eq!(r.fields.len(), 0);
}

#[test]
fn undeclared_type_variable_in_record_fails() {
    let mut r = PurescriptRecord::new("R");
    let res = r.add_field(Field::new("x").for_all("a"));
    assert_eq!(res, Err(ModelError::UndeclaredTypeVariable("x".to_string())));
    r.add_argument(Argument::new_for_all("a"));
    assert_eq!(r.add_field(Field::new("x").maybe_for_all("a")), Ok(()));
    assert!(r.has_field("x"));
    assert!(!r.has_field("y"));
}

#[test]
fn undeclared_type_variable_in_type_fails() {
    let body = Argument::new_type("Array").with_argument(Argument::new_for_all("a"));
    let t = PurescriptType::new("Box", vec![], body);
    assert_eq!(t.err(), Some(ModelError::UndeclaredTypeVariable("Box".to_string())));
    let body = Argument::new_type("Array").with_argument(Argument::new_for_all("a"));
    let t = PurescriptType::new("Box", vec!["a"], body).ok().unwrap();
    assert_eq!(t.to_string(), "type Box a = Array a");
}

#[test]
fn forall_types_are_collected_in_order() {
    let f = Argument::new_function(
        vec![Argument::new_for_all("a")],
        Argument::new_type("Tuple").with_argument(Argument::new_for_all("b")).with_argument(Argument::new_type("Int")),
    );
    assert_eq!(f.get_all_forall_types(), vec!["a".to_string(), "b".to_string()]);
    assert_eq!(Argument::new_type("Int").get_all_forall_types(), Vec::<String>::new());
}

#[test]
fn nested_applications_are_parenthesised() {
    let t = Argument::new_type("Maybe").with_argument(Argument::new_type("Array").with_argument(Argument::new_type("Int")));
    assert_eq!(t.to_string(), "Maybe (Array Int)");
    let f = Argument::new_function(vec![Argument::new_type("Int")], Argument::new_type("String"));
    let g = Argument::new_type("Array").with_argument(f);
    assert_eq!(g.to_string(), "Array (Int -> String)");
}

#[test]
fn record_printing() {
    let mut r = PurescriptRecord::new("Person");
    assert_eq!(r.to_string(), "type Person = {}");
    assert_eq!(r.to_type_string(), "{}");
    r.add_field(Field::new("name")).unwrap();
    assert_eq!(r.to_string(), "type Person = { name :: String }");
    r.add_field(Field::new("Age").with_type("Int")).unwrap();
    assert_eq!(r.to_string(), "type Person =\n  { name :: String\n  , \"Age\" :: Int\n  }");
    assert_eq!(r.to_type_string(), "{ name :: String\n  , \"Age\" :: Int\n  }");
}

#[test]
fn field_label_quoting() {
    assert_eq!(Field::new("Upper").show_field(), "\"Upper\"");
    assert_eq!(Field::new("lower").show_field(), "lower");
    assert_eq!(Field::new("x").maybe("Int").field_type.to_string(), "Maybe Int");
}

#[test]
fn newtype_printing() {
    let mut t = PurescriptType::new("User", vec![], Argument::new_record(PurescriptRecord::new("R"))).ok().unwrap();
    t.set_newtype(true);
    assert_eq!(t.to_string(), "newtype User = User\n  {}");
    assert_eq!(t.set_value(Argument::new_for_all("z")), Err(ModelError::UndeclaredTypeVariable("User".to_string())));
    assert_eq!(t.set_value(Argument::new_type("Int")), Ok(()));
    assert_eq!(t.to_string(), "newtype User = User\n  Int");
}

#[test]
fn enum_variant_instance_printing() {
    let mut e = Enum::new("Color");
    e.with_values(&vec!["Red".to_string(), "Green".to_string()]);
    e.add_value("Blue");
    assert_eq!(e.to_string(), "data Color\n  = Red\n  | Green\n  | Blue");
    let v = Variant::new("Status").with_values(&vec!["ACTIVE".to_string(), "DONE".to_string()]);
    assert_eq!(v.to_string(), "type Status = Variant\n  ( \"ACTIVE\" :: Unit\n  , \"DONE\" :: Unit\n  )");
    assert_eq!(derive_new_type_instance("User").to_string(), "derive instance Newtype User _");
    assert_eq!(DeriveInstance::new("User", "Eq").to_string(), "derive instance Eq User");
}

#[test]
fn record_type_parameters_print_in_head() {
    let mut r = PurescriptRecord::new("Pair");
    r.add_arguments(vec![Argument::new_for_all("a"), Argument::new_for_all("b")]);
    r.add_fields(vec![Field::new("first").for_all("a"), Field::new("second").for_all("b")]).unwrap();
    assert_eq!(r.to_string(), "type Pair a b =\n  { first :: a\n  , second :: b\n  }");
}
