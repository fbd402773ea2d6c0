use purs_schema_gen::expr::Argument;
use purs_schema_gen::import::PurescriptImport;
use purs_schema_gen::wrapping::{return_type_wrapper, wrap_type, WrappingType};

use WrappingType::{List, NonNull};

fn ret(stack: Vec<WrappingType>) -> (String, usize) {
    let mut imports: Vec<PurescriptImport> = Vec::new();
    let r = return_type_wrapper(Argument::new_type("T"), &stack, &mut imports);
    (r.to_string(), imports.len())
}

fn arg(stack: Vec<WrappingType>) -> (String, usize) {
    let mut imports: Vec<PurescriptImport> = Vec::new();
    let r = wrap_type(Argument::new_type("T"), &stack, &mut imports);
    (r.to_string(), imports.len())
}

#[test]
fn return_position_no_modifiers() {
    assert_eq!(ret(vec![]), ("Maybe T".to_string(), 1));
}

#[test]
fn return_position_non_null() {
    assert_eq!(ret(vec![NonNull]), ("T".to_string(), 0));
}

#[test]
fn return_position_nullable_list() {
    assert_eq!(ret(vec![List]), ("Maybe (Array (Maybe T))".to_string(), 2));
}

#[test]
fn return_position_non_null_list_of_nullable() {
    assert_eq!(ret(vec![List, NonNull]), ("Array (Maybe T)".to_string(), 1));
}

#[test]
fn return_position_nullable_list_of_non_null() {
    assert_eq!(ret(vec![NonNull, List]), ("Maybe (Array T)".to_string(), 1));
}

#[test]
fn return_position_non_null_list_of_non_null() {
    assert_eq!(ret(vec![NonNull, List, NonNull]), ("Array T".to_string(), 0));
}

#[test]
fn argument_position_non_null() {
    assert_eq!(arg(vec![NonNull]), ("NotNull T".to_string(), 1));
}

#[test]
fn argument_position_list() {
    assert_eq!(arg(vec![List]), ("Array T".to_string(), 0));
}

#[test]
fn argument_position_non_null_list_of_non_null() {
    assert_eq!(arg(vec![NonNull, List, NonNull]), ("NotNull (Array (NotNull T))".to_string(), 2));
}

#[test]
fn argument_position_bare() {
    assert_eq!(arg(vec![]), ("T".to_string(), 0));
}

#[test]
fn maybe_import_is_printed() {
    let mut imports: Vec<PurescriptImport> = Vec::new();
    return_type_wrapper(Argument::new_type("T"), &vec![], &mut imports);
    assert_eq!(imports[0].to_string(), "import Data.Maybe (Maybe)");
    assert_eq!(imports[0].package, "maybe");
}
