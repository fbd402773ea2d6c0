use purs_schema_gen::directives::{build_directives, is_allowed_location, Directive, DirectiveLocation};
use purs_schema_gen::error::ModelError;
use purs_schema_gen::schema::{InputValue, TypeRef};
use purs_schema_gen::wrapping::WrappingType;

fn cached() -> Directive {
    Directive {
        name: "cached".to_string(),
        description: Some("cache it".to_string()),
        args: vec![InputValue { name: "ttl".to_string(), ty: TypeRef { name: "Int".to_string(), wrapping: vec![WrappingType::NonNull] } }],
        locations: vec![DirectiveLocation::Query],
    }
}

#[test]
fn directive_module_text() {
    let t = build_directives("Admin", &vec![cached()]).unwrap();
    assert!(t.starts_with("module Admin.Directives where \n\nimport GraphQL.Client.Args (NotNull)\n"));
    assert!(t.contains("type Directives :: List' Type\ntype Directives = Directive \"cached\" \"cache it\" { ttl :: NotNull Int } (QUERY :> Nil') :> Nil'"));
    assert!(t.ends_with("\ncached :: forall q args. args -> q -> ApplyDirective \"cached\" args q\ncached = applyDir (Proxy :: _ \"cached\")\n"));
}

#[test]
fn field_only_directives_get_no_type() {
    let mut d = cached();
    d.locations = vec![DirectiveLocation::Other];
    let t = build_directives("Admin", &vec![d]).unwrap();
    assert!(!t.contains("type Directives"));
    assert!(t.contains("cached = applyDir"));
    assert!(is_allowed_location(&DirectiveLocation::Mutation));
    assert!(!is_allowed_location(&DirectiveLocation::Other));
}

#[test]
fn repeated_directive_argument_fails() {
    let mut d = cached();
    d.args.push(InputValue { name: "ttl".to_string(), ty: TypeRef { name: "Int".to_string(), wrapping: vec![] } });
    assert_eq!(build_directives("Admin", &vec![d]), Err(ModelError::DuplicateField("ttl".to_string())));
}
