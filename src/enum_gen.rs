//! Enum generation: shared modules with their instances, or inline variant fragments.
use vstd::prelude::*;

use crate::decl::{Enum, Variant};
use crate::error::ModelError;
use crate::import::{add_import, models, single_import, PurescriptImport};
use crate::outside::{
    char_to_uppercase, char_upper_of, pascal_case, pascal_of, snake_case, snake_of, to_uppercase,
    upper_of,
};
use crate::resolve::{ends_with, text_ends_with, EnumEntry};
use crate::text::{join, join_strings};

verus! {

/// The text of a decimal digit.
pub open spec fn digit_text(d: nat) -> Seq<char> {
    if d == 0 {
        "0"@
    } else if d == 1 {
        "1"@
    } else if d == 2 {
        "2"@
    } else if d == 3 {
        "3"@
    } else if d == 4 {
        "4"@
    } else if d == 5 {
        "5"@
    } else if d == 6 {
        "6"@
    } else if d == 7 {
        "7"@
    } else if d == 8 {
        "8"@
    } else {
        "9"@
    }
}

/// The decimal numeral of a natural number.
pub open spec fn decimal(n: nat) -> Seq<char>
    decreases n,
{
    if n < 10 {
        digit_text(n)
    } else {
        decimal(n / 10) + digit_text(n % 10)
    }
}

fn digit(d: usize) -> (r: &'static str)
    requires
        d < 10,
    ensures
        r@ == digit_text(d as nat),
{
    if d == 0 {
        "0"
    } else if d == 1 {
        "1"
    } else if d == 2 {
        "2"
    } else if d == 3 {
        "3"
    } else if d == 4 {
        "4"
    } else if d == 5 {
        "5"
    } else if d == 6 {
        "6"
    } else if d == 7 {
        "7"
    } else if d == 8 {
        "8"
    } else {
        "9"
    }
}

/// The decimal numeral of `n`.
pub fn decimal_text(n: usize) -> (r: String)
    ensures
        r@ == decimal(n as nat),
    decreases n,
{
    if n < 10 {
        digit(n).to_string()
    } else {
        let mut s = decimal_text(n / 10);
        s.append(digit(n % 10));
        s
    }
}

/// The text with its first character upper-cased.
pub open spec fn first_upper_of(s: Seq<char>) -> Seq<char> {
    if s.len() == 0 {
        Seq::empty()
    } else {
        char_upper_of(s[0]) + s.drop_first()
    }
}

/// The text with its first character upper-cased.
pub fn first_upper(s: &str) -> (r: String)
    ensures
        r@ == first_upper_of(s@),
{
    let n = s.unicode_len();
    if n == 0 {
        return String::new();
    }
    let mut out = char_to_uppercase(s.get_char(0));
    out.append(s.substring_char(1, n));
    assert(s@.subrange(1, n as int) =~= s@.drop_first());
    out
}

/// `"s"`.
pub open spec fn quoted(s: Seq<char>) -> Seq<char> {
    "\""@ + s + "\""@
}

/// One instance of a shared enum.
#[derive(Clone, Copy, Debug, PartialEq, Eq, Structural)]
pub enum Capability {
    ForeignDecode,
    ForeignEncode,
    Equality,
    Ordering,
    GqlArgString,
    JsonDecode,
    JsonEncode,
    HasuraDecode,
    HasuraEncode,
    Show,
    Enumerable,
    Bounded,
    BoundedEnum,
}

/// The instances of a shared enum, in the order they are printed.
pub open spec fn shared_capabilities() -> Seq<Capability> {
    seq![
        Capability::ForeignDecode,
        Capability::ForeignEncode,
        Capability::Equality,
        Capability::Ordering,
        Capability::GqlArgString,
        Capability::JsonDecode,
        Capability::JsonEncode,
        Capability::HasuraDecode,
        Capability::HasuraEncode,
        Capability::Show,
        Capability::Enumerable,
        Capability::Bounded,
        Capability::BoundedEnum,
    ]
}

/// The decoding case of the `i`-th value: from its source text.
pub open spec fn decode_line(v: Seq<Seq<char>>, o: Seq<Seq<char>>, i: int) -> Seq<char> {
    quoted(o[i]) + " -> pure "@ + v[i]
}

/// The show case of the `i`-th value: to its source text.
pub open spec fn show_line(v: Seq<Seq<char>>, o: Seq<Seq<char>>, i: int) -> Seq<char> {
    v[i] + " -> "@ + quoted(o[i])
}

/// The successor case of the `i`-th value.
pub open spec fn succ_line(v: Seq<Seq<char>>, i: int) -> Seq<char> {
    if i == v.len() - 1 {
        v[i] + " -> Nothing"@
    } else {
        v[i] + " -> Just "@ + v[i + 1]
    }
}

/// The predecessor case of the `i`-th value.
pub open spec fn pred_line(v: Seq<Seq<char>>, i: int) -> Seq<char> {
    if i == 0 {
        v[i] + " -> Nothing"@
    } else {
        v[i] + " -> Just "@ + v[i - 1]
    }
}

/// The `toEnum` case of the `i`-th value.
pub open spec fn to_enum_line(v: Seq<Seq<char>>, i: int) -> Seq<char> {
    decimal(i as nat) + " -> Just "@ + v[i]
}

/// The `fromEnum` case of the `i`-th value.
pub open spec fn from_enum_line(v: Seq<Seq<char>>, i: int) -> Seq<char> {
    v[i] + " -> "@ + decimal(i as nat)
}

/// The case lines of a capability, one per value.
pub open spec fn case_lines(kind: nat, v: Seq<Seq<char>>, o: Seq<Seq<char>>) -> Seq<Seq<char>> {
    Seq::new(v.len(), |i: int| case_line(kind, v, o, i))
}

/// The `i`-th case line of a capability.
pub open spec fn case_line(kind: nat, v: Seq<Seq<char>>, o: Seq<Seq<char>>, i: int) -> Seq<char> {
    if kind == 0 {
        decode_line(v, o, i)
    } else if kind == 1 {
        show_line(v, o, i)
    } else if kind == 2 {
        succ_line(v, i)
    } else if kind == 3 {
        pred_line(v, i)
    } else if kind == 4 {
        to_enum_line(v, i)
    } else if kind == 5 {
        from_enum_line(v, i)
    } else {
        array_line(v, i)
    }
}

/// The case lines joined at the indentation of a case expression.
pub open spec fn cases(kind: nat, v: Seq<Seq<char>>, o: Seq<Seq<char>>) -> Seq<char> {
    join(case_lines(kind, v, o), "\n    "@)
}

/// The element of the `i`-th value in a list of all values.
pub open spec fn array_line(v: Seq<Seq<char>>, i: int) -> Seq<char> {
    (if i == 0 {
        "  ["@
    } else {
        "  ,"@
    }) + " "@ + v[i]
}

/// The text of one instance of the enum `n` with constructors `v` for the source values `o`.
pub open spec fn capability_text(c: Capability, n: Seq<char>, v: Seq<Seq<char>>, o: Seq<Seq<char>>) -> Seq<char> {
    match c {
        Capability::ForeignDecode => "\n\ninstance FC.Decode "@ + n
            + " where\n  decode = unsafeFromForeign >>> decodeJson >>> lmap (D.printJsonDecodeError >>> F.ForeignError >>> pure) >>> except"@,
        Capability::ForeignEncode => "\n\ninstance FC.Encode "@ + n
            + " where\n  encode = encodeJson >>> unsafeToForeign"@,
        Capability::Equality => "\n\ninstance Eq "@ + n + " where\n  eq = eq `on` show"@,
        Capability::Ordering => "\n\ninstance Ord "@ + n + " where\n  compare = compare `on` show"@,
        Capability::GqlArgString => "\n\ninstance GqlArgString "@ + n
            + " where\n  toGqlArgStringImpl = show"@,
        Capability::JsonDecode => "\n\ninstance DecodeJson "@ + n
            + " where\n  decodeJson = decodeJson >=> case _ of\n    "@ + cases(0, v, o)
            + "\n    s -> Left $ TypeMismatch $ \"Not a "@ + n + ": \" <> s"@,
        Capability::JsonEncode => "\n\ninstance EncodeJson "@ + n
            + " where\n  encodeJson = show >>> encodeJson"@,
        Capability::HasuraDecode => "\n\ninstance DecodeHasura "@ + n
            + " where\n  decodeHasura = decodeJson"@,
        Capability::HasuraEncode => "\n\ninstance EncodeHasura "@ + n
            + " where\n  encodeHasura = encodeJson"@,
        Capability::Show => "\n\ninstance Show "@ + n + " where\n  show a = case a of\n    "@ + cases(
            1,
            v,
            o,
        ),
        Capability::Enumerable => "\n\ninstance Enum "@ + n + " where\n  succ a = case a of\n    "@
            + cases(2, v, o) + "\n  pred a = case a of\n    "@ + cases(3, v, o),
        Capability::Bounded => "\n\ninstance Bounded "@ + n + " where\n  top = "@ + v.last()
            + "\n  bottom = "@ + v[0],
        Capability::BoundedEnum => "\n\ninstance BoundedEnum "@ + n
            + " where\n  cardinality = Cardinality "@ + decimal(v.len()) + "\n  toEnum a = case a of\n    "@
            + cases(4, v, o) + "\n    _ -> Nothing\n  fromEnum a = case a of\n    "@ + cases(5, v, o),
    }
}

/// The texts of a list of capabilities, concatenated.
pub open spec fn capabilities_text(cs: Seq<Capability>, n: Seq<char>, v: Seq<Seq<char>>, o: Seq<Seq<char>>) -> Seq<char>
    decreases cs.len(),
{
    if cs.len() == 0 {
        Seq::empty()
    } else {
        capabilities_text(cs.drop_last(), n, v, o) + capability_text(cs.last(), n, v, o)
    }
}

/// The case lines of one kind, joined.
fn case_text(kind: usize, values: &Vec<String>, originals: &Vec<String>, sep: &str) -> (r: String)
    requires
        kind <= 6,
        values.len() == originals.len(),
        values.len() < usize::MAX,
    ensures
        r@ == join(case_lines(kind as nat, values.deep_view(), originals.deep_view()), sep@),
{
    let ghost v = values.deep_view();
    let ghost o = originals.deep_view();
    let n = values.len();
    let mut lines: Vec<String> = Vec::new();
    let mut i: usize = 0;
    while i < n
        invariant
            n == values.len(),
            n == originals.len(),
            kind <= 6,
            v == values.deep_view(),
            o == originals.deep_view(),
            i <= n,
            lines.deep_view() == case_lines(kind as nat, v, o).take(i as int),
        decreases n - i,
    {
        let mut line = String::new();
        if kind == 0 {
            line.append("\"");
            line.append(originals[i].as_str());
            line.append("\"");
            line.append(" -> pure ");
            line.append(values[i].as_str());
        } else if kind == 1 {
            line.append(values[i].as_str());
            line.append(" -> ");
            line.append("\"");
            line.append(originals[i].as_str());
            line.append("\"");
        } else if kind == 2 {
            line.append(values[i].as_str());
            if i == n - 1 {
                line.append(" -> Nothing");
            } else {
                line.append(" -> Just ");
                line.append(values[i + 1].as_str());
            }
        } else if kind == 3 {
            line.append(values[i].as_str());
            if i == 0 {
                line.append(" -> Nothing");
            } else {
                line.append(" -> Just ");
                line.append(values[i - 1].as_str());
            }
        } else if kind == 4 {
            let d = decimal_text(i);
            line.append(d.as_str());
            line.append(" -> Just ");
            line.append(values[i].as_str());
        } else if kind == 5 {
            let d = decimal_text(i);
            line.append(values[i].as_str());
            line.append(" -> ");
            line.append(d.as_str());
        } else {
            if i == 0 {
                line.append("  [");
            } else {
                line.append("  ,");
            }
            line.append(" ");
            line.append(values[i].as_str());
        }
        proof {
            assert(v[i as int] == values@[i as int]@);
            assert(o[i as int] == originals@[i as int]@);
            if i + 1 < n {
                assert(v[i as int + 1] == values@[i as int + 1]@);
            }
            if i > 0 {
                assert(v[i as int - 1] == values@[i as int - 1]@);
            }
            assert(line@ == case_line(kind as nat, v, o, i as int));
        }
        let ghost before = lines.deep_view();
        let ghost lv = line@;
        lines.push(line);
        assert(lines.deep_view() =~= before.push(lv));
        assert(case_lines(kind as nat, v, o)[i as int] == case_line(kind as nat, v, o, i as int));
        assert(case_lines(kind as nat, v, o).take(i as int + 1) =~= case_lines(kind as nat, v, o).take(i as int).push(lv));
        i = i + 1;
    }
    assert(case_lines(kind as nat, v, o).take(n as int) =~= case_lines(kind as nat, v, o));
    join_strings(&lines, sep)
}

/// The text of one instance of the enum `name`.
pub fn capability(c: Capability, name: &str, values: &Vec<String>, originals: &Vec<String>) -> (r: String)
    requires
        values.len() == originals.len(),
        values.len() > 0,
        values.len() < usize::MAX,
    ensures
        r@ == capability_text(c, name@, values.deep_view(), originals.deep_view()),
{
    let mut t = String::new();
    match c {
        Capability::ForeignDecode => {
            t.append("\n\ninstance FC.Decode ");
            t.append(name);
            t.append(" where\n  decode = unsafeFromForeign >>> decodeJson >>> lmap (D.printJsonDecodeError >>> F.ForeignError >>> pure) >>> except");
        },
        Capability::ForeignEncode => {
            t.append("\n\ninstance FC.Encode ");
            t.append(name);
            t.append(" where\n  encode = encodeJson >>> unsafeToForeign");
        },
        Capability::Equality => {
            t.append("\n\ninstance Eq ");
            t.append(name);
            t.append(" where\n  eq = eq `on` show");
        },
        Capability::Ordering => {
            t.append("\n\ninstance Ord ");
            t.append(name);
            t.append(" where\n  compare = compare `on` show");
        },
        Capability::GqlArgString => {
            t.append("\n\ninstance GqlArgString ");
            t.append(name);
            t.append(" where\n  toGqlArgStringImpl = show");
        },
        Capability::JsonDecode => {
            let cs = case_text(0, values, originals, "\n    ");
            t.append("\n\ninstance DecodeJson ");
            t.append(name);
            t.append(" where\n  decodeJson = decodeJson >=> case _ of\n    ");
            t.append(cs.as_str());
            t.append("\n    s -> Left $ TypeMismatch $ \"Not a ");
            t.append(name);
            t.append(": \" <> s");
        },
        Capability::JsonEncode => {
            t.append("\n\ninstance EncodeJson ");
            t.append(name);
            t.append(" where\n  encodeJson = show >>> encodeJson");
        },
        Capability::HasuraDecode => {
            t.append("\n\ninstance DecodeHasura ");
            t.append(name);
            t.append(" where\n  decodeHasura = decodeJson");
        },
        Capability::HasuraEncode => {
            t.append("\n\ninstance EncodeHasura ");
            t.append(name);
            t.append(" where\n  encodeHasura = encodeJson");
        },
        Capability::Show => {
            let cs = case_text(1, values, originals, "\n    ");
            t.append("\n\ninstance Show ");
            t.append(name);
            t.append(" where\n  show a = case a of\n    ");
            t.append(cs.as_str());
        },
        Capability::Enumerable => {
            let succ = case_text(2, values, originals, "\n    ");
            let pred = case_text(3, values, originals, "\n    ");
            t.append("\n\ninstance Enum ");
            t.append(name);
            t.append(" where\n  succ a = case a of\n    ");
            t.append(succ.as_str());
            t.append("\n  pred a = case a of\n    ");
            t.append(pred.as_str());
        },
        Capability::Bounded => {
            t.append("\n\ninstance Bounded ");
            t.append(name);
            t.append(" where\n  top = ");
            t.append(values[values.len() - 1].as_str());
            t.append("\n  bottom = ");
            t.append(values[0].as_str());
        },
        Capability::BoundedEnum => {
            let count = decimal_text(values.len());
            let to_enum = case_text(4, values, originals, "\n    ");
            let from_enum = case_text(5, values, originals, "\n    ");
            t.append("\n\ninstance BoundedEnum ");
            t.append(name);
            t.append(" where\n  cardinality = Cardinality ");
            t.append(count.as_str());
            t.append("\n  toEnum a = case a of\n    ");
            t.append(to_enum.as_str());
            t.append("\n    _ -> Nothing\n  fromEnum a = case a of\n    ");
            t.append(from_enum.as_str());
        },
    }
    t
}

/// The instances of a shared enum, in order; fails where the constructors and their source values differ
/// in number.
pub fn enum_instances(name: &str, values: &Vec<String>, original_values: &Vec<String>) -> (r: Result<
    String,
    ModelError,
>)
    requires
        values.len() > 0,
        values.len() < usize::MAX,
    ensures
        values.len() != original_values.len() <==> r is Err,
        r matches Err(e) ==> e == ModelError::MismatchedEnumValues,
        r matches Ok(t) ==> t@ == capabilities_text(
            shared_capabilities(),
            name@,
            values.deep_view(),
            original_values.deep_view(),
        ),
{
    if values.len() != original_values.len() {
        return Err(ModelError::MismatchedEnumValues);
    }
    let caps = vec![
        Capability::ForeignDecode,
        Capability::ForeignEncode,
        Capability::Equality,
        Capability::Ordering,
        Capability::GqlArgString,
        Capability::JsonDecode,
        Capability::JsonEncode,
        Capability::HasuraDecode,
        Capability::HasuraEncode,
        Capability::Show,
        Capability::Enumerable,
        Capability::Bounded,
        Capability::BoundedEnum,
    ];
    assert(caps@ =~= shared_capabilities());
    let mut out = String::new();
    let mut i: usize = 0;
    while i < caps.len()
        invariant
            i <= caps.len(),
            caps@ == shared_capabilities(),
            values.len() == original_values.len(),
            values.len() > 0,
            values.len() < usize::MAX,
            out@ == capabilities_text(caps@.take(i as int), name@, values.deep_view(), original_values.deep_view()),
        decreases caps.len() - i,
    {
        assert(caps@.take(i as int + 1).drop_last() =~= caps@.take(i as int));
        let t = capability(caps[i], name, values, original_values);
        out.append(t.as_str());
        i = i + 1;
    }
    assert(caps@.take(caps.len() as int) =~= caps@);
    Ok(out)
}

/// The imports of a shared enum module.
pub open spec fn shared_enum_imports() -> Seq<char> {
    "import Prelude\n\nimport Data.Argonaut.Decode (class DecodeJson, JsonDecodeError(..), decodeJson)\nimport Data.Argonaut.Encode (class EncodeJson, encodeJson)\nimport Data.Enum (class Enum, class BoundedEnum, Cardinality(..))\nimport Data.Either (Either(..))\nimport Data.Function (on)\nimport Data.Maybe (Maybe(..))\nimport GraphQL.Client.ToGqlString (class GqlArgString)\nimport GraphQL.Hasura.Decode (class DecodeHasura)\nimport GraphQL.Hasura.Encode (class EncodeHasura)\nimport Foreign (unsafeFromForeign, unsafeToForeign)\nimport Foreign as F\nimport Data.Argonaut.Decode as D\nimport Control.Monad.Except (except)\nimport Data.Bifunctor (lmap)\nimport Foreign.Class as FC"@
}

fn shared_enum_imports_text() -> (r: &'static str)
    ensures
        r@ == shared_enum_imports(),
{
    "import Prelude\n\nimport Data.Argonaut.Decode (class DecodeJson, JsonDecodeError(..), decodeJson)\nimport Data.Argonaut.Encode (class EncodeJson, encodeJson)\nimport Data.Enum (class Enum, class BoundedEnum, Cardinality(..))\nimport Data.Either (Either(..))\nimport Data.Function (on)\nimport Data.Maybe (Maybe(..))\nimport GraphQL.Client.ToGqlString (class GqlArgString)\nimport GraphQL.Hasura.Decode (class DecodeHasura)\nimport GraphQL.Hasura.Encode (class EncodeHasura)\nimport Foreign (unsafeFromForeign, unsafeToForeign)\nimport Foreign as F\nimport Data.Argonaut.Decode as D\nimport Control.Monad.Except (except)\nimport Data.Bifunctor (lmap)\nimport Foreign.Class as FC"
}

/// The package manifest of the shared enum library.
pub fn enums_spago_yaml() -> (r: String)
    ensures
        r@ == "package:\n  name: oa-gql-enums\n  dependencies:\n    - argonaut\n    - argonaut-codecs\n    - arrays\n    - bifunctors\n    - either\n    - enums\n    - foreign\n    - foreign-generic\n    - graphql-client\n    - prelude\n    - simple-json\n    - transformers\n"@,
{
    "package:\n  name: oa-gql-enums\n  dependencies:\n    - argonaut\n    - argonaut-codecs\n    - arrays\n    - bifunctors\n    - either\n    - enums\n    - foreign\n    - foreign-generic\n    - graphql-client\n    - prelude\n    - simple-json\n    - transformers\n".to_string()
}

/// An enum type of the schema: its name and its values in declaration order.
pub struct EnumType {
    pub name: String,
    pub values: Vec<String>,
}

/// Where shared enums go, and which names are shared.
pub struct SharedEnumConfig {
    pub suffixes: Vec<String>,
    pub lib: String,
    pub dir: String,
}

/// A standalone module for a shared enum: its type name, module name, path and source.
pub struct SharedEnumModule {
    pub name: String,
    pub module_name: String,
    pub path: String,
    pub source: String,
}

/// How an enum is emitted.
pub enum GeneratedEnum {
    /// In a module of its own, imported by every role that uses it.
    Shared(SharedEnumModule),
    /// As a variant fragment inside the role's module.
    Inline(Variant),
}

/// The backend's stand-in value of an enum that has no values.
pub open spec fn is_empty_enum(values: Seq<Seq<char>>) -> bool {
    values.len() == 1 && values[0] == "_PLACEHOLDER"@
}

/// The constructors an enum is emitted with.
pub open spec fn emitted_values(values: Seq<Seq<char>>) -> Seq<Seq<char>> {
    if is_empty_enum(values) {
        seq!["ENUM_PLACEHOLDER"@]
    } else {
        values.map_values(|v: Seq<char>| first_upper_of(v))
    }
}

/// The source texts the constructors stand for.
pub open spec fn emitted_originals(values: Seq<Seq<char>>) -> Seq<Seq<char>> {
    if is_empty_enum(values) {
        seq!["ENUM_PLACEHOLDER"@]
    } else {
        values
    }
}

/// Whether an enum of this target name goes to a shared module.
pub open spec fn routes_shared(name: Seq<char>, suffixes: Seq<Seq<char>>) -> bool {
    exists|i: int| 0 <= i < suffixes.len() && ends_with(name, suffixes[i])
}

/// The source of a shared enum's module.
pub open spec fn shared_source(module_name: Seq<char>, name: Seq<char>, v: Seq<Seq<char>>, o: Seq<Seq<char>>) -> Seq<char> {
    "module "@ + module_name + " ("@ + name + ") where\n\n"@ + shared_enum_imports() + "\n\n"@
        + "data "@ + name + "\n  = "@ + join(v, "\n  | "@) + capabilities_text(shared_capabilities(), name, v, o)
}

/// Decides how an enum type is emitted. A name that ends with a shared suffix gets a module of
/// its own, with every instance, and the role imports it; any other becomes a variant fragment
/// of its source values. An enum whose sole value is the empty-enum stand-in gets one
/// synthetic value instead.
pub fn generate_enum(
    en: &EnumType,
    imports: &mut Vec<PurescriptImport>,
    config: &SharedEnumConfig,
) -> (r: GeneratedEnum)
    requires
        en.values.len() > 0,
        en.values.len() < usize::MAX,
    ensures
        ({
            let name = pascal_of(en.name@);
            let v = emitted_values(en.values.deep_view());
            let o = emitted_originals(en.values.deep_view());
            let module_name = pascal_of(config.lib@) + "."@ + name;
            if routes_shared(name, config.suffixes.deep_view()) {
                r matches GeneratedEnum::Shared(m) && m.name@ == name && m.module_name@ == module_name
                    && m.path@ == config.dir@ + config.lib@ + "/src/"@ + pascal_of(config.lib@) + "/"@
                    + name + ".purs"@ && m.source@ == shared_source(module_name, name, v, o)
                    && models(final(imports)@) == models(old(imports)@).push(
                    single_import("oa-gql-enums"@, module_name, name),
                )
            } else {
                r matches GeneratedEnum::Inline(var) && var.name@ == name && var.values.deep_view() == o
                    && final(imports)@ == old(imports)@
            }
        }),
{
    let ghost raw = en.values.deep_view();
    let mut values: Vec<String> = Vec::new();
    let mut originals: Vec<String> = Vec::new();
    if en.values.len() == 1 && en.values[0] == "_PLACEHOLDER".to_string() {
        values.push("ENUM_PLACEHOLDER".to_string());
        originals.push("ENUM_PLACEHOLDER".to_string());
        assert(raw[0] == en.values@[0]@);
        assert(values.deep_view() =~= emitted_values(raw));
        assert(originals.deep_view() =~= emitted_originals(raw));
    } else {
        proof {
            if is_empty_enum(raw) {
                assert(raw[0] == en.values@[0]@);
            }
        }
        let mut i: usize = 0;
        while i < en.values.len()
            invariant
                i <= en.values.len(),
                raw == en.values.deep_view(),
                !is_empty_enum(raw),
                values.deep_view() == emitted_values(raw).take(i as int),
                originals.deep_view() == raw.take(i as int),
            decreases en.values.len() - i,
        {
            let ghost bv = values.deep_view();
            let ghost bo = originals.deep_view();
            let u = first_upper(en.values[i].as_str());
            let ghost uv = u@;
            values.push(u);
            originals.push(en.values[i].clone());
            assert(raw[i as int] == en.values@[i as int]@);
            assert(values.deep_view() =~= bv.push(uv));
            assert(originals.deep_view() =~= bo.push(raw[i as int]));
            assert(emitted_values(raw).take(i as int + 1) =~= emitted_values(raw).take(i as int).push(uv));
            assert(raw.take(i as int + 1) =~= raw.take(i as int).push(raw[i as int]));
            i = i + 1;
        }
        assert(emitted_values(raw).take(en.values.len() as int) =~= emitted_values(raw));
        assert(raw.take(en.values.len() as int) =~= raw);
    }
    let name = pascal_case(en.name.as_str());
    let mut shared = false;
    let mut k: usize = 0;
    while k < config.suffixes.len()
        invariant
            k <= config.suffixes.len(),
            shared ==> routes_shared(name@, config.suffixes.deep_view()),
            !shared ==> forall|j: int| 0 <= j < k ==> !ends_with(name@, #[trigger] config.suffixes.deep_view()[j]),
        decreases config.suffixes.len() - k,
    {
        if text_ends_with(name.as_str(), config.suffixes[k].as_str()) {
            assert(config.suffixes.deep_view()[k as int] == config.suffixes@[k as int]@);
            shared = true;
        }
        k = k + 1;
    }
    proof {
        if !shared && routes_shared(name@, config.suffixes.deep_view()) {
            let j = choose|j: int| 0 <= j < config.suffixes.deep_view().len() && ends_with(name@, config.suffixes.deep_view()[j]);
            assert(!ends_with(name@, config.suffixes.deep_view()[j]));
        }
    }
    if shared {
        let package_name = pascal_case(config.lib.as_str());
        let mut module_name = package_name.clone();
        module_name.append(".");
        module_name.append(name.as_str());
        let e = Enum { name: name.clone(), values: values.clone() };
        assert(e.values.deep_view() =~= values.deep_view());
        let decl = e.to_string();
        let instances = match enum_instances(name.as_str(), &values, &originals) {
            Ok(t) => t,
            Err(_) => String::new(),
        };
        let mut source = String::new();
        source.append("module ");
        source.append(module_name.as_str());
        source.append(" (");
        source.append(name.as_str());
        source.append(") where\n\n");
        source.append(shared_enum_imports_text());
        source.append("\n\n");
        source.append(decl.as_str());
        source.append(instances.as_str());
        let mut path = config.dir.clone();
        path.append(config.lib.as_str());
        path.append("/src/");
        path.append(package_name.as_str());
        path.append("/");
        path.append(name.as_str());
        path.append(".purs");
        add_import("oa-gql-enums", module_name.as_str(), name.as_str(), imports);
        GeneratedEnum::Shared(SharedEnumModule { name, module_name, path, source })
    } else {
        let v = Variant::new(name.as_str()).with_values(&originals);
        GeneratedEnum::Inline(v)
    }
}

/// The instances and helpers of a backing-store enum `n` with constructors `v` for the source values `o`.
pub open spec fn pg_body(n: Seq<char>, v: Seq<Seq<char>>, o: Seq<Seq<char>>) -> Seq<char> {
    "all"@ + n + " :: Array "@ + n + "\nall"@ + n + " =\n"@ + join(case_lines(6, v, o), "\n"@)
        + "\n  ]"@
        + "\n\ninstance Eq "@ + n + " where\n  eq = eq `on` show"@
        + "\n\ninstance Ord "@ + n + " where\n  compare = compare `on` show"@
        + "\n\ninstance Enum "@ + n + " where\n  pred a = do\n    idx <- findIndex (eq a) all"@ + n
        + "\n    all"@ + n + " !! (idx - 1)\n  succ a = do\n    idx <- findIndex (eq a) all"@ + n
        + "\n    all"@ + n + " !! (idx + 1)"@
        + "\n\ninstance Bounded "@ + n + " where\n  top = "@ + v.last() + "\n  bottom = "@ + v[0]
        + "\n\ninstance Decode "@ + n
        + " where\n  decode =\n    readString\n      >=>\n        ( fromString\n            >>> decodeJson\n            >>> lmap (printJsonDecodeError >>> ForeignError >>> pure)\n            >>> except\n        )"@
        + "\n\ninstance Encode "@ + n + " where\n  encode = show >>> encode"@
        + "\n\ninstance WriteForeign "@ + n + " where\n  writeImpl = encode"@
        + "\n\ninstance ReadForeign "@ + n + " where\n  readImpl = decode"@
        + "\n\ninstance DecodeHasura "@ + n + " where\n  decodeHasura = decodeJson"@
        + "\n\ninstance EncodeHasura "@ + n + " where\n  encodeHasura = show >>> encodeJson"@
        + "\n\ninstance Show "@ + n + " where\n  show = case _ of\n    "@ + join(case_lines(1, v, o), "\n    "@)
        + "\n\ninstance GqlArgString "@ + n + " where\n  toGqlArgStringImpl = show >>> show"@
        + "\n\ninstance DecodeJson "@ + n
        + " where\n  decodeJson =\n    decodeJson\n      >=> case _ of\n        "@ + join(case_lines(0, v, o), "\n        "@)
        + "\n        str ->\n          Left\n            $ TypeMismatch\n            $ \"Failed to decode "@ + n
        + " from string: \"\n                <> str"@
}

/// The instances and helpers of a backing-store enum; fails where the values and their
/// source values differ in number.
pub fn enum_body(name: &str, values: &Vec<String>, original_values: &Vec<String>) -> (r: Result<
    String,
    ModelError,
>)
    requires
        values.len() > 0,
        values.len() < usize::MAX,
    ensures
        values.len() != original_values.len() <==> r is Err,
        r matches Err(e) ==> e == ModelError::MismatchedEnumValues,
        r matches Ok(t) ==> t@ == pg_body(name@, values.deep_view(), original_values.deep_view()),
{
    if values.len() != original_values.len() {
        return Err(ModelError::MismatchedEnumValues);
    }
    let in_array = case_text(6, values, original_values, "\n");
    let show = case_text(1, values, original_values, "\n    ");
    let decode = case_text(0, values, original_values, "\n        ");
    let mut t = String::new();
    t.append("all");
    t.append(name);
    t.append(" :: Array ");
    t.append(name);
    t.append("\nall");
    t.append(name);
    t.append(" =\n");
    t.append(in_array.as_str());
    t.append("\n  ]");
    t.append("\n\ninstance Eq ");
    t.append(name);
    t.append(" where\n  eq = eq `on` show");
    t.append("\n\ninstance Ord ");
    t.append(name);
    t.append(" where\n  compare = compare `on` show");
    t.append("\n\ninstance Enum ");
    t.append(name);
    t.append(" where\n  pred a = do\n    idx <- findIndex (eq a) all");
    t.append(name);
    t.append("\n    all");
    t.append(name);
    t.append(" !! (idx - 1)\n  succ a = do\n    idx <- findIndex (eq a) all");
    t.append(name);
    t.append("\n    all");
    t.append(name);
    t.append(" !! (idx + 1)");
    t.append("\n\ninstance Bounded ");
    t.append(name);
    t.append(" where\n  top = ");
    t.append(values[values.len() - 1].as_str());
    t.append("\n  bottom = ");
    t.append(values[0].as_str());
    t.append("\n\ninstance Decode ");
    t.append(name);
    t.append(" where\n  decode =\n    readString\n      >=>\n        ( fromString\n            >>> decodeJson\n            >>> lmap (printJsonDecodeError >>> ForeignError >>> pure)\n            >>> except\n        )");
    t.append("\n\ninstance Encode ");
    t.append(name);
    t.append(" where\n  encode = show >>> encode");
    t.append("\n\ninstance WriteForeign ");
    t.append(name);
    t.append(" where\n  writeImpl = encode");
    t.append("\n\ninstance ReadForeign ");
    t.append(name);
    t.append(" where\n  readImpl = decode");
    t.append("\n\ninstance DecodeHasura ");
    t.append(name);
    t.append(" where\n  decodeHasura = decodeJson");
    t.append("\n\ninstance EncodeHasura ");
    t.append(name);
    t.append(" where\n  encodeHasura = show >>> encodeJson");
    t.append("\n\ninstance Show ");
    t.append(name);
    t.append(" where\n  show = case _ of\n    ");
    t.append(show.as_str());
    t.append("\n\ninstance GqlArgString ");
    t.append(name);
    t.append(" where\n  toGqlArgStringImpl = show >>> show");
    t.append("\n\ninstance DecodeJson ");
    t.append(name);
    t.append(" where\n  decodeJson =\n    decodeJson\n      >=> case _ of\n        ");
    t.append(decode.as_str());
    t.append("\n        str ->\n          Left\n            $ TypeMismatch\n            $ \"Failed to decode ");
    t.append(name);
    t.append(" from string: \"\n                <> str");
    Ok(t)
}

/// The imports of a backing-store enum module.
pub open spec fn pg_enum_imports() -> Seq<char> {
    "import Prelude\n\nimport Control.Monad.Except (except)\nimport Data.Argonaut (encodeJson, fromString, printJsonDecodeError)\nimport Data.Argonaut.Decode (class DecodeJson, JsonDecodeError(..), decodeJson)\nimport Data.Array (findIndex, (!!))\nimport Data.Bifunctor (lmap)\nimport Data.Either (Either(..))\nimport Data.Function (on)\nimport Data.Enum (class Enum)\nimport Foreign (ForeignError(ForeignError), readString)\nimport Foreign.Class (class Decode, class Encode, decode, encode)\nimport GraphQL.Client.ToGqlString (class GqlArgString)\nimport GraphQL.Hasura.Decode (class DecodeHasura)\nimport GraphQL.Hasura.Encode (class EncodeHasura)\nimport Simple.JSON (class ReadForeign, class WriteForeign)"@
}

fn pg_enum_imports_text() -> (r: &'static str)
    ensures
        r@ == pg_enum_imports(),
{
    "import Prelude\n\nimport Control.Monad.Except (except)\nimport Data.Argonaut (encodeJson, fromString, printJsonDecodeError)\nimport Data.Argonaut.Decode (class DecodeJson, JsonDecodeError(..), decodeJson)\nimport Data.Array (findIndex, (!!))\nimport Data.Bifunctor (lmap)\nimport Data.Either (Either(..))\nimport Data.Function (on)\nimport Data.Enum (class Enum)\nimport Foreign (ForeignError(ForeignError), readString)\nimport Foreign.Class (class Decode, class Encode, decode, encode)\nimport GraphQL.Client.ToGqlString (class GqlArgString)\nimport GraphQL.Hasura.Decode (class DecodeHasura)\nimport GraphQL.Hasura.Encode (class EncodeHasura)\nimport Simple.JSON (class ReadForeign, class WriteForeign)"
}

/// A row of the backing store's enum catalog: the enum's name and its labels, if any.
pub struct PgEnum {
    pub enumtype: String,
    pub enumlabel: Option<Vec<String>>,
}

/// The labels of a catalog row; a row without labels stands for one stand-in value.
pub open spec fn pg_originals(row: PgEnum) -> Seq<Seq<char>> {
    match row.enumlabel {
        Some(v) => v.deep_view(),
        None => seq!["ENUM_PLACEHOLDER"@],
    }
}

/// The module source of a backing-store enum: constructors are the labels in snake case,
/// upper-cased; show and parse keep the labels.
#[verifier::rlimit(60)]
pub fn write_enum_module(enum_row: &PgEnum, package_name: &str) -> (r: String)
    requires
        pg_originals(*enum_row).len() > 0,
        pg_originals(*enum_row).len() < usize::MAX,
    ensures
        ({
            let name = pascal_of(enum_row.enumtype@);
            let o = pg_originals(*enum_row);
            let v = o.map_values(|l: Seq<char>| upper_of(snake_of(l)));
            r@ == "module "@ + package_name@ + "."@ + name + " ("@ + name + "(..)) where"@ + "\n\n"@
                + pg_enum_imports() + "\n\n"@ + "data "@ + name + "\n  = "@ + join(v, "\n  | "@)
                + "\n\n"@ + pg_body(name, v, o)
        }),
{
    let name = pascal_case(enum_row.enumtype.as_str());
    let originals: Vec<String> = match &enum_row.enumlabel {
        Some(v) => v.clone(),
        None => vec!["ENUM_PLACEHOLDER".to_string()],
    };
    assert(originals.deep_view() =~= pg_originals(*enum_row));
    let ghost o = originals.deep_view();
    let mut values: Vec<String> = Vec::new();
    let mut i: usize = 0;
    while i < originals.len()
        invariant
            i <= originals.len(),
            o == originals.deep_view(),
            values.deep_view() == o.map_values(|l: Seq<char>| upper_of(snake_of(l))).take(i as int),
        decreases originals.len() - i,
    {
        let snake = snake_case(originals[i].as_str());
        let up = to_uppercase(snake.as_str());
        let ghost bv = values.deep_view();
        let ghost uv = up@;
        values.push(up);
        assert(o[i as int] == originals@[i as int]@);
        assert(values.deep_view() =~= bv.push(uv));
        assert(o.map_values(|l: Seq<char>| upper_of(snake_of(l))).take(i as int + 1) =~= bv.push(uv));
        i = i + 1;
    }
    assert(o.map_values(|l: Seq<char>| upper_of(snake_of(l))).take(originals.len() as int) =~= o.map_values(|l: Seq<char>| upper_of(snake_of(l))));
    let e = Enum { name: name.clone(), values: values.clone() };
    assert(e.values.deep_view() =~= values.deep_view());
    let decl = e.to_string();
    let body = match enum_body(name.as_str(), &values, &originals) {
        Ok(t) => t,
        Err(_) => String::new(),
    };
    let mut out = String::new();
    out.append("module ");
    out.append(package_name);
    out.append(".");
    out.append(name.as_str());
    out.append(" (");
    out.append(name.as_str());
    out.append("(..)) where");
    out.append("\n\n");
    out.append(pg_enum_imports_text());
    out.append("\n\n");
    out.append(decl.as_str());
    out.append("\n\n");
    out.append(body.as_str());
    out
}

/// The catalog entry of a backing-store enum: its type in pascal case, in a module of that
/// name under the package's module.
pub fn catalog_entry(enumtype: &str, package: &str, package_name: &str) -> (r: EnumEntry)
    ensures
        r.name@ == enumtype@,
        r.package@ == package@,
        r.type_ident@ == pascal_of(enumtype@),
        r.import@ == package_name@ + "."@ + pascal_of(enumtype@),
{
    let type_ = pascal_case(enumtype);
    let mut import = package_name.to_string();
    import.append(".");
    import.append(type_.as_str());
    EnumEntry { name: enumtype.to_string(), package: package.to_string(), import, type_ident: type_ }
}

/// The package manifest of the backing-store enum library.
pub fn pg_enums_spago_yaml(name: &str) -> (r: String)
    ensures
        r@ == "package:\n  name: "@ + name@ + "\n  dependencies:\n    - argonaut\n    - argonaut-codecs\n    - arrays\n    - bifunctors\n    - either\n    - enums\n    - foreign\n    - foreign-generic\n    - graphql-client\n    - prelude\n    - simple-json\n    - transformers\n"@,
{
    let mut out = String::new();
    out.append("package:\n  name: ");
    out.append(name);
    out.append("\n  dependencies:\n    - argonaut\n    - argonaut-codecs\n    - arrays\n    - bifunctors\n    - either\n    - enums\n    - foreign\n    - foreign-generic\n    - graphql-client\n    - prelude\n    - simple-json\n    - transformers\n");
    out
}

/// The empty-enum stand-in is emitted as one synthetic value, never as itself.
pub proof fn law_empty_enum_synthetic(values: Seq<Seq<char>>)
    requires
        is_empty_enum(values),
    ensures
        emitted_values(values) == seq!["ENUM_PLACEHOLDER"@],
        emitted_originals(values) == seq!["ENUM_PLACEHOLDER"@],
        !emitted_values(values).contains("_PLACEHOLDER"@),
        !emitted_originals(values).contains("_PLACEHOLDER"@),
{
    reveal_strlit("ENUM_PLACEHOLDER");
    reveal_strlit("_PLACEHOLDER");
    assert("ENUM_PLACEHOLDER"@ != "_PLACEHOLDER"@) by {
        assert("ENUM_PLACEHOLDER"@[0] != "_PLACEHOLDER"@[0]);
    }
    assert(seq!["ENUM_PLACEHOLDER"@][0] != "_PLACEHOLDER"@);
}

} // verus!
