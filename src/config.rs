//! Override configuration: type descriptors, `$`-substituted type families, workspace settings.
use vstd::prelude::*;

use crate::resolve::Mod;

verus! {

/// Where the generated libraries go.
pub struct WorkspaceConfig {
    pub postgres_enums_lib: String,
    pub postgres_enums_dir: String,
    pub shared_graphql_enums_lib: String,
    pub shared_graphql_enums_dir: String,
    pub schema_libs_prefix: String,
    pub schema_libs_dir: String,
}

/// The value of the first entry of key `k`.
pub open spec fn entry_value(entries: Seq<(String, String)>, k: Seq<char>) -> Option<Seq<char>>
    decreases entries.len(),
{
    if entries.len() == 0 {
        None
    } else if entries[0].0@ == k {
        Some(entries[0].1@)
    } else {
        entry_value(entries.drop_first(), k)
    }
}

/// The value of the first entry of key `k`.
fn find_entry(entries: &Vec<(String, String)>, k: &str) -> (r: Option<String>)
    ensures
        match entry_value(entries@, k@) {
            None => r is None,
            Some(v) => r matches Some(s) && s@ == v,
        },
{
    let key = k.to_string();
    let mut i: usize = 0;
    assert(entries@.skip(0) =~= entries@);
    while i < entries.len()
        invariant
            i <= entries.len(),
            key@ == k@,
            entry_value(entries@, k@) == entry_value(entries@.skip(i as int), k@),
        decreases entries.len() - i,
    {
        assert(entries@.skip(i as int).drop_first() =~= entries@.skip(i as int + 1));
        if entries[i].0 == key {
            return Some(entries[i].1.clone());
        }
        i = i + 1;
    }
    None
}

impl WorkspaceConfig {
    /// The settings from the string entries of the workspace file; none where a setting is
    /// missing.
    pub fn new(entries: &Vec<(String, String)>) -> (r: Option<WorkspaceConfig>)
        ensures
            r is Some <==> (entry_value(entries@, "postgres_enums_lib"@) is Some && entry_value(
                entries@,
                "postgres_enums_dir"@,
            ) is Some && entry_value(entries@, "shared_graphql_enums_lib"@) is Some && entry_value(
                entries@,
                "shared_graphql_enums_dir"@,
            ) is Some && entry_value(entries@, "schema_libs_prefix"@) is Some && entry_value(
                entries@,
                "schema_libs_dir"@,
            ) is Some),
            r matches Some(c) ==> Some(c.postgres_enums_lib@) == entry_value(entries@, "postgres_enums_lib"@)
                && Some(c.postgres_enums_dir@) == entry_value(entries@, "postgres_enums_dir"@)
                && Some(c.shared_graphql_enums_lib@) == entry_value(entries@, "shared_graphql_enums_lib"@)
                && Some(c.shared_graphql_enums_dir@) == entry_value(entries@, "shared_graphql_enums_dir"@)
                && Some(c.schema_libs_prefix@) == entry_value(entries@, "schema_libs_prefix"@)
                && Some(c.schema_libs_dir@) == entry_value(entries@, "schema_libs_dir"@),
    {
        let postgres_enums_lib = find_entry(entries, "postgres_enums_lib");
        let postgres_enums_dir = find_entry(entries, "postgres_enums_dir");
        let shared_graphql_enums_lib = find_entry(entries, "shared_graphql_enums_lib");
        let shared_graphql_enums_dir = find_entry(entries, "shared_graphql_enums_dir");
        let schema_libs_prefix = find_entry(entries, "schema_libs_prefix");
        let schema_libs_dir = find_entry(entries, "schema_libs_dir");
        match (
            postgres_enums_lib,
            postgres_enums_dir,
            shared_graphql_enums_lib,
            shared_graphql_enums_dir,
            schema_libs_prefix,
            schema_libs_dir,
        ) {
            (Some(a), Some(b), Some(c), Some(d), Some(e), Some(f)) => Some(
                WorkspaceConfig {
                    postgres_enums_lib: a,
                    postgres_enums_dir: b,
                    shared_graphql_enums_lib: c,
                    shared_graphql_enums_dir: d,
                    schema_libs_prefix: e,
                    schema_libs_dir: f,
                },
            ),
            _ => None,
        }
    }
}

/// A malformed override configuration.
#[derive(Debug, PartialEq, Eq)]
pub enum ConfigError {
    /// A type family's value does not have three comma-separated parts.
    MalformedTypeFamily(String),
    /// A `family=Type` value names no known type family.
    UnknownTypeFamily(String),
    /// A value is neither `family=Type` nor `Type, Module, package`.
    MalformedTypeValue(String),
}

/// Whether `sep` occurs in `s` at `k`.
pub open spec fn occurs_at(s: Seq<char>, sep: Seq<char>, k: int) -> bool {
    0 <= k && k + sep.len() <= s.len() && s.subrange(k, k + sep.len()) == sep
}

/// The first occurrence of `sep` in `s` at or after `from`.
pub open spec fn find_from(s: Seq<char>, sep: Seq<char>, from: int) -> Option<int>
    decreases s.len() + 1 - from,
{
    if from < 0 || from + sep.len() > s.len() {
        None
    } else if occurs_at(s, sep, from) {
        Some(from)
    } else {
        find_from(s, sep, from + 1)
    }
}

/// The pieces of `s` between occurrences of a non-empty `sep`.
pub open spec fn split_spec(s: Seq<char>, sep: Seq<char>) -> Seq<Seq<char>>
    decreases s.len(),
{
    if sep.len() == 0 {
        seq![s]
    } else {
        match find_from(s, sep, 0) {
            None => seq![s],
            Some(k) => if 0 <= k && k + sep.len() <= s.len() {
                seq![s.subrange(0, k)] + split_spec(s.subrange(k + sep.len(), s.len() as int), sep)
            } else {
                seq![s]
            },
        }
    }
}

proof fn lemma_find_bounds(s: Seq<char>, sep: Seq<char>, from: int)
    ensures
        find_from(s, sep, from) matches Some(k) ==> from <= k && occurs_at(s, sep, k),
    decreases s.len() + 1 - from,
{
    if from >= 0 && from + sep.len() <= s.len() && !occurs_at(s, sep, from) {
        lemma_find_bounds(s, sep, from + 1);
    }
}

/// Whether `sep` occurs in `s` at `k`.
fn text_occurs_at(s: &str, sep: &str, k: usize) -> (r: bool)
    requires
        k + sep@.len() <= s@.len(),
    ensures
        r == occurs_at(s@, sep@, k as int),
{
    let total = s.unicode_len();
    let n = sep.unicode_len();
    let mut i: usize = 0;
    while i < n
        invariant
            total == s@.len(),
            n == sep@.len(),
            k + n <= s@.len(),
            i <= n,
            forall|j: int| 0 <= j < i ==> s@[k + j] == sep@[j],
        decreases n - i,
    {
        if s.get_char(k + i) != sep.get_char(i) {
            assert(s@.subrange(k as int, k + n)[i as int] != sep@[i as int]);
            return false;
        }
        i = i + 1;
    }
    assert(s@.subrange(k as int, k + n) =~= sep@);
    true
}

/// The pieces of `s` between occurrences of `sep`, which is not empty.
pub fn split_text(s: &str, sep: &str) -> (r: Vec<String>)
    requires
        sep@.len() > 0,
    ensures
        r.deep_view() == split_spec(s@, sep@),
{
    let n = s.unicode_len();
    let m = sep.unicode_len();
    let mut parts: Vec<String> = Vec::new();
    let mut start: usize = 0;
    let mut k: usize = 0;
    assert(s@.subrange(0, n as int) =~= s@);
    while m <= n - k
        invariant
            n == s@.len(),
            m == sep@.len(),
            m > 0,
            start <= k <= n,
            find_from(s@.subrange(start as int, n as int), sep@, 0) == find_from(
                s@.subrange(start as int, n as int),
                sep@,
                k - start,
            ),
            parts.deep_view() + split_spec(s@.subrange(start as int, n as int), sep@) == split_spec(s@, sep@),
        decreases n - k,
    {
        let ghost rest = s@.subrange(start as int, n as int);
        assert(occurs_at(rest, sep@, k - start) == occurs_at(s@, sep@, k as int)) by {
            assert(rest.subrange(k - start, k - start + m) =~= s@.subrange(k as int, k + m));
        }
        if text_occurs_at(s, sep, k) {
            let piece = String::from_str(s.substring_char(start, k));
            let ghost before = parts.deep_view();
            assert(rest.subrange(0, k - start) =~= s@.subrange(start as int, k as int));
            parts.push(piece);
            proof {
                assert(parts.deep_view() =~= before.push(rest.subrange(0, k - start)));
                assert(rest.subrange(k - start + m, rest.len() as int) =~= s@.subrange(k + m, n as int));
                assert(split_spec(rest, sep@) == seq![rest.subrange(0, k - start)] + split_spec(
                    rest.subrange(k - start + m, rest.len() as int),
                    sep@,
                ));
                assert(before + split_spec(rest, sep@) =~= parts.deep_view() + split_spec(
                    s@.subrange(k + m, n as int),
                    sep@,
                ));
            }
            start = k + m;
            k = k + m;
            assert(s@.subrange(start as int, n as int).len() == n - start);
        } else {
            k = k + 1;
        }
    }
    let ghost rest = s@.subrange(start as int, n as int);
    assert(find_from(rest, sep@, k - start) is None);
    let ghost before = parts.deep_view();
    parts.push(String::from_str(s.substring_char(start, n)));
    assert(parts.deep_view() =~= before + split_spec(rest, sep@));
    parts
}

/// `s` with each `$` replaced by `t`.
pub open spec fn replace_dollar(s: Seq<char>, t: Seq<char>) -> Seq<char>
    decreases s.len(),
{
    if s.len() == 0 {
        Seq::empty()
    } else {
        replace_dollar(s.drop_last(), t) + if s.last() == '$' {
            t
        } else {
            seq![s.last()]
        }
    }
}

/// `s` with each `$` replaced by `t`.
pub fn replace_dollar_text(s: &str, t: &str) -> (r: String)
    ensures
        r@ == replace_dollar(s@, t@),
{
    let n = s.unicode_len();
    let mut out = String::new();
    let mut start: usize = 0;
    let mut i: usize = 0;
    while i < n
        invariant
            n == s@.len(),
            start <= i <= n,
            out@ + s@.subrange(start as int, i as int) == replace_dollar(s@.subrange(0, i as int), t@),
            forall|j: int| start <= j < i ==> s@[j] != '$',
        decreases n - i,
    {
        let c = s.get_char(i);
        assert(s@.subrange(0, i as int + 1).drop_last() =~= s@.subrange(0, i as int));
        if c == '$' {
            out.append(s.substring_char(start, i));
            out.append(t);
            start = i + 1;
            assert(s@.subrange(start as int, i as int + 1) =~= Seq::<char>::empty());
        } else {
            assert(s@.subrange(start as int, i as int + 1) =~= s@.subrange(start as int, i as int).push(c));
        }
        i = i + 1;
    }
    out.append(s.substring_char(start, n));
    assert(s@.subrange(0, n as int) =~= s@);
    out
}

/// A type family: its name and its `Type, Module_$, package` descriptor.
pub struct TypeFamily {
    pub name: String,
    pub descriptor: String,
}

/// The index of the first family of the given name.
pub open spec fn find_family(fs: Seq<TypeFamily>, name: Seq<char>, from: int) -> Option<int>
    decreases fs.len() - from,
{
    if from < 0 || from >= fs.len() {
        None
    } else if fs[from].name@ == name {
        Some(from)
    } else {
        find_family(fs, name, from + 1)
    }
}

/// A member of a type family: the family's module with `$` replaced by the type's name.
pub open spec fn family_member(fs: Seq<TypeFamily>, family: Seq<char>, ty: Seq<char>) -> Option<
    Result<(Seq<char>, Seq<char>, Seq<char>), ()>,
> {
    match find_family(fs, family, 0) {
        None => None,
        Some(i) => {
            let parts = split_spec(fs[i].descriptor@, ", "@);
            if parts.len() < 3 {
                Some(Err(()))
            } else {
                Some(Ok((replace_dollar(parts[1], ty), ty, parts[2])))
            }
        },
    }
}

/// The member `ty` of the type family `family`, as (module, type, package).
pub fn lookup_family(families: &Vec<TypeFamily>, family: &str, ty: &str) -> (r: Option<Result<Mod, ConfigError>>)
    ensures
        match family_member(families@, family@, ty@) {
            None => r is None,
            Some(Err(())) => r matches Some(Err(ConfigError::MalformedTypeFamily(_))),
            Some(Ok((m, n, p))) => r matches Some(Ok(md)) && md.import@ == m && md.name@ == n && md.package@ == p,
        },
{
    let f = family.to_string();
    let mut i: usize = 0;
    while i < families.len()
        invariant
            i <= families.len(),
            f@ == family@,
            find_family(families@, family@, 0) == find_family(families@, family@, i as int),
        decreases families.len() - i,
    {
        if families[i].name == f {
            proof {
                reveal_strlit(", ");
            }
            let parts = split_text(families[i].descriptor.as_str(), ", ");
            if parts.len() < 3 {
                return Some(Err(ConfigError::MalformedTypeFamily(f)));
            }
            assert(parts.deep_view()[1] == parts@[1]@);
            assert(parts.deep_view()[2] == parts@[2]@);
            let import = replace_dollar_text(parts[1].as_str(), ty);
            return Some(Ok(Mod { import, name: ty.to_string(), package: parts[2].clone() }));
        }
        i = i + 1;
    }
    None
}

/// Whether `c` occurs in `s`.
pub fn text_contains_char(s: &str, c: char) -> (r: bool)
    ensures
        r == s@.contains(c),
{
    let n = s.unicode_len();
    let mut i: usize = 0;
    while i < n
        invariant
            n == s@.len(),
            i <= n,
            forall|j: int| 0 <= j < i ==> s@[j] != c,
        decreases n - i,
    {
        if s.get_char(i) == c {
            return true;
        }
        i = i + 1;
    }
    false
}

/// Reads an override value: `family=Type` names a member of a type family; otherwise
/// `Type, Module, package` describes the type directly.
pub fn to_type_value(type_value: &String, families: &Vec<TypeFamily>) -> (r: Result<Mod, ConfigError>)
    ensures
        type_value@.contains('=') ==> ({
            let parts = split_spec(type_value@, seq!['=']);
            match family_member(families@, parts[0], parts.last()) {
                None => r == Err::<Mod, ConfigError>(ConfigError::UnknownTypeFamily(*type_value)),
                Some(Err(())) => r matches Err(ConfigError::MalformedTypeFamily(_)),
                Some(Ok((m, n, p))) => r matches Ok(md) && md.import@ == m && md.name@ == n && md.package@ == p,
            }
        }),
        !type_value@.contains('=') ==> ({
            let parts = split_spec(type_value@, ", "@);
            if parts.len() >= 3 {
                r matches Ok(md) && md.name@ == parts[0] && md.import@ == parts[1] && md.package@ == parts[2]
            } else {
                r == Err::<Mod, ConfigError>(ConfigError::MalformedTypeValue(*type_value))
            }
        }),
{
    if text_contains_char(type_value.as_str(), '=') {
        proof {
            reveal_strlit("=");
            assert("="@ =~= seq!['=']);
        }
        let parts = split_text(type_value.as_str(), "=");
        assert(parts.len() >= 1) by {
            assert(split_spec(type_value@, seq!['=']).len() >= 1) by {
                lemma_split_nonempty(type_value@, seq!['=']);
            }
        }
        let last = parts.len() - 1;
        assert(parts.deep_view()[0] == parts@[0]@);
        assert(parts.deep_view()[last as int] == parts@[last as int]@);
        match lookup_family(families, parts[0].as_str(), parts[last].as_str()) {
            None => Err(ConfigError::UnknownTypeFamily(type_value.clone())),
            Some(r) => r,
        }
    } else {
        proof {
            reveal_strlit(", ");
        }
        let parts = split_text(type_value.as_str(), ", ");
        if parts.len() >= 3 {
            assert(parts.deep_view()[0] == parts@[0]@);
            assert(parts.deep_view()[1] == parts@[1]@);
            assert(parts.deep_view()[2] == parts@[2]@);
            Ok(Mod { name: parts[0].clone(), import: parts[1].clone(), package: parts[2].clone() })
        } else {
            Err(ConfigError::MalformedTypeValue(type_value.clone()))
        }
    }
}

proof fn lemma_split_nonempty(s: Seq<char>, sep: Seq<char>)
    ensures
        split_spec(s, sep).len() >= 1,
    decreases s.len(),
{
    if sep.len() > 0 {
        if let Some(k) = find_from(s, sep, 0) {
            if k + sep.len() <= s.len() {
                lemma_find_bounds(s, sep, 0);
                lemma_split_nonempty(s.subrange(k + sep.len(), s.len() as int), sep);
            }
        }
    }
}

/// The stand-in module of an identifier type: a newtype over a string.
pub fn mocked_id_module(module: &Mod) -> (r: String)
    ensures
        r@ == "module "@ + module.import@ + " ("@ + module.name@ + ") where\n\nnewtype "@
            + module.name@ + " = "@ + module.name@ + " String"@,
{
    let mut out = String::new();
    out.append("module ");
    out.append(module.import.as_str());
    out.append(" (");
    out.append(module.name.as_str());
    out.append(") where\n\nnewtype ");
    out.append(module.name.as_str());
    out.append(" = ");
    out.append(module.name.as_str());
    out.append(" String");
    out
}

/// The package manifest of the stand-in identifier library.
pub fn ids_spago_yaml() -> (r: String)
    ensures
        r@ == "package:\n  name: oa-ids\n  dependencies:\n    - prelude\n"@,
{
    "package:\n  name: oa-ids\n  dependencies:\n    - prelude\n".to_string()
}

} // verus!
