//! The package manifest of a role's library.
use vstd::prelude::*;

use crate::config::WorkspaceConfig;
use crate::import::{models, ImportModel, PurescriptImport};
use crate::outside::{kebab_case, kebab_of};
use crate::text::{canonical, lemma_to_set_push, sorted_unique};

verus! {

/// The packages a module needs: those of its imports, and the one for type-level lists.
pub open spec fn required_packages(imports: Seq<ImportModel>) -> Set<Seq<char>> {
    Set::new(|p: Seq<char>| exists|i: int| 0 <= i < imports.len() && imports[i].package == p).insert(
        "typelevel-lists"@,
    )
}

/// The dependency lines of a manifest.
pub open spec fn dependency_lines(names: Seq<Seq<char>>) -> Seq<char>
    decreases names.len(),
{
    if names.len() == 0 {
        Seq::empty()
    } else {
        dependency_lines(names.drop_last()) + "\n    - "@ + names.last()
    }
}

/// The manifest text of a role's library.
pub open spec fn spago_yaml(prefix: Seq<char>, role: Seq<char>, imports: Seq<ImportModel>) -> Seq<char> {
    "package:\n  name: "@ + prefix + kebab_of(role) + "\n  dependencies:"@ + dependency_lines(
        canonical(required_packages(imports)),
    )
}

/// The directory of a role's library: the schema libraries' directory, their prefix, and the
/// role in kebab case.
pub fn schema_lib_path(workspace: &WorkspaceConfig, role: &str) -> (r: String)
    ensures
        r@ == workspace.schema_libs_dir@ + workspace.schema_libs_prefix@ + kebab_of(role@),
{
    let kebab_role = kebab_case(role);
    let mut out = workspace.schema_libs_dir.clone();
    out.append(workspace.schema_libs_prefix.as_str());
    out.append(kebab_role.as_str());
    out
}

/// The packages the imports need, sorted, each once.
pub fn required_package_list(imports: &Vec<PurescriptImport>) -> (r: Vec<String>)
    ensures
        r.deep_view() == canonical(required_packages(models(imports@))),
{
    let ghost l = models(imports@);
    let mut all: Vec<String> = Vec::new();
    let mut i: usize = 0;
    while i < imports.len()
        invariant
            i <= imports.len(),
            l == models(imports@),
            all.deep_view().to_set() == Set::new(
                |p: Seq<char>| exists|k: int| 0 <= k < i && l[k].package == p,
            ),
        decreases imports.len() - i,
    {
        let ghost before = all.deep_view();
        all.push(imports[i].package.clone());
        proof {
            assert(all.deep_view() =~= before.push(l[i as int].package));
            lemma_to_set_push(before, l[i as int].package);
            assert(all.deep_view().to_set() =~= Set::new(
                |p: Seq<char>| exists|k: int| 0 <= k < i + 1 && l[k].package == p,
            )) by {
                assert forall|p: Seq<char>| (exists|k: int| 0 <= k < i + 1 && l[k].package == p) implies before.to_set().insert(l[i as int].package).contains(p) by {
                    let k = choose|k: int| 0 <= k < i + 1 && l[k].package == p;
                    if k < i {
                        assert(Set::new(|p: Seq<char>| exists|k: int| 0 <= k < i && l[k].package == p).contains(p));
                    }
                }
            }
        }
        i = i + 1;
    }
    let ghost before = all.deep_view();
    all.push("typelevel-lists".to_string());
    proof {
        assert(all.deep_view() =~= before.push("typelevel-lists"@));
        lemma_to_set_push(before, "typelevel-lists"@);
        assert(all.deep_view().to_set() =~= required_packages(l));
    }
    sorted_unique(&all)
}

/// The manifest of a role's library: its name, and the packages its module needs, sorted.
pub fn to_spago_yaml(prefix: &str, role: &str, imports: &Vec<PurescriptImport>) -> (r: String)
    ensures
        r@ == spago_yaml(prefix@, role@, models(imports@)),
{
    let names = required_package_list(imports);
    let kebab_role = kebab_case(role);
    let mut out = String::new();
    out.append("package:\n  name: ");
    out.append(prefix);
    out.append(kebab_role.as_str());
    out.append("\n  dependencies:");
    let ghost head = out@;
    let mut i: usize = 0;
    while i < names.len()
        invariant
            i <= names.len(),
            out@ == head + dependency_lines(names.deep_view().take(i as int)),
        decreases names.len() - i,
    {
        assert(names.deep_view().take(i as int + 1).drop_last() =~= names.deep_view().take(i as int));
        out.append("\n    - ");
        out.append(names[i].as_str());
        i = i + 1;
    }
    assert(names.deep_view().take(names.len() as int) =~= names.deep_view());
    out
}

} // verus!
