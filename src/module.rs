//! Assembly of a role's schema module in a fixed section order.
use vstd::prelude::*;

use crate::decl::{DeriveInstance, PurescriptType, Variant};
use crate::expr::PurescriptRecord;
use crate::import::{
    copy_alias, import_text, is_merge_of, key, law_merge_order_independent, models, ImportModel,
    PurescriptImport,
};
use crate::order::{lemma_sorted_unique, sorted_by};
use crate::text::{
    join, lemma_join_push, lemma_text_order, str_lt, strictly_sorted, text_less,
    text_order,
};

verus! {

/// The names of a sequence of declarations.
pub open spec fn type_names(ts: Seq<PurescriptType>) -> Seq<Seq<char>> {
    ts.map_values(|t: PurescriptType| t.name@)
}

/// Whether `x` is the first declaration of its name in `ts`.
pub open spec fn first_of_name(ts: Seq<PurescriptType>, x: PurescriptType) -> bool {
    exists|j: int|
        0 <= j < ts.len() && ts[j] == x && forall|q: int| 0 <= q < j ==> (#[trigger] ts[q]).name@ != x.name@
}

/// Whether some declaration of `d` has the name `n`.
pub open spec fn has_name(d: Seq<PurescriptType>, n: Seq<char>) -> bool {
    exists|i: int| 0 <= i < d.len() && d[i].name@ == n
}

/// Whether `d` holds, sorted by name, the first declaration of each name of `ts`.
pub open spec fn is_dedup_of(d: Seq<PurescriptType>, ts: Seq<PurescriptType>) -> bool {
    &&& strictly_sorted(type_names(d))
    &&& forall|i: int| 0 <= i < d.len() ==> first_of_name(ts, #[trigger] d[i])
    &&& forall|j: int| 0 <= j < ts.len() ==> has_name(d, (#[trigger] ts[j]).name@)
}

/// The declarations of `ts` as printed: sorted by name, the first of each name kept.
pub open spec fn dedup_types(ts: Seq<PurescriptType>) -> Seq<PurescriptType> {
    choose|d: Seq<PurescriptType>| is_dedup_of(d, ts)
}

/// Joins the printed declarations.
pub open spec fn types_text(ts: Seq<PurescriptType>) -> Seq<char> {
    join(ts.map_values(|t: PurescriptType| t.text()), "\n\n"@)
}

/// The printed line of a merged import; the comparison-expression modules import one fixed
/// symbol each.
pub open spec fn import_line(m: ImportModel) -> Seq<char> {
    if m.module == "GraphQL.Hasura.ComparisonExp"@ {
        import_text(ImportModel { symbols: seq!["ComparisonExp"@], ..m })
    } else if m.module == "Data.ComparisonExpString"@ {
        import_text(ImportModel { symbols: seq!["ComparisonExpString"@], ..m })
    } else {
        import_text(m)
    }
}

/// The merge of a list of imports.
pub open spec fn merged(l: Seq<ImportModel>) -> Seq<ImportModel> {
    choose|m: Seq<ImportModel>| is_merge_of(m, l)
}

/// The imports section: the merged imports, one per line.
pub open spec fn imports_text(l: Seq<ImportModel>) -> Seq<char> {
    join(merged(l).map_values(|m: ImportModel| import_line(m)), "\n"@)
}

/// The sections joined by blank lines, empty ones left out.
pub open spec fn sections_text(s: Seq<Seq<char>>) -> Seq<char> {
    join(s.filter(|x: Seq<char>| x.len() > 0), "\n\n"@)
}

/// The module text of a role.
pub open spec fn module_text(
    role: Seq<char>,
    types: Seq<PurescriptType>,
    records: Seq<PurescriptRecord>,
    imports: Seq<ImportModel>,
    variants: Seq<Variant>,
    instances: Seq<DeriveInstance>,
) -> Seq<char> {
    sections_text(
        seq![
            "module Schema."@ + role + " where"@,
            imports_text(imports),
            join(records.map_values(|r: PurescriptRecord| r.text()), "\n\n"@),
            types_text(dedup_types(types)),
            join(variants.map_values(|v: Variant| v.text()), "\n\n"@),
            join(instances.map_values(|i: DeriveInstance| i.text()), "\n"@),
        ],
    )
}

/// The declarations that a list of indices picks out.
pub open spec fn picked(ts: Seq<PurescriptType>, idx: Seq<usize>) -> Seq<PurescriptType> {
    idx.map_values(|i: usize| ts[i as int])
}

proof fn lemma_first_unique(ts: Seq<PurescriptType>, x: PurescriptType, y: PurescriptType)
    requires
        first_of_name(ts, x),
        first_of_name(ts, y),
        x.name@ == y.name@,
    ensures
        x == y,
{
    let j = choose|j: int|
        0 <= j < ts.len() && ts[j] == x && forall|q: int| 0 <= q < j ==> (#[trigger] ts[q]).name@ != x.name@;
    let k = choose|k: int|
        0 <= k < ts.len() && ts[k] == y && forall|q: int| 0 <= q < k ==> (#[trigger] ts[q]).name@ != y.name@;
    if j < k {
        assert(ts[j].name@ != y.name@);
    } else if k < j {
        assert(ts[k].name@ != x.name@);
    }
}

/// The sorted, first-kept declarations of a list are unique.
proof fn lemma_dedup_unique(d1: Seq<PurescriptType>, d2: Seq<PurescriptType>, ts: Seq<PurescriptType>)
    requires
        is_dedup_of(d1, ts),
        is_dedup_of(d2, ts),
    ensures
        d1 == d2,
{
    lemma_text_order();
    let n1 = type_names(d1);
    let n2 = type_names(d2);
    assert forall|x: Seq<char>| n1.contains(x) implies n2.contains(x) by {
        let i = choose|i: int| 0 <= i < n1.len() && n1[i] == x;
        assert(first_of_name(ts, d1[i]));
        let j = choose|j: int|
            0 <= j < ts.len() && ts[j] == d1[i] && forall|q: int| 0 <= q < j ==> (#[trigger] ts[q]).name@ != d1[i].name@;
        assert(has_name(d2, ts[j].name@));
        let k = choose|k: int| 0 <= k < d2.len() && d2[k].name@ == ts[j].name@;
        assert(n2[k] == x);
    }
    assert forall|x: Seq<char>| n2.contains(x) implies n1.contains(x) by {
        let i = choose|i: int| 0 <= i < n2.len() && n2[i] == x;
        assert(first_of_name(ts, d2[i]));
        let j = choose|j: int|
            0 <= j < ts.len() && ts[j] == d2[i] && forall|q: int| 0 <= q < j ==> (#[trigger] ts[q]).name@ != d2[i].name@;
        assert(has_name(d1, ts[j].name@));
        let k = choose|k: int| 0 <= k < d1.len() && d1[k].name@ == ts[j].name@;
        assert(n1[k] == x);
    }
    assert(sorted_by(n1, text_order()));
    assert(sorted_by(n2, text_order()));
    lemma_sorted_unique(n1, n2, text_order());
    assert forall|i: int| 0 <= i < d1.len() implies d1[i] == d2[i] by {
        assert(n1[i] == n2[i]);
        assert(first_of_name(ts, d1[i]));
        assert(first_of_name(ts, d2[i]));
        lemma_first_unique(ts, d1[i], d2[i]);
    }
    assert(d1 =~= d2);
}

/// Finalized declarations stay as they are when finalized again.
pub proof fn lemma_dedup_fixed(d: Seq<PurescriptType>, ts: Seq<PurescriptType>)
    requires
        is_dedup_of(d, ts),
    ensures
        dedup_types(ts) == d,
        dedup_types(d) == d,
{
    lemma_dedup_unique(dedup_types(ts), d, ts);
    lemma_text_order();
    let nm = type_names(d);
    assert forall|i: int| 0 <= i < d.len() implies first_of_name(d, #[trigger] d[i]) by {
        assert forall|q: int| 0 <= q < i implies (#[trigger] d[q]).name@ != d[i].name@ by {
            assert(nm[q] == d[q].name@);
            assert(nm[i] == d[i].name@);
            assert(str_lt(nm[q], nm[i]));
            crate::text::lemma_str_lt_irreflexive(nm[q]);
        }
    }
    assert forall|j: int| 0 <= j < d.len() implies has_name(d, (#[trigger] d[j]).name@) by {
        assert(d[j].name@ == d[j].name@);
    }
    assert(is_dedup_of(d, d));
    lemma_dedup_unique(dedup_types(d), d, d);
}

/// Sorts the declarations by name, keeping the first of each name.
pub fn finalize_types(types: &mut Vec<PurescriptType>)
    ensures
        final(types)@ == dedup_types(old(types)@),
        is_dedup_of(final(types)@, old(types)@),
{
    let ghost ts = old(types)@;
    let n = types.len();
    assert(ts.len() == n);
    let mut out: Vec<PurescriptType> = Vec::new();
    let ghost mut idx: Seq<usize> = Seq::empty();
    let mut j: usize = 0;
    proof {
        assert(picked(ts, idx) =~= Seq::<PurescriptType>::empty());
        assert(type_names(picked(ts, idx)) =~= Seq::<Seq<char>>::empty());
        assert(types@.skip(0) =~= types@);
    }
    while types.len() > 0
        invariant
            ts == old(types)@,
            ts.len() <= usize::MAX,
            j + types.len() == ts.len(),
            types@ == ts.skip(j as int),
            forall|i: int| 0 <= i < idx.len() ==> idx[i] < j,
            out@ == picked(ts, idx),
            is_dedup_of(picked(ts, idx), ts.take(j as int)),
        decreases types.len(),
    {
        let t = types.remove(0);
        assert(t == ts[j as int]);
        assert(types@ =~= ts.skip(j as int + 1));
        let ghost nm = type_names(out@);
        let mut p: usize = 0;
        while p < out.len() && text_less(&out[p].name, &t.name)
            invariant
                p <= out.len(),
                nm == type_names(out@),
                t == ts[j as int],
                forall|q: int| 0 <= q < p ==> str_lt(#[trigger] nm[q], ts[j as int].name@),
            decreases out.len() - p,
        {
            p = p + 1;
        }
        if p < out.len() && out[p].name == t.name {
            proof {
                assert(out@[p as int] == ts[idx[p as int] as int]);
                self::lemma_dedup_skip(ts, idx, j as int, p as int);
            }
        } else {
            let ghost old_idx = idx;
            proof {
                if p < out.len() {
                    assert(out@[p as int] == ts[idx[p as int] as int]);
                    lemma_str_lt_total_names(nm[p as int], ts[j as int].name@);
                }
                self::lemma_dedup_insert(ts, old_idx, j as int, p as int);
            }
            let ghost before = out@;
            out.insert(p, t);
            proof {
                idx = old_idx.insert(p as int, j);
                assert(out@ =~= picked(ts, idx));
            }
        }
        j = j + 1;
    }
    proof {
        assert(ts.take(j as int) =~= ts);
        let c = dedup_types(ts);
        assert(is_dedup_of(c, ts));
        lemma_dedup_unique(c, out@, ts);
    }
    *types = out;
}

proof fn lemma_str_lt_total_names(a: Seq<char>, b: Seq<char>)
    ensures
        a != b ==> str_lt(a, b) || str_lt(b, a),
{
    if a != b {
        crate::text::lemma_str_lt_total(a, b);
    }
}

proof fn lemma_dedup_skip(ts: Seq<PurescriptType>, idx: Seq<usize>, j: int, p: int)
    requires
        0 <= j < ts.len(),
        0 <= p < idx.len(),
        forall|i: int| 0 <= i < idx.len() ==> idx[i] < j,
        is_dedup_of(picked(ts, idx), ts.take(j)),
        ts[idx[p] as int].name@ == ts[j].name@,
    ensures
        is_dedup_of(picked(ts, idx), ts.take(j + 1)),
{
    let d = picked(ts, idx);
    let t1 = ts.take(j + 1);
    assert forall|i: int| 0 <= i < d.len() implies first_of_name(t1, #[trigger] d[i]) by {
        assert(first_of_name(ts.take(j), d[i]));
        let k = choose|k: int|
            0 <= k < ts.take(j).len() && ts.take(j)[k] == d[i] && forall|q: int| 0 <= q < k ==> (#[trigger] ts.take(j)[q]).name@ != d[i].name@;
        assert(t1[k] == d[i]);
        assert forall|q: int| 0 <= q < k implies (#[trigger] t1[q]).name@ != d[i].name@ by {
            assert(t1[q] == ts.take(j)[q]);
        }
    }
    assert forall|q: int| 0 <= q < t1.len() implies has_name(d, (#[trigger] t1[q]).name@) by {
        if q < j {
            assert(t1[q] == ts.take(j)[q]);
            assert(has_name(d, ts.take(j)[q].name@));
        } else {
            assert(d[p].name@ == t1[q].name@);
        }
    }
}

proof fn lemma_dedup_insert(ts: Seq<PurescriptType>, idx: Seq<usize>, j: int, p: int)
    requires
        0 <= j < ts.len(),
        j <= usize::MAX,
        0 <= p <= idx.len(),
        forall|i: int| 0 <= i < idx.len() ==> idx[i] < j,
        is_dedup_of(picked(ts, idx), ts.take(j)),
        forall|q: int| 0 <= q < p ==> str_lt(#[trigger] type_names(picked(ts, idx))[q], ts[j].name@),
        p < idx.len() ==> ts[idx[p] as int].name@ != ts[j].name@ && str_lt(ts[j].name@, ts[idx[p] as int].name@),
    ensures
        is_dedup_of(picked(ts, idx.insert(p, j as usize)), ts.take(j + 1)),
        forall|i: int|
            0 <= i < idx.insert(p, j as usize).len() ==> #[trigger] idx.insert(p, j as usize)[i] < j + 1,
{
    lemma_text_order();
    let d = picked(ts, idx);
    let nm = type_names(d);
    let idx2 = idx.insert(p, j as usize);
    let d2 = picked(ts, idx2);
    let nm2 = type_names(d2);
    let t0 = ts.take(j);
    let t1 = ts.take(j + 1);
    assert(d2 =~= d.insert(p, ts[j]));
    assert forall|i: int| 0 <= i < idx2.len() implies #[trigger] idx2[i] < j + 1 by {
        if i < p {
            assert(idx2[i] == idx[i]);
        } else if i > p {
            assert(idx2[i] == idx[i - 1]);
        }
    }
    assert(nm2 =~= nm.insert(p, ts[j].name@));
    // the name is new
    assert forall|q: int| 0 <= q < t0.len() implies (#[trigger] t0[q]).name@ != ts[j].name@ by {
        if t0[q].name@ == ts[j].name@ {
            assert(has_name(d, t0[q].name@));
            let i = choose|i: int| 0 <= i < d.len() && d[i].name@ == t0[q].name@;
            assert(nm[i] == ts[j].name@);
            if i < p {
                assert(str_lt(nm[i], ts[j].name@));
                crate::text::lemma_str_lt_irreflexive(nm[i]);
            } else if i > p {
                assert(str_lt(nm[p], nm[i]));
                assert(nm[p] == ts[idx[p] as int].name@);
                crate::text::lemma_str_lt_asymmetric(nm[p], ts[j].name@);
            }
        }
    }
    assert(strictly_sorted(nm2)) by {
        assert forall|a: int, b: int| 0 <= a < b < nm2.len() implies str_lt(nm2[a], nm2[b]) by {
            if a < p && b == p {
            } else if a < p && b > p {
                assert(nm2[b] == nm[b - 1]);
                if b - 1 > p {
                    assert(str_lt(nm[p], nm[b - 1]));
                    crate::text::lemma_str_lt_transitive(ts[j].name@, nm[p], nm[b - 1]);
                }
                assert(nm[p] == ts[idx[p] as int].name@);
                crate::text::lemma_str_lt_transitive(nm[a], ts[j].name@, nm[b - 1]);
            } else if a == p && b > p {
                assert(nm2[b] == nm[b - 1]);
                assert(nm[p] == ts[idx[p] as int].name@);
                if b - 1 > p {
                    assert(str_lt(nm[p], nm[b - 1]));
                    crate::text::lemma_str_lt_transitive(ts[j].name@, nm[p], nm[b - 1]);
                }
            } else if a > p {
                assert(nm2[a] == nm[a - 1]);
                assert(nm2[b] == nm[b - 1]);
            } else {
                assert(nm2[a] == nm[a]);
                assert(nm2[b] == nm[b]);
            }
        }
    }
    assert forall|i: int| 0 <= i < d2.len() implies first_of_name(t1, #[trigger] d2[i]) by {
        if i == p {
            assert(t1[j] == ts[j]);
            assert forall|q: int| 0 <= q < j implies (#[trigger] t1[q]).name@ != d2[i].name@ by {
                assert(t1[q] == t0[q]);
            }
        } else {
            let i0 = if i < p { i } else { i - 1 };
            assert(d2[i] == d[i0]);
            assert(first_of_name(t0, d[i0]));
            let k = choose|k: int|
                0 <= k < t0.len() && t0[k] == d[i0] && forall|q: int| 0 <= q < k ==> (#[trigger] t0[q]).name@ != d[i0].name@;
            assert(t1[k] == d[i0]);
            assert forall|q: int| 0 <= q < k implies (#[trigger] t1[q]).name@ != d2[i].name@ by {
                assert(t1[q] == t0[q]);
            }
        }
    }
    assert forall|q: int| 0 <= q < t1.len() implies has_name(d2, (#[trigger] t1[q]).name@) by {
        if q < j {
            assert(t1[q] == t0[q]);
            assert(has_name(d, t0[q].name@));
            let i = choose|i: int| 0 <= i < d.len() && d[i].name@ == t0[q].name@;
            if i < p {
                assert(d2[i] == d[i]);
            } else {
                assert(d2[i + 1] == d[i]);
            }
        } else {
            assert(d2[p].name@ == t1[q].name@);
        }
    }
}

/// Prints the declarations in order, separated by blank lines.
fn types_section(types: &Vec<PurescriptType>) -> (r: String)
    ensures
        r@ == types_text(types@),
{
    let ghost texts = types@.map_values(|t: PurescriptType| t.text());
    let mut out = String::new();
    let mut i: usize = 0;
    while i < types.len()
        invariant
            i <= types.len(),
            texts == types@.map_values(|t: PurescriptType| t.text()),
            out@ == join(texts.take(i as int), "\n\n"@),
        decreases types.len() - i,
    {
        let t = types[i].to_string();
        proof {
            lemma_join_push(texts.take(i as int), texts[i as int], "\n\n"@);
            assert(texts.take(i as int + 1) =~= texts.take(i as int).push(texts[i as int]));
        }
        if i > 0 {
            out.append("\n\n");
        }
        out.append(t.as_str());
        i = i + 1;
    }
    assert(texts.take(types.len() as int) =~= texts);
    out
}

/// Prints the records, separated by blank lines.
fn records_section(records: &Vec<PurescriptRecord>) -> (r: String)
    ensures
        r@ == join(records@.map_values(|r: PurescriptRecord| r.text()), "\n\n"@),
{
    let ghost texts = records@.map_values(|r: PurescriptRecord| r.text());
    let mut out = String::new();
    let mut i: usize = 0;
    while i < records.len()
        invariant
            i <= records.len(),
            texts == records@.map_values(|r: PurescriptRecord| r.text()),
            out@ == join(texts.take(i as int), "\n\n"@),
        decreases records.len() - i,
    {
        let t = records[i].to_string();
        proof {
            lemma_join_push(texts.take(i as int), texts[i as int], "\n\n"@);
            assert(texts.take(i as int + 1) =~= texts.take(i as int).push(texts[i as int]));
        }
        if i > 0 {
            out.append("\n\n");
        }
        out.append(t.as_str());
        i = i + 1;
    }
    assert(texts.take(records.len() as int) =~= texts);
    out
}

/// Prints the variant fragments, separated by blank lines.
fn variants_section(variants: &Vec<Variant>) -> (r: String)
    ensures
        r@ == join(variants@.map_values(|v: Variant| v.text()), "\n\n"@),
{
    let ghost texts = variants@.map_values(|v: Variant| v.text());
    let mut out = String::new();
    let mut i: usize = 0;
    while i < variants.len()
        invariant
            i <= variants.len(),
            texts == variants@.map_values(|v: Variant| v.text()),
            out@ == join(texts.take(i as int), "\n\n"@),
        decreases variants.len() - i,
    {
        let t = variants[i].to_string();
        proof {
            lemma_join_push(texts.take(i as int), texts[i as int], "\n\n"@);
            assert(texts.take(i as int + 1) =~= texts.take(i as int).push(texts[i as int]));
        }
        if i > 0 {
            out.append("\n\n");
        }
        out.append(t.as_str());
        i = i + 1;
    }
    assert(texts.take(variants.len() as int) =~= texts);
    out
}

/// Prints the derived instances, one per line.
fn instances_section(instances: &Vec<DeriveInstance>) -> (r: String)
    ensures
        r@ == join(instances@.map_values(|i: DeriveInstance| i.text()), "\n"@),
{
    let ghost texts = instances@.map_values(|i: DeriveInstance| i.text());
    let mut out = String::new();
    let mut i: usize = 0;
    while i < instances.len()
        invariant
            i <= instances.len(),
            texts == instances@.map_values(|i: DeriveInstance| i.text()),
            out@ == join(texts.take(i as int), "\n"@),
        decreases instances.len() - i,
    {
        let t = instances[i].to_string();
        proof {
            lemma_join_push(texts.take(i as int), texts[i as int], "\n"@);
            assert(texts.take(i as int + 1) =~= texts.take(i as int).push(texts[i as int]));
        }
        if i > 0 {
            out.append("\n");
        }
        out.append(t.as_str());
        i = i + 1;
    }
    assert(texts.take(instances.len() as int) =~= texts);
    out
}

/// Prints one merged import; the comparison-expression modules import one fixed symbol each.
fn import_line_of(e: &PurescriptImport) -> (r: String)
    ensures
        r@ == import_line(e@),
{
    let fixed = if e.module == "GraphQL.Hasura.ComparisonExp".to_string() {
        Some("ComparisonExp")
    } else if e.module == "Data.ComparisonExpString".to_string() {
        Some("ComparisonExpString")
    } else {
        None
    };
    match fixed {
        Some(sym) => {
            let mut specified: Vec<String> = Vec::new();
            specified.push(sym.to_string());
            let one = PurescriptImport {
                module: e.module.clone(),
                specified,
                as_name: copy_alias(&e.as_name),
                package: e.package.clone(),
            };
            assert(one@.symbols =~= seq![sym@]);
            assert(one@ == (ImportModel { symbols: seq![sym@], ..e@ }));
            one.to_string()
        },
        None => e.to_string(),
    }
}

/// Prints the merged imports, one per line.
fn imports_section(imports: &Vec<PurescriptImport>) -> (r: String)
    ensures
        r@ == imports_text(models(imports@)),
{
    let merged_imports = merge_for_print(imports);
    let ghost l = models(imports@);
    let ghost m = models(merged_imports@);
    let ghost lines = m.map_values(|x: ImportModel| import_line(x));
    let mut out = String::new();
    let mut i: usize = 0;
    while i < merged_imports.len()
        invariant
            i <= merged_imports.len(),
            m == models(merged_imports@),
            lines == m.map_values(|x: ImportModel| import_line(x)),
            out@ == join(lines.take(i as int), "\n"@),
        decreases merged_imports.len() - i,
    {
        let t = import_line_of(&merged_imports[i]);
        proof {
            lemma_join_push(lines.take(i as int), lines[i as int], "\n"@);
            assert(lines.take(i as int + 1) =~= lines.take(i as int).push(lines[i as int]));
        }
        if i > 0 {
            out.append("\n");
        }
        out.append(t.as_str());
        i = i + 1;
    }
    assert(lines.take(merged_imports.len() as int) =~= lines);
    out
}

/// The merged imports, as far as their printed lines go.
fn merge_for_print(imports: &Vec<PurescriptImport>) -> (r: Vec<PurescriptImport>)
    ensures
        models(r@).map_values(|x: ImportModel| import_line(x)) == merged(models(imports@)).map_values(
            |x: ImportModel| import_line(x),
        ),
{
    let m = PurescriptImport::merge(imports);
    proof {
        lemma_lines_of_merge(models(imports@), models(m@));
    }
    m
}

proof fn lemma_line_eq(x: ImportModel, y: ImportModel)
    requires
        key(x) == key(y),
        x.symbols == y.symbols,
    ensures
        import_line(x) == import_line(y),
{
}

proof fn lemma_lines_equal(m: Seq<ImportModel>, c: Seq<ImportModel>)
    requires
        m.len() == c.len(),
        forall|i: int|
            0 <= i < m.len() ==> key(#[trigger] m[i]) == key(c[i]) && m[i].symbols == c[i].symbols,
    ensures
        forall|k: int| 0 <= k < m.len() ==> import_line(#[trigger] m[k]) == import_line(c[k]),
{
    assert forall|k: int| 0 <= k < m.len() implies import_line(#[trigger] m[k]) == import_line(c[k]) by {
        lemma_line_eq(m[k], c[k]);
    }
}

proof fn lemma_lines_of_merge(l: Seq<ImportModel>, m: Seq<ImportModel>)
    requires
        is_merge_of(m, l),
    ensures
        m.map_values(|x: ImportModel| import_line(x)) == merged(l).map_values(
            |x: ImportModel| import_line(x),
        ),
{
    let c = merged(l);
    assert(is_merge_of(c, l));
    law_merge_order_independent(l, l, m, c);
    lemma_lines_equal(m, c);
    assert(m.map_values(|x: ImportModel| import_line(x)) =~= c.map_values(|x: ImportModel| import_line(x)));
}

proof fn lemma_sections_push(s: Seq<Seq<char>>, x: Seq<char>)
    requires
        s.filter(|y: Seq<char>| y.len() > 0).len() > 0,
    ensures
        sections_text(s.push(x)) == if x.len() > 0 {
            sections_text(s) + "\n\n"@ + x
        } else {
            sections_text(s)
        },
{
    reveal(Seq::filter);
    let f = |y: Seq<char>| y.len() > 0;
    assert(s.push(x).drop_last() =~= s);
    if x.len() > 0 {
        assert(s.push(x).filter(f) == s.filter(f).push(x));
        lemma_join_push(s.filter(f), x, "\n\n"@);
    } else {
        assert(s.push(x).filter(f) == s.filter(f));
    }
}

/// Prints a role's module: header, imports, records, type declarations, variant fragments and
/// derived instances, in that order, each section separated by a blank line and empty ones left
/// out. The declarations are finalized in place: sorted by name, the first of each name kept;
/// imports are merged.
pub fn print_module(
    role: &str,
    types: &mut Vec<PurescriptType>,
    records: &mut Vec<PurescriptRecord>,
    imports: &mut Vec<PurescriptImport>,
    variants: &mut Vec<Variant>,
    instances: &mut Vec<DeriveInstance>,
) -> (r: String)
    ensures
        r@ == module_text(role@, old(types)@, old(records)@, models(old(imports)@), old(variants)@, old(instances)@),
        final(types)@ == dedup_types(old(types)@),
        is_dedup_of(final(types)@, old(types)@),
        final(records)@ == old(records)@,
        final(imports)@ == old(imports)@,
        final(variants)@ == old(variants)@,
        final(instances)@ == old(instances)@,
{
    finalize_types(types);
    let mut module = String::new();
    module.append("module Schema.");
    module.append(role);
    module.append(" where");
    let ghost header = module@;
    let sections: [String; 5] = [
        imports_section(imports),
        records_section(records),
        types_section(types),
        variants_section(variants),
        instances_section(instances),
    ];
    let ghost all = seq![header, sections[0]@, sections[1]@, sections[2]@, sections[3]@, sections[4]@];
    proof {
        reveal_strlit("module Schema.");
        reveal(Seq::filter);
        let f = |y: Seq<char>| y.len() > 0;
        assert(seq![header].drop_last() =~= Seq::<Seq<char>>::empty());
        assert(seq![header].filter(f) =~= seq![header]);
    }
    let mut i: usize = 0;
    while i < 5
        invariant
            i <= 5,
            all == seq![header, sections[0]@, sections[1]@, sections[2]@, sections[3]@, sections[4]@],
            header.len() > 0,
            module@ == sections_text(all.take(i as int + 1)),
        decreases 5 - i,
    {
        proof {
            reveal(Seq::filter);
            assert(all.take(i as int + 1).filter(|y: Seq<char>| y.len() > 0).len() > 0) by {
                lemma_filter_keeps_first(all.take(i as int + 1));
            }
            lemma_sections_push(all.take(i as int + 1), all[i as int + 1]);
            assert(all.take(i as int + 2) =~= all.take(i as int + 1).push(all[i as int + 1]));
        }
        let s = &sections[i];
        if s.as_str().unicode_len() > 0 {
            module.append("\n\n");
            module.append(s.as_str());
        }
        i = i + 1;
    }
    assert(all.take(6) =~= all);
    module
}

proof fn lemma_filter_keeps_first(s: Seq<Seq<char>>)
    requires
        s.len() > 0,
        s[0].len() > 0,
    ensures
        s.filter(|y: Seq<char>| y.len() > 0).len() > 0,
    decreases s.len(),
{
    reveal(Seq::filter);
    if s.len() > 1 {
        lemma_filter_keeps_first(s.drop_last());
    }
}

proof fn lemma_dedup_permuted(d: Seq<PurescriptType>, t1: Seq<PurescriptType>, t2: Seq<PurescriptType>)
    requires
        is_dedup_of(d, t1),
        forall|x: PurescriptType| t1.contains(x) <==> t2.contains(x),
        forall|i: int, j: int| 0 <= i < j < t1.len() ==> t1[i].name@ != t1[j].name@,
        forall|i: int, j: int| 0 <= i < j < t2.len() ==> t2[i].name@ != t2[j].name@,
    ensures
        is_dedup_of(d, t2),
{
    assert forall|i: int| 0 <= i < d.len() implies first_of_name(t2, #[trigger] d[i]) by {
        assert(first_of_name(t1, d[i]));
        let j = choose|j: int|
            0 <= j < t1.len() && t1[j] == d[i] && forall|q: int| 0 <= q < j ==> (#[trigger] t1[q]).name@ != d[i].name@;
        assert(t1.contains(t1[j]));
        let k = choose|k: int| 0 <= k < t2.len() && t2[k] == d[i];
        assert forall|q: int| 0 <= q < k implies (#[trigger] t2[q]).name@ != d[i].name@ by {
            assert(t2[q].name@ != t2[k].name@);
        }
    }
    assert forall|j: int| 0 <= j < t2.len() implies has_name(d, (#[trigger] t2[j]).name@) by {
        assert(t2.contains(t2[j]));
        let k = choose|k: int| 0 <= k < t1.len() && t1[k] == t2[j];
        assert(has_name(d, t1[k].name@));
    }
}

/// Reordering the imports, or declarations of distinct names, leaves the module text as it
/// is (for lists whose merge and finalized form exist, as `merge` and `finalize_types` show of
/// every list they are given).
pub proof fn law_module_order_independent(
    role: Seq<char>,
    types1: Seq<PurescriptType>,
    types2: Seq<PurescriptType>,
    records: Seq<PurescriptRecord>,
    imports1: Seq<ImportModel>,
    imports2: Seq<ImportModel>,
    variants: Seq<Variant>,
    instances: Seq<DeriveInstance>,
)
    requires
        types1.to_multiset() == types2.to_multiset(),
        forall|i: int, j: int| 0 <= i < j < types1.len() ==> types1[i].name@ != types1[j].name@,
        imports1.to_multiset() == imports2.to_multiset(),
        exists|d: Seq<PurescriptType>| is_dedup_of(d, types1),
        exists|m: Seq<ImportModel>| is_merge_of(m, imports1),
        exists|m: Seq<ImportModel>| is_merge_of(m, imports2),
    ensures
        module_text(role, types1, records, imports1, variants, instances) == module_text(
            role,
            types2,
            records,
            imports2,
            variants,
            instances,
        ),
{
    broadcast use vstd::seq_lib::group_to_multiset_ensures;

    assert forall|x: PurescriptType| types1.contains(x) <==> types2.contains(x) by {
        vstd::seq_lib::to_multiset_contains(types1, x);
        vstd::seq_lib::to_multiset_contains(types2, x);
    }
    assert forall|i: int, j: int| 0 <= i < j < types2.len() implies types2[i].name@ != types2[j].name@ by {
        assert(types2.contains(types2[i]));
        assert(types2.contains(types2[j]));
        let a = choose|a: int| 0 <= a < types1.len() && types1[a] == types2[i];
        let b = choose|b: int| 0 <= b < types1.len() && types1[b] == types2[j];
        assert(types2.to_multiset().count(types2[i]) == types1.to_multiset().count(types2[i]));
        if a == b {
            assert(types2[i] == types2[j]);
            assert(types1.to_multiset().count(types1[a]) == 1) by {
                assert forall|c: int| 0 <= c < types1.len() && c != a implies types1[c] != types1[a] by {
                    if c < a {
                        assert(types1[c].name@ != types1[a].name@);
                    } else {
                        assert(types1[a].name@ != types1[c].name@);
                    }
                }
                lemma_count_one(types1, a);
            }
            lemma_count_two(types2, i, j);
        } else if a < b {
            assert(types1[a].name@ != types1[b].name@);
        } else {
            assert(types1[b].name@ != types1[a].name@);
        }
    }
    let d = dedup_types(types1);
    assert(is_dedup_of(d, types1));
    lemma_dedup_permuted(d, types1, types2);
    lemma_dedup_unique(dedup_types(types2), d, types2);
    let m1 = merged(imports1);
    let m2 = merged(imports2);
    assert(is_merge_of(m1, imports1));
    assert(is_merge_of(m2, imports2));
    law_merge_order_independent(imports1, imports2, m1, m2);
    lemma_lines_equal(m1, m2);
    assert(m1.map_values(|x: ImportModel| import_line(x)) =~= m2.map_values(|x: ImportModel| import_line(x)));
}

proof fn lemma_count_one<T>(s: Seq<T>, a: int)
    requires
        0 <= a < s.len(),
        forall|c: int| 0 <= c < s.len() && c != a ==> s[c] != s[a],
    ensures
        s.to_multiset().count(s[a]) == 1,
    decreases s.len(),
{
    broadcast use vstd::seq_lib::group_to_multiset_ensures;

    let x = s[a];
    if a == s.len() - 1 {
        assert(!s.drop_last().contains(x)) by {
            if s.drop_last().contains(x) {
                let c = choose|c: int| 0 <= c < s.drop_last().len() && s.drop_last()[c] == x;
                assert(s[c] == x);
            }
        }
        assert(s.drop_last().push(x) =~= s);
    } else {
        lemma_count_one(s.drop_last(), a);
        assert(s.drop_last().push(s.last()) =~= s);
        assert(s.last() != x);
    }
}

proof fn lemma_count_two<T>(s: Seq<T>, i: int, j: int)
    requires
        0 <= i < j < s.len(),
        s[i] == s[j],
    ensures
        s.to_multiset().count(s[i]) >= 2,
    decreases s.len(),
{
    broadcast use vstd::seq_lib::group_to_multiset_ensures;

    let x = s[i];
    assert(s.drop_last().push(s.last()) =~= s);
    if j == s.len() - 1 {
        assert(s.drop_last().contains(x)) by {
            assert(s.drop_last()[i] == x);
        }
    } else {
        lemma_count_two(s.drop_last(), i, j);
    }
}

} // verus!
