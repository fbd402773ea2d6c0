//! Imports of a generated module, their merging and their printed form.
use vstd::prelude::*;

use crate::order::{lemma_sorted_unique, sorted_by, strict_total};
use crate::text::{
    canonical, insert_sorted, join, join_strings, lemma_canonical, lemma_str_lt_irreflexive,
    lemma_str_lt_total, lemma_str_lt_transitive, sorted_unique, str_lt, strictly_sorted, text_less,
};

verus! {

/// An import of symbols from a module of a package, possibly under an alias.
pub struct PurescriptImport {
    pub module: String,
    pub specified: Vec<String>,
    pub as_name: Option<String>,
    pub package: String,
}

/// What an import denotes.
pub struct ImportModel {
    pub module: Seq<char>,
    pub symbols: Seq<Seq<char>>,
    pub alias: Option<Seq<char>>,
    pub package: Seq<char>,
}

/// The text of an optional alias.
pub open spec fn alias_view(a: Option<String>) -> Option<Seq<char>> {
    match a {
        Some(s) => Some(s@),
        None => None,
    }
}

impl View for PurescriptImport {
    type V = ImportModel;

    open spec fn view(&self) -> ImportModel {
        ImportModel {
            module: self.module@,
            symbols: self.specified.deep_view(),
            alias: alias_view(self.as_name),
            package: self.package@,
        }
    }
}

/// What a sequence of imports denotes.
pub open spec fn models(v: Seq<PurescriptImport>) -> Seq<ImportModel> {
    v.map_values(|i: PurescriptImport| i@)
}

/// Imports with equal keys merge: the module and the alias.
pub open spec fn key(m: ImportModel) -> (Seq<char>, Option<Seq<char>>) {
    (m.module, m.alias)
}

/// The keys of a sequence of imports.
pub open spec fn keys(m: Seq<ImportModel>) -> Seq<(Seq<char>, Option<Seq<char>>)> {
    m.map_values(|x: ImportModel| key(x))
}

/// The order of aliases: none first, then by text.
pub open spec fn alias_lt(a: Option<Seq<char>>, b: Option<Seq<char>>) -> bool {
    match (a, b) {
        (None, Some(_)) => true,
        (Some(x), Some(y)) => str_lt(x, y),
        _ => false,
    }
}

/// The order of keys: by module, then by alias.
pub open spec fn key_lt(a: (Seq<char>, Option<Seq<char>>), b: (Seq<char>, Option<Seq<char>>)) -> bool {
    str_lt(a.0, b.0) || (a.0 == b.0 && alias_lt(a.1, b.1))
}

/// The order of keys as a function value.
pub open spec fn key_order() -> spec_fn((Seq<char>, Option<Seq<char>>), (Seq<char>, Option<Seq<char>>)) -> bool {
    |a: (Seq<char>, Option<Seq<char>>), b: (Seq<char>, Option<Seq<char>>)| key_lt(a, b)
}

/// The symbols that the imports of a key bring, taken together.
pub open spec fn symbols_for(l: Seq<ImportModel>, k: (Seq<char>, Option<Seq<char>>)) -> Set<Seq<char>> {
    Set::new(|x: Seq<char>| exists|j: int| 0 <= j < l.len() && key(l[j]) == k && l[j].symbols.contains(x))
}

/// Whether the `j`-th import is the first of key `k`.
pub open spec fn first_with_key(l: Seq<ImportModel>, k: (Seq<char>, Option<Seq<char>>), j: int) -> bool {
    &&& 0 <= j < l.len()
    &&& key(l[j]) == k
    &&& forall|q: int| 0 <= q < j ==> key(#[trigger] l[q]) != k
}

/// Whether `m` is the merge of `l`: one import per key of `l`, sorted by key, each with the
/// sorted symbols of all imports of its key and the package of the first of them.
pub open spec fn is_merge_of(m: Seq<ImportModel>, l: Seq<ImportModel>) -> bool {
    &&& sorted_by(keys(m), key_order())
    &&& merge_packages(m, l)
    &&& merge_covers(m, l)
    &&& merge_symbols(m, l)
}

/// Each import of `m` has the package of the first import of its key in `l`.
pub open spec fn merge_packages(m: Seq<ImportModel>, l: Seq<ImportModel>) -> bool {
    forall|i: int| 0 <= i < m.len() ==> package_of_first(l, #[trigger] m[i])
}

/// Whether `x` has the package of the first import of its key in `l`.
pub open spec fn package_of_first(l: Seq<ImportModel>, x: ImportModel) -> bool {
    exists|j: int| first_with_key(l, key(x), j) && x.package == l[j].package
}

/// Each key of `l` has an import in `m`.
pub open spec fn merge_covers(m: Seq<ImportModel>, l: Seq<ImportModel>) -> bool {
    forall|j: int| 0 <= j < l.len() ==> exists|i: int| 0 <= i < m.len() && key(m[i]) == key(#[trigger] l[j])
}

/// Each import of `m` has, sorted, the symbols of all imports of its key in `l`.
pub open spec fn merge_symbols(m: Seq<ImportModel>, l: Seq<ImportModel>) -> bool {
    forall|i: int|
        0 <= i < m.len() ==> strictly_sorted(#[trigger] m[i].symbols) && m[i].symbols.to_set()
            == symbols_for(l, key(m[i]))
}

/// The printed import: symbols sorted, each once.
pub open spec fn import_text(m: ImportModel) -> Seq<char> {
    let syms = canonical(m.symbols.to_set());
    "import "@ + m.module + if syms.len() == 0 {
        Seq::empty()
    } else {
        " ("@ + join(syms, ", "@) + ")"@
    } + match m.alias {
        Some(a) => " as "@ + a,
        None => Seq::empty(),
    }
}

/// Keys are a strict total order.
pub proof fn lemma_key_order()
    ensures
        strict_total(key_order()),
{
    assert forall|x: (Seq<char>, Option<Seq<char>>)| !#[trigger] key_order()(x, x) by {
        lemma_str_lt_irreflexive(x.0);
        if let Some(a) = x.1 {
            lemma_str_lt_irreflexive(a);
        }
    }
    assert forall|x: (Seq<char>, Option<Seq<char>>), y: (Seq<char>, Option<Seq<char>>), z: (Seq<char>, Option<Seq<char>>)|
        #[trigger] key_order()(x, y) && #[trigger] key_order()(y, z) implies key_order()(x, z) by {
        if str_lt(x.0, y.0) && str_lt(y.0, z.0) {
            lemma_str_lt_transitive(x.0, y.0, z.0);
        }
        if let (Some(a), Some(b), Some(c)) = (x.1, y.1, z.1) {
            if str_lt(a, b) && str_lt(b, c) {
                lemma_str_lt_transitive(a, b, c);
            }
        }
    }
    assert forall|x: (Seq<char>, Option<Seq<char>>), y: (Seq<char>, Option<Seq<char>>)|
        x != y implies #[trigger] key_order()(x, y) || #[trigger] key_order()(y, x) by {
        if x.0 != y.0 {
            lemma_str_lt_total(x.0, y.0);
        } else if let (Some(a), Some(b)) = (x.1, y.1) {
            lemma_str_lt_total(a, b);
        }
    }
}

proof fn lemma_symbols_for_push(l: Seq<ImportModel>, x: ImportModel, k: (Seq<char>, Option<Seq<char>>))
    ensures
        symbols_for(l.push(x), k) == if key(x) == k {
            symbols_for(l, k).union(x.symbols.to_set())
        } else {
            symbols_for(l, k)
        },
{
    let lp = l.push(x);
    assert forall|y: Seq<char>| symbols_for(lp, k).contains(y) == (if key(x) == k {
        symbols_for(l, k).union(x.symbols.to_set())
    } else {
        symbols_for(l, k)
    }).contains(y) by {
        if symbols_for(lp, k).contains(y) {
            let j = choose|j: int| 0 <= j < lp.len() && key(lp[j]) == k && lp[j].symbols.contains(y);
            if j < l.len() {
                assert(l[j] == lp[j]);
            } else {
                assert(x.symbols.to_set().contains(y));
            }
        }
        if symbols_for(l, k).contains(y) {
            let j = choose|j: int| 0 <= j < l.len() && key(l[j]) == k && l[j].symbols.contains(y);
            assert(lp[j] == l[j]);
        }
        if key(x) == k && x.symbols.to_set().contains(y) {
            assert(lp[l.len() as int] == x);
        }
    }
    assert(symbols_for(lp, k) =~= if key(x) == k {
        symbols_for(l, k).union(x.symbols.to_set())
    } else {
        symbols_for(l, k)
    });
}

proof fn lemma_symbols_for_empty(l: Seq<ImportModel>, k: (Seq<char>, Option<Seq<char>>))
    requires
        forall|j: int| 0 <= j < l.len() ==> key(#[trigger] l[j]) != k,
    ensures
        symbols_for(l, k) == Set::<Seq<char>>::empty(),
{
    assert(symbols_for(l, k) =~= Set::<Seq<char>>::empty());
}

/// Keys in a merge are unique.
proof fn lemma_merge_keys_unique(m: Seq<ImportModel>, i: int, j: int)
    requires
        sorted_by(keys(m), key_order()),
        0 <= i < m.len(),
        0 <= j < m.len(),
        i != j,
    ensures
        key(m[i]) != key(m[j]),
{
    lemma_key_order();
    let ks = keys(m);
    if i < j {
        assert(key_order()(ks[i], ks[j]));
    } else {
        assert(key_order()(ks[j], ks[i]));
    }
}

/// Whether the keys of two imports are equal.
fn same_key(a: &PurescriptImport, b: &PurescriptImport) -> (r: bool)
    ensures
        r == (key(a@) == key(b@)),
{
    if a.module != b.module {
        return false;
    }
    match (&a.as_name, &b.as_name) {
        (None, None) => true,
        (Some(x), Some(y)) => *x == *y,
        _ => false,
    }
}

/// Whether the key of `a` comes before that of `b`.
fn key_less(a: &PurescriptImport, b: &PurescriptImport) -> (r: bool)
    ensures
        r == key_lt(key(a@), key(b@)),
{
    if text_less(&a.module, &b.module) {
        return true;
    }
    if a.module != b.module {
        return false;
    }
    match (&a.as_name, &b.as_name) {
        (None, Some(_)) => true,
        (Some(x), Some(y)) => text_less(x, y),
        _ => false,
    }
}

/// A copy of an optional alias.
pub(crate) fn copy_alias(a: &Option<String>) -> (r: Option<String>)
    ensures
        alias_view(r) == alias_view(*a),
{
    match a {
        Some(s) => Some(s.clone()),
        None => None,
    }
}

impl PurescriptImport {
    /// An import of nothing yet from `module` of `package`.
    pub fn new(module: &str, package: &str) -> (r: PurescriptImport)
        ensures
            r@.module == module@,
            r@.symbols.len() == 0,
            r@.alias is None,
            r@.package == package@,
    {
        let r = PurescriptImport {
            module: module.to_string(),
            specified: Vec::new(),
            as_name: None,
            package: package.to_string(),
        };
        assert(r@.symbols =~= Seq::<Seq<char>>::empty());
        r
    }

    /// The import with one more symbol.
    pub fn add_specified(self, import: &str) -> (r: PurescriptImport)
        ensures
            r@ == (ImportModel { symbols: self@.symbols.push(import@), ..self@ }),
    {
        let mut specified = self.specified;
        specified.push(import.to_string());
        let r = PurescriptImport {
            module: self.module,
            specified,
            as_name: self.as_name,
            package: self.package,
        };
        assert(r@.symbols =~= self@.symbols.push(import@));
        r
    }

    /// Prints the import, its symbols sorted and each once.
    pub fn to_string(&self) -> (r: String)
        ensures
            r@ == import_text(self@),
    {
        let syms = sorted_unique(&self.specified);
        let mut out = String::new();
        out.append("import ");
        out.append(self.module.as_str());
        if syms.len() > 0 {
            let joined = join_strings(&syms, ", ");
            out.append(" (");
            out.append(joined.as_str());
            out.append(")");
        }
        match &self.as_name {
            Some(a) => {
                out.append(" as ");
                out.append(a.as_str());
            },
            None => {},
        }
        out
    }

    /// One import per module and alias, sorted by module then alias, each with the sorted
    /// symbols of all the imports of its key and the package of the first of them.
    pub fn merge(imports: &Vec<PurescriptImport>) -> (r: Vec<PurescriptImport>)
        ensures
            is_merge_of(models(r@), models(imports@)),
    {
        let ghost all = models(imports@);
        let mut out: Vec<PurescriptImport> = Vec::new();
        let mut k: usize = 0;
        proof {
            assert(models(out@) =~= Seq::<ImportModel>::empty());
            assert(all.take(0) =~= Seq::<ImportModel>::empty());
            assert(sorted_by(keys(models(out@)), key_order()));
        }
        while k < imports.len()
            invariant
                k <= imports.len(),
                all == models(imports@),
                is_merge_of(models(out@), all.take(k as int)),
            decreases imports.len() - k,
        {
            let imp = &imports[k];
            let ghost x = imp@;
            let ghost l = all.take(k as int);
            let ghost m = models(out@);
            proof {
                assert(all.take(k as int + 1) =~= l.push(x));
                lemma_key_order();
            }
            let mut p: usize = 0;
            while p < out.len() && key_less(&out[p], imp)
                invariant
                    p <= out.len(),
                    m == models(out@),
                    x == imp@,
                    forall|q: int| 0 <= q < p ==> key_lt(key(#[trigger] m[q]), key(x)),
                decreases out.len() - p,
            {
                p = p + 1;
            }
            if p < out.len() && same_key(&out[p], imp) {
                let mut e = out.remove(p);
                let mut i: usize = 0;
                proof {
                    assert(imp.specified.deep_view().take(0).to_set() =~= Set::<Seq<char>>::empty());
                    assert(e@.symbols.to_set() =~= m[p as int].symbols.to_set().union(
                        imp.specified.deep_view().take(0).to_set(),
                    ));
                }
                while i < imp.specified.len()
                    invariant
                        i <= imp.specified.len(),
                        x == imp@,
                        p < m.len(),
                        e@.module == m[p as int].module,
                        e@.alias == m[p as int].alias,
                        e@.package == m[p as int].package,
                        strictly_sorted(e@.symbols),
                        e@.symbols.to_set() == m[p as int].symbols.to_set().union(
                            x.symbols.take(i as int).to_set(),
                        ),
                    decreases imp.specified.len() - i,
                {
                    insert_sorted(&mut e.specified, imp.specified[i].clone());
                    proof {
                        assert(x.symbols.take(i as int + 1) =~= x.symbols.take(i as int).push(
                            x.symbols[i as int],
                        ));
                        crate::text::lemma_to_set_push(x.symbols.take(i as int), x.symbols[i as int]);
                        assert(e@.symbols.to_set() =~= m[p as int].symbols.to_set().union(
                            x.symbols.take(i as int + 1).to_set(),
                        ));
                    }
                    i = i + 1;
                }
                proof {
                    assert(x.symbols.take(x.symbols.len() as int) =~= x.symbols);
                }
                let ghost em = e@;
                out.insert(p, e);
                proof {
                    assert(models(out@) =~= m.update(p as int, em));
                    self::lemma_merge_found(m, l, x, p as int, em);
                }
            } else {
                let e = PurescriptImport {
                    module: imp.module.clone(),
                    specified: sorted_unique(&imp.specified),
                    as_name: copy_alias(&imp.as_name),
                    package: imp.package.clone(),
                };
                let ghost em = e@;
                out.insert(p, e);
                proof {
                    assert(models(out@) =~= m.insert(p as int, em));
                    if p < m.len() {
                        assert(!key_lt(key(m[p as int]), key(x)));
                        assert(key(m[p as int]) != key(x));
                    }
                    self::lemma_merge_new(m, l, x, p as int, em);
                }
            }
            k = k + 1;
        }
        proof {
            assert(all.take(imports.len() as int) =~= all);
        }
        out
    }
}

proof fn lemma_symbols_for_unique_key(m: Seq<ImportModel>, i: int)
    requires
        sorted_by(keys(m), key_order()),
        0 <= i < m.len(),
    ensures
        symbols_for(m, key(m[i])) == m[i].symbols.to_set(),
{
    assert forall|y: Seq<char>| symbols_for(m, key(m[i])).contains(y) == m[i].symbols.to_set().contains(y) by {
        if symbols_for(m, key(m[i])).contains(y) {
            let j = choose|j: int| 0 <= j < m.len() && key(m[j]) == key(m[i]) && m[j].symbols.contains(y);
            if j != i {
                lemma_merge_keys_unique(m, i, j);
            }
        }
        if m[i].symbols.contains(y) {
            assert(0 <= i < m.len() && key(m[i]) == key(m[i]) && m[i].symbols.contains(y));
        }
    }
    assert(symbols_for(m, key(m[i])) =~= m[i].symbols.to_set());
}

/// Whether some import of `m` has the key of `x`.
pub open spec fn key_in(m: Seq<ImportModel>, x: ImportModel) -> bool {
    exists|j: int| 0 <= j < m.len() && key(m[j]) == key(x)
}

/// Two merges whose keys are the keys of the same imports have the same keys, in order.
proof fn lemma_same_keys(m1: Seq<ImportModel>, m2: Seq<ImportModel>)
    requires
        sorted_by(keys(m1), key_order()),
        sorted_by(keys(m2), key_order()),
        forall|i: int| 0 <= i < m1.len() ==> key_in(m2, #[trigger] m1[i]),
        forall|i: int| 0 <= i < m2.len() ==> key_in(m1, #[trigger] m2[i]),
    ensures
        keys(m1) == keys(m2),
        m1.len() == m2.len(),
{
    lemma_key_order();
    let k1 = keys(m1);
    let k2 = keys(m2);
    assert forall|x: (Seq<char>, Option<Seq<char>>)| k1.contains(x) <==> k2.contains(x) by {
        if k1.contains(x) {
            let i = choose|i: int| 0 <= i < k1.len() && k1[i] == x;
            assert(key(m1[i]) == x);
            assert(key_in(m2, m1[i]));
            let j = choose|j: int| 0 <= j < m2.len() && key(m2[j]) == key(m1[i]);
            assert(k2[j] == x);
        }
        if k2.contains(x) {
            let i = choose|i: int| 0 <= i < k2.len() && k2[i] == x;
            assert(key(m2[i]) == x);
            assert(key_in(m1, m2[i]));
            let j = choose|j: int| 0 <= j < m1.len() && key(m1[j]) == key(m2[i]);
            assert(k1[j] == x);
        }
    }
    lemma_sorted_unique(k1, k2, key_order());
    assert(m1.len() == k1.len());
    assert(m2.len() == k2.len());
}

/// Each import of a merge has the key of some merged import.
proof fn lemma_merge_keys_from(m: Seq<ImportModel>, l: Seq<ImportModel>, i: int)
    requires
        merge_packages(m, l),
        0 <= i < m.len(),
    ensures
        exists|q: int| 0 <= q < l.len() && key(l[q]) == key(m[i]),
{
    assert(package_of_first(l, m[i]));
    let q = choose|q: int| first_with_key(l, key(m[i]), q) && m[i].package == l[q].package;
    assert(0 <= q < l.len() && key(l[q]) == key(m[i]));
}

proof fn lemma_idempotent_at(m: Seq<ImportModel>, x: ImportModel, i: int)
    requires
        sorted_by(keys(m), key_order()),
        0 <= i < m.len(),
        key(x) == key(m[i]),
        package_of_first(m, x),
        strictly_sorted(x.symbols),
        x.symbols.to_set() == symbols_for(m, key(x)),
        strictly_sorted(m[i].symbols),
    ensures
        x == m[i],
{
    let j = choose|j: int| first_with_key(m, key(x), j) && x.package == m[j].package;
    if j != i {
        lemma_merge_keys_unique(m, i, j);
    }
    lemma_symbols_for_unique_key(m, i);
    lemma_canonical(x.symbols);
    lemma_canonical(m[i].symbols);
}

proof fn lemma_keys_within(m2: Seq<ImportModel>, m: Seq<ImportModel>)
    requires
        merge_packages(m2, m),
    ensures
        forall|i: int| 0 <= i < m2.len() ==> key_in(m, #[trigger] m2[i]),
{
    assert forall|i: int| 0 <= i < m2.len() implies key_in(m, #[trigger] m2[i]) by {
        lemma_merge_keys_from(m2, m, i);
    }
}

proof fn lemma_keys_cover(m2: Seq<ImportModel>, m: Seq<ImportModel>)
    requires
        merge_covers(m2, m),
    ensures
        forall|i: int| 0 <= i < m.len() ==> key_in(m2, #[trigger] m[i]),
{
    assert forall|i: int| 0 <= i < m.len() implies key_in(m2, #[trigger] m[i]) by {
        let j = choose|j: int| 0 <= j < m2.len() && key(m2[j]) == key(m[i]);
    }
}

/// Merging a merged list of imports changes nothing.
pub proof fn law_merge_idempotent(l: Seq<ImportModel>, m: Seq<ImportModel>, m2: Seq<ImportModel>)
    requires
        is_merge_of(m, l),
        is_merge_of(m2, m),
    ensures
        m2 == m,
{
    lemma_keys_within(m2, m);
    lemma_keys_cover(m2, m);
    lemma_same_keys(m2, m);
    lemma_idempotent_all(m, m2);
}

proof fn lemma_idempotent_all(m: Seq<ImportModel>, m2: Seq<ImportModel>)
    requires
        sorted_by(keys(m), key_order()),
        keys(m2) == keys(m),
        m2.len() == m.len(),
        merge_packages(m2, m),
        merge_symbols(m2, m),
        forall|i: int| 0 <= i < m.len() ==> strictly_sorted(#[trigger] m[i].symbols),
    ensures
        m2 == m,
{
    assert forall|i: int| 0 <= i < m.len() implies m2[i] == m[i] by {
        assert(keys(m2)[i] == keys(m)[i]);
        assert(package_of_first(m, m2[i]));
        assert(strictly_sorted(m2[i].symbols));
        assert(strictly_sorted(m[i].symbols));
        lemma_idempotent_at(m, m2[i], i);
    }
    assert(m2 =~= m);
}

proof fn lemma_same_elements(l1: Seq<ImportModel>, l2: Seq<ImportModel>)
    requires
        l1.to_multiset() == l2.to_multiset(),
    ensures
        forall|x: ImportModel| l1.contains(x) <==> l2.contains(x),
{
    assert forall|x: ImportModel| l1.contains(x) <==> l2.contains(x) by {
        vstd::seq_lib::to_multiset_contains(l1, x);
        vstd::seq_lib::to_multiset_contains(l2, x);
    }
}

proof fn lemma_keys_carry(l1: Seq<ImportModel>, l2: Seq<ImportModel>, m1: Seq<ImportModel>, m2: Seq<ImportModel>)
    requires
        forall|x: ImportModel| l1.contains(x) <==> l2.contains(x),
        merge_packages(m1, l1),
        merge_covers(m2, l2),
    ensures
        forall|i: int| 0 <= i < m1.len() ==> key_in(m2, #[trigger] m1[i]),
{
    assert forall|i: int| 0 <= i < m1.len() implies key_in(m2, #[trigger] m1[i]) by {
        lemma_merge_keys_from(m1, l1, i);
        let q = choose|q: int| 0 <= q < l1.len() && key(l1[q]) == key(m1[i]);
        assert(l1.contains(l1[q]));
        let q2 = choose|q2: int| 0 <= q2 < l2.len() && l2[q2] == l1[q];
        assert(key(l2[q2]) == key(m1[i]));
        let j = choose|j: int| 0 <= j < m2.len() && key(m2[j]) == key(l2[q2]);
        assert(key(m2[j]) == key(m1[i]));
    }
}

proof fn lemma_same_symbols_for(l1: Seq<ImportModel>, l2: Seq<ImportModel>, k: (Seq<char>, Option<Seq<char>>))
    requires
        forall|x: ImportModel| l1.contains(x) <==> l2.contains(x),
    ensures
        symbols_for(l1, k) == symbols_for(l2, k),
{
    assert forall|y: Seq<char>| symbols_for(l1, k).contains(y) implies symbols_for(l2, k).contains(y) by {
        let j = choose|j: int| 0 <= j < l1.len() && key(l1[j]) == k && l1[j].symbols.contains(y);
        assert(l1.contains(l1[j]));
        let j2 = choose|j2: int| 0 <= j2 < l2.len() && l2[j2] == l1[j];
        assert(0 <= j2 < l2.len() && key(l2[j2]) == k && l2[j2].symbols.contains(y));
    }
    assert forall|y: Seq<char>| symbols_for(l2, k).contains(y) implies symbols_for(l1, k).contains(y) by {
        let j = choose|j: int| 0 <= j < l2.len() && key(l2[j]) == k && l2[j].symbols.contains(y);
        assert(l2.contains(l2[j]));
        let j1 = choose|j1: int| 0 <= j1 < l1.len() && l1[j1] == l2[j];
        assert(0 <= j1 < l1.len() && key(l1[j1]) == k && l1[j1].symbols.contains(y));
    }
    assert(symbols_for(l1, k) =~= symbols_for(l2, k));
}

/// The same imports in any order merge to the same printed imports, in the same order.
pub proof fn law_merge_order_independent(
    l1: Seq<ImportModel>,
    l2: Seq<ImportModel>,
    m1: Seq<ImportModel>,
    m2: Seq<ImportModel>,
)
    requires
        l1.to_multiset() == l2.to_multiset(),
        is_merge_of(m1, l1),
        is_merge_of(m2, l2),
    ensures
        m1.len() == m2.len(),
        forall|i: int|
            0 <= i < m1.len() ==> key(#[trigger] m1[i]) == key(m2[i]) && m1[i].symbols
                == m2[i].symbols && import_text(m1[i]) == import_text(m2[i]),
{
    lemma_same_elements(l1, l2);
    lemma_keys_carry(l1, l2, m1, m2);
    lemma_keys_carry(l2, l1, m2, m1);
    lemma_same_keys(m1, m2);
    lemma_order_independent_all(l1, l2, m1, m2);
}

proof fn lemma_order_independent_all(
    l1: Seq<ImportModel>,
    l2: Seq<ImportModel>,
    m1: Seq<ImportModel>,
    m2: Seq<ImportModel>,
)
    requires
        forall|x: ImportModel| l1.contains(x) <==> l2.contains(x),
        keys(m1) == keys(m2),
        m1.len() == m2.len(),
        merge_symbols(m1, l1),
        merge_symbols(m2, l2),
    ensures
        forall|i: int|
            0 <= i < m1.len() ==> key(#[trigger] m1[i]) == key(m2[i]) && m1[i].symbols
                == m2[i].symbols && import_text(m1[i]) == import_text(m2[i]),
{
    assert forall|i: int| 0 <= i < m1.len() implies key(#[trigger] m1[i]) == key(m2[i]) && m1[i].symbols
        == m2[i].symbols && import_text(m1[i]) == import_text(m2[i]) by {
        assert(keys(m1)[i] == keys(m2)[i]);
        lemma_same_symbols_for(l1, l2, key(m1[i]));
        assert(strictly_sorted(m1[i].symbols));
        assert(strictly_sorted(m2[i].symbols));
        lemma_canonical(m1[i].symbols);
        lemma_canonical(m2[i].symbols);
    }
}

/// An import of one symbol, with no alias.
pub open spec fn single_import(package: Seq<char>, module: Seq<char>, symbol: Seq<char>) -> ImportModel {
    ImportModel { module, symbols: seq![symbol], alias: None, package }
}

/// Appends an import of one symbol from `module` of `package`.
pub fn add_import(package: &str, module: &str, symbol: &str, imports: &mut Vec<PurescriptImport>)
    ensures
        models(final(imports)@) == models(old(imports)@).push(
            single_import(package@, module@, symbol@),
        ),
{
    let i = PurescriptImport::new(module, package).add_specified(symbol);
    imports.push(i);
    assert(i@.symbols =~= seq![symbol@]);
    assert(models(imports@) =~= models(old(imports)@).push(single_import(package@, module@, symbol@)));
}

/// Merging into an import of the same key keeps the merge.
proof fn lemma_merge_found(m: Seq<ImportModel>, l: Seq<ImportModel>, x: ImportModel, p: int, em: ImportModel)
    requires
        is_merge_of(m, l),
        0 <= p < m.len(),
        key(m[p]) == key(x),
        key(em) == key(x),
        em.package == m[p].package,
        strictly_sorted(em.symbols),
        em.symbols.to_set() == m[p].symbols.to_set().union(x.symbols.to_set()),
    ensures
        is_merge_of(m.update(p, em), l.push(x)),
{
    let m2 = m.update(p, em);
    let l2 = l.push(x);
    assert(keys(m2) =~= keys(m));
    assert forall|i: int| 0 <= i < m2.len() implies package_of_first(l2, #[trigger] m2[i]) by {
        let j = choose|j: int| first_with_key(l, key(m[i]), j) && m[i].package == l[j].package;
        assert(package_of_first(l, m[i]));
        assert(l2[j] == l[j]);
        if i == p {
            assert(m2[i] == em);
        } else {
            assert(m2[i] == m[i]);
        }
        assert(key(m2[i]) == key(m[i]));
        assert forall|q: int| 0 <= q < j implies key(#[trigger] l2[q]) != key(m2[i]) by {
            assert(l2[q] == l[q]);
        }
        assert(first_with_key(l2, key(m2[i]), j) && m2[i].package == l2[j].package);
    }
    assert forall|j: int| 0 <= j < l2.len() implies exists|i: int| 0 <= i < m2.len() && key(m2[i]) == key(#[trigger] l2[j]) by {
        if j < l.len() {
            assert(l2[j] == l[j]);
            let i = choose|i: int| 0 <= i < m.len() && key(m[i]) == key(l[j]);
            if i == p {
                assert(m2[i] == em);
            } else {
                assert(m2[i] == m[i]);
            }
            assert(key(m2[i]) == key(l2[j]));
        } else {
            assert(m2[p] == em);
            assert(l2[j] == x);
            assert(key(m2[p]) == key(l2[j]));
        }
    }
    assert forall|i: int| 0 <= i < m2.len() implies strictly_sorted(#[trigger] m2[i].symbols) && m2[i].symbols.to_set()
        == symbols_for(l2, key(m2[i])) by {
        lemma_symbols_for_push(l, x, key(m2[i]));
        assert(strictly_sorted(m[i].symbols));
        if i != p {
            assert(m2[i] == m[i]);
            lemma_merge_keys_unique(m, i, p);
        } else {
            assert(m2[i] == em);
        }
    }
    assert(sorted_by(keys(m2), key_order()));
    assert(merge_packages(m2, l2));
    assert(merge_covers(m2, l2));
    assert(merge_symbols(m2, l2));
}

proof fn lemma_new_key_absent(m: Seq<ImportModel>, l: Seq<ImportModel>, x: ImportModel, p: int)
    requires
        is_merge_of(m, l),
        0 <= p <= m.len(),
        forall|q: int| 0 <= q < p ==> key_lt(key(#[trigger] m[q]), key(x)),
        p < m.len() ==> !key_lt(key(m[p]), key(x)) && key(m[p]) != key(x),
    ensures
        forall|j: int| 0 <= j < l.len() ==> key(#[trigger] l[j]) != key(x),
        p < m.len() ==> key_lt(key(x), key(m[p])),
{
    lemma_key_order();
    let ks = keys(m);
    if p < m.len() {
        assert(key_order()(key(x), key(m[p])) || key_order()(key(m[p]), key(x)));
    }
    assert forall|j: int| 0 <= j < l.len() implies key(#[trigger] l[j]) != key(x) by {
        if key(l[j]) == key(x) {
            let i = choose|i: int| 0 <= i < m.len() && key(m[i]) == key(l[j]);
            if i < p {
                assert(key_lt(key(m[i]), key(x)));
                assert(key_order()(key(x), key(x)));
            } else if i > p {
                assert(ks[p] == key(m[p]));
                assert(ks[i] == key(m[i]));
                assert(key_order()(ks[p], ks[i]));
            }
        }
    }
}

proof fn lemma_new_sorted(m: Seq<ImportModel>, x: ImportModel, p: int, em: ImportModel)
    requires
        sorted_by(keys(m), key_order()),
        0 <= p <= m.len(),
        forall|q: int| 0 <= q < p ==> key_lt(key(#[trigger] m[q]), key(x)),
        p < m.len() ==> key_lt(key(x), key(m[p])),
        key(em) == key(x),
    ensures
        sorted_by(keys(m.insert(p, em)), key_order()),
{
    lemma_key_order();
    let m2 = m.insert(p, em);
    let ks = keys(m);
    let ks2 = keys(m2);
    assert forall|a: int, b: int| 0 <= a < b < ks2.len() implies #[trigger] key_order()(ks2[a], ks2[b]) by {
        if a < p && b == p {
            assert(ks2[a] == key(m[a]));
            assert(key_lt(key(m[a]), key(x)));
        } else if a < p && b > p {
            assert(ks2[a] == ks[a]);
            assert(ks2[b] == ks[b - 1]);
            assert(key_order()(ks[a], ks[p]));
            if p < b - 1 {
                assert(key_order()(ks[p], ks[b - 1]));
            }
        } else if a == p && b > p {
            assert(ks2[b] == ks[b - 1]);
            assert(ks2[a] == key(x));
            assert(key_order()(key(x), ks[p]));
            if b - 1 > p {
                assert(key_order()(ks[p], ks[b - 1]));
            }
        } else if a > p {
            assert(ks2[a] == ks[a - 1]);
            assert(ks2[b] == ks[b - 1]);
            assert(key_order()(ks[a - 1], ks[b - 1]));
        } else {
            assert(ks2[a] == ks[a]);
            assert(ks2[b] == ks[b]);
            assert(key_order()(ks[a], ks[b]));
        }
    }
}

proof fn lemma_new_packages(m: Seq<ImportModel>, l: Seq<ImportModel>, x: ImportModel, p: int, em: ImportModel)
    requires
        merge_packages(m, l),
        0 <= p <= m.len(),
        forall|j: int| 0 <= j < l.len() ==> key(#[trigger] l[j]) != key(x),
        key(em) == key(x),
        em.package == x.package,
    ensures
        merge_packages(m.insert(p, em), l.push(x)),
{
    let m2 = m.insert(p, em);
    let l2 = l.push(x);
    assert forall|i: int| 0 <= i < m2.len() implies package_of_first(l2, #[trigger] m2[i]) by {
        if i == p {
            assert(m2[i] == em);
            assert(l2[l.len() as int] == x);
            assert forall|q: int| 0 <= q < l.len() implies key(#[trigger] l2[q]) != key(m2[i]) by {
                assert(l2[q] == l[q]);
            }
            assert(first_with_key(l2, key(m2[i]), l.len() as int) && m2[i].package == l2[l.len() as int].package);
        } else {
            let i0 = if i < p { i } else { i - 1 };
            assert(m2[i] == m[i0]);
            let j = choose|j: int| first_with_key(l, key(m[i0]), j) && m[i0].package == l[j].package;
            assert(l2[j] == l[j]);
            assert forall|q: int| 0 <= q < j implies key(#[trigger] l2[q]) != key(m2[i]) by {
                assert(l2[q] == l[q]);
            }
            assert(first_with_key(l2, key(m2[i]), j) && m2[i].package == l2[j].package);
        }
    }
}

proof fn lemma_new_covers(m: Seq<ImportModel>, l: Seq<ImportModel>, x: ImportModel, p: int, em: ImportModel)
    requires
        merge_covers(m, l),
        0 <= p <= m.len(),
        key(em) == key(x),
    ensures
        merge_covers(m.insert(p, em), l.push(x)),
{
    let m2 = m.insert(p, em);
    let l2 = l.push(x);
    assert forall|j: int| 0 <= j < l2.len() implies exists|i: int| 0 <= i < m2.len() && key(m2[i]) == key(#[trigger] l2[j]) by {
        if j < l.len() {
            assert(l2[j] == l[j]);
            let i = choose|i: int| 0 <= i < m.len() && key(m[i]) == key(l[j]);
            if i < p {
                assert(m2[i] == m[i]);
            } else {
                assert(m2[i + 1] == m[i]);
            }
        } else {
            assert(m2[p] == em);
            assert(l2[j] == x);
            assert(key(m2[p]) == key(l2[j]));
        }
    }
}

proof fn lemma_new_symbols(m: Seq<ImportModel>, l: Seq<ImportModel>, x: ImportModel, p: int, em: ImportModel)
    requires
        merge_symbols(m, l),
        merge_packages(m, l),
        0 <= p <= m.len(),
        forall|j: int| 0 <= j < l.len() ==> key(#[trigger] l[j]) != key(x),
        key(em) == key(x),
        strictly_sorted(em.symbols),
        em.symbols.to_set() == x.symbols.to_set(),
    ensures
        merge_symbols(m.insert(p, em), l.push(x)),
{
    let m2 = m.insert(p, em);
    let l2 = l.push(x);
    assert forall|i: int| 0 <= i < m2.len() implies strictly_sorted(#[trigger] m2[i].symbols) && m2[i].symbols.to_set()
        == symbols_for(l2, key(m2[i])) by {
        lemma_symbols_for_push(l, x, key(m2[i]));
        if i == p {
            assert(m2[i] == em);
            lemma_symbols_for_empty(l, key(x));
            assert(Set::<Seq<char>>::empty().union(x.symbols.to_set()) =~= x.symbols.to_set());
        } else {
            let i0 = if i < p { i } else { i - 1 };
            assert(m2[i] == m[i0]);
            assert(strictly_sorted(m[i0].symbols));
            if key(m[i0]) == key(x) {
                let j = choose|j: int| first_with_key(l, key(m[i0]), j) && m[i0].package == l[j].package;
                assert(key(l[j]) == key(x));
            }
        }
    }
}

/// Adding an import of a new key at its place in the order keeps the merge.
proof fn lemma_merge_new(m: Seq<ImportModel>, l: Seq<ImportModel>, x: ImportModel, p: int, em: ImportModel)
    requires
        is_merge_of(m, l),
        0 <= p <= m.len(),
        forall|q: int| 0 <= q < p ==> key_lt(key(#[trigger] m[q]), key(x)),
        p < m.len() ==> !key_lt(key(m[p]), key(x)) && key(m[p]) != key(x),
        key(em) == key(x),
        em.package == x.package,
        strictly_sorted(em.symbols),
        em.symbols.to_set() == x.symbols.to_set(),
    ensures
        is_merge_of(m.insert(p, em), l.push(x)),
{
    lemma_new_key_absent(m, l, x, p);
    lemma_new_sorted(m, x, p, em);
    lemma_new_packages(m, l, x, p, em);
    lemma_new_covers(m, l, x, p, em);
    lemma_new_symbols(m, l, x, p, em);
}

} // verus!
