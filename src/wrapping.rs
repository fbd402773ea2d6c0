//! GraphQL list and non-null modifiers turned into wrapper types.
use vstd::prelude::*;

use crate::expr::Argument;
use crate::import::{add_import, models, single_import, ImportModel, PurescriptImport};

verus! {

/// One GraphQL type modifier.
#[derive(Clone, Copy, Debug, PartialEq, Eq, Structural)]
pub enum WrappingType {
    List,
    NonNull,
}

/// Whether `r` is `base` inside one single-argument constructor per layer, the last layer
/// outermost.
pub open spec fn wrapped_in(r: Argument, base: Argument, layers: Seq<Seq<char>>) -> bool
    decreases layers.len(),
{
    if layers.len() == 0 {
        r == base
    } else {
        match r {
            Argument::Type(name, args) => name@ == layers.last() && args@.len() == 1 && wrapped_in(
                args@[0],
                base,
                layers.drop_last(),
            ),
            _ => false,
        }
    }
}

/// The layers built so far in return position, and whether the type so far is non-null,
/// after the modifiers `s`, innermost first.
pub open spec fn return_state(s: Seq<WrappingType>) -> (Seq<Seq<char>>, bool)
    decreases s.len(),
{
    if s.len() == 0 {
        (Seq::empty(), false)
    } else {
        let (layers, non_null) = return_state(s.drop_last());
        match s.last() {
            WrappingType::NonNull => (layers, true),
            WrappingType::List => (
                if non_null {
                    layers.push("Array"@)
                } else {
                    layers.push("Maybe"@).push("Array"@)
                },
                false,
            ),
        }
    }
}

/// The wrapper layers of a return type: a `Maybe` wherever no `NonNull` guards a layer.
pub open spec fn return_layers(s: Seq<WrappingType>) -> Seq<Seq<char>> {
    let (layers, non_null) = return_state(s);
    if non_null {
        layers
    } else {
        layers.push("Maybe"@)
    }
}

/// The wrapper layers of an argument type: `NotNull` and `Array`, one per modifier.
pub open spec fn argument_layers(s: Seq<WrappingType>) -> Seq<Seq<char>> {
    s.map_values(
        |w: WrappingType|
            match w {
                WrappingType::NonNull => "NotNull"@,
                WrappingType::List => "Array"@,
            },
    )
}

/// The number of `Maybe` layers.
pub open spec fn maybe_count(layers: Seq<Seq<char>>) -> nat {
    layers.filter(|l: Seq<char>| l == "Maybe"@).len()
}

/// The number of `NonNull` modifiers.
pub open spec fn non_null_count(s: Seq<WrappingType>) -> nat {
    s.filter(|w: WrappingType| w == WrappingType::NonNull).len()
}

/// `n` copies of `x`.
pub open spec fn copies(x: ImportModel, n: nat) -> Seq<ImportModel> {
    Seq::new(n, |_i: int| x)
}

proof fn lemma_copies_push(x: ImportModel, n: nat)
    ensures
        copies(x, n).push(x) == copies(x, n + 1),
{
    assert(copies(x, n).push(x) =~= copies(x, n + 1));
}

/// The import that each `Maybe` layer needs.
pub open spec fn maybe_import() -> ImportModel {
    single_import("maybe"@, "Data.Maybe"@, "Maybe"@)
}

/// The import that each `NotNull` layer needs.
pub open spec fn not_null_import() -> ImportModel {
    single_import("graphql-client"@, "GraphQL.Client.Args"@, "NotNull"@)
}

/// `name` applied to one argument.
fn apply1(name: &str, arg: Argument) -> (r: Argument)
    ensures
        r matches Argument::Type(n, args) && n@ == name@ && args@ == seq![arg],
{
    let mut args: Vec<Argument> = Vec::new();
    args.push(arg);
    assert(args@ =~= seq![arg]);
    Argument::Type(name.to_string(), args)
}

proof fn lemma_wrapped_push(r: Argument, base: Argument, layers: Seq<Seq<char>>, name: Seq<char>, w: Argument)
    requires
        wrapped_in(r, base, layers),
        w matches Argument::Type(n, args) && n@ == name && args@ == seq![r],
    ensures
        wrapped_in(w, base, layers.push(name)),
{
    assert(layers.push(name).drop_last() =~= layers);
}

proof fn lemma_filter_push<T>(s: Seq<T>, x: T, f: spec_fn(T) -> bool)
    ensures
        s.push(x).filter(f).len() == s.filter(f).len() + if f(x) { 1int } else { 0int },
{
    reveal(Seq::filter);
    assert(s.push(x).drop_last() =~= s);
}

/// Wraps a return type in `Maybe` and `Array` layers after its modifiers, innermost first:
/// a layer not guarded by `NonNull` becomes optional. Each `Maybe` brings its import.
pub fn return_type_wrapper(
    return_type: Argument,
    wrapping: &Vec<WrappingType>,
    imports: &mut Vec<PurescriptImport>,
) -> (r: Argument)
    ensures
        wrapped_in(r, return_type, return_layers(wrapping@)),
        models(final(imports)@) == models(old(imports)@) + copies(
            maybe_import(),
            maybe_count(return_layers(wrapping@)),
        ),
{
    let ghost base = return_type;
    let ghost start = models(imports@);
    let mut cur = return_type;
    let mut non_null = false;
    let mut i: usize = 0;
    while i < wrapping.len()
        invariant
            i <= wrapping.len(),
            return_state(wrapping@.take(i as int)) == (return_state(wrapping@.take(i as int)).0, non_null),
            wrapped_in(cur, base, return_state(wrapping@.take(i as int)).0),
            models(imports@) == start + copies(
                maybe_import(),
                maybe_count(return_state(wrapping@.take(i as int)).0),
            ),
        decreases wrapping.len() - i,
    {
        let ghost prev = return_state(wrapping@.take(i as int)).0;
        let ghost before = models(imports@);
        assert(wrapping@.take(i as int + 1).drop_last() =~= wrapping@.take(i as int));
        match wrapping[i] {
            WrappingType::NonNull => {
                non_null = true;
            },
            WrappingType::List => {
                if !non_null {
                    add_import("maybe", "Data.Maybe", "Maybe", imports);
                    proof {
                        lemma_copies_push(maybe_import(), maybe_count(prev));
                        assert(start + copies(maybe_import(), maybe_count(prev)).push(maybe_import()) =~= (start + copies(maybe_import(), maybe_count(prev))).push(maybe_import()));
                    }
                    let w = apply1("Maybe", cur);
                    proof {
                        lemma_wrapped_push(cur, base, prev, "Maybe"@, w);
                        lemma_filter_push(prev, "Maybe"@, |l: Seq<char>| l == "Maybe"@);
                    }
                    cur = w;
                }
                let w = apply1("Array", cur);
                proof {
                    let mid = if non_null { prev } else { prev.push("Maybe"@) };
                    reveal_strlit("Array");
                    reveal_strlit("Maybe");
                    assert("Array"@ != "Maybe"@) by {
                        assert("Array"@[0] != "Maybe"@[0]);
                    }
                    lemma_wrapped_push(cur, base, mid, "Array"@, w);
                    lemma_filter_push(mid, "Array"@, |l: Seq<char>| l == "Maybe"@);
                }
                cur = w;
                non_null = false;
            },
        }
        i = i + 1;
    }
    assert(wrapping@.take(wrapping.len() as int) =~= wrapping@);
    let ghost layers = return_state(wrapping@).0;
    let ghost before = models(imports@);
    if !non_null {
        add_import("maybe", "Data.Maybe", "Maybe", imports);
        proof {
            lemma_copies_push(maybe_import(), maybe_count(layers));
            assert(start + copies(maybe_import(), maybe_count(layers)).push(maybe_import()) =~= (start + copies(maybe_import(), maybe_count(layers))).push(maybe_import()));
        }
        let w = apply1("Maybe", cur);
        proof {
            lemma_wrapped_push(cur, base, layers, "Maybe"@, w);
            lemma_filter_push(layers, "Maybe"@, |l: Seq<char>| l == "Maybe"@);
        }
        cur = w;
    }
    cur
}

/// Wraps an argument type in `NotNull` and `Array` layers, one per modifier, innermost first.
/// Each `NotNull` brings its import.
pub fn wrap_type(argument: Argument, wrapping: &Vec<WrappingType>, imports: &mut Vec<PurescriptImport>) -> (r: Argument)
    ensures
        wrapped_in(r, argument, argument_layers(wrapping@)),
        models(final(imports)@) == models(old(imports)@) + copies(
            not_null_import(),
            non_null_count(wrapping@),
        ),
{
    let ghost base = argument;
    let ghost start = models(imports@);
    let mut cur = argument;
    let mut i: usize = 0;
    while i < wrapping.len()
        invariant
            i <= wrapping.len(),
            wrapped_in(cur, base, argument_layers(wrapping@.take(i as int))),
            models(imports@) == start + copies(
                not_null_import(),
                non_null_count(wrapping@.take(i as int)),
            ),
        decreases wrapping.len() - i,
    {
        let ghost prev = wrapping@.take(i as int);
        assert(wrapping@.take(i as int + 1) =~= prev.push(wrapping@[i as int]));
        assert(argument_layers(prev.push(wrapping@[i as int])) =~= argument_layers(prev).push(
            argument_layers(wrapping@.take(i as int + 1)).last(),
        ));
        proof {
            lemma_filter_push(prev, wrapping@[i as int], |w: WrappingType| w == WrappingType::NonNull);
        }
        match wrapping[i] {
            WrappingType::NonNull => {
                add_import("graphql-client", "GraphQL.Client.Args", "NotNull", imports);
                proof {
                    lemma_copies_push(not_null_import(), non_null_count(prev));
                    assert(start + copies(not_null_import(), non_null_count(prev)).push(not_null_import()) =~= (start + copies(not_null_import(), non_null_count(prev))).push(not_null_import()));
                }
                let w = apply1("NotNull", cur);
                proof {
                    lemma_wrapped_push(cur, base, argument_layers(prev), "NotNull"@, w);
                }
                cur = w;
            },
            WrappingType::List => {
                let w = apply1("Array", cur);
                proof {
                    lemma_wrapped_push(cur, base, argument_layers(prev), "Array"@, w);
                }
                cur = w;
            },
        }
        i = i + 1;
    }
    assert(wrapping@.take(wrapping.len() as int) =~= wrapping@);
    cur
}

} // verus!
