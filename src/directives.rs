//! The module of a role's directives: their types and the functions that apply them.
use vstd::prelude::*;

use crate::decl::PurescriptType;
use crate::error::ModelError;
use crate::expr::{args_vars, fields_vars, Argument, PurescriptRecord};
use crate::import::PurescriptImport;
use crate::record::has_label;
use crate::schema::{
    lemma_leaf_vars, lemma_record_vars, lemma_wrapped_vars, unique_values, InputValue,
};
use crate::wrapping::{argument_layers, wrap_type, wrapped_in};

verus! {

/// Where a directive may be used.
#[derive(Clone, Copy, Debug, PartialEq, Eq, Structural)]
pub enum DirectiveLocation {
    Query,
    Mutation,
    Subscription,
    Other,
}

/// A directive of the schema.
pub struct Directive {
    pub name: String,
    pub description: Option<String>,
    pub args: Vec<InputValue>,
    pub locations: Vec<DirectiveLocation>,
}

/// Whether a directive may be used on an operation.
pub open spec fn is_allowed(l: DirectiveLocation) -> bool {
    l == DirectiveLocation::Query || l == DirectiveLocation::Mutation || l
        == DirectiveLocation::Subscription
}

/// Whether a directive may be used on an operation.
pub fn is_allowed_location(location: &DirectiveLocation) -> (r: bool)
    ensures
        r == is_allowed(*location),
{
    match location {
        DirectiveLocation::Other => false,
        _ => true,
    }
}

/// The function that applies a directive.
pub open spec fn directive_function(name: Seq<char>) -> Seq<char> {
    "\n"@ + name + " :: forall q args. args -> q -> ApplyDirective \""@ + name + "\" args q\n"@ + name
        + " = applyDir (Proxy :: _ \""@ + name + "\")\n"@
}

/// The functions of a sequence of directives, in order.
pub open spec fn directive_functions(ds: Seq<Directive>) -> Seq<char>
    decreases ds.len(),
{
    if ds.len() == 0 {
        Seq::empty()
    } else {
        directive_functions(ds.drop_last()) + directive_function(ds.last().name@)
    }
}

/// The imports of a directives module.
pub open spec fn directive_imports() -> Seq<char> {
    "\nimport GraphQL.Client.Args (NotNull)\nimport GraphQL.Client.Directive (ApplyDirective, applyDir)\nimport GraphQL.Client.Directive.Definition (Directive)\nimport GraphQL.Client.Directive.Location (QUERY)\nimport Type.Data.List (type (:>), List', Nil')\nimport Type.Proxy (Proxy(..))\n\n"@
}

/// The type-level name of the first location of a directive.
pub open spec fn location_name(l: DirectiveLocation) -> Seq<char> {
    match l {
        DirectiveLocation::Mutation => "MUTATION"@,
        DirectiveLocation::Subscription => "SUBSCRIPTION"@,
        _ => "QUERY"@,
    }
}

/// The description of a directive as it is quoted in its type.
pub open spec fn description_text(d: Directive) -> Seq<char> {
    match d.description {
        Some(s) => s@,
        None => "\"\""@,
    }
}

/// Whether some location of the directive allows operations.
pub open spec fn any_allowed(ls: Seq<DirectiveLocation>) -> bool {
    exists|i: int| 0 <= i < ls.len() && is_allowed(ls[i])
}

/// Whether `a` is the named type `name` with no arguments.
pub open spec fn named_leaf(a: Argument, name: Seq<char>) -> bool {
    a matches Argument::Type(n, args) && n@ == name && args@.len() == 0
}

/// Whether `r` is the named type `name` inside one single-argument constructor per layer.
pub open spec fn wraps_named(r: Argument, name: Seq<char>, layers: Seq<Seq<char>>) -> bool
    decreases layers.len(),
{
    if layers.len() == 0 {
        named_leaf(r, name)
    } else {
        match r {
            Argument::Type(n, args) => n@ == layers.last() && args@.len() == 1 && wraps_named(
                args@[0],
                name,
                layers.drop_last(),
            ),
            _ => false,
        }
    }
}

proof fn lemma_wraps_named(r: Argument, base: Argument, name: Seq<char>, layers: Seq<Seq<char>>)
    requires
        wrapped_in(r, base, layers),
        named_leaf(base, name),
    ensures
        wraps_named(r, name, layers),
    decreases layers.len(),
{
    if layers.len() > 0 {
        lemma_wraps_named(r->Type_1@[0], base, name, layers.drop_last());
    }
}

/// Whether `v` is the type of directive `d`: its quoted name and description, the record of
/// its arguments, and the type-level list of its first location.
pub open spec fn directive_value_ok(v: Argument, d: Directive) -> bool {
    v matches Argument::Type(n, args) && n@ == "Directive"@ && args@.len() == 4 && named_leaf(
        args@[0],
        "\""@ + d.name@ + "\""@,
    ) && named_leaf(args@[1], "\""@ + description_text(d) + "\""@) && (args@[2] matches Argument::Record(
        rec,
    ) && rec.fields@.len() == d.args@.len() && forall|k: int|
        0 <= k < rec.fields@.len() ==> (#[trigger] rec.fields@[k]).name@ == d.args@[k].name@
            && wraps_named(
            rec.fields@[k].field_type,
            d.args@[k].ty.name@,
            argument_layers(d.args@[k].ty.wrapping@),
        )) && named_leaf(args@[3], "("@ + location_name(d.locations@[0]) + " :> Nil') :> Nil'"@)
}

proof fn lemma_args_vars_empty(s: Seq<Argument>)
    requires
        forall|k: int| 0 <= k < s.len() ==> (#[trigger] s[k]).vars().len() == 0,
    ensures
        args_vars(s).len() == 0,
    decreases s.len(),
{
    if s.len() > 0 {
        lemma_args_vars_empty(s.drop_last());
        assert(s[s.len() - 1].vars().len() == 0);
    }
}

/// The type of one directive: `Directive "name" "description" { args } locations`. Fails where
/// two arguments share a name.
fn directive_type(d: &Directive) -> (r: Result<PurescriptType, ModelError>)
    requires
        d.locations.len() > 0,
    ensures
        unique_values(d.args@) <==> r is Ok,
        r matches Ok(t) ==> t.name@ == "Directives"@ && !t.newtype && t.arguments@.len() == 0
            && directive_value_ok(t.value, *d),
{
    let description = match &d.description {
        Some(s) => s.clone(),
        None => "\"\"".to_string(),
    };
    let mut quoted_name = String::new();
    quoted_name.append("\"");
    quoted_name.append(d.name.as_str());
    quoted_name.append("\"");
    let mut quoted_description = String::new();
    quoted_description.append("\"");
    quoted_description.append(description.as_str());
    quoted_description.append("\"");
    let a0 = Argument::new_type(quoted_name.as_str());
    let a1 = Argument::new_type(quoted_description.as_str());
    let ghost g0 = a0;
    let ghost g1 = a1;
    let mut args = PurescriptRecord::new("Arguments");
    let mut unused: Vec<PurescriptImport> = Vec::new();
    let mut i: usize = 0;
    while i < d.args.len()
        invariant
            i <= d.args.len(),
            unique_values(d.args@.take(i as int)),
            args.arguments@.len() == 0,
            args.fields@.len() == i,
            forall|k: int| 0 <= k < i ==> (#[trigger] args.fields@[k]).name@ == d.args@[k].name@
                && args.fields@[k].field_type.vars().len() == 0 && wraps_named(
                args.fields@[k].field_type,
                d.args@[k].ty.name@,
                argument_layers(d.args@[k].ty.wrapping@),
            ),
        decreases d.args.len() - i,
    {
        let arg = &d.args[i];
        let base = Argument::new_type(arg.ty.name.as_str());
        proof {
            lemma_leaf_vars(base);
        }
        let arg_type = wrap_type(base, &arg.ty.wrapping, &mut unused);
        proof {
            lemma_wrapped_vars(arg_type, base, argument_layers(arg.ty.wrapping@));
            lemma_wraps_named(arg_type, base, arg.ty.name@, argument_layers(arg.ty.wrapping@));
            if has_label(args.fields@, arg.name@) {
                let k = choose|k: int| 0 <= k < args.fields@.len() && args.fields@[k].name@ == arg.name@;
                assert(d.args@[k].name@ == d.args@[i as int].name@);
                assert(!unique_values(d.args@));
            }
        }
        let ghost before = args.fields@;
        args.add_plain_field(arg.name.as_str(), arg_type)?;
        proof {
            assert forall|k: int| 0 <= k < i + 1 implies (#[trigger] args.fields@[k]).name@ == d.args@[k].name@
                && args.fields@[k].field_type.vars().len() == 0 && wraps_named(
                args.fields@[k].field_type,
                d.args@[k].ty.name@,
                argument_layers(d.args@[k].ty.wrapping@),
            ) by {
                if k < i {
                    assert(args.fields@[k] == before[k]);
                }
            }
            assert forall|a: int, b: int| #![trigger d.args@.take(i as int + 1)[a], d.args@.take(i as int + 1)[b]] 0 <= a < b < i + 1 implies d.args@.take(i as int + 1)[a].name@
                != d.args@.take(i as int + 1)[b].name@ by {
                if b == i {
                    if d.args@[a].name@ == d.args@[b].name@ {
                        assert(before[a].name@ == arg.name@);
                    }
                } else {
                    assert(d.args@.take(i as int)[a] == d.args@[a]);
                    assert(d.args@.take(i as int)[b] == d.args@[b]);
                }
            }
        }
        i = i + 1;
    }
    assert(d.args@.take(d.args@.len() as int) =~= d.args@);
    let location = match d.locations[0] {
        DirectiveLocation::Mutation => "MUTATION",
        DirectiveLocation::Subscription => "SUBSCRIPTION",
        _ => "QUERY",
    };
    let mut list = String::new();
    list.append("(");
    list.append(location);
    list.append(" :> Nil') :> Nil'");
    let a3 = Argument::new_type(list.as_str());
    let ghost g3 = a3;
    let ghost rec = args;
    let mut parts: Vec<Argument> = Vec::new();
    parts.push(a0);
    parts.push(a1);
    parts.push(Argument::new_record(args));
    parts.push(a3);
    let argument = Argument::Type("Directive".to_string(), parts);
    proof {
        assert(parts@ =~= seq![g0, g1, Argument::Record(rec), g3]);
        lemma_leaf_vars(g0);
        lemma_leaf_vars(g1);
        lemma_leaf_vars(g3);
        lemma_record_vars(rec.fields@);
        assert(Argument::Record(rec).vars() == fields_vars(rec.fields@));
        assert forall|k: int| 0 <= k < parts@.len() implies (#[trigger] parts@[k]).vars().len() == 0 by {
            if k == 2 {
                assert(parts@[2] == Argument::Record(rec));
            }
        }
        lemma_args_vars_empty(parts@);
        assert(argument.vars().len() == 0);
        assert(directive_value_ok(argument, *d));
    }
    let params: Vec<&str> = Vec::new();
    proof {
        assert(params.deep_view() =~= Seq::<Seq<char>>::empty());
    }
    PurescriptType::new("Directives", params, argument)
}

/// The directives that may be used on operations, in order.
pub open spec fn allowed_directives(ds: Seq<Directive>) -> Seq<Directive> {
    ds.filter(|d: Directive| any_allowed(d.locations@))
}

/// The type declarations of the allowed directives, each under its kind signature.
pub open spec fn directive_types_text(ts: Seq<PurescriptType>) -> Seq<char>
    decreases ts.len(),
{
    if ts.len() == 0 {
        Seq::empty()
    } else {
        directive_types_text(ts.drop_last()) + "type Directives :: List' Type\n"@ + ts.last().text()
    }
}

/// Whether `ts` are the types of the directives `ds`, one each.
pub open spec fn directive_types_ok(ts: Seq<PurescriptType>, ds: Seq<Directive>) -> bool {
    ts.len() == ds.len() && forall|k: int|
        0 <= k < ts.len() ==> (#[trigger] ts[k]).name@ == "Directives"@ && !ts[k].newtype
            && ts[k].arguments@.len() == 0 && directive_value_ok(ts[k].value, ds[k])
}

/// The directives module of a role: a `Directives` type for each directive allowed on
/// operations, then a function applying each directive. Fails where such a directive has two
/// arguments of one name.
pub fn build_directives(role: &str, directives: &Vec<Directive>) -> (r: Result<String, ModelError>)
    ensures
        r is Ok <==> forall|k: int|
            0 <= k < directives@.len() && any_allowed(directives@[k].locations@) ==> unique_values(
                #[trigger] directives@[k].args@,
            ),
        r matches Ok(t) ==> exists|ts: Seq<PurescriptType>|
            directive_types_ok(ts, allowed_directives(directives@)) && t@ == "module "@ + role@
                + ".Directives where \n"@ + directive_imports() + directive_types_text(ts) + "\n"@
                + directive_functions(directives@),
{
    let mut types = String::new();
    let mut functions = String::new();
    let ghost mut ts: Seq<PurescriptType> = Seq::empty();
    let mut i: usize = 0;
    while i < directives.len()
        invariant
            i <= directives.len(),
            functions@ == directive_functions(directives@.take(i as int)),
            types@ == directive_types_text(ts),
            directive_types_ok(ts, allowed_directives(directives@.take(i as int))),
            forall|k: int|
                0 <= k < i && any_allowed(directives@[k].locations@) ==> unique_values(
                    #[trigger] directives@[k].args@,
                ),
        decreases directives.len() - i,
    {
        let d = &directives[i];
        let mut allowed = false;
        let mut k: usize = 0;
        while k < d.locations.len()
            invariant
                k <= d.locations.len(),
                allowed <==> exists|j: int| 0 <= j < k && is_allowed(d.locations@[j]),
            decreases d.locations.len() - k,
        {
            if is_allowed_location(&d.locations[k]) {
                allowed = true;
            }
            k = k + 1;
        }
        assert(allowed == any_allowed(d.locations@));
        let ghost prefix = directives@.take(i as int);
        let ghost next = directives@.take(i as int + 1);
        proof {
            reveal(Seq::filter);
            assert(next.drop_last() =~= prefix);
            assert(next.last() == *d);
        }
        if allowed {
            let t = match directive_type(d) {
                Ok(t) => t,
                Err(e) => {
                    proof {
                        assert(any_allowed(directives@[i as int].locations@) && !unique_values(directives@[i as int].args@));
                    }
                    return Err(e);
                },
            };
            types.append("type Directives :: List' Type\n");
            types.append(t.to_string().as_str());
            proof {
                let ts2 = ts.push(t);
                assert(ts2.drop_last() =~= ts);
                assert(allowed_directives(next) == allowed_directives(prefix).push(*d));
                assert(directive_types_ok(ts2, allowed_directives(next)));
                ts = ts2;
            }
        } else {
            proof {
                assert(allowed_directives(next) == allowed_directives(prefix));
            }
        }
        functions.append("\n");
        functions.append(d.name.as_str());
        functions.append(" :: forall q args. args -> q -> ApplyDirective \"");
        functions.append(d.name.as_str());
        functions.append("\" args q\n");
        functions.append(d.name.as_str());
        functions.append(" = applyDir (Proxy :: _ \"");
        functions.append(d.name.as_str());
        functions.append("\")\n");
        i = i + 1;
    }
    assert(directives@.take(directives.len() as int) =~= directives@);
    let mut out = String::new();
    out.append("module ");
    out.append(role);
    out.append(".Directives where \n");
    out.append("\nimport GraphQL.Client.Args (NotNull)\nimport GraphQL.Client.Directive (ApplyDirective, applyDir)\nimport GraphQL.Client.Directive.Definition (Directive)\nimport GraphQL.Client.Directive.Location (QUERY)\nimport Type.Data.List (type (:>), List', Nil')\nimport Type.Proxy (Proxy(..))\n\n");
    out.append(types.as_str());
    out.append("\n");
    out.append(functions.as_str());
    assert(out@ == "module "@ + role@ + ".Directives where \n"@ + directive_imports() + directive_types_text(ts)
        + "\n"@ + directive_functions(directives@));
    Ok(out)
}

} // verus!
