//! Declarations: type aliases and newtypes, enums, variant fragments and derived instances.
use vstd::prelude::*;

use crate::error::ModelError;
use crate::expr::Argument;
use crate::record::{all_declared, contains_text};
use crate::text::{join, join_strings, lemma_join_push};

verus! {

/// A type declaration: `type Name a = Body`, or a newtype over the body.
pub struct PurescriptType {
    pub name: String,
    pub arguments: Vec<String>,
    pub value: Argument,
    pub newtype: bool,
}

/// ` a b` for the parameters `a b`; nothing where there are none.
pub open spec fn params_text(params: Seq<Seq<char>>) -> Seq<char> {
    if params.len() == 0 {
        Seq::empty()
    } else {
        " "@ + join(params, " "@)
    }
}

impl PurescriptType {
    /// Every type variable of the body is a parameter of the head.
    pub open spec fn wf(self) -> bool {
        all_declared(self.value.vars(), self.arguments.deep_view())
    }

    /// The printed declaration.
    pub open spec fn text(self) -> Seq<char> {
        let head = self.name@ + params_text(self.arguments.deep_view());
        if self.newtype {
            "newtype "@ + head + " = "@ + self.name@ + "\n  "@ + self.value.text(true)
        } else {
            "type "@ + head + " = "@ + self.value.text(true)
        }
    }

    /// A declaration that is not a newtype; fails where the body uses a type variable that is
    /// not among the parameters.
    pub fn new(name: &str, arguments: Vec<&str>, value: Argument) -> (r: Result<
        PurescriptType,
        ModelError,
    >)
        ensures
            r is Ok <==> all_declared(value.vars(), arguments.deep_view()),
            r matches Ok(t) ==> t.name@ == name@ && t.arguments.deep_view()
                == arguments.deep_view() && t.value == value && !t.newtype && t.wf(),
            r matches Err(e) ==> e matches ModelError::UndeclaredTypeVariable(n) && n@ == name@,
    {
        let mut params: Vec<String> = Vec::new();
        let mut i: usize = 0;
        while i < arguments.len()
            invariant
                i <= arguments.len(),
                params.deep_view() == arguments.deep_view().take(i as int),
            decreases arguments.len() - i,
        {
            let a: &str = arguments[i];
            let ghost before = params.deep_view();
            params.push(String::from_str(a));
            assert(arguments.deep_view()[i as int] == a@);
            assert(params.deep_view() =~= before.push(a@));
            assert(params.deep_view() =~= arguments.deep_view().take(i as int + 1));
            i = i + 1;
        }
        assert(arguments.deep_view().take(arguments.len() as int) =~= arguments.deep_view());
        let t = PurescriptType { name: name.to_string(), arguments: params, value, newtype: false };
        if t.check() {
            Ok(t)
        } else {
            Err(ModelError::UndeclaredTypeVariable(name.to_string()))
        }
    }

    /// Whether every type variable of the body is a parameter.
    fn check(&self) -> (r: bool)
        ensures
            r == self.wf(),
    {
        vars_declared(&self.value, &self.arguments)
    }

    /// Marks the declaration as a newtype, or not.
    pub fn set_newtype(&mut self, newtype: bool)
        ensures
            final(self).newtype == newtype,
            final(self).name == old(self).name,
            final(self).arguments == old(self).arguments,
            final(self).value == old(self).value,
    {
        self.newtype = newtype;
    }

    /// Replaces the body; fails, leaving the declaration as it was, where the new body uses a
    /// type variable that is not among the parameters.
    pub fn set_value(&mut self, value: Argument) -> (r: Result<(), ModelError>)
        ensures
            r is Ok <==> all_declared(value.vars(), old(self).arguments.deep_view()),
            r is Ok ==> final(self).value == value,
            r is Err ==> final(self).value == old(self).value,
            r matches Err(e) ==> e matches ModelError::UndeclaredTypeVariable(n) && n
                == old(self).name,
            final(self).name == old(self).name,
            final(self).arguments == old(self).arguments,
            final(self).newtype == old(self).newtype,
    {
        if vars_declared(&value, &self.arguments) {
            self.value = value;
            Ok(())
        } else {
            Err(ModelError::UndeclaredTypeVariable(self.name.clone()))
        }
    }

    /// Prints the declaration.
    pub fn to_string(&self) -> (r: String)
        ensures
            r@ == self.text(),
    {
        let value = self.value.to_string();
        let mut out = String::new();
        if self.newtype {
            out.append("newtype ");
        } else {
            out.append("type ");
        }
        out.append(self.name.as_str());
        if self.arguments.len() > 0 {
            let params = join_strings(&self.arguments, " ");
            out.append(" ");
            out.append(params.as_str());
        }
        out.append(" = ");
        if self.newtype {
            out.append(self.name.as_str());
            out.append("\n  ");
        }
        out.append(value.as_str());
        out
    }
}

/// Whether every type variable of `value` is among `params`.
fn vars_declared(value: &Argument, params: &Vec<String>) -> (r: bool)
    ensures
        r == all_declared(value.vars(), params.deep_view()),
{
    let used = value.get_all_forall_types();
    let mut i: usize = 0;
    while i < used.len()
        invariant
            i <= used.len(),
            used.deep_view() == value.vars(),
            forall|j: int|
                0 <= j < i ==> params.deep_view().contains(#[trigger] used.deep_view()[j]),
        decreases used.len() - i,
    {
        if !contains_text(params, &used[i]) {
            assert(used.deep_view()[i as int] == used@[i as int]@);
            return false;
        }
        i = i + 1;
    }
    true
}

/// An algebraic data type of nullary constructors.
pub struct Enum {
    pub name: String,
    pub values: Vec<String>,
}

impl Enum {
    /// The printed declaration: `data Name\n  = A\n  | B`.
    pub open spec fn text(self) -> Seq<char> {
        "data "@ + self.name@ + "\n  = "@ + join(self.values.deep_view(), "\n  | "@)
    }

    /// An enum with no constructors yet.
    pub fn new(name: &str) -> (r: Enum)
        ensures
            r.name@ == name@,
            r.values@.len() == 0,
    {
        Enum { name: name.to_string(), values: Vec::new() }
    }

    /// Replaces the constructors.
    pub fn with_values(&mut self, values: &Vec<String>)
        ensures
            final(self).name == old(self).name,
            final(self).values.deep_view() == values.deep_view(),
    {
        self.values = values.clone();
        assert(self.values.deep_view() =~= values.deep_view());
    }

    /// Appends one constructor.
    pub fn add_value(&mut self, value: &str)
        ensures
            final(self).name == old(self).name,
            final(self).values.deep_view() == old(self).values.deep_view().push(value@),
    {
        self.values.push(value.to_string());
        assert(self.values.deep_view() =~= old(self).values.deep_view().push(value@));
    }

    /// Prints the declaration.
    pub fn to_string(&self) -> (r: String)
        ensures
            r@ == self.text(),
    {
        let values = join_strings(&self.values, "\n  | ");
        let mut out = String::new();
        out.append("data ");
        out.append(self.name.as_str());
        out.append("\n  = ");
        out.append(values.as_str());
        out
    }
}

/// An open sum of tags: `type Name = Variant ( "A" :: Unit, ... )`.
pub struct Variant {
    pub name: String,
    pub values: Vec<String>,
}

/// The entries of a variant fragment, one per tag.
pub open spec fn tag_entries(tags: Seq<Seq<char>>) -> Seq<Seq<char>> {
    tags.map_values(|t: Seq<char>| "\""@ + t + "\" :: Unit"@)
}

impl Variant {
    /// The printed fragment.
    pub open spec fn text(self) -> Seq<char> {
        "type "@ + self.name@ + " = Variant\n  ( "@ + join(
            tag_entries(self.values.deep_view()),
            "\n  , "@,
        ) + "\n  )"@
    }

    /// A fragment with no tags yet.
    pub fn new(name: &str) -> (r: Variant)
        ensures
            r.name@ == name@,
            r.values@.len() == 0,
    {
        Variant { name: name.to_string(), values: Vec::new() }
    }

    /// The fragment with the given tags.
    pub fn with_values(self, values: &Vec<String>) -> (r: Variant)
        ensures
            r.name == self.name,
            r.values.deep_view() == values.deep_view(),
    {
        let r = Variant { name: self.name, values: values.clone() };
        assert(r.values.deep_view() =~= values.deep_view());
        r
    }

    /// Prints the fragment.
    pub fn to_string(&self) -> (r: String)
        ensures
            r@ == self.text(),
    {
        let ghost tags = self.values.deep_view();
        let mut entries = String::new();
        let mut i: usize = 0;
        while i < self.values.len()
            invariant
                i <= self.values.len(),
                tags == self.values.deep_view(),
                entries@ == join(tag_entries(tags).take(i as int), "\n  , "@),
            decreases self.values.len() - i,
        {
            proof {
                lemma_join_push(tag_entries(tags).take(i as int), tag_entries(tags)[i as int], "\n  , "@);
                assert(tag_entries(tags).take(i as int + 1) =~= tag_entries(tags).take(i as int).push(
                    tag_entries(tags)[i as int],
                ));
            }
            if i > 0 {
                entries.append("\n  , ");
            }
            entries.append("\"");
            entries.append(self.values[i].as_str());
            entries.append("\" :: Unit");
            i = i + 1;
        }
        assert(tag_entries(tags).take(self.values.len() as int) =~= tag_entries(tags));
        let mut out = String::new();
        out.append("type ");
        out.append(self.name.as_str());
        out.append(" = Variant\n  ( ");
        out.append(entries.as_str());
        out.append("\n  )");
        out
    }
}

/// A derived instance: `derive instance Class Type args`.
pub struct DeriveInstance {
    pub class: String,
    pub for_type: String,
    pub arguments: Vec<String>,
}

impl DeriveInstance {
    /// The printed declaration.
    pub open spec fn text(self) -> Seq<char> {
        "derive instance "@ + self.class@ + " "@ + self.for_type@ + params_text(
            self.arguments.deep_view(),
        )
    }

    /// An instance of `class` for the type `name`, with no further arguments.
    pub fn new(name: &str, class: &str) -> (r: DeriveInstance)
        ensures
            r.class@ == class@,
            r.for_type@ == name@,
            r.arguments@.len() == 0,
    {
        DeriveInstance { class: class.to_string(), for_type: name.to_string(), arguments: Vec::new() }
    }

    /// The instance with one more argument.
    pub fn with_argument(self, arg: &str) -> (r: DeriveInstance)
        ensures
            r.class == self.class,
            r.for_type == self.for_type,
            r.arguments.deep_view() == self.arguments.deep_view().push(arg@),
    {
        let mut arguments = self.arguments;
        arguments.push(arg.to_string());
        let r = DeriveInstance { class: self.class, for_type: self.for_type, arguments };
        assert(r.arguments.deep_view() =~= self.arguments.deep_view().push(arg@));
        r
    }

    /// Prints the declaration.
    pub fn to_string(&self) -> (r: String)
        ensures
            r@ == self.text(),
    {
        let mut out = String::new();
        out.append("derive instance ");
        out.append(self.class.as_str());
        out.append(" ");
        out.append(self.for_type.as_str());
        if self.arguments.len() > 0 {
            let args = join_strings(&self.arguments, " ");
            out.append(" ");
            out.append(args.as_str());
        }
        out
    }
}

/// `derive instance Newtype Name _`.
pub fn derive_new_type_instance(for_type: &str) -> (r: DeriveInstance)
    ensures
        r.class@ == "Newtype"@,
        r.for_type@ == for_type@,
        r.arguments.deep_view() == seq!["_"@],
{
    let r = DeriveInstance::new(for_type, "Newtype").with_argument("_");
    assert(r.arguments.deep_view() =~= seq!["_"@]);
    r
}

} // verus!
