//! The recursive type-expression tree and its pretty-printer.
use vstd::prelude::*;

use crate::outside::{char_is_uppercase, is_upper};
use crate::text::{join, lemma_join_push};

verus! {

/// A type expression of the target language.
pub enum Argument {
    /// A named type applied to type arguments: `Maybe String`.
    Type(String, Vec<Argument>),
    /// A universally quantified type variable applied to arguments: `a`.
    ForAll(String, Vec<Argument>),
    /// A function type.
    Function(Box<PurescriptFunctionType>),
    /// A structural record type.
    Record(PurescriptRecord),
}

/// A function type: parameters and a result.
pub struct PurescriptFunctionType {
    pub arguments: Vec<Argument>,
    pub return_type: Argument,
}

/// One field of a record: its label and its type.
pub struct Field {
    pub name: String,
    pub field_type: Argument,
}

/// A record type with its declared type parameters.
pub struct PurescriptRecord {
    pub name: String,
    pub arguments: Vec<Argument>,
    pub fields: Vec<Field>,
}

/// The text of each argument of a sequence, at the given nesting.
pub open spec fn args_texts(s: Seq<Argument>, top: bool) -> Seq<Seq<char>>
    decreases s,
{
    if s.len() == 0 {
        Seq::empty()
    } else {
        args_texts(s.drop_last(), top).push(s.last().text(top))
    }
}

/// The text of each field of a sequence.
pub open spec fn fields_texts(s: Seq<Field>) -> Seq<Seq<char>>
    decreases s,
{
    if s.len() == 0 {
        Seq::empty()
    } else {
        fields_texts(s.drop_last()).push(s.last().text())
    }
}

impl Argument {
    /// The printed form; `top` is false where the expression is nested in another.
    pub open spec fn text(self, top: bool) -> Seq<char>
        decreases self,
    {
        match self {
            Argument::Type(name, args) => applied_text(name@, args_texts(args@, false), top),
            Argument::ForAll(name, args) => applied_text(name@, args_texts(args@, false), top),
            Argument::Function(f) => if top {
                f.text()
            } else {
                "("@ + f.text() + ")"@
            },
            Argument::Record(r) => r.type_text(),
        }
    }
}

impl Argument {
    /// The type variables that the expression uses, in order of appearance.
    pub open spec fn vars(self) -> Seq<Seq<char>>
        decreases self,
    {
        match self {
            Argument::Type(_, args) => args_vars(args@),
            Argument::ForAll(name, args) => seq![name@] + args_vars(args@),
            Argument::Function(f) => args_vars(f.arguments@) + f.return_type.vars(),
            Argument::Record(r) => fields_vars(r.fields@),
        }
    }

    /// Whether `r` is the expression with `arg` appended to its arguments.
    pub open spec fn applied(self, arg: Argument, r: Argument) -> bool {
        match (self, r) {
            (Argument::Type(n, args), Argument::Type(m, rargs)) => m == n && rargs@ == args@.push(
                arg,
            ),
            (Argument::ForAll(n, args), Argument::ForAll(m, rargs)) => m == n && rargs@
                == args@.push(arg),
            (Argument::Function(f), Argument::Function(g)) => g.arguments@ == f.arguments@.push(
                arg,
            ) && g.return_type == f.return_type,
            _ => false,
        }
    }

    /// Whether more type arguments can be applied to the expression.
    pub open spec fn is_applicable(self) -> bool {
        !(self is Record)
    }
}

/// The type variables of a sequence of expressions, in order.
pub open spec fn args_vars(s: Seq<Argument>) -> Seq<Seq<char>>
    decreases s,
{
    if s.len() == 0 {
        Seq::empty()
    } else {
        args_vars(s.drop_last()) + s.last().vars()
    }
}

/// The type variables of the types of a sequence of fields, in order.
pub open spec fn fields_vars(s: Seq<Field>) -> Seq<Seq<char>>
    decreases s,
{
    if s.len() == 0 {
        Seq::empty()
    } else {
        fields_vars(s.drop_last()) + s.last().field_type.vars()
    }
}

/// A name applied to the texts of its arguments.
pub open spec fn applied_text(name: Seq<char>, args: Seq<Seq<char>>, top: bool) -> Seq<char> {
    if args.len() == 0 {
        name
    } else if top {
        name + " "@ + join(args, " "@)
    } else {
        "("@ + name + " "@ + join(args, " "@) + ")"@
    }
}

impl PurescriptFunctionType {
    /// The printed function type: one parameter on one line, several one per line.
    pub open spec fn text(self) -> Seq<char>
        decreases self,
    {
        if self.arguments.len() == 1 {
            self.arguments[0].text(true) + " -> "@ + self.return_type.text(true)
        } else {
            "\n    "@ + join(args_texts(self.arguments@, true), "\n -> "@) + "\n    -> "@
                + self.return_type.text(true)
        }
    }
}

impl Field {
    /// The printed field: `label :: Type`.
    pub open spec fn text(self) -> Seq<char>
        decreases self,
    {
        label_text(self.name@) + " :: "@ + self.field_type.text(true)
    }
}

/// A record label as printed: quoted where it starts with an upper-case letter.
pub open spec fn label_text(name: Seq<char>) -> Seq<char> {
    if name.len() > 0 && is_upper(name[0]) {
        "\""@ + name + "\""@
    } else {
        name
    }
}

impl PurescriptRecord {
    /// The record as a type expression: `{ a :: A, ... }`.
    pub open spec fn type_text(self) -> Seq<char>
        decreases self,
    {
        let fs = fields_texts(self.fields@);
        if fs.len() == 0 {
            "{}"@
        } else if fs.len() == 1 {
            "{ "@ + fs[0] + " }"@
        } else {
            "{ "@ + join(fs, "\n  , "@) + "\n  }"@
        }
    }
}

pub(crate) proof fn lemma_args_texts_prefix(s: Seq<Argument>, i: int, top: bool)
    requires
        0 <= i < s.len(),
    ensures
        args_texts(s.subrange(0, i + 1), top) == args_texts(s.subrange(0, i), top).push(
            s[i].text(top),
        ),
        args_texts(s.subrange(0, i + 1), top).len() == i + 1,
    decreases i,
{
    assert(s.subrange(0, i + 1).drop_last() =~= s.subrange(0, i));
    if i > 0 {
        lemma_args_texts_prefix(s, i - 1, top);
    }
}

pub(crate) proof fn lemma_fields_texts_prefix(s: Seq<Field>, i: int)
    requires
        0 <= i < s.len(),
    ensures
        fields_texts(s.subrange(0, i + 1)) == fields_texts(s.subrange(0, i)).push(s[i].text()),
        fields_texts(s.subrange(0, i + 1)).len() == i + 1,
    decreases i,
{
    assert(s.subrange(0, i + 1).drop_last() =~= s.subrange(0, i));
    if i > 0 {
        lemma_fields_texts_prefix(s, i - 1);
    }
}

proof fn lemma_args_vars_prefix(s: Seq<Argument>, i: int)
    requires
        0 <= i < s.len(),
    ensures
        args_vars(s.subrange(0, i + 1)) == args_vars(s.subrange(0, i)) + s[i].vars(),
{
    assert(s.subrange(0, i + 1).drop_last() =~= s.subrange(0, i));
}

pub(crate) proof fn lemma_fields_vars_prefix(s: Seq<Field>, i: int)
    requires
        0 <= i < s.len(),
    ensures
        fields_vars(s.subrange(0, i + 1)) == fields_vars(s.subrange(0, i)) + s[i].field_type.vars(),
{
    assert(s.subrange(0, i + 1).drop_last() =~= s.subrange(0, i));
}

/// Appends the type variables of each argument to `out`.
pub(crate) fn push_args_vars(args: &Vec<Argument>, out: &mut Vec<String>)
    ensures
        final(out).deep_view() == old(out).deep_view() + args_vars(args@),
    decreases args, 0int,
{
    let ghost start = out.deep_view();
    let mut i: usize = 0;
    while i < args.len()
        invariant
            i <= args.len(),
            out.deep_view() == start + args_vars(args@.subrange(0, i as int)),
        decreases args.len() - i,
    {
        proof {
            lemma_args_vars_prefix(args@, i as int);
        }
        args[i].push_vars(out);
        assert(out.deep_view() =~= start + args_vars(args@.subrange(0, i as int + 1)));
        i = i + 1;
    }
    assert(args@.subrange(0, args.len() as int) =~= args@);
}

/// Appends the type variables of each field's type to `out`.
fn push_fields_vars(fields: &Vec<Field>, out: &mut Vec<String>)
    ensures
        final(out).deep_view() == old(out).deep_view() + fields_vars(fields@),
    decreases fields, 0int,
{
    let ghost start = out.deep_view();
    let mut i: usize = 0;
    while i < fields.len()
        invariant
            i <= fields.len(),
            out.deep_view() == start + fields_vars(fields@.subrange(0, i as int)),
        decreases fields.len() - i,
    {
        proof {
            lemma_fields_vars_prefix(fields@, i as int);
        }
        fields[i].field_type.push_vars(out);
        assert(out.deep_view() =~= start + fields_vars(fields@.subrange(0, i as int + 1)));
        i = i + 1;
    }
    assert(fields@.subrange(0, fields.len() as int) =~= fields@);
}

impl Argument {
    /// Appends the type variables of the expression to `out`.
    fn push_vars(&self, out: &mut Vec<String>)
        ensures
            final(out).deep_view() == old(out).deep_view() + self.vars(),
        decreases self, 1int,
    {
        match self {
            Argument::Type(_, args) => push_args_vars(args, out),
            Argument::ForAll(name, args) => {
                let ghost start = out.deep_view();
                out.push(name.clone());
                assert(out.deep_view() =~= start + seq![name@]);
                push_args_vars(args, out);
                assert(out.deep_view() =~= start + self.vars());
            },
            Argument::Function(f) => {
                let ghost start = out.deep_view();
                push_args_vars(&f.arguments, out);
                f.return_type.push_vars(out);
                assert(out.deep_view() =~= start + self.vars());
            },
            Argument::Record(r) => push_fields_vars(&r.fields, out),
        }
    }

    /// The names of all type variables in the expression, in order of appearance.
    pub fn get_all_forall_types(&self) -> (r: Vec<String>)
        ensures
            r.deep_view() == self.vars(),
    {
        let mut out: Vec<String> = Vec::new();
        self.push_vars(&mut out);
        assert(out.deep_view() =~= Seq::<Seq<char>>::empty() + self.vars());
        out
    }

    /// A named type with no arguments.
    pub fn new_type(name: &str) -> (r: Argument)
        ensures
            r matches Argument::Type(n, args) && n@ == name@ && args@.len() == 0,
    {
        Argument::Type(name.to_string(), Vec::new())
    }

    /// A type variable with no arguments.
    pub fn new_for_all(name: &str) -> (r: Argument)
        ensures
            r matches Argument::ForAll(n, args) && n@ == name@ && args@.len() == 0,
    {
        Argument::ForAll(name.to_string(), Vec::new())
    }

    /// A record used as a type expression.
    pub fn new_record(record: PurescriptRecord) -> (r: Argument)
        ensures
            r == Argument::Record(record),
    {
        Argument::Record(record)
    }

    /// A function type.
    pub fn new_function(arguments: Vec<Argument>, return_type: Argument) -> (r: Argument)
        ensures
            r matches Argument::Function(f) && f.arguments == arguments && f.return_type
                == return_type,
    {
        Argument::Function(Box::new(PurescriptFunctionType { arguments, return_type }))
    }

    /// The expression with one more argument applied; a record takes none.
    pub fn with_argument(self, arg: Argument) -> (r: Argument)
        requires
            self.is_applicable(),
        ensures
            self.applied(arg, r),
    {
        let mut s = self;
        s.add_argument(arg);
        s
    }

    /// Applies one more argument; a record takes none.
    pub fn add_argument(&mut self, arg: Argument)
        requires
            old(self).is_applicable(),
        ensures
            old(self).applied(arg, *final(self)),
    {
        match self {
            Argument::Type(_, args) => args.push(arg),
            Argument::ForAll(_, args) => args.push(arg),
            Argument::Function(f) => f.arguments.push(arg),
            Argument::Record(_) => {},
        }
    }
}

/// Prints each argument at the given nesting and joins the texts with `sep`.
pub(crate) fn join_args(args: &Vec<Argument>, top: bool, sep: &str) -> (r: String)
    ensures
        r@ == join(args_texts(args@, top), sep@),
    decreases args, 0int,
{
    let mut out = String::new();
    let mut i: usize = 0;
    while i < args.len()
        invariant
            i <= args.len(),
            out@ == join(args_texts(args@.subrange(0, i as int), top), sep@),
        decreases args.len() - i,
    {
        proof {
            lemma_args_texts_prefix(args@, i as int, top);
            lemma_join_push(args_texts(args@.subrange(0, i as int), top), args@[i as int].text(top), sep@);
        }
        if i > 0 {
            out.append(sep);
        }
        let t = args[i].to_string_nestable(top);
        out.append(t.as_str());
        i = i + 1;
    }
    assert(args@.subrange(0, args.len() as int) =~= args@);
    out
}

/// Prints each field and joins the texts with `sep`.
pub(crate) fn join_fields(fields: &Vec<Field>, sep: &str) -> (r: String)
    ensures
        r@ == join(fields_texts(fields@), sep@),
    decreases fields, 0int,
{
    let mut out = String::new();
    let mut i: usize = 0;
    while i < fields.len()
        invariant
            i <= fields.len(),
            out@ == join(fields_texts(fields@.subrange(0, i as int)), sep@),
        decreases fields.len() - i,
    {
        proof {
            lemma_fields_texts_prefix(fields@, i as int);
            lemma_join_push(fields_texts(fields@.subrange(0, i as int)), fields@[i as int].text(), sep@);
        }
        if i > 0 {
            out.append(sep);
        }
        let t = fields[i].show();
        out.append(t.as_str());
        i = i + 1;
    }
    assert(fields@.subrange(0, fields.len() as int) =~= fields@);
    out
}

/// A name applied to arguments, parenthesised when `wrapped`.
fn format_applied(name: &String, args: &Vec<Argument>, wrapped: bool) -> (r: String)
    requires
        args.len() > 0,
    ensures
        r@ == applied_text(name@, args_texts(args@, false), !wrapped),
    decreases args, 1int,
{
    let joined = join_args(args, false, " ");
    proof {
        if args.len() > 0 {
            let k = (args.len() - 1) as int;
            lemma_args_texts_prefix(args@, k, false);
            assert(args@.subrange(0, k + 1) =~= args@);
        }
    }
    let mut out = String::new();
    if wrapped {
        out.append("(");
    }
    out.append(name.as_str());
    out.append(" ");
    out.append(joined.as_str());
    if wrapped {
        out.append(")");
    }
    out
}

/// Prints `name args` at top level.
fn format_args(name: &String, args: &Vec<Argument>) -> (r: String)
    requires
        args.len() > 0,
    ensures
        r@ == applied_text(name@, args_texts(args@, false), true),
    decreases args, 2int,
{
    format_applied(name, args, false)
}

/// Prints `(name args)` for a nested position.
fn format_args_wrapped(name: &String, args: &Vec<Argument>) -> (r: String)
    requires
        args.len() > 0,
    ensures
        r@ == applied_text(name@, args_texts(args@, false), false),
    decreases args, 2int,
{
    format_applied(name, args, true)
}

impl Argument {
    /// Prints the expression as it stands at top level: no outer parentheses.
    pub fn to_string(&self) -> (r: String)
        ensures
            r@ == self.text(true),
    {
        self.to_string_nestable(true)
    }

    /// Prints the expression; nested applications and functions are parenthesised.
    fn to_string_nestable(&self, top: bool) -> (r: String)
        ensures
            r@ == self.text(top),
        decreases self, 3int,
    {
        match self {
            Argument::Type(name, args) | Argument::ForAll(name, args) => {
                if args.len() == 0 {
                    name.clone()
                } else if top {
                    format_args(name, args)
                } else {
                    format_args_wrapped(name, args)
                }
            },
            Argument::Function(f) => {
                let t = f.to_string();
                if top {
                    t
                } else {
                    let mut out = String::new();
                    out.append("(");
                    out.append(t.as_str());
                    out.append(")");
                    out
                }
            },
            Argument::Record(r) => r.to_type_string(),
        }
    }
}

impl PurescriptFunctionType {
    /// Prints the function type; one parameter stays on one line.
    pub fn to_string(&self) -> (r: String)
        ensures
            r@ == self.text(),
        decreases self, 0int,
    {
        let ret = self.return_type.to_string_nestable(true);
        let mut out = String::new();
        if self.arguments.len() == 1 {
            let a = self.arguments[0].to_string_nestable(true);
            out.append(a.as_str());
            out.append(" -> ");
        } else {
            let a = join_args(&self.arguments, true, "\n -> ");
            out.append("\n    ");
            out.append(a.as_str());
            out.append("\n    -> ");
        }
        out.append(ret.as_str());
        out
    }
}

impl Field {
    /// Prints `label :: Type`.
    pub fn show(&self) -> (r: String)
        ensures
            r@ == self.text(),
        decreases self, 0int,
    {
        let t = self.field_type.to_string_nestable(true);
        let mut out = self.show_field();
        out.append(" :: ");
        out.append(t.as_str());
        out
    }
}

impl Field {
    /// The label as printed: quoted where it starts with an upper-case letter.
    pub fn show_field(&self) -> (r: String)
        ensures
            r@ == label_text(self.name@),
    {
        let s = self.name.as_str();
        if s.unicode_len() > 0 && char_is_uppercase(s.get_char(0)) {
            let mut out = String::new();
            out.append("\"");
            out.append(s);
            out.append("\"");
            out
        } else {
            self.name.clone()
        }
    }
}

impl PurescriptRecord {
    /// Prints the record as a type expression.
    pub fn to_type_string(&self) -> (r: String)
        ensures
            r@ == self.type_text(),
        decreases self, 0int,
    {
        let n = self.fields.len();
        let joined = join_fields(&self.fields, "\n  , ");
        proof {
            if n > 0 {
                lemma_fields_texts_prefix(self.fields@, n - 1);
                assert(self.fields@.subrange(0, n as int) =~= self.fields@);
            }
            if n == 1 {
                assert(self.fields@.subrange(0, 0) =~= Seq::<Field>::empty());
            }
        }
        let mut out = String::new();
        if n == 0 {
            out.append("{}");
        } else if n == 1 {
            out.append("{ ");
            out.append(joined.as_str());
            out.append(" }");
        } else {
            out.append("{ ");
            out.append(joined.as_str());
            out.append("\n  }");
        }
        out
    }
}

} // verus!
