//! Records: fields with unique labels over declared type variables.
use vstd::prelude::*;

use crate::error::ModelError;
use crate::text::join;
use crate::expr::{
    args_vars, args_texts, fields_texts, fields_vars, join_args, join_fields,
    lemma_fields_texts_prefix, push_args_vars, Argument, Field, PurescriptRecord,
};

verus! {

/// Whether some field of `fields` has the label `name`.
pub open spec fn has_label(fields: Seq<Field>, name: Seq<char>) -> bool {
    exists|i: int| 0 <= i < fields.len() && fields[i].name@ == name
}

/// Whether no two fields share a label.
pub open spec fn unique_labels(fields: Seq<Field>) -> bool {
    forall|i: int, j: int| 0 <= i < j < fields.len() ==> fields[i].name@ != fields[j].name@
}

/// Whether every variable of `used` is among `declared`.
pub open spec fn all_declared(used: Seq<Seq<char>>, declared: Seq<Seq<char>>) -> bool {
    forall|i: int| 0 <= i < used.len() ==> declared.contains(#[trigger] used[i])
}

/// Whether another field of the batch than the `k`-th has its label.
pub open spec fn repeated_in(batch: Seq<Field>, k: int) -> bool {
    exists|j: int| 0 <= j < batch.len() && j != k && batch[j].name@ == batch[k].name@
}

impl PurescriptRecord {
    /// The type variables that the record's head declares.
    pub open spec fn declared(self) -> Seq<Seq<char>> {
        args_vars(self.arguments@)
    }

    /// Labels are unique and every field's type variables are declared.
    pub open spec fn wf(self) -> bool {
        &&& unique_labels(self.fields@)
        &&& all_declared(fields_vars(self.fields@), self.declared())
    }

    /// What is wrong with the `k`-th field of a batch to be added, if anything.
    pub open spec fn field_problem(self, batch: Seq<Field>, k: int) -> Option<ModelError> {
        if has_label(self.fields@, batch[k].name@) {
            Some(ModelError::DuplicateField(batch[k].name))
        } else if repeated_in(batch, k) {
            Some(ModelError::RepeatedField(batch[k].name))
        } else if !all_declared(batch[k].field_type.vars(), self.declared()) {
            Some(ModelError::UndeclaredTypeVariable(batch[k].name))
        } else {
            None
        }
    }

    /// The problem of the first field from the `k`-th on that has one.
    pub open spec fn first_problem(self, batch: Seq<Field>, k: int) -> Option<ModelError>
        decreases batch.len() - k,
    {
        if k < 0 || k >= batch.len() {
            None
        } else if self.field_problem(batch, k) is Some {
            self.field_problem(batch, k)
        } else {
            self.first_problem(batch, k + 1)
        }
    }

    /// The record printed as a type declaration.
    pub open spec fn text(self) -> Seq<char> {
        let a = join(args_texts(self.arguments@, true), " "@);
        let head = "type "@ + self.name@ + if a.len() == 0 {
            Seq::empty()
        } else {
            " "@ + a
        };
        let fs = fields_texts(self.fields@);
        if fs.len() == 0 {
            head + " = {}"@
        } else if fs.len() == 1 {
            head + " = { "@ + fs[0] + " }"@
        } else {
            head + " =\n  { "@ + join(fs, "\n  , "@) + "\n  }"@
        }
    }
}

proof fn lemma_fields_vars_concat(a: Seq<Field>, b: Seq<Field>)
    ensures
        fields_vars(a + b) == fields_vars(a) + fields_vars(b),
    decreases b.len(),
{
    if b.len() == 0 {
        assert(a + b =~= a);
        assert(fields_vars(a) + fields_vars(b) =~= fields_vars(a));
    } else {
        assert((a + b).drop_last() =~= a + b.drop_last());
        lemma_fields_vars_concat(a, b.drop_last());
        assert(fields_vars(a + b) =~= fields_vars(a) + fields_vars(b));
    }
}

proof fn lemma_all_declared_concat(a: Seq<Seq<char>>, b: Seq<Seq<char>>, d: Seq<Seq<char>>)
    requires
        all_declared(a, d),
        all_declared(b, d),
    ensures
        all_declared(a + b, d),
{
    assert forall|i: int| 0 <= i < (a + b).len() implies d.contains(#[trigger] (a + b)[i]) by {
        if i < a.len() {
            assert((a + b)[i] == a[i]);
        } else {
            assert((a + b)[i] == b[i - a.len()]);
        }
    }
}

proof fn lemma_fields_declared(s: Seq<Field>, d: Seq<Seq<char>>)
    requires
        forall|k: int| 0 <= k < s.len() ==> all_declared(#[trigger] s[k].field_type.vars(), d),
    ensures
        all_declared(fields_vars(s), d),
    decreases s.len(),
{
    if s.len() > 0 {
        lemma_fields_declared(s.drop_last(), d);
        assert(all_declared(s[s.len() - 1].field_type.vars(), d));
        lemma_all_declared_concat(fields_vars(s.drop_last()), s.last().field_type.vars(), d);
    }
}

impl PurescriptRecord {
    proof fn lemma_no_problem(self, batch: Seq<Field>, k: int)
        requires
            0 <= k,
            self.first_problem(batch, k) is None,
        ensures
            forall|j: int| k <= j < batch.len() ==> #[trigger] self.field_problem(batch, j) is None,
        decreases batch.len() - k,
    {
        if k < batch.len() {
            self.lemma_no_problem(batch, k + 1);
        }
    }

    proof fn lemma_add_preserves_wf(self, batch: Seq<Field>)
        requires
            self.wf(),
            self.first_problem(batch, 0) is None,
        ensures
            unique_labels(self.fields@ + batch),
            all_declared(fields_vars(self.fields@ + batch), self.declared()),
    {
        self.lemma_no_problem(batch, 0);
        let all = self.fields@ + batch;
        let n = self.fields@.len();
        assert forall|i: int, j: int| 0 <= i < j < all.len() implies all[i].name@ != all[j].name@ by {
            if j >= n {
                assert(self.field_problem(batch, j - n) is None);
                if i < n {
                    assert(all[i] == self.fields@[i]);
                } else {
                    assert(!repeated_in(batch, j - n));
                }
            }
        }
        assert forall|k: int| 0 <= k < batch.len() implies all_declared(
            #[trigger] batch[k].field_type.vars(),
            self.declared(),
        ) by {
            assert(self.field_problem(batch, k) is None);
        }
        lemma_fields_declared(batch, self.declared());
        lemma_fields_vars_concat(self.fields@, batch);
        lemma_all_declared_concat(fields_vars(self.fields@), fields_vars(batch), self.declared());
    }
}

/// Adding a field whose label the record already has fails, naming that label.
pub proof fn law_duplicate_field_fails(record: PurescriptRecord, field: Field)
    requires
        has_label(record.fields@, field.name@),
    ensures
        record.first_problem(seq![field], 0) == Some(ModelError::DuplicateField(field.name)),
{
    assert(seq![field][0] == field);
}

/// Whether `v` holds the text `s`.
pub(crate) fn contains_text(v: &Vec<String>, s: &String) -> (r: bool)
    ensures
        r == v.deep_view().contains(s@),
{
    let mut i: usize = 0;
    while i < v.len()
        invariant
            i <= v.len(),
            forall|j: int| 0 <= j < i ==> v.deep_view()[j] != s@,
        decreases v.len() - i,
    {
        if v[i] == *s {
            assert(v.deep_view()[i as int] == s@);
            return true;
        }
        i = i + 1;
    }
    false
}

/// Whether every text of `used` is among `declared`.
fn texts_declared(used: &Vec<String>, declared: &Vec<String>) -> (r: bool)
    ensures
        r == all_declared(used.deep_view(), declared.deep_view()),
{
    let mut i: usize = 0;
    while i < used.len()
        invariant
            i <= used.len(),
            forall|j: int| 0 <= j < i ==> declared.deep_view().contains(#[trigger] used.deep_view()[j]),
        decreases used.len() - i,
    {
        if !contains_text(declared, &used[i]) {
            assert(!declared.deep_view().contains(used.deep_view()[i as int]));
            return false;
        }
        i = i + 1;
    }
    true
}

/// Whether some field of `fields` has the label `name`.
fn any_label(fields: &Vec<Field>, name: &str) -> (r: bool)
    ensures
        r == has_label(fields@, name@),
{
    let target = name.to_string();
    let mut i: usize = 0;
    while i < fields.len()
        invariant
            i <= fields.len(),
            target@ == name@,
            forall|j: int| 0 <= j < i ==> fields@[j].name@ != name@,
        decreases fields.len() - i,
    {
        if fields[i].name == target {
            return true;
        }
        i = i + 1;
    }
    false
}

impl Field {
    /// A field of the given label, typed `String` until told otherwise.
    pub fn new(name: &str) -> (r: Field)
        ensures
            r.name@ == name@,
            r.field_type matches Argument::Type(n, args) && n@ == "String"@ && args@.len() == 0,
    {
        Field { name: name.to_string(), field_type: Argument::new_type("String") }
    }

    /// The field with a named type of no arguments.
    pub fn with_type(self, ty: &str) -> (r: Field)
        ensures
            r.name == self.name,
            r.field_type matches Argument::Type(n, args) && n@ == ty@ && args@.len() == 0,
    {
        Field { name: self.name, field_type: Argument::new_type(ty) }
    }

    /// The field with the given type expression.
    pub fn with_type_arg(self, type_expr: Argument) -> (r: Field)
        ensures
            r.name == self.name,
            r.field_type == type_expr,
    {
        Field { name: self.name, field_type: type_expr }
    }

    /// The field typed by a type variable of no arguments.
    pub fn for_all(self, ty: &str) -> (r: Field)
        ensures
            r.name == self.name,
            r.field_type matches Argument::ForAll(n, args) && n@ == ty@ && args@.len() == 0,
    {
        Field { name: self.name, field_type: Argument::new_for_all(ty) }
    }

    /// The field with one more argument applied to its type; a record type takes none.
    pub fn add_argument(self, arg: Argument) -> (r: Field)
        requires
            self.field_type.is_applicable(),
        ensures
            r.name == self.name,
            self.field_type.applied(arg, r.field_type),
    {
        Field { name: self.name, field_type: self.field_type.with_argument(arg) }
    }

    /// The field typed `Maybe ty`.
    pub fn maybe(self, ty: &str) -> (r: Field)
        ensures
            r.name == self.name,
            r.field_type matches Argument::Type(n, args) && n@ == "Maybe"@ && (args@.len() == 1
                && (args@[0] matches Argument::Type(m, margs) && m@ == ty@ && margs@.len() == 0)),
    {
        self.maybe_arg(Argument::new_type(ty))
    }

    /// The field typed `Maybe a` for the type variable `a`.
    pub fn maybe_for_all(self, ty: &str) -> (r: Field)
        ensures
            r.name == self.name,
            r.field_type matches Argument::Type(n, args) && n@ == "Maybe"@ && (args@.len() == 1
                && (args@[0] matches Argument::ForAll(m, margs) && m@ == ty@ && margs@.len()
                == 0)),
    {
        self.maybe_arg(Argument::new_for_all(ty))
    }

    /// The field typed `Maybe` of the given expression.
    pub fn maybe_arg(self, arg: Argument) -> (r: Field)
        ensures
            r.name == self.name,
            r.field_type matches Argument::Type(n, args) && n@ == "Maybe"@ && args@ == seq![arg],
    {
        let f = self.with_type("Maybe").add_argument(arg);
        assert(f.field_type->Type_1@ =~= seq![arg]);
        f
    }
}

impl PurescriptRecord {
    /// An empty record with no type parameters.
    pub fn new(name: &str) -> (r: PurescriptRecord)
        ensures
            r.name@ == name@,
            r.arguments@.len() == 0,
            r.fields@.len() == 0,
            r.wf(),
    {
        PurescriptRecord { name: name.to_string(), arguments: Vec::new(), fields: Vec::new() }
    }

    /// Declares one more type parameter.
    pub fn add_argument(&mut self, arg: Argument)
        ensures
            final(self).name == old(self).name,
            final(self).fields == old(self).fields,
            final(self).arguments@ == old(self).arguments@.push(arg),
    {
        self.arguments.push(arg);
    }

    /// Declares several more type parameters, in order.
    pub fn add_arguments(&mut self, args: Vec<Argument>)
        ensures
            final(self).name == old(self).name,
            final(self).fields == old(self).fields,
            final(self).arguments@ == old(self).arguments@ + args@,
    {
        let mut args = args;
        self.arguments.append(&mut args);
    }

    /// The first problem that adding `batch` would cause, if any.
    pub fn validate_fields(&self, batch: &Vec<Field>) -> (r: Option<ModelError>)
        ensures
            r == self.first_problem(batch@, 0),
    {
        let mut declared: Vec<String> = Vec::new();
        push_args_vars(&self.arguments, &mut declared);
        assert(declared.deep_view() =~= self.declared());
        let mut k: usize = 0;
        while k < batch.len()
            invariant
                k <= batch.len(),
                declared.deep_view() == self.declared(),
                self.first_problem(batch@, 0) == self.first_problem(batch@, k as int),
            decreases batch.len() - k,
        {
            let field = &batch[k];
            if any_label(&self.fields, field.name.as_str()) {
                return Some(ModelError::DuplicateField(field.name.clone()));
            }
            let mut j: usize = 0;
            while j < batch.len()
                invariant
                    j <= batch.len(),
                    k < batch.len(),
                    *field == batch@[k as int],
                    !has_label(self.fields@, batch@[k as int].name@),
                    self.first_problem(batch@, 0) == self.first_problem(batch@, k as int),
                    forall|i: int| 0 <= i < j && i != k ==> batch@[i].name@ != batch@[k as int].name@,
                decreases batch.len() - j,
            {
                if j != k && batch[j].name == field.name {
                    assert(batch@[j as int].name@ == batch@[k as int].name@);
                    assert(repeated_in(batch@, k as int));
                    return Some(ModelError::RepeatedField(field.name.clone()));
                }
                j = j + 1;
            }
            let used = field.field_type.get_all_forall_types();
            if !texts_declared(&used, &declared) {
                return Some(ModelError::UndeclaredTypeVariable(field.name.clone()));
            }
            k = k + 1;
        }
        None
    }

    /// Adds one field; fails, leaving the record as it was, where its label is taken or its
    /// type uses an undeclared type variable.
    pub fn add_field(&mut self, field: Field) -> (r: Result<(), ModelError>)
        ensures
            r is Err <==> old(self).first_problem(seq![field], 0) is Some,
            r matches Err(e) ==> old(self).first_problem(seq![field], 0) == Some(e),
            r is Err ==> *final(self) == *old(self),
            r is Ok ==> final(self).name == old(self).name && final(self).arguments
                == old(self).arguments && final(self).fields@ == old(self).fields@.push(field),
            old(self).wf() ==> final(self).wf(),
    {
        let mut batch: Vec<Field> = Vec::new();
        batch.push(field);
        assert(batch@ =~= seq![field]);
        self.add_fields(batch)
    }

    /// Adds a batch of fields; fails, leaving the record as it was, on the first field whose
    /// label is taken or repeated in the batch, or whose type uses an undeclared type variable.
    pub fn add_fields(&mut self, fields: Vec<Field>) -> (r: Result<(), ModelError>)
        ensures
            r is Err <==> old(self).first_problem(fields@, 0) is Some,
            r matches Err(e) ==> old(self).first_problem(fields@, 0) == Some(e),
            r is Err ==> *final(self) == *old(self),
            r is Ok ==> final(self).name == old(self).name && final(self).arguments
                == old(self).arguments && final(self).fields@ == old(self).fields@ + fields@,
            old(self).wf() ==> final(self).wf(),
    {
        match self.validate_fields(&fields) {
            Some(e) => Err(e),
            None => {
                proof {
                    if self.wf() {
                        self.lemma_add_preserves_wf(fields@);
                    }
                }
                let mut fields = fields;
                self.fields.append(&mut fields);
                Ok(())
            },
        }
    }

    /// Adds a field whose type uses no type variable; succeeds where the label is new.
    pub fn add_plain_field(&mut self, name: &str, ty: Argument) -> (r: Result<(), ModelError>)
        requires
            ty.vars().len() == 0,
        ensures
            !has_label(old(self).fields@, name@) <==> r is Ok,
            r matches Err(e) ==> e == ModelError::DuplicateField(e->DuplicateField_0) && e->DuplicateField_0@ == name@,
            r is Ok ==> final(self).fields@.drop_last() == old(self).fields@,
            r is Ok ==> final(self).fields@.len() == old(self).fields@.len() + 1,
            r is Ok ==> final(self).fields@.last().name@ == name@,
            r is Ok ==> final(self).fields@.last().field_type == ty,
            final(self).arguments == old(self).arguments,
            final(self).name == old(self).name,
    {
        let field = Field::new(name).with_type_arg(ty);
        let ghost f = field;
        proof {
            let b = seq![f];
            assert(!repeated_in(b, 0));
            assert(all_declared(f.field_type.vars(), old(self).declared()));
            if !has_label(old(self).fields@, name@) {
                assert(old(self).field_problem(b, 0) is None);
                assert(old(self).first_problem(b, 1) is None);
                assert(old(self).first_problem(b, 0) is None);
            } else {
                assert(old(self).field_problem(b, 0) is Some);
            }
        }
        let res = self.add_field(field);
        proof {
            if res is Ok {
                assert(self.fields@.drop_last() =~= old(self).fields@);
            }
        }
        res
    }

    /// Whether some field has the label `name`.
    pub fn has_field(&self, name: &str) -> (r: bool)
        ensures
            r == has_label(self.fields@, name@),
    {
        any_label(&self.fields, name)
    }

    /// Prints the record as a declaration, or as a bare type expression.
    fn to_string_opts(&self, with_type: bool) -> (r: String)
        ensures
            r@ == if with_type {
                self.text()
            } else {
                self.type_text()
            },
    {
        if !with_type {
            return self.to_type_string();
        }
        let n = self.fields.len();
        let a = join_args(&self.arguments, true, " ");
        let joined = join_fields(&self.fields, "\n  , ");
        proof {
            if n > 0 {
                lemma_fields_texts_prefix(self.fields@, n - 1);
                assert(self.fields@.subrange(0, n as int) =~= self.fields@);
            }
            if n == 1 {
                assert(self.fields@.subrange(0, 0) =~= Seq::<Field>::empty());
            }
        }
        let mut out = String::new();
        out.append("type ");
        out.append(self.name.as_str());
        if a.as_str().unicode_len() > 0 {
            out.append(" ");
            out.append(a.as_str());
        }
        if n == 0 {
            out.append(" = {}");
        } else if n == 1 {
            out.append(" = { ");
            out.append(joined.as_str());
            out.append(" }");
        } else {
            out.append(" =\n  { ");
            out.append(joined.as_str());
            out.append("\n  }");
        }
        out
    }

    /// Prints the record as a declaration: `type Name a = { ... }`.
    pub fn to_string(&self) -> (r: String)
        ensures
            r@ == self.text(),
    {
        self.to_string_opts(true)
    }
}

} // verus!
