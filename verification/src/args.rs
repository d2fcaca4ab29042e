//! The typed arguments of one invocation.

use vstd::prelude::*;
use crate::schema::{is_schema, names_of, ParamView};
use crate::search::{lemma_first_index, lemma_index_of_first, lemma_no_index};
use crate::value::{kind_of, optional_view, Value, ValueView};

verus! {

/// What one argument stands for: the name of a parameter and the value bound to it, or
/// `None` where an optional parameter was left out.
pub struct ArgView {
    pub name: Seq<char>,
    pub value: Option<ValueView>,
}

/// Whether `args` are arguments for `schema`: one for each parameter, under its name, a
/// value for each required parameter, and each value of the kind that its parameter
/// declares.
pub open spec fn conforms(schema: Seq<ParamView>, args: Seq<ArgView>) -> bool {
    &&& args.len() == schema.len()
    &&& forall|i: int|
        #![trigger args[i]]
        0 <= i < schema.len() ==> {
            &&& args[i].name == schema[i].name
            &&& schema[i].required ==> args[i].value is Some
            &&& args[i].value matches Some(v) ==> kind_of(v) == schema[i].kind
        }
}

/// The arguments of one invocation: for each parameter of the schema, in its order, the
/// value bound to it, or the mark that an optional parameter was left out.
#[derive(Debug, PartialEq, Eq)]
pub struct TypedArgs {
    names: Vec<String>,
    values: Vec<Option<Value>>,
}

impl View for TypedArgs {
    type V = Seq<ArgView>;

    closed spec fn view(&self) -> Seq<ArgView> {
        Seq::new(
            self.names@.len(),
            |i: int| ArgView { name: self.names@[i]@, value: optional_view(self.values@[i]) },
        )
    }
}

/// The names of arguments, in order.
pub open spec fn arg_names(args: Seq<ArgView>) -> Seq<Seq<char>> {
    Seq::new(args.len(), |i: int| args[i].name)
}

/// The value bound to the parameter named `name`; `None` where it was left out or where
/// no parameter has that name.
pub open spec fn value_of(args: Seq<ArgView>, name: Seq<char>) -> Option<ValueView> {
    match arg_names(args).index_of_first(name) {
        Some(i) => args[i].value,
        None => None,
    }
}

/// Among arguments that conform to a schema, each name finds the value of its own
/// argument.
pub proof fn lemma_value_of(schema: Seq<ParamView>, args: Seq<ArgView>, i: int)
    requires
        is_schema(schema),
        conforms(schema, args),
        0 <= i < args.len(),
    ensures
        arg_names(args).index_of_first(args[i].name) == Some(i),
        value_of(args, args[i].name) == args[i].value,
{
    let names = arg_names(args);
    assert forall|j: int| 0 <= j < i implies names[j] != args[i].name by {
        assert(names_of(schema)[j] == args[j].name);
        assert(names_of(schema)[i] == args[i].name);
    }
    lemma_first_index(names, args[i].name, i);
}

impl TypedArgs {
    #[verifier::type_invariant]
    spec fn well_formed(self) -> bool {
        self.names@.len() == self.values@.len()
    }

    /// The arguments with the names `names` and, in the same order, the values `values`.
    pub(crate) fn from_parts(names: Vec<String>, values: Vec<Option<Value>>) -> (args: TypedArgs)
        requires
            names@.len() == values@.len(),
        ensures
            args@ == Seq::new(
                names@.len(),
                |i: int| ArgView { name: names@[i]@, value: optional_view(values@[i]) },
            ),
    {
        TypedArgs { names, values }
    }

    /// The number of arguments, which is the number of parameters of the schema.
    pub fn len(&self) -> (n: usize)
        ensures
            n == self@.len(),
    {
        self.names.len()
    }

    /// The name of the parameter at `index`.
    pub fn name_at(&self, index: usize) -> (name: &str)
        requires
            index < self@.len(),
        ensures
            name@ == self@[index as int].name,
    {
        self.names[index].as_str()
    }

    /// The value bound to the parameter at `index`, or `None` where it was left out.
    pub fn value_at(&self, index: usize) -> (value: Option<&Value>)
        requires
            index < self@.len(),
        ensures
            match value {
                Some(v) => self@[index as int].value == Some(v@),
                None => self@[index as int].value is None,
            },
    {
        proof {
            use_type_invariant(self);
        }
        self.values[index].as_ref()
    }

    /// The index of the parameter named `name`, if there is one.
    pub fn position(&self, name: &str) -> (r: Option<usize>)
        ensures
            match r {
                Some(i) => arg_names(self@).index_of_first(name@) == Some(i as int),
                None => arg_names(self@).index_of_first(name@) is None,
            },
    {
        let key = name.to_owned();
        let mut i: usize = 0;
        while i < self.names.len()
            invariant
                i <= self.names@.len(),
                key@ == name@,
                forall|j: int| 0 <= j < i ==> arg_names(self@)[j] != name@,
            decreases self.names@.len() - i,
        {
            if self.names[i] == key {
                proof {
                    lemma_first_index(arg_names(self@), name@, i as int);
                }
                return Some(i);
            }
            i += 1;
        }
        proof {
            lemma_no_index(arg_names(self@), name@);
        }
        None
    }

    /// Whether a parameter is named `name`.
    pub fn has(&self, name: &str) -> (b: bool)
        ensures
            b == arg_names(self@).contains(name@),
    {
        proof {
            lemma_index_of_first(arg_names(self@), name@);
        }
        self.position(name).is_some()
    }

    /// The value bound to the parameter named `name`; `None` where it was left out or
    /// where no parameter has that name.
    pub fn get(&self, name: &str) -> (value: Option<&Value>)
        ensures
            match value {
                Some(v) => value_of(self@, name@) == Some(v@),
                None => value_of(self@, name@) is None,
            },
    {
        proof {
            lemma_index_of_first(arg_names(self@), name@);
        }
        match self.position(name) {
            Some(i) => self.value_at(i),
            None => None,
        }
    }
}

} // verus!
