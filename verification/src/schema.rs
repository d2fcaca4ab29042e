//! The declaration of a command's parameters.

use vstd::prelude::*;
use crate::value::ParamKind;

verus! {

/// One parameter of a command.
#[derive(Debug, PartialEq, Eq)]
pub struct Param {
    /// The name by which a token of the form `name=value` binds the parameter.
    pub name: String,
    /// The kind of value that the parameter takes.
    pub kind: ParamKind,
    /// Whether an invocation must give the parameter a value.
    pub required: bool,
}

/// What a [`Param`] stands for.
pub struct ParamView {
    pub name: Seq<char>,
    pub kind: ParamKind,
    pub required: bool,
}

impl View for Param {
    type V = ParamView;

    open spec fn view(&self) -> ParamView {
        ParamView { name: self.name@, kind: self.kind, required: self.required }
    }
}

impl Clone for Param {
    fn clone(&self) -> (copy: Self)
        ensures
            copy@ == self@,
    {
        Param { name: self.name.clone(), kind: self.kind, required: self.required }
    }
}

impl Param {
    /// The parameter with the given name, kind and flag.
    pub fn new(name: &str, kind: ParamKind, required: bool) -> (param: Param)
        ensures
            param@ == (ParamView { name: name@, kind, required }),
    {
        Param { name: name.to_owned(), kind, required }
    }

    /// A parameter that every invocation must bind.
    pub fn required(name: &str, kind: ParamKind) -> (param: Param)
        ensures
            param@ == (ParamView { name: name@, kind, required: true }),
    {
        Param::new(name, kind, true)
    }

    /// A parameter that an invocation may leave out.
    pub fn optional(name: &str, kind: ParamKind) -> (param: Param)
        ensures
            param@ == (ParamView { name: name@, kind, required: false }),
    {
        Param::new(name, kind, false)
    }
}

/// What a list of parameters stands for.
pub open spec fn param_views(params: Seq<Param>) -> Seq<ParamView> {
    Seq::new(params.len(), |i: int| params[i]@)
}

/// The names of the parameters of a schema, in order.
pub open spec fn names_of(schema: Seq<ParamView>) -> Seq<Seq<char>> {
    Seq::new(schema.len(), |i: int| schema[i].name)
}

/// Whether a list of parameters is a schema: no two of them have the same name.
pub open spec fn is_schema(params: Seq<ParamView>) -> bool {
    names_of(params).no_duplicates()
}

/// The index of the parameter named `name`, if the schema has one.
pub open spec fn position_of(schema: Seq<ParamView>, name: Seq<char>) -> Option<int> {
    names_of(schema).index_of_first(name)
}

/// What [`position_of`] finds is the first parameter of that name, which is the only one
/// in a schema; it finds none only where no parameter has the name.
pub proof fn lemma_position_of(schema: Seq<ParamView>, name: Seq<char>)
    ensures
        position_of(schema, name) is Some <==> names_of(schema).contains(name),
        match position_of(schema, name) {
            Some(i) => {
                &&& 0 <= i < schema.len()
                &&& schema[i].name == name
                &&& forall|j: int| 0 <= j < i ==> (#[trigger] schema[j]).name != name
                &&& is_schema(schema) ==> forall|j: int|
                    0 <= j < schema.len() && (#[trigger] schema[j]).name == name ==> j == i
            },
            None => forall|j: int| 0 <= j < schema.len() ==> (#[trigger] schema[j]).name != name,
        },
{
    let names = names_of(schema);
    names.index_of_first_ensures(name);
    match position_of(schema, name) {
        Some(i) => {
            assert(names[i] == name);
            assert forall|j: int| 0 <= j < i implies (#[trigger] schema[j]).name != name by {
                assert(names[j] == schema[j].name);
            }
            if is_schema(schema) {
                assert forall|j: int|
                    0 <= j < schema.len() && (#[trigger] schema[j]).name == name implies j
                    == i by {
                    assert(names[j] == name);
                }
            }
        },
        None => {
            assert forall|j: int| 0 <= j < schema.len() implies (#[trigger] schema[j]).name
                != name by {
                assert(names[j] == schema[j].name);
            }
        },
    }
}

/// The ordered list of a command's parameters, no two of them with the same name.
#[derive(Debug, PartialEq, Eq)]
pub struct ParamSchema {
    params: Vec<Param>,
}

impl View for ParamSchema {
    type V = Seq<ParamView>;

    closed spec fn view(&self) -> Seq<ParamView> {
        param_views(self.params@)
    }
}

impl Clone for ParamSchema {
    fn clone(&self) -> (copy: Self)
        ensures
            copy@ == self@,
    {
        proof {
            use_type_invariant(self);
        }
        let mut params: Vec<Param> = Vec::new();
        let mut i: usize = 0;
        while i < self.params.len()
            invariant
                i <= self.params@.len(),
                param_views(params@) == param_views(self.params@).take(i as int),
            decreases self.params@.len() - i,
        {
            let ghost before = param_views(params@);
            let param = self.params[i].clone();
            params.push(param);
            proof {
                assert(param_views(params@) == before.push(param@));
                assert(param_views(self.params@).take(i + 1) == param_views(self.params@).take(
                    i as int,
                ).push(param@));
            }
            i += 1;
        }
        assert(param_views(self.params@).take(i as int) == param_views(self.params@));
        ParamSchema { params }
    }
}

impl ParamSchema {
    #[verifier::type_invariant]
    spec fn well_formed(self) -> bool {
        is_schema(param_views(self.params@))
    }

    /// The schema without parameters.
    pub fn new() -> (schema: ParamSchema)
        ensures
            schema@ == Seq::<ParamView>::empty(),
    {
        let schema = ParamSchema { params: Vec::new() };
        assert(schema@ == Seq::<ParamView>::empty());
        schema
    }

    /// The number of parameters.
    pub fn len(&self) -> (n: usize)
        ensures
            n == self@.len(),
    {
        self.params.len()
    }

    /// The parameters, in the order in which values without a name bind them. No two of
    /// them have the same name.
    pub fn params(&self) -> (params: &Vec<Param>)
        ensures
            param_views(params@) == self@,
            is_schema(self@),
    {
        proof {
            use_type_invariant(self);
        }
        &self.params
    }

    /// The index of the parameter named `name`, if there is one.
    pub fn position(&self, name: &str) -> (r: Option<usize>)
        ensures
            match r {
                Some(i) => position_of(self@, name@) == Some(i as int),
                None => position_of(self@, name@) is None,
            },
    {
        let key = name.to_owned();
        let mut i: usize = 0;
        while i < self.params.len()
            invariant
                i <= self.params@.len(),
                key@ == name@,
                forall|j: int| 0 <= j < i ==> self.params@[j].name@ != name@,
            decreases self.params@.len() - i,
        {
            if self.params[i].name == key {
                proof {
                    lemma_position_of(self@, name@);
                    assert(self@[i as int].name == name@);
                    let found = position_of(self@, name@);
                    if found is Some && found.unwrap() < i {
                        assert(self@[found.unwrap()].name == self.params@[found.unwrap()].name@);
                    }
                }
                return Some(i);
            }
            i += 1;
        }
        proof {
            lemma_position_of(self@, name@);
            if position_of(self@, name@) is Some {
                let k = position_of(self@, name@).unwrap();
                assert(self@[k].name == self.params@[k].name@);
            }
        }
        None
    }

    /// Adds `param` as the last parameter, unless the schema has a parameter of that name
    /// already: then the schema stays as it is and the result is `false`.
    pub fn push(&mut self, param: Param) -> (added: bool)
        ensures
            added == !names_of(old(self)@).contains(param@.name),
            final(self)@ == if added {
                old(self)@.push(param@)
            } else {
                old(self)@
            },
    {
        proof {
            use_type_invariant(&*self);
            lemma_position_of(self@, param@.name);
        }
        if self.position(param.name.as_str()).is_some() {
            return false;
        }
        let ghost before = self@;
        let mut params: Vec<Param> = Vec::new();
        std::mem::swap(&mut params, &mut self.params);
        params.push(param);
        proof {
            let after = param_views(params@);
            assert(after == before.push(param@));
            assert forall|i: int, j: int|
                0 <= i < after.len() && 0 <= j < after.len() && i != j implies names_of(after)[i]
                != names_of(after)[j] by {
                if i < before.len() && j < before.len() {
                    assert(names_of(before)[i] != names_of(before)[j]);
                }
            }
        }
        self.params = params;
        true
    }

    /// The schema with the parameters `params`, in that order; `None` where two of them
    /// have the same name.
    pub fn from_params(params: Vec<Param>) -> (r: Option<ParamSchema>)
        ensures
            match r {
                Some(schema) => schema@ == param_views(params@) && is_schema(schema@),
                None => !is_schema(param_views(params@)),
            },
    {
        let mut schema = ParamSchema::new();
        let ghost all = param_views(params@);
        let mut i: usize = 0;
        while i < params.len()
            invariant
                i <= params@.len(),
                param_views(params@) == all,
                schema@ == all.take(i as int),
            decreases params@.len() - i,
        {
            let param = params[i].clone();
            proof {
                lemma_position_of(schema@, param@.name);
            }
            if !schema.push(param) {
                proof {
                    lemma_position_of(all.take(i as int), all[i as int].name);
                    let k = position_of(all.take(i as int), all[i as int].name).unwrap();
                    assert(all.take(i as int)[k].name == all[i as int].name);
                    assert(names_of(all)[k] == names_of(all)[i as int]);
                    assert(!names_of(all).no_duplicates());
                }
                return None;
            }
            assert(all.take(i as int).push(all[i as int]) == all.take(i + 1));
            i += 1;
        }
        proof {
            assert(all.take(i as int) == all);
            use_type_invariant(&schema);
        }
        Some(schema)
    }
}

} // verus!
