//! The parser that makes typed arguments from an invocation string.
//!
//! An invocation string is a command name followed by tokens. A token of the form
//! `name=value` binds the parameter of that name; any other token binds the first parameter
//! of the schema that has no value yet. The text of the value is coerced to the kind of its
//! parameter. A later value for a parameter replaces an earlier one.

use vstd::prelude::*;
use vstd::slice::slice_subrange;
use crate::args::{conforms, ArgView, TypedArgs};
use crate::error::{CommandError, CommandErrorView};
use crate::schema::{
    is_schema, lemma_position_of, param_views, position_of, Param, ParamSchema, ParamView,
};
use crate::search::{find_char, lemma_first_index, lemma_index_of_first, lemma_no_index};
use crate::text::{chars_of, string_of, words};
use crate::token::{split_words, tokens};
use crate::value::{coerced, kind_of, lemma_coerced_kind, optional_view, Value, ValueView};

verus! {

/// The values bound so far, one place for each parameter of the schema.
pub type Bindings = Seq<Option<ValueView>>;

/// The bindings of a schema with `n` parameters before any token is read.
pub open spec fn unbound(n: nat) -> Bindings {
    Seq::new(n, |i: int| None)
}

/// Whether `bound` has one place for each parameter of `schema`, each value in it of the
/// kind that its parameter declares.
pub open spec fn well_typed(schema: Seq<ParamView>, bound: Bindings) -> bool {
    &&& bound.len() == schema.len()
    &&& forall|i: int|
        0 <= i < schema.len() ==> ((#[trigger] bound[i]) matches Some(v) ==> kind_of(v)
            == schema[i].kind)
}

/// The name that a token of the form `name=value` gives: what stands before its first
/// `=`.
pub open spec fn name_part(token: Seq<char>) -> Seq<char>
    recommends
        token.contains('='),
{
    token.take(token.index_of_first('=').unwrap())
}

/// The text of the value that a token of the form `name=value` gives: what stands after
/// its first `=`.
pub open spec fn value_part(token: Seq<char>) -> Seq<char>
    recommends
        token.contains('='),
{
    token.skip(token.index_of_first('=').unwrap() + 1)
}

/// The parameter that `token` gives a value to, with the text of the value.
///
/// A token with `=` in it names its parameter before the first `=`, and the rest is the
/// value. Any other token is a value for the first parameter that has none yet. A name that
/// the schema does not have, or a value for which no parameter is left, is an unknown
/// argument.
pub open spec fn target(schema: Seq<ParamView>, bound: Bindings, token: Seq<char>) -> Result<
    (int, Seq<char>),
    CommandErrorView,
> {
    if token.contains('=') {
        match position_of(schema, name_part(token)) {
            Some(i) => Ok((i, value_part(token))),
            None => Err(CommandErrorView::UnknownArgument(name_part(token))),
        }
    } else {
        match bound.index_of_first(None) {
            Some(i) => Ok((i, token)),
            None => Err(CommandErrorView::UnknownArgument(token)),
        }
    }
}

/// The bindings after `token` is read: its value, coerced to the kind of its parameter,
/// stands in the place of that parameter.
pub open spec fn bind(schema: Seq<ParamView>, bound: Bindings, token: Seq<char>) -> Result<
    Bindings,
    CommandErrorView,
> {
    match target(schema, bound, token) {
        Err(e) => Err(e),
        Ok((i, raw)) => match coerced(schema[i].kind, raw) {
            Some(value) => Ok(bound.update(i, Some(value))),
            None => Err(CommandErrorView::TypeMismatch(schema[i].name, schema[i].kind, raw)),
        },
    }
}

/// The bindings after the tokens `tokens` are read from left to right, or the error of the
/// first token that has one.
pub open spec fn bind_all(schema: Seq<ParamView>, bound: Bindings, tokens: Seq<Seq<char>>) -> Result<
    Bindings,
    CommandErrorView,
>
    decreases tokens.len(),
{
    if tokens.len() == 0 {
        Ok(bound)
    } else {
        match bind(schema, bound, tokens[0]) {
            Err(e) => Err(e),
            Ok(next) => bind_all(schema, next, tokens.drop_first()),
        }
    }
}

/// The index of the first required parameter that has no value.
pub open spec fn missing_required(schema: Seq<ParamView>, bound: Bindings) -> Option<int> {
    Seq::new(schema.len(), |i: int| schema[i].required && bound[i] is None).index_of_first(true)
}

/// The tokens of an invocation string that follow the command name.
pub open spec fn argument_tokens(raw: Seq<char>) -> Seq<Seq<char>> {
    if tokens(raw).len() == 0 {
        tokens(raw)
    } else {
        tokens(raw).drop_first()
    }
}

/// The arguments of a schema with the values `bound`.
pub open spec fn arguments(schema: Seq<ParamView>, bound: Bindings) -> Seq<ArgView> {
    Seq::new(schema.len(), |i: int| ArgView { name: schema[i].name, value: bound[i] })
}

/// What parsing the invocation string `raw` against `schema` gives: the arguments, one for
/// each parameter, or the first error met. Errors of tokens come first, from left to right;
/// then, if a required parameter has no value, the first such parameter is reported
/// missing.
pub open spec fn parsed(schema: Seq<ParamView>, raw: Seq<char>) -> Result<
    Seq<ArgView>,
    CommandErrorView,
> {
    match bind_all(schema, unbound(schema.len()), argument_tokens(raw)) {
        Err(e) => Err(e),
        Ok(bound) => match missing_required(schema, bound) {
            Some(i) => Err(CommandErrorView::MissingRequiredArgument(schema[i].name)),
            None => Ok(arguments(schema, bound)),
        },
    }
}

/// Reading one token keeps the bindings well typed.
pub proof fn lemma_bind_well_typed(schema: Seq<ParamView>, bound: Bindings, token: Seq<char>)
    requires
        well_typed(schema, bound),
    ensures
        bind(schema, bound, token) matches Ok(next) ==> well_typed(schema, next),
        target(schema, bound, token) matches Ok((i, raw)) ==> 0 <= i < schema.len(),
{
    if token.contains('=') {
        lemma_position_of(schema, name_part(token));
    } else {
        lemma_index_of_first(bound, None);
    }
    match target(schema, bound, token) {
        Ok((i, raw)) => {
            lemma_coerced_kind(schema[i].kind, raw);
        },
        Err(_) => {},
    }
}

/// Reading tokens keeps the bindings well typed.
pub proof fn lemma_bind_all_well_typed(
    schema: Seq<ParamView>,
    bound: Bindings,
    tokens: Seq<Seq<char>>,
)
    requires
        well_typed(schema, bound),
    ensures
        bind_all(schema, bound, tokens) matches Ok(last) ==> well_typed(schema, last),
    decreases tokens.len(),
{
    if tokens.len() > 0 {
        lemma_bind_well_typed(schema, bound, tokens[0]);
        match bind(schema, bound, tokens[0]) {
            Ok(next) => {
                lemma_bind_all_well_typed(schema, next, tokens.drop_first());
            },
            Err(_) => {},
        }
    }
}

/// Whatever the invocation string, the arguments that parsing gives conform to the schema:
/// every parameter has its place, every required parameter a value, and every value the
/// kind of its parameter.
pub proof fn lemma_parsed_conforms(schema: Seq<ParamView>, raw: Seq<char>)
    ensures
        parsed(schema, raw) matches Ok(args) ==> conforms(schema, args),
{
    let start = unbound(schema.len());
    assert(well_typed(schema, start));
    lemma_bind_all_well_typed(schema, start, argument_tokens(raw));
    match bind_all(schema, start, argument_tokens(raw)) {
        Ok(bound) => {
            let missing = Seq::new(
                schema.len(),
                |i: int| schema[i].required && bound[i] is None,
            );
            lemma_index_of_first(missing, true);
            if missing_required(schema, bound) is None {
                let args = arguments(schema, bound);
                assert forall|i: int| #![trigger args[i]] 0 <= i < schema.len() implies {
                    &&& args[i].name == schema[i].name
                    &&& schema[i].required ==> args[i].value is Some
                    &&& args[i].value matches Some(v) ==> kind_of(v) == schema[i].kind
                } by {
                    assert(!missing[i]);
                    assert(bound[i] matches Some(v) ==> kind_of(v) == schema[i].kind);
                }
            }
        },
        Err(_) => {},
    }
}

/// The bindings in which each of the first `count` parameters has the value that the
/// token in its place denotes, and the other parameters have none.
pub open spec fn in_order(schema: Seq<ParamView>, tokens: Seq<Seq<char>>, count: int) -> Bindings {
    Seq::new(
        schema.len(),
        |i: int|
            if i < count {
                coerced(schema[i].kind, tokens[i])
            } else {
                None
            },
    )
}

/// Whether `tokens` are values without names, no more of them than `schema` has
/// parameters, each a literal of the kind of the parameter in its place.
pub open spec fn plain_values(schema: Seq<ParamView>, tokens: Seq<Seq<char>>) -> bool {
    &&& tokens.len() <= schema.len()
    &&& forall|k: int|
        #![trigger tokens[k]]
        0 <= k < tokens.len() ==> !tokens[k].contains('=') && coerced(schema[k].kind, tokens[k])
            is Some
}

/// Values without names bind the parameters in the order of the schema: once the first
/// `count` are bound, the rest follow one by one.
pub proof fn lemma_plain_values_bind_in_order(
    schema: Seq<ParamView>,
    tokens: Seq<Seq<char>>,
    count: int,
)
    requires
        plain_values(schema, tokens),
        0 <= count <= tokens.len(),
    ensures
        bind_all(schema, in_order(schema, tokens, count), tokens.skip(count)) == Ok::<
            Bindings,
            CommandErrorView,
        >(in_order(schema, tokens, tokens.len() as int)),
    decreases tokens.len() - count,
{
    let bound = in_order(schema, tokens, count);
    let rest = tokens.skip(count);
    if count < tokens.len() {
        let token = tokens[count];
        assert(rest[0] == token);
        assert(rest.drop_first() == tokens.skip(count + 1));
        assert forall|j: int| 0 <= j < count implies bound[j] != None::<ValueView> by {
            assert(coerced(schema[j].kind, tokens[j]) is Some);
        }
        lemma_first_index(bound, None, count);
        assert(bound.update(count, coerced(schema[count].kind, token)) == in_order(
            schema,
            tokens,
            count + 1,
        ));
        lemma_plain_values_bind_in_order(schema, tokens, count + 1);
    }
}

/// An invocation string whose arguments are values without names, each a literal of the
/// kind of the parameter in its place, with no required parameter after the last of them,
/// parses: the parameters have the values of the tokens, in the order of the schema, and
/// those for which no token is left have none.
pub proof fn lemma_plain_values_parse(schema: Seq<ParamView>, raw: Seq<char>)
    requires
        plain_values(schema, argument_tokens(raw)),
        forall|i: int| argument_tokens(raw).len() <= i < schema.len() ==> !schema[i].required,
    ensures
        parsed(schema, raw) == Ok::<Seq<ArgView>, CommandErrorView>(
            arguments(
                schema,
                in_order(schema, argument_tokens(raw), argument_tokens(raw).len() as int),
            ),
        ),
{
    let tokens = argument_tokens(raw);
    let bound = in_order(schema, tokens, tokens.len() as int);
    lemma_plain_values_bind_in_order(schema, tokens, 0);
    assert(in_order(schema, tokens, 0) == unbound(schema.len()));
    assert(tokens.skip(0) == tokens);
    let missing = Seq::new(schema.len(), |i: int| schema[i].required && bound[i] is None);
    assert forall|i: int| 0 <= i < missing.len() implies missing[i] != true by {
        if i < tokens.len() {
            assert(coerced(schema[i].kind, tokens[i]) is Some);
        }
    }
    lemma_no_index(missing, true);
}

/// The names that tokens of the form `name=value` give, in order.
pub open spec fn names_given(tokens: Seq<Seq<char>>) -> Seq<Seq<char>> {
    Seq::new(tokens.len(), |k: int| name_part(tokens[k]))
}

/// Whether each of `tokens` has the form `name=value`, with the name of a parameter of
/// `schema` and a literal of the kind of that parameter.
pub open spec fn named_values(schema: Seq<ParamView>, tokens: Seq<Seq<char>>) -> bool {
    forall|k: int|
        #![trigger tokens[k]]
        0 <= k < tokens.len() ==> {
            &&& tokens[k].contains('=')
            &&& position_of(schema, name_part(tokens[k])) matches Some(i) && coerced(
                schema[i].kind,
                value_part(tokens[k]),
            ) is Some
        }
}

/// The value that tokens of the form `name=value` leave a parameter with: that of the
/// last token that names the parameter, or the value `before` where none does.
pub open spec fn value_named(
    param: ParamView,
    before: Option<ValueView>,
    tokens: Seq<Seq<char>>,
) -> Option<ValueView> {
    match names_given(tokens).index_of_last(param.name) {
        Some(k) => coerced(param.kind, value_part(tokens[k])),
        None => before,
    }
}

/// Tokens of the form `name=value` bind the parameters that they name, whatever their
/// order: each parameter ends with the value of the last token that names it, and a
/// parameter that no token names keeps what it had.
pub proof fn lemma_named_values_bind(schema: Seq<ParamView>, bound: Bindings, tokens: Seq<Seq<char>>)
    requires
        is_schema(schema),
        bound.len() == schema.len(),
        named_values(schema, tokens),
    ensures
        bind_all(schema, bound, tokens) matches Ok(last) && last.len() == schema.len() && forall|
            i: int,
        |
            0 <= i < schema.len() ==> #[trigger] last[i] == value_named(schema[i], bound[i], tokens),
    decreases tokens.len(),
{
    if tokens.len() == 0 {
        assert forall|i: int| 0 <= i < schema.len() implies bound[i] == value_named(
            schema[i],
            bound[i],
            tokens,
        ) by {
            names_given(tokens).index_of_last_ensures(schema[i].name);
        }
    } else {
        let token = tokens[0];
        let rest = tokens.drop_first();
        assert(token.contains('='));
        lemma_position_of(schema, name_part(token));
        let p = position_of(schema, name_part(token)).unwrap();
        let value = coerced(schema[p].kind, value_part(token));
        let next = bound.update(p, value);
        assert(bind(schema, bound, token) == Ok::<Bindings, CommandErrorView>(next));
        assert forall|k: int| #![trigger rest[k]] 0 <= k < rest.len() implies {
            &&& rest[k].contains('=')
            &&& position_of(schema, name_part(rest[k])) matches Some(i) && coerced(
                schema[i].kind,
                value_part(rest[k]),
            ) is Some
        } by {
            assert(rest[k] == tokens[k + 1]);
        }
        lemma_named_values_bind(schema, next, rest);
        let last = bind_all(schema, next, rest)->Ok_0;
        assert forall|i: int| 0 <= i < schema.len() implies #[trigger] last[i] == value_named(
            schema[i],
            bound[i],
            tokens,
        ) by {
            let name = schema[i].name;
            let given = names_given(tokens);
            let given_rest = names_given(rest);
            given.index_of_last_ensures(name);
            given_rest.index_of_last_ensures(name);
            assert forall|k: int| 0 <= k < rest.len() implies given_rest[k] == given[k + 1] by {
                assert(rest[k] == tokens[k + 1]);
            }
            match given_rest.index_of_last(name) {
                Some(k) => {
                    assert(given[k + 1] == name);
                    let found = given.index_of_last(name).unwrap();
                    if found < k + 1 {
                        assert(given[k + 1] != name);
                    }
                    if found > k + 1 {
                        assert(given_rest[found - 1] == name);
                    }
                    assert(found == k + 1);
                    assert(rest[k] == tokens[k + 1]);
                },
                None => {
                    if given[0] == name {
                        assert(i == p);
                        let found = given.index_of_last(name).unwrap();
                        if found > 0 {
                            assert(given_rest[found - 1] == name);
                            assert(given_rest.contains(name));
                        }
                        assert(found == 0);
                    } else {
                        assert(i != p);
                        if given.contains(name) {
                            let found = given.index_of_last(name).unwrap();
                            assert(found > 0);
                            assert(given_rest[found - 1] == name);
                            assert(given_rest.contains(name));
                        }
                    }
                },
            }
        }
    }
}

/// An invocation string whose arguments all have the form `name=value`, each with the
/// name of a parameter and a literal of its kind, and among them one for each required
/// parameter, parses, whatever the order of the tokens: each parameter has the value of
/// the last token that names it, and a parameter that no token names has none.
pub proof fn lemma_named_values_parse(schema: Seq<ParamView>, raw: Seq<char>)
    requires
        is_schema(schema),
        named_values(schema, argument_tokens(raw)),
        forall|i: int|
            0 <= i < schema.len() && (#[trigger] schema[i]).required ==> names_given(
                argument_tokens(raw),
            ).contains(schema[i].name),
    ensures
        parsed(schema, raw) == Ok::<Seq<ArgView>, CommandErrorView>(
            arguments(
                schema,
                Seq::new(
                    schema.len(),
                    |i: int| value_named(schema[i], None, argument_tokens(raw)),
                ),
            ),
        ),
{
    let tokens = argument_tokens(raw);
    let start = unbound(schema.len());
    lemma_named_values_bind(schema, start, tokens);
    let last = bind_all(schema, start, tokens)->Ok_0;
    let expected = Seq::new(schema.len(), |i: int| value_named(schema[i], None, tokens));
    assert(last == expected);
    let missing = Seq::new(schema.len(), |i: int| schema[i].required && last[i] is None);
    assert forall|i: int| 0 <= i < missing.len() implies missing[i] != true by {
        if schema[i].required {
            let given = names_given(tokens);
            given.index_of_last_ensures(schema[i].name);
            let k = given.index_of_last(schema[i].name).unwrap();
            assert(tokens[k].contains('='));
            lemma_position_of(schema, name_part(tokens[k]));
            assert(given[k] == name_part(tokens[k]));
        }
    }
    lemma_no_index(missing, true);
}

/// What a list of optional values stands for.
pub open spec fn bound_views(values: Seq<Option<Value>>) -> Bindings {
    Seq::new(values.len(), |i: int| optional_view(values[i]))
}

/// What the result of parsing stands for.
pub open spec fn parsed_view(r: Result<TypedArgs, CommandError>) -> Result<
    Seq<ArgView>,
    CommandErrorView,
> {
    match r {
        Ok(args) => Ok(args@),
        Err(e) => Err(e@),
    }
}

/// The index of the first place of `values` that holds no value.
fn first_unbound(values: &Vec<Option<Value>>) -> (r: Option<usize>)
    ensures
        match r {
            Some(i) => bound_views(values@).index_of_first(None) == Some(i as int),
            None => bound_views(values@).index_of_first(None) is None,
        },
{
    let mut i: usize = 0;
    while i < values.len()
        invariant
            i <= values@.len(),
            forall|j: int| 0 <= j < i ==> bound_views(values@)[j] is Some,
        decreases values@.len() - i,
    {
        if values[i].is_none() {
            proof {
                lemma_first_index(bound_views(values@), None, i as int);
            }
            return Some(i);
        }
        i += 1;
    }
    proof {
        lemma_no_index(bound_views(values@), None);
    }
    None
}

/// Reads one token into `values`.
fn bind_token(schema: &ParamSchema, values: &mut Vec<Option<Value>>, token: &[char]) -> (r: Result<
    (),
    CommandError,
>)
    requires
        well_typed(schema@, bound_views(old(values)@)),
    ensures
        match bind(schema@, bound_views(old(values)@), token@) {
            Ok(next) => r is Ok && bound_views(final(values)@) == next,
            Err(e) => r matches Err(error) && error@ == e,
        },
{
    let params = schema.params();
    let ghost bound = bound_views(values@);
    proof {
        lemma_bind_well_typed(schema@, bound, token@);
    }
    let index: usize;
    let raw: &[char];
    let n = token.len();
    proof {
        lemma_index_of_first(token@, '=');
    }
    match find_char(token, '=') {
        Some(eq) => {
            let name = string_of(slice_subrange(token, 0, eq));
            match schema.position(name.as_str()) {
                Some(i) => {
                    index = i;
                    raw = slice_subrange(token, eq + 1, n);
                },
                None => {
                    return Err(CommandError::UnknownArgument(name));
                },
            }
        },
        None => match first_unbound(values) {
            Some(i) => {
                index = i;
                raw = token;
            },
            None => {
                return Err(CommandError::UnknownArgument(string_of(token)));
            },
        },
    }
    assert(target(schema@, bound, token@) == Ok::<(int, Seq<char>), CommandErrorView>(
        (index as int, raw@),
    ));
    let param = &params[index];
    assert(param@ == schema@[index as int]);
    match Value::coerce(param.kind, raw) {
        Some(value) => {
            values.set(index, Some(value));
            assert(bound_views(values@) == bound.update(index as int, Some(value@)));
            Ok(())
        },
        None => Err(CommandError::TypeMismatch(param.name.clone(), param.kind, string_of(raw))),
    }
}

/// The index of the first required parameter that has no value in `values`.
fn first_missing(params: &Vec<Param>, values: &Vec<Option<Value>>) -> (r: Option<usize>)
    requires
        values@.len() == params@.len(),
    ensures
        match r {
            Some(i) => missing_required(param_views(params@), bound_views(values@)) == Some(
                i as int,
            ) && i < params@.len(),
            None => missing_required(param_views(params@), bound_views(values@)) is None,
        },
{
    let ghost missing = Seq::new(
        param_views(params@).len(),
        |i: int| param_views(params@)[i].required && bound_views(values@)[i] is None,
    );
    let mut i: usize = 0;
    while i < params.len()
        invariant
            i <= params@.len(),
            values@.len() == params@.len(),
            missing == Seq::new(
                param_views(params@).len(),
                |i: int| param_views(params@)[i].required && bound_views(values@)[i] is None,
            ),
            forall|j: int| 0 <= j < i ==> !missing[j],
        decreases params@.len() - i,
    {
        if params[i].required && values[i].is_none() {
            proof {
                lemma_first_index(missing, true, i as int);
            }
            return Some(i);
        }
        i += 1;
    }
    proof {
        lemma_no_index(missing, true);
    }
    None
}

/// Parses the invocation string `raw` against `schema`.
///
/// The first token is the name of the command and binds nothing. The result is the typed
/// arguments, which conform to the schema, or the first error met: no arguments are handed
/// out besides an error.
pub fn parse_args(schema: &ParamSchema, raw: &str) -> (r: Result<TypedArgs, CommandError>)
    ensures
        parsed_view(r) == parsed(schema@, raw@),
        r matches Ok(args) ==> conforms(schema@, args@),
{
    let params = schema.params();
    let chars = chars_of(raw);
    let split = split_words(&chars);
    let ghost all = words(split@);
    let ghost start = unbound(schema@.len());
    let mut values: Vec<Option<Value>> = Vec::new();
    let mut k: usize = 0;
    while k < params.len()
        invariant
            k <= params@.len(),
            bound_views(values@) == unbound(k as nat),
        decreases params@.len() - k,
    {
        let ghost before = bound_views(values@);
        values.push(None);
        proof {
            assert(bound_views(values@) == before.push(None));
            assert(before.push(None) == unbound((k + 1) as nat));
        }
        k += 1;
    }
    let mut t: usize = if split.len() == 0 {
        0
    } else {
        1
    };
    assert(all.skip(t as int) == argument_tokens(raw@));
    while t < split.len()
        invariant
            t <= split@.len(),
            all == words(split@),
            start == unbound(schema@.len()),
            well_typed(schema@, bound_views(values@)),
            bind_all(schema@, start, argument_tokens(raw@)) == bind_all(
                schema@,
                bound_views(values@),
                all.skip(t as int),
            ),
        decreases split@.len() - t,
    {
        let ghost before = bound_views(values@);
        proof {
            assert(all.skip(t as int)[0] == split@[t as int]@);
            assert(all.skip(t as int).drop_first() == all.skip(t + 1));
            lemma_bind_well_typed(schema@, before, split@[t as int]@);
            assert(bind_all(schema@, before, all.skip(t as int)) == match bind(
                schema@,
                before,
                split@[t as int]@,
            ) {
                Err(e) => Err(e),
                Ok(next) => bind_all(schema@, next, all.skip(t + 1)),
            });
        }
        match bind_token(schema, &mut values, split[t].as_slice()) {
            Ok(()) => {},
            Err(error) => {
                return Err(error);
            },
        }
        t += 1;
    }
    proof {
        lemma_parsed_conforms(schema@, raw@);
    }
    match first_missing(params, &values) {
        Some(i) => Err(CommandError::MissingRequiredArgument(params[i].name.clone())),
        None => {
            let mut names: Vec<String> = Vec::new();
            let mut i: usize = 0;
            while i < params.len()
                invariant
                    i <= params@.len(),
                    names@.len() == i,
                    forall|j: int| 0 <= j < i ==> (#[trigger] names@[j])@ == params@[j].name@,
                decreases params@.len() - i,
            {
                names.push(params[i].name.clone());
                i += 1;
            }
            let ghost bound = bound_views(values@);
            let typed = TypedArgs::from_parts(names, values);
            assert(typed@ == arguments(schema@, bound));
            Ok(typed)
        },
    }
}

} // verus!
