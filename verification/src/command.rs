//! The registry of commands, and their invocation.

use vstd::prelude::*;
use crate::args::{conforms, TypedArgs};
use crate::context::ConsoleExecutionContext;
use crate::error::{CommandError, CommandErrorView};
use crate::naming::{is_generated, random_command_name};
use crate::parser::{parse_args, parsed};
use crate::schema::{ParamSchema, ParamView};
use crate::table::{
    copy_names, find_name, lemma_table_key, lemma_table_keys, lemma_table_len, lemma_table_push,
    lemma_table_update, table,
};
use crate::text::texts;
use crate::window::{applied, lemma_applied, DebugWindowRegistry};

verus! {

/// A registered command: what it is for, the parameters it takes, and what runs it.
pub struct CommandEntry<H> {
    /// A line of help for the operator.
    pub description: String,
    /// The parameters of the command.
    pub schema: ParamSchema,
    /// What is called with the arguments of an invocation.
    pub handler: H,
}

/// What runs a command: anything that can be called with the context of the invocation and
/// its typed arguments, any number of times.
pub trait Handler: Fn(&mut ConsoleExecutionContext, &TypedArgs) -> Result<(), CommandError> {}

impl<F: Fn(&mut ConsoleExecutionContext, &TypedArgs) -> Result<(), CommandError>> Handler for F {}

/// Whether `handler` can be called with a context that holds no request and with any
/// arguments that conform to `schema`.
pub open spec fn accepts<H: Handler>(
    handler: H,
    schema: Seq<ParamView>,
) -> bool {
    forall|context: &mut ConsoleExecutionContext, args: &TypedArgs|
        context@.len() == 0 && conforms(schema, args@) ==> #[trigger] call_requires(
            handler,
            (context, args),
        )
}

/// Whether `handler` returns `Ok` whenever it returns.
pub open spec fn never_fails<H: Handler>(
    handler: H,
) -> bool {
    forall|context: &mut ConsoleExecutionContext, args: &TypedArgs, r: Result<(), CommandError>|
        #[trigger] call_ensures(handler, (context, args), r) ==> r is Ok
}

/// The commands after each of `entries` is registered under the name that stands in its
/// place in `names`, from first to last.
pub open spec fn registered_all<H>(
    commands: Map<Seq<char>, CommandEntry<H>>,
    names: Seq<Seq<char>>,
    entries: Seq<CommandEntry<H>>,
) -> Map<Seq<char>, CommandEntry<H>>
    decreases names.len(),
{
    if names.len() == 0 {
        commands
    } else {
        registered_all(commands, names.drop_last(), entries.drop_last()).insert(
            names.last(),
            entries.last(),
        )
    }
}

/// Of two registrations under one name only the second is left: the registry is as if the
/// first had never been made, and the name finds the second entry.
pub proof fn lemma_later_registration_wins<H>(
    commands: Map<Seq<char>, CommandEntry<H>>,
    name: Seq<char>,
    first: CommandEntry<H>,
    second: CommandEntry<H>,
)
    ensures
        commands.insert(name, first).insert(name, second) == commands.insert(name, second),
        commands.insert(name, first).insert(name, second)[name] == second,
{
    assert(commands.insert(name, first).insert(name, second) =~= commands.insert(name, second));
}

/// Registering a command leaves the commands of every other name as they were.
pub proof fn lemma_registration_keeps_others<H>(
    commands: Map<Seq<char>, CommandEntry<H>>,
    name: Seq<char>,
    entry: CommandEntry<H>,
    other: Seq<char>,
)
    requires
        other != name,
    ensures
        commands.insert(name, entry).dom().contains(other) == commands.dom().contains(other),
        commands.dom().contains(other) ==> commands.insert(name, entry)[other] == commands[other],
{
}

/// Commands that are registered under names of which no two are the same all stay: each
/// name finds its own entry, whatever was registered before, after or in between, and the
/// commands of all other names are as they were.
pub proof fn lemma_distinct_registrations_stay<H>(
    commands: Map<Seq<char>, CommandEntry<H>>,
    names: Seq<Seq<char>>,
    entries: Seq<CommandEntry<H>>,
)
    requires
        names.len() == entries.len(),
        names.no_duplicates(),
    ensures
        forall|i: int|
            0 <= i < names.len() ==> registered_all(commands, names, entries).dom().contains(
                #[trigger] names[i],
            ) && registered_all(commands, names, entries)[names[i]] == entries[i],
        forall|other: Seq<char>|
            !names.contains(other) ==> (#[trigger] registered_all(
                commands,
                names,
                entries,
            ).dom().contains(other)) == commands.dom().contains(other) && (commands.dom().contains(
                other,
            ) ==> registered_all(commands, names, entries)[other] == commands[other]),
    decreases names.len(),
{
    if names.len() > 0 {
        let n = names.len() - 1;
        lemma_distinct_registrations_stay(commands, names.drop_last(), entries.drop_last());
        let before = registered_all(commands, names.drop_last(), entries.drop_last());
        let after = registered_all(commands, names, entries);
        assert forall|i: int| 0 <= i < names.len() implies after.dom().contains(
            #[trigger] names[i],
        ) && after[names[i]] == entries[i] by {
            if i < n {
                assert(names.drop_last()[i] == names[i]);
                assert(entries.drop_last()[i] == entries[i]);
                assert(names[i] != names[n]);
            }
        }
        assert forall|other: Seq<char>| !names.contains(other) implies (#[trigger] after.dom().contains(
            other,
        )) == commands.dom().contains(other) && (commands.dom().contains(other) ==> after[other]
            == commands[other]) by {
            assert(names[n] != other);
            if names.drop_last().contains(other) {
                let k = choose|k: int|
                    0 <= k < names.drop_last().len() && names.drop_last()[k] == other;
                assert(names[k] == other);
            }
        }
    }
}

/// Distinct names that were not taken make the registry grow by one command each: none
/// is dropped.
pub proof fn lemma_distinct_registrations_count<H>(
    commands: Map<Seq<char>, CommandEntry<H>>,
    names: Seq<Seq<char>>,
    entries: Seq<CommandEntry<H>>,
)
    requires
        names.len() == entries.len(),
        names.no_duplicates(),
        commands.dom().finite(),
        forall|i: int| 0 <= i < names.len() ==> !commands.dom().contains(#[trigger] names[i]),
    ensures
        registered_all(commands, names, entries).dom().finite(),
        registered_all(commands, names, entries).dom().len() == commands.dom().len() + names.len(),
    decreases names.len(),
{
    if names.len() > 0 {
        let n = names.len() - 1;
        assert forall|i: int| 0 <= i < names.drop_last().len() implies !commands.dom().contains(
            #[trigger] names.drop_last()[i],
        ) by {
            assert(names.drop_last()[i] == names[i]);
        }
        lemma_distinct_registrations_count(commands, names.drop_last(), entries.drop_last());
        lemma_distinct_registrations_stay(commands, names.drop_last(), entries.drop_last());
        let before = registered_all(commands, names.drop_last(), entries.drop_last());
        if names.drop_last().contains(names[n]) {
            let k = choose|k: int|
                0 <= k < names.drop_last().len() && names.drop_last()[k] == names[n];
            assert(names[k] == names[n]);
        }
        assert(!before.dom().contains(names[n]));
    }
}

/// The commands by name.
pub struct CommandRegistry<H: Handler> {
    names: Vec<String>,
    entries: Vec<CommandEntry<H>>,
}

impl<H: Handler> View for CommandRegistry<H> {
    type V = Map<Seq<char>, CommandEntry<H>>;

    closed spec fn view(&self) -> Map<Seq<char>, CommandEntry<H>> {
        table(texts(self.names@), self.entries@)
    }
}

impl<H: Handler> CommandRegistry<H> {
    #[verifier::type_invariant]
    spec fn well_formed(self) -> bool {
        &&& self.names@.len() == self.entries@.len()
        &&& texts(self.names@).no_duplicates()
        &&& forall|i: int|
            0 <= i < self.entries@.len() ==> accepts(
                (#[trigger] self.entries@[i]).handler,
                self.entries@[i].schema@,
            )
    }

    /// The registry without commands.
    pub fn new() -> (registry: Self)
        ensures
            registry@ == Map::<Seq<char>, CommandEntry<H>>::empty(),
    {
        let registry = CommandRegistry { names: Vec::new(), entries: Vec::new() };
        assert(registry@ =~= Map::<Seq<char>, CommandEntry<H>>::empty());
        registry
    }

    /// The number of registered commands.
    pub fn len(&self) -> (n: usize)
        ensures
            self@.dom().finite(),
            n == self@.dom().len(),
    {
        proof {
            use_type_invariant(self);
            lemma_table_len(texts(self.names@), self.entries@);
        }
        self.names.len()
    }

    /// Whether a command is registered under `name`, letter for letter.
    pub fn contains(&self, name: &str) -> (b: bool)
        ensures
            b == self@.dom().contains(name@),
    {
        let key = name.to_owned();
        proof {
            lemma_table_key(texts(self.names@), self.entries@, name@);
        }
        find_name(&self.names, &key).is_some()
    }

    /// The command registered under `name`, letter for letter.
    pub fn get(&self, name: &str) -> (entry: Option<&CommandEntry<H>>)
        ensures
            match entry {
                Some(e) => self@.dom().contains(name@) && *e == self@[name@],
                None => !self@.dom().contains(name@),
            },
    {
        proof {
            use_type_invariant(self);
            lemma_table_key(texts(self.names@), self.entries@, name@);
        }
        let key = name.to_owned();
        match find_name(&self.names, &key) {
            Some(i) => Some(&self.entries[i]),
            None => None,
        }
    }

    /// The names of the registered commands, each once.
    pub fn names(&self) -> (names: Vec<String>)
        ensures
            texts(names@).no_duplicates(),
            texts(names@).to_set() == self@.dom(),
    {
        proof {
            use_type_invariant(self);
            lemma_table_keys(texts(self.names@), self.entries@);
        }
        copy_names(&self.names)
    }

    /// Registers a command under `name`. A command that was registered under that name
    /// before is replaced as a whole: the later registration wins, and this is no error.
    ///
    /// The handler must accept every context that holds no request together with any
    /// arguments that conform to the schema; it is never called with others.
    pub fn register(&mut self, name: String, description: String, schema: ParamSchema, handler: H)
        requires
            accepts(handler, schema@),
        ensures
            final(self)@ == old(self)@.insert(
                name@,
                CommandEntry { description, schema, handler },
            ),
    {
        proof {
            use_type_invariant(&*self);
        }
        let ghost old_names = texts(self.names@);
        let ghost old_entries = self.entries@;
        let entry = CommandEntry { description, schema, handler };
        let mut taken = CommandRegistry { names: Vec::new(), entries: Vec::new() };
        std::mem::swap(&mut taken, self);
        let CommandRegistry { mut names, mut entries } = taken;
        match find_name(&names, &name) {
            Some(i) => {
                proof {
                    lemma_table_update(old_names, old_entries, i as int, entry);
                }
                entries.set(i, entry);
            },
            None => {
                proof {
                    lemma_table_push(old_names, old_entries, name@, entry);
                }
                names.push(name);
                entries.push(entry);
                assert(texts(names@) == old_names.push(name@));
            },
        }
        *self = CommandRegistry { names, entries };
    }

    /// Registers a command under a name drawn at random, and returns the name. A command
    /// that was registered under that name before is replaced, as by [`Self::register`].
    pub fn register_generated(&mut self, description: String, schema: ParamSchema, handler: H) -> (name:
        String)
        requires
            accepts(handler, schema@),
        ensures
            is_generated(name@),
            final(self)@ == old(self)@.insert(
                name@,
                CommandEntry { description, schema, handler },
            ),
    {
        let name = random_command_name();
        self.register(name.clone(), description, schema, handler);
        name
    }

    /// Invokes the command registered under `name` with the invocation string `raw_input`,
    /// whose first token is the name of the command.
    ///
    /// Where no command has that name, or the invocation string does not parse against the
    /// schema of the command, the error is returned, the handler is not called and the
    /// windows stay as they are. Otherwise the handler is called once, with a context that
    /// holds no request and with exactly the parsed arguments; what it returns is returned
    /// unchanged, and the requests that it made of the context are carried out on
    /// `windows`, in their order. Whatever the handler asks for, no window is made or
    /// removed, and what draws each window stays as it was.
    pub fn invoke<W>(&self, name: &str, raw_input: &str, windows: &mut DebugWindowRegistry<W>) -> (r:
        Result<(), CommandError>)
        ensures
            !self@.dom().contains(name@) ==> final(windows)@ == old(windows)@ && (r matches Err(e)
                && e@ == CommandErrorView::UnknownCommand(name@)),
            self@.dom().contains(name@) ==> match parsed(self@[name@].schema@, raw_input@) {
                Err(error) => final(windows)@ == old(windows)@ && (r matches Err(e) && e@ == error),
                Ok(arguments) => exists|context: &mut ConsoleExecutionContext, args: TypedArgs|
                    {
                        &&& context@.len() == 0
                        &&& args@ == arguments
                        &&& #[trigger] call_ensures(self@[name@].handler, (context, &args), r)
                        &&& final(windows)@ == applied(old(windows)@, final(context)@)
                    },
            },
            self@.dom().contains(name@) && parsed(self@[name@].schema@, raw_input@) is Ok
                && never_fails(self@[name@].handler) ==> r is Ok,
            final(windows)@.dom() == old(windows)@.dom(),
            forall|window: Seq<char>|
                old(windows)@.dom().contains(window) ==> (#[trigger] final(windows)@[window]).drawable
                    == old(windows)@[window].drawable,
    {
        proof {
            use_type_invariant(self);
            lemma_table_key(texts(self.names@), self.entries@, name@);
        }
        let key = name.to_owned();
        match find_name(&self.names, &key) {
            None => Err(CommandError::UnknownCommand(key)),
            Some(i) => {
                let entry = &self.entries[i];
                match parse_args(&entry.schema, raw_input) {
                    Err(error) => Err(error),
                    Ok(args) => {
                        let mut context = ConsoleExecutionContext::new();
                        let handler = &entry.handler;
                        let r = handler(&mut context, &args);
                        proof {
                            lemma_applied(windows@, context@);
                        }
                        windows.apply(&context);
                        r
                    },
                }
            },
        }
    }
}

} // verus!
