//! The registry of debug windows.

use vstd::prelude::*;
use crate::context::{request_views, ConsoleExecutionContext, RequestView};
use crate::table::{
    copy_names, find_name, lemma_table_key, lemma_table_keys, lemma_table_len, lemma_table_push,
    lemma_table_update, table,
};
use crate::text::texts;

verus! {

/// A registered debug window: what draws it, and whether it is open.
pub struct WindowEntry<W> {
    /// What the user interface calls to draw the window while it is open.
    pub drawable: W,
    /// Whether the window is open.
    pub open: bool,
}

/// The windows after the one named `name` is opened or closed; the same windows where no
/// window has that name.
pub open spec fn toggled<W>(
    windows: Map<Seq<char>, WindowEntry<W>>,
    name: Seq<char>,
    open: bool,
) -> Map<Seq<char>, WindowEntry<W>> {
    if windows.dom().contains(name) {
        windows.insert(name, WindowEntry { drawable: windows[name].drawable, open })
    } else {
        windows
    }
}

/// The windows after the requests are carried out, in their order.
pub open spec fn applied<W>(
    windows: Map<Seq<char>, WindowEntry<W>>,
    requests: Seq<RequestView>,
) -> Map<Seq<char>, WindowEntry<W>>
    decreases requests.len(),
{
    if requests.len() == 0 {
        windows
    } else {
        toggled(applied(windows, requests.drop_last()), requests.last().name, requests.last().open)
    }
}

/// Whether the window named `name` is registered and open.
pub open spec fn shown<W>(windows: Map<Seq<char>, WindowEntry<W>>, name: Seq<char>) -> bool {
    windows.dom().contains(name) && windows[name].open
}

/// Opening or closing a window makes no window and removes none, changes no other window,
/// and leaves what draws the window as it was: a registered window is then open or closed
/// as was asked, and a name without a window still has none.
pub proof fn lemma_toggled<W>(windows: Map<Seq<char>, WindowEntry<W>>, name: Seq<char>, open: bool)
    ensures
        toggled(windows, name, open).dom() == windows.dom(),
        shown(toggled(windows, name, open), name) == (windows.dom().contains(name) && open),
        windows.dom().contains(name) ==> toggled(windows, name, open)[name].drawable
            == windows[name].drawable,
        forall|other: Seq<char>|
            other != name && windows.dom().contains(other) ==> #[trigger] toggled(
                windows,
                name,
                open,
            )[other] == windows[other],
{
    assert(toggled(windows, name, open).dom() =~= windows.dom());
}

/// Carrying out requests makes no window and removes none, and leaves what draws each
/// window as it was: whatever a handler asks for, only open flags change.
pub proof fn lemma_applied<W>(windows: Map<Seq<char>, WindowEntry<W>>, requests: Seq<RequestView>)
    ensures
        applied(windows, requests).dom() == windows.dom(),
        forall|name: Seq<char>|
            windows.dom().contains(name) ==> (#[trigger] applied(windows, requests)[name]).drawable
                == windows[name].drawable,
    decreases requests.len(),
{
    if requests.len() > 0 {
        lemma_applied(windows, requests.drop_last());
        let before = applied(windows, requests.drop_last());
        lemma_toggled(before, requests.last().name, requests.last().open);
        assert forall|name: Seq<char>| windows.dom().contains(name) implies (#[trigger] applied(
            windows,
            requests,
        )[name]).drawable == windows[name].drawable by {
            assert(before[name].drawable == windows[name].drawable);
        }
    }
}

/// The debug windows by name.
pub struct DebugWindowRegistry<W> {
    names: Vec<String>,
    entries: Vec<WindowEntry<W>>,
}

impl<W> View for DebugWindowRegistry<W> {
    type V = Map<Seq<char>, WindowEntry<W>>;

    closed spec fn view(&self) -> Map<Seq<char>, WindowEntry<W>> {
        table(texts(self.names@), self.entries@)
    }
}

impl<W> DebugWindowRegistry<W> {
    #[verifier::type_invariant]
    spec fn well_formed(self) -> bool {
        &&& self.names@.len() == self.entries@.len()
        &&& texts(self.names@).no_duplicates()
    }

    /// The registry without windows.
    pub fn new() -> (registry: Self)
        ensures
            registry@ == Map::<Seq<char>, WindowEntry<W>>::empty(),
    {
        let registry = DebugWindowRegistry { names: Vec::new(), entries: Vec::new() };
        assert(registry@ =~= Map::<Seq<char>, WindowEntry<W>>::empty());
        registry
    }

    /// The number of registered windows.
    pub fn len(&self) -> (n: usize)
        ensures
            self@.dom().finite(),
            n == self@.dom().len(),
    {
        proof {
            use_type_invariant(self);
            lemma_table_len(texts(self.names@), self.entries@);
        }
        self.names.len()
    }

    /// Whether a window is registered under `name`.
    pub fn contains(&self, name: &str) -> (b: bool)
        ensures
            b == self@.dom().contains(name@),
    {
        let key = name.to_owned();
        proof {
            lemma_table_key(texts(self.names@), self.entries@, name@);
        }
        find_name(&self.names, &key).is_some()
    }

    /// Registers `drawable` as the window named `name`, closed. A window that was
    /// registered under that name before is replaced.
    pub fn register(&mut self, name: String, drawable: W)
        ensures
            final(self)@ == old(self)@.insert(name@, WindowEntry { drawable, open: false }),
    {
        proof {
            use_type_invariant(&*self);
        }
        let ghost old_names = texts(self.names@);
        let ghost old_entries = self.entries@;
        let entry = WindowEntry { drawable, open: false };
        let mut taken = DebugWindowRegistry { names: Vec::new(), entries: Vec::new() };
        std::mem::swap(&mut taken, self);
        let DebugWindowRegistry { mut names, mut entries } = taken;
        match find_name(&names, &name) {
            Some(i) => {
                proof {
                    lemma_table_update(old_names, old_entries, i as int, entry);
                }
                entries.set(i, entry);
            },
            None => {
                proof {
                    lemma_table_push(old_names, old_entries, name@, entry);
                }
                names.push(name);
                entries.push(entry);
                assert(texts(names@) == old_names.push(name@));
            },
        }
        *self = DebugWindowRegistry { names, entries };
    }

    /// Opens or closes the window named `name`. Where no window has that name, nothing
    /// changes: no window is made, and no error is raised.
    pub fn set_open(&mut self, name: &str, open: bool)
        ensures
            final(self)@ == toggled(old(self)@, name@, open),
    {
        proof {
            use_type_invariant(&*self);
            lemma_table_key(texts(self.names@), self.entries@, name@);
        }
        let key = name.to_owned();
        match find_name(&self.names, &key) {
            Some(i) => {
                let ghost old_entries = self.entries@;
                let mut taken = DebugWindowRegistry { names: Vec::new(), entries: Vec::new() };
                std::mem::swap(&mut taken, self);
                let DebugWindowRegistry { names, mut entries } = taken;
                entries[i].open = open;
                proof {
                    lemma_table_update(
                        texts(names@),
                        old_entries,
                        i as int,
                        WindowEntry { drawable: old_entries[i as int].drawable, open },
                    );
                    assert(entries@ == old_entries.update(
                        i as int,
                        WindowEntry { drawable: old_entries[i as int].drawable, open },
                    ));
                }
                *self = DebugWindowRegistry { names, entries };
            },
            None => {},
        }
    }

    /// Whether the window named `name` is registered and open.
    pub fn is_open(&self, name: &str) -> (b: bool)
        ensures
            b == shown(self@, name@),
    {
        proof {
            use_type_invariant(self);
            lemma_table_key(texts(self.names@), self.entries@, name@);
        }
        let key = name.to_owned();
        match find_name(&self.names, &key) {
            Some(i) => self.entries[i].open,
            None => false,
        }
    }

    /// What draws the window named `name`, if one is registered.
    pub fn drawable(&self, name: &str) -> (drawable: Option<&W>)
        ensures
            match drawable {
                Some(d) => self@.dom().contains(name@) && *d == self@[name@].drawable,
                None => !self@.dom().contains(name@),
            },
    {
        proof {
            use_type_invariant(self);
            lemma_table_key(texts(self.names@), self.entries@, name@);
        }
        let key = name.to_owned();
        match find_name(&self.names, &key) {
            Some(i) => Some(&self.entries[i].drawable),
            None => None,
        }
    }

    /// What draws the window named `name`, for the user interface to draw with. The window
    /// stays registered under its name, open or closed as it was.
    pub fn drawable_mut(&mut self, name: &str) -> (drawable: Option<&mut W>)
        ensures
            match drawable {
                Some(d) => {
                    &&& old(self)@.dom().contains(name@)
                    &&& *d == old(self)@[name@].drawable
                    &&& final(self)@ == old(self)@.insert(
                        name@,
                        WindowEntry { drawable: *final(d), open: old(self)@[name@].open },
                    )
                },
                None => !old(self)@.dom().contains(name@) && final(self)@ == old(self)@,
            },
    {
        proof {
            use_type_invariant(&*self);
            lemma_table_key(texts(self.names@), self.entries@, name@);
        }
        let key = name.to_owned();
        match find_name(&self.names, &key) {
            Some(i) => {
                proof {
                    assert forall|w: W| #![auto]
                        table(
                            texts(self.names@),
                            self.entries@.update(
                                i as int,
                                WindowEntry { drawable: w, open: self.entries@[i as int].open },
                            ),
                        ) == self@.insert(
                            name@,
                            WindowEntry { drawable: w, open: self.entries@[i as int].open },
                        ) by {
                        lemma_table_update(
                            texts(self.names@),
                            self.entries@,
                            i as int,
                            WindowEntry { drawable: w, open: self.entries@[i as int].open },
                        );
                    }
                }
                Some(&mut self.entries[i].drawable)
            },
            None => None,
        }
    }

    /// The names of the registered windows, each once.
    pub fn names(&self) -> (names: Vec<String>)
        ensures
            texts(names@).no_duplicates(),
            texts(names@).to_set() == self@.dom(),
    {
        proof {
            use_type_invariant(self);
            lemma_table_keys(texts(self.names@), self.entries@);
        }
        copy_names(&self.names)
    }

    /// Carries out the requests that `context` holds, in the order in which they were
    /// made.
    pub fn apply(&mut self, context: &ConsoleExecutionContext)
        ensures
            final(self)@ == applied(old(self)@, context@),
    {
        let requests = context.requests();
        let mut i: usize = 0;
        while i < requests.len()
            invariant
                i <= requests@.len(),
                request_views(requests@) == context@,
                self@ == applied(old(self)@, context@.take(i as int)),
            decreases requests@.len() - i,
        {
            proof {
                assert(context@.take(i + 1).drop_last() == context@.take(i as int));
            }
            self.set_open(requests[i].name.as_str(), requests[i].open);
            i += 1;
        }
        assert(context@.take(i as int) == context@);
    }
}

} // verus!
