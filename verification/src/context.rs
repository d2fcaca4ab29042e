//! What a handler can do besides its own work: ask for debug windows to be opened or
//! closed.

use vstd::prelude::*;

verus! {

/// The request to open or close the debug window of a name.
#[derive(Debug, PartialEq, Eq)]
pub struct WindowRequest {
    /// The name of the window.
    pub name: String,
    /// Whether the window is to be open.
    pub open: bool,
}

/// What a [`WindowRequest`] stands for.
pub struct RequestView {
    pub name: Seq<char>,
    pub open: bool,
}

impl View for WindowRequest {
    type V = RequestView;

    open spec fn view(&self) -> RequestView {
        RequestView { name: self.name@, open: self.open }
    }
}

/// What a list of requests stands for.
pub open spec fn request_views(requests: Seq<WindowRequest>) -> Seq<RequestView> {
    Seq::new(requests.len(), |i: int| requests[i]@)
}

/// The capability that a handler is given for the time of one invocation.
///
/// It takes requests to open or close debug windows, which the registry of commands hands
/// to the registry of windows when the handler has returned. It gives no access to either
/// registry.
#[derive(Debug, PartialEq, Eq)]
pub struct ConsoleExecutionContext {
    requests: Vec<WindowRequest>,
}

impl View for ConsoleExecutionContext {
    type V = Seq<RequestView>;

    closed spec fn view(&self) -> Seq<RequestView> {
        request_views(self.requests@)
    }
}

impl ConsoleExecutionContext {
    /// A context that holds no request.
    pub fn new() -> (context: ConsoleExecutionContext)
        ensures
            context@ == Seq::<RequestView>::empty(),
    {
        let context = ConsoleExecutionContext { requests: Vec::new() };
        assert(context@ == Seq::<RequestView>::empty());
        context
    }

    /// Asks for the debug window named `name` to be opened or closed. A name under which
    /// no window is registered is no error: the request then has no effect.
    pub fn set_open_debug_window(&mut self, name: &str, open: bool)
        ensures
            final(self)@ == old(self)@.push(RequestView { name: name@, open }),
    {
        self.requests.push(WindowRequest { name: name.to_owned(), open });
        assert(self@ == old(self)@.push(RequestView { name: name@, open }));
    }

    /// The requests made so far, in the order in which they were made.
    pub fn requests(&self) -> (requests: &Vec<WindowRequest>)
        ensures
            request_views(requests@) == self@,
    {
        &self.requests
    }
}

} // verus!
