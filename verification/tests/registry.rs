use std::cell::{Cell, RefCell};
use std::rc::Rc;
use std::sync::RwLock;

use dev_console::args::TypedArgs;
use dev_console::command::CommandRegistry;
use dev_console::context::{ConsoleExecutionContext, WindowRequest};
use dev_console::error::CommandError;
use dev_console::naming::{
    generated_name, letter_count_of, letter_of, low_byte_of, random_command_name,
};
use dev_console::schema::{Param, ParamSchema};
use dev_console::value::{ParamKind, Value};
use dev_console::window::DebugWindowRegistry;

type Handler = Box<dyn Fn(&mut ConsoleExecutionContext, &TypedArgs) -> Result<(), CommandError>>;

fn floats(required: bool) -> ParamSchema {
    ParamSchema::from_params(vec![
        Param::new("x", ParamKind::Float, required),
        Param::new("y", ParamKind::Float, required),
        Param::new("z", ParamKind::Float, required),
    ])
    .unwrap()
}

fn counting(counter: &Rc<Cell<u32>>) -> Handler {
    let counter = counter.clone();
    Box::new(move |_, _| {
        counter.set(counter.get() + 1);
        Ok(())
    })
}

fn float_of(value: Option<&Value>) -> Option<f32> {
    match value {
        Some(Value::Float(literal)) => Some(literal.as_str().parse::<f32>().unwrap()),
        Some(other) => panic!("not a float: {:?}", other),
        None => None,
    }
}

#[test]
fn handler_receives_exactly_the_parsed_values() {
    let seen: Rc<RefCell<Vec<(String, Option<f32>)>>> = Rc::new(RefCell::new(Vec::new()));
    let sink = seen.clone();
    let mut commands: CommandRegistry<Handler> = CommandRegistry::new();
    commands.register(
        "four".to_string(),
        "sample four command.".to_string(),
        floats(true),
        Box::new(move |_, args| {
            for i in 0..args.len() {
                sink.borrow_mut().push((args.name_at(i).to_string(), float_of(args.value_at(i))));
            }
            Ok(())
        }),
    );
    let mut windows: DebugWindowRegistry<()> = DebugWindowRegistry::new();
    assert_eq!(commands.invoke("four", "four 1.0 2.0 3.0", &mut windows), Ok(()));
    assert_eq!(
        *seen.borrow(),
        vec![
            ("x".to_string(), Some(1.0)),
            ("y".to_string(), Some(2.0)),
            ("z".to_string(), Some(3.0)),
        ]
    );
}

#[test]
fn shared_state_is_set_from_optional_arguments() {
    let xyz = Rc::new(RwLock::new((0.0f32, 0.0f32, 0.0f32)));
    let cell = xyz.clone();
    let mut commands: CommandRegistry<Handler> = CommandRegistry::new();
    commands.register(
        "foo".to_string(),
        "sample foo command".to_string(),
        floats(false),
        Box::new(move |_, args| {
            let mut xyz = cell.write().unwrap();
            if let Some(x) = float_of(args.get("x")) {
                xyz.0 = x;
            }
            if let Some(y) = float_of(args.get("y")) {
                xyz.1 = y;
            }
            if let Some(z) = float_of(args.get("z")) {
                xyz.2 = z;
            }
            Ok(())
        }),
    );
    let mut windows: DebugWindowRegistry<()> = DebugWindowRegistry::new();
    assert_eq!(commands.invoke("foo", "foo x=5.0 z=-1.2", &mut windows), Ok(()));
    assert_eq!(*xyz.read().unwrap(), (5.0, 0.0, -1.2));
    assert_eq!(commands.invoke("foo", "foo 1 2", &mut windows), Ok(()));
    assert_eq!(*xyz.read().unwrap(), (1.0, 2.0, -1.2));
    assert_eq!(commands.invoke("foo", "foo", &mut windows), Ok(()));
    assert_eq!(*xyz.read().unwrap(), (1.0, 2.0, -1.2));
}

#[test]
fn second_registration_replaces_the_first() {
    let first = Rc::new(Cell::new(0));
    let second = Rc::new(Cell::new(0));
    let mut commands: CommandRegistry<Handler> = CommandRegistry::new();
    commands.register("foo".to_string(), "first".to_string(), floats(true), counting(&first));
    commands.register("foo".to_string(), "second".to_string(), floats(false), counting(&second));
    assert_eq!(commands.len(), 1);
    assert_eq!(commands.names(), vec!["foo"]);
    let entry = commands.get("foo").unwrap();
    assert_eq!(entry.description, "second");
    assert_eq!(entry.schema, floats(false));
    let mut windows: DebugWindowRegistry<()> = DebugWindowRegistry::new();
    assert_eq!(commands.invoke("foo", "foo", &mut windows), Ok(()));
    assert_eq!(first.get(), 0);
    assert_eq!(second.get(), 1);
}

#[test]
fn hundred_distinct_names_stay_independent() {
    let mut commands: CommandRegistry<Handler> = CommandRegistry::new();
    let mut counters = Vec::new();
    let mut names = Vec::new();
    for i in 0..100u8 {
        let name = generated_name(&vec![i / 26, i % 26, 0, 0, 0]);
        assert!(!names.contains(&name));
        let counter = Rc::new(Cell::new(0));
        commands.register(
            name.clone(),
            "sample many command.".to_string(),
            floats(true),
            counting(&counter),
        );
        counters.push(counter);
        names.push(name);
    }
    assert_eq!(commands.len(), 100);
    let mut windows: DebugWindowRegistry<()> = DebugWindowRegistry::new();
    for (i, name) in names.iter().enumerate() {
        assert!(commands.contains(name));
        assert_eq!(commands.invoke(name, &format!("{} 1 2 3", name), &mut windows), Ok(()));
        for (j, counter) in counters.iter().enumerate() {
            assert_eq!(counter.get(), if j <= i { 1 } else { 0 });
        }
    }
}

#[test]
fn commands_under_random_names_can_be_invoked() {
    let mut commands: CommandRegistry<Handler> = CommandRegistry::new();
    let counter = Rc::new(Cell::new(0));
    let mut names = Vec::new();
    for _ in 0..100 {
        names.push(commands.register_generated(
            "sample many command.".to_string(),
            floats(true),
            counting(&counter),
        ));
    }
    let mut distinct = names.clone();
    distinct.sort();
    distinct.dedup();
    assert_eq!(commands.len(), distinct.len());
    let mut windows: DebugWindowRegistry<()> = DebugWindowRegistry::new();
    for name in &distinct {
        assert_eq!(commands.invoke(name, "many 1.0 2.0 3.0", &mut windows), Ok(()));
    }
    assert_eq!(counter.get() as usize, distinct.len());
}

#[test]
fn generated_names_have_their_form() {
    assert_eq!(letter_count_of(0), 5);
    assert_eq!(letter_count_of(7), 12);
    assert_eq!(letter_count_of(49), 54);
    assert_eq!(letter_count_of(50), 5);
    assert_eq!(letter_count_of(u32::MAX), 50);
    assert_eq!(letter_of(0), 'a');
    assert_eq!(letter_of(25), 'z');
    assert_eq!(letter_of(26), 'a');
    assert_eq!(letter_of(27), 'b');
    assert_eq!(letter_of(255), 'v');
    assert_eq!(low_byte_of(0x1234_56ff), 0xff);
    assert_eq!(low_byte_of(0x100), 0);
    assert_eq!(generated_name(&vec![0, 1, 25, 26, 27]), "many_abzab");
    assert_eq!(generated_name(&vec![]), "many_");
    for _ in 0..200 {
        let name = random_command_name();
        assert!(name.starts_with("many_"));
        assert!(name.len() >= 10 && name.len() < 60, "{}", name);
        assert!(name[5..].chars().all(|c| c.is_ascii_lowercase()));
    }
}

#[test]
fn unknown_command_is_reported_by_name() {
    let mut commands: CommandRegistry<Handler> = CommandRegistry::new();
    let counter = Rc::new(Cell::new(0));
    commands.register("foo".to_string(), "d".to_string(), floats(false), counting(&counter));
    let mut windows: DebugWindowRegistry<()> = DebugWindowRegistry::new();
    for name in ["fo", "fooo", "Foo", "foo ", ""] {
        assert!(!commands.contains(name));
        assert!(commands.get(name).is_none());
        assert_eq!(
            commands.invoke(name, "foo", &mut windows),
            Err(CommandError::UnknownCommand(name.to_string()))
        );
    }
    assert_eq!(counter.get(), 0);
}

#[test]
fn parse_errors_keep_the_handler_from_running() {
    let counter = Rc::new(Cell::new(0));
    let mut commands: CommandRegistry<Handler> = CommandRegistry::new();
    commands.register("four".to_string(), "d".to_string(), floats(true), counting(&counter));
    let mut windows: DebugWindowRegistry<()> = DebugWindowRegistry::new();
    assert_eq!(
        commands.invoke("four", "four 1.0 2.0", &mut windows),
        Err(CommandError::MissingRequiredArgument("z".to_string()))
    );
    assert_eq!(
        commands.invoke("four", "four 1.0 2.0 abc", &mut windows),
        Err(CommandError::TypeMismatch("z".to_string(), ParamKind::Float, "abc".to_string()))
    );
    assert_eq!(
        commands.invoke("four", "four w=1", &mut windows),
        Err(CommandError::UnknownArgument("w".to_string()))
    );
    assert_eq!(counter.get(), 0);
    assert_eq!(commands.invoke("four", "four 1.0 2.0 3.0", &mut windows), Ok(()));
    assert_eq!(counter.get(), 1);
}

#[test]
fn handler_error_is_returned_unchanged() {
    let mut commands: CommandRegistry<Handler> = CommandRegistry::new();
    commands.register(
        "fail".to_string(),
        "d".to_string(),
        ParamSchema::new(),
        Box::new(|_, _| Err(CommandError::HandlerError("no luck".to_string()))),
    );
    commands.register(
        "odd".to_string(),
        "d".to_string(),
        ParamSchema::new(),
        Box::new(|_, _| Err(CommandError::UnknownCommand("inner".to_string()))),
    );
    let mut windows: DebugWindowRegistry<()> = DebugWindowRegistry::new();
    assert_eq!(
        commands.invoke("fail", "fail", &mut windows),
        Err(CommandError::HandlerError("no luck".to_string()))
    );
    assert_eq!(
        commands.invoke("odd", "odd", &mut windows),
        Err(CommandError::UnknownCommand("inner".to_string()))
    );
}

fn window_command(commands: &mut CommandRegistry<Handler>, command: &str, window: &'static str) {
    commands.register(
        command.to_string(),
        "foo window command.".to_string(),
        ParamSchema::from_params(vec![Param::required("open", ParamKind::Bool)]).unwrap(),
        Box::new(move |context, args| {
            match args.get("open") {
                Some(Value::Bool(open)) => context.set_open_debug_window(window, *open),
                other => panic!("not a bool: {:?}", other),
            }
            Ok(())
        }),
    );
}

#[test]
fn handler_toggles_a_window_through_the_context() {
    let mut commands: CommandRegistry<Handler> = CommandRegistry::new();
    window_command(&mut commands, "foo_window", "foo_window");
    let mut windows: DebugWindowRegistry<&str> = DebugWindowRegistry::new();
    windows.register("foo_window".to_string(), "hello from foo window");
    windows.register("bar_window".to_string(), "bar");
    assert!(!windows.is_open("foo_window"));
    assert_eq!(commands.invoke("foo_window", "foo_window true", &mut windows), Ok(()));
    assert!(windows.is_open("foo_window"));
    assert!(!windows.is_open("bar_window"));
    assert_eq!(commands.invoke("foo_window", "foo_window open=false", &mut windows), Ok(()));
    assert!(!windows.is_open("foo_window"));
    assert_eq!(
        commands.invoke("foo_window", "foo_window maybe", &mut windows),
        Err(CommandError::TypeMismatch("open".to_string(), ParamKind::Bool, "maybe".to_string()))
    );
    assert!(!windows.is_open("foo_window"));
    assert_eq!(windows.drawable("foo_window"), Some(&"hello from foo window"));
}

#[test]
fn toggle_of_an_unregistered_window_from_a_handler_is_silent() {
    let mut commands: CommandRegistry<Handler> = CommandRegistry::new();
    window_command(&mut commands, "ghost", "ghost_window");
    let mut windows: DebugWindowRegistry<u8> = DebugWindowRegistry::new();
    windows.register("foo_window".to_string(), 1);
    assert_eq!(commands.invoke("ghost", "ghost true", &mut windows), Ok(()));
    assert_eq!(windows.len(), 1);
    assert!(!windows.contains("ghost_window"));
    assert!(!windows.is_open("ghost_window"));
    assert!(!windows.is_open("foo_window"));
}

#[test]
fn requests_are_applied_even_when_the_handler_fails() {
    let mut commands: CommandRegistry<Handler> = CommandRegistry::new();
    commands.register(
        "both".to_string(),
        "d".to_string(),
        ParamSchema::new(),
        Box::new(|context, _| {
            context.set_open_debug_window("a", true);
            context.set_open_debug_window("b", true);
            context.set_open_debug_window("a", false);
            Err(CommandError::HandlerError("late".to_string()))
        }),
    );
    let mut windows: DebugWindowRegistry<u8> = DebugWindowRegistry::new();
    windows.register("a".to_string(), 1);
    windows.register("b".to_string(), 2);
    assert_eq!(
        commands.invoke("both", "both", &mut windows),
        Err(CommandError::HandlerError("late".to_string()))
    );
    assert!(!windows.is_open("a"));
    assert!(windows.is_open("b"));
}

#[test]
fn set_open_then_is_open() {
    let mut windows: DebugWindowRegistry<u8> = DebugWindowRegistry::new();
    windows.register("foo_window".to_string(), 1);
    assert!(!windows.is_open("foo_window"));
    windows.set_open("foo_window", true);
    assert!(windows.is_open("foo_window"));
    windows.set_open("foo_window", true);
    assert!(windows.is_open("foo_window"));
    windows.set_open("foo_window", false);
    assert!(!windows.is_open("foo_window"));
    windows.set_open("missing", true);
    assert!(!windows.is_open("missing"));
    assert!(!windows.contains("missing"));
    assert_eq!(windows.len(), 1);
    assert_eq!(windows.names(), vec!["foo_window"]);
}

#[test]
fn window_registration_replaces_and_closes() {
    let mut windows: DebugWindowRegistry<u8> = DebugWindowRegistry::new();
    assert_eq!(windows.len(), 0);
    windows.register("w".to_string(), 1);
    windows.set_open("w", true);
    windows.register("v".to_string(), 3);
    windows.register("w".to_string(), 2);
    assert_eq!(windows.len(), 2);
    assert!(!windows.is_open("w"));
    assert_eq!(windows.drawable("w"), Some(&2));
    assert_eq!(windows.drawable("v"), Some(&3));
    assert_eq!(windows.drawable("u"), None);
    let mut names = windows.names();
    names.sort();
    assert_eq!(names, vec!["v", "w"]);
}

#[test]
fn drawable_can_be_drawn_with() {
    let mut windows: DebugWindowRegistry<Vec<&str>> = DebugWindowRegistry::new();
    windows.register("w".to_string(), Vec::new());
    windows.set_open("w", true);
    windows.drawable_mut("w").unwrap().push("hello from foo window");
    assert!(windows.drawable_mut("missing").is_none());
    assert_eq!(windows.drawable("w"), Some(&vec!["hello from foo window"]));
    assert!(windows.is_open("w"));
}

#[test]
fn context_keeps_requests_in_order() {
    let mut context = ConsoleExecutionContext::new();
    assert!(context.requests().is_empty());
    context.set_open_debug_window("a", true);
    context.set_open_debug_window("b", false);
    assert_eq!(
        *context.requests(),
        vec![
            WindowRequest { name: "a".to_string(), open: true },
            WindowRequest { name: "b".to_string(), open: false },
        ]
    );
    let mut windows: DebugWindowRegistry<u8> = DebugWindowRegistry::new();
    windows.register("a".to_string(), 0);
    windows.register("b".to_string(), 0);
    windows.set_open("b", true);
    windows.apply(&context);
    assert!(windows.is_open("a"));
    assert!(!windows.is_open("b"));
}
