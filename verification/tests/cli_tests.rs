use lxsp::builtins::default_env;
use lxsp::cli::{ArgStruct, CommandHistory, Effect, Key, LineEditor};
use lxsp::eval::Host;
use lxsp::repl::{respond, trim, Reply};

const DEPTH: usize = 100;

fn up(h: &mut CommandHistory, line: &str) -> String {
    let mut buffer = line.to_string();
    h.move_up(&mut buffer);
    buffer
}

fn down(h: &mut CommandHistory, line: &str) -> String {
    let mut buffer = line.to_string();
    h.move_down(&mut buffer);
    buffer
}

#[test]
fn options_default_to_the_standard_library_and_no_extras() {
    let args = ArgStruct::default();
    assert!(!args.nostd);
    assert!(args.load.is_empty());
    assert!(!args.use_old_repl);
}

#[test]
fn history_keeps_each_command_once_newest_last() {
    let mut h = CommandHistory::new();
    assert!(h.get(0).is_none());
    h.push("a".to_string());
    h.push("b".to_string());
    h.push("c".to_string());
    assert_eq!(h.get(0).unwrap(), "a");
    assert_eq!(h.get(1).unwrap(), "b");
    assert_eq!(h.get(2).unwrap(), "c");
    assert!(h.get(3).is_none());
    // Entering a command again moves it to the end.
    h.push("a".to_string());
    assert_eq!(h.get(0).unwrap(), "b");
    assert_eq!(h.get(1).unwrap(), "c");
    assert_eq!(h.get(2).unwrap(), "a");
    assert!(h.get(3).is_none());
    h.push("a".to_string());
    assert_eq!(h.get(2).unwrap(), "a");
    assert!(h.get(3).is_none());
}

#[test]
fn browsing_an_empty_history_changes_nothing() {
    let mut h = CommandHistory::new();
    assert_eq!(up(&mut h, "draft"), "draft");
    assert_eq!(down(&mut h, "draft"), "draft");
}

#[test]
fn browsing_goes_up_to_the_oldest_and_down_to_the_draft() {
    let mut h = CommandHistory::new();
    h.push("a".to_string());
    h.push("b".to_string());
    h.push("c".to_string());
    // Outside browsing a step down does nothing.
    assert_eq!(down(&mut h, "draft"), "draft");
    assert_eq!(up(&mut h, "draft"), "c");
    assert_eq!(up(&mut h, "c"), "b");
    assert_eq!(up(&mut h, "b"), "a");
    // At the oldest command a step up changes nothing.
    assert_eq!(up(&mut h, "a"), "a");
    assert_eq!(down(&mut h, "a"), "b");
    assert_eq!(down(&mut h, "b"), "c");
    // Behind the newest command the draft comes back.
    assert_eq!(down(&mut h, "c"), "draft");
    assert_eq!(down(&mut h, "draft"), "draft");
    assert_eq!(up(&mut h, "again"), "c");
}

#[test]
fn reset_brings_the_draft_back() {
    let mut h = CommandHistory::new();
    h.push("a".to_string());
    let mut buffer = "draft".to_string();
    h.move_up(&mut buffer);
    assert_eq!(buffer, "a");
    h.reset_buffers(&mut buffer);
    assert_eq!(buffer, "draft");
    // Outside browsing the line is emptied.
    h.reset_buffers(&mut buffer);
    assert_eq!(buffer, "");
    let mut buffer = "x".to_string();
    h.move_up(&mut buffer);
    assert_eq!(buffer, "a");
}

#[test]
fn trim_removes_white_space_at_both_ends() {
    assert_eq!(trim("  a b  "), "a b");
    assert_eq!(trim("a"), "a");
    assert_eq!(trim(""), "");
    assert_eq!(trim(" \t\r\n"), "");
    assert_eq!(trim("\u{3000}(add 1 2)\u{a0}\n"), "(add 1 2)");
    for s in ["", " ", "x ", " x", " x y ", "\n\nx\n", "é ", "\u{2003}é\u{2003}"] {
        assert_eq!(trim(s), s.trim());
    }
}

#[test]
fn the_loop_replies_to_a_line() {
    let env = default_env();
    let mut host = Host::new();
    assert!(matches!(respond("", &env, &host, DEPTH, true), Reply::Skip));
    assert!(matches!(respond("   \n", &env, &host, DEPTH, false), Reply::Skip));
    match respond(" (add 1 2)\n", &env, &host, DEPTH, true) {
        Reply::Value { text, exit } => {
            assert_eq!(text, "3");
            assert!(!exit);
        }
        other => panic!("{:?}", other),
    }
    match respond("exit", &env, &host, DEPTH, true) {
        Reply::Value { text, exit } => {
            assert_eq!(text, "exit");
            assert!(exit);
        }
        other => panic!("{:?}", other),
    }
    match respond("'exit", &env, &host, DEPTH, false) {
        Reply::Value { text, exit } => {
            assert_eq!(text, "exit");
            assert!(exit);
        }
        other => panic!("{:?}", other),
    }
    match respond("'exits", &env, &host, DEPTH, false) {
        Reply::Value { text, exit } => {
            assert_eq!(text, "exits");
            assert!(!exit);
        }
        other => panic!("{:?}", other),
    }
    match respond("'(exit)", &env, &host, DEPTH, false) {
        Reply::Value { text, exit } => {
            assert_eq!(text, "(exit)");
            assert!(!exit);
        }
        other => panic!("{:?}", other),
    }
    match respond("nope", &env, &host, DEPTH, true) {
        Reply::Failure(message) => assert_eq!(message, "use of undeclared variable nope"),
        other => panic!("{:?}", other),
    }
    match respond("(add 1", &env, &host, DEPTH, true) {
        Reply::Failure(message) => {
            assert_eq!(message, "could not find closing `)` near 5..6")
        }
        other => panic!("{:?}", other),
    }
    match respond("(unsafe (readf 'std))", &env, &host, DEPTH, true) {
        Reply::ReadFile(path) => assert_eq!(path, "lisb/std.l"),
        other => panic!("{:?}", other),
    }
    match respond("(unsafe (lua 'core))", &env, &host, DEPTH, true) {
        Reply::RunScript(path) => assert_eq!(path, "src/core.lua"),
        other => panic!("{:?}", other),
    }
    // Once the host has done the work, the same line gives a value.
    host.add_file("lisb/std.l".to_string(), "(a b)".to_string());
    host.add_script("src/core.lua".to_string(), Some(0));
    match respond("(unsafe (readf 'std))", &env, &host, DEPTH, true) {
        Reply::Value { text, exit } => {
            assert_eq!(text, "(a b)");
            assert!(!exit);
        }
        other => panic!("{:?}", other),
    }
    match respond("(unsafe (lua 'core))", &env, &host, DEPTH, true) {
        Reply::Value { text, exit } => {
            assert_eq!(text, "(0 unimplemented)");
            assert!(!exit);
        }
        other => panic!("{:?}", other),
    }
}

#[test]
fn the_expansion_pass_is_optional() {
    let base = default_env();
    let host = Host::new();
    let env = lxsp::add_lib(&base, "((m (macro (a) (list 'quote a))))", &host, DEPTH).unwrap();
    // With the pass, the invocation inside the quote is expanded first.
    match respond("'(m 1)", &env, &host, DEPTH, true) {
        Reply::Value { text, .. } => assert_eq!(text, "(list (quote quote) 1)"),
        other => panic!("{:?}", other),
    }
    match respond("'(m 1)", &env, &host, DEPTH, false) {
        Reply::Value { text, .. } => assert_eq!(text, "(m 1)"),
        other => panic!("{:?}", other),
    }
}

fn typed(editor: &mut LineEditor, text: &str) {
    for c in text.chars() {
        assert!(matches!(editor.press(Key::Char(c)), Effect::Redraw));
    }
}

#[test]
fn the_editor_puts_characters_in_at_the_cursor() {
    let mut e = LineEditor::new();
    assert_eq!(e.line(), "");
    assert_eq!(e.cursor(), 0);
    typed(&mut e, "ac");
    assert_eq!(e.line(), "ac");
    assert_eq!(e.cursor(), 2);
    assert!(matches!(e.press(Key::Left), Effect::MoveCursor));
    assert_eq!(e.cursor(), 1);
    typed(&mut e, "é");
    assert_eq!(e.line(), "aéc");
    assert_eq!(e.cursor(), 2);
    assert!(matches!(e.press(Key::Right), Effect::MoveCursor));
    assert_eq!(e.cursor(), 3);
    // The cursor stays within the line.
    assert!(matches!(e.press(Key::Right), Effect::Nothing));
    assert_eq!(e.cursor(), 3);
    for _ in 0..3 {
        assert!(matches!(e.press(Key::Left), Effect::MoveCursor));
    }
    assert!(matches!(e.press(Key::Left), Effect::Nothing));
    assert_eq!(e.cursor(), 0);
    assert_eq!(e.line(), "aéc");
}

#[test]
fn backspace_removes_the_character_in_front_of_the_cursor() {
    let mut e = LineEditor::new();
    assert!(matches!(e.press(Key::Backspace), Effect::Nothing));
    typed(&mut e, "abc");
    assert!(matches!(e.press(Key::Backspace), Effect::Redraw));
    assert_eq!(e.line(), "ab");
    assert_eq!(e.cursor(), 2);
    e.press(Key::Left);
    assert!(matches!(e.press(Key::Backspace), Effect::Redraw));
    assert_eq!(e.line(), "b");
    assert_eq!(e.cursor(), 0);
    assert!(matches!(e.press(Key::Backspace), Effect::Nothing));
    assert_eq!(e.line(), "b");
}

#[test]
fn enter_hands_the_trimmed_line_in() {
    let mut e = LineEditor::new();
    assert!(matches!(e.press(Key::Enter), Effect::NewPrompt));
    typed(&mut e, "   ");
    assert!(matches!(e.press(Key::Enter), Effect::NewPrompt));
    assert_eq!(e.line(), "");
    assert_eq!(e.cursor(), 0);
    typed(&mut e, " (add 1 2) ");
    match e.press(Key::Enter) {
        Effect::Submit(line) => assert_eq!(line, "(add 1 2)"),
        other => panic!("{:?}", other),
    }
    assert_eq!(e.line(), "");
    assert_eq!(e.cursor(), 0);
    // The line is in the history now; an empty line is not.
    assert!(matches!(e.press(Key::Up), Effect::Redraw));
    assert_eq!(e.line(), "(add 1 2)");
    assert_eq!(e.cursor(), 9);
    assert!(matches!(e.press(Key::Up), Effect::Redraw));
    assert_eq!(e.line(), "(add 1 2)");
}

#[test]
fn enter_on_the_line_exit_ends_the_loop() {
    let mut e = LineEditor::new();
    typed(&mut e, " exit ");
    assert!(matches!(e.press(Key::Enter), Effect::Exit));
    // Nothing was handed in and nothing was entered into the history.
    assert_eq!(e.line(), " exit ");
    assert!(matches!(e.press(Key::Backspace), Effect::Redraw));
    assert!(matches!(e.press(Key::Backspace), Effect::Redraw));
    match e.press(Key::Enter) {
        Effect::Submit(line) => assert_eq!(line, "exi"),
        other => panic!("{:?}", other),
    }
    e.press(Key::Up);
    assert_eq!(e.line(), "exi");
    typed(&mut e, "ts");
    match e.press(Key::Enter) {
        Effect::Submit(line) => assert_eq!(line, "exits"),
        other => panic!("{:?}", other),
    }
}

#[test]
fn the_editor_browses_the_history() {
    let mut e = LineEditor::new();
    for line in ["one", "two"] {
        typed(&mut e, line);
        assert!(matches!(e.press(Key::Enter), Effect::Submit(_)));
    }
    typed(&mut e, "draft");
    e.press(Key::Up);
    assert_eq!(e.line(), "two");
    e.press(Key::Up);
    assert_eq!(e.line(), "one");
    assert_eq!(e.cursor(), 3);
    e.press(Key::Down);
    assert_eq!(e.line(), "two");
    e.press(Key::Down);
    assert_eq!(e.line(), "draft");
    assert_eq!(e.cursor(), 5);
    e.press(Key::Down);
    assert_eq!(e.line(), "draft");
    // Entering a line while browsing gives the browsing up.
    e.press(Key::Up);
    e.press(Key::Up);
    assert_eq!(e.line(), "one");
    assert!(matches!(e.press(Key::Enter), Effect::Submit(_)));
    e.press(Key::Up);
    assert_eq!(e.line(), "one");
    e.press(Key::Up);
    assert_eq!(e.line(), "two");
}

#[test]
fn some_keys_end_the_loop_and_others_do_nothing() {
    let mut e = LineEditor::new();
    typed(&mut e, "ab");
    assert!(matches!(e.press(Key::Esc), Effect::Exit));
    assert!(matches!(e.press(Key::Control('c')), Effect::Exit));
    assert!(matches!(e.press(Key::Control('d')), Effect::Exit));
    assert!(matches!(e.press(Key::Control('x')), Effect::Nothing));
    assert!(matches!(e.press(Key::Other), Effect::Nothing));
    assert_eq!(e.line(), "ab");
    assert_eq!(e.cursor(), 2);
}
