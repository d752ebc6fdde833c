use afrim_engine::preprocessor::{typed_character, MAX_BUFFER_SIZE};
use afrim_engine::{deserialize_event, Command, EventError, Preprocessor};

fn pairs(data: &[(&str, &str)]) -> Vec<(String, String)> {
    data.iter().map(|(k, v)| (k.to_string(), v.to_string())).collect()
}

fn texts(all: &[&str]) -> Vec<String> {
    all.iter().map(|t| t.to_string()).collect()
}

fn commit(text: &str) -> Command {
    Command::CommitText(text.to_string())
}

fn delete(text: &str) -> Command {
    Command::Delete(text.to_string())
}

fn drain(session: &mut Preprocessor) -> Vec<Command> {
    let mut all = Vec::new();
    while let Some(command) = session.pop_queue() {
        all.push(command);
    }
    all
}

#[test]
fn typed_text_is_committed() {
    let mut session = Preprocessor::new(Vec::new(), 5);
    assert_eq!(session.process("k", "keydown"), Ok(true));
    assert_eq!(session.process("a", "keydown"), Ok(true));
    assert_eq!(session.get_input(), "ka");
    assert_eq!(session.pop_queue(), None);

    session.commit("ka".to_string());
    assert_eq!(session.get_input(), "");
    assert_eq!(session.pop_queue(), Some(commit("ka")));
    assert_eq!(session.pop_queue(), None);
    assert_eq!(session.pop_queue(), None);
}

#[test]
fn new_session_is_empty() {
    let mut session = Preprocessor::new(pairs(&[("cc", "ç")]), 3);
    assert_eq!(session.get_input(), "");
    assert_eq!(session.pop_queue(), None);
    assert!(session.history().is_empty());
    assert_eq!(session.buffer_size(), 3);
}

#[test]
fn largest_buffer_size_is_a_sixteenth_of_the_address_space() {
    assert_eq!(MAX_BUFFER_SIZE, usize::MAX / 16);
}

#[test]
fn sequence_of_the_memory_is_replaced() {
    let mut session = Preprocessor::new(pairs(&[("cc", "ç")]), 8);
    assert_eq!(session.process("c", "keydown"), Ok(true));
    assert_eq!(session.pop_queue(), None);
    assert_eq!(session.process("c", "keydown"), Ok(true));
    assert_eq!(session.get_input(), "cc");
    assert_eq!(
        drain(&mut session),
        vec![Command::Pause, delete("c"), delete("c"), commit("ç"), Command::Resume]
    );
}

#[test]
fn longer_sequence_replaces_the_shorter() {
    let mut session = Preprocessor::new(pairs(&[("af", "ɑ"), ("af1", "ɑ̀")]), 8);
    for key in ["a", "f"] {
        assert_eq!(session.process(key, "keydown"), Ok(true));
    }
    session.clear_queue();
    assert_eq!(session.process("1", "keydown"), Ok(true));
    assert_eq!(session.get_input(), "af1");
    assert_eq!(
        drain(&mut session),
        vec![Command::Pause, delete("1"), delete("ɑ"), commit("ɑ̀"), Command::Resume]
    );
}

#[test]
fn backspace_takes_the_last_insertion_back() {
    let mut session = Preprocessor::new(pairs(&[("af", "ɑ"), ("af1", "ɑ̀")]), 8);
    for key in ["a", "f", "1"] {
        assert_eq!(session.process(key, "keydown"), Ok(true));
    }
    session.clear_queue();

    assert_eq!(session.process("Backspace", "keydown"), Ok(true));
    assert_eq!(session.get_input(), "af");
    assert_eq!(
        drain(&mut session),
        vec![Command::Pause, delete("ɑ̀"), commit("ɑ"), Command::Resume]
    );

    assert_eq!(session.process("Backspace", "keydown"), Ok(true));
    assert_eq!(session.get_input(), "");
    assert_eq!(drain(&mut session), vec![Command::Pause, delete("ɑ"), Command::Resume]);
}

#[test]
fn backspace_on_empty_input_changes_nothing() {
    let mut session = Preprocessor::new(Vec::new(), 8);
    assert_eq!(session.process("Backspace", "keydown"), Ok(false));
    assert_eq!(session.get_input(), "");
    assert_eq!(session.pop_queue(), None);
}

#[test]
fn release_and_modifiers_change_nothing() {
    let mut session = Preprocessor::new(Vec::new(), 8);
    assert_eq!(session.process("x", "keydown"), Ok(true));
    assert_eq!(session.process("x", "keyup"), Ok(false));
    assert_eq!(session.process("Backspace", "keyup"), Ok(false));
    assert_eq!(session.process("Escape", "keyup"), Ok(false));
    for key in [
        "Alt", "AltGraph", "CapsLock", "Control", "Fn", "FnLock", "Hyper", "Meta", "NumLock",
        "ScrollLock", "Shift", "Super", "Symbol", "SymbolLock",
    ] {
        assert_eq!(session.process(key, "keydown"), Ok(false));
        assert_eq!(session.process(key, "keyup"), Ok(false));
    }
    assert_eq!(session.get_input(), "x");
    assert_eq!(session.pop_queue(), None);
}

#[test]
fn other_keys_empty_the_input() {
    for key in ["Escape", "Enter", "ArrowLeft", " ", ""] {
        let mut session = Preprocessor::new(Vec::new(), 8);
        assert_eq!(session.process("x", "keydown"), Ok(true));
        assert_eq!(session.process(key, "keydown"), Ok(true));
        assert_eq!(session.get_input(), "");
        assert_eq!(session.pop_queue(), None);
    }
}

#[test]
fn flag_says_whether_the_input_changed() {
    let mut session = Preprocessor::new(Vec::new(), 1);
    assert_eq!(session.process("Enter", "keydown"), Ok(false));
    assert_eq!(session.process("k", "keydown"), Ok(true));
    assert_eq!(session.process("k", "keydown"), Ok(false));
    assert_eq!(session.get_input(), "k");
    assert_eq!(session.process("Enter", "keydown"), Ok(true));
    assert_eq!(session.process("Enter", "keydown"), Ok(false));
    assert_eq!(session.get_input(), "");
}

#[test]
fn letters_digits_and_punctuation_are_taken_in() {
    let mut session = Preprocessor::new(Vec::new(), 16);
    for key in ["é", "7", "!", "~", "Z"] {
        assert_eq!(session.process(key, "keydown"), Ok(true));
    }
    assert_eq!(session.get_input(), "é7!~Z");
}

#[test]
fn typed_character_of_an_event() {
    let typed = |key: &str, state: &str| typed_character(&deserialize_event(key, state).unwrap());
    assert_eq!(typed("a", "keydown"), Some('a'));
    assert_eq!(typed("é", "keydown"), Some('é'));
    assert_eq!(typed("٣", "keydown"), Some('٣'));
    assert_eq!(typed("?", "keydown"), Some('?'));
    assert_eq!(typed("a\u{300}", "keydown"), Some('a'));
    assert_eq!(typed("a", "keyup"), None);
    assert_eq!(typed(" ", "keydown"), None);
    assert_eq!(typed("€", "keydown"), None);
    assert_eq!(typed("", "keydown"), None);
    assert_eq!(typed("Enter", "keydown"), None);
}

#[test]
fn input_loses_its_oldest_characters() {
    let mut session = Preprocessor::new(Vec::new(), 1);
    for key in ["k", "a", "b"] {
        assert_eq!(session.process(key, "keydown"), Ok(true));
        assert_eq!(session.get_input(), key);
    }
}

#[test]
fn input_keeps_all_while_there_is_room() {
    let mut session = Preprocessor::new(Vec::new(), 8);
    for (key, input) in [("k", "k"), ("a", "ka"), ("b", "kab"), ("c", "kabc")] {
        assert_eq!(session.process(key, "keydown"), Ok(true));
        assert_eq!(session.get_input(), input);
    }
}

#[test]
fn names_that_cannot_be_read_leave_the_session_alone() {
    let mut session = Preprocessor::new(pairs(&[("cc", "ç")]), 8);
    assert_eq!(session.process("c", "keydown"), Ok(true));
    assert_eq!(session.process("Foo", "keydown"), Err(EventError::UnrecognizedKey));
    assert_eq!(
        session.process("c", "pressed"),
        Err(EventError::UnrecognizedState("pressed".to_string()))
    );
    assert_eq!(session.get_input(), "c");
    assert_eq!(session.pop_queue(), None);
    assert!(session.history().is_empty());
}

#[test]
fn commit_queues_the_commit_alone() {
    let mut session = Preprocessor::new(pairs(&[("cc", "ç")]), 8);
    session.commit("hello".to_string());
    assert_eq!(drain(&mut session), vec![commit("hello")]);
    session.process("c", "keydown").unwrap();
    session.commit("sea".to_string());
    assert_eq!(session.get_input(), "");
    assert_eq!(drain(&mut session), vec![commit("sea")]);
}

#[test]
fn commands_leave_in_the_order_of_queueing() {
    let mut session = Preprocessor::new(pairs(&[("cc", "ç")]), 8);
    session.commit("one".to_string());
    session.process("c", "keydown").unwrap();
    session.process("c", "keydown").unwrap();
    assert_eq!(session.pop_queue(), Some(commit("one")));
    session.commit("two".to_string());
    assert_eq!(
        drain(&mut session),
        vec![
            Command::Pause,
            delete("c"),
            delete("c"),
            commit("ç"),
            Command::Resume,
            commit("two"),
        ]
    );
    assert_eq!(session.pop_queue(), None);
}

#[test]
fn cleared_queue_is_empty_and_input_stays() {
    let mut session = Preprocessor::new(Vec::new(), 8);
    session.process("h", "keydown").unwrap();
    session.commit("hi".to_string());
    session.process("x", "keydown").unwrap();
    session.clear_queue();
    assert_eq!(session.pop_queue(), None);
    assert_eq!(session.get_input(), "x");
    assert_eq!(session.history(), &texts(&["hi"]));
}

#[test]
fn get_input_changes_nothing() {
    let mut session = Preprocessor::new(Vec::new(), 8);
    session.process("h", "keydown").unwrap();
    session.commit("hi".to_string());
    session.process("x", "keydown").unwrap();
    assert_eq!(session.get_input(), "x");
    assert_eq!(session.get_input(), "x");
    assert_eq!(drain(&mut session), vec![commit("hi")]);
}

#[test]
fn history_keeps_the_last_commits() {
    let mut session = Preprocessor::new(Vec::new(), 2);
    session.commit("one".to_string());
    assert_eq!(session.history(), &texts(&["one"]));
    session.commit("two".to_string());
    assert_eq!(session.history(), &texts(&["one", "two"]));
    session.commit("three".to_string());
    assert_eq!(session.history(), &texts(&["two", "three"]));
    session.commit("four".to_string());
    assert_eq!(session.history(), &texts(&["three", "four"]));
    assert!(session.history().len() <= session.buffer_size());
}

#[test]
fn history_of_size_zero_keeps_nothing() {
    let mut session = Preprocessor::new(Vec::new(), 0);
    for text in ["one", "two", "three"] {
        session.commit(text.to_string());
        assert!(session.history().is_empty());
    }
    assert_eq!(session.buffer_size(), 0);
}

#[test]
fn rows_of_the_memory_are_the_pairs() {
    let mut session = Preprocessor::new(pairs(&[("a1", "à"), ("e2", "é"), ("a1", "á")]), 8);
    for key in ["a", "1"] {
        session.process(key, "keydown").unwrap();
    }
    assert_eq!(
        drain(&mut session),
        vec![Command::Pause, delete("1"), delete("a"), commit("á"), Command::Resume]
    );
    for key in ["e", "2"] {
        session.process(key, "keydown").unwrap();
    }
    assert_eq!(
        drain(&mut session),
        vec![Command::Pause, delete("2"), delete("e"), commit("é"), Command::Resume]
    );
}
