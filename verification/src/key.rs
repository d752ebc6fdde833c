//! The key model: the keys an event can carry, the two phases of an event,
//! and the parsing of both from their textual names.

use vstd::prelude::*;

verus! {

/// Whether `name` is one of the named keys (`"Enter"`, `"Backspace"`, `"F1"`, ...)
/// that `keyboard-types` knows, that is, whether its `NamedKey::from_str`
/// accepts it.
pub uninterp spec fn is_named_key(name: Seq<char>) -> bool;

/// A control code: a character of Unicode's general category `Cc`.
pub open spec fn is_control(c: char) -> bool {
    c <= '\u{1f}' || ('\u{7f}' <= c && c <= '\u{9f}')
}

/// Whether `text` can stand for the character that a key types: it holds no
/// control code, and nothing after its first character is ASCII. This keeps
/// a mistyped key name from being taken for typed text.
pub open spec fn is_key_string(text: Seq<char>) -> bool {
    &&& forall|i: int| 0 <= i < text.len() ==> !is_control(#[trigger] text[i])
    &&& forall|i: int| 1 <= i < text.len() ==> (#[trigger] text[i]) > '\u{7f}'
}

/// The phase of a key event.
#[derive(Clone, Copy, Debug, PartialEq, Eq, Structural)]
pub enum KeyState {
    /// The key is pressed.
    Down,
    /// The key is released.
    Up,
}

/// The value of a key: the text that the key types, or the name of a named
/// key. A key is made by reading its name, so every key is one that its
/// name reads as.
#[derive(Debug, PartialEq, Eq)]
pub struct Key {
    pub(crate) named: bool,
    pub(crate) name: String,
}

/// The mathematical value of a [`Key`].
pub enum KeyView {
    /// The text that the key types.
    Character(Seq<char>),
    /// A key known by its name.
    Named(Seq<char>),
}

impl View for Key {
    type V = KeyView;

    closed spec fn view(&self) -> KeyView {
        if self.named {
            KeyView::Named(self.name@)
        } else {
            KeyView::Character(self.name@)
        }
    }
}

impl KeyView {
    /// The text from which the key is read and to which it is written.
    pub open spec fn name(self) -> Seq<char> {
        match self {
            KeyView::Character(text) => text,
            KeyView::Named(name) => name,
        }
    }

    /// A key is well formed when reading its name gives the key back.
    pub open spec fn wf(self) -> bool {
        match self {
            KeyView::Character(text) => is_key_string(text),
            KeyView::Named(name) => !is_key_string(name) && is_named_key(name),
        }
    }
}

/// Whether `name` is that of a modifier key: a key that changes what
/// other keys mean and types nothing itself.
pub open spec fn is_modifier_name(name: Seq<char>) -> bool {
    ||| name == "Alt"@
    ||| name == "AltGraph"@
    ||| name == "CapsLock"@
    ||| name == "Control"@
    ||| name == "Fn"@
    ||| name == "FnLock"@
    ||| name == "Hyper"@
    ||| name == "Meta"@
    ||| name == "NumLock"@
    ||| name == "ScrollLock"@
    ||| name == "Shift"@
    ||| name == "Super"@
    ||| name == "Symbol"@
    ||| name == "SymbolLock"@
}

/// Whether two texts are the same.
fn same_text(text: &String, other: &str) -> (same: bool)
    ensures
        same == (text@ == other@),
{
    text.clone() == other.to_owned()
}

/// The key that a name stands for, if any.
pub open spec fn key_of_name(name: Seq<char>) -> Option<KeyView> {
    if is_key_string(name) {
        Some(KeyView::Character(name))
    } else if is_named_key(name) {
        Some(KeyView::Named(name))
    } else {
        None
    }
}

/// The value of a key that may be missing.
pub open spec fn option_key_view(key: Option<Key>) -> Option<KeyView> {
    match key {
        Some(k) => Some(k@),
        None => None,
    }
}

/// Reads a key name with `Key::from_str` of `keyboard-types`. That function
/// takes a key string as the typed character, looks anything else up among
/// the named keys, and fails when the name is not among them.
#[verifier::external_body]
fn parse_key(name: &str) -> (r: Option<Key>)
    ensures
        is_key_string(name@) ==> option_key_view(r) == Some(KeyView::Character(name@)),
        !is_key_string(name@) && is_named_key(name@) ==> option_key_view(r) == Some(
            KeyView::Named(name@),
        ),
        !is_key_string(name@) && !is_named_key(name@) ==> r is None,
{
    match <afrim_preprocessor::Key as std::str::FromStr>::from_str(name) {
        Ok(afrim_preprocessor::Key::Character(text)) => Some(Key { named: false, name: text }),
        Ok(afrim_preprocessor::Key::Named(_)) => Some(Key { named: true, name: name.to_owned() }),
        Err(_) => None,
    }
}

impl Clone for Key {
    fn clone(&self) -> (key: Key)
        ensures
            key@ == self@,
    {
        proof {
            use_type_invariant(self);
        }
        Key { named: self.named, name: self.name.clone() }
    }
}

impl Key {
    #[verifier::type_invariant]
    pub open spec fn well_formed(self) -> bool {
        self@.wf()
    }

    /// Reads a key from its name: a key string is the text that a key
    /// types, any other name has to be that of a named key.
    pub fn parse(name: &str) -> (key: Option<Key>)
        ensures
            option_key_view(key) == key_of_name(name@),
    {
        parse_key(name)
    }

    /// The name that the key is written with.
    pub fn name(&self) -> (name: &str)
        ensures
            name@ == self@.name(),
            self@.wf(),
    {
        proof {
            use_type_invariant(self);
        }
        self.name.as_str()
    }

    /// Whether the key is a named key.
    pub fn is_named(&self) -> (named: bool)
        ensures
            named == (self@ is Named),
    {
        self.named
    }

    /// Whether the key is a modifier key.
    pub fn is_modifier(&self) -> (modifier: bool)
        ensures
            modifier == (self@ is Named && is_modifier_name(self@.name())),
    {
        self.named && (same_text(&self.name, "Alt") || same_text(&self.name, "AltGraph")
            || same_text(&self.name, "CapsLock") || same_text(&self.name, "Control") || same_text(
            &self.name,
            "Fn",
        ) || same_text(&self.name, "FnLock") || same_text(&self.name, "Hyper") || same_text(
            &self.name,
            "Meta",
        ) || same_text(&self.name, "NumLock") || same_text(&self.name, "ScrollLock") || same_text(
            &self.name,
            "Shift",
        ) || same_text(&self.name, "Super") || same_text(&self.name, "Symbol") || same_text(
            &self.name,
            "SymbolLock",
        ))
    }

    /// Whether the key is Backspace.
    pub fn is_backspace(&self) -> (backspace: bool)
        ensures
            backspace == (self@ == KeyView::Named("Backspace"@)),
    {
        self.named && same_text(&self.name, "Backspace")
    }
}

/// A key that went down or up.
#[derive(Clone, Debug, PartialEq, Eq)]
pub struct KeyboardEvent {
    /// The key.
    pub key: Key,
    /// Whether it went down or up.
    pub state: KeyState,
}

/// The mathematical value of a [`KeyboardEvent`].
pub struct KeyboardEventView {
    pub key: KeyView,
    pub state: KeyState,
}

impl View for KeyboardEvent {
    type V = KeyboardEventView;

    open spec fn view(&self) -> KeyboardEventView {
        KeyboardEventView { key: self.key@, state: self.state }
    }
}

/// Why a key event could not be read.
#[derive(Clone, Debug, PartialEq, Eq)]
pub enum EventError {
    /// The key name is neither a key string nor a named key.
    UnrecognizedKey,
    /// The state is neither `"keydown"` nor `"keyup"`; holds the state given.
    UnrecognizedState(String),
}

/// The mathematical value of an [`EventError`].
pub enum EventErrorView {
    UnrecognizedKey,
    UnrecognizedState(Seq<char>),
}

impl View for EventError {
    type V = EventErrorView;

    open spec fn view(&self) -> EventErrorView {
        match self {
            EventError::UnrecognizedKey => EventErrorView::UnrecognizedKey,
            EventError::UnrecognizedState(state) => EventErrorView::UnrecognizedState(state@),
        }
    }
}

/// The name that a state is written with.
pub open spec fn state_name(state: KeyState) -> Seq<char> {
    match state {
        KeyState::Down => "keydown"@,
        KeyState::Up => "keyup"@,
    }
}

/// The message of an [`EventError`].
pub open spec fn event_error_message(error: EventErrorView) -> Seq<char> {
    match error {
        EventErrorView::UnrecognizedKey => "Unrecognized key.\nCaused by:\n\tUnrecognizedKeyError"@,
        EventErrorView::UnrecognizedState(state) => "Unrecognized state `"@ + state + "`."@,
    }
}

impl KeyState {
    /// The name that the state is written with.
    pub fn name(self) -> (name: &'static str)
        ensures
            name@ == state_name(self),
    {
        match self {
            KeyState::Down => "keydown",
            KeyState::Up => "keyup",
        }
    }
}

impl EventError {
    /// The error in words.
    pub fn message(&self) -> (text: String)
        ensures
            text@ == event_error_message(self@),
    {
        match self {
            EventError::UnrecognizedKey => {
                "Unrecognized key.\nCaused by:\n\tUnrecognizedKeyError".to_owned()
            },
            EventError::UnrecognizedState(state) => {
                let mut text = "Unrecognized state `".to_owned();
                text.append(state.as_str());
                text.append("`.");
                text
            },
        }
    }
}

/// The state that a state name stands for, if any.
pub open spec fn state_of_name(name: Seq<char>) -> Option<KeyState> {
    if name == "keydown"@ {
        Some(KeyState::Down)
    } else if name == "keyup"@ {
        Some(KeyState::Up)
    } else {
        None
    }
}

/// What reading the pair of names `(key, state)` gives: the key is read
/// first, so a pair that is wrong twice reports the key.
pub open spec fn event_of_names(key: Seq<char>, state: Seq<char>) -> Result<
    KeyboardEventView,
    EventErrorView,
> {
    match key_of_name(key) {
        None => Err(EventErrorView::UnrecognizedKey),
        Some(k) => match state_of_name(state) {
            None => Err(EventErrorView::UnrecognizedState(state)),
            Some(s) => Ok(KeyboardEventView { key: k, state: s }),
        },
    }
}

/// The value of what reading an event gave.
pub open spec fn event_result_view(r: Result<KeyboardEvent, EventError>) -> Result<
    KeyboardEventView,
    EventErrorView,
> {
    match r {
        Ok(event) => Ok(event@),
        Err(e) => Err(e@),
    }
}

/// Reads a state name.
pub fn parse_state(name: &str) -> (r: Option<KeyState>)
    ensures
        r == state_of_name(name@),
{
    let owned = name.to_owned();
    if owned == "keydown".to_owned() {
        Some(KeyState::Down)
    } else if owned == "keyup".to_owned() {
        Some(KeyState::Up)
    } else {
        None
    }
}

/// Reads a key event from the name of its key and the name of its state.
pub fn deserialize_event(key: &str, state: &str) -> (r: Result<KeyboardEvent, EventError>)
    ensures
        event_result_view(r) == event_of_names(key@, state@),
{
    match Key::parse(key) {
        None => Err(EventError::UnrecognizedKey),
        Some(k) => match parse_state(state) {
            None => Err(EventError::UnrecognizedState(state.to_owned())),
            Some(s) => Ok(KeyboardEvent { key: k, state: s }),
        },
    }
}

/// Reading and writing are inverse to each other. The names that read as
/// an event are the names that the event is written with; and the names
/// that a well-formed event is written with read as that event.
pub proof fn lemma_event_round_trip(key: Seq<char>, state: Seq<char>, event: KeyboardEventView)
    ensures
        event_of_names(key, state) == Ok::<KeyboardEventView, EventErrorView>(event) ==> {
            &&& event.key.wf()
            &&& event.key.name() == key
            &&& state_name(event.state) == state
        },
        event.key.wf() ==> event_of_names(event.key.name(), state_name(event.state)) == Ok::<
            KeyboardEventView,
            EventErrorView,
        >(event),
{
    reveal_strlit("keydown");
    reveal_strlit("keyup");
    assert("keyup"@.len() != "keydown"@.len());
}

} // verus!
