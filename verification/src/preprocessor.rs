//! The keystroke preprocessor: a session that takes key events, keeps the
//! text composed so far, and queues the edits that the host has to apply.

use crate::command::{option_command_view, Command, CommandView};
use crate::key::{
    deserialize_event, event_of_names, is_modifier_name, EventError, KeyState, KeyView,
    KeyboardEvent, KeyboardEventView,
};
use afrim_preprocessor::Preprocessor as Engine;
use vstd::prelude::*;

verus! {

/// The preprocessor of `afrim-preprocessor`, which does the work of a
/// session. Nothing is known of it but what the functions below say.
#[verifier::external_type_specification]
#[verifier::external_body]
pub struct ExEngine(Engine);

/// The memory of `afrim-preprocessor`: the sequences that the engine looks
/// for in what is typed, as a tree.
#[verifier::external_type_specification]
#[verifier::external_body]
pub struct ExMemory(afrim_preprocessor::Node);

/// The commands that wait in the engine's queue, oldest first.
pub uninterp spec fn engine_queue(engine: Engine) -> Seq<CommandView>;

/// The text that the engine holds: the characters of its cursor, oldest
/// first, without the marks that part one sequence from the next.
pub uninterp spec fn engine_input(engine: Engine) -> Seq<char>;

/// The number of entries in the engine's cursor, characters and marks.
pub uninterp spec fn engine_entries(engine: Engine) -> nat;

/// The buffer size that the engine was made with.
pub uninterp spec fn engine_size(engine: Engine) -> nat;

/// The texts that the sequences of a memory stand for.
pub uninterp spec fn memory_texts(memory: afrim_preprocessor::Node) -> Set<Seq<char>>;

/// The texts that the sequences of the engine's memory stand for.
pub uninterp spec fn engine_texts(engine: Engine) -> Set<Seq<char>>;

/// What `char::is_alphanumeric` of std says of a character.
pub uninterp spec fn char_is_alphanumeric(c: char) -> bool;

/// The largest buffer size that a session can be made with.
pub const MAX_BUFFER_SIZE: usize = usize::MAX / 16;

/// An ASCII letter or digit.
pub open spec fn is_ascii_alphanumeric(c: char) -> bool {
    ||| '0' <= c <= '9'
    ||| 'A' <= c <= 'Z'
    ||| 'a' <= c <= 'z'
}

/// ASCII punctuation, as `char::is_ascii_punctuation` of std defines it.
pub open spec fn is_ascii_punctuation(c: char) -> bool {
    ||| '!' <= c <= '/'
    ||| ':' <= c <= '@'
    ||| '[' <= c <= '`'
    ||| '{' <= c <= '~'
}

/// Whether the engine takes a typed character into its input: a letter, a
/// digit or ASCII punctuation. Of an ASCII character this is plain; of any
/// other, `alphanumeric` says whether it is a letter or a digit.
pub open spec fn is_taken_in(c: char, alphanumeric: bool) -> bool {
    if c <= '\u{7f}' {
        is_ascii_alphanumeric(c) || is_ascii_punctuation(c)
    } else {
        alphanumeric
    }
}

/// The character that a key types, if it types one.
pub open spec fn typed_char(key: KeyView) -> Option<char> {
    match key {
        KeyView::Character(text) => if text.len() > 0 {
            Some(text[0])
        } else {
            None
        },
        KeyView::Named(_) => None,
    }
}

/// Whether the event is one that the engine reports as a change: a key that
/// goes down, unless it is Shift or CapsLock.
pub open spec fn event_changes(event: KeyboardEventView) -> bool {
    &&& event.state == KeyState::Down
    &&& event.key != KeyView::Named("Shift"@)
    &&& event.key != KeyView::Named("CapsLock"@)
}

/// Whether the event is a key going down that types a character which the
/// engine takes into its input.
pub open spec fn event_types(event: KeyboardEventView, alphanumeric: bool) -> bool {
    &&& event.state == KeyState::Down
    &&& typed_char(event.key) matches Some(c)
    &&& is_taken_in(c, alphanumeric)
}

/// Whether the event is Backspace going down.
pub open spec fn event_erases(event: KeyboardEventView) -> bool {
    event.state == KeyState::Down && event.key == KeyView::Named("Backspace"@)
}

/// Whether a session passes over the event: a key that goes up, a modifier
/// key, and Backspace where there is no input to take from.
pub open spec fn event_is_idle(event: KeyboardEventView, input: Seq<char>) -> bool {
    ||| event.state == KeyState::Up
    ||| (event.key matches KeyView::Named(name) && is_modifier_name(name))
    ||| (event_erases(event) && input.len() == 0)
}

/// Whether the command commits one of the texts.
pub open spec fn commits_one_of(command: CommandView, texts: Set<Seq<char>>) -> bool {
    command matches CommandView::CommitText(text) && texts.contains(text)
}

/// What a typed character appends to the queue: nothing, or, where the
/// input now spells a sequence of the memory, a bracket of `Pause` and
/// `Resume` that deletes what was typed and commits the sequence's text,
/// which is one of `texts`.
pub open spec fn typed_commands(tail: Seq<CommandView>, c: char, texts: Set<Seq<char>>) -> bool {
    ||| tail.len() == 0
    ||| {
        &&& tail.len() >= 4
        &&& tail[0] == CommandView::Pause
        &&& tail[1] == CommandView::Delete(seq![c])
        &&& forall|i: int| 2 <= i < tail.len() - 2 ==> #[trigger] tail[i] is Delete
        &&& commits_one_of(tail[tail.len() - 2], texts)
        &&& tail[tail.len() - 1] == CommandView::Resume
    }
}

/// What Backspace appends to the queue: a bracket of `Pause` and `Resume`
/// that deletes the last insertion and, where an earlier text shows again,
/// commits that text, which is one of `texts`.
pub open spec fn erase_commands(tail: Seq<CommandView>, texts: Set<Seq<char>>) -> bool {
    &&& 3 <= tail.len() <= 4
    &&& tail[0] == CommandView::Pause
    &&& tail[1] is Delete
    &&& tail.len() == 4 ==> commits_one_of(tail[2], texts)
    &&& tail[tail.len() - 1] == CommandView::Resume
}

/// What is seen of a session's engine: the text it holds, its queue, how
/// many entries its cursor has of the size it was made with, and the
/// texts that the sequences of its memory stand for.
pub struct EngineView {
    pub input: Seq<char>,
    pub queue: Seq<CommandView>,
    pub entries: nat,
    pub size: nat,
    pub texts: Set<Seq<char>>,
}

/// How one event takes an engine from `before` to `after`. Nothing ever
/// leaves the queue, and the size and the memory stay. Backspace takes entries from the
/// end of the cursor, of the input at least one character if there is any.
/// A typed character that the engine takes in goes to the end of the
/// input behind at most one mark; the input loses characters at its start
/// only where the cursor is full, so none while two entries are free. Any
/// other change empties the cursor and queues nothing, and an event that
/// is no change leaves all as it was.
pub open spec fn engine_step(
    before: EngineView,
    event: KeyboardEventView,
    alphanumeric: bool,
    after: EngineView,
) -> bool {
    &&& before.queue.is_prefix_of(after.queue)
    &&& after.size == before.size
    &&& after.texts == before.texts
    &&& if event_erases(event) {
        &&& after.input.is_prefix_of(before.input)
        &&& before.input.len() > 0 ==> after.input.len() < before.input.len()
        &&& after.entries <= before.entries
        &&& erase_commands(after.queue.skip(before.queue.len() as int), before.texts)
    } else if event_types(event, alphanumeric) {
        &&& after.input.len() > 0
        &&& after.input.is_suffix_of(before.input.push(typed_char(event.key)->0))
        &&& after.entries <= before.entries + 2
        &&& before.entries + 2 <= before.size ==> after.input == before.input.push(
            typed_char(event.key)->0,
        )
        &&& typed_commands(
            after.queue.skip(before.queue.len() as int),
            typed_char(event.key)->0,
            before.texts,
        )
    } else if event_changes(event) {
        &&& after.input == Seq::<char>::empty()
        &&& after.entries == 0
        &&& after.queue == before.queue
    } else {
        &&& after.input == before.input
        &&& after.entries == before.entries
        &&& after.queue == before.queue
    }
}

/// The engine as it is seen.
pub open spec fn engine_view(engine: Engine) -> EngineView {
    EngineView {
        input: engine_input(engine),
        queue: engine_queue(engine),
        entries: engine_entries(engine),
        size: engine_size(engine),
        texts: engine_texts(engine),
    }
}

/// The command that the next pop returns: the oldest, or none from an
/// empty queue.
pub open spec fn next_command(queue: Seq<CommandView>) -> Option<CommandView> {
    if queue.len() == 0 {
        None
    } else {
        Some(queue[0])
    }
}

/// The queue that a pop leaves.
pub open spec fn after_pop(queue: Seq<CommandView>) -> Seq<CommandView> {
    if queue.len() == 0 {
        queue
    } else {
        queue.drop_first()
    }
}

/// The queue that `n` pops leave.
pub open spec fn after_pops(queue: Seq<CommandView>, n: nat) -> Seq<CommandView>
    decreases n,
{
    if n == 0 {
        queue
    } else {
        after_pops(after_pop(queue), (n - 1) as nat)
    }
}

/// The last `n` entries of `texts`, or all of them where there are fewer.
pub open spec fn keep_last(texts: Seq<Seq<char>>, n: nat) -> Seq<Seq<char>> {
    if texts.len() <= n {
        texts
    } else {
        texts.skip(texts.len() - n)
    }
}

/// Asks `char::is_alphanumeric` of std, which on ASCII holds of the
/// letters and the digits.
#[verifier::external_body]
fn is_alphanumeric(c: char) -> (alphanumeric: bool)
    ensures
        alphanumeric == char_is_alphanumeric(c),
        c <= '\u{7f}' ==> alphanumeric == is_ascii_alphanumeric(c),
{
    c.is_alphanumeric()
}

/// Builds the engine's memory with `utils::build_map` of `afrim-preprocessor`,
/// which reads each row of two entries as a sequence and its text, so that
/// every text of the memory is the second entry of such a row.
#[verifier::external_body]
fn build_memory(rows: Vec<Vec<&str>>) -> (memory: afrim_preprocessor::Node)
    ensures
        forall|text: Seq<char>| #[trigger]
            memory_texts(memory).contains(text) ==> exists|i: int|
                0 <= i < rows.len() && (#[trigger] rows[i]).len() == 2 && rows[i][1]@ == text,
{
    afrim_preprocessor::utils::build_map(rows)
}

/// Makes an engine with `Preprocessor::new` of `afrim-preprocessor`: its
/// cursor and its queue start empty.
#[verifier::external_body]
fn engine_new(memory: afrim_preprocessor::Node, buffer_size: usize) -> (engine: Engine)
    requires
        buffer_size <= MAX_BUFFER_SIZE,
    ensures
        engine_queue(engine) == Seq::<CommandView>::empty(),
        engine_input(engine) == Seq::<char>::empty(),
        engine_entries(engine) == 0,
        engine_size(engine) == buffer_size,
        engine_texts(engine) == memory_texts(memory),
{
    Engine::new(memory.into(), buffer_size)
}

/// Hands an event to `Preprocessor::process` of `afrim-preprocessor`. What
/// the engine does to its cursor and its queue is [`engine_step`]; whether
/// a typed character is a letter or a digit it asks of
/// `char::is_alphanumeric`. The cursor has room for at least the size it
/// was made with, and drops its oldest entry only when it is full.
#[verifier::external_body]
fn engine_process(engine: &mut Engine, event: &KeyboardEvent)
    requires
        event@.key.wf(),
    ensures
        engine_step(
            engine_view(*old(engine)),
            event@,
            char_is_alphanumeric(typed_char(event@.key)->0),
            engine_view(*final(engine)),
        ),
{
    let name = event.key.name.as_str();
    let key = <afrim_preprocessor::Key as std::str::FromStr>::from_str(name).unwrap();
    let state = match event.state {
        KeyState::Down => afrim_preprocessor::KeyState::Down,
        KeyState::Up => afrim_preprocessor::KeyState::Up,
    };
    engine.process(afrim_preprocessor::KeyboardEvent { key, state, ..Default::default() });
}

/// Calls `Preprocessor::commit` of `afrim-preprocessor`, which queues
/// commands and empties the cursor.
#[verifier::external_body]
fn engine_commit(engine: &mut Engine, text: String)
    ensures
        engine_input(*final(engine)) == Seq::<char>::empty(),
        engine_entries(*final(engine)) == 0,
        engine_size(*final(engine)) == engine_size(*old(engine)),
        engine_texts(*final(engine)) == engine_texts(*old(engine)),
        engine_queue(*old(engine)).is_prefix_of(engine_queue(*final(engine))),
{
    engine.commit(text)
}

/// Calls `Preprocessor::pop_queue` of `afrim-preprocessor`, which takes the
/// oldest command from the queue, if there is one.
#[verifier::external_body]
fn engine_pop_queue(engine: &mut Engine) -> (command: Option<Command>)
    ensures
        option_command_view(command) == next_command(engine_queue(*old(engine))),
        engine_queue(*final(engine)) == after_pop(engine_queue(*old(engine))),
        engine_input(*final(engine)) == engine_input(*old(engine)),
        engine_entries(*final(engine)) == engine_entries(*old(engine)),
        engine_size(*final(engine)) == engine_size(*old(engine)),
        engine_texts(*final(engine)) == engine_texts(*old(engine)),
{
    match engine.pop_queue() {
        Some(afrim_preprocessor::Command::CommitText(text)) => Some(Command::CommitText(text)),
        Some(afrim_preprocessor::Command::Pause) => Some(Command::Pause),
        Some(afrim_preprocessor::Command::Resume) => Some(Command::Resume),
        Some(afrim_preprocessor::Command::Delete(text)) => Some(Command::Delete(text)),
        None => None,
    }
}

/// Calls `Preprocessor::get_input` of `afrim-preprocessor`.
#[verifier::external_body]
fn engine_get_input(engine: &Engine) -> (input: String)
    ensures
        input@ == engine_input(*engine),
{
    engine.get_input()
}

/// Calls `Preprocessor::clear_queue` of `afrim-preprocessor`.
#[verifier::external_body]
fn engine_clear_queue(engine: &mut Engine)
    ensures
        engine_queue(*final(engine)) == Seq::<CommandView>::empty(),
        engine_input(*final(engine)) == engine_input(*old(engine)),
        engine_entries(*final(engine)) == engine_entries(*old(engine)),
        engine_size(*final(engine)) == engine_size(*old(engine)),
        engine_texts(*final(engine)) == engine_texts(*old(engine)),
{
    engine.clear_queue()
}

/// The rows that the engine's memory is built from: one per pair, holding
/// the sequence and then its text.
fn memory_rows(data: &Vec<(String, String)>) -> (rows: Vec<Vec<&str>>)
    ensures
        rows.len() == data.len(),
        forall|i: int|
            0 <= i < rows.len() ==> {
                &&& (#[trigger] rows[i]).len() == 2
                &&& rows[i][0]@ == data[i].0@
                &&& rows[i][1]@ == data[i].1@
            },
{
    let mut rows: Vec<Vec<&str>> = Vec::new();
    let mut i: usize = 0;
    while i < data.len()
        invariant
            i <= data.len(),
            rows.len() == i,
            forall|j: int|
                0 <= j < i ==> {
                    &&& (#[trigger] rows[j]).len() == 2
                    &&& rows[j][0]@ == data[j].0@
                    &&& rows[j][1]@ == data[j].1@
                },
        decreases data.len() - i,
    {
        let mut row: Vec<&str> = Vec::new();
        row.push(data[i].0.as_str());
        row.push(data[i].1.as_str());
        rows.push(row);
        i += 1;
    }
    rows
}

/// Moves the commands of the engine's queue to the end of `queue`, oldest
/// first.
fn take_commands(engine: &mut Engine, queue: &mut Vec<Command>)
    ensures
        final(queue).deep_view() == old(queue).deep_view() + engine_queue(*old(engine)),
        engine_queue(*final(engine)) == Seq::<CommandView>::empty(),
        engine_input(*final(engine)) == engine_input(*old(engine)),
        engine_entries(*final(engine)) == engine_entries(*old(engine)),
        engine_size(*final(engine)) == engine_size(*old(engine)),
        engine_texts(*final(engine)) == engine_texts(*old(engine)),
{
    let ghost all = queue.deep_view() + engine_queue(*engine);
    let ghost texts = engine_texts(*engine);
    let ghost input = engine_input(*engine);
    let ghost entries = engine_entries(*engine);
    let ghost size = engine_size(*engine);
    let mut more = true;
    while more
        invariant
            queue.deep_view() + engine_queue(*engine) == all,
            !more ==> engine_queue(*engine).len() == 0,
            engine_input(*engine) == input,
            engine_entries(*engine) == entries,
            engine_size(*engine) == size,
            engine_texts(*engine) == texts,
        decreases
                engine_queue(*engine).len() + if more {
                    1nat
                } else {
                    0nat
                },
    {
        let ghost waiting = engine_queue(*engine);
        let ghost moved = queue.deep_view();
        match engine_pop_queue(engine) {
            Some(command) => {
                queue.push(command);
                proof {
                    assert(queue.deep_view() =~= moved.push(waiting[0]));
                    assert(moved.push(waiting[0]) + waiting.drop_first() =~= moved + waiting);
                }
            },
            None => {
                more = false;
            },
        }
    }
    proof {
        assert(queue.deep_view() + engine_queue(*engine) =~= queue.deep_view());
    }
}

/// The character that an event puts into the input of a session: that of
/// a key going down that types a letter, a digit or ASCII punctuation.
pub fn typed_character(event: &KeyboardEvent) -> (typed: Option<char>)
    ensures
        typed == if event_types(event@, char_is_alphanumeric(typed_char(event@.key)->0)) {
            typed_char(event@.key)
        } else {
            None
        },
{
    let name = event.key.name();
    if event.key.is_named() || event.state == KeyState::Up || name.unicode_len() == 0 {
        return None;
    }
    let c = name.get_char(0);
    let punctuation = ('!' <= c && c <= '/') || (':' <= c && c <= '@') || ('[' <= c && c <= '`')
        || ('{' <= c && c <= '~');
    if is_alphanumeric(c) || punctuation {
        Some(c)
    } else {
        None
    }
}

/// A typing session.
pub struct Preprocessor {
    engine: Engine,
    queue: Vec<Command>,
    buffer_size: usize,
    history: Vec<String>,
}

/// The mathematical value of a [`Preprocessor`].
pub struct PreprocessorView {
    /// The text composed so far.
    pub input: Seq<char>,
    /// The commands that wait for the host, oldest first.
    pub queue: Seq<CommandView>,
    /// The texts committed last, oldest first.
    pub history: Seq<Seq<char>>,
    /// How many committed texts the history keeps, and for how many
    /// entries, characters and marks between them, the input has room.
    pub buffer_size: nat,
    /// How many entries the input holds.
    pub entries: nat,
    /// The texts that the sequences of the session stand for.
    pub texts: Set<Seq<char>>,
}

impl PreprocessorView {
    /// The history holds no more texts than the buffer size allows.
    pub open spec fn wf(self) -> bool {
        self.history.len() <= self.buffer_size
    }

    /// What the engine of the session shows.
    pub open spec fn engine(self) -> EngineView {
        EngineView {
            input: self.input,
            queue: self.queue,
            entries: self.entries,
            size: self.buffer_size,
            texts: self.texts,
        }
    }
}

impl View for Preprocessor {
    type V = PreprocessorView;

    closed spec fn view(&self) -> PreprocessorView {
        PreprocessorView {
            input: engine_input(self.engine),
            queue: self.queue.deep_view(),
            history: self.history.deep_view(),
            buffer_size: self.buffer_size as nat,
            entries: engine_entries(self.engine),
            texts: engine_texts(self.engine),
        }
    }
}

/// How one event takes a session from `before` to `after`. An idle event
/// changes nothing. Any other is a step of the engine, whose commands go
/// to the end of the queue; the history stays.
pub open spec fn process_step(
    before: PreprocessorView,
    event: KeyboardEventView,
    alphanumeric: bool,
    after: PreprocessorView,
) -> bool {
    if event_is_idle(event, before.input) {
        after == before
    } else {
        &&& engine_step(before.engine(), event, alphanumeric, after.engine())
        &&& after.history == before.history
    }
}

/// How committing `text` takes a session from `before` to `after`: the
/// input ends empty, the commit of the text goes to the end of the queue,
/// and the text to the end of the history, from which the oldest text
/// leaves when it is full.
pub open spec fn commit_step(
    before: PreprocessorView,
    text: Seq<char>,
    after: PreprocessorView,
) -> bool {
    &&& after.input == Seq::<char>::empty()
    &&& after.entries == 0
    &&& after.queue == before.queue.push(CommandView::CommitText(text))
    &&& after.history == keep_last(before.history.push(text), before.buffer_size)
    &&& after.buffer_size == before.buffer_size
    &&& after.texts == before.texts
}

impl Preprocessor {
    /// The invariant of a session, which `new` establishes and every
    /// method keeps.
    pub closed spec fn wf(&self) -> bool {
        &&& self@.wf()
        &&& engine_queue(self.engine) == Seq::<CommandView>::empty()
        &&& engine_size(self.engine) == self.buffer_size
    }

    /// Starts a session over the sequences of `data`, each a pair of what
    /// is typed and the text it stands for, with room for `buffer_size`
    /// entries of input and as many committed texts.
    pub fn new(data: Vec<(String, String)>, buffer_size: usize) -> (session: Preprocessor)
        requires
            buffer_size <= MAX_BUFFER_SIZE,
        ensures
            session.wf(),
            session@.input == Seq::<char>::empty(),
            session@.queue == Seq::<CommandView>::empty(),
            session@.history == Seq::<Seq<char>>::empty(),
            session@.buffer_size == buffer_size,
            session@.entries == 0,
            forall|text: Seq<char>| #[trigger]
                session@.texts.contains(text) ==> exists|i: int|
                    0 <= i < data.len() && (#[trigger] data[i]).1@ == text,
    {
        let memory = build_memory(memory_rows(&data));
        let session = Preprocessor {
            engine: engine_new(memory, buffer_size),
            queue: Vec::new(),
            buffer_size,
            history: Vec::new(),
        };
        assert(session.history.deep_view() =~= Seq::<Seq<char>>::empty());
        assert(session.queue.deep_view() =~= Seq::<CommandView>::empty());
        session
    }

    /// Applies one event and says whether the input changed.
    pub fn process_event(&mut self, event: &KeyboardEvent) -> (changed: bool)
        requires
            old(self).wf(),
        ensures
            final(self).wf(),
            changed == (final(self)@.input != old(self)@.input),
            process_step(
                old(self)@,
                event@,
                char_is_alphanumeric(typed_char(event@.key)->0),
                final(self)@,
            ),
    {
        proof {
            use_type_invariant(&event.key);
        }
        let before = engine_get_input(&self.engine);
        let idle = event.state == KeyState::Up || event.key.is_modifier() || (
        event.key.is_backspace() && before.as_str().unicode_len() == 0);
        if idle {
            return false;
        }
        let ghost queue = self.queue.deep_view();
        engine_process(&mut self.engine, event);
        let ghost queued = engine_queue(self.engine);
        take_commands(&mut self.engine, &mut self.queue);
        proof {
            assert(queued.skip(0) =~= queued);
            assert((queue + queued).skip(queue.len() as int) =~= queued);
            assert((queue + queued).subrange(0, queue.len() as int) =~= queue);
            assert(queued.len() == 0 ==> queue + queued =~= queue);
        }
        let after = engine_get_input(&self.engine);
        !(before == after)
    }

    /// Reads an event from the names of its key and its state, and applies
    /// it. Names that cannot be read leave the session as it was.
    pub fn process(&mut self, key: &str, state: &str) -> (r: Result<bool, EventError>)
        requires
            old(self).wf(),
        ensures
            final(self).wf(),
            match event_of_names(key@, state@) {
                Ok(event) => {
                    &&& r == Ok::<bool, EventError>(final(self)@.input != old(self)@.input)
                    &&& process_step(
                        old(self)@,
                        event,
                        char_is_alphanumeric(typed_char(event.key)->0),
                        final(self)@,
                    )
                },
                Err(e) => {
                    &&& r matches Err(error)
                    &&& error@ == e
                    &&& final(self)@ == old(self)@
                },
            },
    {
        match deserialize_event(key, state) {
            Ok(event) => Ok(self.process_event(&event)),
            Err(error) => Err(error),
        }
    }

    /// Commits `text`: empties the input, queues the commit of the text,
    /// and records the text in the history.
    pub fn commit(&mut self, text: String)
        requires
            old(self).wf(),
        ensures
            final(self).wf(),
            commit_step(old(self)@, text@, final(self)@),
    {
        if self.buffer_size > 0 {
            if self.history.len() == self.buffer_size {
                self.history.remove(0);
            }
            self.history.push(text.clone());
        }
        let ghost queue = self.queue.deep_view();
        engine_commit(&mut self.engine, text.clone());
        engine_clear_queue(&mut self.engine);
        self.queue.push(Command::CommitText(text));
        assert(self.queue.deep_view() =~= queue.push(CommandView::CommitText(text@)));
        assert(self.history.deep_view() =~= keep_last(
            old(self).history.deep_view().push(text@),
            old(self).buffer_size as nat,
        ));
    }

    /// Takes the oldest command from the queue; `None` when it is empty.
    pub fn pop_queue(&mut self) -> (command: Option<Command>)
        requires
            old(self).wf(),
        ensures
            final(self).wf(),
            option_command_view(command) == next_command(old(self)@.queue),
            final(self)@.queue == after_pop(old(self)@.queue),
            final(self)@.input == old(self)@.input,
            final(self)@.history == old(self)@.history,
            final(self)@.buffer_size == old(self)@.buffer_size,
            final(self)@.entries == old(self)@.entries,
            final(self)@.texts == old(self)@.texts,
    {
        if self.queue.len() == 0 {
            None
        } else {
            let ghost queue = self.queue.deep_view();
            let command = self.queue.remove(0);
            assert(self.queue.deep_view() =~= queue.drop_first());
            Some(command)
        }
    }

    /// The text composed so far.
    pub fn get_input(&self) -> (input: String)
        ensures
            input@ == self@.input,
    {
        engine_get_input(&self.engine)
    }

    /// Drops the commands that wait in the queue.
    pub fn clear_queue(&mut self)
        requires
            old(self).wf(),
        ensures
            final(self).wf(),
            final(self)@.queue == Seq::<CommandView>::empty(),
            final(self)@.input == old(self)@.input,
            final(self)@.history == old(self)@.history,
            final(self)@.buffer_size == old(self)@.buffer_size,
            final(self)@.entries == old(self)@.entries,
            final(self)@.texts == old(self)@.texts,
    {
        self.queue.clear();
        assert(self.queue.deep_view() =~= Seq::<CommandView>::empty());
    }

    /// The texts committed last, oldest first.
    pub fn history(&self) -> (texts: &Vec<String>)
        ensures
            texts.deep_view() == self@.history,
    {
        &self.history
    }

    /// How many committed texts the history keeps.
    pub fn buffer_size(&self) -> (size: usize)
        ensures
            size == self@.buffer_size,
    {
        self.buffer_size
    }
}

/// What `n` pops leave of a queue is the queue without its first `n`
/// commands.
proof fn lemma_after_pops(queue: Seq<CommandView>, n: nat)
    ensures
        after_pops(queue, n) == if n <= queue.len() {
            queue.skip(n as int)
        } else {
            Seq::<CommandView>::empty()
        },
    decreases n,
{
    if n > 0 {
        lemma_after_pops(after_pop(queue), (n - 1) as nat);
        if 0 < n <= queue.len() {
            assert(queue.drop_first().skip(n - 1) =~= queue.skip(n as int));
        }
    }
}

/// First in, first out. Take a queue and the commands that are queued
/// behind it later. Then pop after pop returns the whole in the order of
/// queueing, what waited first and what came later after it, and once all
/// are out every pop finds the queue empty.
pub proof fn lemma_queue_is_fifo(queue: Seq<CommandView>, later: Seq<CommandView>, n: nat)
    ensures
        n < queue.len() ==> next_command(after_pops(queue + later, n)) == Some(queue[n as int]),
        queue.len() <= n < queue.len() + later.len() ==> next_command(
            after_pops(queue + later, n),
        ) == Some(later[n - queue.len()]),
        n >= queue.len() + later.len() ==> next_command(after_pops(queue + later, n)) is None,
{
    lemma_after_pops(queue + later, n);
}

/// A commit leaves the input empty, and the commit of the text is the
/// command that leaves the queue once what waited before is out; after it
/// the queue is empty.
pub proof fn lemma_commit_is_popped(
    before: PreprocessorView,
    text: Seq<char>,
    after: PreprocessorView,
)
    requires
        commit_step(before, text, after),
    ensures
        after.input.len() == 0,
        next_command(after_pops(after.queue, before.queue.len())) == Some(
            CommandView::CommitText(text),
        ),
        next_command(after_pops(after.queue, before.queue.len() + 1)) is None,
{
    lemma_after_pops(after.queue, before.queue.len());
    lemma_after_pops(after.queue, before.queue.len() + 1);
}

/// The history after the texts of `commits` were committed in turn.
pub open spec fn history_after(
    history: Seq<Seq<char>>,
    buffer_size: nat,
    commits: Seq<Seq<char>>,
) -> Seq<Seq<char>>
    decreases commits.len(),
{
    if commits.len() == 0 {
        history
    } else {
        history_after(
            keep_last(history.push(commits[0]), buffer_size),
            buffer_size,
            commits.drop_first(),
        )
    }
}

/// Whatever is committed, and however often, the history never holds more
/// texts than the buffer size allows; with a buffer size of zero it holds
/// none.
pub proof fn lemma_history_is_bounded(
    history: Seq<Seq<char>>,
    buffer_size: nat,
    commits: Seq<Seq<char>>,
)
    requires
        history.len() <= buffer_size,
    ensures
        history_after(history, buffer_size, commits).len() <= buffer_size,
    decreases commits.len(),
{
    if commits.len() > 0 {
        lemma_history_is_bounded(
            keep_last(history.push(commits[0]), buffer_size),
            buffer_size,
            commits.drop_first(),
        );
    }
}

} // verus!
