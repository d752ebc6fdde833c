//! The translation engine: a dictionary from what is typed to the texts it
//! may stand for, and a registry of scripted rules that add to them.

use afrim_translator::Translator as Engine;
use indexmap::IndexMap;
use rhai::AST as Rule;
use vstd::prelude::*;

verus! {

/// The translator of `afrim-translator`, which finds the keys of the
/// dictionary that an input equals, nearly equals or begins. Nothing is
/// known of it but what the functions below say.
#[verifier::external_type_specification]
#[verifier::external_body]
pub struct ExEngine(Engine);

/// A compiled rule: a syntax tree of `rhai`.
#[verifier::external_type_specification]
#[verifier::external_body]
pub struct ExRule(Rule);

/// The insertion-ordered map of `indexmap`.
#[verifier::external_type_specification]
#[verifier::external_body]
#[verifier::reject_recursive_types(K)]
#[verifier::reject_recursive_types(V)]
#[verifier::reject_recursive_types(S)]
pub struct ExIndexMap<K, V, S>(IndexMap<K, V, S>);

/// The entries of a dictionary, in the order of the map.
pub uninterp spec fn map_entries(map: IndexMap<String, Vec<String>>) -> Seq<
    (Seq<char>, Seq<Seq<char>>),
>;

/// The dictionary of an engine, in the order of its map.
pub uninterp spec fn engine_dictionary(engine: Engine) -> Seq<(Seq<char>, Seq<Seq<char>>)>;

/// Whether an engine marks the exact match as ready to commit.
pub uninterp spec fn engine_auto_commit(engine: Engine) -> bool;

/// The names of the rules that an engine holds.
pub uninterp spec fn engine_rules(engine: Engine) -> Seq<Seq<char>>;

/// What compiling a rule's source gives: the rule, or the text of the error.
pub uninterp spec fn compile_result(source: Seq<char>) -> Result<Rule, Seq<char>>;

/// What the engine returns for an input when it holds no rule, as a
/// function of its dictionary, its flag and the input: the keys that the
/// input equals, nearly equals or begins, each with its texts, the best
/// match first.
pub uninterp spec fn dictionary_predicates(
    dictionary: Seq<(Seq<char>, Seq<Seq<char>>)>,
    auto_commit: bool,
    input: Seq<char>,
) -> Seq<PredicateView>;

/// The entries with `value` under `key`: in the place of the entry that had
/// the key, or, where none had it, at the end.
pub open spec fn with_entry<V>(entries: Seq<(Seq<char>, V)>, key: Seq<char>, value: V) -> Seq<
    (Seq<char>, V),
>
    decreases entries.len(),
{
    if entries.len() == 0 {
        seq![(key, value)]
    } else if entries[0].0 == key {
        seq![(key, value)] + entries.drop_first()
    } else {
        seq![entries[0]] + with_entry(entries.drop_first(), key, value)
    }
}

/// The entries after the pairs were inserted one after the other.
pub open spec fn with_entries<V>(entries: Seq<(Seq<char>, V)>, pairs: Seq<(Seq<char>, V)>) -> Seq<
    (Seq<char>, V),
>
    decreases pairs.len(),
{
    if pairs.len() == 0 {
        entries
    } else {
        with_entry(with_entries(entries, pairs.drop_last()), pairs.last().0, pairs.last().1)
    }
}

/// The entries without those under `key`, the others in their order.
pub open spec fn without_entry<V>(entries: Seq<(Seq<char>, V)>, key: Seq<char>) -> Seq<
    (Seq<char>, V),
>
    decreases entries.len(),
{
    if entries.len() == 0 {
        entries
    } else if entries.last().0 == key {
        without_entry(entries.drop_last(), key)
    } else {
        without_entry(entries.drop_last(), key).push(entries.last())
    }
}

/// Whether an entry stands under `key`.
pub open spec fn has_entry<V>(entries: Seq<(Seq<char>, V)>, key: Seq<char>) -> bool {
    exists|i: int| 0 <= i < entries.len() && (#[trigger] entries[i]).0 == key
}

/// The value of the first entry under `key`.
pub open spec fn lookup<V>(entries: Seq<(Seq<char>, V)>, key: Seq<char>) -> Option<V>
    decreases entries.len(),
{
    if entries.len() == 0 {
        None
    } else if entries[0].0 == key {
        Some(entries[0].1)
    } else {
        lookup(entries.drop_first(), key)
    }
}

/// The length of a text in bytes of UTF-8, as `str::len` gives it.
pub open spec fn byte_len(text: Seq<char>) -> usize {
    vstd::utf8::encode_utf8(text).len() as usize
}

/// Whether a text begins with an ASCII character.
pub open spec fn starts_ascii(text: Seq<char>) -> bool {
    text.len() > 0 && text[0] <= '\u{7f}'
}

/// Whether the engine can hold `input` against `key`. It passes over a key
/// that is shorter in bytes than the input. Of any other key it compares
/// the first byte with that of the input, which it can do only where both
/// begin with an ASCII character.
pub open spec fn key_fits(key: Seq<char>, input: Seq<char>) -> bool {
    ||| key.len() == 0
    ||| byte_len(input) > byte_len(key)
    ||| (starts_ascii(key) && starts_ascii(input))
}

/// Whether the engine can translate `input` over `dictionary`: an input of
/// fewer than two characters always, a longer one where it can be held
/// against every key.
pub open spec fn accepts(
    dictionary: Seq<(Seq<char>, Seq<Seq<char>>)>,
    input: Seq<char>,
) -> bool {
    input.len() < 2 || forall|i: int|
        0 <= i < dictionary.len() ==> key_fits((#[trigger] dictionary[i]).0, input)
}

/// One candidate for what an input stands for.
#[derive(Clone, Debug, PartialEq, Eq)]
pub struct Predicate {
    /// The key that matched, or the code that a rule answered with.
    pub code: String,
    /// What is left to type to reach the key.
    pub remaining_code: String,
    /// The texts the key stands for, the best first.
    pub texts: Vec<String>,
    /// Whether the first text may be committed without asking.
    pub can_commit: bool,
}

/// The mathematical value of a [`Predicate`].
pub struct PredicateView {
    pub code: Seq<char>,
    pub remaining_code: Seq<char>,
    pub texts: Seq<Seq<char>>,
    pub can_commit: bool,
}

impl DeepView for Predicate {
    type V = PredicateView;

    open spec fn deep_view(&self) -> PredicateView {
        PredicateView {
            code: self.code@,
            remaining_code: self.remaining_code@,
            texts: self.texts.deep_view(),
            can_commit: self.can_commit,
        }
    }
}

impl View for Predicate {
    type V = PredicateView;

    open spec fn view(&self) -> PredicateView {
        self.deep_view()
    }
}

/// Why a rule was not registered.
#[derive(Clone, Debug, PartialEq, Eq)]
pub struct CompileError {
    /// The name under which the rule was to stand.
    pub name: String,
    /// What the compiler said of the source.
    pub cause: String,
}

/// The mathematical value of a [`CompileError`].
pub struct CompileErrorView {
    pub name: Seq<char>,
    pub cause: Seq<char>,
}

impl View for CompileError {
    type V = CompileErrorView;

    open spec fn view(&self) -> CompileErrorView {
        CompileErrorView { name: self.name@, cause: self.cause@ }
    }
}

/// What running one rule on an input gave.
#[derive(Clone, Debug, PartialEq, Eq)]
pub enum RuleOutcome {
    /// The rule has nothing to add.
    Silent,
    /// The rule adds a predicate.
    Answer(Predicate),
    /// The rule failed; holds the cause.
    Failed(String),
}

/// The mathematical value of a [`RuleOutcome`].
pub enum RuleOutcomeView {
    Silent,
    Answer(PredicateView),
    Failed(Seq<char>),
}

impl DeepView for RuleOutcome {
    type V = RuleOutcomeView;

    open spec fn deep_view(&self) -> RuleOutcomeView {
        match self {
            RuleOutcome::Silent => RuleOutcomeView::Silent,
            RuleOutcome::Answer(predicate) => RuleOutcomeView::Answer(predicate.deep_view()),
            RuleOutcome::Failed(cause) => RuleOutcomeView::Failed(cause@),
        }
    }
}

/// A registered rule that failed when it ran.
#[derive(Clone, Debug, PartialEq, Eq)]
pub struct RuleExecutionFailed {
    /// The name of the rule.
    pub name: String,
    /// What went wrong.
    pub cause: String,
}

/// The mathematical value of a [`RuleExecutionFailed`].
pub struct RuleExecutionFailedView {
    pub name: Seq<char>,
    pub cause: Seq<char>,
}

impl DeepView for RuleExecutionFailed {
    type V = RuleExecutionFailedView;

    open spec fn deep_view(&self) -> RuleExecutionFailedView {
        RuleExecutionFailedView { name: self.name@, cause: self.cause@ }
    }
}

/// What a translator returns for an input.
#[derive(Clone, Debug, PartialEq, Eq)]
pub struct Translation {
    /// The candidates, the best first.
    pub predicates: Vec<Predicate>,
    /// The text that is accepted without asking, if any.
    pub accepted: Option<String>,
    /// The rules that failed, in the order of registration.
    pub failed: Vec<RuleExecutionFailed>,
}

/// The mathematical value of a [`Translation`].
pub struct TranslationView {
    pub predicates: Seq<PredicateView>,
    pub accepted: Option<Seq<char>>,
    pub failed: Seq<RuleExecutionFailedView>,
}

impl DeepView for Translation {
    type V = TranslationView;

    open spec fn deep_view(&self) -> TranslationView {
        TranslationView {
            predicates: self.predicates.deep_view(),
            accepted: match self.accepted {
                Some(text) => Some(text@),
                None => None,
            },
            failed: self.failed.deep_view(),
        }
    }
}

/// The value of what compiling gave.
pub open spec fn compiled_view(compiled: Result<Rule, String>) -> Result<Rule, Seq<char>> {
    match compiled {
        Ok(rule) => Ok(rule),
        Err(cause) => Err(cause@),
    }
}

/// The value of texts that may be missing.
pub open spec fn option_texts_view(texts: Option<Vec<String>>) -> Option<Seq<Seq<char>>> {
    match texts {
        Some(t) => Some(t.deep_view()),
        None => None,
    }
}

/// The rules of a list under the values of their names.
pub open spec fn rule_entries(rules: Seq<(String, Rule)>) -> Seq<(Seq<char>, Rule)> {
    rules.map_values(|entry: (String, Rule)| (entry.0@, entry.1))
}

/// Whether no two entries stand under the same key.
pub open spec fn has_distinct_keys<V>(entries: Seq<(Seq<char>, V)>) -> bool {
    forall|i: int, j: int|
        0 <= i < j < entries.len() ==> (#[trigger] entries[i]).0 != (#[trigger] entries[j]).0
}

/// The predicate of the key that equals the input.
pub open spec fn exact_match(
    dictionary: Seq<(Seq<char>, Seq<Seq<char>>)>,
    auto_commit: bool,
    input: Seq<char>,
) -> Option<PredicateView> {
    match lookup(dictionary, input) {
        Some(texts) => Some(
            PredicateView {
                code: input,
                remaining_code: Seq::empty(),
                texts,
                can_commit: auto_commit,
            },
        ),
        None => None,
    }
}

/// The predicates that the rules answered with, in the order of the rules;
/// a rule that is silent or failed adds none.
pub open spec fn answers_of(outcomes: Seq<RuleOutcomeView>) -> Seq<PredicateView>
    decreases outcomes.len(),
{
    if outcomes.len() == 0 {
        Seq::empty()
    } else {
        match outcomes.last() {
            RuleOutcomeView::Answer(predicate) => answers_of(outcomes.drop_last()).push(predicate),
            _ => answers_of(outcomes.drop_last()),
        }
    }
}

/// The failures among the outcomes, each under the name of its rule.
pub open spec fn failures_of(
    rules: Seq<(Seq<char>, Rule)>,
    outcomes: Seq<RuleOutcomeView>,
) -> Seq<RuleExecutionFailedView>
    decreases outcomes.len(),
{
    if outcomes.len() == 0 {
        Seq::empty()
    } else {
        match outcomes.last() {
            RuleOutcomeView::Failed(cause) => failures_of(rules, outcomes.drop_last()).push(
                RuleExecutionFailedView { name: rules[outcomes.len() - 1].0, cause },
            ),
            _ => failures_of(rules, outcomes.drop_last()),
        }
    }
}

/// What the engine adds to the exact match: the keys that the input nearly
/// equals or begins, which are `of_dictionary` without the exact match
/// where the engine lists it. It lists it for an input of two characters
/// or more, and adds nothing where it cannot take the input.
pub open spec fn rest_of(
    dictionary: Seq<(Seq<char>, Seq<Seq<char>>)>,
    input: Seq<char>,
    of_dictionary: Seq<PredicateView>,
) -> Seq<PredicateView> {
    if !accepts(dictionary, input) {
        Seq::empty()
    } else if lookup(dictionary, input) is Some && input.len() >= 2 {
        of_dictionary.skip(1)
    } else {
        of_dictionary
    }
}

/// The text that is accepted without asking: the first of all texts, where
/// the translator commits by itself and there is a text.
pub open spec fn accepted_of(predicates: Seq<PredicateView>, auto_commit: bool) -> Option<
    Seq<char>,
> {
    if auto_commit && candidates_of(predicates).len() > 0 {
        Some(candidates_of(predicates)[0])
    } else {
        None
    }
}

/// What a translator returns for an input, given the outcomes of its
/// rules in the order of registration and the predicates `of_dictionary`
/// that the engine finds. First comes the key that equals the input, then
/// what the rules answered, one rule after the other, then what the engine
/// adds. A rule that failed is reported and adds nothing.
pub open spec fn translation_of(
    translator: TranslatorView,
    input: Seq<char>,
    outcomes: Seq<RuleOutcomeView>,
    of_dictionary: Seq<PredicateView>,
) -> TranslationView {
    let first = match exact_match(translator.dictionary, translator.auto_commit, input) {
        Some(predicate) => seq![predicate],
        None => Seq::empty(),
    };
    let predicates = first + answers_of(outcomes) + rest_of(
        translator.dictionary,
        input,
        of_dictionary,
    );
    TranslationView {
        predicates,
        accepted: accepted_of(predicates, translator.auto_commit),
        failed: failures_of(translator.rules, outcomes),
    }
}

/// The texts of the predicates, one predicate after the other.
pub open spec fn candidates_of(predicates: Seq<PredicateView>) -> Seq<Seq<char>>
    decreases predicates.len(),
{
    if predicates.len() == 0 {
        Seq::empty()
    } else {
        candidates_of(predicates.drop_last()) + predicates.last().texts
    }
}

/// The message of a [`CompileError`].
pub open spec fn compile_error_message(error: CompileErrorView) -> Seq<char> {
    "Failed to register translator `"@ + error.name + "`.\nCaused by:\n\t"@ + error.cause
}

impl CompileError {
    /// The error in words.
    pub fn message(&self) -> (text: String)
        ensures
            text@ == compile_error_message(self@),
    {
        let mut text = "Failed to register translator `".to_owned();
        text.append(self.name.as_str());
        text.append("`.\nCaused by:\n\t");
        text.append(self.cause.as_str());
        text
    }
}

/// The texts of the predicates in one list, the best first.
pub fn candidates(predicates: &Vec<Predicate>) -> (texts: Vec<String>)
    ensures
        texts.deep_view() == candidates_of(predicates.deep_view()),
{
    let mut texts: Vec<String> = Vec::new();
    let mut i: usize = 0;
    while i < predicates.len()
        invariant
            i <= predicates.len(),
            texts.deep_view() == candidates_of(predicates.deep_view().take(i as int)),
        decreases predicates.len() - i,
    {
        let ghost before = texts.deep_view();
        let own = &predicates[i].texts;
        let mut j: usize = 0;
        while j < own.len()
            invariant
                j <= own.len(),
                texts.deep_view() == before + own.deep_view().take(j as int),
            decreases own.len() - j,
        {
            let ghost so_far = texts.deep_view();
            texts.push(own[j].clone());
            j += 1;
            proof {
                assert(texts.deep_view() =~= so_far.push(own[j - 1]@));
                assert(own.deep_view().take(j as int) =~= own.deep_view().take(j - 1).push(
                    own[j - 1]@,
                ));
            }
        }
        proof {
            let all = predicates.deep_view();
            assert(own.deep_view().take(own.len() as int) =~= own.deep_view());
            assert(all.take(i + 1).drop_last() =~= all.take(i as int));
            assert(all.take(i + 1).last() == all[i as int]);
        }
        i += 1;
    }
    proof {
        assert(predicates.deep_view().take(predicates.len() as int) =~= predicates.deep_view());
    }
    texts
}

/// Makes an empty map with `IndexMap::new`.
#[verifier::external_body]
fn map_new() -> (map: IndexMap<String, Vec<String>>)
    ensures
        map_entries(map) == Seq::<(Seq<char>, Seq<Seq<char>>)>::empty(),
{
    IndexMap::new()
}

/// Calls `IndexMap::insert`: a key that the map holds keeps its place and
/// gets the new value, another key goes to the end.
#[verifier::external_body]
fn map_insert(map: &mut IndexMap<String, Vec<String>>, key: String, values: Vec<String>)
    ensures
        map_entries(*final(map)) == with_entry(map_entries(*old(map)), key@, values.deep_view()),
{
    map.insert(key, values);
}

/// Calls `IndexMap::get` and copies what it finds: the value under the
/// key, if the map holds the key.
#[verifier::external_body]
fn map_get(map: &IndexMap<String, Vec<String>>, key: &str) -> (values: Option<Vec<String>>)
    ensures
        option_texts_view(values) == lookup(map_entries(*map), key@),
{
    map.get(key).cloned()
}

/// Copies a map with its `clone`: the same entries in the same order.
#[verifier::external_body]
fn map_clone(map: &IndexMap<String, Vec<String>>) -> (copy: IndexMap<String, Vec<String>>)
    ensures
        map_entries(copy) == map_entries(*map),
{
    map.clone()
}

/// Makes an engine with `Translator::new` of `afrim-translator`: it holds
/// the dictionary and the flag, and no rule.
#[verifier::external_body]
fn engine_new(dictionary: IndexMap<String, Vec<String>>, auto_commit: bool) -> (engine: Engine)
    ensures
        engine_dictionary(engine) == map_entries(dictionary),
        engine_auto_commit(engine) == auto_commit,
        engine_rules(engine) == Seq::<Seq<char>>::empty(),
{
    Engine::new(dictionary, auto_commit)
}

/// Compiles the source of a rule with `Engine::compile` of `rhai`, on an
/// engine made by `Engine::new_raw` that does not optimize, so that
/// nothing of the source is run; an error is handed on as its text.
#[verifier::external_body]
fn compile_rule(source: &str) -> (compiled: Result<Rule, String>)
    ensures
        compiled_view(compiled) == compile_result(source@),
{
    let mut compiler = rhai::Engine::new_raw();
    compiler.set_optimization_level(rhai::OptimizationLevel::None);
    match compiler.compile(source) {
        Ok(rule) => Ok(rule),
        Err(error) => Err(error.to_string()),
    }
}

/// Calls `Translator::translate` of `afrim-translator` on an engine
/// without rules. The engine lists the keys of the dictionary that the
/// input equals, nearly equals or begins, none for an input of fewer than
/// two characters, and sorts the list by confidence without changing the
/// order of equals; the key that equals the input is alone of the highest
/// confidence. The engine panics on an input that [`accepts`] leaves out.
#[verifier::external_body]
fn engine_translate(engine: &Engine, input: &str) -> (predicates: Vec<Predicate>)
    requires
        accepts(engine_dictionary(*engine), input@),
        engine_rules(*engine).len() == 0,
    ensures
        predicates.deep_view() == dictionary_predicates(
            engine_dictionary(*engine),
            engine_auto_commit(*engine),
            input@,
        ),
        input@.len() < 2 ==> predicates.len() == 0,
        input@.len() >= 2 ==> (exact_match(
            engine_dictionary(*engine),
            engine_auto_commit(*engine),
            input@,
        ) matches Some(first) ==> predicates.len() > 0 && predicates[0].deep_view() == first),
{
    engine.translate(input).into_iter().map(|p| Predicate {
        code: p.code,
        remaining_code: p.remaining_code,
        texts: p.texts,
        can_commit: p.can_commit,
    }).collect()
}

/// Whether a key counts toward a bound on the keys' lengths: an empty key
/// never, and toward the bound on wide keys only a key that does not begin
/// with an ASCII character.
pub open spec fn key_counts(key: Seq<char>, wide_only: bool) -> bool {
    key.len() > 0 && (wide_only ==> !starts_ascii(key))
}

/// Whether `bound` is the length in bytes of the longest key that counts,
/// or nothing where no key counts.
pub open spec fn is_longest(
    bound: Option<usize>,
    dictionary: Seq<(Seq<char>, Seq<Seq<char>>)>,
    wide_only: bool,
) -> bool {
    &&& forall|i: int|
        0 <= i < dictionary.len() && key_counts((#[trigger] dictionary[i]).0, wide_only) ==> bound
            is Some && byte_len(dictionary[i].0) <= bound->0
    &&& bound is Some ==> exists|i: int|
        0 <= i < dictionary.len() && key_counts((#[trigger] dictionary[i]).0, wide_only)
            && byte_len(dictionary[i].0) == bound->0
}

/// Inserting keeps the keys in their places, and adds the new key at the
/// end unless an entry had it.
proof fn lemma_with_entry_keys<V>(entries: Seq<(Seq<char>, V)>, key: Seq<char>, value: V)
    ensures
        forall|i: int|
            0 <= i < entries.len() ==> (#[trigger] with_entry(entries, key, value)[i]).0
                == entries[i].0,
        forall|i: int|
            0 <= i < entries.len() && entries[i].0 != key ==> (#[trigger] with_entry(
                entries,
                key,
                value,
            )[i]) == entries[i],
        has_entry(entries, key) ==> with_entry(entries, key, value).len() == entries.len(),
        !has_entry(entries, key) ==> with_entry(entries, key, value) == entries.push((key, value)),
    decreases entries.len(),
{
    if entries.len() > 0 {
        let rest = entries.drop_first();
        lemma_with_entry_keys(rest, key, value);
        if entries[0].0 == key {
            assert forall|i: int| 0 < i < entries.len() implies (#[trigger] with_entry(
                entries,
                key,
                value,
            )[i]) == entries[i] by {
                assert(rest[i - 1] == entries[i]);
            }
        } else {
            let tail = with_entry(rest, key, value);
            assert forall|i: int| 0 <= i < entries.len() implies (#[trigger] with_entry(
                entries,
                key,
                value,
            )[i]).0 == entries[i].0 && (entries[i].0 != key ==> with_entry(entries, key, value)[i]
                == entries[i]) by {
                if i > 0 {
                    assert(with_entry(entries, key, value)[i] == tail[i - 1]);
                    assert(rest[i - 1] == entries[i]);
                }
            }
            if has_entry(entries, key) {
                let i = choose|i: int| 0 <= i < entries.len() && (#[trigger] entries[i]).0 == key;
                assert(rest[i - 1].0 == key);
            } else {
                assert forall|i: int| 0 <= i < rest.len() implies (#[trigger] rest[i]).0 != key by {
                    assert(entries[i + 1].0 != key);
                }
                assert(with_entry(entries, key, value) =~= entries.push((key, value)));
            }
        }
    }
}

/// The bound after a key of `len` bytes was counted.
fn raised(bound: Option<usize>, len: usize) -> (r: Option<usize>)
    ensures
        r == Some(
            if bound is Some && bound->0 >= len {
                bound->0
            } else {
                len
            },
        ),
{
    match bound {
        Some(longest) => if longest >= len {
            Some(longest)
        } else {
            Some(len)
        },
        None => Some(len),
    }
}

/// A bound stays the longest when a key that counts is inserted and
/// counted, and when a key that does not count is inserted.
proof fn lemma_longest_with_entry(
    bound: Option<usize>,
    bound2: Option<usize>,
    dictionary: Seq<(Seq<char>, Seq<Seq<char>>)>,
    key: Seq<char>,
    texts: Seq<Seq<char>>,
    wide_only: bool,
)
    requires
        is_longest(bound, dictionary, wide_only),
        bound2 == if key_counts(key, wide_only) {
            Some(
                if bound is Some && bound->0 >= byte_len(key) {
                    bound->0
                } else {
                    byte_len(key)
                },
            )
        } else {
            bound
        },
    ensures
        is_longest(bound2, with_entry(dictionary, key, texts), wide_only),
{
    let after = with_entry(dictionary, key, texts);
    lemma_with_entry_keys(dictionary, key, texts);
    assert forall|i: int|
        0 <= i < after.len() && key_counts((#[trigger] after[i]).0, wide_only) implies bound2
        is Some && byte_len(after[i].0) <= bound2->0 by {
        if i < dictionary.len() {
            assert(after[i].0 == dictionary[i].0);
        }
    }
    if bound2 is Some {
        if key_counts(key, wide_only) && bound2->0 == byte_len(key) {
            if has_entry(dictionary, key) {
                let i = choose|i: int|
                    0 <= i < dictionary.len() && (#[trigger] dictionary[i]).0 == key;
                assert(after[i].0 == key);
            } else {
                assert(after[dictionary.len() as int].0 == key);
            }
        } else {
            let i = choose|i: int|
                0 <= i < dictionary.len() && key_counts((#[trigger] dictionary[i]).0, wide_only)
                    && byte_len(dictionary[i].0) == bound->0;
            assert(after[i].0 == dictionary[i].0);
        }
    }
}

/// Inserting under a key that an entry has puts the value in the place of
/// the first such entry.
proof fn lemma_with_entry_at<V>(entries: Seq<(Seq<char>, V)>, key: Seq<char>, value: V, at: int)
    requires
        0 <= at < entries.len(),
        entries[at].0 == key,
        forall|j: int| 0 <= j < at ==> (#[trigger] entries[j]).0 != key,
    ensures
        with_entry(entries, key, value) == entries.update(at, (key, value)),
    decreases entries.len(),
{
    if at == 0 {
        assert(seq![(key, value)] + entries.drop_first() =~= entries.update(0, (key, value)));
    } else {
        let rest = entries.drop_first();
        assert(entries[0].0 != key);
        assert forall|j: int| 0 <= j < at - 1 implies (#[trigger] rest[j]).0 != key by {
            assert(entries[j + 1].0 != key);
        }
        lemma_with_entry_at(rest, key, value, at - 1);
        assert(seq![entries[0]] + rest.update(at - 1, (key, value)) =~= entries.update(
            at,
            (key, value),
        ));
    }
}

/// Where no two entries share a key, taking out a key takes out the one
/// entry that has it.
proof fn lemma_without_entry_at<V>(entries: Seq<(Seq<char>, V)>, key: Seq<char>, at: int)
    requires
        0 <= at < entries.len(),
        entries[at].0 == key,
        has_distinct_keys(entries),
    ensures
        without_entry(entries, key) == entries.remove(at),
    decreases entries.len(),
{
    let front = entries.drop_last();
    if at == entries.len() - 1 {
        assert forall|i: int| 0 <= i < front.len() implies (#[trigger] front[i]).0 != key by {
            assert(entries[i].0 != entries[at].0);
        }
        assert(!has_entry(front, key));
        lemma_unregister_is_idempotent(front, key);
        assert(entries.remove(at) =~= front);
    } else {
        assert(entries.last().0 != key) by {
            assert(entries[at].0 != entries[entries.len() - 1].0);
        }
        assert(has_distinct_keys(front)) by {
            assert forall|i: int, j: int| 0 <= i < j < front.len() implies (#[trigger] front[i]).0
                != (#[trigger] front[j]).0 by {
                assert(entries[i].0 != entries[j].0);
            }
        }
        lemma_without_entry_at(front, key, at);
        assert(front.remove(at).push(entries.last()) =~= entries.remove(at));
    }
}

/// The place of the rule of that name, if there is one.
fn find_rule(rules: &Vec<(String, Rule)>, name: &str) -> (place: Option<usize>)
    ensures
        match place {
            Some(at) => at < rules.len() && rules[at as int].0@ == name@ && forall|j: int|
                0 <= j < at ==> (#[trigger] rules[j]).0@ != name@,
            None => forall|j: int| 0 <= j < rules.len() ==> (#[trigger] rules[j]).0@ != name@,
        },
{
    let wanted = name.to_owned();
    let mut i: usize = 0;
    while i < rules.len()
        invariant
            i <= rules.len(),
            wanted@ == name@,
            forall|j: int| 0 <= j < i ==> (#[trigger] rules[j]).0@ != name@,
        decreases rules.len() - i,
    {
        if rules[i].0 == wanted {
            return Some(i);
        }
        i += 1;
    }
    None
}

/// Puts a rule under a name: in the place of the rule that had the name
/// or, where none had it, behind the others.
fn insert_rule(rules: &mut Vec<(String, Rule)>, name: String, rule: Rule)
    requires
        has_distinct_keys(rule_entries(old(rules)@)),
    ensures
        rule_entries(final(rules)@) == with_entry(rule_entries(old(rules)@), name@, rule),
        has_distinct_keys(rule_entries(final(rules)@)),
{
    let ghost before = rule_entries(rules@);
    match find_rule(rules, name.as_str()) {
        Some(at) => {
            rules.set(at, (name, rule));
            proof {
                assert forall|j: int| 0 <= j < at implies (#[trigger] before[j]).0 != name@ by {
                    assert(old(rules)@[j].0@ != name@);
                }
                lemma_with_entry_at(before, name@, rule, at as int);
                assert(rule_entries(rules@) =~= before.update(at as int, (name@, rule)));
                assert forall|i: int, j: int| 0 <= i < j < rules@.len() implies (
                #[trigger] rule_entries(rules@)[i]).0 != (#[trigger] rule_entries(rules@)[j]).0 by {
                    assert(before[i].0 != before[j].0);
                }
            }
        },
        None => {
            rules.push((name, rule));
            proof {
                assert forall|j: int| 0 <= j < before.len() implies (#[trigger] before[j]).0
                    != name@ by {
                    assert(old(rules)@[j].0@ != name@);
                }
                assert(!has_entry(before, name@));
                lemma_with_entry_keys(before, name@, rule);
                assert(rule_entries(rules@) =~= before.push((name@, rule)));
                assert forall|i: int, j: int| 0 <= i < j < rules@.len() implies (
                #[trigger] rule_entries(rules@)[i]).0 != (#[trigger] rule_entries(rules@)[j]).0 by {
                    if j < before.len() {
                        assert(before[i].0 != before[j].0);
                    } else {
                        assert(before[i].0 != name@);
                    }
                }
            }
        },
    }
}

/// The translation engine.
pub struct Translator {
    engine: Engine,
    dictionary: IndexMap<String, Vec<String>>,
    auto_commit: bool,
    rules: Vec<(String, Rule)>,
    /// The length in bytes of the longest key that is not empty.
    longest: Option<usize>,
    /// The same of the keys that do not begin with an ASCII character.
    longest_wide: Option<usize>,
}

/// The mathematical value of a [`Translator`].
pub struct TranslatorView {
    /// What is typed and the texts it may stand for, the best first.
    pub dictionary: Seq<(Seq<char>, Seq<Seq<char>>)>,
    /// Whether the first text is accepted without asking.
    pub auto_commit: bool,
    /// The rules under their names, in the order of registration.
    pub rules: Seq<(Seq<char>, Rule)>,
}

impl View for Translator {
    type V = TranslatorView;

    closed spec fn view(&self) -> TranslatorView {
        TranslatorView {
            dictionary: map_entries(self.dictionary),
            auto_commit: self.auto_commit,
            rules: rule_entries(self.rules@),
        }
    }
}

impl Translator {
    /// The invariant of a translator, which `new` establishes and every
    /// method keeps: its engine holds its dictionary and no rule, it knows
    /// how long its keys are, and no two of its rules have the same name.
    pub closed spec fn wf(&self) -> bool {
        &&& engine_dictionary(self.engine) == map_entries(self.dictionary)
        &&& engine_auto_commit(self.engine) == self.auto_commit
        &&& engine_rules(self.engine).len() == 0
        &&& is_longest(self.longest, map_entries(self.dictionary), false)
        &&& is_longest(self.longest_wide, map_entries(self.dictionary), true)
        &&& has_distinct_keys(rule_entries(self.rules@))
    }

    /// Every name is registered once.
    pub proof fn lemma_names_are_distinct(&self)
        requires
            self.wf(),
        ensures
            has_distinct_keys(self@.rules),
    {
    }

    /// Makes a translator over the dictionary that inserting the pairs in
    /// turn gives: a key given twice keeps its first place and its last
    /// texts.
    pub fn new(dictionary: Vec<(String, Vec<String>)>, auto_commit: bool) -> (translator:
        Translator)
        ensures
            translator.wf(),
            translator@.dictionary == with_entries(Seq::empty(), dictionary.deep_view()),
            translator@.auto_commit == auto_commit,
            translator@.rules == Seq::<(Seq<char>, Rule)>::empty(),
    {
        let ghost items = dictionary@;
        let ghost pairs = dictionary.deep_view();
        let mut map = map_new();
        let mut longest: Option<usize> = None;
        let mut longest_wide: Option<usize> = None;
        for entry in it: dictionary
            invariant
                it.seq() == items,
                pairs.len() == items.len(),
                forall|i: int|
                    0 <= i < items.len() ==> pairs[i] == (#[trigger] items[i]).deep_view(),
                map_entries(map) == with_entries(Seq::empty(), pairs.take(it.index())),
                is_longest(longest, map_entries(map), false),
                is_longest(longest_wide, map_entries(map), true),
        {
            let (key, values) = entry;
            let ghost before = (longest, longest_wide);
            if !key.as_str().is_empty() {
                let len = key.as_str().len();
                longest = raised(longest, len);
                if key.as_str().get_char(0) > '\u{7f}' {
                    longest_wide = raised(longest_wide, len);
                }
            }
            proof {
                let n = it.index();
                assert(pairs.take(n + 1).drop_last() =~= pairs.take(n));
                assert(pairs.take(n + 1).last() == pairs[n]);
                lemma_longest_with_entry(
                    before.0,
                    longest,
                    map_entries(map),
                    key@,
                    values.deep_view(),
                    false,
                );
                lemma_longest_with_entry(
                    before.1,
                    longest_wide,
                    map_entries(map),
                    key@,
                    values.deep_view(),
                    true,
                );
            }
            map_insert(&mut map, key, values);
        }
        proof {
            assert(pairs.take(pairs.len() as int) =~= pairs);
        }
        let rules: Vec<(String, Rule)> = Vec::new();
        assert(rule_entries(rules@) =~= Seq::<(Seq<char>, Rule)>::empty());
        Translator {
            engine: engine_new(map_clone(&map), auto_commit),
            dictionary: map,
            auto_commit,
            rules,
            longest,
            longest_wide,
        }
    }

    /// Whether the engine can hold `input` against the keys; see
    /// [`accepts`].
    pub fn accepts(&self, input: &str) -> (ok: bool)
        requires
            self.wf(),
        ensures
            ok == accepts(self@.dictionary, input@),
    {
        if input.unicode_len() < 2 {
            return true;
        }
        let ascii = input.get_char(0) <= '\u{7f}';
        let bound = if ascii {
            self.longest_wide
        } else {
            self.longest
        };
        let ok = match bound {
            Some(longest) => input.len() > longest,
            None => true,
        };
        proof {
            let dictionary = map_entries(self.dictionary);
            if ok {
                assert forall|i: int| 0 <= i < dictionary.len() implies key_fits(
                    (#[trigger] dictionary[i]).0,
                    input@,
                ) by {
                    let key = dictionary[i].0;
                    if key.len() > 0 && !(starts_ascii(key) && starts_ascii(input@)) {
                        assert(key_counts(key, ascii));
                    }
                }
            } else {
                let i = choose|i: int|
                    0 <= i < dictionary.len() && key_counts((#[trigger] dictionary[i]).0, ascii)
                        && byte_len(dictionary[i].0) == bound->0;
                assert(!key_fits(dictionary[i].0, input@));
            }
        }
        ok
    }

    /// The rules in the order of registration, for the host to run.
    pub fn rules(&self) -> (rules: &Vec<(String, Rule)>)
        ensures
            rule_entries(rules@) == self@.rules,
    {
        &self.rules
    }

    /// The candidates for what `input` stands for, given for each rule, in
    /// the order of registration, what running it on the input gave.
    pub fn translate(&self, input: &str, outcomes: Vec<RuleOutcome>) -> (translation: Translation)
        requires
            self.wf(),
            outcomes.len() == self@.rules.len(),
        ensures
            translation.deep_view() == translation_of(
                self@,
                input@,
                outcomes.deep_view(),
                dictionary_predicates(self@.dictionary, self@.auto_commit, input@),
            ),
    {
        let ghost all = outcomes.deep_view();
        let ghost items = outcomes@;
        let ghost first = match exact_match(self@.dictionary, self@.auto_commit, input@) {
            Some(predicate) => seq![predicate],
            None => Seq::empty(),
        };
        let mut predicates: Vec<Predicate> = Vec::new();
        let mut failed: Vec<RuleExecutionFailed> = Vec::new();
        let found = match map_get(&self.dictionary, input) {
            Some(texts) => {
                predicates.push(
                    Predicate {
                        code: input.to_owned(),
                        remaining_code: String::new(),
                        texts,
                        can_commit: self.auto_commit,
                    },
                );
                true
            },
            None => false,
        };
        assert(predicates.deep_view() =~= first);
        assert(failed.deep_view() =~= Seq::<RuleExecutionFailedView>::empty());
        let count = outcomes.len();
        let mut i: usize = 0;
        for outcome in it: outcomes
            invariant
                it.seq() == items,
                items.len() == count,
                i == it.index(),
                i <= items.len(),
                all.len() == items.len(),
                items.len() == self.rules@.len(),
                forall|k: int| 0 <= k < items.len() ==> all[k] == (#[trigger] items[k]).deep_view(),
                predicates.deep_view() == first + answers_of(all.take(i as int)),
                failed.deep_view() == failures_of(self@.rules, all.take(i as int)),
        {
            let ghost so_far = predicates.deep_view();
            let ghost failed_so_far = failed.deep_view();
            proof {
                assert(all.take(i + 1).drop_last() =~= all.take(i as int));
                assert(all.take(i + 1).last() == all[i as int]);
            }
            match outcome {
                RuleOutcome::Answer(predicate) => {
                    predicates.push(predicate);
                    assert(predicates.deep_view() =~= so_far.push(predicate.deep_view()));
                    assert(predicates.deep_view() =~= first + answers_of(all.take(i + 1)));
                },
                RuleOutcome::Failed(cause) => {
                    let name = self.rules[i].0.clone();
                    failed.push(RuleExecutionFailed { name, cause });
                    assert(failed.deep_view() =~= failed_so_far.push(
                        RuleExecutionFailedView { name: self@.rules[i as int].0, cause: cause@ },
                    ));
                },
                RuleOutcome::Silent => {},
            }
            i += 1;
        }
        proof {
            assert(all.take(all.len() as int) =~= all);
        }
        let ghost answered = predicates.deep_view();
        if self.accepts(input) {
            let found_by_engine = found && input.unicode_len() >= 2;
            let engine_part = engine_translate(&self.engine, input);
            let ghost of_dictionary = engine_part.deep_view();
            let ghost parts = engine_part@;
            let ghost start: int = if found_by_engine {
                1
            } else {
                0
            };
            let found_count = engine_part.len();
            let mut j: usize = 0;
            for predicate in it: engine_part
                invariant
                    it.seq() == parts,
                    parts.len() == found_count,
                    j == it.index(),
                    j <= parts.len(),
                    of_dictionary.len() == parts.len(),
                    start <= parts.len(),
                    start == if found_by_engine {
                        1int
                    } else {
                        0int
                    },
                    forall|k: int|
                        0 <= k < parts.len() ==> of_dictionary[k] == (
                        #[trigger] parts[k]).deep_view(),
                    predicates.deep_view() == answered + if j <= start {
                        Seq::<PredicateView>::empty()
                    } else {
                        of_dictionary.subrange(start, j as int)
                    },
            {
                let ghost so_far = predicates.deep_view();
                if !(found_by_engine && j == 0) {
                    predicates.push(predicate);
                    proof {
                        assert(predicates.deep_view() =~= so_far.push(of_dictionary[j as int]));
                        assert(of_dictionary.subrange(start, j + 1) =~= (if j <= start {
                            Seq::<PredicateView>::empty()
                        } else {
                            of_dictionary.subrange(start, j as int)
                        }).push(of_dictionary[j as int]));
                    }
                }
                j += 1;
            }
            proof {
                if parts.len() > start {
                    assert(of_dictionary.subrange(start, parts.len() as int) =~= of_dictionary.skip(
                        start,
                    ));
                } else {
                    assert(of_dictionary.skip(start) =~= Seq::<PredicateView>::empty());
                }
                assert(of_dictionary.skip(0) =~= of_dictionary);
            }
        } else {
            assert(predicates.deep_view() =~= answered + Seq::<PredicateView>::empty());
        }
        let texts = candidates(&predicates);
        let accepted = if self.auto_commit && texts.len() > 0 {
            Some(texts[0].clone())
        } else {
            None
        };
        Translation { predicates, accepted, failed }
    }

    /// Compiles the source of a rule and registers it under `name`, in the
    /// place of the rule that had the name or, where none had it, behind the
    /// others. A source that does not compile leaves the translator as it
    /// was.
    pub fn register(&mut self, name: String, source: String) -> (r: Result<(), CompileError>)
        requires
            old(self).wf(),
        ensures
            final(self).wf(),
            match compile_result(source@) {
                Ok(rule) => {
                    &&& r is Ok
                    &&& final(self)@.rules == with_entry(old(self)@.rules, name@, rule)
                    &&& final(self)@.dictionary == old(self)@.dictionary
                    &&& final(self)@.auto_commit == old(self)@.auto_commit
                },
                Err(cause) => {
                    &&& r matches Err(error)
                    &&& error@ == CompileErrorView { name: name@, cause }
                    &&& final(self)@ == old(self)@
                },
            },
    {
        match compile_rule(source.as_str()) {
            Ok(rule) => {
                insert_rule(&mut self.rules, name, rule);
                Ok(())
            },
            Err(cause) => Err(CompileError { name, cause }),
        }
    }

    /// Registers rules that were compiled elsewhere, one after the other.
    pub fn register_from_config(&mut self, rules: Vec<(String, Rule)>)
        requires
            old(self).wf(),
        ensures
            final(self).wf(),
            final(self)@.rules == with_entries(old(self)@.rules, rule_entries(rules@)),
            final(self)@.dictionary == old(self)@.dictionary,
            final(self)@.auto_commit == old(self)@.auto_commit,
    {
        let ghost items = rules@;
        let ghost pairs = rule_entries(rules@);
        for entry in it: rules
            invariant
                it.seq() == items,
                pairs == rule_entries(items),
                self.wf(),
                self@.rules == with_entries(old(self)@.rules, pairs.take(it.index())),
                self@.dictionary == old(self)@.dictionary,
                self@.auto_commit == old(self)@.auto_commit,
        {
            let (name, rule) = entry;
            proof {
                let n = it.index();
                assert(pairs.take(n + 1).drop_last() =~= pairs.take(n));
                assert(pairs.take(n + 1).last() == pairs[n]);
            }
            insert_rule(&mut self.rules, name, rule);
        }
        proof {
            assert(pairs.take(pairs.len() as int) =~= pairs);
        }
    }

    /// Takes the rule of that name out of the registry; a name that is not
    /// registered changes nothing.
    pub fn unregister(&mut self, name: &str)
        requires
            old(self).wf(),
        ensures
            final(self).wf(),
            final(self)@.rules == without_entry(old(self)@.rules, name@),
            final(self)@.dictionary == old(self)@.dictionary,
            final(self)@.auto_commit == old(self)@.auto_commit,
    {
        let ghost before = rule_entries(self.rules@);
        match find_rule(&self.rules, name) {
            Some(at) => {
                self.rules.remove(at);
                proof {
                    lemma_without_entry_at(before, name@, at as int);
                    assert(rule_entries(self.rules@) =~= before.remove(at as int));
                    assert forall|i: int, j: int| 0 <= i < j < self.rules@.len() implies (
                    #[trigger] rule_entries(self.rules@)[i]).0 != (#[trigger] rule_entries(
                        self.rules@,
                    )[j]).0 by {
                        let a = if i < at { i } else { i + 1 };
                        let b = if j < at { j } else { j + 1 };
                        assert(before[a].0 != before[b].0);
                    }
                }
            },
            None => {
                proof {
                    assert forall|j: int| 0 <= j < before.len() implies (#[trigger] before[j]).0
                        != name@ by {
                        assert(old(self).rules@[j].0@ != name@);
                    }
                    assert(!has_entry(before, name@));
                    lemma_unregister_is_idempotent(before, name@);
                }
            },
        }
    }
}

/// Taking a name out of a registry twice is taking it out once, and taking
/// out a name that is not registered changes nothing.
pub proof fn lemma_unregister_is_idempotent<V>(rules: Seq<(Seq<char>, V)>, name: Seq<char>)
    ensures
        without_entry(without_entry(rules, name), name) == without_entry(rules, name),
        !has_entry(rules, name) ==> without_entry(rules, name) == rules,
        !has_entry(without_entry(rules, name), name),
    decreases rules.len(),
{
    if rules.len() > 0 {
        let front = rules.drop_last();
        lemma_unregister_is_idempotent(front, name);
        if rules.last().0 != name {
            assert(without_entry(front, name).push(rules.last()).drop_last() =~= without_entry(
                front,
                name,
            ));
            if !has_entry(rules, name) {
                assert forall|i: int| 0 <= i < front.len() implies (#[trigger] front[i]).0
                    != name by {
                    assert(rules[i].0 != name);
                }
                assert(front.push(rules.last()) =~= rules);
            }
        } else {
            assert(rules[rules.len() - 1].0 == name);
        }
    }
}

/// Registering a rule, whatever the rule does when it runs, leaves the
/// rules of every other name as they were and in their order.
pub proof fn lemma_register_keeps_other_rules<V>(
    rules: Seq<(Seq<char>, V)>,
    name: Seq<char>,
    rule: V,
)
    ensures
        without_entry(with_entry(rules, name, rule), name) == without_entry(rules, name),
    decreases rules.len(),
{
    lemma_with_entry_keys(rules, name, rule);
    let after = with_entry(rules, name, rule);
    if has_entry(rules, name) {
        lemma_without_entry_by_keys(after, rules, name);
    } else {
        assert(after.drop_last() =~= rules);
    }
}

/// Two lists with the same names in the same places that differ only
/// under `name` are the same without it.
proof fn lemma_without_entry_by_keys<V>(
    left: Seq<(Seq<char>, V)>,
    right: Seq<(Seq<char>, V)>,
    name: Seq<char>,
)
    requires
        left.len() == right.len(),
        forall|i: int| 0 <= i < left.len() ==> (#[trigger] left[i]).0 == right[i].0,
        forall|i: int|
            0 <= i < left.len() && (#[trigger] left[i]).0 != name ==> left[i] == right[i],
    ensures
        without_entry(left, name) == without_entry(right, name),
    decreases left.len(),
{
    if left.len() > 0 {
        let front = left.drop_last();
        let other = right.drop_last();
        assert(left.last().0 == right.last().0);
        assert forall|i: int| 0 <= i < front.len() implies (#[trigger] front[i]).0
            == other[i].0 by {
            assert(left[i].0 == right[i].0);
        }
        assert forall|i: int|
            0 <= i < front.len() && (#[trigger] front[i]).0 != name implies front[i]
            == other[i] by {
            assert(left[i].0 != name ==> left[i] == right[i]);
        }
        lemma_without_entry_by_keys(front, other, name);
    }
}

/// A rule that fails, or is silent, is isolated: put such an outcome at
/// any place among the outcomes of the other rules, and the predicates
/// that the rules answered with are the same, in the same order.
pub proof fn lemma_answers_skip_failures(
    outcomes: Seq<RuleOutcomeView>,
    at: int,
    outcome: RuleOutcomeView,
)
    requires
        0 <= at <= outcomes.len(),
        !(outcome is Answer),
    ensures
        answers_of(outcomes.insert(at, outcome)) == answers_of(outcomes),
    decreases outcomes.len(),
{
    let with = outcomes.insert(at, outcome);
    if at == outcomes.len() {
        assert(with.drop_last() =~= outcomes);
    } else {
        assert(with.last() == outcomes.last());
        assert(with.drop_last() =~= outcomes.drop_last().insert(at, outcome));
        lemma_answers_skip_failures(outcomes.drop_last(), at, outcome);
    }
}

/// Rule isolation. Take a translator and the outcomes of its rules on an
/// input. Register one more rule at any place, and let it fail on that
/// input. Then the predicates returned are the same, in the same order:
/// those of the dictionary and those of every other rule.
pub proof fn lemma_failing_rule_is_isolated(
    translator: TranslatorView,
    input: Seq<char>,
    outcomes: Seq<RuleOutcomeView>,
    of_dictionary: Seq<PredicateView>,
    at: int,
    name: Seq<char>,
    rule: Rule,
    cause: Seq<char>,
)
    requires
        0 <= at <= outcomes.len(),
        outcomes.len() == translator.rules.len(),
    ensures
        translation_of(
            TranslatorView { rules: translator.rules.insert(at, (name, rule)), ..translator },
            input,
            outcomes.insert(at, RuleOutcomeView::Failed(cause)),
            of_dictionary,
        ).predicates == translation_of(translator, input, outcomes, of_dictionary).predicates,
{
    lemma_answers_skip_failures(outcomes, at, RuleOutcomeView::Failed(cause));
}

/// The texts of the key that equals the input come first in the result,
/// in their order, whatever the rules do and whatever the input is.
pub proof fn lemma_exact_match_comes_first(
    translator: TranslatorView,
    input: Seq<char>,
    outcomes: Seq<RuleOutcomeView>,
    of_dictionary: Seq<PredicateView>,
)
    ensures
        lookup(translator.dictionary, input) matches Some(texts) ==> {
            let predicates = translation_of(translator, input, outcomes, of_dictionary).predicates;
            &&& predicates.len() > 0
            &&& predicates[0].code == input
            &&& predicates[0].texts == texts
            &&& predicates[0].can_commit == translator.auto_commit
        },
{
}

} // verus!
