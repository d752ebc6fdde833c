use afrim_engine::translator::candidates;
use afrim_engine::{
    CompileError, Predicate, RuleExecutionFailed, RuleOutcome, Translation, Translator,
};

fn dictionary(entries: &[(&str, &[&str])]) -> Vec<(String, Vec<String>)> {
    entries
        .iter()
        .map(|(key, texts)| (key.to_string(), texts.iter().map(|t| t.to_string()).collect()))
        .collect()
}

fn predicate(code: &str, remaining: &str, texts: &[&str], can_commit: bool) -> Predicate {
    Predicate {
        code: code.to_string(),
        remaining_code: remaining.to_string(),
        texts: texts.iter().map(|t| t.to_string()).collect(),
        can_commit,
    }
}

fn answer(code: &str, texts: &[&str], can_commit: bool) -> RuleOutcome {
    RuleOutcome::Answer(predicate(code, "", texts, can_commit))
}

fn failed(name: &str, cause: &str) -> RuleExecutionFailed {
    RuleExecutionFailed { name: name.to_string(), cause: cause.to_string() }
}

fn decode(mut reply: Vec<rhai::Dynamic>) -> Option<Predicate> {
    let can_commit = reply.pop()?.as_bool().ok()?;
    let texts = reply.pop()?;
    let remaining_code = reply.pop()?.into_string().ok()?;
    let code = reply.pop()?.into_string().ok()?;
    let texts = if texts.is_array() {
        texts.into_array().ok()?.into_iter().map(|t| t.into_string().ok()).collect()
    } else {
        texts.into_string().ok().map(|t| vec![t])
    };
    Some(Predicate { code, remaining_code, texts: texts?, can_commit })
}

fn run(rule: &rhai::AST, input: &str) -> RuleOutcome {
    let engine = rhai::Engine::new();
    let mut scope = rhai::Scope::new();
    let reply = engine.call_fn::<rhai::Dynamic>(&mut scope, rule, "translate", (input.to_owned(),));
    match reply {
        Err(error) => RuleOutcome::Failed(error.to_string()),
        Ok(reply) if !reply.is_array() => RuleOutcome::Silent,
        Ok(reply) => match reply.into_array() {
            Ok(entries) if entries.len() == 4 => match decode(entries) {
                Some(predicate) => RuleOutcome::Answer(predicate),
                None => RuleOutcome::Failed("the answer is not well formed".to_string()),
            },
            _ => RuleOutcome::Silent,
        },
    }
}

fn translate(translator: &Translator, input: &str) -> Translation {
    let outcomes = translator.rules().iter().map(|(_, rule)| run(rule, input)).collect();
    translator.translate(input, outcomes)
}

fn register(translator: &mut Translator, name: &str, source: &str) {
    translator.register(name.to_string(), source.to_string()).unwrap();
}

#[test]
fn dictionary_entry_is_returned_in_order() {
    let translator = Translator::new(dictionary(&[("ka", &["α", "β"])]), false);
    let expected = Translation {
        predicates: vec![predicate("ka", "", &["α", "β"], false)],
        accepted: None,
        failed: vec![],
    };
    assert_eq!(translator.translate("ka", vec![]), expected);
    assert_eq!(translator.translate("ka", vec![]), expected);
    assert_eq!(candidates(&expected.predicates), vec!["α".to_string(), "β".to_string()]);
    assert!(translator.rules().is_empty());
}

#[test]
fn input_without_a_match_has_no_predicate() {
    let translator = Translator::new(dictionary(&[("ka", &["α", "β"])]), true);
    for input in ["", "k", "é", "zz", "kab", "éa", "éab"] {
        let translation = translator.translate(input, vec![]);
        assert!(translation.predicates.is_empty());
        assert_eq!(translation.accepted, None);
        assert!(translation.failed.is_empty());
    }
}

#[test]
fn key_of_one_character_is_found() {
    let translator = Translator::new(dictionary(&[("k", &["κ"]), ("ka", &["α"])]), false);
    assert_eq!(translator.translate("k", vec![]).predicates, vec![predicate("k", "", &["κ"], false)]);
}

#[test]
fn key_is_found_where_the_engine_cannot_take_the_input() {
    let translator =
        Translator::new(dictionary(&[("éa", &["x"]), ("kabab", &["y"]), ("ka", &["z"])]), true);
    assert!(!translator.accepts("éa"));
    let translation = translator.translate("éa", vec![]);
    assert_eq!(translation.predicates, vec![predicate("éa", "", &["x"], true)]);
    assert_eq!(translation.accepted, Some("x".to_string()));

    assert!(!translator.accepts("ka"));
    assert_eq!(translator.translate("ka", vec![]).predicates, vec![predicate("ka", "", &["z"], true)]);
    assert!(translator.translate("kab", vec![]).predicates.is_empty());

    assert!(translator.accepts("kaba"));
    assert_eq!(
        translator.translate("kaba", vec![]).predicates,
        vec![predicate("kabab", "b", &["y"], false)]
    );
}

#[test]
fn engine_is_asked_only_what_it_can_take() {
    let translator = Translator::new(dictionary(&[("kab", &["x"])]), false);
    assert!(!translator.accepts("éa"));
    assert!(translator.accepts("éaa"));
    assert!(translator.accepts("é"));
    let wide = Translator::new(dictionary(&[("éa", &["x"]), ("kabab", &["y"])]), false);
    assert!(!wide.accepts("ka"));
    assert!(!wide.accepts("kab"));
    assert!(wide.accepts("kaba"));
    assert!(!wide.accepts("éab"));
    assert!(wide.accepts("éabab"));
    let empty_key = Translator::new(dictionary(&[("", &["x"])]), false);
    assert!(empty_key.accepts("éa"));
    assert_eq!(empty_key.translate("", vec![]).predicates, vec![predicate("", "", &["x"], false)]);
}

#[test]
fn exact_match_comes_before_completions() {
    let translator =
        Translator::new(dictionary(&[("jumper", &["sauteur"]), ("jump", &["sauter"])]), true);
    let translation = translator.translate("jump", vec![]);
    assert_eq!(
        translation.predicates,
        vec![predicate("jump", "", &["sauter"], true), predicate("jumper", "er", &["sauteur"], false)]
    );
    assert_eq!(translation.accepted, Some("sauter".to_string()));
    assert_eq!(
        translator.translate("jum", vec![]).predicates,
        vec![
            predicate("jumper", "per", &["sauteur"], false),
            predicate("jump", "p", &["sauter"], false),
        ]
    );
}

#[test]
fn near_match_is_added_by_the_engine() {
    let translator =
        Translator::new(dictionary(&[("hallo", &["hello"]), ("halls", &["rooms"])]), false);
    assert_eq!(
        translator.translate("hallo", vec![]).predicates,
        vec![predicate("hallo", "", &["hello"], false), predicate("halls", "", &["rooms"], false)]
    );
}

#[test]
fn key_given_twice_keeps_its_place_and_last_texts() {
    let translator = Translator::new(
        dictionary(&[("sal", &["a"]), ("salut", &["b"]), ("sal", &["c", "d"])]),
        false,
    );
    assert_eq!(
        translator.translate("sal", vec![]).predicates,
        vec![predicate("sal", "", &["c", "d"], false), predicate("salut", "ut", &["b"], false)]
    );
}

#[test]
fn answers_stand_between_the_exact_match_and_the_rest() {
    let mut translator = Translator::new(dictionary(&[("his", &["son"]), ("hi", &["salut"])]), false);
    register(&mut translator, "one", "fn translate(input) { [input, \"\", \"1\", false] }");
    register(&mut translator, "two", "fn translate(input) { [input, \"\", [\"2\", \"3\"], true] }");
    let translation = translator.translate(
        "hi",
        vec![answer("hi", &["1"], false), answer("hi", &["2", "3"], true)],
    );
    assert_eq!(
        translation.predicates,
        vec![
            predicate("hi", "", &["salut"], false),
            predicate("hi", "", &["1"], false),
            predicate("hi", "", &["2", "3"], true),
            predicate("his", "s", &["son"], false),
        ]
    );
    assert_eq!(translate(&translator, "hi"), translation);
    assert_eq!(
        candidates(&translation.predicates),
        vec!["salut", "1", "2", "3", "son"].into_iter().map(String::from).collect::<Vec<_>>()
    );
}

#[test]
fn failing_rule_changes_nothing_for_the_others() {
    let first = "fn translate(input) { [input, \"\", \"one\", false] }";
    let throwing = "fn translate(input) { throw \"broken\"; }";
    let unknown = "fn translate(input) { missing(input) }";
    let numbers = "fn translate(input) { [1, 2, 3, 4] }";
    let second = "fn translate(input) { [input, \"\", [\"two\", \"deux\"], true] }";

    let mut plain = Translator::new(dictionary(&[("hi", &["salut"]), ("his", &["son"])]), false);
    register(&mut plain, "first", first);
    register(&mut plain, "second", second);

    let mut mixed = Translator::new(dictionary(&[("hi", &["salut"]), ("his", &["son"])]), false);
    register(&mut mixed, "throwing", throwing);
    register(&mut mixed, "first", first);
    register(&mut mixed, "unknown", unknown);
    register(&mut mixed, "numbers", numbers);
    register(&mut mixed, "second", second);

    let expected = vec![
        predicate("hi", "", &["salut"], false),
        predicate("hi", "", &["one"], false),
        predicate("hi", "", &["two", "deux"], true),
        predicate("his", "s", &["son"], false),
    ];
    let without = translate(&plain, "hi");
    assert_eq!(without.predicates, expected);
    assert!(without.failed.is_empty());
    let with = translate(&mixed, "hi");
    assert_eq!(with.predicates, expected);
    let names: Vec<&str> = with.failed.iter().map(|f| f.name.as_str()).collect();
    assert_eq!(names, ["throwing", "unknown", "numbers"]);
    assert!(with.failed.iter().all(|f| !f.cause.is_empty()));
}

#[test]
fn outcomes_are_merged_as_given() {
    let mut translator = Translator::new(dictionary(&[("hi", &["salut"])]), true);
    for name in ["a", "b", "c", "d"] {
        register(&mut translator, name, "fn translate(input) { }");
    }
    let translation = translator.translate(
        "hi",
        vec![
            RuleOutcome::Failed("no".to_string()),
            answer("x", &["1"], false),
            RuleOutcome::Silent,
            RuleOutcome::Failed("never".to_string()),
        ],
    );
    assert_eq!(
        translation,
        Translation {
            predicates: vec![predicate("hi", "", &["salut"], true), predicate("x", "", &["1"], false)],
            accepted: Some("salut".to_string()),
            failed: vec![failed("a", "no"), failed("d", "never")],
        }
    );
}

#[test]
fn first_text_is_accepted_where_the_translator_commits_by_itself() {
    let mut translator = Translator::new(dictionary(&[("ka", &[])]), true);
    assert_eq!(translator.translate("ka", vec![]).accepted, None);
    assert_eq!(translator.translate("zz", vec![]).accepted, None);
    register(&mut translator, "r", "fn translate(input) { }");
    let translation = translator.translate("ka", vec![answer("ka", &["x", "y"], false)]);
    assert_eq!(translation.accepted, Some("x".to_string()));
    assert_eq!(translation.predicates.len(), 2);

    let mut by_hand = Translator::new(dictionary(&[("ka", &["α"])]), false);
    register(&mut by_hand, "r", "fn translate(input) { }");
    assert_eq!(by_hand.translate("ka", vec![answer("ka", &["x"], true)]).accepted, None);
}

#[test]
fn rule_of_a_registered_name_is_replaced_in_its_place() {
    let mut translator = Translator::new(Vec::new(), false);
    register(&mut translator, "a", "fn translate(input) { [input, \"\", \"1\", false] }");
    register(&mut translator, "b", "fn translate(input) { [input, \"\", \"2\", false] }");
    register(&mut translator, "a", "fn translate(input) { [input, \"\", \"3\", false] }");
    let names: Vec<&str> = translator.rules().iter().map(|(name, _)| name.as_str()).collect();
    assert_eq!(names, ["a", "b"]);
    assert_eq!(
        translate(&translator, "xy").predicates,
        vec![predicate("xy", "", &["3"], false), predicate("xy", "", &["2"], false)]
    );
}

#[test]
fn unregister_twice_or_of_an_unknown_name_changes_nothing() {
    let mut translator = Translator::new(dictionary(&[("hi", &["salut"])]), false);
    register(&mut translator, "x", "fn translate(input) { [input, \"\", \"1\", false] }");
    register(&mut translator, "y", "fn translate(input) { [input, \"\", \"2\", false] }");
    translator.unregister("never");
    assert_eq!(translator.rules().len(), 2);
    translator.unregister("x");
    let once = translate(&translator, "hi");
    translator.unregister("x");
    assert_eq!(translate(&translator, "hi"), once);
    assert_eq!(
        once.predicates,
        vec![predicate("hi", "", &["salut"], false), predicate("hi", "", &["2"], false)]
    );
    let names: Vec<&str> = translator.rules().iter().map(|(name, _)| name.as_str()).collect();
    assert_eq!(names, ["y"]);
}

#[test]
fn compiled_rules_are_registered_in_turn() {
    let engine = rhai::Engine::new();
    let one = engine.compile("fn translate(input) { [input, \"\", \"1\", false] }").unwrap();
    let two = engine.compile("fn translate(input) { [input, \"\", \"2\", false] }").unwrap();
    let three = engine.compile("fn translate(input) { [input, \"\", \"3\", true] }").unwrap();
    let mut translator = Translator::new(Vec::new(), false);
    translator.register_from_config(vec![
        ("a".to_string(), one),
        ("b".to_string(), two),
        ("a".to_string(), three),
    ]);
    assert_eq!(
        translate(&translator, "xy").predicates,
        vec![predicate("xy", "", &["3"], true), predicate("xy", "", &["2"], false)]
    );
    translator.register_from_config(Vec::new());
    translator.unregister("a");
    assert_eq!(translate(&translator, "xy").predicates, vec![predicate("xy", "", &["2"], false)]);
}

#[test]
fn source_that_does_not_compile_is_reported() {
    let mut translator = Translator::new(dictionary(&[("hi", &["salut"])]), false);
    let outcome = translator.register("broken".to_string(), "fn translate(input) {".to_string());
    match outcome {
        Err(CompileError { name, cause }) => {
            assert_eq!(name, "broken");
            assert!(!cause.is_empty());
        }
        Ok(()) => panic!("the source must not compile"),
    }
    assert!(translator.rules().is_empty());
}

#[test]
fn source_is_compiled_without_being_run() {
    let mut translator = Translator::new(Vec::new(), false);
    register(&mut translator, "zero", "fn translate(input) { let x = 1 / 0; [input, \"\", \"1\", false] }");
    register(&mut translator, "top", "let y = 1 / 0; fn translate(input) { }");
    assert_eq!(translator.rules().len(), 2);
}

#[test]
fn candidates_are_the_texts_in_order() {
    let several = vec![
        predicate("a", "", &["1", "2"], false),
        predicate("b", "", &[], false),
        predicate("c", "", &["3"], true),
    ];
    assert_eq!(candidates(&several), vec!["1".to_string(), "2".to_string(), "3".to_string()]);
    assert!(candidates(&Vec::new()).is_empty());
}

#[test]
fn compile_error_in_words() {
    let error = CompileError { name: "date".to_string(), cause: "no end".to_string() };
    assert_eq!(error.message(), "Failed to register translator `date`.\nCaused by:\n\tno end");
}
