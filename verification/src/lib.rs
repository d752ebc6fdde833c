//! Core of an input-method engine: key events, the keystroke preprocessor
//! that composes them into text and editing commands, and the translation
//! engine that turns what was typed into candidate texts.

pub mod command;
pub mod config;
pub mod key;
pub mod preprocessor;
pub mod translator;

pub use command::Command;
pub use config::Config;
pub use key::{deserialize_event, EventError, Key, KeyState, KeyboardEvent};
pub use preprocessor::Preprocessor;
pub use translator::{
    CompileError, Predicate, RuleExecutionFailed, RuleOutcome, Translation, Translator,
};
