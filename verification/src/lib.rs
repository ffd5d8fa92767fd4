//! The analysis core of a language server for PHP.
//!
//! A document is kept as its text and its syntax trees, which follow each
//! edit. Over the tree run the passes: one resolves names to namespaces and
//! records the classes that a file declares, with what they depend on; one
//! finds the reads of variables that nothing has bound. Around them stand the
//! pool of namespace segments, the autoload table that says where the file of
//! a namespace lies, and the thread that looks dependencies up.

pub mod analyze;
pub mod code_action;
pub mod composer;
pub mod declarations;
pub mod diagnostics;
pub mod file;
pub mod invariants;
pub mod messages;
pub mod names;
pub mod normal_form;
pub mod php_namespace;
pub mod scope;
pub mod stubs;
pub mod symbols;
pub mod syntax;
pub mod text;
pub mod types;
