//! The editing core of a modal editor for CJK prose.
//!
//! The text is a rope, the state is one [`editor::Editor`], and every operation
//! says in its contract which state it leads to.

pub mod acts;
pub mod article;
pub mod block;
pub mod buffer;
pub mod case;
pub mod command;
pub mod comment;
pub mod conflict;
pub mod count;
pub mod directive;
pub mod editor;
pub mod edits;
pub mod front;
pub mod grapheme;
pub mod keymap;
pub mod keys;
pub mod laws;
pub mod laws_of_files;
pub mod laws_of_keys;
pub mod laws_of_lines;
pub mod laws_of_numbers;
pub mod laws_of_typing;
pub mod laws_of_verbs;
pub mod laws_of_wiki;
pub mod lookup;
pub mod missed;
pub mod motion;
pub mod moves;
pub mod notes;
pub mod number;
pub mod outcome;
pub mod outline;
pub mod pairs;
pub mod path;
pub mod picker;
pub mod preferences;
pub mod prompt;
pub mod range;
pub mod registers;
pub mod repeats;
pub mod rope;
pub mod ruby;
pub mod say;
pub mod search;
pub mod state;
pub mod text;
pub mod undo;
pub mod units;
pub mod verb;
pub mod verbs;
pub mod width;
pub mod wiki;
pub mod wiki_command;
