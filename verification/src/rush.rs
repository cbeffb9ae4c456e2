use vstd::prelude::*;

use crate::config::Config;
use crate::cursor::Cursor;
use crate::history::History;
use crate::parser::Parser;
use crate::suggest::Suggest;

verus! {

/// The shell: its configuration, editing state, parser, history and suggestions.
/// Paths are held as their text.
pub struct Rush {
    pub cfg: Config,
    pub mode: KeyMode,
    pub cursor: Cursor,
    pub pwd: String,
    pub home: String,
    pub parser: Parser,
    pub history: History,
    pub suggest: Suggest,
}

impl Rush {
    /// A shell working in `pwd`, with `home` as the home directory and nothing typed,
    /// remembered or suggested yet.
    pub fn new(cfg: Config, home: String, pwd: String) -> (r: Rush)
        ensures
            r.cfg == cfg,
            r.home == home,
            r.pwd == pwd,
            r.mode == KeyMode::Insert,
            r.cursor.is_cleared(),
            !r.parser.execute,
            r.parser.input@ == Seq::<char>::empty(),
            r.parser.output.input@ == Seq::<char>::empty(),
            r.parser.output.commands@.len() == 0,
            r.parser.output.problems@.len() == 0,
            r.history.entries@ == Map::<Seq<char>, Seq<crate::history::HistoryEntry>>::empty(),
            r.history.idx is None,
            r.suggest.suggestions@.len() == 0,
    {
        Rush {
            cfg,
            cursor: Cursor::default(),
            pwd,
            home,
            history: History::default(),
            parser: Parser::default(),
            suggest: Suggest::default(),
            mode: KeyMode::default(),
        }
    }

    /// Only the cursor differs between `self` and `other`.
    pub open spec fn only_cursor_changed(&self, other: Rush) -> bool {
        &&& self.cfg == other.cfg
        &&& self.mode == other.mode
        &&& self.pwd == other.pwd
        &&& self.home == other.home
        &&& self.parser == other.parser
        &&& self.history == other.history
        &&& self.suggest == other.suggest
    }

    /// Only the cursor, the parser and the history differ between `self` and `other`.
    pub open spec fn only_cursor_parser_and_history_changed(&self, other: Rush) -> bool {
        &&& self.cfg == other.cfg
        &&& self.mode == other.mode
        &&& self.pwd == other.pwd
        &&& self.home == other.home
        &&& self.suggest == other.suggest
    }

    /// Only the working directory differs between `self` and `other`.
    pub open spec fn only_pwd_changed(&self, other: Rush) -> bool {
        &&& self.cfg == other.cfg
        &&& self.mode == other.mode
        &&& self.cursor == other.cursor
        &&& self.home == other.home
        &&& self.parser == other.parser
        &&& self.history == other.history
        &&& self.suggest == other.suggest
    }

    /// Only the cursor and the parser differ between `self` and `other`.
    pub open spec fn only_cursor_and_parser_changed(&self, other: Rush) -> bool {
        &&& self.cfg == other.cfg
        &&& self.mode == other.mode
        &&& self.pwd == other.pwd
        &&& self.home == other.home
        &&& self.history == other.history
        &&& self.suggest == other.suggest
    }
}

/// How typed characters are interpreted.
#[derive(PartialEq, Eq, Structural, Clone, Copy)]
pub enum KeyMode {
    Insert,
    Suggest,
}

impl Default for KeyMode {
    fn default() -> (r: KeyMode)
        ensures
            r == KeyMode::Insert,
    {
        KeyMode::Insert
    }
}

} // verus!
