use vstd::prelude::*;
use vstd::utf8::encode_utf8;

use crate::cursor::{can_move_left, can_move_right, moved_left, moved_right};
use crate::history::{
    hist_next_ok, hist_next_post, hist_prev_ok, hist_prev_post, law_stepping_back,
};
use crate::prompt::{
    append_char_ok,
    append_char_post,
    append_input_ok,
    append_input_post,
    backspace_ok,
    backspace_post,
    input_offset,
};
use crate::text::{lemma_encode_utf8_concat, lemma_encode_utf8_injective};
use crate::rush::{KeyMode, Rush};
use crate::suggest::{
    accept_ok, accept_post, law_digit_keys_accept_their_suggestion, suggest_mode_ok,
    suggest_mode_post,
};

verus! {

/// A key of the keyboard, as far as the shell tells keys apart.
#[derive(Clone, Copy, PartialEq, Eq, Structural)]
pub enum KeyCode {
    Esc,
    Left,
    Right,
    Up,
    Down,
    Backspace,
    Enter,
    Char(char),
    F(u8),
    Other,
}

/// The modifier keys held with a key: exactly none (`Plain`), exactly shift, exactly control, or
/// any other combination.
#[derive(Clone, Copy, PartialEq, Eq, Structural)]
pub enum KeyModifiers {
    Plain,
    Shift,
    Control,
    Other,
}

/// What the terminal reports.
pub enum TermEvent {
    /// Text pasted in one piece.
    Paste(String),
    /// A key event; `press` is false for releases and repeats.
    Key { code: KeyCode, modifiers: KeyModifiers, press: bool },
    /// Anything else (focus, mouse, resize).
    Other,
}

/// What the caller does after the shell took in an event.
#[derive(Clone, Copy, PartialEq, Eq, Structural, Debug)]
pub enum Outcome {
    /// Nothing: wait for the next event.
    Continue,
    /// Redraw the prompt, the cursor and the suggestions.
    Redraw,
    /// Run the line: move to the next line; `parse(true)`; run each command that the run
    /// hands out (`command`, then `finish_cd` or the program, then `LineRun::report`)
    /// until it is over; `finish_line`, which records the line and empties the prompt;
    /// then redraw.
    Execute,
    /// Show the prompt, then run the line as for `Execute`; then redraw.
    ShowAndExecute,
    /// Move to the next line and end the shell.
    Exit,
}

/// `post` and `r` are what a key pressed with modifiers other than none or shift makes of
/// `pre`: control-s enters suggestion mode, control-d asks to end the shell, any other
/// key only redraws.
pub open spec fn shortcut_post(pre: Rush, post: Rush, code: KeyCode, modifier: KeyModifiers, r: Outcome) -> bool {
    if modifier == KeyModifiers::Control && code == KeyCode::Char('s') {
        &&& post.mode == KeyMode::Suggest
        &&& r == Outcome::Redraw
        &&& post.cursor == pre.cursor && post.parser == pre.parser && post.history == pre.history
        &&& post.cfg == pre.cfg && post.pwd == pre.pwd && post.home == pre.home && post.suggest == pre.suggest
    } else if modifier == KeyModifiers::Control && code == KeyCode::Char('d') {
        post == pre && r == Outcome::Exit
    } else {
        post == pre && r == Outcome::Redraw
    }
}

/// Taking in `ev` does not make the shell fail.
pub open spec fn event_ok(pre: Rush, ev: TermEvent) -> bool {
    match ev {
        TermEvent::Paste(s) => append_input_ok(pre, s@),
        TermEvent::Key { code, modifiers, press } => {
            press && (modifiers == KeyModifiers::Plain || modifiers == KeyModifiers::Shift) ==> match code {
                KeyCode::Left => can_move_left(pre.cursor, false),
                KeyCode::Right => can_move_right(pre.cursor, false),
                KeyCode::Up => hist_prev_ok(pre),
                KeyCode::Down => hist_next_ok(pre),
                KeyCode::Char(c) => match pre.mode {
                    KeyMode::Insert => append_char_ok(pre),
                    KeyMode::Suggest => suggest_mode_ok(pre, c),
                },
                KeyCode::Backspace => backspace_ok(pre),
                KeyCode::F(n) => accept_ok(pre, n),
                _ => true,
            }
        },
        TermEvent::Other => true,
    }
}

/// `post` and `r` are what taking in `ev` makes of `pre`.
pub open spec fn event_post(pre: Rush, post: Rush, ev: TermEvent, r: Outcome) -> bool {
    match ev {
        TermEvent::Paste(s) => append_input_post(pre, post, s@) && r == Outcome::Redraw,
        TermEvent::Key { code, modifiers, press } => {
            if !press {
                post == pre && r == Outcome::Continue
            } else if modifiers == KeyModifiers::Plain || modifiers == KeyModifiers::Shift {
                match code {
                    KeyCode::Esc => {
                        &&& post.mode == KeyMode::Insert
                        &&& r == Outcome::Redraw
                        &&& post.cursor == pre.cursor && post.parser == pre.parser && post.history == pre.history
                        &&& post.cfg == pre.cfg && post.pwd == pre.pwd && post.home == pre.home
                        &&& post.suggest == pre.suggest
                    },
                    KeyCode::Left => post.cursor == moved_left(pre.cursor, false) && post.only_cursor_changed(pre)
                        && r == Outcome::Redraw,
                    KeyCode::Right => post.cursor == moved_right(pre.cursor, false) && post.only_cursor_changed(pre)
                        && r == Outcome::Redraw,
                    KeyCode::Up => hist_prev_post(pre, post) && r == Outcome::Redraw,
                    KeyCode::Down => hist_next_post(pre, post) && r == Outcome::Redraw,
                    KeyCode::Char(c) => match pre.mode {
                        KeyMode::Insert => append_char_post(pre, post, c) && r == Outcome::Redraw,
                        KeyMode::Suggest => suggest_mode_post(pre, post, c, r),
                    },
                    KeyCode::Backspace => backspace_post(pre, post) && r == Outcome::Redraw,
                    KeyCode::Enter => post == pre && r == Outcome::Execute,
                    KeyCode::F(n) => accept_post(pre, post, n, r),
                    KeyCode::Other => post == pre && r == Outcome::Continue,
                }
            } else {
                shortcut_post(pre, post, code, modifiers, r)
            }
        },
        TermEvent::Other => post == pre && r == Outcome::Continue,
    }
}

impl Rush {
    /// A key pressed with modifiers other than none or shift: control-s enters suggestion
    /// mode, control-d ends the shell, others are ignored.
    pub fn shortcut(&mut self, code: KeyCode, modifier: KeyModifiers) -> (r: Outcome)
        ensures
            shortcut_post(*old(self), *final(self), code, modifier, r),
    {
        if modifier == KeyModifiers::Control && code == KeyCode::Char('s') {
            if self.mode == KeyMode::Insert {
                self.mode = KeyMode::Suggest;
            }
            Outcome::Redraw
        } else if modifier == KeyModifiers::Control && code == KeyCode::Char('d') {
            Outcome::Exit
        } else {
            Outcome::Redraw
        }
    }

    /// The function key `n` accepts the suggestion numbered `n`.
    pub fn fn_key(&mut self, n: u8) -> (r: Outcome)
        requires
            accept_ok(*old(self), n),
        ensures
            accept_post(*old(self), *final(self), n, r),
    {
        self.accept_suggestion(n)
    }

    /// Whether `ev` may be taken in without the shell failing.
    pub fn can_handle_event(&self, ev: &TermEvent) -> (ok: bool)
        ensures
            ok == event_ok(*self, *ev),
    {
        match ev {
            TermEvent::Paste(s) => self.can_append_input(s.as_str()),
            TermEvent::Key { code, modifiers, press } => {
                if !*press || !(*modifiers == KeyModifiers::Plain || *modifiers == KeyModifiers::Shift) {
                    return true;
                }
                match code {
                    KeyCode::Left => self.cursor.min_cursor.is_some() && self.cursor.cursor_location.is_some(),
                    KeyCode::Right => self.cursor.max_cursor.is_some() && self.cursor.cursor_location.is_some(),
                    KeyCode::Up => self.can_hist_prev(),
                    KeyCode::Down => self.can_hist_next(),
                    KeyCode::Char(c) => match self.mode {
                        KeyMode::Insert => self.can_append_char(),
                        KeyMode::Suggest => {
                            if *c == '0' {
                                self.can_accept(10)
                            } else if '1' <= *c && *c <= '9' {
                                self.can_accept((*c as u32 - '0' as u32) as u8)
                            } else {
                                true
                            }
                        },
                    },
                    KeyCode::Backspace => self.can_backspace(),
                    KeyCode::F(n) => self.can_accept(*n),
                    _ => true,
                }
            },
            TermEvent::Other => true,
        }
    }

    /// Takes in one event from the terminal and says what the caller does next.
    pub fn handle_event(&mut self, ev: TermEvent) -> (r: Outcome)
        requires
            event_ok(*old(self), ev),
        ensures
            event_post(*old(self), *final(self), ev, r),
    {
        match ev {
            TermEvent::Paste(s) => {
                self.append_input(s.as_str());
                Outcome::Redraw
            },
            TermEvent::Key { code, modifiers, press } => {
                if !press {
                    return Outcome::Continue;
                }
                if modifiers == KeyModifiers::Plain || modifiers == KeyModifiers::Shift {
                    match code {
                        KeyCode::Esc => {
                            self.mode = KeyMode::Insert;
                            Outcome::Redraw
                        },
                        KeyCode::Left => {
                            self.cursor_move_left(false);
                            Outcome::Redraw
                        },
                        KeyCode::Right => {
                            self.cursor_move_right(false);
                            Outcome::Redraw
                        },
                        KeyCode::Up => {
                            self.hist_prev();
                            Outcome::Redraw
                        },
                        KeyCode::Down => {
                            self.hist_next();
                            Outcome::Redraw
                        },
                        KeyCode::Char(c) => match self.mode {
                            KeyMode::Insert => {
                                self.append_char(c);
                                Outcome::Redraw
                            },
                            KeyMode::Suggest => self.suggest_mode(c),
                        },
                        KeyCode::Backspace => {
                            self.backspace();
                            Outcome::Redraw
                        },
                        KeyCode::Enter => Outcome::Execute,
                        KeyCode::F(n) => self.fn_key(n),
                        KeyCode::Other => Outcome::Continue,
                    }
                } else {
                    self.shortcut(code, modifiers)
                }
            },
            TermEvent::Other => Outcome::Continue,
        }
    }
}

/// Esc, pressed alone or with shift, changes only the key mode, back to insert: the
/// line, the cursor, the history, the suggestions and the directories stay as they
/// were, and the prompt is redrawn.
pub proof fn law_esc_only_restores_insert_mode(pre: Rush, post: Rush, modifiers: KeyModifiers, r: Outcome)
    requires
        modifiers == KeyModifiers::Plain || modifiers == KeyModifiers::Shift,
        event_post(pre, post, (TermEvent::Key { code: KeyCode::Esc, modifiers, press: true }), r),
    ensures
        post.mode == KeyMode::Insert,
        r == Outcome::Redraw,
        post.parser == pre.parser,
        post.cursor == pre.cursor,
        post.history == pre.history,
        post.suggest == pre.suggest,
        post.cfg == pre.cfg,
        post.pwd == pre.pwd,
        post.home == pre.home,
{
}

/// Enter, pressed alone or with shift, changes nothing and asks the caller to run the
/// line as typed.
pub proof fn law_enter_runs_the_line(pre: Rush, post: Rush, modifiers: KeyModifiers, r: Outcome)
    requires
        modifiers == KeyModifiers::Plain || modifiers == KeyModifiers::Shift,
        event_post(pre, post, (TermEvent::Key { code: KeyCode::Enter, modifiers, press: true }), r),
    ensures
        post == pre,
        r == Outcome::Execute,
{
}

/// A key that is released or repeated, not pressed, changes nothing.
pub proof fn law_released_keys_change_nothing(
    pre: Rush,
    post: Rush,
    code: KeyCode,
    modifiers: KeyModifiers,
    r: Outcome,
)
    requires
        event_post(pre, post, (TermEvent::Key { code, modifiers, press: false }), r),
    ensures
        post == pre,
        r == Outcome::Continue,
{
}

/// In suggestion mode a digit key, pressed alone or with shift, accepts the suggestion
/// it numbers, `1` to `9` the first to the ninth and `0` the tenth: the prompt holds
/// that suggestion, insert mode is back, and the caller shows and runs the line. Any
/// other character key changes nothing.
pub proof fn law_digit_key_in_suggestion_mode(
    pre: Rush,
    post: Rush,
    c: char,
    modifiers: KeyModifiers,
    r: Outcome,
)
    requires
        pre.mode == KeyMode::Suggest,
        modifiers == KeyModifiers::Plain || modifiers == KeyModifiers::Shift,
        event_post(pre, post, (TermEvent::Key { code: KeyCode::Char(c), modifiers, press: true }), r),
    ensures
        '1' <= c <= '9' ==> post.parser.input == pre.suggest.suggestions@[c as int - '1' as int],
        c == '0' ==> post.parser.input == pre.suggest.suggestions@[9],
        '0' <= c <= '9' ==> post.mode == KeyMode::Insert && r == Outcome::ShowAndExecute
            && post.cursor.is_cleared(),
        !('0' <= c <= '9') ==> post == pre && r == Outcome::Redraw,
{
    law_digit_keys_accept_their_suggestion(pre, post, c, r);
}

/// The Up key, pressed alone or with shift, steps back through the working directory's
/// history: from a prompt that shows no entry it shows the newest one.
pub proof fn law_up_shows_newest_entry_first(pre: Rush, post: Rush, modifiers: KeyModifiers, r: Outcome)
    requires
        modifiers == KeyModifiers::Plain || modifiers == KeyModifiers::Shift,
        pre.history.idx is None,
        pre.dir_history().len() > 0,
        event_post(pre, post, (TermEvent::Key { code: KeyCode::Up, modifiers, press: true }), r),
    ensures
        post.parser.input == pre.dir_history().last().cmd,
        post.history.idx == Some((pre.dir_history().len() - 1) as usize),
        post.history.entries == pre.history.entries,
        r == Outcome::Redraw,
{
    law_stepping_back(pre, post);
}

/// The Down key, pressed alone or with shift, changes nothing while the prompt shows no
/// history entry.
pub proof fn law_down_without_entry_changes_nothing(
    pre: Rush,
    post: Rush,
    modifiers: KeyModifiers,
    r: Outcome,
)
    requires
        modifiers == KeyModifiers::Plain || modifiers == KeyModifiers::Shift,
        pre.history.idx is None,
        event_post(pre, post, (TermEvent::Key { code: KeyCode::Down, modifiers, press: true }), r),
    ensures
        post == pre,
        r == Outcome::Redraw,
{
}

/// The Left key, pressed alone or with shift, moves the cursor one column left unless it
/// stands at the start of the line, and changes nothing else.
pub proof fn law_left_moves_cursor_left(pre: Rush, post: Rush, modifiers: KeyModifiers, r: Outcome)
    requires
        modifiers == KeyModifiers::Plain || modifiers == KeyModifiers::Shift,
        event_post(pre, post, (TermEvent::Key { code: KeyCode::Left, modifiers, press: true }), r),
        pre.cursor.min_cursor is Some,
        pre.cursor.cursor_location is Some,
    ensures
        pre.cursor.cursor_location.unwrap() > pre.cursor.min_cursor.unwrap() ==> post.cursor.cursor_location
            == Some((pre.cursor.cursor_location.unwrap() - 1) as u16),
        pre.cursor.cursor_location.unwrap() <= pre.cursor.min_cursor.unwrap() ==> post.cursor.cursor_location
            == pre.cursor.cursor_location,
        post.cursor.min_cursor == pre.cursor.min_cursor,
        post.cursor.max_cursor == pre.cursor.max_cursor,
        post.parser == pre.parser,
        post.history == pre.history,
        post.mode == pre.mode,
        r == Outcome::Redraw,
{
}

/// The Right key, pressed alone or with shift, moves the cursor one column right unless
/// it stands at the end of the line, and changes nothing else.
pub proof fn law_right_moves_cursor_right(pre: Rush, post: Rush, modifiers: KeyModifiers, r: Outcome)
    requires
        modifiers == KeyModifiers::Plain || modifiers == KeyModifiers::Shift,
        event_post(pre, post, (TermEvent::Key { code: KeyCode::Right, modifiers, press: true }), r),
        pre.cursor.max_cursor is Some,
        pre.cursor.cursor_location is Some,
    ensures
        pre.cursor.cursor_location.unwrap() < pre.cursor.max_cursor.unwrap() ==> post.cursor.cursor_location
            == Some((pre.cursor.cursor_location.unwrap() + 1) as u16),
        pre.cursor.cursor_location.unwrap() >= pre.cursor.max_cursor.unwrap() ==> post.cursor.cursor_location
            == pre.cursor.cursor_location,
        post.cursor.min_cursor == pre.cursor.min_cursor,
        post.cursor.max_cursor == pre.cursor.max_cursor,
        post.parser == pre.parser,
        post.history == pre.history,
        post.mode == pre.mode,
        r == Outcome::Redraw,
{
}

/// In insert mode a character key, pressed alone or with shift, with the cursor at the
/// end of the line appends the character to the line and moves the cursor one column
/// right, widening the line.
pub proof fn law_typing_at_end_appends(pre: Rush, post: Rush, c: char, modifiers: KeyModifiers, r: Outcome)
    requires
        pre.mode == KeyMode::Insert,
        modifiers == KeyModifiers::Plain || modifiers == KeyModifiers::Shift,
        event_post(pre, post, (TermEvent::Key { code: KeyCode::Char(c), modifiers, press: true }), r),
        pre.cursor.cursor_location is Some,
        pre.cursor.max_cursor is Some,
        pre.cursor.min_cursor is Some,
        input_offset(pre.cursor) == encode_utf8(pre.parser.input@).len(),
        pre.cursor.cursor_location.unwrap() <= pre.cursor.max_cursor.unwrap() < u16::MAX,
    ensures
        post.parser.input@ == pre.parser.input@.push(c),
        post.cursor.cursor_location == Some((pre.cursor.cursor_location.unwrap() + 1) as u16),
        post.cursor.max_cursor == Some((pre.cursor.max_cursor.unwrap() + 1) as u16),
        post.cursor.min_cursor == pre.cursor.min_cursor,
        post.history == pre.history,
        post.mode == pre.mode,
        r == Outcome::Redraw,
{
    let b = encode_utf8(pre.parser.input@);
    lemma_encode_utf8_concat(pre.parser.input@, seq![c]);
    assert(pre.parser.input@ + seq![c] =~= pre.parser.input@.push(c));
    assert(b.subrange(0, b.len() as int) =~= b);
    assert(b.subrange(b.len() as int, b.len() as int) =~= Seq::<u8>::empty());
    assert(encode_utf8(post.parser.input@) =~= encode_utf8(pre.parser.input@.push(c)));
    lemma_encode_utf8_injective(post.parser.input@, pre.parser.input@.push(c));
}

/// A paste with the cursor at the end of the line appends the pasted text to the line.
pub proof fn law_paste_at_end_appends(pre: Rush, post: Rush, text: String, r: Outcome)
    requires
        event_post(pre, post, TermEvent::Paste(text), r),
        input_offset(pre.cursor) == encode_utf8(pre.parser.input@).len(),
    ensures
        post.parser.input@ == pre.parser.input@ + text@,
        post.history == pre.history,
        post.mode == pre.mode,
        r == Outcome::Redraw,
{
    let b = encode_utf8(pre.parser.input@);
    lemma_encode_utf8_concat(pre.parser.input@, text@);
    assert(b.subrange(0, b.len() as int) =~= b);
    assert(b.subrange(b.len() as int, b.len() as int) =~= Seq::<u8>::empty());
    assert(encode_utf8(post.parser.input@) =~= encode_utf8(pre.parser.input@ + text@));
    lemma_encode_utf8_injective(post.parser.input@, pre.parser.input@ + text@);
}

/// Backspace, pressed alone or with shift, with the cursor at the end of a line that
/// ends in an ASCII character removes that character.
pub proof fn law_backspace_at_end_removes_last(pre: Rush, post: Rush, modifiers: KeyModifiers, r: Outcome)
    requires
        modifiers == KeyModifiers::Plain || modifiers == KeyModifiers::Shift,
        event_post(pre, post, (TermEvent::Key { code: KeyCode::Backspace, modifiers, press: true }), r),
        pre.parser.input@.len() > 0,
        (pre.parser.input@.last() as u32) < 0x80,
        input_offset(pre.cursor) == encode_utf8(pre.parser.input@).len(),
    ensures
        post.parser.input@ == pre.parser.input@.drop_last(),
        post.history == pre.history,
        post.mode == pre.mode,
        r == Outcome::Redraw,
{
    let t = pre.parser.input@.drop_last();
    let x = pre.parser.input@.last();
    lemma_encode_utf8_concat(t, seq![x]);
    assert(t + seq![x] =~= pre.parser.input@);
    let b = encode_utf8(pre.parser.input@);
    assert(encode_utf8(seq![x]).len() == 1) by {
        assert(seq![x].drop_first() =~= Seq::<char>::empty());
        assert(seq![x][0] == x);
        assert(vstd::utf8::has_width_1_encoding(x as u32));
        assert(vstd::utf8::encode_scalar(x as u32).len() == 1);
        reveal_with_fuel(encode_utf8, 2);
    }
    assert(b.subrange(0, b.len() - 1) =~= encode_utf8(t));
    assert(b.subrange(b.len() as int, b.len() as int) =~= Seq::<u8>::empty());
    assert(encode_utf8(post.parser.input@) =~= encode_utf8(t));
    lemma_encode_utf8_injective(post.parser.input@, t);
}

/// Control-s enters suggestion mode and changes nothing else; control-d asks to end the
/// shell and changes nothing.
pub proof fn law_control_keys(pre: Rush, post: Rush, c: char, r: Outcome)
    requires
        event_post(pre, post, (TermEvent::Key { code: KeyCode::Char(c), modifiers: KeyModifiers::Control, press: true }), r),
    ensures
        c == 's' ==> post.mode == KeyMode::Suggest && post.parser == pre.parser && post.cursor
            == pre.cursor && post.history == pre.history && post.suggest == pre.suggest
            && r == Outcome::Redraw,
        c == 'd' ==> post == pre && r == Outcome::Exit,
        c != 's' && c != 'd' ==> post == pre && r == Outcome::Redraw,
{
}

/// The function key `n`, pressed alone or with shift, accepts the suggestion numbered
/// `n` (from 1): the prompt holds it, insert mode is back, and the caller shows and runs
/// the line.
pub proof fn law_function_key_accepts_suggestion(pre: Rush, post: Rush, n: u8, modifiers: KeyModifiers, r: Outcome)
    requires
        modifiers == KeyModifiers::Plain || modifiers == KeyModifiers::Shift,
        event_post(pre, post, (TermEvent::Key { code: KeyCode::F(n), modifiers, press: true }), r),
    ensures
        post.parser.input == pre.suggest.suggestions@[n - 1],
        post.mode == KeyMode::Insert,
        post.cursor.is_cleared(),
        r == Outcome::ShowAndExecute,
{
}

} // verus!
