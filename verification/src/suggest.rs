use vstd::prelude::*;

use crate::event::Outcome;
use crate::history::HistoryEntry;
use crate::rush::{KeyMode, Rush};
use crate::text::starts_with;

verus! {

/// The suggestions shown under the prompt.
pub struct Suggest {
    pub suggestions: Vec<String>,
}

impl Default for Suggest {
    fn default() -> (s: Suggest)
        ensures
            s.suggestions@.len() == 0,
    {
        Suggest { suggestions: Vec::new() }
    }
}

/// How many of the newest history entries are considered for suggestions.
pub const SUGGESTION_DEPTH: usize = 10;

/// The newest entries of a history, newest first, at most `SUGGESTION_DEPTH` of them.
pub open spec fn recent_entries(entries: Seq<HistoryEntry>) -> Seq<HistoryEntry> {
    let n = if entries.len() < SUGGESTION_DEPTH {
        entries.len()
    } else {
        SUGGESTION_DEPTH as nat
    };
    Seq::new(n, |i: int| entries[entries.len() - 1 - i])
}

/// The commands of `entries` that start with `prefix`, in order.
pub open spec fn commands_starting_with(entries: Seq<HistoryEntry>, prefix: Seq<char>) -> Seq<String>
    decreases entries.len(),
{
    if entries.len() == 0 {
        seq![]
    } else {
        let prior = commands_starting_with(entries.drop_last(), prefix);
        if prefix.is_prefix_of(entries.last().cmd@) {
            prior.push(entries.last().cmd)
        } else {
            prior
        }
    }
}

/// The suggestions for the current input: the commands among the newest entries of the
/// current directory's history that start with it, newest first.
pub open spec fn suggestions_for(r: Rush) -> Seq<String> {
    commands_starting_with(recent_entries(r.dir_history()), r.parser.input@)
}

/// The number that a digit key picks in suggestion mode: `1` to `9` pick themselves,
/// `0` picks the tenth.
pub open spec fn digit_choice(c: char) -> Option<u8> {
    if c == '0' {
        Some(10)
    } else if '1' <= c <= '9' {
        Some((c as u32 - '0' as u32) as u8)
    } else {
        None
    }
}

/// The suggestion numbered `n` (from 1) exists.
pub open spec fn accept_ok(pre: Rush, n: u8) -> bool {
    1 <= n && n - 1 < pre.suggest.suggestions@.len()
}

/// `post` is `pre` with the suggestion numbered `n` (from 1) in the prompt, the cursor's
/// columns forgotten and insert mode back; the line is then shown and run.
pub open spec fn accept_post(pre: Rush, post: Rush, n: u8, r: Outcome) -> bool {
    &&& post.parser.input == pre.suggest.suggestions@[n - 1]
    &&& post.cursor.is_cleared()
    &&& post.mode == KeyMode::Insert
    &&& r == Outcome::ShowAndExecute
    &&& post.parser.execute == pre.parser.execute
    &&& post.parser.output == pre.parser.output
    &&& post.history == pre.history
    &&& post.cfg == pre.cfg
    &&& post.pwd == pre.pwd
    &&& post.home == pre.home
    &&& post.suggest == pre.suggest
}

/// A key typed in suggestion mode picks an existing suggestion, if it picks one.
pub open spec fn suggest_mode_ok(pre: Rush, c: char) -> bool {
    digit_choice(c) matches Some(n) ==> accept_ok(pre, n)
}

/// `post` is `pre` after the key `c` in suggestion mode: a digit accepts its suggestion,
/// any other key changes nothing.
pub open spec fn suggest_mode_post(pre: Rush, post: Rush, c: char, r: Outcome) -> bool {
    match digit_choice(c) {
        Some(n) => accept_post(pre, post, n, r),
        None => post == pre && r == Outcome::Redraw,
    }
}

impl Rush {
    /// Fills the suggestions for the current input.
    pub fn generate(&mut self)
        ensures
            final(self).suggest.suggestions@ == suggestions_for(*old(self)),
            final(self).parser == old(self).parser,
            final(self).history == old(self).history,
            final(self).cursor == old(self).cursor,
            final(self).cfg == old(self).cfg,
            final(self).mode == old(self).mode,
            final(self).pwd == old(self).pwd,
            final(self).home == old(self).home,
    {
        self.suggest.suggestions.clear();
        let empty: Vec<HistoryEntry> = Vec::new();
        let entries = match self.history.entries.get(self.pwd.as_str()) {
            Some(e) => e,
            None => &empty,
        };
        let ghost recent = recent_entries(entries@);
        let len = entries.len();
        let n = if len < SUGGESTION_DEPTH {
            len
        } else {
            SUGGESTION_DEPTH
        };
        let mut i: usize = 0;
        proof {
            assert(recent.take(0) =~= Seq::<HistoryEntry>::empty());
        }
        while i < n
            invariant
                entries@ == old(self).dir_history(),
                recent == recent_entries(entries@),
                len == entries@.len(),
                n == recent.len(),
                i <= n,
                self.suggest.suggestions@ == commands_starting_with(recent.take(i as int), self.parser.input@),
                self.parser == old(self).parser,
                self.history == old(self).history,
                self.cursor == old(self).cursor,
                self.cfg == old(self).cfg,
                self.mode == old(self).mode,
                self.pwd == old(self).pwd,
                self.home == old(self).home,
            decreases n - i,
        {
            let hist = &entries[len - 1 - i];
            proof {
                assert(recent.take(i + 1).drop_last() =~= recent.take(i as int));
                assert(recent.take(i + 1).last() == *hist);
            }
            if starts_with(hist.cmd.as_str(), self.parser.input.as_str()) {
                self.suggest.suggestions.push(hist.cmd.clone());
            }
            i = i + 1;
        }
        proof {
            assert(recent.take(n as int) =~= recent);
        }
    }

    /// A key typed in suggestion mode: `1` to `9` and `0` (for the tenth) accept a
    /// suggestion, any other key is ignored.
    pub fn suggest_mode(&mut self, c: char) -> (r: Outcome)
        requires
            suggest_mode_ok(*old(self), c),
        ensures
            suggest_mode_post(*old(self), *final(self), c, r),
    {
        if c == '0' {
            self.accept_suggestion(10)
        } else if '1' <= c && c <= '9' {
            let d = (c as u32 - '0' as u32) as u8;
            self.accept_suggestion(d)
        } else {
            Outcome::Redraw
        }
    }

    /// Picks the suggestion numbered `n` (from 1) as the line to run: puts it in the
    /// prompt, forgets the cursor's columns, goes back to insert mode, and asks the
    /// caller to show the prompt and run the line (`Outcome::ShowAndExecute`).
    pub fn accept_suggestion(&mut self, n: u8) -> (r: Outcome)
        requires
            accept_ok(*old(self), n),
        ensures
            accept_post(*old(self), *final(self), n, r),
    {
        self.parser.input = self.suggest.suggestions[(n - 1) as usize].clone();
        self.cursor.clear();
        self.mode = KeyMode::Insert;
        Outcome::ShowAndExecute
    }

    /// Whether the suggestion numbered `n` (from 1) exists.
    pub fn can_accept(&self, n: u8) -> (ok: bool)
        ensures
            ok == accept_ok(*self, n),
    {
        n >= 1 && ((n - 1) as usize) < self.suggest.suggestions.len()
    }

    /// How many rows the screen scrolls up to make room for the suggestions, with the
    /// cursor on `row` of a window of `height` rows.
    pub fn suggestion_scroll(height: u16, row: u16) -> (adjust: u16)
        requires
            row <= height,
            height - row <= SUGGESTION_DEPTH,
        ensures
            adjust == SUGGESTION_DEPTH - (height - row),
    {
        let room_reqd: u16 = 10;
        let room_left = height - row;
        room_reqd - room_left
    }
}

/// Every suggestion starts with the input, and there are never more than
/// `SUGGESTION_DEPTH` of them.
pub proof fn law_suggestions_extend_input(r: Rush)
    ensures
        suggestions_for(r).len() <= SUGGESTION_DEPTH,
        forall|k: int|
            0 <= k < suggestions_for(r).len() ==> r.parser.input@.is_prefix_of(
                (#[trigger] suggestions_for(r)[k])@,
            ),
{
    lemma_commands_starting_with(recent_entries(r.dir_history()), r.parser.input@);
}

proof fn lemma_commands_starting_with(entries: Seq<HistoryEntry>, prefix: Seq<char>)
    ensures
        commands_starting_with(entries, prefix).len() <= entries.len(),
        forall|k: int|
            0 <= k < commands_starting_with(entries, prefix).len() ==> prefix.is_prefix_of(
                (#[trigger] commands_starting_with(entries, prefix)[k])@,
            ),
    decreases entries.len(),
{
    if entries.len() > 0 {
        lemma_commands_starting_with(entries.drop_last(), prefix);
    }
}

/// Where the kept commands stand among the entries: in order, each an entry whose command
/// starts with the prefix, and every such entry among them.
proof fn lemma_matching_positions(entries: Seq<HistoryEntry>, prefix: Seq<char>) -> (idx: Seq<int>)
    ensures
        idx.len() == commands_starting_with(entries, prefix).len(),
        forall|k: int|
            0 <= k < idx.len() ==> 0 <= #[trigger] idx[k] < entries.len()
                && commands_starting_with(entries, prefix)[k] == entries[idx[k]].cmd
                && prefix.is_prefix_of(entries[idx[k]].cmd@),
        forall|a: int, b: int| 0 <= a < b < idx.len() ==> #[trigger] idx[a] < #[trigger] idx[b],
        forall|i: int|
            0 <= i < entries.len() && prefix.is_prefix_of((#[trigger] entries[i]).cmd@) ==> exists|k: int|
                0 <= k < idx.len() && #[trigger] idx[k] == i,
    decreases entries.len(),
{
    if entries.len() == 0 {
        seq![]
    } else {
        let init = entries.drop_last();
        let prior = lemma_matching_positions(init, prefix);
        let l = entries.len() - 1;
        assert forall|i: int| 0 <= i < init.len() implies init[i] == entries[i] by {}
        if prefix.is_prefix_of(entries.last().cmd@) {
            let idx = prior.push(l);
            assert forall|i: int|
                0 <= i < entries.len() && prefix.is_prefix_of((#[trigger] entries[i]).cmd@) implies exists|k: int|
                    0 <= k < idx.len() && #[trigger] idx[k] == i by {
                if i < l {
                    assert(init[i] == entries[i]);
                    let k = choose|k: int| 0 <= k < prior.len() && #[trigger] prior[k] == i;
                    assert(idx[k] == i);
                } else {
                    assert(idx[prior.len() as int] == i);
                }
            }
            idx
        } else {
            assert forall|i: int|
                0 <= i < entries.len() && prefix.is_prefix_of((#[trigger] entries[i]).cmd@) implies exists|k: int|
                    0 <= k < prior.len() && #[trigger] prior[k] == i by {
                assert(i != l);
                assert(init[i] == entries[i]);
            }
            prior
        }
    }
}

/// The suggestions are the matching commands among the ten newest entries of the working
/// directory's history, newest first. The result `pos` gives, for each suggestion, the
/// position in the history of the entry it is the command of: one of the ten newest, an
/// entry whose command starts with the typed input, each older than the one before; and
/// every such entry of the ten newest is among them.
pub proof fn law_suggestions_are_recent_matches(r: Rush) -> (pos: Seq<int>)
    ensures
        pos.len() == suggestions_for(r).len(),
        forall|k: int|
            0 <= k < pos.len() ==> 0 <= #[trigger] pos[k] < r.dir_history().len()
                && r.dir_history().len() - 10 <= pos[k]
                && suggestions_for(r)[k] == r.dir_history()[pos[k]].cmd
                && r.parser.input@.is_prefix_of(r.dir_history()[pos[k]].cmd@),
        forall|a: int, b: int| 0 <= a < b < pos.len() ==> #[trigger] pos[a] > #[trigger] pos[b],
        forall|j: int|
            0 <= j < r.dir_history().len() && r.dir_history().len() - 10 <= j
                && r.parser.input@.is_prefix_of((#[trigger] r.dir_history()[j]).cmd@) ==> exists|k: int|
                0 <= k < pos.len() && #[trigger] pos[k] == j,
{
    let h = r.dir_history();
    let recent = recent_entries(h);
    let len = h.len() as int;
    let idx = lemma_matching_positions(recent, r.parser.input@);
    let pos = idx.map_values(|i: int| len - 1 - i);
    assert forall|k: int| 0 <= k < pos.len() implies 0 <= #[trigger] pos[k] < len && len - 10 <= pos[k]
        && suggestions_for(r)[k] == h[pos[k]].cmd && r.parser.input@.is_prefix_of(h[pos[k]].cmd@) by {
        assert(recent[idx[k]] == h[len - 1 - idx[k]]);
    }
    assert forall|a: int, b: int| 0 <= a < b < pos.len() implies #[trigger] pos[a] > #[trigger] pos[b] by {
        assert(idx[a] < idx[b]);
    }
    assert forall|j: int|
        0 <= j < len && len - 10 <= j && r.parser.input@.is_prefix_of((#[trigger] h[j]).cmd@) implies exists|k: int|
            0 <= k < pos.len() && #[trigger] pos[k] == j by {
        let i = len - 1 - j;
        assert(recent[i] == h[j]);
        let k = choose|k: int| 0 <= k < idx.len() && #[trigger] idx[k] == i;
        assert(pos[k] == j);
    }
    pos
}
/// In suggestion mode a digit key accepts the suggestion it numbers, `1` to `9` the first
/// to the ninth and `0` the tenth: the prompt holds that suggestion, the cursor's
/// columns are forgotten, insert mode is back, and the caller shows and runs the line.
/// Any other key changes nothing.
pub proof fn law_digit_keys_accept_their_suggestion(pre: Rush, post: Rush, c: char, r: Outcome)
    requires
        suggest_mode_post(pre, post, c, r),
    ensures
        '1' <= c <= '9' ==> post.parser.input == pre.suggest.suggestions@[c as int - '1' as int],
        c == '0' ==> post.parser.input == pre.suggest.suggestions@[9],
        '0' <= c <= '9' ==> {
            &&& post.mode == KeyMode::Insert
            &&& r == Outcome::ShowAndExecute
            &&& post.cursor.is_cleared()
            &&& post.history == pre.history
            &&& post.suggest == pre.suggest
            &&& post.pwd == pre.pwd
        },
        !('0' <= c <= '9') ==> post == pre && r == Outcome::Redraw,
{
    if '1' <= c <= '9' {
        assert(digit_choice(c) == Some(((c as u32 - '0' as u32) as u8)));
        assert(((c as u32 - '0' as u32) as u8) - 1 == c as int - '1' as int);
    }
}

} // verus!
