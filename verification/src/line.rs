use vstd::prelude::*;
use vstd::utf8::encode_utf8;

use crate::event::Outcome;
use crate::history::{
    can_record, do_hist_post, encoded_len_fits, history_file_name_of, input_recorded, recorded,
    HISTORY_DIR,
};
use crate::parser::{cmd_views, is_parse_of, parse_post, parsed_commands, Cmd};
use crate::paths::path_join;
use crate::rush::{KeyMode, Rush};
use crate::suggest::accept_post;

verus! {

/// Whether a line goes on after a command that ended with `status`: only a command that
/// succeeded, with status 0, lets the next one run.
pub fn goes_on(status: i32) -> (b: bool)
    ensures
        b == (status == 0),
{
    status == 0
}

/// The running of one line's commands: they run in order, each after the one before
/// succeeded, until one fails or none is left.
pub struct LineRun {
    /// The commands of the line.
    pub commands: Vec<Cmd>,
    /// How many of them have run.
    pub next: usize,
    /// Whether the last one that ran failed, which ends the line.
    pub stopped: bool,
    /// The exit statuses of those that ran, in order.
    pub statuses: Ghost<Seq<i32>>,
}

impl LineRun {
    /// The statuses are those of the first `next` commands, each but the last 0, and the
    /// line stopped exactly when the last one was not.
    pub open spec fn wf(&self) -> bool {
        &&& self.next <= self.commands@.len()
        &&& self.statuses@.len() == self.next
        &&& forall|i: int| 0 <= i < self.next - 1 ==> self.statuses@[i] == 0
        &&& self.stopped == (self.next > 0 && self.statuses@[self.next - 1] != 0)
    }

    /// No command is left to run: one failed, or all ran.
    pub open spec fn is_over(&self) -> bool {
        self.stopped || self.next == self.commands@.len()
    }

    /// A run of `commands` in which none has run yet.
    pub fn new(commands: Vec<Cmd>) -> (r: LineRun)
        ensures
            r.wf(),
            r.commands == commands,
            r.next == 0,
            !r.stopped,
            r.statuses@ == Seq::<i32>::empty(),
    {
        LineRun { commands, next: 0, stopped: false, statuses: Ghost(Seq::empty()) }
    }

    /// Whether no command is left to run.
    pub fn over(&self) -> (b: bool)
        requires
            self.wf(),
        ensures
            b == self.is_over(),
    {
        self.stopped || self.next == self.commands.len()
    }

    /// The command to run next, or `None` once the line is over.
    pub fn next_command(&self) -> (c: Option<Cmd>)
        requires
            self.wf(),
        ensures
            c is None <==> self.is_over(),
            c matches Some(cmd) ==> cmd@ == self.commands@[self.next as int]@,
    {
        if self.over() {
            None
        } else {
            Some(self.commands[self.next].clone())
        }
    }

    /// Takes in the exit status of the command that just ran; the line stops unless it
    /// succeeded.
    pub fn report(&mut self, status: i32)
        requires
            old(self).wf(),
            !old(self).is_over(),
        ensures
            final(self).wf(),
            final(self).commands == old(self).commands,
            final(self).next == old(self).next + 1,
            final(self).statuses@ == old(self).statuses@.push(status),
            final(self).stopped == (status != 0),
    {
        let count = self.commands.len();
        proof {
            assert(self.next < count);
        }
        self.next = self.next + 1;
        self.statuses = Ghost(self.statuses@.push(status));
        self.stopped = !goes_on(status);
    }
}

/// `post` is `pre` after the line was finished: the line is recorded in the history of
/// the working directory (with the time it ran), which is to be written to `path`, and
/// the prompt is empty again.
pub open spec fn finish_line_post(pre: Rush, post: Rush, path: String) -> bool {
    &&& input_recorded(pre, post)
    &&& path@ == path_join(HISTORY_DIR@, history_file_name_of(pre.pwd@))
    &&& post.parser.input@ == Seq::<char>::empty()
    &&& post.parser.execute == pre.parser.execute
    &&& post.parser.output == pre.parser.output
    &&& post.cursor.is_cleared()
    &&& post.cfg == pre.cfg
    &&& post.mode == pre.mode
    &&& post.pwd == pre.pwd
    &&& post.home == pre.home
    &&& post.suggest == pre.suggest
}

impl Rush {
    /// `cd` into one directory ends here: the working directory becomes the canonical
    /// form of the path the plan named.
    pub fn finish_cd(&mut self, canonical: String)
        ensures
            final(self).pwd == canonical,
            final(self).only_pwd_changed(*old(self)),
    {
        self.pwd = canonical;
    }

    /// Ends a line whose commands have run: records it in the history of the working
    /// directory and resets the prompt. Gives the path of the file to which that history
    /// is to be written.
    pub fn finish_line(&mut self) -> (path: String)
        requires
            can_record(old(self).dir_history(), old(self).parser.input@),
            encoded_len_fits(encode_utf8(old(self).pwd@).len()),
        ensures
            finish_line_post(*old(self), *final(self), path),
    {
        let path = self.hist_add_input();
        self.reset_prompt();
        path
    }
}

/// How many of a line's commands run where the `k`-th would end with `statuses[k]`:
/// each up to and including the first that fails, or all of them.
pub open spec fn commands_run(statuses: Seq<i32>) -> nat
    decreases statuses.len(),
{
    if statuses.len() == 0 {
        0
    } else if statuses[0] != 0 {
        1
    } else {
        1 + commands_run(statuses.drop_first())
    }
}

proof fn lemma_commands_run(statuses: Seq<i32>, k: nat)
    requires
        k <= statuses.len(),
        forall|i: int| 0 <= i < k - 1 ==> statuses[i] == 0,
        (k > 0 && statuses[k - 1] != 0) || (k == statuses.len() && forall|i: int|
            0 <= i < k ==> statuses[i] == 0),
    ensures
        commands_run(statuses) == k,
    decreases k,
{
    if k > 0 && statuses[0] == 0 {
        let rest = statuses.drop_first();
        assert forall|i: int| 0 <= i < k - 2 implies rest[i] == 0 by {
            assert(rest[i] == statuses[i + 1]);
        }
        if k > 0 && statuses[k - 1] != 0 {
            assert(rest[k - 2] == statuses[k - 1]);
        } else {
            assert forall|i: int| 0 <= i < k - 1 implies rest[i] == 0 by {
                assert(rest[i] == statuses[i + 1]);
            }
        }
        lemma_commands_run(rest, (k - 1) as nat);
    }
}

/// A line runs its commands in order until the first that fails. Where the `k`-th
/// command would end with `statuses[k]`, a run that is over has run exactly
/// `commands_run(statuses)` of them, in order, and taken in their statuses.
pub proof fn law_line_runs_until_first_failure(run: LineRun, statuses: Seq<i32>)
    requires
        run.wf(),
        run.is_over(),
        statuses.len() == run.commands@.len(),
        run.statuses@ == statuses.take(run.next as int),
    ensures
        run.next == commands_run(statuses),
{
    let k = run.next as nat;
    assert forall|i: int| 0 <= i < k - 1 implies statuses[i] == 0 by {
        assert(run.statuses@[i] == statuses[i]);
    }
    if run.stopped {
        assert(run.statuses@[k - 1] == statuses[k - 1]);
    } else {
        assert forall|i: int| 0 <= i < k implies statuses[i] == 0 by {
            assert(run.statuses@[i] == statuses[i]);
        }
    }
    lemma_commands_run(statuses, k);
}

/// Running a line, as `Outcome::Execute` asks: after `parse(true)`, the commands (which
/// change at most the working directory) and `finish_line`, the output is that of the
/// line that was typed and the run had its commands, the line is recorded in the history
/// of the directory the shell ended in, and the prompt is empty, showing no history
/// entry.
pub proof fn law_running_a_line(
    a: Rush,
    b: Rush,
    run: Option<LineRun>,
    c: Rush,
    d: Rush,
    path: String,
)
    requires
        parse_post(a, b, true, run),
        c.only_pwd_changed(b),
        finish_line_post(c, d, path),
    ensures
        run is Some,
        cmd_views(run.unwrap().commands@) == cmd_views(d.parser.output.commands@),
        d.parser.output.input@ == a.parser.input@,
        a.parser.input@ != a.parser.output.input@ ==> is_parse_of(
            d.parser.output,
            a.parser.input@,
        ) && cmd_views(run.unwrap().commands@) == parsed_commands(a.parser.input@),
        exists|now: u64|
            d.history.entries@ == a.history.entries@.insert(
                c.pwd@,
                #[trigger] recorded(c.dir_history(), a.parser.input, now),
            ),
        d.history.idx is None,
        d.parser.input@ == Seq::<char>::empty(),
        d.cursor.is_cleared(),
        d.parser.execute,
        d.pwd == c.pwd,
        d.cfg == a.cfg,
        d.mode == a.mode,
        d.home == a.home,
        d.suggest == a.suggest,
{
    let now = choose|now: u64|
        d.history.entries@ == c.history.entries@.insert(
            c.pwd@,
            #[trigger] recorded(c.dir_history(), c.parser.input, now),
        );
    assert(d.history.entries@ == a.history.entries@.insert(
        c.pwd@,
        recorded(c.dir_history(), a.parser.input, now),
    ));
}

/// Accepting a suggestion runs it: once the line it asks for has run, the output is that
/// of the suggestion, which is recorded in the history, the prompt is empty and the
/// shell is back in insert mode.
pub proof fn law_accepted_suggestion_is_run(
    a: Rush,
    b: Rush,
    n: u8,
    r: Outcome,
    c: Rush,
    run: Option<LineRun>,
    e: Rush,
    f: Rush,
    path: String,
)
    requires
        accept_post(a, b, n, r),
        parse_post(b, c, true, run),
        e.only_pwd_changed(c),
        finish_line_post(e, f, path),
    ensures
        r == Outcome::ShowAndExecute,
        f.parser.output.input@ == a.suggest.suggestions@[n - 1]@,
        exists|now: u64|
            f.history.entries@ == a.history.entries@.insert(
                e.pwd@,
                #[trigger] recorded(e.dir_history(), a.suggest.suggestions@[n - 1], now),
            ),
        f.history.idx is None,
        f.parser.input@ == Seq::<char>::empty(),
        f.cursor.is_cleared(),
        f.mode == KeyMode::Insert,
{
    law_running_a_line(b, c, run, e, f, path);
}

/// Picking a suggestion from the history runs it: once the line it asks for has run, the
/// output is that of the suggestion, which is recorded in the history, and the prompt is
/// empty; the key mode is unchanged.
pub proof fn law_picked_history_is_run(
    a: Rush,
    b: Rush,
    n: u8,
    r: Outcome,
    c: Rush,
    run: Option<LineRun>,
    e: Rush,
    f: Rush,
    path: String,
)
    requires
        do_hist_post(a, b, n, r),
        parse_post(b, c, true, run),
        e.only_pwd_changed(c),
        finish_line_post(e, f, path),
    ensures
        r == Outcome::Execute,
        f.parser.output.input@ == a.suggest.suggestions@[n as int]@,
        exists|now: u64|
            f.history.entries@ == a.history.entries@.insert(
                e.pwd@,
                #[trigger] recorded(e.dir_history(), a.suggest.suggestions@[n as int], now),
            ),
        f.history.idx is None,
        f.parser.input@ == Seq::<char>::empty(),
        f.cursor.is_cleared(),
        f.mode == a.mode,
{
    law_running_a_line(b, c, run, e, f, path);
}

} // verus!
