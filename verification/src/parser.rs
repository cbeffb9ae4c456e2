use std::ops::Range;

use vstd::prelude::*;

use crate::line::LineRun;
use crate::rush::Rush;
use crate::paths::{path_join, path_push};
use crate::text::{chars_of, str_eq};

verus! {

/// The line being edited, and what the parser understood of it.
pub struct Parser {
    pub execute: bool,
    pub input: String,
    pub output: ParserOutput,
}

/// A struct optimized for command execution planning and syntax highlighting
pub struct ParserOutput {
    /// the input this parsing output is associated with, allows fast determination if
    /// re-parsing is needed
    pub input: String,
    pub commands: Vec<Cmd>,
    pub problems: Vec<ParseProblem>,
}

/// Represents everything the parser understood
pub struct Cmd {
    pub total_range: Range<usize>,
    pub var: Vec<Var>,
    pub name: String,
    pub name_range: Range<usize>,
    pub args: Vec<Arg>,
    pub consumed: Vec<ConsumedChars>,
    pub next: Option<Next>,
    pub stage: CmdStage,
    pub background: bool,
}

#[derive(Clone, Copy)]
pub struct Var {}

pub struct Arg {
    pub val: String,
    pub range: Range<usize>,
}

#[derive(Clone, Copy, PartialEq, Eq, Structural)]
pub enum CmdStage {
    NotRun,
    Running,
    Finished(u8),
}

pub struct Next {
    pub next_type: NextType,
    pub range: Range<usize>,
}

#[derive(Clone, Copy, PartialEq, Eq, Structural)]
pub enum NextType {
    And,
    Or,
    Semi,
}

#[derive(Clone, Copy)]
pub struct ConsumedChars {
    pub c: char,
    pub idx: usize,
}

/// Represents the current behavior of the parser
/// Takes inspiration from shell_words
#[derive(Clone, Copy, PartialEq, Eq, Structural, Debug)]
pub enum ParserState {
    SingleQuote(usize),
    DoubleQuote(usize),
    Delimeter,
    Command,
    Args,
    /// how many & characters have we seen (bg or &&)?
    And { count: usize },
}

#[derive(Clone, Copy, PartialEq, Eq, Structural, Debug)]
pub enum ParseProblem {
    UnmatchedQuote(usize),
    TrailingAnd,
}

/// What the parser records of an argument: its text and the character range it covers.
pub struct ArgView {
    pub val: Seq<char>,
    pub start: int,
    pub end: int,
}

/// What the parser records of a command: its name, its arguments, and whether it
/// runs in the background.
pub struct CmdView {
    pub name: Seq<char>,
    pub args: Seq<ArgView>,
    pub background: bool,
}

impl View for Arg {
    type V = ArgView;

    open spec fn view(&self) -> ArgView {
        ArgView { val: self.val@, start: self.range.start as int, end: self.range.end as int }
    }
}

impl View for Cmd {
    type V = CmdView;

    open spec fn view(&self) -> CmdView {
        CmdView {
            name: self.name@,
            args: self.args@.map_values(|a: Arg| a@),
            background: self.background,
        }
    }
}

impl Cmd {
    /// The fields that the parser never fills keep their default values.
    pub open spec fn rest_is_default(&self) -> bool {
        &&& self.total_range.start == 0 && self.total_range.end == 0
        &&& self.var@.len() == 0
        &&& self.name_range.start == 0 && self.name_range.end == 0
        &&& self.consumed@.len() == 0
        &&& self.next is None
        &&& self.stage == CmdStage::NotRun
    }
}

impl Clone for Arg {
    fn clone(&self) -> (r: Arg)
        ensures
            r@ == self@,
    {
        Arg { val: self.val.clone(), range: Range { start: self.range.start, end: self.range.end } }
    }
}

impl Clone for Next {
    fn clone(&self) -> (r: Next)
        ensures
            r == *self,
    {
        Next { next_type: self.next_type, range: Range { start: self.range.start, end: self.range.end } }
    }
}

impl Clone for Cmd {
    fn clone(&self) -> (r: Cmd)
        ensures
            r@ == self@,
            r.total_range == self.total_range,
            r.var@ == self.var@,
            r.name_range == self.name_range,
            r.consumed@ == self.consumed@,
            r.next == self.next,
            r.stage == self.stage,
    {
        let mut var: Vec<Var> = Vec::new();
        let mut i: usize = 0;
        while i < self.var.len()
            invariant
                i <= self.var@.len(),
                var@ == self.var@.take(i as int),
            decreases self.var.len() - i,
        {
            var.push(self.var[i]);
            i = i + 1;
            proof {
                assert(var@ =~= self.var@.take(i as int));
            }
        }
        let mut args: Vec<Arg> = Vec::new();
        let mut i: usize = 0;
        while i < self.args.len()
            invariant
                i <= self.args@.len(),
                args@.len() == i,
                forall|k: int| 0 <= k < i ==> (#[trigger] args@[k])@ == self.args@[k]@,
            decreases self.args.len() - i,
        {
            args.push(self.args[i].clone());
            i = i + 1;
        }
        let mut consumed: Vec<ConsumedChars> = Vec::new();
        let mut i: usize = 0;
        while i < self.consumed.len()
            invariant
                i <= self.consumed@.len(),
                consumed@ == self.consumed@.take(i as int),
            decreases self.consumed.len() - i,
        {
            consumed.push(self.consumed[i]);
            i = i + 1;
            proof {
                assert(consumed@ =~= self.consumed@.take(i as int));
            }
        }
        let next = match &self.next {
            Some(n) => Some(n.clone()),
            None => None,
        };
        proof {
            assert(var@ =~= self.var@);
            assert(consumed@ =~= self.consumed@);
            assert(args@.map_values(|a: Arg| a@) =~= self.args@.map_values(|a: Arg| a@));
        }
        Cmd {
            total_range: Range { start: self.total_range.start, end: self.total_range.end },
            var,
            name: self.name.clone(),
            name_range: Range { start: self.name_range.start, end: self.name_range.end },
            args,
            consumed,
            next,
            stage: self.stage,
            background: self.background,
        }
    }
}

impl Default for CmdStage {
    fn default() -> (s: CmdStage)
        ensures
            s == CmdStage::NotRun,
    {
        CmdStage::NotRun
    }
}

impl Default for Cmd {
    fn default() -> (c: Cmd)
        ensures
            c@ == empty_cmd(),
            c.rest_is_default(),
    {
        let c = Cmd {
            total_range: Range { start: 0, end: 0 },
            var: Vec::new(),
            name: String::new(),
            name_range: Range { start: 0, end: 0 },
            args: Vec::new(),
            consumed: Vec::new(),
            next: None,
            stage: CmdStage::default(),
            background: false,
        };
        proof {
            assert(c.args@.map_values(|a: Arg| a@) =~= seq![]);
        }
        c
    }
}

impl Default for ParserOutput {
    fn default() -> (o: ParserOutput)
        ensures
            o.input@ == Seq::<char>::empty(),
            o.commands@.len() == 0,
            o.problems@.len() == 0,
    {
        ParserOutput { input: String::new(), commands: Vec::new(), problems: Vec::new() }
    }
}

impl Default for Parser {
    fn default() -> (p: Parser)
        ensures
            !p.execute,
            p.input@ == Seq::<char>::empty(),
            p.output.input@ == Seq::<char>::empty(),
            p.output.commands@.len() == 0,
            p.output.problems@.len() == 0,
    {
        Parser { execute: false, input: String::new(), output: ParserOutput::default() }
    }
}

/// The command the parser starts each new command with.
pub open spec fn empty_cmd() -> CmdView {
    CmdView { name: seq![], args: seq![], background: false }
}

/// The parser's state after some prefix of the input: the stack of modes and the
/// commands understood so far (never empty; the last one is being filled).
pub struct FsmState {
    pub stack: Seq<ParserState>,
    pub cmds: Seq<CmdView>,
}

/// The parser before any character: no mode open, one empty command.
pub open spec fn initial_fsm() -> FsmState {
    FsmState { stack: seq![], cmds: seq![empty_cmd()] }
}

/// Append `c` to the name of the last command.
pub open spec fn push_name(cmds: Seq<CmdView>, c: char) -> Seq<CmdView> {
    let last = cmds.len() - 1;
    cmds.update(
        last,
        CmdView { name: cmds[last].name.push(c), args: cmds[last].args, background: cmds[last].background },
    )
}

/// Start a new argument of the last command.
pub open spec fn push_arg(cmds: Seq<CmdView>, a: ArgView) -> Seq<CmdView> {
    let last = cmds.len() - 1;
    cmds.update(
        last,
        CmdView { name: cmds[last].name, args: cmds[last].args.push(a), background: cmds[last].background },
    )
}

/// Append `c` to the last argument of the last command, widening its range by one.
pub open spec fn extend_arg(cmds: Seq<CmdView>, c: char) -> Seq<CmdView> {
    let last = cmds.len() - 1;
    let args = cmds[last].args;
    let a = args.last();
    cmds.update(
        last,
        CmdView {
            name: cmds[last].name,
            args: args.update(args.len() - 1, ArgView { val: a.val.push(c), start: a.start, end: a.end + 1 }),
            background: cmds[last].background,
        },
    )
}

/// One step of the parser on the character `c` found at character index `idx`.
/// `None` where the parser gives up (an `=` in a command name, or a lone `&`
/// followed by anything but `&`).
pub open spec fn fsm_step(st: FsmState, idx: nat, c: char) -> Option<FsmState> {
    let stack = st.stack;
    let cmds = st.cmds;
    if stack.len() == 0 {
        if c == ' ' {
            Some(st)
        } else {
            Some(FsmState { stack: seq![ParserState::Command], cmds: push_name(cmds, c) })
        }
    } else if stack =~= seq![ParserState::Command] {
        if c == ' ' {
            Some(FsmState { stack: seq![ParserState::Command, ParserState::Delimeter], cmds })
        } else if c == '=' {
            None
        } else {
            Some(FsmState { stack, cmds: push_name(cmds, c) })
        }
    } else if stack =~= seq![ParserState::Command, ParserState::Delimeter] {
        if c == '"' {
            Some(
                FsmState {
                    stack: seq![ParserState::Command, ParserState::Args, ParserState::DoubleQuote(idx as usize)],
                    cmds: push_arg(cmds, ArgView { val: seq![], start: idx as int, end: idx as int + 1 }),
                },
            )
        } else if c == '&' {
            Some(FsmState { stack: seq![ParserState::Command, ParserState::And { count: 1 }], cmds })
        } else {
            Some(
                FsmState {
                    stack: seq![ParserState::Command, ParserState::Args],
                    cmds: push_arg(cmds, ArgView { val: seq![c], start: idx as int, end: idx as int + 1 }),
                },
            )
        }
    } else if stack =~= seq![ParserState::Command, ParserState::Args] {
        if c == ' ' {
            Some(FsmState { stack: seq![ParserState::Command, ParserState::Delimeter], cmds })
        } else {
            Some(FsmState { stack, cmds: extend_arg(cmds, c) })
        }
    } else if stack =~= seq![ParserState::Command, ParserState::And { count: 1 }] {
        if c == '&' {
            Some(FsmState { stack: seq![], cmds: cmds.push(empty_cmd()) })
        } else {
            None
        }
    } else if stack.len() == 3 && stack[0] == ParserState::Command && stack[1] == ParserState::Args
        && stack[2] is DoubleQuote {
        if c == '"' {
            Some(FsmState { stack: seq![ParserState::Command, ParserState::Args], cmds })
        } else {
            Some(FsmState { stack, cmds: extend_arg(cmds, c) })
        }
    } else {
        None
    }
}

/// The parser's state after the first `n` characters of `chars`.
pub open spec fn fsm_prefix(chars: Seq<char>, n: nat) -> Option<FsmState>
    decreases n,
{
    if n == 0 {
        Some(initial_fsm())
    } else {
        match fsm_prefix(chars, (n - 1) as nat) {
            Some(st) => fsm_step(st, (n - 1) as nat, chars[n - 1]),
            None => None,
        }
    }
}

/// The parser's state after the whole input; `None` where the parser gives up.
pub open spec fn fsm_run(chars: Seq<char>) -> Option<FsmState> {
    fsm_prefix(chars, chars.len())
}

/// The problem that a mode left open at the end of the input reports.
pub open spec fn problem_of(s: ParserState) -> Seq<ParseProblem> {
    match s {
        ParserState::SingleQuote(loc) => seq![ParseProblem::UnmatchedQuote(loc)],
        ParserState::DoubleQuote(loc) => seq![ParseProblem::UnmatchedQuote(loc)],
        ParserState::And { count } => if count == 1 {
            seq![]
        } else {
            seq![ParseProblem::TrailingAnd]
        },
        _ => seq![],
    }
}

/// The problems reported by the modes left open, in stack order.
pub open spec fn open_problems(stack: Seq<ParserState>) -> Seq<ParseProblem>
    decreases stack.len(),
{
    if stack.len() == 0 {
        seq![]
    } else {
        open_problems(stack.drop_last()) + problem_of(stack.last())
    }
}

/// A single `&` left open at the end sends the last command to the background.
pub open spec fn ends_in_background(stack: Seq<ParserState>) -> bool {
    exists|i: int| 0 <= i < stack.len() && stack[i] == (ParserState::And { count: 1 })
}

/// `cmds` with the last command sent to the background.
pub open spec fn set_background(cmds: Seq<CmdView>) -> Seq<CmdView> {
    let last = cmds.len() - 1;
    cmds.update(last, CmdView { name: cmds[last].name, args: cmds[last].args, background: true })
}

/// The commands understood from a whole input on which the parser does not give up.
pub open spec fn parsed_commands(chars: Seq<char>) -> Seq<CmdView> {
    let st = fsm_run(chars).unwrap();
    if ends_in_background(st.stack) {
        set_background(st.cmds)
    } else {
        st.cmds
    }
}

/// The problems found in a whole input on which the parser does not give up.
pub open spec fn parsed_problems(chars: Seq<char>) -> Seq<ParseProblem> {
    open_problems(fsm_run(chars).unwrap().stack)
}

/// `out` is what the parser makes of `input`.
pub open spec fn is_parse_of(out: ParserOutput, input: Seq<char>) -> bool {
    &&& fsm_run(input) is Some
    &&& out.input@ == input
    &&& out.commands@.map_values(|c: Cmd| c@) == parsed_commands(input)
    &&& forall|i: int| 0 <= i < out.commands@.len() ==> (#[trigger] out.commands@[i]).rest_is_default()
    &&& out.problems@ == parsed_problems(input)
}

/// Once the parser gives up it stays so.
proof fn lemma_fsm_stuck(chars: Seq<char>, n: nat, m: nat)
    requires
        n <= m,
        fsm_prefix(chars, n) is None,
    ensures
        fsm_prefix(chars, m) is None,
    decreases m - n,
{
    if n < m {
        lemma_fsm_stuck(chars, n, (m - 1) as nat);
    }
}

/// The views of a list of commands.
pub open spec fn cmd_views(cmds: Seq<Cmd>) -> Seq<CmdView> {
    cmds.map_values(|c: Cmd| c@)
}

/// All argument ranges of `c` end at or before `bound`, and the command is not yet in
/// the background.
pub open spec fn cmd_in_progress(c: CmdView, bound: int) -> bool {
    &&& !c.background
    &&& forall|k: int| 0 <= k < c.args.len() ==> (#[trigger] c.args[k]).end <= bound
}

impl Rush {
    /// Runs the parser over the current input. `None` exactly where the parser gives up.
    pub fn try_parse_fsm(&self) -> (r: Option<ParserOutput>)
        ensures
            r is None <==> fsm_run(self.parser.input@) is None,
            r matches Some(out) ==> is_parse_of(out, self.parser.input@),
    {
        let input = self.parser.input.clone();
        let chars = chars_of(input.as_str());
        let mut state: Vec<ParserState> = Vec::new();
        let mut done: Vec<Cmd> = Vec::new();
        let mut cur: Cmd = Cmd::default();
        let mut idx: usize = 0;
        proof {
            assert(cmd_views(done@).push(cur@) =~= seq![empty_cmd()]);
        }
        while idx < chars.len()
            invariant
                chars@ == input@,
                input@ == self.parser.input@,
                idx <= chars.len(),
                fsm_prefix(chars@, idx as nat) == Some(
                    FsmState { stack: state@, cmds: cmd_views(done@).push(cur@) },
                ),
                cur.rest_is_default(),
                forall|i: int| 0 <= i < done@.len() ==> (#[trigger] done@[i]).rest_is_default(),
                forall|i: int| 0 <= i < done@.len() ==> !(#[trigger] done@[i]).background,
                cmd_in_progress(cur@, idx as int),
                state@.len() >= 2 && state@[1] == ParserState::Args ==> cur.args@.len() > 0,
            decreases chars.len() - idx,
        {
            let c = chars[idx];
            let ghost before = FsmState { stack: state@, cmds: cmd_views(done@).push(cur@) };
            let ghost old_cur = cur@;
            let ghost old_args = cur.args@;
            let ghost last = before.cmds.len() - 1;
            proof {
                assert(before.cmds[last] == old_cur);
            }
            let n = state.len();
            if n == 0 {
                if c != ' ' {
                    state.push(ParserState::Command);
                    cur.name.push(c);
                    proof {
                        assert(state@ =~= seq![ParserState::Command]);
                        assert(cur@ == CmdView { name: old_cur.name.push(c), args: old_cur.args, background: old_cur.background });
                        assert(cmd_views(done@).push(cur@) =~= push_name(before.cmds, c));
                    }
                }
            } else if n == 1 && state[0] == ParserState::Command {
                proof {
                    assert(state@ =~= seq![ParserState::Command]);
                }
                if c == ' ' {
                    state.push(ParserState::Delimeter);
                    proof {
                        assert(state@ =~= seq![ParserState::Command, ParserState::Delimeter]);
                    }
                } else if c == '=' {
                    proof {
                        lemma_fsm_stuck(chars@, (idx + 1) as nat, chars@.len());
                    }
                    return None;
                } else {
                    cur.name.push(c);
                    proof {
                        assert(cur@ == CmdView { name: old_cur.name.push(c), args: old_cur.args, background: old_cur.background });
                        assert(cmd_views(done@).push(cur@) =~= push_name(before.cmds, c));
                    }
                }
            } else if n == 2 && state[0] == ParserState::Command && state[1]
                == ParserState::Delimeter {
                proof {
                    assert(state@ =~= seq![ParserState::Command, ParserState::Delimeter]);
                }
                if c == '"' {
                    state.set(1, ParserState::Args);
                    state.push(ParserState::DoubleQuote(idx));
                    let arg = Arg { val: String::new(), range: Range { start: idx, end: idx + 1 } };
                    cur.args.push(arg);
                    proof {
                        assert(state@ =~= seq![ParserState::Command, ParserState::Args, ParserState::DoubleQuote(idx)]);
                        assert(arg@ == ArgView { val: seq![], start: idx as int, end: idx as int + 1 });
                        assert(cur@.args =~= old_cur.args.push(arg@));
                        assert(cmd_views(done@).push(cur@) =~= push_arg(before.cmds, arg@));
                    }
                } else if c == '&' {
                    state.set(1, ParserState::And { count: 1 });
                    proof {
                        assert(state@ =~= seq![ParserState::Command, ParserState::And { count: 1 }]);
                    }
                } else {
                    state.set(1, ParserState::Args);
                    let mut v = String::new();
                    v.push(c);
                    let arg = Arg { val: v, range: Range { start: idx, end: idx + 1 } };
                    cur.args.push(arg);
                    proof {
                        assert(state@ =~= seq![ParserState::Command, ParserState::Args]);
                        assert(arg@.val =~= seq![c]);
                        assert(arg@ == ArgView { val: seq![c], start: idx as int, end: idx as int + 1 });
                        assert(cur@.args =~= old_cur.args.push(arg@));
                        assert(cmd_views(done@).push(cur@) =~= push_arg(before.cmds, arg@));
                    }
                }
            } else if n == 2 && state[0] == ParserState::Command && state[1] == ParserState::Args {
                proof {
                    assert(state@ =~= seq![ParserState::Command, ParserState::Args]);
                }
                if c == ' ' {
                    state.set(1, ParserState::Delimeter);
                    proof {
                        assert(state@ =~= seq![ParserState::Command, ParserState::Delimeter]);
                    }
                } else {
                    // extend the last argument
                    let mut a = cur.args.pop().unwrap();
                    a.val.push(c);
                    a.range.end = a.range.end + 1;
                    cur.args.push(a);
                    proof {
                        assert(cur.args@ =~= old_args.drop_last().push(a));
                        assert(cur@.args =~= old_cur.args.update(old_cur.args.len() - 1, a@));
                        assert(cmd_views(done@).push(cur@) =~= extend_arg(before.cmds, c));
                    }
                }
            } else if n == 2 && state[0] == ParserState::Command && state[1] == (ParserState::And {
                count: 1,
            }) {
                proof {
                    assert(state@ =~= seq![ParserState::Command, ParserState::And { count: 1 }]);
                }
                if c == '&' {
                    let finished = cur;
                    done.push(finished);
                    cur = Cmd::default();
                    state.clear();
                    proof {
                        assert(state@ =~= seq![]);
                        assert(cmd_views(done@) =~= before.cmds);
                        assert(cmd_views(done@).push(cur@) =~= before.cmds.push(empty_cmd()));
                    }
                } else {
                    proof {
                        lemma_fsm_stuck(chars@, (idx + 1) as nat, chars@.len());
                    }
                    return None;
                }
            } else if n == 3 && state[0] == ParserState::Command && state[1] == ParserState::Args
                && matches!(state[2], ParserState::DoubleQuote(_)) {
                if c == '"' {
                    state.pop();
                    proof {
                        assert(state@ =~= seq![ParserState::Command, ParserState::Args]);
                    }
                } else {
                    let mut a = cur.args.pop().unwrap();
                    a.val.push(c);
                    a.range.end = a.range.end + 1;
                    cur.args.push(a);
                    proof {
                        assert(cur.args@ =~= old_args.drop_last().push(a));
                        assert(cur@.args =~= old_cur.args.update(old_cur.args.len() - 1, a@));
                        assert(cmd_views(done@).push(cur@) =~= extend_arg(before.cmds, c));
                    }
                }
            } else {
                proof {
                    lemma_fsm_stuck(chars@, (idx + 1) as nat, chars@.len());
                }
                return None;
            }
            proof {
                assert(fsm_prefix(chars@, (idx + 1) as nat) == fsm_step(before, idx as nat, c));
            }
            idx = idx + 1;
        }
        let ghost run_cmds = cmd_views(done@).push(cur@);
        let ghost loop_cur = cur@;
        proof {
            assert(chars@.len() == idx);
            assert(fsm_run(input@) == Some(FsmState { stack: state@, cmds: run_cmds }));
        }
        let mut problems: Vec<ParseProblem> = Vec::new();
        let mut k: usize = 0;
        while k < state.len()
            invariant
                k <= state@.len(),
                problems@ == open_problems(state@.take(k as int)),
                cur.background == (exists|i: int|
                    0 <= i < k && state@[i] == (ParserState::And { count: 1 })),
                cur.rest_is_default(),
                cur@.name == loop_cur.name,
                cur@.args == loop_cur.args,
            decreases state.len() - k,
        {
            match state[k] {
                ParserState::SingleQuote(loc) => problems.push(ParseProblem::UnmatchedQuote(loc)),
                ParserState::DoubleQuote(loc) => problems.push(ParseProblem::UnmatchedQuote(loc)),
                ParserState::Command => {},
                ParserState::Args => {},
                ParserState::Delimeter => {},
                ParserState::And { count } => {
                    if count == 1 {
                        cur.background = true;
                    } else {
                        problems.push(ParseProblem::TrailingAnd);
                    }
                },
            }
            proof {
                assert(state@.take(k + 1).drop_last() =~= state@.take(k as int));
            }
            k = k + 1;
        }
        proof {
            assert(state@.take(state@.len() as int) =~= state@);
        }
        let ghost prior = done@;
        done.push(cur);
        proof {
            assert(cmd_views(done@) =~= cmd_views(prior).push(cur@));
            if ends_in_background(state@) {
                assert(cmd_views(done@) =~= set_background(run_cmds));
            } else {
                assert(cur@ == loop_cur);
                assert(cmd_views(done@) =~= run_cmds);
            }
        }
        Some(ParserOutput { input, commands: done, problems })
    }
}

/// What running one parsed command takes, as far as the shell decides it.
pub enum CommandPlan {
    /// The command is done, with this exit status.
    Done(i32),
    /// `cd` was given these arguments, more than one: the caller reports them, and the
    /// status is 1.
    TooManyCdArgs(Vec<String>),
    /// `cd` moved the working directory to this path: the caller makes it canonical and
    /// hands the canonical form to `finish_cd`; the status is then 0.
    ChangeDir(String),
    /// Run the program `name` with `args` in the directory `dir`.
    Run { name: String, args: Vec<String>, dir: String },
}

impl CommandPlan {
    /// The exit status the plan ends with where the shell knows it without running a
    /// program: `cd` home gives its status, `cd` with too many arguments gives 1, `cd`
    /// into a directory gives 0 once `finish_cd` has taken the canonical path; a program
    /// gives the status of its run.
    pub open spec fn planned_status(self) -> Option<i32> {
        match self {
            CommandPlan::Done(s) => Some(s),
            CommandPlan::TooManyCdArgs(_) => Some(1i32),
            CommandPlan::ChangeDir(_) => Some(0i32),
            CommandPlan::Run { .. } => None,
        }
    }

    /// The exit status of the plan, where no program has to run for it.
    pub fn status(&self) -> (s: Option<i32>)
        ensures
            s == self.planned_status(),
    {
        match self {
            CommandPlan::Done(s) => Some(*s),
            CommandPlan::TooManyCdArgs(_) => Some(1),
            CommandPlan::ChangeDir(_) => Some(0),
            CommandPlan::Run { .. } => None,
        }
    }
}

/// `post` is `pre` after `parse(execute)` gave `run`: the flag is set, the output is that
/// of the input (parsed again only where it was made from another one), nothing else
/// changed, and a line to be run gives a fresh run of the output's commands.
pub open spec fn parse_post(pre: Rush, post: Rush, execute: bool, run: Option<LineRun>) -> bool {
    &&& post.parser.execute == execute
    &&& post.parser.input == pre.parser.input
    &&& pre.parser.input@ != pre.parser.output.input@ ==> is_parse_of(
        post.parser.output,
        pre.parser.input@,
    )
    &&& pre.parser.input@ == pre.parser.output.input@ ==> post.parser.output == pre.parser.output
    &&& post.cursor == pre.cursor
    &&& post.history == pre.history
    &&& post.only_cursor_and_parser_changed(pre)
    &&& run is Some <==> execute
    &&& run matches Some(r) ==> {
        &&& r.wf()
        &&& r.next == 0
        &&& !r.stopped
        &&& cmd_views(r.commands@) == cmd_views(post.parser.output.commands@)
    }
}

/// Copies of `cmds`.
fn clone_cmds(cmds: &Vec<Cmd>) -> (r: Vec<Cmd>)
    ensures
        cmd_views(r@) == cmd_views(cmds@),
{
    let mut r: Vec<Cmd> = Vec::new();
    let mut i: usize = 0;
    while i < cmds.len()
        invariant
            i <= cmds@.len(),
            cmd_views(r@) == cmd_views(cmds@.take(i as int)),
        decreases cmds.len() - i,
    {
        r.push(cmds[i].clone());
        proof {
            assert(cmd_views(cmds@.take(i + 1)) =~= cmd_views(cmds@.take(i as int)).push(cmds@[i as int]@));
        }
        i = i + 1;
        proof {
            assert(cmd_views(r@) =~= cmd_views(cmds@.take(i as int)));
        }
    }
    proof {
        assert(cmds@.take(cmds@.len() as int) =~= cmds@);
    }
    r
}

/// How an attempt to run a program ended.
pub enum SpawnOutcome {
    /// It ran and exited, with a code unless a signal ended it.
    Exited(Option<i32>),
    /// No such program was found.
    NotFound,
    /// It could not be started for another reason.
    Failed,
}

/// The texts of a command's arguments.
pub open spec fn arg_vals(args: Seq<Arg>) -> Seq<Seq<char>> {
    args.map_values(|a: Arg| a.val@)
}

impl Rush {
    /// Runs the parser over the current input; the input must be one on which the parser
    /// does not give up.
    pub fn parse_fsm(&self) -> (out: ParserOutput)
        requires
            fsm_run(self.parser.input@) is Some,
        ensures
            is_parse_of(out, self.parser.input@),
    {
        self.try_parse_fsm().unwrap()
    }

    /// Records whether the line is to be run, and parses the input again where it is not
    /// the one the current output was made from. To run the line (`execute`) gives the
    /// run of its commands: the caller runs each command that `LineRun::next_command`
    /// hands out (through `command`) and reports its status, then calls `finish_line`.
    pub fn parse(&mut self, execute: bool) -> (run: Option<LineRun>)
        requires
            old(self).parser.input@ != old(self).parser.output.input@ ==> fsm_run(
                old(self).parser.input@,
            ) is Some,
        ensures
            parse_post(*old(self), *final(self), execute, run),
    {
        self.parser.execute = execute;
        if self.parser.input != self.parser.output.input {
            self.parser.output = self.parse_fsm();
        }
        if execute {
            Some(LineRun::new(clone_cmds(&self.parser.output.commands)))
        } else {
            None
        }
    }

    /// Decides what running `cmd` takes. `cd` is carried out here: with no arguments it
    /// goes home, with one it moves to the joined path (which `finish_cd` then replaces by
    /// its canonical form), with more it changes nothing. Any other name is a program to
    /// run in the working directory, whose status `spawn_status` gives. That status, or
    /// the planned one, goes to `LineRun::report`: the line goes on only after a 0.
    pub fn command(&mut self, cmd: Cmd) -> (plan: CommandPlan)
        ensures
            cmd.name@ == "cd"@ ==> {
                if cmd.args@.len() == 0 {
                    &&& plan == CommandPlan::Done(0)
                    &&& final(self).pwd == old(self).home
                } else if cmd.args@.len() == 1 {
                    &&& final(self).pwd@ == path_join(old(self).pwd@, cmd.args@[0].val@)
                    &&& plan matches CommandPlan::ChangeDir(p) && p@ == final(self).pwd@
                } else {
                    &&& final(self).pwd == old(self).pwd
                    &&& plan matches CommandPlan::TooManyCdArgs(v) && v@.map_values(
                        |a: String| a@,
                    ) == arg_vals(cmd.args@)
                }
            },
            cmd.name@ == "cd"@ ==> plan.planned_status() == Some(
                if cmd.args@.len() <= 1 {
                    0i32
                } else {
                    1i32
                },
            ),
            cmd.name@ != "cd"@ ==> plan.planned_status() is None,
            cmd.name@ != "cd"@ ==> {
                &&& final(self).pwd == old(self).pwd
                &&& plan matches CommandPlan::Run { name, args, dir } && name@ == cmd.name@
                    && args@.map_values(|a: String| a@) == arg_vals(cmd.args@) && dir@ == old(self).pwd@
            },
            final(self).parser == old(self).parser,
            final(self).cursor == old(self).cursor,
            final(self).history == old(self).history,
            final(self).cfg == old(self).cfg,
            final(self).mode == old(self).mode,
            final(self).home == old(self).home,
            final(self).suggest == old(self).suggest,
    {
        if str_eq(cmd.name.as_str(), "cd") {
            self.cd(cmd)
        } else {
            let args = arg_texts(&cmd.args);
            CommandPlan::Run { name: cmd.name, args, dir: self.pwd.clone() }
        }
    }

    fn cd(&mut self, cmd: Cmd) -> (plan: CommandPlan)
        ensures
            if cmd.args@.len() == 0 {
                &&& plan == CommandPlan::Done(0)
                &&& final(self).pwd == old(self).home
            } else if cmd.args@.len() == 1 {
                &&& final(self).pwd@ == path_join(old(self).pwd@, cmd.args@[0].val@)
                &&& plan matches CommandPlan::ChangeDir(p) && p@ == final(self).pwd@
            } else {
                &&& final(self).pwd == old(self).pwd
                &&& plan matches CommandPlan::TooManyCdArgs(v) && v@.map_values(|a: String| a@)
                    == arg_vals(cmd.args@)
            },
            final(self).parser == old(self).parser,
            final(self).cursor == old(self).cursor,
            final(self).history == old(self).history,
            final(self).cfg == old(self).cfg,
            final(self).mode == old(self).mode,
            final(self).home == old(self).home,
            final(self).suggest == old(self).suggest,
    {
        if cmd.args.len() == 0 {
            self.pwd = self.home.clone();
            CommandPlan::Done(0)
        } else if cmd.args.len() == 1 {
            self.pwd = path_push(&self.pwd, cmd.args[0].val.as_str());
            CommandPlan::ChangeDir(self.pwd.clone())
        } else {
            CommandPlan::TooManyCdArgs(arg_texts(&cmd.args))
        }
    }

    /// The exit status of a program run: its code, -1 when a signal ended it, 127 when it
    /// was not found, -2 when it could not be started.
    pub fn spawn_status(outcome: SpawnOutcome) -> (status: i32)
        ensures
            status == match outcome {
                SpawnOutcome::Exited(Some(code)) => code as int,
                SpawnOutcome::Exited(None) => -1int,
                SpawnOutcome::NotFound => 127int,
                SpawnOutcome::Failed => -2int,
            },
    {
        match outcome {
            SpawnOutcome::Exited(code) => match code {
                Some(c) => c,
                None => -1,
            },
            SpawnOutcome::NotFound => 127,
            SpawnOutcome::Failed => -2,
        }
    }
}

/// Copies of the texts of `args`.
fn arg_texts(args: &Vec<Arg>) -> (v: Vec<String>)
    ensures
        v@.map_values(|a: String| a@) == arg_vals(args@),
{
    let mut v: Vec<String> = Vec::new();
    let mut i: usize = 0;
    while i < args.len()
        invariant
            i <= args@.len(),
            v@.map_values(|a: String| a@) == arg_vals(args@.take(i as int)),
        decreases args.len() - i,
    {
        v.push(args[i].val.clone());
        proof {
            assert(arg_vals(args@.take(i + 1)) =~= arg_vals(args@.take(i as int)).push(args@[i as int].val@));
        }
        i = i + 1;
        proof {
            assert(v@.map_values(|a: String| a@) =~= arg_vals(args@.take(i as int)));
        }
    }
    proof {
        assert(args@.take(args@.len() as int) =~= args@);
    }
    v
}

/// The stack is one of the shapes the parser moves between.
pub open spec fn stack_shape_ok(stack: Seq<ParserState>) -> bool {
    ||| stack.len() == 0
    ||| stack =~= seq![ParserState::Command]
    ||| stack =~= seq![ParserState::Command, ParserState::Delimeter]
    ||| stack =~= seq![ParserState::Command, ParserState::Args]
    ||| stack =~= seq![ParserState::Command, ParserState::And { count: 1 }]
    ||| (stack.len() == 3 && stack[0] == ParserState::Command && stack[1] == ParserState::Args
        && stack[2] is DoubleQuote)
}

/// Every argument of `cmds` covers a non-empty range of the first `n` characters.
pub open spec fn arg_ranges_within(cmds: Seq<CmdView>, n: int) -> bool {
    forall|j: int, k: int|
        #![trigger cmds[j].args[k]]
        0 <= j < cmds.len() && 0 <= k < cmds[j].args.len() ==> 0 <= cmds[j].args[k].start
            < cmds[j].args[k].end <= n
}

/// What holds of the parser's state after `n` characters.
pub open spec fn fsm_state_ok(st: FsmState, n: int) -> bool {
    &&& st.cmds.len() > 0
    &&& stack_shape_ok(st.stack)
    &&& (st.stack.len() >= 2 && st.stack[1] == ParserState::Args ==> st.cmds.last().args.len() > 0)
    &&& arg_ranges_within(st.cmds, n)
}

proof fn lemma_fsm_state_ok(chars: Seq<char>, n: nat)
    requires
        n <= chars.len(),
    ensures
        fsm_prefix(chars, n) matches Some(st) ==> fsm_state_ok(st, n as int),
    decreases n,
{
    if n == 0 {
        assert(fsm_state_ok(initial_fsm(), 0));
    } else {
        let m = (n - 1) as nat;
        lemma_fsm_state_ok(chars, m);
        if let Some(st) = fsm_prefix(chars, m) {
            let c = chars[m as int];
            if let Some(next) = fsm_step(st, m, c) {
                let last = st.cmds.len() - 1;
                assert forall|j: int, k: int|
                    0 <= j < next.cmds.len() && 0 <= k < next.cmds[j].args.len() implies 0
                        <= #[trigger] next.cmds[j].args[k].start < next.cmds[j].args[k].end
                        <= n by {
                    if j < st.cmds.len() && j != last {
                        assert(next.cmds[j] == st.cmds[j]);
                        assert(st.cmds[j].args[k].end <= m);
                    } else if j == last && k < st.cmds[last].args.len() {
                        let a = st.cmds[last].args[k];
                        assert(a.start < a.end <= m);
                    }
                }
            }
        }
    }
}

/// Every argument the parser records covers a non-empty range of the input, and there
/// is always at least one command.
pub proof fn law_arg_ranges_within_input(input: Seq<char>)
    requires
        fsm_run(input) is Some,
    ensures
        parsed_commands(input).len() > 0,
        arg_ranges_within(parsed_commands(input), input.len() as int),
{
    lemma_fsm_state_ok(input, input.len());
    let st = fsm_run(input).unwrap();
    if ends_in_background(st.stack) {
        let cmds = set_background(st.cmds);
        assert forall|j: int, k: int|
            0 <= j < cmds.len() && 0 <= k < cmds[j].args.len() implies 0
                <= #[trigger] cmds[j].args[k].start < cmds[j].args[k].end <= input.len() by {
            assert(cmds[j].args == st.cmds[j].args);
        }
    }
}


/// `s` with the character index it holds moved `off` places on.
pub open spec fn shift_mode(s: ParserState, off: nat) -> ParserState {
    match s {
        ParserState::SingleQuote(i) => ParserState::SingleQuote((i + off) as usize),
        ParserState::DoubleQuote(i) => ParserState::DoubleQuote((i + off) as usize),
        _ => s,
    }
}

/// `stack` with the character index of every open quote moved `off` places on.
pub open spec fn shift_stack(stack: Seq<ParserState>, off: nat) -> Seq<ParserState> {
    stack.map_values(|s: ParserState| shift_mode(s, off))
}

/// `a` with its range moved `off` characters on.
pub open spec fn shift_arg(a: ArgView, off: nat) -> ArgView {
    ArgView { val: a.val, start: a.start + off, end: a.end + off }
}

/// `c` with its arguments' ranges moved `off` characters on.
pub open spec fn shift_cmd(c: CmdView, off: nat) -> CmdView {
    CmdView {
        name: c.name,
        args: c.args.map_values(|a: ArgView| shift_arg(a, off)),
        background: c.background,
    }
}

/// `cmds` with every argument's range moved `off` characters on.
pub open spec fn shift_cmds(cmds: Seq<CmdView>, off: nat) -> Seq<CmdView> {
    cmds.map_values(|c: CmdView| shift_cmd(c, off))
}

/// `p` with the position it reports moved `off` characters on.
pub open spec fn shift_problem(p: ParseProblem, off: nat) -> ParseProblem {
    match p {
        ParseProblem::UnmatchedQuote(i) => ParseProblem::UnmatchedQuote((i + off) as usize),
        ParseProblem::TrailingAnd => ParseProblem::TrailingAnd,
    }
}

/// `problems` with every position moved `off` characters on.
pub open spec fn shift_problems(problems: Seq<ParseProblem>, off: nat) -> Seq<ParseProblem> {
    problems.map_values(|p: ParseProblem| shift_problem(p, off))
}

/// `st` as it stands after `before`, `off` characters further on.
pub open spec fn relocate(st: FsmState, before: Seq<CmdView>, off: nat) -> FsmState {
    FsmState { stack: shift_stack(st.stack, off), cmds: before + shift_cmds(st.cmds, off) }
}

/// Two inputs that agree on their first `m` characters leave the parser in one state
/// after them.
proof fn lemma_prefix_agrees(u: Seq<char>, v: Seq<char>, m: nat)
    requires
        m <= u.len(),
        m <= v.len(),
        forall|i: int| 0 <= i < m ==> u[i] == v[i],
    ensures
        fsm_prefix(u, m) == fsm_prefix(v, m),
    decreases m,
{
    if m > 0 {
        lemma_prefix_agrees(u, v, (m - 1) as nat);
    }
}

/// Editing the last command commutes with relocating the commands after `before`.
proof fn lemma_edits_relocate(before: Seq<CmdView>, q: Seq<CmdView>, off: nat, c: char, a: ArgView)
    requires
        q.len() > 0,
    ensures
        push_name(before + shift_cmds(q, off), c) == before + shift_cmds(push_name(q, c), off),
        push_arg(before + shift_cmds(q, off), shift_arg(a, off)) == before + shift_cmds(
            push_arg(q, a),
            off,
        ),
        q.last().args.len() > 0 ==> extend_arg(before + shift_cmds(q, off), c) == before
            + shift_cmds(extend_arg(q, c), off),
        (before + shift_cmds(q, off)).push(empty_cmd()) == before + shift_cmds(
            q.push(empty_cmd()),
            off,
        ),
        set_background(before + shift_cmds(q, off)) == before + shift_cmds(set_background(q), off),
{
    let l = q.len() - 1;
    let s = before + shift_cmds(q, off);
    let k = s.len() - 1;
    assert(s[k] == shift_cmd(q[l], off));
    assert(push_name(s, c) =~= before + shift_cmds(push_name(q, c), off)) by {
        let n = CmdView { name: q[l].name.push(c), args: q[l].args, background: q[l].background };
        assert(push_name(q, c)[l] == n);
    }
    assert(push_arg(s, shift_arg(a, off)) =~= before + shift_cmds(push_arg(q, a), off)) by {
        let n = CmdView { name: q[l].name, args: q[l].args.push(a), background: q[l].background };
        assert(push_arg(q, a)[l] == n);
        assert(shift_cmd(n, off).args =~= s[k].args.push(shift_arg(a, off)));
    }
    if q.last().args.len() > 0 {
        assert(extend_arg(s, c) =~= before + shift_cmds(extend_arg(q, c), off)) by {
            let args = q[l].args;
            let x = args.last();
            let n = CmdView {
                name: q[l].name,
                args: args.update(args.len() - 1, ArgView { val: x.val.push(c), start: x.start, end: x.end + 1 }),
                background: q[l].background,
            };
            assert(extend_arg(q, c)[l] == n);
            let sargs = s[k].args;
            let y = sargs.last();
            assert(y == shift_arg(x, off));
            assert(shift_cmd(n, off).args =~= sargs.update(
                sargs.len() - 1,
                ArgView { val: y.val.push(c), start: y.start, end: y.end + 1 },
            ));
        }
    }
    assert(s.push(empty_cmd()) =~= before + shift_cmds(q.push(empty_cmd()), off)) by {
        assert(shift_cmd(empty_cmd(), off).args =~= empty_cmd().args);
        assert(shift_cmd(empty_cmd(), off) == empty_cmd());
    }
    assert(set_background(s) =~= before + shift_cmds(set_background(q), off)) by {
        let n = CmdView { name: q[l].name, args: q[l].args, background: true };
        assert(set_background(q)[l] == n);
    }
}

/// One step of the parser commutes with relocating its state.
proof fn lemma_step_relocates(st: FsmState, before: Seq<CmdView>, off: nat, idx: nat, c: char)
    requires
        st.cmds.len() > 0,
        stack_shape_ok(st.stack),
        st.stack.len() >= 2 && st.stack[1] == ParserState::Args ==> st.cmds.last().args.len() > 0,
        idx + off <= usize::MAX,
    ensures
        match fsm_step(st, idx, c) {
            Some(r) => fsm_step(relocate(st, before, off), idx + off, c) == Some(
                relocate(r, before, off),
            ),
            None => fsm_step(relocate(st, before, off), idx + off, c) is None,
        },
{
    let rs = relocate(st, before, off);
    let stack = st.stack;
    let moved = rs.stack;
    let quoted = ArgView { val: seq![], start: idx as int, end: idx as int + 1 };
    let plain = ArgView { val: seq![c], start: idx as int, end: idx as int + 1 };
    lemma_edits_relocate(before, st.cmds, off, c, quoted);
    lemma_edits_relocate(before, st.cmds, off, c, plain);
    assert(shift_arg(quoted, off) == ArgView {
        val: seq![],
        start: (idx + off) as int,
        end: (idx + off) as int + 1,
    });
    assert(shift_arg(plain, off) == ArgView {
        val: seq![c],
        start: (idx + off) as int,
        end: (idx + off) as int + 1,
    });
    let cd = seq![ParserState::Command, ParserState::Delimeter];
    let ca = seq![ParserState::Command, ParserState::Args];
    let c1 = seq![ParserState::Command, ParserState::And { count: 1 }];
    assert(shift_stack(cd, off) =~= cd);
    assert(shift_stack(ca, off) =~= ca);
    assert(shift_stack(c1, off) =~= c1);
    assert(shift_stack(seq![], off) =~= seq![]);
    if stack.len() == 0 {
        assert(moved.len() == 0);
        assert(shift_stack(seq![ParserState::Command], off) =~= seq![ParserState::Command]);
    } else if stack =~= seq![ParserState::Command] {
        assert(moved =~= seq![ParserState::Command]);
    } else if stack =~= cd {
        assert(moved =~= cd);
        let dq = seq![ParserState::Command, ParserState::Args, ParserState::DoubleQuote(idx as usize)];
        assert(shift_stack(dq, off) =~= seq![
            ParserState::Command,
            ParserState::Args,
            ParserState::DoubleQuote((idx + off) as usize),
        ]);
    } else if stack =~= ca {
        assert(moved =~= ca);
    } else if stack =~= c1 {
        assert(moved =~= c1);
    } else {
        assert(stack.len() == 3 && stack[0] == ParserState::Command && stack[1] == ParserState::Args
            && stack[2] is DoubleQuote);
        assert(moved.len() == 3 && moved[0] == ParserState::Command && moved[1] == ParserState::Args
            && moved[2] is DoubleQuote);
    }
}

/// Once the parser stands at the start of a new command after `before`, following the
/// first `k` characters, it parses the rest as if it stood alone, `k` places on.
proof fn lemma_rest_relocates(chars: Seq<char>, k: nat, before: Seq<CmdView>, rest: Seq<char>, n: nat)
    requires
        k + rest.len() == chars.len(),
        chars.len() <= usize::MAX,
        forall|i: int| 0 <= i < rest.len() ==> chars[k + i] == rest[i],
        fsm_prefix(chars, k) == Some(FsmState { stack: seq![], cmds: before.push(empty_cmd()) }),
        n <= rest.len(),
    ensures
        match fsm_prefix(rest, n) {
            Some(r) => fsm_prefix(chars, k + n) == Some(relocate(r, before, k)),
            None => fsm_prefix(chars, k + n) is None,
        },
    decreases n,
{
    if n == 0 {
        let start = initial_fsm();
        assert(shift_cmd(empty_cmd(), k).args =~= empty_cmd().args);
        assert(shift_cmds(start.cmds, k) =~= seq![empty_cmd()]);
        assert(before + shift_cmds(start.cmds, k) =~= before.push(empty_cmd()));
        assert(shift_stack(start.stack, k) =~= seq![]);
    } else {
        let m = (n - 1) as nat;
        lemma_rest_relocates(chars, k, before, rest, m);
        lemma_fsm_state_ok(rest, m);
        assert(chars[(k + m) as int] == rest[m as int]);
        if let Some(r) = fsm_prefix(rest, m) {
            lemma_step_relocates(r, before, k, m, rest[m as int]);
        }
    }
}

/// The problems of a stack moved `off` places on are its problems moved as far.
proof fn lemma_problems_shift(stack: Seq<ParserState>, off: nat)
    ensures
        open_problems(shift_stack(stack, off)) == shift_problems(open_problems(stack), off),
    decreases stack.len(),
{
    if stack.len() > 0 {
        lemma_problems_shift(stack.drop_last(), off);
        let l = stack.last();
        assert(shift_stack(stack, off).drop_last() =~= shift_stack(stack.drop_last(), off));
        assert(shift_stack(stack, off).last() == shift_mode(l, off));
        assert(problem_of(shift_mode(l, off)) =~= shift_problems(problem_of(l), off));
        assert(shift_problems(open_problems(stack.drop_last()) + problem_of(l), off)
            =~= shift_problems(open_problems(stack.drop_last()), off) + shift_problems(problem_of(l), off));
    }
}

/// Moving a stack's positions does not change whether it sends a command to the
/// background.
proof fn lemma_background_shift(stack: Seq<ParserState>, off: nat)
    ensures
        ends_in_background(shift_stack(stack, off)) == ends_in_background(stack),
{
    let moved = shift_stack(stack, off);
    if ends_in_background(stack) {
        let i = choose|i: int| 0 <= i < stack.len() && stack[i] == (ParserState::And { count: 1 });
        assert(moved[i] == (ParserState::And { count: 1 }));
    }
    if ends_in_background(moved) {
        let i = choose|i: int| 0 <= i < moved.len() && moved[i] == (ParserState::And { count: 1 });
        assert(moved[i] == shift_mode(stack[i], off));
        assert(stack[i] == (ParserState::And { count: 1 }));
    }
}

/// Joining two lines with ` && ` joins their commands. Where the first line ends inside
/// a command's name or an unquoted argument, the joined line gives the first line's
/// commands followed by the second line's, whose ranges and problems move past the first
/// line and the ` && `.
pub proof fn law_and_joins_commands(s1: Seq<char>, s2: Seq<char>)
    requires
        fsm_run(s1) matches Some(st) && (st.stack =~= seq![ParserState::Command] || st.stack
            =~= seq![ParserState::Command, ParserState::Args]),
        fsm_run(s2) is Some,
        s1.len() + 4 + s2.len() <= usize::MAX,
    ensures
        fsm_run(s1 + seq![' ', '&', '&', ' '] + s2) is Some,
        parsed_commands(s1 + seq![' ', '&', '&', ' '] + s2) == parsed_commands(s1) + shift_cmds(
            parsed_commands(s2),
            s1.len() + 4,
        ),
        parsed_problems(s1 + seq![' ', '&', '&', ' '] + s2) == shift_problems(
            parsed_problems(s2),
            s1.len() + 4,
        ),
{
    let and = seq![' ', '&', '&', ' '];
    let j = s1 + and + s2;
    let k1 = s1.len();
    let ki = k1 as int;
    let st = fsm_run(s1).unwrap();
    lemma_prefix_agrees(s1, j, k1);
    assert(j[ki] == ' ' && j[ki + 1] == '&' && j[ki + 2] == '&' && j[ki + 3] == ' ');
    let cd = seq![ParserState::Command, ParserState::Delimeter];
    let c1 = seq![ParserState::Command, ParserState::And { count: 1 }];
    assert(fsm_prefix(j, k1 + 1) == Some(FsmState { stack: cd, cmds: st.cmds }));
    assert(fsm_prefix(j, k1 + 2) == Some(FsmState { stack: c1, cmds: st.cmds }));
    assert(fsm_prefix(j, k1 + 3) == Some(FsmState { stack: seq![], cmds: st.cmds.push(empty_cmd()) }));
    assert(fsm_prefix(j, k1 + 4) == Some(FsmState { stack: seq![], cmds: st.cmds.push(empty_cmd()) }));
    assert forall|i: int| 0 <= i < s2.len() implies j[ki + 4 + i] == s2[i] by {}
    lemma_rest_relocates(j, k1 + 4, st.cmds, s2, s2.len());
    let r2 = fsm_run(s2).unwrap();
    assert(fsm_run(j) == Some(relocate(r2, st.cmds, k1 + 4)));
    lemma_fsm_state_ok(s2, s2.len());
    lemma_edits_relocate(st.cmds, r2.cmds, k1 + 4, ' ', ArgView { val: seq![], start: 0, end: 0 });
    lemma_background_shift(r2.stack, k1 + 4);
    lemma_problems_shift(r2.stack, k1 + 4);
    assert(!ends_in_background(st.stack));
}

/// `cmds` with `t` appended to the last argument of the last command, its range widened
/// by as many characters.
pub open spec fn append_to_arg(cmds: Seq<CmdView>, t: Seq<char>) -> Seq<CmdView> {
    let last = cmds.len() - 1;
    let args = cmds[last].args;
    let a = args.last();
    cmds.update(
        last,
        CmdView {
            name: cmds[last].name,
            args: args.update(args.len() - 1, ArgView { val: a.val + t, start: a.start, end: a.end + t.len() }),
            background: cmds[last].background,
        },
    )
}

/// The texts of a command's arguments.
pub open spec fn arg_texts_of(c: CmdView) -> Seq<Seq<char>> {
    c.args.map_values(|a: ArgView| a.val)
}

proof fn lemma_append_to_arg_step(cmds: Seq<CmdView>, t: Seq<char>, c: char)
    requires
        cmds.len() > 0,
        cmds.last().args.len() > 0,
    ensures
        append_to_arg(cmds, t).len() == cmds.len(),
        append_to_arg(cmds, t).last().args.len() == cmds.last().args.len(),
        extend_arg(append_to_arg(cmds, t), c) == append_to_arg(cmds, t.push(c)),
{
    let l = cmds.len() - 1;
    let x = append_to_arg(cmds, t);
    let args = cmds[l].args;
    let xa = x[l].args;
    assert(x.last() == x[l]);
    assert(xa.last() == xa[xa.len() - 1]);
    let a = args.last();
    let y = extend_arg(x, c);
    let z = append_to_arg(cmds, t.push(c));
    assert(y[l].args =~= z[l].args) by {
        assert((a.val + t).push(c) =~= a.val + t.push(c));
    }
    assert(y =~= z);
}

/// Inside an argument, characters other than the one that ends it (a space, or the
/// closing quote inside quotes) are appended to it.
proof fn lemma_inside_arg(chars: Seq<char>, k: nat, n: nat, st: FsmState, stop: char)
    requires
        fsm_prefix(chars, k) == Some(st),
        st.cmds.len() > 0,
        st.cmds.last().args.len() > 0,
        (st.stack =~= seq![ParserState::Command, ParserState::Args] && stop == ' ') || (st.stack.len()
            == 3 && st.stack[0] == ParserState::Command && st.stack[1] == ParserState::Args
            && st.stack[2] is DoubleQuote && stop == '"'),
        k + n <= chars.len(),
        forall|i: int| k <= i < k + n ==> chars[i] != stop,
    ensures
        fsm_prefix(chars, k + n) == Some(
            FsmState { stack: st.stack, cmds: append_to_arg(st.cmds, chars.subrange(k as int, (k + n) as int)) },
        ),
    decreases n,
{
    if n == 0 {
        let l = st.cmds.len() - 1;
        let args = st.cmds[l].args;
        assert(chars.subrange(k as int, k as int) =~= Seq::<char>::empty());
        assert(args.last().val + Seq::<char>::empty() =~= args.last().val);
        assert(append_to_arg(st.cmds, Seq::<char>::empty())[l].args =~= args);
        assert(append_to_arg(st.cmds, Seq::<char>::empty()) =~= st.cmds);
    } else {
        let m = (n - 1) as nat;
        lemma_inside_arg(chars, k, m, st, stop);
        let t = chars.subrange(k as int, (k + m) as int);
        let c = chars[(k + m) as int];
        assert(c != stop);
        lemma_append_to_arg_step(st.cmds, t, c);
        assert(chars.subrange(k as int, (k + n) as int) =~= t.push(c));
    }
}

/// ` "q" w` after `s`.
pub open spec fn quoted_then_word(s: Seq<char>, q: Seq<char>, w: Seq<char>) -> Seq<char> {
    s + seq![' ', '"'] + q + seq!['"', ' '] + w
}

/// A double-quoted argument ends at its closing quote, and the parser then stands as
/// after an unquoted argument. On a line `s` that ends inside a command's name or an
/// unquoted argument, adding ` "q"` (with no quote in `q`) leaves the parser inside an
/// argument; adding then ` w` (a word with no space, quote or `&`) gives the commands of
/// `s` with the arguments `q` and `w` added to the last one, and no problem.
pub proof fn law_quoted_argument_then_word(s: Seq<char>, q: Seq<char>, w: Seq<char>)
    requires
        fsm_run(s) matches Some(st) && (st.stack =~= seq![ParserState::Command] || st.stack
            =~= seq![ParserState::Command, ParserState::Args]),
        !q.contains('"'),
        w.len() > 0,
        !w.contains(' '),
        !w.contains('"'),
        !w.contains('&'),
        s.len() + q.len() + w.len() + 4 <= usize::MAX,
    ensures
        fsm_run(s + seq![' ', '"'] + q + seq!['"']) matches Some(t) && t.stack == seq![
            ParserState::Command,
            ParserState::Args,
        ],
        fsm_run(quoted_then_word(s, q, w)) is Some,
        parsed_commands(quoted_then_word(s, q, w)).len() == parsed_commands(s).len(),
        parsed_commands(quoted_then_word(s, q, w)).drop_last() == parsed_commands(s).drop_last(),
        parsed_commands(quoted_then_word(s, q, w)).last().name == parsed_commands(s).last().name,
        arg_texts_of(parsed_commands(quoted_then_word(s, q, w)).last()) == arg_texts_of(
            parsed_commands(s).last(),
        ) + seq![q, w],
        parsed_commands(quoted_then_word(s, q, w)).last().background == parsed_commands(
            s,
        ).last().background,
        parsed_problems(quoted_then_word(s, q, w)).len() == 0,
{
    let j = quoted_then_word(s, q, w);
    let k = s.len();
    let ki = k as int;
    let qn = q.len() as int;
    let st = fsm_run(s).unwrap();
    lemma_fsm_state_ok(s, k);
    let p = st.cmds;
    let l = p.len() - 1;
    lemma_prefix_agrees(s, j, k);
    assert(j[ki] == ' ' && j[ki + 1] == '"');
    assert forall|i: int| 0 <= i < qn implies j[ki + 2 + i] == q[i] by {}
    assert(j[ki + 2 + qn] == '"' && j[ki + 3 + qn] == ' ');
    assert forall|i: int| 0 <= i < w.len() implies j[ki + 4 + qn + i] == w[i] by {}
    let cd = seq![ParserState::Command, ParserState::Delimeter];
    let ca = seq![ParserState::Command, ParserState::Args];
    let dq = seq![ParserState::Command, ParserState::Args, ParserState::DoubleQuote((k + 1) as usize)];
    // the space, then the opening quote
    assert(fsm_prefix(j, k + 1) == Some(FsmState { stack: cd, cmds: p }));
    let p2 = push_arg(p, ArgView { val: seq![], start: ki + 1, end: ki + 2 });
    assert(fsm_prefix(j, k + 2) == Some(FsmState { stack: dq, cmds: p2 }));
    // the quoted text
    assert(p2.last().args.len() > 0) by {
        assert(p2.last() == p2[l]);
    }
    assert forall|i: int| ki + 2 <= i < ki + 2 + qn implies j[i] != '"' by {
        assert(j[i] == q[i - ki - 2]);
        if q[i - ki - 2] == '"' {
            assert(q.contains('"'));
        }
    }
    lemma_inside_arg(j, k + 2, q.len(), FsmState { stack: dq, cmds: p2 }, '"');
    assert(j.subrange(ki + 2, ki + 2 + qn) =~= q);
    let p3 = append_to_arg(p2, q);
    let kq = (k + 2 + q.len()) as nat;
    assert(fsm_prefix(j, kq) == Some(FsmState { stack: dq, cmds: p3 }));
    // the closing quote, then the space
    assert(fsm_prefix(j, kq + 1) == Some(FsmState { stack: ca, cmds: p3 }));
    let half = s + seq![' ', '"'] + q + seq!['"'];
    assert forall|i: int| 0 <= i < kq + 1 implies half[i] == j[i] by {}
    lemma_prefix_agrees(half, j, kq + 1);
    assert(half.len() == kq + 1);
    assert(fsm_prefix(j, kq + 2) == Some(FsmState { stack: cd, cmds: p3 }));
    // the word
    let w0 = w[0];
    assert(w0 != '"' && w0 != '&' && w0 != ' ') by {
        assert(w.contains(w0));
    }
    let ks = kq + 2;
    let ksi = ks as int;
    let p4 = push_arg(p3, ArgView { val: seq![w0], start: ksi, end: ksi + 1 });
    assert(j[ks as int] == w0);
    assert(fsm_prefix(j, ks + 1) == Some(FsmState { stack: ca, cmds: p4 }));
    let rest = w.drop_first();
    assert(p4.last().args.len() > 0) by {
        assert(p4.last() == p4[l]);
    }
    assert forall|i: int| ksi + 1 <= i < ksi + 1 + rest.len() implies j[i] != ' ' by {
        assert(j[i] == w[i - ksi]);
        if w[i - ksi] == ' ' {
            assert(w.contains(' '));
        }
    }
    lemma_inside_arg(j, ks + 1, rest.len(), FsmState { stack: ca, cmds: p4 }, ' ');
    assert(j.subrange(ksi + 1, ksi + 1 + rest.len()) =~= rest);
    assert(j.len() == ks + 1 + rest.len());
    let p5 = append_to_arg(p4, rest);
    assert(fsm_run(j) == Some(FsmState { stack: ca, cmds: p5 }));
    // what the commands are
    assert(!ends_in_background(st.stack));
    assert(!ends_in_background(ca));
    assert(parsed_commands(j) == p5);
    assert(parsed_commands(s) == p);
    let old_args = p[l].args;
    let aq = ArgView { val: q, start: ki + 1, end: ki + 2 + qn };
    let aw = ArgView { val: w, start: ksi, end: ksi + 1 + rest.len() };
    assert(p2[l].args == old_args.push(ArgView { val: seq![], start: ki + 1, end: ki + 2 }));
    assert(p3[l].args =~= old_args.push(aq)) by {
        assert(p2[l].args.last() == ArgView { val: seq![], start: ki + 1, end: ki + 2 });
        assert(Seq::<char>::empty() + q =~= q);
    }
    assert(p4[l].args == old_args.push(aq).push(ArgView { val: seq![w0], start: ksi, end: ksi + 1 }));
    assert(p5[l].args =~= old_args.push(aq).push(aw)) by {
        assert(seq![w0] + rest =~= w);
    }
    assert(p5.drop_last() =~= p.drop_last());
    assert(p5.last() == p5[l]);
    assert(arg_texts_of(p5[l]) =~= arg_texts_of(p[l]) + seq![q, w]);
    reveal_with_fuel(open_problems, 3);
    assert(ca.drop_last() =~= seq![ParserState::Command]);
    assert(seq![ParserState::Command].drop_last() =~= Seq::<ParserState>::empty());
}

/// `cmds` with `t` appended to the name of the last command.
pub open spec fn append_to_name(cmds: Seq<CmdView>, t: Seq<char>) -> Seq<CmdView> {
    let last = cmds.len() - 1;
    cmds.update(
        last,
        CmdView { name: cmds[last].name + t, args: cmds[last].args, background: cmds[last].background },
    )
}

/// Inside a command's name, characters other than a space or `=` are appended to it.
proof fn lemma_inside_name(chars: Seq<char>, k: nat, n: nat, st: FsmState)
    requires
        fsm_prefix(chars, k) == Some(st),
        st.cmds.len() > 0,
        st.stack =~= seq![ParserState::Command],
        k + n <= chars.len(),
        forall|i: int| k <= i < k + n ==> chars[i] != ' ' && chars[i] != '=',
    ensures
        fsm_prefix(chars, k + n) == Some(
            FsmState { stack: st.stack, cmds: append_to_name(st.cmds, chars.subrange(k as int, (k + n) as int)) },
        ),
    decreases n,
{
    let l = st.cmds.len() - 1;
    if n == 0 {
        assert(chars.subrange(k as int, k as int) =~= Seq::<char>::empty());
        assert(st.cmds[l].name + Seq::<char>::empty() =~= st.cmds[l].name);
        assert(append_to_name(st.cmds, Seq::<char>::empty()) =~= st.cmds);
    } else {
        let m = (n - 1) as nat;
        lemma_inside_name(chars, k, m, st);
        let t = chars.subrange(k as int, (k + m) as int);
        let c = chars[(k + m) as int];
        let x = append_to_name(st.cmds, t);
        assert(x.last() == x[l]);
        assert(push_name(x, c) =~= append_to_name(st.cmds, t.push(c))) by {
            assert((st.cmds[l].name + t).push(c) =~= st.cmds[l].name + t.push(c));
        }
        assert(chars.subrange(k as int, (k + n) as int) =~= t.push(c));
    }
}

/// The words `ws` with one space between each two.
pub open spec fn join_words(ws: Seq<Seq<char>>) -> Seq<char>
    decreases ws.len(),
{
    if ws.len() <= 1 {
        if ws.len() == 1 {
            ws[0]
        } else {
            seq![]
        }
    } else {
        join_words(ws.drop_last()) + seq![' '] + ws.last()
    }
}

/// The words can stand on a line of their own: none is empty or holds a space, a quote
/// or `&`, and the first holds no `=`.
pub open spec fn plain_words(ws: Seq<Seq<char>>) -> bool {
    &&& ws.len() >= 1
    &&& forall|i: int|
        0 <= i < ws.len() ==> (#[trigger] ws[i]).len() > 0 && !ws[i].contains(' ') && !ws[i].contains('"')
            && !ws[i].contains('&')
    &&& !ws[0].contains('=')
}

proof fn lemma_join_words_len(ws: Seq<Seq<char>>, m: int)
    requires
        1 <= m <= ws.len(),
    ensures
        join_words(ws.take(m)).len() <= join_words(ws).len(),
    decreases ws.len(),
{
    if m < ws.len() {
        assert(ws.drop_last().take(m) =~= ws.take(m));
        lemma_join_words_len(ws.drop_last(), m);
    } else {
        assert(ws.take(m) =~= ws);
    }
}

/// After the first `m` plain words, the parser stands inside the one command they make.
proof fn lemma_words_prefix(ws: Seq<Seq<char>>, m: int)
    requires
        plain_words(ws),
        1 <= m <= ws.len(),
        join_words(ws).len() <= usize::MAX,
    ensures
        fsm_run(join_words(ws.take(m))) matches Some(st) && {
            &&& st.stack =~= (if m == 1 {
                seq![ParserState::Command]
            } else {
                seq![ParserState::Command, ParserState::Args]
            })
            &&& st.cmds.len() == 1
            &&& st.cmds[0].name == ws[0]
            &&& arg_texts_of(st.cmds[0]) == ws.take(m).drop_first()
            &&& !st.cmds[0].background
            &&& (m > 1 ==> st.cmds[0].args.len() > 0)
        },
    decreases m,
{
    lemma_join_words_len(ws, m);
    let line = join_words(ws.take(m));
    if m == 1 {
        let w = ws[0];
        assert(line == w) by {
            assert(ws.take(1).len() == 1);
        }
        let c0 = w[0];
        assert(c0 != ' ' && c0 != '=') by {
            assert(w.contains(c0));
        }
        let init = initial_fsm();
        assert(fsm_prefix(line, 1) == Some(FsmState { stack: seq![ParserState::Command], cmds: push_name(init.cmds, c0) }));
        let st1 = FsmState { stack: seq![ParserState::Command], cmds: push_name(init.cmds, c0) };
        assert forall|i: int| 1 <= i < 1 + (w.len() - 1) implies line[i] != ' ' && line[i] != '=' by {
            assert(w.contains(w[i]));
        }
        lemma_inside_name(line, 1, (w.len() - 1) as nat, st1);
        let rest = line.subrange(1, w.len() as int);
        assert(st1.cmds[0].name + rest =~= w);
        assert(arg_texts_of(append_to_name(st1.cmds, rest)[0]) =~= ws.take(1).drop_first());
    } else {
        lemma_words_prefix(ws, m - 1);
        let prev = join_words(ws.take(m - 1));
        let st = fsm_run(prev).unwrap();
        let w = ws[m - 1];
        assert(ws.take(m).drop_last() =~= ws.take(m - 1));
        assert(line == prev + seq![' '] + w);
        let k = prev.len();
        let ki = k as int;
        lemma_prefix_agrees(prev, line, k);
        assert(line[k as int] == ' ');
        let cd = seq![ParserState::Command, ParserState::Delimeter];
        let ca = seq![ParserState::Command, ParserState::Args];
        assert(fsm_prefix(line, k + 1) == Some(FsmState { stack: cd, cmds: st.cmds }));
        let c0 = w[0];
        assert(c0 != '"' && c0 != '&' && c0 != ' ') by {
            assert(w.contains(c0));
        }
        assert(line[ki + 1] == c0);
        let a0 = ArgView { val: seq![c0], start: ki + 1, end: ki + 2 };
        let p4 = push_arg(st.cmds, a0);
        assert(fsm_prefix(line, k + 2) == Some(FsmState { stack: ca, cmds: p4 }));
        assert(p4.last().args.len() > 0) by {
            assert(p4.last() == p4[0]);
        }
        assert forall|i: int| k + 2 <= i < k + 2 + (w.len() - 1) implies line[i] != ' ' by {
            assert(line[i] == w[i - k - 1]);
            assert(w.contains(w[i - k - 1]));
        }
        lemma_inside_arg(line, k + 2, (w.len() - 1) as nat, FsmState { stack: ca, cmds: p4 }, ' ');
        let rest = line.subrange(ki + 2, ki + 1 + w.len());
        assert(rest =~= w.drop_first());
        assert(line.len() == k + 1 + w.len());
        let p5 = append_to_arg(p4, rest);
        assert(fsm_run(line) == Some(FsmState { stack: ca, cmds: p5 }));
        assert(p5[0].args =~= st.cmds[0].args.push(ArgView { val: w, start: ki + 1, end: ki + 1 + w.len() })) by {
            assert(seq![c0] + rest =~= w);
        }
        assert(arg_texts_of(p5[0]) =~= arg_texts_of(st.cmds[0]).push(w));
        assert(ws.take(m).drop_first() =~= ws.take(m - 1).drop_first().push(w));
    }
}

/// A line of plain words separated by single spaces is one command: the first word
/// names it and the others are its arguments, in order; nothing runs in the background
/// and no problem is reported.
pub proof fn law_words_make_one_command(ws: Seq<Seq<char>>)
    requires
        plain_words(ws),
        join_words(ws).len() <= usize::MAX,
    ensures
        fsm_run(join_words(ws)) is Some,
        parsed_commands(join_words(ws)).len() == 1,
        parsed_commands(join_words(ws))[0].name == ws[0],
        arg_texts_of(parsed_commands(join_words(ws))[0]) == ws.drop_first(),
        !parsed_commands(join_words(ws))[0].background,
        parsed_problems(join_words(ws)).len() == 0,
{
    lemma_words_prefix(ws, ws.len() as int);
    assert(ws.take(ws.len() as int) =~= ws);
    let st = fsm_run(join_words(ws)).unwrap();
    assert(!ends_in_background(st.stack));
    reveal_with_fuel(open_problems, 3);
    assert(seq![ParserState::Command, ParserState::Args].drop_last() =~= seq![ParserState::Command]);
    assert(seq![ParserState::Command].drop_last() =~= Seq::<ParserState>::empty());
}

/// A single `&` at the end of a line sends its last command to the background. On a
/// line `s` that ends inside a command's name or an unquoted argument, `s` followed by
/// ` &` has the commands of `s`, the last one in the background, and no problem.
pub proof fn law_trailing_ampersand_backgrounds(s: Seq<char>)
    requires
        fsm_run(s) matches Some(st) && (st.stack =~= seq![ParserState::Command] || st.stack
            =~= seq![ParserState::Command, ParserState::Args]),
        s.len() + 2 <= usize::MAX,
    ensures
        fsm_run(s + seq![' ', '&']) is Some,
        parsed_commands(s + seq![' ', '&']).len() == parsed_commands(s).len(),
        parsed_commands(s + seq![' ', '&']).drop_last() == parsed_commands(s).drop_last(),
        parsed_commands(s + seq![' ', '&']).last().name == parsed_commands(s).last().name,
        parsed_commands(s + seq![' ', '&']).last().args == parsed_commands(s).last().args,
        parsed_commands(s + seq![' ', '&']).last().background,
        parsed_problems(s + seq![' ', '&']).len() == 0,
{
    let j = s + seq![' ', '&'];
    let k = s.len();
    let st = fsm_run(s).unwrap();
    lemma_fsm_state_ok(s, k);
    lemma_prefix_agrees(s, j, k);
    assert(j[k as int] == ' ' && j[k as int + 1] == '&');
    let c1 = seq![ParserState::Command, ParserState::And { count: 1 }];
    assert(fsm_prefix(j, k + 1) == Some(FsmState { stack: seq![ParserState::Command, ParserState::Delimeter], cmds: st.cmds }));
    assert(fsm_run(j) == Some(FsmState { stack: c1, cmds: st.cmds }));
    assert(ends_in_background(c1)) by {
        assert(c1[1] == ParserState::And { count: 1 });
    }
    assert(!ends_in_background(st.stack));
    let l = st.cmds.len() - 1;
    let out = set_background(st.cmds);
    assert(out.drop_last() =~= st.cmds.drop_last());
    assert(out.last() == out[l]);
    reveal_with_fuel(open_problems, 3);
    assert(c1.drop_last() =~= seq![ParserState::Command]);
    assert(seq![ParserState::Command].drop_last() =~= Seq::<ParserState>::empty());
    assert(problem_of(ParserState::And { count: 1 }) =~= Seq::<ParseProblem>::empty());
}

/// A double quote that is never closed is reported at its position, and the text after
/// it is the argument. On a line `s` that ends inside a command's name or an unquoted
/// argument, `s` followed by ` "q"` without the closing quote (no quote in `q`) has the
/// commands of `s` with `q` added as the last argument of the last one, and reports one
/// unmatched quote, at the character after `s` and the space.
pub proof fn law_unclosed_quote_is_reported(s: Seq<char>, q: Seq<char>)
    requires
        fsm_run(s) matches Some(st) && (st.stack =~= seq![ParserState::Command] || st.stack
            =~= seq![ParserState::Command, ParserState::Args]),
        !q.contains('"'),
        s.len() + q.len() + 2 <= usize::MAX,
    ensures
        fsm_run(s + seq![' ', '"'] + q) is Some,
        parsed_commands(s + seq![' ', '"'] + q).len() == parsed_commands(s).len(),
        parsed_commands(s + seq![' ', '"'] + q).drop_last() == parsed_commands(s).drop_last(),
        parsed_commands(s + seq![' ', '"'] + q).last().name == parsed_commands(s).last().name,
        arg_texts_of(parsed_commands(s + seq![' ', '"'] + q).last()) == arg_texts_of(
            parsed_commands(s).last(),
        ).push(q),
        parsed_problems(s + seq![' ', '"'] + q) == seq![ParseProblem::UnmatchedQuote((s.len() + 1) as usize)],
{
    let j = s + seq![' ', '"'] + q;
    let k = s.len();
    let ki = k as int;
    let qn = q.len() as int;
    let st = fsm_run(s).unwrap();
    lemma_fsm_state_ok(s, k);
    let p = st.cmds;
    let l = p.len() - 1;
    lemma_prefix_agrees(s, j, k);
    assert(j[ki] == ' ' && j[ki + 1] == '"');
    let cd = seq![ParserState::Command, ParserState::Delimeter];
    let dq = seq![ParserState::Command, ParserState::Args, ParserState::DoubleQuote((k + 1) as usize)];
    assert(fsm_prefix(j, k + 1) == Some(FsmState { stack: cd, cmds: p }));
    let p2 = push_arg(p, ArgView { val: seq![], start: ki + 1, end: ki + 2 });
    assert(fsm_prefix(j, k + 2) == Some(FsmState { stack: dq, cmds: p2 }));
    assert(p2.last().args.len() > 0) by {
        assert(p2.last() == p2[l]);
    }
    assert forall|i: int| ki + 2 <= i < ki + 2 + qn implies j[i] != '"' by {
        assert(j[i] == q[i - ki - 2]);
        if q[i - ki - 2] == '"' {
            assert(q.contains('"'));
        }
    }
    lemma_inside_arg(j, k + 2, q.len(), FsmState { stack: dq, cmds: p2 }, '"');
    assert(j.subrange(ki + 2, ki + 2 + qn) =~= q);
    let p3 = append_to_arg(p2, q);
    assert(fsm_run(j) == Some(FsmState { stack: dq, cmds: p3 }));
    assert(!ends_in_background(st.stack));
    assert(!ends_in_background(dq));
    let aq = ArgView { val: q, start: ki + 1, end: ki + 2 + qn };
    assert(p3[l].args =~= p[l].args.push(aq)) by {
        assert(p2[l].args.last() == ArgView { val: seq![], start: ki + 1, end: ki + 2 });
        assert(Seq::<char>::empty() + q =~= q);
    }
    assert(p3.drop_last() =~= p.drop_last());
    assert(p3.last() == p3[l]);
    assert(arg_texts_of(p3[l]) =~= arg_texts_of(p[l]).push(q));
    reveal_with_fuel(open_problems, 4);
    assert(dq.drop_last() =~= seq![ParserState::Command, ParserState::Args]);
    assert(seq![ParserState::Command, ParserState::Args].drop_last() =~= seq![ParserState::Command]);
    assert(seq![ParserState::Command].drop_last() =~= Seq::<ParserState>::empty());
    assert(open_problems(dq) =~= seq![ParseProblem::UnmatchedQuote((k + 1) as usize)]);
}

/// The parser gives up on an `=` in a command's name, and on a lone `&` followed by
/// anything but `&`, whatever follows: on a line `s` that ends inside a command's name,
/// `s` followed by `=` and anything is not parsed; on a line that ends inside a name or
/// an unquoted argument, adding ` &` and a character other than `&` is not parsed.
pub proof fn law_parser_gives_up(s: Seq<char>, c: char, t: Seq<char>)
    requires
        fsm_run(s) is Some,
    ensures
        fsm_run(s).unwrap().stack =~= seq![ParserState::Command] ==> fsm_run(s + seq!['='] + t) is None,
        (fsm_run(s).unwrap().stack =~= seq![ParserState::Command] || fsm_run(s).unwrap().stack
            =~= seq![ParserState::Command, ParserState::Args]) && c != '&' ==> fsm_run(
            s + seq![' ', '&', c] + t,
        ) is None,
{
    let st = fsm_run(s).unwrap();
    let k = s.len();
    let ki = k as int;
    let a = s + seq!['='] + t;
    let b = s + seq![' ', '&', c] + t;
    lemma_prefix_agrees(s, a, k);
    lemma_prefix_agrees(s, b, k);
    if st.stack =~= seq![ParserState::Command] {
        assert(a[ki] == '=');
        assert(fsm_prefix(a, k + 1) is None);
        lemma_fsm_stuck(a, k + 1, a.len());
    }
    if (st.stack =~= seq![ParserState::Command] || st.stack =~= seq![ParserState::Command, ParserState::Args])
        && c != '&' {
        assert(b[ki] == ' ' && b[ki + 1] == '&' && b[ki + 2] == c);
        let cd = seq![ParserState::Command, ParserState::Delimeter];
        let c1 = seq![ParserState::Command, ParserState::And { count: 1 }];
        assert(fsm_prefix(b, k + 1) == Some(FsmState { stack: cd, cmds: st.cmds }));
        assert(fsm_prefix(b, k + 2) == Some(FsmState { stack: c1, cmds: st.cmds }));
        assert(fsm_prefix(b, k + 3) is None);
        lemma_fsm_stuck(b, k + 3, b.len());
    }
}

proof fn lemma_leading_spaces(chars: Seq<char>, n: nat)
    requires
        n <= chars.len(),
        forall|i: int| 0 <= i < n ==> chars[i] == ' ',
    ensures
        fsm_prefix(chars, n) == Some(initial_fsm()),
    decreases n,
{
    if n > 0 {
        lemma_leading_spaces(chars, (n - 1) as nat);
    }
}

/// Spaces before a line are skipped: the line parses as without them, its ranges and
/// problem positions moved past the spaces.
pub proof fn law_leading_spaces_are_skipped(n: nat, s: Seq<char>)
    requires
        fsm_run(s) is Some,
        n + s.len() <= usize::MAX,
    ensures
        fsm_run(Seq::new(n, |i: int| ' ') + s) is Some,
        parsed_commands(Seq::new(n, |i: int| ' ') + s) == shift_cmds(parsed_commands(s), n),
        parsed_problems(Seq::new(n, |i: int| ' ') + s) == shift_problems(parsed_problems(s), n),
{
    let sp = Seq::new(n, |i: int| ' ');
    let j = sp + s;
    lemma_leading_spaces(j, n);
    assert(Seq::<CmdView>::empty().push(empty_cmd()) =~= initial_fsm().cmds);
    assert forall|i: int| 0 <= i < s.len() implies j[n + i] == s[i] by {}
    lemma_rest_relocates(j, n, Seq::<CmdView>::empty(), s, s.len());
    let r2 = fsm_run(s).unwrap();
    assert(fsm_run(j) == Some(relocate(r2, Seq::<CmdView>::empty(), n)));
    assert(Seq::<CmdView>::empty() + shift_cmds(r2.cmds, n) =~= shift_cmds(r2.cmds, n));
    lemma_fsm_state_ok(s, s.len());
    lemma_edits_relocate(Seq::<CmdView>::empty(), r2.cmds, n, ' ', ArgView { val: seq![], start: 0, end: 0 });
    lemma_background_shift(r2.stack, n);
    lemma_problems_shift(r2.stack, n);
}

} // verus!
