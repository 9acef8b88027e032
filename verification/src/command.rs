//! Pipeline commands: the argument tokenizer of one pipeline stage, external
//! commands, and the plan of a whole pipeline (stages, redirects, background flag,
//! and how each stage's standard streams are wired).
use vstd::prelude::*;
use std::collections::VecDeque;

use crate::builtin::{CompleteCommand, EchoCommand, TypeCommand, UnknownCommand};
use crate::redirect::{Redirect, RedirectType, redirect_spec, redirect_view, strip_spec};
use crate::text::{chars_of, copy_strings, nonempty_pieces, split_fold, split_on, split_on_char, str_is, string_from_chars, trim, trim_string, views};
use crate::utils::{find_in_paths, lookup_ok};

verus! {

/// Where the stage tokenizer stands between two characters.
pub enum ParserState {
    /// Unquoted text; spaces split args and backslash escapes the next char.
    Normal,
    /// Single-quoted region (`'...'`): everything literal until the closing `'`.
    SingleQuote,
    /// Double-quoted region (`"..."`): backslash still escapes inside.
    DoubleQuote,
    /// After a `\` outside a single-quote: the next character is taken literally.
    Escaped(Box<ParserState>),
}

/// The state of the stage tokenizer: region, argument being built, finished arguments.
pub struct Tokenizer {
    pub state: ParserState,
    pub current: Seq<char>,
    pub args: Seq<Seq<char>>,
}

/// Ends the argument being built, if it holds anything.
pub open spec fn tok_flush(t: Tokenizer) -> Tokenizer {
    if t.current.len() > 0 {
        Tokenizer { state: t.state, current: Seq::empty(), args: t.args.push(t.current) }
    } else {
        t
    }
}

/// Reading one character `c`.
pub open spec fn tok_step(t: Tokenizer, c: char) -> Tokenizer {
    let push = Tokenizer { state: t.state, current: t.current.push(c), args: t.args };
    match t.state {
        ParserState::Normal => if c == '\'' {
            Tokenizer { state: ParserState::SingleQuote, current: t.current, args: t.args }
        } else if c == '"' {
            Tokenizer { state: ParserState::DoubleQuote, current: t.current, args: t.args }
        } else if c == ' ' {
            tok_flush(t)
        } else if c == '\\' {
            Tokenizer {
                state: ParserState::Escaped(Box::new(ParserState::Normal)),
                current: t.current,
                args: t.args,
            }
        } else {
            push
        },
        ParserState::SingleQuote => if c == '\'' {
            Tokenizer { state: ParserState::Normal, current: t.current, args: t.args }
        } else {
            push
        },
        ParserState::DoubleQuote => if c == '"' {
            Tokenizer { state: ParserState::Normal, current: t.current, args: t.args }
        } else if c == '\\' {
            Tokenizer {
                state: ParserState::Escaped(Box::new(ParserState::DoubleQuote)),
                current: t.current,
                args: t.args,
            }
        } else {
            push
        },
        ParserState::Escaped(prev) => Tokenizer { state: *prev, current: t.current.push(c), args: t.args },
    }
}

/// The tokenizer state after reading all of `cs` from the start.
pub open spec fn tok_run(cs: Seq<char>) -> Tokenizer
    decreases cs.len(),
{
    if cs.len() == 0 {
        Tokenizer { state: ParserState::Normal, current: Seq::empty(), args: Seq::empty() }
    } else {
        tok_step(tok_run(cs.drop_last()), cs.last())
    }
}

/// The arguments of one pipeline stage.
pub open spec fn stage_args(cs: Seq<char>) -> Seq<Seq<char>> {
    tok_flush(tok_run(cs)).args
}

/// `cs` holds no quote or backslash: nothing for the tokenizers to interpret but spaces.
pub open spec fn plain(cs: Seq<char>) -> bool {
    forall|i: int| 0 <= i < cs.len() ==> #[trigger] cs[i] != '\'' && cs[i] != '"' && cs[i] != '\\'
}

/// On plain text the tokenizer stays unquoted: its finished arguments are the
/// non-empty pieces before the last space, and it is building the piece after it.
proof fn lemma_tok_run_plain(cs: Seq<char>)
    requires
        plain(cs),
    ensures
        tok_run(cs).state == ParserState::Normal,
        tok_run(cs).args == nonempty_pieces(split_fold(cs, ' ').0),
        tok_run(cs).current == split_fold(cs, ' ').1,
    decreases cs.len(),
{
    if cs.len() > 0 {
        assert forall|i: int| 0 <= i < cs.drop_last().len() implies #[trigger] cs.drop_last()[i] != '\''
            && cs.drop_last()[i] != '"' && cs.drop_last()[i] != '\\' by {
            assert(cs.drop_last()[i] == cs[i]);
        }
        lemma_tok_run_plain(cs.drop_last());
        assert(cs.last() == cs[cs.len() - 1]);
        let (acc, cur) = split_fold(cs.drop_last(), ' ');
        if cs.last() == ' ' {
            assert(acc.push(cur).drop_last() =~= acc);
        }
    }
}

/// A plain stage (no quotes, no backslashes) splits into the non-empty pieces between spaces.
pub proof fn law_plain_stage_splits_at_spaces(cs: Seq<char>)
    requires
        plain(cs),
    ensures
        stage_args(cs) == nonempty_pieces(split_on(cs, ' ')),
{
    lemma_tok_run_plain(cs);
    let (acc, cur) = split_fold(cs, ' ');
    assert(acc.push(cur).drop_last() =~= acc);
}

/// `w` holds no double quote and no backslash: inside double quotes it is taken as it is.
pub open spec fn dq_text(w: Seq<char>) -> bool {
    forall|j: int| 0 <= j < w.len() ==> #[trigger] w[j] != '"' && w[j] != '\\'
}

/// Inside double quotes, text without quotes or backslashes is added as it is.
proof fn lemma_tok_dq_text(x: Seq<char>, w: Seq<char>)
    requires
        tok_run(x).state == ParserState::DoubleQuote,
        dq_text(w),
    ensures
        tok_run(x + w) == (Tokenizer {
            state: ParserState::DoubleQuote,
            current: tok_run(x).current + w,
            args: tok_run(x).args,
        }),
    decreases w.len(),
{
    if w.len() == 0 {
        assert(x + w =~= x);
        assert(tok_run(x).current + w =~= tok_run(x).current);
    } else {
        let v = w.drop_last();
        assert forall|j: int| 0 <= j < v.len() implies #[trigger] v[j] != '"' && v[j] != '\\' by {
            assert(v[j] == w[j]);
        }
        lemma_tok_dq_text(x, v);
        assert((x + w).drop_last() =~= x + v);
        assert((x + w).last() == w[w.len() - 1]);
        assert(tok_run(x).current + v.push(w.last()) =~= tok_run(x).current + w);
        assert((tok_run(x).current + v).push(w.last()) =~= tok_run(x).current + w);
    }
}

/// An escape begun inside double quotes returns to the double-quoted region: in
/// `"a\cb"` (with `a`, `b` free of quotes and backslashes) the backslash makes `c`
/// literal (a quote, a space, anything) and the quoted argument goes on, giving the
/// single argument `a c b`.
pub proof fn law_stage_escape_in_double_quotes(a: Seq<char>, c: char, b: Seq<char>)
    requires
        dq_text(a),
        dq_text(b),
    ensures
        stage_args(seq!['"'] + a + seq!['\\', c] + b + seq!['"']) == seq![a + seq![c] + b],
{
    let p0 = seq!['"'];
    let p1 = p0 + a;
    let p2 = p1.push('\\');
    let p3 = p2.push(c);
    let p4 = p3 + b;
    let s = p4.push('"');
    assert(s =~= seq!['"'] + a + seq!['\\', c] + b + seq!['"']);
    assert(p0.drop_last() =~= Seq::<char>::empty());
    assert(p0.len() == 1 && p0.last() == '"');
    let t0 = tok_run(p0.drop_last());
    assert(t0.state == ParserState::Normal && t0.current.len() == 0 && t0.args.len() == 0);
    assert(tok_run(p0) == tok_step(t0, '"'));
    assert(tok_run(p0).state == ParserState::DoubleQuote);
    assert(tok_run(p0).current =~= Seq::<char>::empty());
    assert(tok_run(p0).args =~= Seq::<Seq<char>>::empty());
    lemma_tok_dq_text(p0, a);
    assert(Seq::<char>::empty() + a =~= a);
    assert(p2.drop_last() =~= p1);
    assert(p2.last() == '\\');
    assert(tok_run(p2) == tok_step(tok_run(p1), '\\'));
    assert(tok_run(p2).state == ParserState::Escaped(Box::new(ParserState::DoubleQuote)));
    assert(tok_run(p2).current == a);
    assert(p3.drop_last() =~= p2);
    assert(p3.last() == c);
    assert(tok_run(p3) == tok_step(tok_run(p2), c));
    assert(tok_run(p3).state == ParserState::DoubleQuote);
    assert(tok_run(p3).current == a.push(c));
    lemma_tok_dq_text(p3, b);
    assert(s.drop_last() =~= p4);
    assert(s.last() == '"');
    assert(tok_run(s) == tok_step(tok_run(p4), '"'));
    assert(a.push(c) + b =~= a + seq![c] + b);
    assert(tok_run(s).current =~= a + seq![c] + b);
    assert(tok_run(s).args =~= Seq::<Seq<char>>::empty());
    assert((a + seq![c] + b).len() > 0);
    assert(Seq::<Seq<char>>::empty().push(a + seq![c] + b) =~= seq![a + seq![c] + b]);
}

/// No argument of a stage is empty.
pub proof fn law_stage_args_nonempty(cs: Seq<char>)
    ensures
        forall|k: int| 0 <= k < stage_args(cs).len() ==> (#[trigger] stage_args(cs)[k]).len() > 0,
{
    lemma_tok_run_nonempty(cs);
}

proof fn lemma_tok_run_nonempty(cs: Seq<char>)
    ensures
        forall|k: int| 0 <= k < tok_run(cs).args.len() ==> (#[trigger] tok_run(cs).args[k]).len() > 0,
    decreases cs.len(),
{
    if cs.len() > 0 {
        lemma_tok_run_nonempty(cs.drop_last());
    }
}

/// Reads one character, updating the argument being built and the finished arguments,
/// and returns the new region.
fn advance(state: ParserState, c: char, current: &mut Vec<char>, args: &mut VecDeque<String>) -> (r:
    ParserState)
    ensures
        ({
            let t = tok_step(Tokenizer { state, current: old(current)@, args: views(old(args)@) }, c);
            r == t.state && final(current)@ == t.current && views(final(args)@) == t.args
        }),
{
    match state {
        ParserState::Normal => {
            if c == '\'' {
                ParserState::SingleQuote
            } else if c == '"' {
                ParserState::DoubleQuote
            } else if c == ' ' {
                if current.len() > 0 {
                    let ghost before = args@;
                    let s = string_from_chars(current);
                    args.push_back(s);
                    assert(views(args@) =~= views(before).push(old(current)@));
                    *current = Vec::new();
                }
                ParserState::Normal
            } else if c == '\\' {
                ParserState::Escaped(Box::new(ParserState::Normal))
            } else {
                current.push(c);
                ParserState::Normal
            }
        },
        ParserState::SingleQuote => {
            if c == '\'' {
                ParserState::Normal
            } else {
                current.push(c);
                ParserState::SingleQuote
            }
        },
        ParserState::DoubleQuote => {
            if c == '"' {
                ParserState::Normal
            } else if c == '\\' {
                ParserState::Escaped(Box::new(ParserState::DoubleQuote))
            } else {
                current.push(c);
                ParserState::DoubleQuote
            }
        },
        ParserState::Escaped(prev) => {
            current.push(c);
            *prev
        },
    }
}

/// An external (PATH-resolved) command with its parsed argument list.
pub struct ExternalCommand {
    pub cmd: String,
    pub args: Vec<String>,
}

impl ExternalCommand {
    /// Creates an `ExternalCommand` from a resolved executable path and its argument list.
    pub fn new(cmd: String, args: Vec<String>) -> (r: Self)
        ensures
            r.cmd@ == cmd@,
            views(r.args@) == views(args@),
    {
        Self { cmd, args }
    }

    /// Parses the argument portion of a command line into a vector of strings,
    /// handling single quotes, double quotes and escape sequences.
    pub fn parse_input(args_str: &str) -> (r: VecDeque<String>)
        ensures
            views(r@) == stage_args(args_str@),
    {
        let mut args: VecDeque<String> = VecDeque::new();
        let mut current: Vec<char> = Vec::new();
        let mut state = ParserState::Normal;
        assert(views(args@) =~= Seq::<Seq<char>>::empty());
        let cs = chars_of(args_str);
        let mut i: usize = 0;
        while i < cs.len()
            invariant
                i <= cs.len(),
                cs@ == args_str@,
                ({
                    let t = tok_run(cs@.take(i as int));
                    state == t.state && current@ == t.current && views(args@) == t.args
                }),
            decreases cs.len() - i,
        {
            assert(cs@.take(i + 1).drop_last() =~= cs@.take(i as int));
            state = advance(state, cs[i], &mut current, &mut args);
            i += 1;
        }
        assert(cs@.take(cs.len() as int) =~= cs@);
        if current.len() > 0 {
            let ghost before = args@;
            let s = string_from_chars(&current);
            args.push_back(s);
            assert(views(args@) =~= views(before).push(current@));
        }
        args
    }
}

/// A single command in a pipeline, ready to run with wired-up stdio.
pub enum PipelineCommand {
    Echo(EchoCommand),
    Pwd,
    Type(TypeCommand),
    Complete(CompleteCommand),
    External(ExternalCommand),
    Unknown(UnknownCommand),
}

impl PipelineCommand {
    /// Whether the command can be left running in the background (only external
    /// commands can; builtins run in the foreground even when suffixed with `&`).
    pub open spec fn backgroundable(&self) -> bool {
        self is External
    }

    /// Returns `true` if this command can be spawned in the background.
    pub fn is_backgroundable(&self) -> (r: bool)
        ensures
            r == self.backgroundable(),
    {
        match self {
            PipelineCommand::External(_) => true,
            _ => false,
        }
    }
}

/// One stage of a pipeline: a command together with its I/O redirects and background flag.
pub struct PipelineSegment {
    pub command: PipelineCommand,
    /// `true` when the pipeline was terminated with `&` and this is the last segment.
    pub background: bool,
    pub stdout_redirect: Option<Redirect>,
    pub stderr_redirect: Option<Redirect>,
}

/// The tokens of a raw pipeline stage.
pub open spec fn stage_tokens(raw: Seq<char>) -> Seq<Seq<char>> {
    stage_args(trim(raw))
}

/// The command word of a raw stage (empty when it has no tokens).
pub open spec fn stage_cmd(raw: Seq<char>) -> Seq<char> {
    if stage_tokens(raw).len() > 0 {
        stage_tokens(raw)[0]
    } else {
        Seq::empty()
    }
}

/// The argument tokens of a raw stage, redirects included.
pub open spec fn stage_rest(raw: Seq<char>) -> Seq<Seq<char>> {
    if stage_tokens(raw).len() > 0 {
        stage_tokens(raw).drop_first()
    } else {
        Seq::empty()
    }
}

/// The stage is backgrounded: it is the last one and its last argument (redirects
/// removed) is `&`.
pub open spec fn stage_background(raw: Seq<char>, is_last: bool) -> bool {
    let clean = strip_spec(stage_rest(raw), 0);
    is_last && clean.len() > 0 && clean.last() == seq!['&']
}

/// The arguments the stage's command receives: redirects and a background `&` removed.
pub open spec fn stage_clean_args(raw: Seq<char>, is_last: bool) -> Seq<Seq<char>> {
    let clean = strip_spec(stage_rest(raw), 0);
    if stage_background(raw, is_last) {
        clean.drop_last()
    } else {
        clean
    }
}

/// The stage's redirect of stream `t`, if its first redirect is of that stream.
pub open spec fn stage_redirect(raw: Seq<char>, t: RedirectType) -> Option<(RedirectType, int, Seq<char>, bool)> {
    match redirect_spec(stage_rest(raw)) {
        Ok(v) => if v.0 == t {
            Some(v)
        } else {
            None
        },
        Err(_) => None,
    }
}

/// A stage's stdout redirect, when it has one, is a redirect of standard output, and
/// its stderr redirect one of standard error; no stage has both.
pub proof fn law_stage_redirect_kind(raw: Seq<char>)
    ensures
        stage_redirect(raw, RedirectType::StdOut) matches Some(v) ==> v.0 == RedirectType::StdOut,
        stage_redirect(raw, RedirectType::StdErr) matches Some(v) ==> v.0 == RedirectType::StdErr,
        !(stage_redirect(raw, RedirectType::StdOut) is Some && stage_redirect(raw, RedirectType::StdErr) is Some),
{
}

/// The view of an optional redirect.
pub open spec fn opt_redirect_view(r: Option<Redirect>) -> Option<(RedirectType, int, Seq<char>, bool)> {
    match r {
        Some(rd) => Some(redirect_view(rd)),
        None => None,
    }
}

/// `c` is the command built for command word `cmd` with arguments `args`: the
/// builtins `echo`, `pwd`, `type`, `complete`; else an external command when the
/// lookup along `paths` finds `cmd`, and an unknown command when it does not.
pub open spec fn command_ok<F: Fn(&String) -> bool>(
    is_exec: F,
    paths: Seq<Seq<char>>,
    cmd: Seq<char>,
    args: Seq<Seq<char>>,
    c: PipelineCommand,
) -> bool {
    if cmd == seq!['e', 'c', 'h', 'o'] {
        c matches PipelineCommand::Echo(e) && views(e.args@) == args
    } else if cmd == seq!['p', 'w', 'd'] {
        c is Pwd
    } else if cmd == seq!['t', 'y', 'p', 'e'] {
        c matches PipelineCommand::Type(t) && views(t.args@) == args && views(t.paths@) == paths
    } else if cmd == seq!['c', 'o', 'm', 'p', 'l', 'e', 't', 'e'] {
        c matches PipelineCommand::Complete(t) && views(t.args@) == args
    } else {
        ||| (c matches PipelineCommand::External(x) && x.cmd@ == cmd && views(x.args@) == args
            && exists|p: Seq<char>| lookup_ok(is_exec, paths, cmd, Some(p)))
        ||| (c matches PipelineCommand::Unknown(u) && u.cmd@ == cmd && lookup_ok(
            is_exec,
            paths,
            cmd,
            None,
        ))
    }
}

/// `seg` is the segment built from raw stage `raw` (`is_last` when it ends the pipeline).
pub open spec fn segment_ok<F: Fn(&String) -> bool>(
    is_exec: F,
    paths: Seq<Seq<char>>,
    raw: Seq<char>,
    is_last: bool,
    seg: PipelineSegment,
) -> bool {
    &&& command_ok(is_exec, paths, stage_cmd(raw), stage_clean_args(raw, is_last), seg.command)
    &&& seg.background == stage_background(raw, is_last)
    &&& opt_redirect_view(seg.stdout_redirect) == stage_redirect(raw, RedirectType::StdOut)
    &&& opt_redirect_view(seg.stderr_redirect) == stage_redirect(raw, RedirectType::StdErr)
}

/// Builds the command for command word `cmd` with arguments `args`.
fn build_command<F: Fn(&String) -> bool>(cmd: String, args: Vec<String>, paths: &Vec<String>, is_exec: &F) -> (r:
    PipelineCommand)
    requires
        forall|s: &String| is_exec.requires((s,)),
    ensures
        command_ok(*is_exec, views(paths@), cmd@, views(args@), r),
{
    if str_is(cmd.as_str(), &['e', 'c', 'h', 'o']) {
        PipelineCommand::Echo(EchoCommand { args })
    } else if str_is(cmd.as_str(), &['p', 'w', 'd']) {
        PipelineCommand::Pwd
    } else if str_is(cmd.as_str(), &['t', 'y', 'p', 'e']) {
        PipelineCommand::Type(TypeCommand { args, paths: copy_strings(paths) })
    } else if str_is(cmd.as_str(), &['c', 'o', 'm', 'p', 'l', 'e', 't', 'e']) {
        PipelineCommand::Complete(CompleteCommand { args })
    } else {
        let found = find_in_paths(cmd.as_str(), paths, is_exec);
        match found {
            Some(p) => {
                assert(lookup_ok(*is_exec, views(paths@), cmd@, Some(p@)));
                PipelineCommand::External(ExternalCommand::new(cmd, args))
            },
            None => PipelineCommand::Unknown(UnknownCommand { cmd }),
        }
    }
}

/// Builds the segment for raw stage `raw`.
fn build_segment<F: Fn(&String) -> bool>(raw: &str, is_last: bool, paths: &Vec<String>, is_exec: &F) -> (r:
    PipelineSegment)
    requires
        forall|s: &String| is_exec.requires((s,)),
    ensures
        segment_ok(*is_exec, views(paths@), raw@, is_last, r),
{
    // command and args
    let trimmed = trim_string(raw);
    let mut tokens = ExternalCommand::parse_input(trimmed.as_str());
    let ghost toks = views(tokens@);
    let cmd = match tokens.pop_front() {
        Some(c) => c,
        None => String::new(),
    };
    let mut args: Vec<String> = Vec::new();
    while tokens.len() > 0
        invariant
            toks.len() > 0 ==> views(args@) + views(tokens@) == toks.drop_first(),
            toks.len() == 0 ==> views(tokens@).len() == 0 && args@.len() == 0,
        decreases tokens.len(),
    {
        let ghost before_a = args@;
        let ghost before_t = tokens@;
        match tokens.pop_front() {
            Some(t) => {
                args.push(t);
                assert(views(args@) =~= views(before_a).push(before_t[0]@));
                assert(views(tokens@) =~= views(before_t).drop_first());
                assert(views(args@) + views(tokens@) =~= views(before_a) + views(before_t));
            },
            None => {},
        }
    }
    assert(views(args@) =~= stage_rest(raw@));
    // redirects
    let stdout_redirect = match Redirect::get_redirect(args.as_slice()) {
        Some(r) => if r.redirect_type == RedirectType::StdOut {
            Some(r)
        } else {
            None
        },
        None => None,
    };
    let stderr_redirect = match Redirect::get_redirect(args.as_slice()) {
        Some(r) => if r.redirect_type == RedirectType::StdErr {
            Some(r)
        } else {
            None
        },
        None => None,
    };
    let mut clean_args = Redirect::strip_redirect_tokens(args.as_slice());
    // background: only on the last segment, only if the last token is "&"
    let n = clean_args.len();
    let amp = ['&'];
    assert(amp@ =~= seq!['&']);
    let background = is_last && n > 0 && str_is(clean_args[n - 1].as_str(), &amp);
    if background {
        let ghost before = clean_args@;
        clean_args.pop();
        assert(views(clean_args@) =~= views(before).drop_last());
    }
    let command = build_command(cmd, clean_args, paths, is_exec);
    PipelineSegment { command, background, stdout_redirect, stderr_redirect }
}

/// Parses `input` into a sequence of [`PipelineSegment`]s ready for execution.
///
/// Splits on `|`, tokenises each segment, resolves redirects, strips a trailing `&` from the
/// last segment (setting its `background` flag), and constructs the command of each
/// segment; `is_exec` tells whether a path names an executable file.
pub fn build_pipeline<F: Fn(&String) -> bool>(input: &str, paths: &Vec<String>, is_exec: F) -> (r:
    Vec<PipelineSegment>)
    requires
        forall|s: &String| is_exec.requires((s,)),
    ensures
        r@.len() == split_on(input@, '|').len(),
        forall|i: int|
            0 <= i < r@.len() ==> segment_ok(
                is_exec,
                views(paths@),
                split_on(input@, '|')[i],
                i == r@.len() - 1,
                #[trigger] r@[i],
            ),
        forall|i: int|
            0 <= i < r@.len() ==> {
                &&& (#[trigger] r@[i]).stdout_redirect matches Some(rd) ==> rd.redirect_type == RedirectType::StdOut
                &&& r@[i].stderr_redirect matches Some(rd) ==> rd.redirect_type == RedirectType::StdErr
                &&& !(r@[i].stdout_redirect is Some && r@[i].stderr_redirect is Some)
            },
{
    let raw_segments = split_on_char(input, '|');
    let ghost raws = views(raw_segments@);
    let n = raw_segments.len();
    let mut segments: Vec<PipelineSegment> = Vec::new();
    let mut i: usize = 0;
    while i < n
        invariant
            i <= n == raws.len(),
            raws == views(raw_segments@),
            raws == split_on(input@, '|'),
            segments@.len() == i,
            forall|s: &String| is_exec.requires((s,)),
            forall|k: int|
                0 <= k < i ==> segment_ok(
                    is_exec,
                    views(paths@),
                    raws[k],
                    k == n - 1,
                    #[trigger] segments@[k],
                ),
            forall|k: int|
                0 <= k < i ==> {
                    &&& (#[trigger] segments@[k]).stdout_redirect matches Some(rd) ==> rd.redirect_type == RedirectType::StdOut
                    &&& segments@[k].stderr_redirect matches Some(rd) ==> rd.redirect_type == RedirectType::StdErr
                    &&& !(segments@[k].stdout_redirect is Some && segments@[k].stderr_redirect is Some)
                },
        decreases n - i,
    {
        let seg = build_segment(raw_segments[i].as_str(), i + 1 == n, paths, &is_exec);
        proof {
            law_stage_redirect_kind(raws[i as int]);
        }
        segments.push(seg);
        i += 1;
    }
    segments
}

/// Where a segment's standard input comes from.
#[derive(PartialEq, Eq, Structural, Clone, Copy, Debug)]
pub enum StdinSource {
    /// The shell's own standard input.
    Inherit,
    /// The read end of pipe `k` (between segments `k` and `k + 1`).
    Pipe(usize),
}

/// Where a segment's standard output goes.
#[derive(PartialEq, Eq, Structural, Clone, Copy, Debug)]
pub enum StdoutSink {
    /// The shell's own standard output.
    Inherit,
    /// The write end of pipe `k`.
    Pipe(usize),
    /// The segment's stdout redirect file.
    RedirectFile,
}

/// Where a segment's standard error goes.
#[derive(PartialEq, Eq, Structural, Clone, Copy, Debug)]
pub enum StderrSink {
    /// The shell's own standard error.
    Inherit,
    /// The segment's stderr redirect file.
    RedirectFile,
}

/// How one segment of a pipeline is wired and run.
#[derive(PartialEq, Eq, Structural, Clone, Copy, Debug)]
pub struct StdioPlan {
    pub stdin: StdinSource,
    pub stdout: StdoutSink,
    pub stderr: StderrSink,
    /// Spawn without waiting: the pipeline is backgrounded, this is its last segment, and
    /// its command can run in the background.
    pub spawn_background: bool,
}

/// The wiring of segment `i` of `segs`: the first reads the terminal and each other the
/// pipe from the previous segment; output goes to the redirect file, else to the pipe
/// to the next segment, else (last segment) to the terminal.
pub open spec fn stdio_spec(segs: Seq<PipelineSegment>, i: int) -> StdioPlan {
    let n = segs.len();
    let is_background = n > 0 && segs[n - 1].background;
    StdioPlan {
        stdin: if i == 0 {
            StdinSource::Inherit
        } else {
            StdinSource::Pipe((i - 1) as usize)
        },
        stdout: if segs[i].stdout_redirect is Some {
            StdoutSink::RedirectFile
        } else if i < n - 1 {
            StdoutSink::Pipe(i as usize)
        } else {
            StdoutSink::Inherit
        },
        stderr: if segs[i].stderr_redirect is Some {
            StderrSink::RedirectFile
        } else {
            StderrSink::Inherit
        },
        spawn_background: is_background && i == n - 1 && segs[i].command.backgroundable(),
    }
}

/// Plans how each segment of a pipeline is wired up and run: `n - 1` pipes connect
/// the segments, redirect files replace pipe ends and the terminal.
pub fn plan_stdio(segments: &Vec<PipelineSegment>) -> (r: Vec<StdioPlan>)
    ensures
        r@.len() == segments@.len(),
        forall|i: int| 0 <= i < r@.len() ==> #[trigger] r@[i] == stdio_spec(segments@, i),
        forall|i: int|
            0 <= i < r@.len() ==> {
                &&& ((#[trigger] r@[i]).stderr == StderrSink::RedirectFile <==> segments@[i].stderr_redirect is Some)
                &&& (r@[i].stdout == StdoutSink::RedirectFile <==> segments@[i].stdout_redirect is Some)
            },
{
    let n = segments.len();
    let is_background = n > 0 && segments[n - 1].background;
    let mut plans: Vec<StdioPlan> = Vec::new();
    let mut i: usize = 0;
    while i < n
        invariant
            i <= n == segments@.len(),
            is_background == (n > 0 && segments@[n - 1].background),
            plans@.len() == i,
            forall|k: int| 0 <= k < i ==> #[trigger] plans@[k] == stdio_spec(segments@, k),
        decreases n - i,
    {
        let seg = &segments[i];
        let stdin = if i == 0 {
            StdinSource::Inherit
        } else {
            StdinSource::Pipe(i - 1)
        };
        let stdout = if seg.stdout_redirect.is_some() {
            StdoutSink::RedirectFile
        } else if i + 1 < n {
            StdoutSink::Pipe(i)
        } else {
            StdoutSink::Inherit
        };
        let stderr = if seg.stderr_redirect.is_some() {
            StderrSink::RedirectFile
        } else {
            StderrSink::Inherit
        };
        let spawn_background = is_background && i + 1 == n && seg.command.is_backgroundable();
        plans.push(StdioPlan { stdin, stdout, stderr, spawn_background });
        i += 1;
    }
    proof {
        assert forall|k: int| 0 <= k < plans@.len() implies {
            &&& ((#[trigger] plans@[k]).stderr == StderrSink::RedirectFile <==> segments@[k].stderr_redirect is Some)
            &&& (plans@[k].stdout == StdoutSink::RedirectFile <==> segments@[k].stdout_redirect is Some)
        } by {
            law_stdio_wiring(segments@, k);
        }
    }
    plans
}

/// How a pipeline is wired, whatever its length and wherever the segment stands: a
/// redirect file takes a segment's stream exactly when the segment has that redirect;
/// only the first segment reads the terminal, each other reads the pipe from the one
/// before; output without a redirect goes to the next pipe, or to the terminal from
/// the last segment; only the last segment can be spawned in the background.
pub proof fn law_stdio_wiring(segs: Seq<PipelineSegment>, i: int)
    requires
        0 <= i < segs.len(),
    ensures
        stdio_spec(segs, i).stderr == StderrSink::RedirectFile <==> segs[i].stderr_redirect is Some,
        stdio_spec(segs, i).stderr == StderrSink::Inherit <==> segs[i].stderr_redirect is None,
        stdio_spec(segs, i).stdout == StdoutSink::RedirectFile <==> segs[i].stdout_redirect is Some,
        segs[i].stdout_redirect is None && i < segs.len() - 1 ==> stdio_spec(segs, i).stdout == StdoutSink::Pipe(i as usize),
        segs[i].stdout_redirect is None && i == segs.len() - 1 ==> stdio_spec(segs, i).stdout == StdoutSink::Inherit,
        stdio_spec(segs, i).stdin == StdinSource::Inherit <==> i == 0,
        i > 0 ==> stdio_spec(segs, i).stdin == StdinSource::Pipe((i - 1) as usize),
        stdio_spec(segs, i).spawn_background ==> i == segs.len() - 1 && segs[i].background,
{
}

/// The exit code of a foreground pipeline: that of its last segment, 0 when there is none.
pub fn foreground_code(codes: &Vec<i32>) -> (r: i32)
    ensures
        r == if codes@.len() > 0 {
            codes@.last()
        } else {
            0
        },
{
    if codes.len() > 0 {
        codes[codes.len() - 1]
    } else {
        0
    }
}

} // verus!
