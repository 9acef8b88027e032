//! The stand-alone command runner: splits a command line into a command and its
//! arguments (quotes, backslash escapes and backslash-single-quote regions), finds
//! programs on `PATH`, and decides how each command line is carried out.
use vstd::prelude::*;

use crate::redirect::{Redirect, RedirectError, RedirectType, redirect_spec, redirect_view};
use crate::command::{dq_text, law_plain_stage_splits_at_spaces, law_stage_escape_in_double_quotes, plain, stage_args};
use crate::text::{chars_of, copy_string, copy_strings, nonempty_pieces, split_fold, split_on, str_is, string_from_chars, string_of, trim, trim_string, views};
use crate::utils::{find_in_paths, lookup_ok, opt_view, paths_from_var, paths_from_var_spec};

verus! {

/// Where the argument lexer stands between two characters.
#[derive(PartialEq, Eq, Structural, Clone, Copy, Debug)]
pub enum ParserState {
    /// Unquoted text; spaces split args and backslash escapes the next char.
    Normal,
    /// Backslash-single-quote region (`\'...\'`): content is literal, spaces don't split,
    /// `\'` closes (emitting `'`), `\"` emits `"`.
    BSQOpen,
    /// Single-quoted region (`'...'`): everything literal until the closing `'`.
    SingleQuote,
    /// Double-quoted region (`"..."`): backslash still escapes inside.
    DoubleQuote,
    /// After a `\` outside a single-quote: the next character is taken literally.
    Escaped,
}

/// The whole state of the argument lexer: the current region, the region to return
/// to after an escaped character, the argument being built and the finished ones.
pub struct Lexer {
    pub state: ParserState,
    pub prev: ParserState,
    pub current: Seq<char>,
    pub args: Seq<Seq<char>>,
}

/// The lexer before the first character.
pub open spec fn lexer_start() -> Lexer {
    Lexer {
        state: ParserState::Normal,
        prev: ParserState::Normal,
        current: Seq::empty(),
        args: Seq::empty(),
    }
}

/// Adds `c` to the argument being built.
pub open spec fn emit(lx: Lexer, c: char) -> Lexer {
    Lexer { current: lx.current.push(c), ..lx }
}

/// Moves to region `s`.
pub open spec fn enter(lx: Lexer, s: ParserState) -> Lexer {
    Lexer { state: s, ..lx }
}

/// Ends the argument being built, if it holds anything.
pub open spec fn flush(lx: Lexer) -> Lexer {
    if lx.current.len() > 0 {
        Lexer { args: lx.args.push(lx.current), current: Seq::empty(), ..lx }
    } else {
        lx
    }
}

/// One step of the lexer at position `i` of `cs`: the position of the next unread
/// character (one or two further on) and the new state.
pub open spec fn lex_step(cs: Seq<char>, i: int, lx: Lexer) -> (int, Lexer) {
    let c = cs[i];
    let next_is_squote = i + 1 < cs.len() && cs[i + 1] == '\'';
    let next_is_dquote = i + 1 < cs.len() && cs[i + 1] == '"';
    if lx.state == ParserState::Escaped {
        // any escaped character is literal; return to the region the escape began in
        (i + 1, Lexer { state: lx.prev, prev: ParserState::Normal, current: lx.current.push(c), ..lx })
    } else if c == '\'' {
        match lx.state {
            ParserState::Normal => (i + 1, enter(lx, ParserState::SingleQuote)),
            ParserState::SingleQuote => (i + 1, enter(lx, ParserState::Normal)),
            _ => (i + 1, emit(lx, c)),
        }
    } else if c == '"' {
        match lx.state {
            ParserState::Normal => (i + 1, enter(lx, ParserState::DoubleQuote)),
            ParserState::DoubleQuote => (i + 1, enter(lx, ParserState::Normal)),
            _ => (i + 1, emit(lx, c)),
        }
    } else if c == ' ' {
        if lx.state == ParserState::Normal {
            (i + 1, flush(lx))
        } else {
            (i + 1, emit(lx, c))
        }
    } else if c == '\\' {
        match lx.state {
            ParserState::SingleQuote => (i + 1, emit(lx, c)),
            ParserState::BSQOpen => if next_is_squote {
                (i + 2, enter(emit(lx, '\''), ParserState::Normal))
            } else if next_is_dquote {
                (i + 2, emit(lx, '"'))
            } else {
                (i + 1, emit(lx, c))
            },
            ParserState::Normal => if next_is_squote {
                (i + 2, enter(emit(lx, '\''), ParserState::BSQOpen))
            } else {
                (i + 1, Lexer { state: ParserState::Escaped, prev: ParserState::Normal, ..lx })
            },
            _ => (i + 1, Lexer { state: ParserState::Escaped, prev: lx.state, ..lx }),
        }
    } else {
        (i + 1, emit(lx, c))
    }
}

/// The lexer state after reading `cs[i..]` from state `lx`.
pub open spec fn lex_run(cs: Seq<char>, i: int, lx: Lexer) -> Lexer
    decreases cs.len() - i,
{
    if i < 0 || i >= cs.len() {
        lx
    } else {
        let (j, next) = lex_step(cs, i, lx);
        lex_run(cs, j, next)
    }
}

/// The arguments of a command line: the finished arguments once the whole line is
/// read and the last one is ended.
pub open spec fn command_args(cs: Seq<char>) -> Seq<Seq<char>> {
    flush(lex_run(cs, 0, lexer_start())).args
}

/// An unquoted lexer with finished arguments `args`, building `current`.
pub open spec fn unquoted(current: Seq<char>, args: Seq<Seq<char>>) -> Lexer {
    Lexer { state: ParserState::Normal, prev: ParserState::Normal, current, args }
}

/// On plain text, the lexer after the first `i` characters is unquoted, with the
/// non-empty pieces before the last space finished and the piece after it in progress.
proof fn lemma_lex_plain(cs: Seq<char>, i: int)
    requires
        plain(cs),
        0 <= i <= cs.len(),
    ensures
        lex_run(cs, 0, lexer_start()) == lex_run(
            cs,
            i,
            unquoted(
                split_fold(cs.take(i), ' ').1,
                nonempty_pieces(split_fold(cs.take(i), ' ').0),
            ),
        ),
    decreases i,
{
    if i == 0 {
        assert(cs.take(0) =~= Seq::<char>::empty());
        assert(unquoted(Seq::empty(), Seq::empty()) == lexer_start());
    } else {
        lemma_lex_plain(cs, i - 1);
        let c = cs[i - 1];
        assert(cs.take(i).drop_last() =~= cs.take(i - 1));
        assert(cs.take(i).last() == c);
        let (acc, cur) = split_fold(cs.take(i - 1), ' ');
        if c == ' ' {
            assert(acc.push(cur).drop_last() =~= acc);
        }
    }
}

/// A plain line (no quotes, no backslashes) splits into the non-empty pieces between
/// spaces, just as a pipeline stage does.
pub proof fn law_plain_line_splits_at_spaces(cs: Seq<char>)
    requires
        plain(cs),
    ensures
        command_args(cs) == nonempty_pieces(split_on(cs, ' ')),
        command_args(cs) == stage_args(cs),
{
    lemma_lex_plain(cs, cs.len() as int);
    assert(cs.take(cs.len() as int) =~= cs);
    let (acc, cur) = split_fold(cs, ' ');
    assert(acc.push(cur).drop_last() =~= acc);
    law_plain_stage_splits_at_spaces(cs);
}

/// Inside double quotes, text without quotes or backslashes at `cs[i..]` is added as it
/// is: after its first `k` characters the lexer has only grown its current argument.
proof fn lemma_lex_dq_text(cs: Seq<char>, i: int, lx: Lexer, w: Seq<char>, k: int)
    requires
        lx.state == ParserState::DoubleQuote,
        dq_text(w),
        0 <= i,
        i + w.len() <= cs.len(),
        forall|j: int| 0 <= j < w.len() ==> cs[i + j] == #[trigger] w[j],
        0 <= k <= w.len(),
    ensures
        lex_run(cs, i, lx) == lex_run(cs, i + k, Lexer { current: lx.current + w.take(k), ..lx }),
    decreases k,
{
    if k == 0 {
        assert(lx.current + w.take(0) =~= lx.current);
        assert(Lexer { current: lx.current + w.take(0), ..lx } == lx);
    } else {
        lemma_lex_dq_text(cs, i, lx, w, k - 1);
        let l1 = Lexer { current: lx.current + w.take(k - 1), ..lx };
        let c = w[k - 1];
        assert(cs[i + k - 1] == c);
        assert(c != '"' && c != '\\');
        assert(lex_step(cs, i + k - 1, l1) == (i + k, emit(l1, c)));
        assert(lx.current + w.take(k - 1).push(c) =~= lx.current + w.take(k));
        assert((lx.current + w.take(k - 1)).push(c) =~= lx.current + w.take(k));
        assert(emit(l1, c) == Lexer { current: lx.current + w.take(k), ..lx });
    }
}

/// An escape begun inside double quotes returns to the double-quoted region: in
/// `"a\cb"` (with `a`, `b` free of quotes and backslashes) the backslash makes `c`
/// literal (a quote, a space, anything) and the quoted argument goes on, giving the
/// single argument `a c b`, as a pipeline stage does.
pub proof fn law_escape_in_double_quotes(a: Seq<char>, c: char, b: Seq<char>)
    requires
        dq_text(a),
        dq_text(b),
    ensures
        command_args(seq!['"'] + a + seq!['\\', c] + b + seq!['"']) == seq![a + seq![c] + b],
        command_args(seq!['"'] + a + seq!['\\', c] + b + seq!['"']) == stage_args(
            seq!['"'] + a + seq!['\\', c] + b + seq!['"'],
        ),
{
    let cs = seq!['"'] + a + seq!['\\', c] + b + seq!['"'];
    let p: int = 1 + a.len() as int;
    let q: int = p + 2 + b.len() as int;
    assert(cs.len() == q + 1);
    assert(cs[0] == '"');
    assert(cs[p] == '\\');
    assert(cs[p + 1] == c);
    assert(cs[q] == '"');
    assert forall|j: int| 0 <= j < a.len() implies cs[1 + j] == #[trigger] a[j] by {}
    assert forall|j: int| 0 <= j < b.len() implies cs[p + 2 + j] == #[trigger] b[j] by {}
    let l0 = lexer_start();
    let la = enter(l0, ParserState::DoubleQuote);
    assert(lex_step(cs, 0, l0) == (1int, la));
    assert(lex_run(cs, 0, l0) == lex_run(cs, 1, la));
    lemma_lex_dq_text(cs, 1, la, a, a.len() as int);
    assert(a.take(a.len() as int) =~= a);
    assert(Seq::<char>::empty() + a =~= a);
    let lb = Lexer { current: a, ..la };
    assert(la.current + a.take(a.len() as int) =~= a);
    assert(Lexer { current: la.current + a.take(a.len() as int), ..la } == lb);
    assert(lex_run(cs, 1, la) == lex_run(cs, p, lb));
    let le = Lexer { state: ParserState::Escaped, prev: ParserState::DoubleQuote, ..lb };
    assert(lex_step(cs, p, lb) == (p + 1, le));
    assert(lex_run(cs, p, lb) == lex_run(cs, p + 1, le));
    let lc = Lexer { state: ParserState::DoubleQuote, prev: ParserState::Normal, current: a.push(c), ..lb };
    assert(lex_step(cs, p + 1, le) == (p + 2, lc));
    assert(lex_run(cs, p + 1, le) == lex_run(cs, p + 2, lc));
    lemma_lex_dq_text(cs, p + 2, lc, b, b.len() as int);
    assert(b.take(b.len() as int) =~= b);
    let ld = Lexer { current: a.push(c) + b, ..lc };
    assert(Lexer { current: lc.current + b.take(b.len() as int), ..lc } == ld);
    assert(lex_run(cs, p + 2, lc) == lex_run(cs, q, ld));
    assert(lex_step(cs, q, ld) == (q + 1, enter(ld, ParserState::Normal)));
    assert(lex_run(cs, q, ld) == lex_run(cs, q + 1, enter(ld, ParserState::Normal)));
    assert(lex_run(cs, q + 1, enter(ld, ParserState::Normal)) == enter(ld, ParserState::Normal));
    assert(lex_run(cs, 0, l0) == enter(ld, ParserState::Normal));
    assert(a.push(c) + b =~= a + seq![c] + b);
    assert(ld.args =~= Seq::<Seq<char>>::empty());
    assert(Seq::<Seq<char>>::empty().push(a + seq![c] + b) =~= seq![a + seq![c] + b]);
    law_stage_escape_in_double_quotes(a, c, b);
}

/// Running the lexer from a state whose finished arguments are all non-empty finishes
/// only non-empty arguments.
proof fn lemma_lex_nonempty(cs: Seq<char>, i: int, lx: Lexer)
    requires
        forall|k: int| 0 <= k < lx.args.len() ==> (#[trigger] lx.args[k]).len() > 0,
    ensures
        forall|k: int| 0 <= k < lex_run(cs, i, lx).args.len() ==> (#[trigger] lex_run(cs, i, lx).args[k]).len() > 0,
    decreases cs.len() - i,
{
    if 0 <= i < cs.len() {
        let (j, next) = lex_step(cs, i, lx);
        lemma_lex_nonempty(cs, j, next);
    }
}

/// No argument of a command line is empty.
pub proof fn law_command_args_nonempty(cs: Seq<char>)
    ensures
        forall|k: int| 0 <= k < command_args(cs).len() ==> (#[trigger] command_args(cs)[k]).len() > 0,
{
    lemma_lex_nonempty(cs, 0, lexer_start());
}

/// The exec lexer state, as a `Lexer`.
pub open spec fn lexer_of(
    state: ParserState,
    prev: ParserState,
    current: Seq<char>,
    args: Seq<String>,
) -> Lexer {
    Lexer { state, prev, current, args: views(args) }
}

/// Ends the argument being built, if it holds anything.
fn flush_current(current: &mut Vec<char>, args: &mut Vec<String>)
    ensures
        ({
            let l = flush(Lexer { state: ParserState::Normal, prev: ParserState::Normal, current: old(current)@, args: views(old(args)@) });
            final(current)@ == l.current && views(final(args)@) == l.args
        }),
{
    if current.len() > 0 {
        let ghost before = args@;
        let s = string_from_chars(current);
        args.push(s);
        assert(views(args@) =~= views(before).push(old(current)@));
        *current = Vec::new();
    }
}

/// Reads the character at `i` (and the next one, when it closes or escapes a
/// backslash-single-quote region), updating the lexer state.
fn lex_one(
    cs: &Vec<char>,
    i: usize,
    state: &mut ParserState,
    prev: &mut ParserState,
    current: &mut Vec<char>,
    args: &mut Vec<String>,
) -> (j: usize)
    requires
        i < cs.len(),
    ensures
        i < j <= cs.len(),
        lex_step(cs@, i as int, lexer_of(*old(state), *old(prev), old(current)@, old(args)@)) == (
        j as int,
        lexer_of(*final(state), *final(prev), final(current)@, final(args)@),
        ),
{
    let c = cs[i];
    let next_is_squote = i + 1 < cs.len() && cs[i + 1] == '\'';
    let next_is_dquote = i + 1 < cs.len() && cs[i + 1] == '"';
    if *state == ParserState::Escaped {
        *state = *prev;
        *prev = ParserState::Normal;
        current.push(c);
        i + 1
    } else if c == '\'' {
        match *state {
            ParserState::Normal => *state = ParserState::SingleQuote,
            ParserState::SingleQuote => *state = ParserState::Normal,
            _ => current.push(c),
        }
        i + 1
    } else if c == '"' {
        match *state {
            ParserState::Normal => *state = ParserState::DoubleQuote,
            ParserState::DoubleQuote => *state = ParserState::Normal,
            _ => current.push(c),
        }
        i + 1
    } else if c == ' ' {
        if *state == ParserState::Normal {
            flush_current(current, args);
        } else {
            current.push(c);
        }
        i + 1
    } else if c == '\\' {
        match *state {
            ParserState::SingleQuote => {
                current.push(c);
                i + 1
            },
            ParserState::BSQOpen => {
                if next_is_squote {
                    current.push('\'');
                    *state = ParserState::Normal;
                    i + 2
                } else if next_is_dquote {
                    current.push('"');
                    i + 2
                } else {
                    current.push(c);
                    i + 1
                }
            },
            ParserState::Normal => {
                if next_is_squote {
                    current.push('\'');
                    *state = ParserState::BSQOpen;
                    i + 2
                } else {
                    *prev = ParserState::Normal;
                    *state = ParserState::Escaped;
                    i + 1
                }
            },
            _ => {
                *prev = *state;
                *state = ParserState::Escaped;
                i + 1
            },
        }
    } else {
        current.push(c);
        i + 1
    }
}

/// Resolves and executes shell commands against the entries in `PATH`.
pub struct Commands {
    pub paths: Vec<String>,
}

/// Why a command line could not be split into a command and its arguments.
#[derive(PartialEq, Eq, Structural, Clone, Copy, Debug)]
pub enum CommandError {
    /// The line holds nothing but white space.
    Empty,
}

impl CommandError {
    /// The message printed for this error.
    pub fn message(&self) -> (r: String)
        ensures
            r@ == seq!['c', 'o', 'm', 'm', 'a', 'n', 'd', ' ', 'i', 's', ' ', 'e', 'm', 'p', 't', 'y'],
    {
        string_of(&['c', 'o', 'm', 'm', 'a', 'n', 'd', ' ', 'i', 's', ' ', 'e', 'm', 'p', 't', 'y'])
    }
}

/// What a command line asks the stand-alone runner to do.
#[derive(PartialEq, Eq, Structural, Clone, Copy, Debug)]
pub enum Dispatch {
    /// Change directory to each argument in turn.
    Cd,
    /// The `complete` builtin.
    Complete,
    /// `echo`: run an `echo` found on `PATH`, or else the builtin.
    Echo,
    /// Leave the shell.
    Exit,
    /// Print the working directory.
    Pwd,
    /// Report how each argument would be run.
    Type,
    /// Run the named program, or report it unknown.
    Program,
}

/// How the stand-alone runner treats command `cmd`.
pub open spec fn dispatch_spec(cmd: Seq<char>) -> Dispatch {
    if cmd == seq!['c', 'd'] {
        Dispatch::Cd
    } else if cmd == seq!['c', 'o', 'm', 'p', 'l', 'e', 't', 'e'] {
        Dispatch::Complete
    } else if cmd == seq!['e', 'c', 'h', 'o'] {
        Dispatch::Echo
    } else if cmd == seq!['e', 'x', 'i', 't'] {
        Dispatch::Exit
    } else if cmd == seq!['p', 'w', 'd'] {
        Dispatch::Pwd
    } else if cmd == seq!['t', 'y', 'p', 'e'] {
        Dispatch::Type
    } else {
        Dispatch::Program
    }
}

/// The arguments handed to a program: all of them without a redirect, or those
/// before the redirect operator.
pub open spec fn program_args_spec(args: Seq<Seq<char>>, rd: (RedirectType, int, Seq<char>, bool)) -> Seq<
    Seq<char>,
> {
    if rd.0 == RedirectType::NoRedirect {
        args
    } else {
        args.take(rd.1)
    }
}

impl Commands {
    /// Creates a new `Commands` instance from the value of the `PATH` environment
    /// variable (`None` when it is unset).
    pub fn new(path_var: Option<&str>) -> (r: Self)
        ensures
            views(r.paths@) == paths_from_var_spec(
                match path_var {
                    Some(v) => Some(v@),
                    None => None,
                },
            ),
    {
        Self { paths: paths_from_var(path_var) }
    }

    /// Searches `PATH` for an executable named `cmd`. Returns its full path if found.
    ///
    /// `is_exec` tells whether a path names an existing executable file.
    pub fn is_executable_command<F: Fn(&String) -> bool>(&self, cmd: &str, is_exec: F) -> (r:
        Option<String>)
        requires
            forall|s: &String| is_exec.requires((s,)),
        ensures
            lookup_ok(is_exec, views(self.paths@), cmd@, opt_view(r)),
    {
        find_in_paths(cmd, &self.paths, is_exec)
    }

    /// Splits a raw input line into a command name and its parsed arguments.
    ///
    /// Returns an error if the trimmed input is empty.
    pub fn parse_cmd(input: &str) -> (r: Result<(String, Vec<String>), CommandError>)
        requires
            trim(input@).len() > 0 ==> command_args(trim(input@)).len() > 0,
        ensures
            match r {
                Ok((cmd, args)) => trim(input@).len() > 0 && cmd@ == command_args(trim(input@))[0]
                    && views(args@) == command_args(trim(input@)).drop_first(),
                Err(e) => e == CommandError::Empty && trim(input@).len() == 0,
            },
    {
        let input = trim_string(input);
        if input.as_str().unicode_len() == 0 {
            return Err(CommandError::Empty);
        }
        let mut input_list = Commands::parse_input(input.as_str());
        let ghost all = input_list@;
        let cmd = input_list.remove(0);
        assert(views(input_list@) =~= views(all).drop_first());
        Ok((cmd, input_list))
    }

    /// How the runner treats command `cmd`.
    pub fn dispatch(cmd: &str) -> (r: Dispatch)
        ensures
            r == dispatch_spec(cmd@),
    {
        if str_is(cmd, &['c', 'd']) {
            Dispatch::Cd
        } else if str_is(cmd, &['c', 'o', 'm', 'p', 'l', 'e', 't', 'e']) {
            Dispatch::Complete
        } else if str_is(cmd, &['e', 'c', 'h', 'o']) {
            Dispatch::Echo
        } else if str_is(cmd, &['e', 'x', 'i', 't']) {
            Dispatch::Exit
        } else if str_is(cmd, &['p', 'w', 'd']) {
            Dispatch::Pwd
        } else if str_is(cmd, &['t', 'y', 'p', 'e']) {
            Dispatch::Type
        } else {
            Dispatch::Program
        }
    }

    /// Reads the redirect of a program's arguments and the arguments the program
    /// receives: all of them without a redirect, or those before the operator.
    pub fn execution_plan(args: &Vec<String>) -> (r: Result<(Redirect, Vec<String>), RedirectError>)
        ensures
            match r {
                Ok((rd, prog_args)) => redirect_spec(views(args@)) == Ok::<_, RedirectError>(
                    redirect_view(rd),
                ) && views(prog_args@) == program_args_spec(views(args@), redirect_view(rd)),
                Err(e) => redirect_spec(views(args@)) == Err::<
                    (RedirectType, int, Seq<char>, bool),
                    _,
                >(e),
            },
    {
        let redirect = match Redirect::has_redirect(args.as_slice()) {
            Ok(rd) => rd,
            Err(e) => return Err(e),
        };
        if redirect.redirect_type == RedirectType::NoRedirect {
            let all = copy_strings(args);
            return Ok((redirect, all));
        }
        let mut prog_args: Vec<String> = Vec::new();
        let mut i: usize = 0;
        while i < redirect.position
            invariant
                i <= redirect.position < args.len(),
                views(prog_args@) =~= views(args@).take(i as int),
            decreases redirect.position - i,
        {
            let ghost before = prog_args@;
            prog_args.push(copy_string(&args[i]));
            assert(views(prog_args@) =~= views(before).push(args@[i as int]@));
            assert(views(args@).take(i + 1) =~= views(args@).take(i as int).push(args@[i as int]@));
            i += 1;
        }
        Ok((redirect, prog_args))
    }

    /// Parses the argument portion of a command line into a vector of strings,
    /// handling single quotes, double quotes, backslash-single-quote regions, and escape
    /// sequences.
    pub fn parse_input(args_str: &str) -> (r: Vec<String>)
        ensures
            views(r@) == command_args(args_str@),
    {
        let cs = chars_of(args_str);
        let mut args: Vec<String> = Vec::new();
        let mut current: Vec<char> = Vec::new();
        let mut state = ParserState::Normal;
        let mut prev = ParserState::Normal;
        let mut i: usize = 0;
        assert(views(args@) =~= Seq::<Seq<char>>::empty());
        assert(lexer_of(state, prev, current@, args@) == lexer_start());
        while i < cs.len()
            invariant
                i <= cs.len(),
                cs@ == args_str@,
                lex_run(cs@, 0, lexer_start()) == lex_run(
                    cs@,
                    i as int,
                    lexer_of(state, prev, current@, args@),
                ),
            decreases cs.len() - i,
        {
            let ghost before = lexer_of(state, prev, current@, args@);
            let j = lex_one(&cs, i, &mut state, &mut prev, &mut current, &mut args);
            assert(lex_run(cs@, i as int, before) == lex_run(
                cs@,
                j as int,
                lexer_of(state, prev, current@, args@),
            ));
            i = j;
        }
        let ghost last = lexer_of(state, prev, current@, args@);
        flush_current(&mut current, &mut args);
        assert(views(args@) == flush(last).args);
        args
    }
}

} // verus!
