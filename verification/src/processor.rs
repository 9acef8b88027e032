//! Command dispatch: decides what a raw input line asks the shell to do (a builtin
//! handled outside pipelines, a `history` request, or a pipeline), and computes the
//! text of the history listing and of a backgrounded command.
use vstd::prelude::*;
use rustyline::history::FileHistory;

use crate::builtin::{Builtin, CompletionTable};
use crate::history::{Helper, entries_after_add, history_add, history_config, history_entries, history_entry, history_len};
use crate::jobs::{Jobs, PollOutcome, done_lines, polled};
use crate::text::{
    append_str, chars_of, copy_string, decimal, is_whitespace, is_ws, push_decimal, str_is,
    string_from_range, trim, trim_end, trim_end_string, trim_string, views, words, split_words,
    lemma_trim_head, lemma_words_after_word,
};
use crate::utils::{paths_from_var, paths_from_var_spec};

verus! {

/// A `history` request.
pub enum HistoryRequest {
    /// `history`: list every entry.
    ShowAll,
    /// `history <n>`: list the last `n` entries (`n` is 0 when the argument is not a number).
    ShowLast(usize),
    /// `history -r <file>`: add the lines of a file to the history.
    Read(String),
    /// `history -a <file>`: append new entries to a file.
    Append(String),
    /// `history -w <file>`: write all entries to a file.
    Write(String),
    /// `-r`, `-a` or `-w` without exactly one file name: do nothing.
    Ignore,
}

/// What an input line asks the shell to do.
pub enum Action {
    /// A blank line: nothing.
    Nothing,
    /// `cd`, with the rest of the line (trimmed) as the directory.
    Cd(String),
    /// `exit`: save the history and leave.
    Exit,
    /// `jobs`: print the job table.
    Jobs,
    /// A `history` request.
    History(HistoryRequest),
    /// Anything else: run the (trimmed) line as a pipeline.
    Pipeline(String),
}

/// A `history` request, with file names as character sequences.
pub enum HistoryPlan {
    ShowAll,
    ShowLast(usize),
    Read(Seq<char>),
    Append(Seq<char>),
    Write(Seq<char>),
    Ignore,
}

/// What an input line asks the shell to do, with texts as character sequences.
pub enum Plan {
    Nothing,
    Cd(Seq<char>),
    Exit,
    Jobs,
    History(HistoryPlan),
    Pipeline(Seq<char>),
}

impl HistoryRequest {
    pub open spec fn plan(self) -> HistoryPlan {
        match self {
            HistoryRequest::ShowAll => HistoryPlan::ShowAll,
            HistoryRequest::ShowLast(n) => HistoryPlan::ShowLast(n),
            HistoryRequest::Read(p) => HistoryPlan::Read(p@),
            HistoryRequest::Append(p) => HistoryPlan::Append(p@),
            HistoryRequest::Write(p) => HistoryPlan::Write(p@),
            HistoryRequest::Ignore => HistoryPlan::Ignore,
        }
    }
}

impl Action {
    pub open spec fn plan(self) -> Plan {
        match self {
            Action::Nothing => Plan::Nothing,
            Action::Cd(a) => Plan::Cd(a@),
            Action::Exit => Plan::Exit,
            Action::Jobs => Plan::Jobs,
            Action::History(h) => Plan::History(h.plan()),
            Action::Pipeline(p) => Plan::Pipeline(p@),
        }
    }
}

/// The value of a string of decimal digits.
pub open spec fn digits_value(d: Seq<char>) -> int
    decreases d.len(),
{
    if d.len() == 0 {
        0
    } else {
        digits_value(d.drop_last()) * 10 + (d.last() as int - '0' as int)
    }
}

/// Every character is an ASCII digit.
pub open spec fn all_digits(d: Seq<char>) -> bool {
    forall|i: int| 0 <= i < d.len() ==> '0' <= #[trigger] d[i] && d[i] <= '9'
}

/// `s` without a leading `+`.
pub open spec fn unsigned_digits(s: Seq<char>) -> Seq<char> {
    if s.len() > 0 && s[0] == '+' {
        s.drop_first()
    } else {
        s
    }
}

/// `str::parse::<usize>`: an optional `+`, then one or more digits whose value fits.
pub open spec fn parse_usize_spec(s: Seq<char>) -> Option<usize> {
    let d = unsigned_digits(s);
    if d.len() > 0 && all_digits(d) && digits_value(d) <= usize::MAX {
        Some(digits_value(d) as usize)
    } else {
        None
    }
}

/// A longer run of digits has at least the value of its prefix.
proof fn lemma_digits_value_prefix(d: Seq<char>, k: int)
    requires
        all_digits(d),
        0 <= k <= d.len(),
    ensures
        digits_value(d.take(k)) <= digits_value(d),
        0 <= digits_value(d.take(k)),
    decreases d.len(),
{
    if d.len() > 0 {
        if k == d.len() {
            assert(d.take(k) =~= d);
            lemma_digits_value_prefix(d.drop_last(), k - 1);
            assert(d.drop_last().take(k - 1) =~= d.take(k).drop_last());
        } else {
            lemma_digits_value_prefix(d.drop_last(), k);
            assert(d.drop_last().take(k) =~= d.take(k));
            lemma_digits_value_prefix(d.drop_last(), d.len() - 1);
            assert(d.drop_last().take(d.len() - 1) =~= d.drop_last());
        }
    }
}

/// Parses `s` as a `usize` (`str::parse::<usize>`), `None` on failure.
pub fn parse_usize(s: &str) -> (r: Option<usize>)
    ensures
        r == parse_usize_spec(s@),
{
    let cs = chars_of(s);
    let start: usize = if cs.len() > 0 && cs[0] == '+' {
        1
    } else {
        0
    };
    let ghost d = unsigned_digits(s@);
    assert(d =~= cs@.skip(start as int));
    if start == cs.len() {
        return None;
    }
    let mut acc: usize = 0;
    let mut i: usize = start;
    while i < cs.len()
        invariant
            start <= i <= cs.len(),
            cs@ == s@,
            d == cs@.skip(start as int),
            d == unsigned_digits(s@),
            all_digits(d.take(i - start)),
            acc == digits_value(d.take(i - start)),
        decreases cs.len() - i,
    {
        let c = cs[i];
        if !('0' <= c && c <= '9') {
            assert(d[i - start] == c);
            assert(!all_digits(d));
            return None;
        }
        let v = (c as u32 - '0' as u32) as usize;
        assert(v == c as int - '0' as int);
        assert(d.take(i - start + 1).drop_last() =~= d.take(i - start));
        assert(d.take(i - start + 1).last() == c);
        match acc.checked_mul(10) {
            Some(m) => match m.checked_add(v) {
                Some(a) => {
                    acc = a;
                },
                None => {
                    proof {
                        assert(digits_value(d.take(i - start + 1)) == m + v);
                        if all_digits(d) {
                            lemma_digits_value_prefix(d, i - start + 1);
                        }
                    }
                    return None;
                },
            },
            None => {
                proof {
                    if all_digits(d) {
                        lemma_digits_value_prefix(d, i - start + 1);
                    }
                }
                return None;
            },
        }
        i += 1;
    }
    assert(d.take(i - start) =~= d);
    Some(acc)
}

/// Index of the first white-space character of `t` at or after `i`, or its length.
pub open spec fn first_ws_from(t: Seq<char>, i: int) -> int
    decreases t.len() - i,
{
    if i < 0 || i >= t.len() {
        t.len() as int
    } else if is_ws(t[i]) {
        i
    } else {
        first_ws_from(t, i + 1)
    }
}

/// Index of the first white-space character of `t`, or its length.
pub open spec fn first_ws(t: Seq<char>) -> int {
    first_ws_from(t, 0)
}

/// The first white-space character at or after `i` ends a run of other characters.
proof fn lemma_first_ws_from(t: Seq<char>, i: int)
    requires
        0 <= i <= t.len(),
    ensures
        i <= first_ws_from(t, i) <= t.len(),
        forall|j: int| i <= j < first_ws_from(t, i) ==> !is_ws(#[trigger] t[j]),
        first_ws_from(t, i) < t.len() ==> is_ws(t[first_ws_from(t, i)]),
    decreases t.len() - i,
{
    if i < t.len() && !is_ws(t[i]) {
        lemma_first_ws_from(t, i + 1);
    }
}

/// The plan's reading of a line agrees with `split_whitespace`: the first word is the
/// text before the first white space, and the words after it are those of the rest.
pub proof fn law_first_word_split(input: Seq<char>)
    ensures
        ({
            let t = trim(input);
            let k = first_ws(t);
            t.len() > 0 ==> words(t) == seq![t.take(k)] + words(t.skip(k))
        }),
{
    let t = trim(input);
    if t.len() > 0 {
        lemma_trim_head(input);
        lemma_first_ws_from(t, 0);
        let k = first_ws(t);
        let a = t.take(k);
        let b = t.skip(k);
        assert(a + b =~= t);
        assert forall|j: int| 0 <= j < a.len() implies !is_ws(#[trigger] a[j]) by {
            assert(a[j] == t[j]);
        }
        lemma_words_after_word(a, b);
    }
}

/// What a `history` line with arguments `args` asks for.
pub open spec fn history_plan(args: Seq<Seq<char>>) -> HistoryPlan {
    if args.len() == 0 {
        HistoryPlan::ShowAll
    } else if args[0] == seq!['-', 'r'] {
        if args.len() == 2 { HistoryPlan::Read(args[1]) } else { HistoryPlan::Ignore }
    } else if args[0] == seq!['-', 'a'] {
        if args.len() == 2 { HistoryPlan::Append(args[1]) } else { HistoryPlan::Ignore }
    } else if args[0] == seq!['-', 'w'] {
        if args.len() == 2 { HistoryPlan::Write(args[1]) } else { HistoryPlan::Ignore }
    } else {
        HistoryPlan::ShowLast(
            match parse_usize_spec(args[0]) {
                Some(n) => n,
                None => 0,
            },
        )
    }
}

/// `history` with no argument lists everything, and only then; `-r`, `-a` and `-w`
/// act on exactly one following file name and are ignored otherwise.
pub proof fn law_history_flags(args: Seq<Seq<char>>)
    ensures
        history_plan(args) == HistoryPlan::ShowAll <==> args.len() == 0,
        args.len() > 0 && (args[0] == seq!['-', 'r'] || args[0] == seq!['-', 'a'] || args[0] == seq!['-', 'w'])
            && args.len() != 2 ==> history_plan(args) == HistoryPlan::Ignore,
        args.len() == 2 && args[0] == seq!['-', 'r'] ==> history_plan(args) == HistoryPlan::Read(args[1]),
        args.len() == 2 && args[0] == seq!['-', 'a'] ==> history_plan(args) == HistoryPlan::Append(args[1]),
        args.len() == 2 && args[0] == seq!['-', 'w'] ==> history_plan(args) == HistoryPlan::Write(args[1]),
        history_plan(args) == HistoryPlan::Ignore ==> args.len() > 0 && args.len() != 2,
{
}

/// What input line `input` asks the shell to do: nothing for a blank line; else, by its
/// first word, `cd` (with the rest of the line), `exit`, `jobs`, `history` (with the
/// following words), or else the whole trimmed line as a pipeline.
pub open spec fn plan_spec(input: Seq<char>) -> Plan {
    let t = trim(input);
    let k = first_ws(t);
    let first = t.take(k);
    let rest = t.skip(k);
    if t.len() == 0 {
        Plan::Nothing
    } else if first == seq!['c', 'd'] {
        Plan::Cd(trim(rest))
    } else if first == seq!['e', 'x', 'i', 't'] {
        Plan::Exit
    } else if first == seq!['j', 'o', 'b', 's'] {
        Plan::Jobs
    } else if first == seq!['h', 'i', 's', 't', 'o', 'r', 'y'] {
        Plan::History(history_plan(words(rest)))
    } else {
        Plan::Pipeline(t)
    }
}

/// Index of the first white-space character of `cs`, or its length.
fn first_ws_index(cs: &Vec<char>) -> (k: usize)
    ensures
        k == first_ws(cs@),
        k <= cs.len(),
{
    let mut k: usize = 0;
    while k < cs.len() && !is_whitespace(cs[k])
        invariant
            k <= cs.len(),
            first_ws(cs@) == first_ws_from(cs@, k as int),
        decreases cs.len() - k,
    {
        k += 1;
    }
    k
}

/// Decides what a `history` line with arguments `args` asks for.
fn plan_history(args: &Vec<String>) -> (r: HistoryRequest)
    ensures
        r.plan() == history_plan(views(args@)),
{
    if args.len() == 0 {
        return HistoryRequest::ShowAll;
    }
    let a0 = args[0].as_str();
    if str_is(a0, &['-', 'r']) {
        if args.len() == 2 { HistoryRequest::Read(copy_string(&args[1])) } else { HistoryRequest::Ignore }
    } else if str_is(a0, &['-', 'a']) {
        if args.len() == 2 { HistoryRequest::Append(copy_string(&args[1])) } else { HistoryRequest::Ignore }
    } else if str_is(a0, &['-', 'w']) {
        if args.len() == 2 { HistoryRequest::Write(copy_string(&args[1])) } else { HistoryRequest::Ignore }
    } else {
        let n = match parse_usize(a0) {
            Some(n) => n,
            None => 0,
        };
        HistoryRequest::ShowLast(n)
    }
}

/// The line the history listing shows for entry `i` (counted from 0): `  <i+1> <entry>`.
pub open spec fn history_line(i: int, entry: Seq<char>) -> Seq<char> {
    "  "@ + decimal((i + 1) as nat) + " "@ + entry
}

/// The history listing from entry `start` on.
pub open spec fn history_listing(entries: Seq<Seq<char>>, start: int) -> Seq<Seq<char>> {
    Seq::new((entries.len() - start) as nat, |k: int| history_line(start + k, entries[start + k]))
}

/// The entries after adding `lines` one by one, in order.
pub open spec fn entries_after_adds(config: (usize, bool, bool), entries: Seq<Seq<char>>, lines: Seq<Seq<char>>) -> Seq<Seq<char>>
    decreases lines.len(),
{
    if lines.len() == 0 {
        entries
    } else {
        entries_after_add(config, entries_after_adds(config, entries, lines.drop_last()), lines.last())
    }
}

/// Resolves and executes shell commands against the entries in `PATH`.
pub struct Processor {
    pub paths: Vec<String>,
    pub bi: Builtin,
    pub jobs: Jobs,
    pub history_helper: Helper,
    pub last_exit_code: i32,
}

impl Processor {
    /// Creates a new `Processor` from the value of the `PATH` environment variable
    /// (`None` when it is unset): no jobs, no completions, nothing written to history yet.
    pub fn new(path_var: Option<&str>) -> (r: Self)
        ensures
            views(r.paths@) == paths_from_var_spec(
                match path_var {
                    Some(v) => Some(v@),
                    None => None,
                },
            ),
            r.bi.completions_view() == Map::<Seq<char>, Seq<char>>::empty(),
            r.jobs.jobs@.len() == 0,
            r.history_helper.append_pos == 0,
            r.last_exit_code == 0,
    {
        Self {
            paths: paths_from_var(path_var),
            bi: Builtin::new(),
            jobs: Jobs::new(),
            history_helper: Helper::new(),
            last_exit_code: 0,
        }
    }

    /// The completions map, which the tab-completion helper reads.
    pub fn shared_completions(&self) -> (r: &CompletionTable)
        ensures
            r@ == self.bi.completions_view(),
    {
        self.bi.completions()
    }

    /// Decides what input line `input` asks the shell to do.
    pub fn plan_command(input: &str) -> (r: Action)
        ensures
            r.plan() == plan_spec(input@),
    {
        let t = trim_string(input);
        let cs = chars_of(t.as_str());
        if cs.len() == 0 {
            return Action::Nothing;
        }
        let k = first_ws_index(&cs);
        let first = string_from_range(&cs, 0, k);
        let rest = string_from_range(&cs, k, cs.len());
        assert(first@ == t@.take(k as int));
        assert(rest@ =~= t@.skip(k as int));
        let f = first.as_str();
        if str_is(f, &['c', 'd']) {
            Action::Cd(trim_string(rest.as_str()))
        } else if str_is(f, &['e', 'x', 'i', 't']) {
            Action::Exit
        } else if str_is(f, &['j', 'o', 'b', 's']) {
            Action::Jobs
        } else if str_is(f, &['h', 'i', 's', 't', 'o', 'r', 'y']) {
            let args = split_words(rest.as_str());
            Action::History(plan_history(&args))
        } else {
            Action::Pipeline(t)
        }
    }

    /// The history listing: every entry, or the last `last` of them, each as
    /// `  <number> <entry>` numbered from 1.
    pub fn show_history(history: &FileHistory, last: Option<usize>) -> (r: Vec<String>)
        requires
            last matches Some(n) ==> n <= history_entries(*history).len(),
        ensures
            views(r@) == history_listing(
                history_entries(*history),
                match last {
                    Some(n) => history_entries(*history).len() - n,
                    None => 0,
                },
            ),
    {
        let len = history_len(history);
        let start = match last {
            Some(n) => len - n,
            None => 0,
        };
        let ghost e = history_entries(*history);
        let mut lines: Vec<String> = Vec::new();
        let mut i = start;
        while i < len
            invariant
                start <= i <= len == e.len(),
                e == history_entries(*history),
                views(lines@) =~= history_listing(e, start as int).take(i - start),
            decreases len - i,
        {
            let mut line = String::new();
            append_str(&mut line, "  ");
            push_decimal(&mut line, (i as u64) + 1);
            append_str(&mut line, " ");
            let entry = history_entry(history, i);
            append_str(&mut line, entry.as_str());
            let ghost before = lines@;
            lines.push(line);
            assert(views(lines@) =~= views(before).push(history_line(i as int, e[i as int])));
            i += 1;
        }
        assert(history_listing(e, start as int).take(len - start) =~= history_listing(e, start as int));
        lines
    }

    /// The history listing after checking the count against the history's length:
    /// `None` when `last` asks for more entries than there are (the listing would
    /// start before the first entry), else the listing of `show_history`.
    pub fn try_show_history(history: &FileHistory, last: Option<usize>) -> (r: Option<Vec<String>>)
        ensures
            r is None <==> (last matches Some(n) && n > history_entries(*history).len()),
            r matches Some(v) ==> views(v@) == history_listing(
                history_entries(*history),
                match last {
                    Some(n) => history_entries(*history).len() - n,
                    None => 0,
                },
            ),
    {
        match last {
            Some(n) => {
                if n > history_len(history) {
                    return None;
                }
            },
            None => {},
        }
        Some(Self::show_history(history, last))
    }

    /// Adds each line to the history in order (`history -r`, loading a history file).
    pub fn add_history_lines(history: &mut FileHistory, lines: &Vec<String>)
        ensures
            history_entries(*final(history)) == entries_after_adds(
                history_config(*old(history)),
                history_entries(*old(history)),
                views(lines@),
            ),
            history_config(*final(history)) == history_config(*old(history)),
    {
        let mut i: usize = 0;
        let ghost start = history_entries(*history);
        let ghost config = history_config(*history);
        assert(views(lines@).take(0) =~= Seq::<Seq<char>>::empty());
        while i < lines.len()
            invariant
                i <= lines.len(),
                start == history_entries(*old(history)),
                config == history_config(*old(history)),
                history_config(*history) == config,
                history_entries(*history) == entries_after_adds(
                    config,
                    start,
                    views(lines@).take(i as int),
                ),
            decreases lines.len() - i,
        {
            history_add(history, lines[i].as_str());
            proof {
                let l = views(lines@).take(i + 1);
                assert(l.drop_last() =~= views(lines@).take(i as int));
                assert(l.last() == lines@[i as int]@);
            }
            i += 1;
        }
        assert(views(lines@).take(lines.len() as int) =~= views(lines@));
    }

    /// After a foreground pipeline exited with `code`: polls the background jobs
    /// (`polls[i]` for the job at index `i`), returns the lines for those that have
    /// just finished, and records `code` as the last exit code. No job is added or
    /// removed, and nothing else changes.
    pub fn finish_foreground(&mut self, code: i32, polls: &Vec<PollOutcome>) -> (r: Vec<String>)
        requires
            polls@.len() == old(self).jobs.jobs@.len(),
        ensures
            final(self).last_exit_code == code,
            final(self).jobs.jobs@ == polled(old(self).jobs.jobs@, polls@),
            views(r@) == done_lines(final(self).jobs.jobs@),
            final(self).paths@ == old(self).paths@,
            final(self).bi == old(self).bi,
            final(self).history_helper == old(self).history_helper,
    {
        let lines = self.jobs.check_done_jobs(polls);
        self.last_exit_code = code;
        lines
    }

    /// The text of a backgrounded command line: trailing white space, a final `&`, and
    /// the white space before it removed.
    pub fn background_command(input: &str) -> (r: String)
        ensures
            r@ == ({
                let s = trim_end(input@);
                if s.len() > 0 && s.last() == '&' {
                    trim_end(s.drop_last())
                } else {
                    trim_end(input@)
                }
            }),
    {
        let s = trim_end_string(input);
        let cs = chars_of(s.as_str());
        if cs.len() > 0 && cs[cs.len() - 1] == '&' {
            let without = string_from_range(&cs, 0, cs.len() - 1);
            assert(without@ =~= s@.drop_last());
            trim_end_string(without.as_str())
        } else {
            trim_end_string(input)
        }
    }
}

} // verus!
