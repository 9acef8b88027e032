//! Built-in shell commands (`cd`, `echo`, `exit`, `pwd`, `type`, `complete`, `jobs`):
//! the names the shell treats as builtins, the table of completion programs, and
//! what each builtin prints.
use vstd::prelude::*;

use crate::text::{append_str, chars_of, copy_string, join_with, str_eq, str_is, string_from_range, views};
use crate::utils::{find_in_paths, lookup_ok};

verus! {

/// Map from command name to the path of its completion program.
///
/// Each command name appears at most once.
pub struct CompletionTable {
    entries: Vec<(String, String)>,
}

/// The map described by a list of (name, program) entries, later entries winning.
pub open spec fn table_map(s: Seq<(String, String)>) -> Map<Seq<char>, Seq<char>>
    decreases s.len(),
{
    if s.len() == 0 {
        Map::empty()
    } else {
        table_map(s.drop_last()).insert(s.last().0@, s.last().1@)
    }
}

/// No two entries share a command name.
pub open spec fn keys_distinct(s: Seq<(String, String)>) -> bool {
    forall|i: int, j: int| 0 <= i < j < s.len() ==> s[i].0@ != s[j].0@
}

impl View for CompletionTable {
    type V = Map<Seq<char>, Seq<char>>;

    closed spec fn view(&self) -> Map<Seq<char>, Seq<char>> {
        table_map(self.entries@)
    }
}

/// An entry's name is in the map, with its program.
proof fn lemma_table_index(s: Seq<(String, String)>, i: int)
    requires
        keys_distinct(s),
        0 <= i < s.len(),
    ensures
        table_map(s).contains_key(s[i].0@),
        table_map(s)[s[i].0@] == s[i].1@,
    decreases s.len(),
{
    if i < s.len() - 1 {
        lemma_table_index(s.drop_last(), i);
    }
}

/// A name held by no entry is not in the map.
proof fn lemma_table_absent(s: Seq<(String, String)>, k: Seq<char>)
    requires
        forall|i: int| 0 <= i < s.len() ==> s[i].0@ != k,
    ensures
        !table_map(s).contains_key(k),
    decreases s.len(),
{
    if s.len() > 0 {
        lemma_table_absent(s.drop_last(), k);
    }
}

/// Replacing the entry that holds a name sets that name's program.
proof fn lemma_table_update(s: Seq<(String, String)>, i: int, x: (String, String))
    requires
        keys_distinct(s),
        0 <= i < s.len(),
        x.0@ == s[i].0@,
    ensures
        table_map(s.update(i, x)) == table_map(s).insert(x.0@, x.1@),
    decreases s.len(),
{
    if i == s.len() - 1 {
        assert(s.update(i, x).drop_last() =~= s.drop_last());
        assert(table_map(s.update(i, x)) =~= table_map(s).insert(x.0@, x.1@));
    } else {
        lemma_table_update(s.drop_last(), i, x);
        assert(s.update(i, x).drop_last() =~= s.drop_last().update(i, x));
        assert(s[i].0@ != s.last().0@);
        assert(table_map(s.update(i, x)) =~= table_map(s).insert(x.0@, x.1@));
    }
}

/// Removing the entry that holds a name removes that name.
proof fn lemma_table_remove(s: Seq<(String, String)>, i: int)
    requires
        keys_distinct(s),
        0 <= i < s.len(),
    ensures
        table_map(s.remove(i)) == table_map(s).remove(s[i].0@),
    decreases s.len(),
{
    if i == s.len() - 1 {
        assert(s.remove(i) =~= s.drop_last());
        assert forall|j: int| 0 <= j < s.drop_last().len() implies s.drop_last()[j].0@ != s[i].0@ by {
            assert(s.drop_last()[j] == s[j]);
        }
        lemma_table_absent(s.drop_last(), s[i].0@);
        assert(table_map(s.remove(i)) =~= table_map(s).remove(s[i].0@));
    } else {
        lemma_table_remove(s.drop_last(), i);
        assert(s.remove(i).drop_last() =~= s.drop_last().remove(i));
        assert(s.remove(i).last() == s.last());
        assert(s[i].0@ != s.last().0@);
        assert(table_map(s.remove(i)) =~= table_map(s).remove(s[i].0@));
    }
}

impl CompletionTable {
    #[verifier::type_invariant]
    spec fn inv(self) -> bool {
        keys_distinct(self.entries@)
    }

    /// An empty table.
    pub fn new() -> (r: Self)
        ensures
            r@ == Map::<Seq<char>, Seq<char>>::empty(),
    {
        let r = CompletionTable { entries: Vec::new() };
        assert(r@ =~= Map::<Seq<char>, Seq<char>>::empty());
        r
    }

    /// Index of the entry for `name`, if any.
    fn find(&self, name: &str) -> (r: Option<usize>)
        ensures
            match r {
                Some(i) => i < self.entries@.len() && self.entries@[i as int].0@ == name@,
                None => forall|i: int| 0 <= i < self.entries@.len() ==> self.entries@[i].0@ != name@,
            },
    {
        let mut i: usize = 0;
        while i < self.entries.len()
            invariant
                i <= self.entries@.len(),
                forall|j: int| 0 <= j < i ==> self.entries@[j].0@ != name@,
            decreases self.entries.len() - i,
        {
            if str_is_string(&self.entries[i].0, name) {
                return Some(i);
            }
            i += 1;
        }
        None
    }

    /// The completion program registered for `name`.
    pub fn get(&self, name: &str) -> (r: Option<&String>)
        ensures
            match r {
                Some(v) => self@.contains_key(name@) && v@ == self@[name@],
                None => !self@.contains_key(name@),
            },
    {
        proof {
            use_type_invariant(self);
        }
        match self.find(name) {
            Some(i) => {
                proof {
                    lemma_table_index(self.entries@, i as int);
                }
                Some(&self.entries[i].1)
            },
            None => {
                proof {
                    lemma_table_absent(self.entries@, name@);
                }
                None
            },
        }
    }

    /// Registers `program` as the completion program of `name`, replacing any earlier one.
    pub fn insert(&mut self, name: String, program: String)
        ensures
            final(self)@ == old(self)@.insert(name@, program@),
    {
        proof {
            use_type_invariant(&*self);
        }
        let found = self.find(name.as_str());
        let mut entries: Vec<(String, String)> = Vec::new();
        std::mem::swap(&mut entries, &mut self.entries);
        let ghost s = entries@;
        match found {
            Some(i) => {
                proof {
                    lemma_table_update(s, i as int, (name, program));
                }
                entries.set(i, (name, program));
                assert(keys_distinct(entries@));
            },
            None => {
                proof {
                    lemma_table_absent(s, name@);
                }
                entries.push((name, program));
                assert(entries@.drop_last() =~= s);
                assert(keys_distinct(entries@));
            },
        }
        self.entries = entries;
    }

    /// Removes the completion program of `name`, if there is one.
    pub fn remove(&mut self, name: &str)
        ensures
            final(self)@ == old(self)@.remove(name@),
    {
        proof {
            use_type_invariant(&*self);
        }
        match self.find(name) {
            Some(i) => {
                let mut entries: Vec<(String, String)> = Vec::new();
                std::mem::swap(&mut entries, &mut self.entries);
                let ghost s = entries@;
                proof {
                    lemma_table_remove(s, i as int);
                }
                let _ = entries.remove(i);
                assert(keys_distinct(entries@)) by {
                    assert forall|a: int, b: int| 0 <= a < b < entries@.len() implies entries@[a].0@
                        != entries@[b].0@ by {
                        let a0 = if a < i { a } else { a + 1 };
                        let b0 = if b < i { b } else { b + 1 };
                        assert(entries@[a] == s[a0]);
                        assert(entries@[b] == s[b0]);
                    }
                }
                self.entries = entries;
            },
            None => {
                proof {
                    lemma_table_absent(self.entries@, name@);
                    assert(self@.remove(name@) =~= self@);
                }
            },
        }
    }
}

/// The names recognised as shell builtins, in order.
pub open spec fn builtin_names() -> Seq<Seq<char>> {
    seq![
        seq!['c', 'd'],
        seq!['c', 'o', 'm', 'p', 'l', 'e', 't', 'e'],
        seq!['d', 'e', 'c', 'l', 'a', 'r', 'e'],
        seq!['e', 'c', 'h', 'o'],
        seq!['e', 'x', 'i', 't'],
        seq!['h', 'i', 's', 't', 'o', 'r', 'y'],
        seq!['j', 'o', 'b', 's'],
        seq!['p', 'w', 'd'],
        seq!['t', 'y', 'p', 'e'],
    ]
}

/// The views of a sequence of string slices.
pub open spec fn str_views(v: Seq<&str>) -> Seq<Seq<char>> {
    v.map_values(|s: &str| s@)
}

/// What a builtin prints and the code it exits with.
pub struct CommandOutput {
    pub code: i32,
    pub stdout: String,
    pub stderr: String,
}

/// A builtin's output: exit code 0, the given standard output and standard error.
pub open spec fn output_is(o: CommandOutput, out: Seq<char>, err: Seq<char>) -> bool {
    o.code == 0 && o.stdout@ == out && o.stderr@ == err
}

/// Holds the state the builtins share: the completion programs registered by `complete`.
pub struct Builtin {
    completions: CompletionTable,
}

impl Builtin {
    /// The completion programs registered so far.
    pub closed spec fn completions_view(&self) -> Map<Seq<char>, Seq<char>> {
        self.completions@
    }

    /// Creates a `Builtin` with an empty completions map.
    pub fn new() -> (r: Self)
        ensures
            r.completions_view() == Map::<Seq<char>, Seq<char>>::empty(),
    {
        Self::with_completions(CompletionTable::new())
    }

    /// Creates a `Builtin` holding the given completions map.
    pub fn with_completions(completions: CompletionTable) -> (r: Self)
        ensures
            r.completions_view() == completions@,
    {
        Self { completions }
    }

    /// The completions map.
    pub fn completions(&self) -> (r: &CompletionTable)
        ensures
            r@ == self.completions_view(),
    {
        &self.completions
    }

    /// The completions map, for the `complete` builtin to change.
    pub fn completions_mut(&mut self) -> (r: &mut CompletionTable)
        ensures
            r@ == old(self).completions_view(),
            final(self).completions_view() == final(r)@,
    {
        &mut self.completions
    }

    /// Returns `true` if `cmd` is the name of a shell builtin.
    pub fn is_builtin(cmd: &str) -> (r: bool)
        ensures
            r == builtin_names().contains(cmd@),
    {
        let names = Builtin::builtin_cmds();
        let mut i: usize = 0;
        while i < names.len()
            invariant
                i <= names.len(),
                str_views(names@) == builtin_names(),
                forall|k: int| 0 <= k < i ==> builtin_names()[k] != cmd@,
            decreases names.len() - i,
        {
            if str_eq(names[i], cmd) {
                assert(builtin_names()[i as int] == cmd@);
                return true;
            }
            i += 1;
        }
        false
    }

    /// Returns the list of names recognised as shell builtins.
    pub fn builtin_cmds() -> (r: Vec<&'static str>)
        ensures
            str_views(r@) == builtin_names(),
    {
        let v = vec!["cd", "complete", "declare", "echo", "exit", "history", "jobs", "pwd", "type"];
        proof {
            reveal_strlit("cd");
            reveal_strlit("complete");
            reveal_strlit("declare");
            reveal_strlit("echo");
            reveal_strlit("exit");
            reveal_strlit("history");
            reveal_strlit("jobs");
            reveal_strlit("pwd");
            reveal_strlit("type");
            assert("cd"@ =~= seq!['c', 'd']);
            assert("complete"@ =~= seq!['c', 'o', 'm', 'p', 'l', 'e', 't', 'e']);
            assert("declare"@ =~= seq!['d', 'e', 'c', 'l', 'a', 'r', 'e']);
            assert("echo"@ =~= seq!['e', 'c', 'h', 'o']);
            assert("exit"@ =~= seq!['e', 'x', 'i', 't']);
            assert("history"@ =~= seq!['h', 'i', 's', 't', 'o', 'r', 'y']);
            assert("jobs"@ =~= seq!['j', 'o', 'b', 's']);
            assert("pwd"@ =~= seq!['p', 'w', 'd']);
            assert("type"@ =~= seq!['t', 'y', 'p', 'e']);
        }
        assert(str_views(v@) =~= builtin_names());
        v
    }

    /// Where `cd` goes for its argument text: home for `""` or `"~"`, else the path itself.
    pub fn cd_target(args: &str) -> (r: CdTarget)
        ensures
            match r {
                CdTarget::Home => args@.len() == 0 || args@ == seq!['~'],
                CdTarget::Path(p) => p@ == args@ && args@.len() != 0 && args@ != seq!['~'],
            },
    {
        let tilde = ['~'];
        assert(tilde@ =~= seq!['~']);
        if chars_of(args).len() == 0 || str_is(args, &tilde) {
            CdTarget::Home
        } else {
            CdTarget::Path(crate::text::string_of_str(args))
        }
    }

    /// The message `cd` prints when it cannot enter `path`: `cd: <path>: <reason>`.
    pub fn cd_error_message(path: &str, reason: &str) -> (r: String)
        ensures
            r@ == "cd: "@ + path@ + ": "@ + reason@,
    {
        let mut s = String::new();
        append_str(&mut s, "cd: ");
        append_str(&mut s, path);
        append_str(&mut s, ": ");
        append_str(&mut s, reason);
        s
    }
}

/// Where `cd` should go.
pub enum CdTarget {
    /// The user's home directory.
    Home,
    /// The given path.
    Path(String),
}

/// The text before the first ` (os error` in `msg`, or all of `msg` when it holds none.
pub open spec fn before_os_error(msg: Seq<char>) -> Seq<char> {
    if exists|k: int| first_marker_at(msg, k) {
        msg.take(choose|k: int| first_marker_at(msg, k))
    } else {
        msg
    }
}

/// The marker ` (os error` that starts the suffix Rust adds to OS error messages.
pub open spec fn os_error_marker() -> Seq<char> {
    seq![' ', '(', 'o', 's', ' ', 'e', 'r', 'r', 'o', 'r']
}

/// The marker begins at index `k` of `msg`.
pub open spec fn marker_at(msg: Seq<char>, k: int) -> bool {
    0 <= k && k + os_error_marker().len() <= msg.len() && msg.subrange(
        k,
        k + os_error_marker().len(),
    ) == os_error_marker()
}

/// The first occurrence of the marker in `msg` begins at index `k`.
pub open spec fn first_marker_at(msg: Seq<char>, k: int) -> bool {
    marker_at(msg, k) && forall|j: int| 0 <= j < k ==> !#[trigger] marker_at(msg, j)
}

/// Whether the marker begins at index `k` of `cs`.
fn marker_at_exec(cs: &Vec<char>, k: usize) -> (r: bool)
    ensures
        r == marker_at(cs@, k as int),
{
    let m = [' ', '(', 'o', 's', ' ', 'e', 'r', 'r', 'o', 'r'];
    assert(m@ == os_error_marker());
    if k > cs.len() || cs.len() - k < 10 {
        return false;
    }
    let mut j: usize = 0;
    while j < 10
        invariant
            j <= 10,
            k + 10 <= cs.len(),
            m@ == os_error_marker(),
            forall|t: int| 0 <= t < j ==> cs@[k + t] == m@[t],
        decreases 10 - j,
    {
        if cs[k + j] != m[j] {
            assert(cs@.subrange(k as int, k + 10)[j as int] != os_error_marker()[j as int]);
            return false;
        }
        j += 1;
    }
    assert(cs@.subrange(k as int, k + 10) =~= os_error_marker());
    true
}

/// `msg` up to the first ` (os error`, or all of it when it holds none.
pub fn strip_os_error_text(msg: &str) -> (r: String)
    ensures
        r@ == before_os_error(msg@),
{
    let cs = chars_of(msg);
    let mut k: usize = 0;
    while k < cs.len()
        invariant
            k <= cs.len(),
            cs@ == msg@,
            forall|j: int| 0 <= j < k ==> !#[trigger] marker_at(msg@, j),
        decreases cs.len() - k,
    {
        if marker_at_exec(&cs, k) {
            assert(first_marker_at(msg@, k as int));
            let ghost w = choose|w: int| first_marker_at(msg@, w);
            assert(w == k) by {
                if w < k {
                    assert(!marker_at(msg@, w));
                } else if w > k {
                    assert(!marker_at(msg@, k as int));
                }
            }
            return string_from_range(&cs, 0, k);
        }
        k += 1;
    }
    assert forall|w: int| !first_marker_at(msg@, w) by {
        if 0 <= w < k {
            assert(!marker_at(msg@, w));
        }
    }
    assert(cs@.subrange(0, cs.len() as int) =~= cs@);
    string_from_range(&cs, 0, cs.len())
}

/// `std::io::Error`, carried through opaquely.
#[verifier::external_type_specification]
#[verifier::external_body]
pub struct ExIoError(std::io::Error);

/// Strips the ` (os error N)` suffix that Rust appends to OS error messages,
/// producing the bare POSIX description bash would print.
pub fn strip_os_error_suffix(e: &std::io::Error) -> (r: String)
    ensures
        exists|m: String| vstd::string::to_string_from_display_ensures::<std::io::Error>(e, m)
            && r@ == before_os_error(m@),
{
    let msg = e.to_string();
    strip_os_error_text(msg.as_str())
}

/// Builtin `echo`: prints its arguments separated by single spaces.
pub struct EchoCommand {
    pub args: Vec<String>,
}

impl EchoCommand {
    /// Runs the command: the arguments joined by spaces, then a newline.
    pub fn execute(&self) -> (r: CommandOutput)
        ensures
            output_is(r, join_with(views(self.args@), ' ').push('\n'), Seq::empty()),
    {
        let mut out = String::new();
        let mut i: usize = 0;
        while i < self.args.len()
            invariant
                i <= self.args.len(),
                out@ == join_with(views(self.args@).take(i as int), ' '),
            decreases self.args.len() - i,
        {
            assert(views(self.args@).take(i + 1).drop_last() =~= views(self.args@).take(i as int));
            if i > 0 {
                crate::text::push_char(&mut out, ' ');
            }
            append_str(&mut out, self.args[i].as_str());
            i += 1;
        }
        assert(views(self.args@).take(self.args.len() as int) =~= views(self.args@));
        crate::text::push_char(&mut out, '\n');
        CommandOutput { code: 0, stdout: out, stderr: String::new() }
    }
}

/// Builtin for a command that is neither a builtin nor found on `PATH`.
pub struct UnknownCommand {
    pub cmd: String,
}

impl UnknownCommand {
    /// Runs the command: `<cmd>: command not found` on standard error.
    pub fn execute(&self) -> (r: CommandOutput)
        ensures
            output_is(r, Seq::empty(), self.cmd@ + ": command not found\n"@),
    {
        let mut err = String::new();
        append_str(&mut err, self.cmd.as_str());
        append_str(&mut err, ": command not found\n");
        CommandOutput { code: 0, stdout: String::new(), stderr: err }
    }
}

/// The line `type` prints for `arg`, given where `PATH` lookup found it (if it was looked up).
pub open spec fn type_line(arg: Seq<char>, found: Option<Seq<char>>) -> Seq<char> {
    if builtin_names().contains(arg) {
        arg + " is a shell builtin\n"@
    } else {
        match found {
            Some(p) => arg + " is "@ + p + "\n"@,
            None => arg + ": not found\n"@,
        }
    }
}

/// The lines `type` prints for `args`, given the lookup result of each.
pub open spec fn type_report(args: Seq<Seq<char>>, found: Seq<Option<Seq<char>>>) -> Seq<char>
    decreases args.len(),
{
    if args.len() == 0 {
        Seq::empty()
    } else {
        type_report(args.drop_last(), found) + type_line(args.last(), found[args.len() - 1])
    }
}

/// Builtin `type` command: reports whether each argument is a builtin, a PATH executable, or unknown.
pub struct TypeCommand {
    pub args: Vec<String>,
    pub paths: Vec<String>,
}

impl TypeCommand {
    /// Runs the command, asking `is_exec` whether candidate paths are executable files.
    pub fn execute<F: Fn(&String) -> bool>(&self, is_exec: F) -> (r: CommandOutput)
        requires
            forall|s: &String| is_exec.requires((s,)),
        ensures
            exists|found: Seq<Option<Seq<char>>>|
                #![trigger type_report(views(self.args@), found)]
                found.len() == self.args@.len() && (forall|k: int|
                    0 <= k < found.len() && !builtin_names().contains(#[trigger] self.args@[k]@)
                        ==> lookup_ok(is_exec, views(self.paths@), self.args@[k]@, found[k]))
                    && output_is(r, type_report(views(self.args@), found), Seq::empty()),
    {
        let ghost a = views(self.args@);
        let ghost mut found: Seq<Option<Seq<char>>> = Seq::empty();
        let mut out = String::new();
        let mut i: usize = 0;
        while i < self.args.len()
            invariant
                i <= self.args.len(),
                a == views(self.args@),
                found.len() == i,
                forall|s: &String| is_exec.requires((s,)),
                forall|k: int|
                    0 <= k < i && !builtin_names().contains(#[trigger] self.args@[k]@) ==> lookup_ok(
                        is_exec,
                        views(self.paths@),
                        self.args@[k]@,
                        found[k],
                    ),
                out@ == type_report(a.take(i as int), found),
            decreases self.args.len() - i,
        {
            let arg = &self.args[i];
            assert(a.take(i + 1).drop_last() =~= a.take(i as int));
            let ghost prev_found = found;
            if Builtin::is_builtin(arg.as_str()) {
                append_str(&mut out, arg.as_str());
                append_str(&mut out, " is a shell builtin\n");
                proof {
                    found = found.push(None);
                }
            } else {
                let r = find_in_paths(arg.as_str(), &self.paths, &is_exec);
                match r {
                    Some(p) => {
                        append_str(&mut out, arg.as_str());
                        append_str(&mut out, " is ");
                        append_str(&mut out, p.as_str());
                        append_str(&mut out, "\n");
                        proof {
                            found = found.push(Some(p@));
                        }
                    },
                    None => {
                        append_str(&mut out, arg.as_str());
                        append_str(&mut out, ": not found\n");
                        proof {
                            found = found.push(None);
                        }
                    },
                }
            }
            assert(type_report(a.take(i as int), found) == type_report(a.take(i as int), prev_found))
                by {
                lemma_type_report_prefix(a.take(i as int), prev_found, found);
            }
            i += 1;
        }
        assert(a.take(self.args.len() as int) =~= a);
        CommandOutput { code: 0, stdout: out, stderr: String::new() }
    }
}

/// The report of `args` only reads the lookup results of those arguments.
proof fn lemma_type_report_prefix(
    args: Seq<Seq<char>>,
    f1: Seq<Option<Seq<char>>>,
    f2: Seq<Option<Seq<char>>>,
)
    requires
        args.len() <= f1.len(),
        f1.len() <= f2.len(),
        forall|k: int| 0 <= k < f1.len() ==> f1[k] == f2[k],
    ensures
        type_report(args, f1) == type_report(args, f2),
    decreases args.len(),
{
    if args.len() > 0 {
        lemma_type_report_prefix(args.drop_last(), f1, f2);
    }
}

/// What `complete` does with arguments `args` to completion map `t`: the new map and
/// the text it prints.
pub open spec fn complete_spec(args: Seq<Seq<char>>, t: Map<Seq<char>, Seq<char>>) -> (
    Map<Seq<char>, Seq<char>>,
    Seq<char>,
) {
    let blank = seq!['\n'];
    if args.len() == 0 {
        (t, blank)
    } else if args[0] == seq!['-', 'C'] {
        if args.len() != 3 {
            (t, blank)
        } else {
            (t.insert(args[2], args[1]), Seq::empty())
        }
    } else if args[0] == seq!['-', 'p'] {
        if args.len() != 2 {
            (t, blank)
        } else if t.contains_key(args[1]) {
            (t, "complete -C '"@ + t[args[1]] + "' "@ + args[1] + "\n"@)
        } else {
            (t, "complete: "@ + args[1] + ": no completion specification\n"@)
        }
    } else if args[0] == seq!['-', 'r'] {
        if args.len() != 2 {
            (t, blank)
        } else {
            (t.remove(args[1]), Seq::empty())
        }
    } else {
        (t, blank)
    }
}

/// Builtin `complete`: `-C <program> <name>` registers a completion program,
/// `-p <name>` prints it, `-r <name>` removes it.
pub struct CompleteCommand {
    pub args: Vec<String>,
}

impl CompleteCommand {
    /// Runs the command against the completion map `completions`.
    pub fn execute(&self, completions: &mut CompletionTable) -> (r: CommandOutput)
        ensures
            (final(completions)@, r.stdout@) == complete_spec(views(self.args@), old(completions)@),
            r.code == 0,
            r.stderr@ == Seq::<char>::empty(),
    {
        let ghost a = views(self.args@);
        let mut out = String::new();
        let n = self.args.len();
        if n == 0 {
            crate::text::push_char(&mut out, '\n');
        } else if str_is(self.args[0].as_str(), &['-', 'C']) {
            if n != 3 {
                crate::text::push_char(&mut out, '\n');
            } else {
                completions.insert(copy_string(&self.args[2]), copy_string(&self.args[1]));
            }
        } else if str_is(self.args[0].as_str(), &['-', 'p']) {
            if n != 2 {
                crate::text::push_char(&mut out, '\n');
            } else {
                let name = self.args[1].as_str();
                match completions.get(name) {
                    Some(v) => {
                        append_str(&mut out, "complete -C '");
                        append_str(&mut out, v.as_str());
                        append_str(&mut out, "' ");
                        append_str(&mut out, name);
                        append_str(&mut out, "\n");
                    },
                    None => {
                        append_str(&mut out, "complete: ");
                        append_str(&mut out, name);
                        append_str(&mut out, ": no completion specification\n");
                    },
                }
            }
        } else if str_is(self.args[0].as_str(), &['-', 'r']) {
            if n != 2 {
                crate::text::push_char(&mut out, '\n');
            } else {
                completions.remove(self.args[1].as_str());
            }
        } else {
            crate::text::push_char(&mut out, '\n');
        }
        assert(out@ == complete_spec(a, old(completions)@).1);
        CommandOutput { code: 0, stdout: out, stderr: String::new() }
    }
}

/// After `complete -C <program> <name>`, `complete -p <name>` prints
/// `complete -C '<program>' <name>`, whatever was registered before.
pub proof fn law_complete_register_then_print(
    t: Map<Seq<char>, Seq<char>>,
    program: Seq<char>,
    name: Seq<char>,
)
    ensures
        ({
            let t1 = complete_spec(seq![seq!['-', 'C'], program, name], t).0;
            complete_spec(seq![seq!['-', 'p'], name], t1).1 == "complete -C '"@ + program + "' "@
                + name + "\n"@
        }),
{
    assert(seq!['-', 'C'] != seq!['-', 'p']) by {
        assert(seq!['-', 'C'][1] != seq!['-', 'p'][1]);
    }
}

/// After `complete -r <name>`, `complete -p <name>` reports that `name` has no
/// completion specification.
pub proof fn law_complete_remove_then_print(t: Map<Seq<char>, Seq<char>>, name: Seq<char>)
    ensures
        ({
            let t1 = complete_spec(seq![seq!['-', 'r'], name], t).0;
            complete_spec(seq![seq!['-', 'p'], name], t1).1 == "complete: "@ + name
                + ": no completion specification\n"@
        }),
{
    assert(seq!['-', 'r'] != seq!['-', 'p']) by {
        assert(seq!['-', 'r'][1] != seq!['-', 'p'][1]);
    }
    assert(seq!['-', 'r'] != seq!['-', 'C']) by {
        assert(seq!['-', 'r'][1] != seq!['-', 'C'][1]);
    }
}

/// `complete -C` for one name leaves what `complete -p` prints for any other name unchanged.
pub proof fn law_complete_register_keeps_others(
    t: Map<Seq<char>, Seq<char>>,
    program: Seq<char>,
    name: Seq<char>,
    other: Seq<char>,
)
    requires
        other != name,
    ensures
        ({
            let t1 = complete_spec(seq![seq!['-', 'C'], program, name], t).0;
            complete_spec(seq![seq!['-', 'p'], other], t1).1 == complete_spec(
                seq![seq!['-', 'p'], other],
                t,
            ).1
        }),
{
    assert(seq!['-', 'C'] != seq!['-', 'p']) by {
        assert(seq!['-', 'C'][1] != seq!['-', 'p'][1]);
    }
}

/// Whether the view of `s` is the view of `t`.
fn str_is_string(s: &String, t: &str) -> (r: bool)
    ensures
        r == (s@ == t@),
{
    let t2 = crate::text::string_of_str(t);
    *s == t2
}

} // verus!
