//! Command history bookkeeping: which entries of the line editor's history go to
//! a history file on `history -a` / `history -w`, and the entries read back by
//! `history -r`.
use vstd::prelude::*;
use rustyline::history::{FileHistory, History};

use crate::text::{is_ws, split_on, trim, trim_string, views};

verus! {

/// rustyline's file-backed history, carried through opaquely.
#[verifier::external_type_specification]
#[verifier::external_body]
pub struct ExFileHistory(FileHistory);

/// The entries of a rustyline history, oldest first.
pub uninterp spec fn history_entries(h: FileHistory) -> Seq<Seq<char>>;

/// The number of entries (`FileHistory::len`): the length of the entry list.
#[verifier::external_body]
pub(crate) fn history_len(h: &FileHistory) -> (r: usize)
    ensures
        r == history_entries(*h).len(),
{
    h.len()
}

/// Entry `i` (`FileHistory` indexing, which panics past the end): a copy of the
/// `i`-th entry.
#[verifier::external_body]
pub(crate) fn history_entry(h: &FileHistory, i: usize) -> (r: String)
    requires
        i < history_entries(*h).len(),
    ensures
        r@ == history_entries(*h)[i as int],
{
    h[i].clone()
}

/// The settings of a rustyline history that decide what `add` keeps: its size limit,
/// whether lines that begin with white space are ignored, and whether a line equal to
/// the last entry is ignored.
pub uninterp spec fn history_config(h: FileHistory) -> (usize, bool, bool);

/// `add` leaves `line` out of a history with settings `config` and entries `entries`:
/// the size limit is 0, the line is empty, it begins with white space while such lines
/// are ignored, or it repeats the last entry while repeats are ignored.
pub open spec fn add_ignored(config: (usize, bool, bool), entries: Seq<Seq<char>>, line: Seq<char>) -> bool {
    ||| config.0 == 0
    ||| line.len() == 0
    ||| (config.1 && is_ws(line[0]))
    ||| (config.2 && entries.len() > 0 && entries.last() == line)
}

/// The entries after one `add` of `line`: unchanged when the line is ignored, else
/// `line` appended, the oldest entry dropped first when the history was at its limit.
pub open spec fn entries_after_add(config: (usize, bool, bool), entries: Seq<Seq<char>>, line: Seq<char>) -> Seq<Seq<char>> {
    if add_ignored(config, entries, line) {
        entries
    } else if entries.len() == config.0 {
        entries.drop_first().push(line)
    } else {
        entries.push(line)
    }
}

/// Adds `line` to the history (`History::add` of `FileHistory`, which hands it to the
/// in-memory list: `MemHistory::ignore` decides, `MemHistory::insert` appends and drops
/// the oldest entry at the limit). It never fails; the result says whether the line
/// was kept, and the settings stay as they were.
#[verifier::external_body]
pub(crate) fn history_add(h: &mut FileHistory, line: &str) -> (r: bool)
    ensures
        r == !add_ignored(history_config(*old(h)), history_entries(*old(h)), line@),
        history_entries(*final(h)) == entries_after_add(
            history_config(*old(h)),
            history_entries(*old(h)),
            line@,
        ),
        history_config(*final(h)) == history_config(*old(h)),
{
    h.add(line).unwrap_or(false)
}

/// Tracks which history entries have already been written to the history file.
pub struct Helper {
    /// Number of history entries already in the history file.
    pub append_pos: usize,
}

/// The lines of `text` as `BufRead::lines` gives them (split at `\n`, no empty line
/// after a final `\n`), each trimmed of surrounding white space.
pub open spec fn file_lines(text: Seq<char>) -> Seq<Seq<char>> {
    let parts = split_on(text, '\n');
    let lines = if parts.last().len() == 0 {
        parts.drop_last()
    } else {
        parts
    };
    lines.map_values(|l: Seq<char>| trim(l))
}

impl Helper {
    /// A helper that has written nothing yet.
    pub fn new() -> (r: Self)
        ensures
            r.append_pos == 0,
    {
        Self { append_pos: 0 }
    }

    /// The entries `history -a` appends to the history file: those added since the
    /// last write, append or read. Afterwards every entry counts as written.
    pub fn lines_to_append(&mut self, history: &FileHistory) -> (r: Vec<String>)
        ensures
            (views(r@), final(self).append_pos as nat) == append_spec(
                old(self).append_pos as nat,
                history_entries(*history),
            ),
    {
        let len = history_len(history);
        let mut lines: Vec<String> = Vec::new();
        let ghost e = history_entries(*history);
        if self.append_pos >= len {
            assert(views(lines@) =~= Seq::<Seq<char>>::empty());
            self.append_pos = len;
            return lines;
        }
        let mut i = self.append_pos;
        while i < len
            invariant
                len == e.len(),
                e == history_entries(*history),
                old(self).append_pos <= i <= len,
                views(lines@) =~= e.subrange(old(self).append_pos as int, i as int),
            decreases len - i,
        {
            let ghost before = lines@;
            lines.push(history_entry(history, i));
            assert(views(lines@) =~= views(before).push(e[i as int]));
            i += 1;
        }
        self.append_pos = len;
        lines
    }

    /// The entries `history -w` writes to the history file: all of them. Afterwards every
    /// entry counts as written.
    pub fn lines_to_write(&mut self, history: &FileHistory) -> (r: Vec<String>)
        ensures
            final(self).append_pos == history_entries(*history).len(),
            views(r@) == history_entries(*history),
    {
        self.append_pos = 0;
        let r = self.lines_to_append(history);
        assert(history_entries(*history).subrange(0, history_entries(*history).len() as int)
            =~= history_entries(*history));
        r
    }

    /// The entries of a history file with text `text` (each line trimmed); afterwards the
    /// file's entries count as written.
    pub fn load_lines(&mut self, text: &str) -> (r: Vec<String>)
        ensures
            views(r@) == file_lines(text@),
            final(self).append_pos == r@.len(),
    {
        let parts = crate::text::split_on_char(text, '\n');
        let ghost p = views(parts@);
        assert(p.len() >= 1);
        let mut n = parts.len();
        if parts[n - 1].as_str().unicode_len() == 0 {
            n = n - 1;
        }
        let ghost lines = if p.last().len() == 0 { p.drop_last() } else { p };
        assert(lines =~= p.take(n as int));
        let mut out: Vec<String> = Vec::new();
        let mut i: usize = 0;
        while i < n
            invariant
                i <= n <= parts.len(),
                p == views(parts@),
                lines == p.take(n as int),
                views(out@) =~= lines.map_values(|l: Seq<char>| trim(l)).take(i as int),
            decreases n - i,
        {
            let ghost before = out@;
            out.push(trim_string(parts[i].as_str()));
            assert(views(out@) =~= views(before).push(trim(p[i as int])));
            i += 1;
        }
        assert(lines.map_values(|l: Seq<char>| trim(l)).take(n as int) =~= lines.map_values(
            |l: Seq<char>| trim(l),
        ));
        self.append_pos = out.len();
        out
    }
}

/// The entries `history -a` writes when `pos` entries of `entries` are already
/// written, and the new count of written entries.
pub open spec fn append_spec(pos: nat, entries: Seq<Seq<char>>) -> (Seq<Seq<char>>, nat) {
    (
        if pos < entries.len() {
            entries.subrange(pos as int, entries.len() as int)
        } else {
            Seq::empty()
        },
        entries.len(),
    )
}

/// `history -a` writes only what was added since the last write: after one append,
/// appending again writes exactly the entries added in between (nothing if none were).
pub proof fn law_append_writes_only_new(pos: nat, entries: Seq<Seq<char>>, added: Seq<Seq<char>>)
    ensures
        append_spec(append_spec(pos, entries).1, entries + added).0 == added,
        append_spec(append_spec(pos, entries).1, entries).0 == Seq::<Seq<char>>::empty(),
{
    assert((entries + added).subrange(entries.len() as int, (entries + added).len() as int) =~= added);
}

} // verus!
