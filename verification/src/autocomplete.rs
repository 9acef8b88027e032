//! Tab completion: candidates from the builtins and from executables on `PATH`
//! whose names start with the typed line, merged with file-name candidates and
//! ordered by what is displayed; and the text that replaces the line.
use vstd::prelude::*;
use vstd::string::StringSliceAdditionalSpecFns;

use crate::builtin::{Builtin, builtin_names, str_views};
use crate::text::{append_str, chars_of, copy_string, lemma_encode_utf8_concat, push_char, starts_with, str_eq, str_starts_with, string_from_range, views};
use crate::utils::{join_path, join_path_string};

verus! {

broadcast use vstd::seq_lib::group_to_multiset_ensures;

/// One completion candidate: what the list shows, and what replaces the typed text.
pub struct Candidate {
    pub display: String,
    pub replacement: String,
}

/// A candidate's (display, replacement) texts.
pub open spec fn cand_view(c: Candidate) -> (Seq<char>, Seq<char>) {
    (c.display@, c.replacement@)
}

/// The texts of a list of candidates.
pub open spec fn cand_views(s: Seq<Candidate>) -> Seq<(Seq<char>, Seq<char>)> {
    s.map_values(|c: Candidate| cand_view(c))
}

/// A directory entry as the completer sees it.
pub struct DirEntryInfo {
    /// The entry's file name.
    pub name: String,
    /// The entry is a regular file.
    pub is_file: bool,
    /// The entry has an execute permission bit set.
    pub is_executable: bool,
}

/// `a` sorts strictly before `b`, comparing characters in order (the order of `str`).
pub open spec fn lex_lt(a: Seq<char>, b: Seq<char>) -> bool
    decreases a.len(),
{
    if a.len() == 0 {
        b.len() > 0
    } else if b.len() == 0 {
        false
    } else if a[0] < b[0] {
        true
    } else if a[0] > b[0] {
        false
    } else {
        lex_lt(a.drop_first(), b.drop_first())
    }
}

/// The order of strings is transitive.
pub proof fn lemma_lex_lt_transitive(a: Seq<char>, b: Seq<char>, c: Seq<char>)
    requires
        lex_lt(a, b),
        lex_lt(b, c),
    ensures
        lex_lt(a, c),
    decreases a.len(),
{
    if a.len() > 0 && b.len() > 0 && c.len() > 0 {
        if a[0] == b[0] && b[0] == c[0] {
            lemma_lex_lt_transitive(a.drop_first(), b.drop_first(), c.drop_first());
        }
    }
}

/// No string sorts before itself.
pub proof fn lemma_lex_lt_irreflexive(a: Seq<char>)
    ensures
        !lex_lt(a, a),
    decreases a.len(),
{
    if a.len() > 0 {
        lemma_lex_lt_irreflexive(a.drop_first());
    }
}

/// Candidates are in ascending order of their displayed text.
pub open spec fn sorted_by_display(s: Seq<Candidate>) -> bool {
    forall|i: int, j: int| 0 <= i < j < s.len() ==> !lex_lt(s[j].display@, s[i].display@)
}

/// The names of `s` with every repeat of an earlier name left out.
pub open spec fn dedup(s: Seq<Seq<char>>) -> Seq<Seq<char>>
    decreases s.len(),
{
    if s.len() == 0 {
        Seq::empty()
    } else if dedup(s.drop_last()).contains(s.last()) {
        dedup(s.drop_last())
    } else {
        dedup(s.drop_last()).push(s.last())
    }
}

/// The names of `s` that start with `prefix`, in order.
pub open spec fn with_prefix(s: Seq<Seq<char>>, prefix: Seq<char>) -> Seq<Seq<char>>
    decreases s.len(),
{
    if s.len() == 0 {
        Seq::empty()
    } else if starts_with(s.last(), prefix) {
        with_prefix(s.drop_last(), prefix).push(s.last())
    } else {
        with_prefix(s.drop_last(), prefix)
    }
}

/// The candidate for a command name: `name ` both displayed and inserted.
pub open spec fn name_candidate(name: Seq<char>) -> (Seq<char>, Seq<char>) {
    (name.push(' '), name.push(' '))
}

/// The entries that are executable files whose names start with `partial`.
pub open spec fn executable_matches(entries: Seq<DirEntryInfo>, partial: Seq<char>) -> Seq<Seq<char>>
    decreases entries.len(),
{
    if entries.len() == 0 {
        Seq::empty()
    } else {
        let e = entries.last();
        let rest = executable_matches(entries.drop_last(), partial);
        if starts_with(e.name@, partial) && e.is_file && e.is_executable {
            rest.push(e.name@)
        } else {
            rest
        }
    }
}

/// The last component of a path: what follows its last `/` (all of it when it has none).
pub open spec fn base_name(p: Seq<char>) -> Seq<char>
    decreases p.len(),
{
    if p.len() == 0 || p.last() == '/' {
        Seq::empty()
    } else {
        base_name(p.drop_last()).push(p.last())
    }
}

/// The candidates of a completion, before ordering: builtins starting with `line`,
/// then the names of the `PATH` executables (first occurrence of each name) starting
/// with `line`, then the file-name candidates.
pub open spec fn completion_pool(
    line: Seq<char>,
    exec_paths: Seq<Seq<char>>,
    files: Seq<(Seq<char>, Seq<char>)>,
) -> Seq<(Seq<char>, Seq<char>)> {
    with_prefix(builtin_names(), line).map_values(|n: Seq<char>| name_candidate(n)) + dedup(
        with_prefix(exec_paths.map_values(|p: Seq<char>| base_name(p)), line),
    ).map_values(|n: Seq<char>| name_candidate(n)) + files
}

/// Where a candidate displayed as `d` goes in the list `s`: before the first one whose
/// display sorts after `d`, at the end if none does.
pub open spec fn insert_pos(s: Seq<(Seq<char>, Seq<char>)>, d: Seq<char>) -> int
    decreases s.len(),
{
    if s.len() == 0 || lex_lt(d, s[0].0) {
        0
    } else {
        1 + insert_pos(s.drop_first(), d)
    }
}

/// `s` ordered by display text, candidates with equal displays kept in their order
/// in `s` (each one inserted after all that do not sort after it).
pub open spec fn stable_sort_by_display(s: Seq<(Seq<char>, Seq<char>)>) -> Seq<(Seq<char>, Seq<char>)>
    decreases s.len(),
{
    if s.len() == 0 {
        Seq::empty()
    } else {
        let t = stable_sort_by_display(s.drop_last());
        t.insert(insert_pos(t, s.last().0), s.last())
    }
}

/// Whether `a` sorts strictly before `b`.
pub fn str_lt(a: &str, b: &str) -> (r: bool)
    ensures
        r == lex_lt(a@, b@),
{
    let x = chars_of(a);
    let y = chars_of(b);
    let mut i: usize = 0;
    assert(a@.skip(0) =~= a@);
    assert(b@.skip(0) =~= b@);
    while i < x.len() && i < y.len() && x[i] == y[i]
        invariant
            i <= x.len(),
            i <= y.len(),
            x@ == a@,
            y@ == b@,
            lex_lt(a@, b@) == lex_lt(a@.skip(i as int), b@.skip(i as int)),
        decreases x.len() - i,
    {
        assert(a@.skip(i as int).drop_first() =~= a@.skip(i + 1));
        assert(b@.skip(i as int).drop_first() =~= b@.skip(i + 1));
        i += 1;
    }
    assert(a@.skip(i as int).len() == x.len() - i);
    assert(b@.skip(i as int).len() == y.len() - i);
    if i == x.len() {
        i < y.len()
    } else if i == y.len() {
        false
    } else {
        assert(a@.skip(i as int)[0] == x@[i as int]);
        assert(b@.skip(i as int)[0] == y@[i as int]);
        x[i] < y[i]
    }
}

/// The last component of the path `p` (`Path::file_name` for a path whose last
/// component is a plain name).
pub fn base_name_string(p: &str) -> (r: String)
    ensures
        r@ == base_name(p@),
{
    let cs = chars_of(p);
    let mut k: usize = cs.len();
    while k > 0 && cs[k - 1] != '/'
        invariant
            k <= cs.len(),
            cs@ == p@,
            forall|j: int| k <= j < cs.len() ==> cs@[j] != '/',
        decreases k,
    {
        k -= 1;
    }
    proof {
        lemma_base_name(p@, k as int);
    }
    string_from_range(&cs, k, cs.len())
}

/// With no `/` at index `k` or after, and one just before `k` (or `k == 0`), the last
/// component starts at `k`.
proof fn lemma_base_name(p: Seq<char>, k: int)
    requires
        0 <= k <= p.len(),
        forall|j: int| k <= j < p.len() ==> p[j] != '/',
        k > 0 ==> p[k - 1] == '/',
    ensures
        base_name(p) == p.subrange(k, p.len() as int),
    decreases p.len(),
{
    if p.len() > k {
        lemma_base_name(p.drop_last(), k);
        assert(p.subrange(k, p.len() as int) =~= p.drop_last().subrange(k, p.len() - 1).push(p.last()));
    } else {
        assert(p.subrange(k, p.len() as int) =~= Seq::<char>::empty());
    }
}

/// The candidate for a command name.
fn make_name_candidate(name: &str) -> (r: Candidate)
    ensures
        cand_view(r) == name_candidate(name@),
{
    let mut d = String::new();
    append_str(&mut d, name);
    push_char(&mut d, ' ');
    let mut rep = String::new();
    append_str(&mut rep, name);
    push_char(&mut rep, ' ');
    Candidate { display: d, replacement: rep }
}

/// Inserts `c` after every candidate whose display does not sort after it.
fn insert_sorted(out: &mut Vec<Candidate>, c: Candidate)
    requires
        sorted_by_display(old(out)@),
    ensures
        sorted_by_display(final(out)@),
        cand_views(final(out)@).to_multiset() == cand_views(old(out)@).to_multiset().insert(cand_view(c)),
        cand_views(final(out)@) == cand_views(old(out)@).insert(
            insert_pos(cand_views(old(out)@), c.display@),
            cand_view(c),
        ),
{
    let mut p: usize = 0;
    let ghost cvs = cand_views(out@);
    assert(cvs.skip(0) =~= cvs);
    while p < out.len() && !str_lt(c.display.as_str(), out[p].display.as_str())
        invariant
            p <= out.len(),
            cvs == cand_views(out@),
            forall|k: int| 0 <= k < p ==> !lex_lt(c.display@, #[trigger] out@[k].display@),
            insert_pos(cvs, c.display@) == p + insert_pos(cvs.skip(p as int), c.display@),
        decreases out.len() - p,
    {
        assert(cvs.skip(p as int)[0] == cvs[p as int]);
        assert(cvs.skip(p as int).drop_first() =~= cvs.skip(p + 1));
        p += 1;
    }
    assert(p < out.len() ==> cvs.skip(p as int)[0] == cvs[p as int]);
    assert(insert_pos(cvs, c.display@) == p);
    let ghost before = out@;
    let ghost cv = cand_view(c);
    let ghost cd = c.display@;
    out.insert(p, c);
    proof {
        assert(cand_views(out@) =~= cand_views(before).insert(p as int, cv));
        assert(cand_views(before).insert(p as int, cv).to_multiset() =~= cand_views(before).to_multiset().insert(cv)) by {
            let s = cand_views(before);
            assert(s.insert(p as int, cv) =~= s.take(p as int).push(cv) + s.skip(p as int));
            vstd::seq_lib::lemma_multiset_commutative(s.take(p as int).push(cv), s.skip(p as int));
            vstd::seq_lib::lemma_multiset_commutative(s.take(p as int), s.skip(p as int));
            assert(s =~= s.take(p as int) + s.skip(p as int));
        }
        assert forall|i: int, j: int| 0 <= i < j < out@.len() implies !lex_lt(
            out@[j].display@,
            out@[i].display@,
        ) by {
            if j < p {
                assert(out@[i] == before[i] && out@[j] == before[j]);
            } else if j == p {
                assert(out@[i] == before[i]);
            } else if i == p {
                assert(out@[j] == before[j - 1]);
                if lex_lt(before[j - 1].display@, cd) {
                    if p < before.len() {
                        assert(lex_lt(cd, before[p as int].display@));
                        lemma_lex_lt_transitive(before[j - 1].display@, cd, before[p as int].display@);
                        if j - 1 == p {
                            lemma_lex_lt_irreflexive(before[p as int].display@);
                        }
                    }
                }
            } else if i < p {
                assert(out@[i] == before[i] && out@[j] == before[j - 1]);
            } else {
                assert(out@[i] == before[i - 1] && out@[j] == before[j - 1]);
            }
        }
    }
}

/// Tab completion for the line editor: what it suggests for a typed line and what it
/// puts in the line for a chosen suggestion.
pub struct AutoCompletion {}

impl AutoCompletion {
    /// Returns the paths (`dir` joined with the entry's name) of the entries of directory
    /// `dir` that are executable files whose name starts with `partial_name`, in order.
    pub fn find_executables_by_partial_name(dir: &str, entries: &Vec<DirEntryInfo>, partial_name: &str) -> (r:
        Vec<String>)
        ensures
            views(r@) == executable_matches(entries@, partial_name@).map_values(
                |n: Seq<char>| join_path(dir@, n),
            ),
    {
        let mut out: Vec<String> = Vec::new();
        let mut i: usize = 0;
        while i < entries.len()
            invariant
                i <= entries.len(),
                views(out@) == executable_matches(entries@.take(i as int), partial_name@).map_values(
                    |n: Seq<char>| join_path(dir@, n),
                ),
            decreases entries.len() - i,
        {
            assert(entries@.take(i + 1).drop_last() =~= entries@.take(i as int));
            let e = &entries[i];
            if str_starts_with(e.name.as_str(), partial_name) && e.is_file && e.is_executable {
                let ghost before = out@;
                let ghost m = executable_matches(entries@.take(i as int), partial_name@);
                out.push(join_path_string(dir, e.name.as_str()));
                assert(views(out@) =~= views(before).push(join_path(dir@, e.name@)));
                assert(m.push(e.name@).map_values(|n: Seq<char>| join_path(dir@, n)) =~= m.map_values(
                    |n: Seq<char>| join_path(dir@, n),
                ).push(join_path(dir@, e.name@)));
            }
            i += 1;
        }
        assert(entries@.take(entries.len() as int) =~= entries@);
        out
    }

    /// Returns completions for `line`: builtins and `PATH` executables (given, in `PATH`
    /// order, by their paths `exec_paths`) whose names start with `line`, each name once,
    /// then the file-name candidates, all ordered by their displayed text (a stable
    /// order: candidates displayed alike stay in that order).
    pub fn complete_candidates(line: &str, exec_paths: &Vec<String>, file_candidates: Vec<Candidate>) -> (r:
        Vec<Candidate>)
        ensures
            cand_views(r@) == stable_sort_by_display(
                completion_pool(line@, views(exec_paths@), cand_views(file_candidates@)),
            ),
            sorted_by_display(r@),
            cand_views(r@).to_multiset() == completion_pool(
                line@,
                views(exec_paths@),
                cand_views(file_candidates@),
            ).to_multiset(),
    {
        // the unordered pool, in the order the candidates are found
        let mut pool: Vec<Candidate> = Vec::new();
        let commands = Builtin::builtin_cmds();
        let ghost bn = builtin_names();
        let mut i: usize = 0;
        assert(cand_views(pool@) =~= Seq::<(Seq<char>, Seq<char>)>::empty());
        while i < commands.len()
            invariant
                i <= commands.len(),
                str_views(commands@) == bn,
                bn == builtin_names(),
                cand_views(pool@) =~= with_prefix(bn.take(i as int), line@).map_values(
                    |n: Seq<char>| name_candidate(n),
                ),
            decreases commands.len() - i,
        {
            assert(bn.take(i + 1).drop_last() =~= bn.take(i as int));
            if str_starts_with(commands[i], line) {
                let ghost before = pool@;
                pool.push(make_name_candidate(commands[i]));
                assert(cand_views(pool@) =~= cand_views(before).push(name_candidate(bn[i as int])));
            }
            i += 1;
        }
        assert(bn.take(commands.len() as int) =~= bn);
        let ghost builtin_part = cand_views(pool@);
        // PATH executables, each name once
        let mut seen: Vec<String> = Vec::new();
        let ghost en = views(exec_paths@).map_values(|p: Seq<char>| base_name(p));
        let mut j: usize = 0;
        assert(views(seen@) =~= Seq::<Seq<char>>::empty());
        while j < exec_paths.len()
            invariant
                j <= exec_paths.len(),
                en == views(exec_paths@).map_values(|p: Seq<char>| base_name(p)),
                views(seen@) == dedup(with_prefix(en.take(j as int), line@)),
                cand_views(pool@) =~= builtin_part + views(seen@).map_values(
                    |n: Seq<char>| name_candidate(n),
                ),
            decreases exec_paths.len() - j,
        {
            assert(en.take(j + 1).drop_last() =~= en.take(j as int));
            assert(en.take(j + 1).last() == en[j as int]);
            let name_s = base_name_string(exec_paths[j].as_str());
            let name = name_s.as_str();
            assert(name@ == en[j as int]);
            let ghost w = with_prefix(en.take(j as int), line@);
            if str_starts_with(name, line) {
                assert(with_prefix(en.take(j + 1), line@) == w.push(name@));
                assert(w.push(name@).drop_last() =~= w);
                let mut k: usize = 0;
                let mut found = false;
                while k < seen.len()
                    invariant
                        k <= seen.len(),
                        found == exists|t: int| 0 <= t < k && seen@[t]@ == name@,
                    decreases seen.len() - k,
                {
                    if str_eq(seen[k].as_str(), name) {
                        found = true;
                    }
                    k += 1;
                }
                assert(found == views(seen@).contains(name@)) by {
                    if found {
                        let t = choose|t: int| 0 <= t < seen@.len() && seen@[t]@ == name@;
                        assert(views(seen@)[t] == name@);
                    }
                }
                if !found {
                    let ghost before_seen = seen@;
                    let ghost before_pool = pool@;
                    seen.push(copy_string(&name_s));
                    pool.push(make_name_candidate(name));
                    assert(views(seen@) =~= views(before_seen).push(name@));
                    assert(cand_views(pool@) =~= cand_views(before_pool).push(name_candidate(name@)));
                }
            }
            j += 1;
        }
        assert(en.take(exec_paths.len() as int) =~= en);
        // file-name candidates
        let ghost before_files = cand_views(pool@);
        let mut files = file_candidates;
        let ghost fv = cand_views(files@);
        let mut f: usize = 0;
        let nf = files.len();
        assert(fv.skip(0) =~= fv);
        while files.len() > 0
            invariant
                f + files@.len() == nf,
                nf == fv.len(),
                cand_views(files@) =~= fv.skip(f as int),
                cand_views(pool@) =~= before_files + fv.take(f as int),
            decreases files.len(),
        {
            let ghost before_files = files@;
            let c = files.remove(0);
            assert(cand_view(c) == cand_views(before_files)[0]);
            assert(cand_views(files@) =~= cand_views(before_files).drop_first());
            assert(fv.skip(f as int).drop_first() =~= fv.skip(f + 1));
            assert(fv.take(f + 1) =~= fv.take(f as int).push(fv[f as int]));
            let ghost before = pool@;
            pool.push(c);
            assert(cand_views(pool@) =~= cand_views(before).push(fv[f as int]));
            f += 1;
        }
        assert(cand_views(pool@) =~= completion_pool(line@, views(exec_paths@), fv));
        // order by display (stable)
        let ghost pv = cand_views(pool@);
        let mut out: Vec<Candidate> = Vec::new();
        let mut g: usize = 0;
        let np = pool.len();
        assert(cand_views(out@) =~= Seq::<(Seq<char>, Seq<char>)>::empty());
        assert(pv.skip(0) =~= pv);
        assert(pv.take(0) =~= Seq::<(Seq<char>, Seq<char>)>::empty());
        while pool.len() > 0
            invariant
                g + pool@.len() == np,
                np == pv.len(),
                cand_views(pool@) =~= pv.skip(g as int),
                sorted_by_display(out@),
                cand_views(out@).to_multiset() == pv.take(g as int).to_multiset(),
                cand_views(out@) == stable_sort_by_display(pv.take(g as int)),
            decreases pool.len(),
        {
            let ghost before_pool = pool@;
            let c = pool.remove(0);
            assert(cand_view(c) == cand_views(before_pool)[0]);
            assert(cand_views(pool@) =~= cand_views(before_pool).drop_first());
            assert(pv.skip(g as int).drop_first() =~= pv.skip(g + 1));
            assert(pv.take(g + 1) =~= pv.take(g as int).push(pv[g as int]));
            assert(pv.take(g + 1).drop_last() =~= pv.take(g as int));
            assert(pv.take(g + 1).last() == pv[g as int]);
            assert(cand_view(c).0 == c.display@);
            insert_sorted(&mut out, c);
            g += 1;
        }
        assert(pv.take(np as int) =~= pv);
        out
    }

    /// The line after choosing the candidate `elected`: the text of `line` from byte
    /// `start` to the cursor at byte `pos` replaced by `elected`, with the new cursor
    /// (a byte index) just after it.
    pub fn update(line: &str, start: usize, pos: usize, elected: &str) -> (r: (String, usize))
        requires
            start <= pos <= line.spec_bytes().len(),
            vstd::utf8::is_char_boundary(line.spec_bytes(), start as int),
            vstd::utf8::is_char_boundary(line.spec_bytes(), pos as int),
            line.spec_bytes().len() + elected.spec_bytes().len() <= usize::MAX,
        ensures
            vstd::utf8::encode_utf8(r.0@) == line.spec_bytes().subrange(0, start as int)
                + elected.spec_bytes() + line.spec_bytes().subrange(
                pos as int,
                line.spec_bytes().len() as int,
            ),
            r.1 == start + elected.spec_bytes().len(),
    {
        let (head, _) = line.split_at(start);
        let (_, tail) = line.split_at(pos);
        let mut text = String::new();
        append_str(&mut text, head);
        append_str(&mut text, elected);
        append_str(&mut text, tail);
        proof {
            lemma_encode_utf8_concat(head@ + elected@, tail@);
            lemma_encode_utf8_concat(head@, elected@);
            assert(text@ =~= head@ + elected@ + tail@);
        }
        (text, start + elected.len())
    }
}

} // verus!
