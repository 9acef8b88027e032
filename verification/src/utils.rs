//! `PATH` handling: splitting the variable into directories, forming candidate
//! program paths, and finding the first executable candidate.
use vstd::prelude::*;

use crate::text::{append_str, chars_of, keep_nonempty, nonempty_pieces, split_on, split_on_char, views};

verus! {

/// The directories named by the value of `PATH` (`None` when the variable is unset):
/// the non-empty pieces between colons, in order.
pub open spec fn paths_from_var_spec(var: Option<Seq<char>>) -> Seq<Seq<char>> {
    match var {
        Some(v) => nonempty_pieces(split_on(v, ':')),
        None => Seq::empty(),
    }
}

/// Splits the value of the `PATH` environment variable into individual directory strings.
/// Empty entries are left out; returns an empty `Vec` when `PATH` is unset.
pub fn paths_from_var(var: Option<&str>) -> (r: Vec<String>)
    ensures
        views(r@) == paths_from_var_spec(
            match var {
                Some(v) => Some(v@),
                None => None,
            },
        ),
{
    match var {
        Some(v) => keep_nonempty(split_on_char(v, ':')),
        None => {
            let r: Vec<String> = Vec::new();
            assert(views(r@) =~= Seq::<Seq<char>>::empty());
            r
        },
    }
}

/// Whether a file mode has any execute bit set.
pub open spec fn mode_is_executable_spec(mode: u32) -> bool {
    mode & 0o111u32 != 0
}

/// Returns `true` if the permission bits `mode` have any execute bit set.
pub fn mode_is_executable(mode: u32) -> (r: bool)
    ensures
        r == mode_is_executable_spec(mode),
{
    mode & 0o111 != 0
}

/// `dir` joined with `name` as `Path::join` does on Unix: an absolute `name` replaces
/// `dir`; otherwise a `/` goes between them unless `dir` is empty or already ends in one.
pub open spec fn join_path(dir: Seq<char>, name: Seq<char>) -> Seq<char> {
    if name.len() > 0 && name[0] == '/' {
        name
    } else if dir.len() == 0 {
        name
    } else if dir.last() == '/' {
        dir + name
    } else {
        dir + seq!['/'] + name
    }
}

/// The path of `name` inside `dir` (`Path::new(dir).join(name)`).
pub fn join_path_string(dir: &str, name: &str) -> (r: String)
    ensures
        r@ == join_path(dir@, name@),
{
    let n = chars_of(name);
    let d = chars_of(dir);
    let mut out = String::new();
    if n.len() > 0 && n[0] == '/' {
        append_str(&mut out, name);
    } else if d.len() == 0 {
        append_str(&mut out, name);
    } else if d[d.len() - 1] == '/' {
        append_str(&mut out, dir);
        append_str(&mut out, name);
    } else {
        append_str(&mut out, dir);
        append_str(&mut out, "/");
        proof {
            reveal_strlit("/");
        }
        append_str(&mut out, name);
    }
    assert(out@ =~= join_path(dir@, name@));
    out
}

/// The probe `is_exec` answered `answer` for some string spelling `path`.
pub open spec fn probed<F: Fn(&String) -> bool>(is_exec: F, path: Seq<char>, answer: bool) -> bool {
    exists|c: String| c@ == path && #[trigger] is_exec.ensures((&c,), answer)
}

/// `r` is a correct answer for finding `cmd` along `paths` with the probe `is_exec`:
/// `Some(p)` when `p` is the joined path in the first directory for which the probe
/// answered `true`, having answered `false` for every earlier one; `None` when it
/// answered `false` for every directory.
pub open spec fn lookup_ok<F: Fn(&String) -> bool>(
    is_exec: F,
    paths: Seq<Seq<char>>,
    cmd: Seq<char>,
    r: Option<Seq<char>>,
) -> bool {
    match r {
        Some(p) => exists|i: int|
            0 <= i < paths.len() && p == join_path(#[trigger] paths[i], cmd) && probed(is_exec, p, true)
                && forall|j: int| 0 <= j < i ==> probed(is_exec, join_path(#[trigger] paths[j], cmd), false),
        None => forall|j: int|
            0 <= j < paths.len() ==> probed(is_exec, join_path(#[trigger] paths[j], cmd), false),
    }
}

/// The view of an optional string.
pub open spec fn opt_view(r: Option<String>) -> Option<Seq<char>> {
    match r {
        Some(s) => Some(s@),
        None => None,
    }
}

/// Searches `paths`, in order, for the first directory in which `cmd` is an executable
/// file, as judged by `is_exec` on the joined path; returns that path.
///
/// `is_exec` is asked about each candidate in turn until it answers `true`.
pub fn find_in_paths<F: Fn(&String) -> bool>(cmd: &str, paths: &Vec<String>, is_exec: F) -> (r:
    Option<String>)
    requires
        forall|s: &String| is_exec.requires((s,)),
    ensures
        lookup_ok(is_exec, views(paths@), cmd@, opt_view(r)),
{
    let ghost ps = views(paths@);
    let mut i: usize = 0;
    while i < paths.len()
        invariant
            i <= paths.len(),
            ps == views(paths@),
            forall|s: &String| is_exec.requires((s,)),
            forall|j: int| 0 <= j < i ==> probed(is_exec, join_path(#[trigger] ps[j], cmd@), false),
        decreases paths.len() - i,
    {
        let candidate = join_path_string(paths[i].as_str(), cmd);
        if is_exec(&candidate) {
            assert(probed(is_exec, candidate@, true));
            assert(candidate@ == join_path(ps[i as int], cmd@));
            return Some(candidate);
        }
        assert(probed(is_exec, join_path(ps[i as int], cmd@), false));
        i += 1;
    }
    None
}

} // verus!
