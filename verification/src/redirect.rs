//! Output redirects (`>`, `1>`, `>>`, `1>>`, `2>`, `2>>`) found among a command's
//! arguments.
use vstd::prelude::*;

use crate::text::{chars_of, copy_string, string_of, views};

verus! {

/// The destination stream for a shell redirect.
#[derive(PartialEq, Eq, Structural, Clone, Copy, Debug)]
pub enum RedirectType {
    /// No redirect — output goes to the terminal as normal.
    NoRedirect,
    /// Redirect standard output (`>`, `1>`, `>>`, `1>>`).
    StdOut,
    /// Redirect standard error (`2>`, `2>>`).
    StdErr,
}

/// A parsed shell redirect operator and its associated metadata.
pub struct Redirect {
    /// Which stream is being redirected.
    pub redirect_type: RedirectType,
    /// Index of the redirect operator token in the argument list.
    /// All args before this index are passed to the command.
    pub position: usize,
    /// Path of the file to write or append to.
    pub target: String,
    /// `true` for append mode (`>>` / `2>>`), `false` for overwrite (`>` / `2>`).
    pub append: bool,
}

/// Why the redirects of an argument list could not be read.
#[derive(PartialEq, Eq, Structural, Clone, Copy, Debug)]
pub enum RedirectError {
    /// A redirect operator is the last argument: no file name follows it.
    MissingTarget,
}

/// The text of "Syntax Error: newline expected".
pub open spec fn missing_target_text() -> Seq<char> {
    seq![
        'S', 'y', 'n', 't', 'a', 'x', ' ', 'E', 'r', 'r', 'o', 'r', ':', ' ', 'n', 'e', 'w', 'l',
        'i', 'n', 'e', ' ', 'e', 'x', 'p', 'e', 'c', 't', 'e', 'd',
    ]
}

impl RedirectError {
    /// The message printed for this error.
    pub fn message(&self) -> (r: String)
        ensures
            r@ == missing_target_text(),
    {
        string_of(
            &[
                'S', 'y', 'n', 't', 'a', 'x', ' ', 'E', 'r', 'r', 'o', 'r', ':', ' ', 'n', 'e', 'w',
                'l', 'i', 'n', 'e', ' ', 'e', 'x', 'p', 'e', 'c', 't', 'e', 'd',
            ],
        )
    }
}

/// The stream and append mode of a redirect operator token, or `None` for any other token.
pub open spec fn redirect_op(tok: Seq<char>) -> Option<(RedirectType, bool)> {
    let n = tok.len();
    if (n == 1 && tok[0] == '>') || (n == 2 && tok[0] == '1' && tok[1] == '>') {
        Some((RedirectType::StdOut, false))
    } else if (n == 2 && tok[0] == '>' && tok[1] == '>') || (n == 3 && tok[0] == '1' && tok[1]
        == '>' && tok[2] == '>') {
        Some((RedirectType::StdOut, true))
    } else if n == 2 && tok[0] == '2' && tok[1] == '>' {
        Some((RedirectType::StdErr, false))
    } else if n == 3 && tok[0] == '2' && tok[1] == '>' && tok[2] == '>' {
        Some((RedirectType::StdErr, true))
    } else {
        None
    }
}

/// `p` is the index of the first redirect operator in `args`.
pub open spec fn is_first_op(args: Seq<Seq<char>>, p: int) -> bool {
    &&& 0 <= p < args.len()
    &&& redirect_op(args[p]) is Some
    &&& forall|k: int| 0 <= k < p ==> redirect_op(#[trigger] args[k]) is None
}

/// No argument is a redirect operator.
pub open spec fn no_op(args: Seq<Seq<char>>) -> bool {
    forall|k: int| 0 <= k < args.len() ==> redirect_op(#[trigger] args[k]) is None
}

/// The redirect that `has_redirect` finds in `args`, as (stream, position, target,
/// append), or `Err` when the first operator has no file name after it.
pub open spec fn redirect_spec(args: Seq<Seq<char>>) -> Result<
    (RedirectType, int, Seq<char>, bool),
    RedirectError,
> {
    if no_op(args) {
        Ok((RedirectType::NoRedirect, 0, Seq::empty(), false))
    } else {
        let p = choose|p: int| is_first_op(args, p);
        if p + 1 < args.len() {
            Ok((redirect_op(args[p]).unwrap().0, p, args[p + 1], redirect_op(args[p]).unwrap().1))
        } else {
            Err(RedirectError::MissingTarget)
        }
    }
}

/// The view of a `Redirect`: (stream, position, target, append).
pub open spec fn redirect_view(r: Redirect) -> (RedirectType, int, Seq<char>, bool) {
    (r.redirect_type, r.position as int, r.target@, r.append)
}

/// Which operator `tok` is.
pub fn classify_operator(tok: &str) -> (r: Option<(RedirectType, bool)>)
    ensures
        r == redirect_op(tok@),
{
    let t = chars_of(tok);
    let n = t.len();
    if (n == 1 && t[0] == '>') || (n == 2 && t[0] == '1' && t[1] == '>') {
        Some((RedirectType::StdOut, false))
    } else if (n == 2 && t[0] == '>' && t[1] == '>') || (n == 3 && t[0] == '1' && t[1] == '>'
        && t[2] == '>') {
        Some((RedirectType::StdOut, true))
    } else if n == 2 && t[0] == '2' && t[1] == '>' {
        Some((RedirectType::StdErr, false))
    } else if n == 3 && t[0] == '2' && t[1] == '>' && t[2] == '>' {
        Some((RedirectType::StdErr, true))
    } else {
        None
    }
}

impl Default for Redirect {
    /// No redirect: type `None`, position 0, empty target, overwrite mode.
    fn default() -> (r: Self)
        ensures
            redirect_view(r) == (RedirectType::NoRedirect, 0int, Seq::<char>::empty(), false),
    {
        Redirect { redirect_type: RedirectType::NoRedirect, position: 0, target: String::new(), append: false }
    }
}

impl Redirect {
    /// Constructs a `Redirect` from its component parts.
    pub fn new(redirect_type: RedirectType, position: usize, target: String, append: bool) -> (r:
        Self)
        ensures
            redirect_view(r) == (redirect_type, position as int, target@, append),
    {
        Self { redirect_type, position, target, append }
    }

    /// Scans `args` for the first redirect operator and returns a [`Redirect`] describing it.
    ///
    /// Recognised operators:
    /// - `>` / `1>` — overwrite stdout
    /// - `>>` / `1>>` — append stdout
    /// - `2>` — overwrite stderr
    /// - `2>>` — append stderr
    ///
    /// Returns `Redirect::default()` (type [`RedirectType::NoRedirect`]) when no operator is found.
    /// Returns an error when an operator appears without a following filename.
    pub fn has_redirect(args: &[String]) -> (r: Result<Redirect, RedirectError>)
        ensures
            match r {
                Ok(rd) => redirect_spec(views(args@)) == Ok::<_, RedirectError>(redirect_view(rd)),
                Err(e) => redirect_spec(views(args@)) == Err::<(RedirectType, int, Seq<char>, bool), _>(e),
            },
    {
        let ghost a = views(args@);
        let mut i: usize = 0;
        while i < args.len()
            invariant
                i <= args.len(),
                a == views(args@),
                forall|k: int| 0 <= k < i ==> redirect_op(#[trigger] a[k]) is None,
            decreases args.len() - i,
        {
            match classify_operator(args[i].as_str()) {
                Some((redirect_type, append)) => {
                    assert(is_first_op(a, i as int));
                    assert forall|p: int| is_first_op(a, p) implies p == i by {
                        if p < i {
                            assert(redirect_op(a[p]) is None);
                        } else if p > i {
                            assert(redirect_op(a[i as int]) is None);
                        }
                    }
                    if i + 1 < args.len() {
                        let target = copy_string(&args[i + 1]);
                        return Ok(Redirect::new(redirect_type, i, target, append));
                    } else {
                        return Err(RedirectError::MissingTarget);
                    }
                },
                None => {},
            }
            i += 1;
        }
        assert(no_op(a));
        Ok(Redirect::default())
    }

    /// The first redirect with a file name among `args`, if there is one.
    pub fn get_redirect(args: &[String]) -> (r: Option<Redirect>)
        ensures
            match r {
                Some(rd) => redirect_spec(views(args@)) == Ok::<_, RedirectError>(redirect_view(rd))
                    && rd.redirect_type != RedirectType::NoRedirect,
                None => match redirect_spec(views(args@)) {
                    Ok((t, _, _, _)) => t == RedirectType::NoRedirect,
                    Err(_) => true,
                },
            },
    {
        match Redirect::has_redirect(args) {
            Ok(rd) => {
                if rd.redirect_type == RedirectType::NoRedirect {
                    None
                } else {
                    Some(rd)
                }
            },
            Err(_) => None,
        }
    }

    /// `args` without redirect operators and the file names that follow them.
    pub fn strip_redirect_tokens(args: &[String]) -> (r: Vec<String>)
        ensures
            views(r@) == strip_spec(views(args@), 0),
    {
        let ghost a = views(args@);
        let mut out: Vec<String> = Vec::new();
        let mut i: usize = 0;
        assert(views(out@) =~= Seq::<Seq<char>>::empty());
        while i < args.len()
            invariant
                i <= args.len(),
                a == views(args@),
                strip_spec(a, 0) == views(out@) + strip_spec(a, i as int),
            decreases args.len() - i,
        {
            if classify_operator(args[i].as_str()).is_some() {
                if i + 1 < args.len() {
                    i += 2;
                } else {
                    i += 1;
                }
            } else {
                let ghost before = out@;
                out.push(copy_string(&args[i]));
                assert(views(out@) =~= views(before).push(a[i as int]));
                assert(strip_spec(a, i as int) =~= seq![a[i as int]] + strip_spec(a, i + 1));
                i += 1;
            }
        }
        assert(views(out@) + strip_spec(a, i as int) =~= views(out@));
        out
    }
}

/// `args[i..]` with every redirect operator, and the file name after it, left out.
pub open spec fn strip_spec(args: Seq<Seq<char>>, i: int) -> Seq<Seq<char>>
    decreases args.len() - i,
{
    if i < 0 || i >= args.len() {
        Seq::empty()
    } else if redirect_op(args[i]) is Some {
        if i + 1 < args.len() {
            strip_spec(args, i + 2)
        } else {
            Seq::empty()
        }
    } else {
        seq![args[i]] + strip_spec(args, i + 1)
    }
}

/// No redirect operator survives stripping: the command never sees one.
pub proof fn law_strip_leaves_no_operator(args: Seq<Seq<char>>, i: int)
    ensures
        forall|k: int|
            0 <= k < strip_spec(args, i).len() ==> redirect_op(#[trigger] strip_spec(args, i)[k]) is None,
    decreases args.len() - i,
{
    if 0 <= i < args.len() {
        if redirect_op(args[i]) is Some {
            if i + 1 < args.len() {
                law_strip_leaves_no_operator(args, i + 2);
            }
        } else {
            law_strip_leaves_no_operator(args, i + 1);
            let rest = strip_spec(args, i + 1);
            assert forall|k: int| 0 <= k < strip_spec(args, i).len() implies redirect_op(
                #[trigger] strip_spec(args, i)[k],
            ) is None by {
                if k > 0 {
                    assert(strip_spec(args, i)[k] == rest[k - 1]);
                }
            }
        }
    }
}

} // verus!
