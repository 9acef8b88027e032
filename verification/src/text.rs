//! Character-level string helpers shared by the parsers and the formatters.
//!
//! Strings are modelled by their view, a `Seq<char>`; every helper here states
//! its result over that view.
use vstd::prelude::*;

verus! {

/// The views of a sequence of owned strings.
pub open spec fn views(v: Seq<String>) -> Seq<Seq<char>> {
    v.map_values(|s: String| s@)
}

/// Appends one character to a `String` (`String::push`).
///
/// Trusted: the new view is the old view with `c` added at the end, as std documents.
#[verifier::external_body]
pub(crate) fn push_char(s: &mut String, c: char)
    ensures
        final(s)@ == old(s)@.push(c),
{
    s.push(c);
}

/// The characters of `s`, in order.
pub fn chars_of(s: &str) -> (r: Vec<char>)
    ensures
        r@ == s@,
{
    let mut v: Vec<char> = Vec::new();
    for c in it: s.chars()
        invariant
            v@ == it.seq().take(it.index() as int),
    {
        v.push(c);
    }
    v
}

/// A `String` holding exactly the characters of `cs`.
pub fn string_from_chars(cs: &Vec<char>) -> (r: String)
    ensures
        r@ == cs@,
{
    let mut s = String::new();
    let mut i: usize = 0;
    while i < cs.len()
        invariant
            i <= cs.len(),
            s@ == cs@.take(i as int),
        decreases cs.len() - i,
    {
        push_char(&mut s, cs[i]);
        assert(cs@.take(i + 1) =~= cs@.take(i as int).push(cs@[i as int]));
        i += 1;
    }
    assert(cs@.take(cs.len() as int) =~= cs@);
    s
}

/// A `String` holding the characters `cs[lo..hi]`.
pub fn string_from_range(cs: &Vec<char>, lo: usize, hi: usize) -> (r: String)
    requires
        lo <= hi <= cs.len(),
    ensures
        r@ == cs@.subrange(lo as int, hi as int),
{
    let mut s = String::new();
    let mut i: usize = lo;
    while i < hi
        invariant
            lo <= i <= hi <= cs.len(),
            s@ == cs@.subrange(lo as int, i as int),
        decreases hi - i,
    {
        push_char(&mut s, cs[i]);
        assert(cs@.subrange(lo as int, i + 1) =~= cs@.subrange(lo as int, i as int).push(
            cs@[i as int],
        ));
        i += 1;
    }
    s
}

/// `s` followed by the characters of `t`.
pub fn append_str(s: &mut String, t: &str)
    ensures
        final(s)@ == old(s)@ + t@,
{
    let cs = chars_of(t);
    let mut i: usize = 0;
    while i < cs.len()
        invariant
            i <= cs.len(),
            cs@ == t@,
            s@ == old(s)@ + t@.take(i as int),
        decreases cs.len() - i,
    {
        push_char(s, cs[i]);
        assert(t@.take(i + 1) =~= t@.take(i as int).push(t@[i as int]));
        i += 1;
    }
    assert(t@.take(cs.len() as int) =~= t@);
}

/// Whether `a` and `b` hold the same characters.
pub fn str_eq(a: &str, b: &str) -> (r: bool)
    ensures
        r == (a@ == b@),
{
    let x = chars_of(a);
    let y = chars_of(b);
    if x.len() != y.len() {
        return false;
    }
    let mut i: usize = 0;
    while i < x.len()
        invariant
            i <= x.len(),
            x.len() == y.len(),
            x@ == a@,
            y@ == b@,
            forall|k: int| 0 <= k < i ==> x@[k] == y@[k],
        decreases x.len() - i,
    {
        if x[i] != y[i] {
            return false;
        }
        i += 1;
    }
    assert(a@ =~= b@);
    true
}

/// An owned copy of `s`.
pub fn string_of_str(s: &str) -> (r: String)
    ensures
        r@ == s@,
{
    s.to_owned()
}

/// `true` when the characters of `s` are exactly `lit`.
pub fn str_is(s: &str, lit: &[char]) -> (r: bool)
    ensures
        r == (s@ == lit@),
{
    let cs = chars_of(s);
    if cs.len() != lit.len() {
        return false;
    }
    let mut i: usize = 0;
    while i < cs.len()
        invariant
            i <= cs.len(),
            cs.len() == lit@.len(),
            cs@ == s@,
            forall|k: int| 0 <= k < i ==> cs@[k] == lit@[k],
        decreases cs.len() - i,
    {
        if cs[i] != lit[i] {
            return false;
        }
        i += 1;
    }
    assert(s@ =~= lit@);
    true
}

/// A `String` made of the characters of the literal `lit`.
pub fn string_of(lit: &[char]) -> (r: String)
    ensures
        r@ == lit@,
{
    let mut s = String::new();
    let mut i: usize = 0;
    while i < lit.len()
        invariant
            i <= lit@.len(),
            s@ == lit@.take(i as int),
        decreases lit@.len() - i,
    {
        push_char(&mut s, lit[i]);
        assert(lit@.take(i + 1) =~= lit@.take(i as int).push(lit@[i as int]));
        i += 1;
    }
    assert(lit@.take(lit@.len() as int) =~= lit@);
    s
}

/// A copy of `s`.
pub fn copy_string(s: &String) -> (r: String)
    ensures
        r@ == s@,
{
    s.clone()
}

/// Copies of every string in `v`, in order.
pub fn copy_strings(v: &Vec<String>) -> (r: Vec<String>)
    ensures
        views(r@) == views(v@),
{
    let mut out: Vec<String> = Vec::new();
    let mut i: usize = 0;
    while i < v.len()
        invariant
            i <= v.len(),
            views(out@) =~= views(v@).take(i as int),
        decreases v.len() - i,
    {
        let ghost before = out@;
        out.push(v[i].clone());
        assert(views(out@) =~= views(before).push(v@[i as int]@));
        assert(views(v@).take(i + 1) =~= views(v@).take(i as int).push(v@[i as int]@));
        i += 1;
    }
    assert(views(v@).take(v.len() as int) =~= views(v@));
    out
}

/// Unicode `White_Space`: the characters for which `char::is_whitespace` holds.
pub open spec fn is_ws(c: char) -> bool {
    ||| ('\u{9}' <= c && c <= '\u{d}')
    ||| c == ' '
    ||| c == '\u{85}'
    ||| c == '\u{a0}'
    ||| c == '\u{1680}'
    ||| ('\u{2000}' <= c && c <= '\u{200a}')
    ||| c == '\u{2028}'
    ||| c == '\u{2029}'
    ||| c == '\u{202f}'
    ||| c == '\u{205f}'
    ||| c == '\u{3000}'
}

/// Whether `c` is Unicode white space.
pub fn is_whitespace(c: char) -> (r: bool)
    ensures
        r == is_ws(c),
{
    ('\u{9}' <= c && c <= '\u{d}') || c == ' ' || c == '\u{85}' || c == '\u{a0}' || c
        == '\u{1680}' || ('\u{2000}' <= c && c <= '\u{200a}') || c == '\u{2028}' || c
        == '\u{2029}' || c == '\u{202f}' || c == '\u{205f}' || c == '\u{3000}'
}

/// `s` without its leading white space.
pub open spec fn trim_start(s: Seq<char>) -> Seq<char>
    decreases s.len(),
{
    if s.len() > 0 && is_ws(s[0]) {
        trim_start(s.drop_first())
    } else {
        s
    }
}

/// `s` without its trailing white space.
pub open spec fn trim_end(s: Seq<char>) -> Seq<char>
    decreases s.len(),
{
    if s.len() > 0 && is_ws(s.last()) {
        trim_end(s.drop_last())
    } else {
        s
    }
}

/// `s` without leading and trailing white space (`str::trim`).
pub open spec fn trim(s: Seq<char>) -> Seq<char> {
    trim_end(trim_start(s))
}

/// Index of the first character of `cs` that is not white space, or `cs.len()`.
fn skip_ws_forward(cs: &Vec<char>) -> (k: usize)
    ensures
        k <= cs.len(),
        trim_start(cs@) == cs@.skip(k as int),
{
    let mut i: usize = 0;
    assert(cs@.skip(0) =~= cs@);
    while i < cs.len() && is_whitespace(cs[i])
        invariant
            i <= cs.len(),
            trim_start(cs@) == trim_start(cs@.skip(i as int)),
        decreases cs.len() - i,
    {
        assert(cs@.skip(i as int).drop_first() =~= cs@.skip(i + 1));
        i += 1;
    }
    i
}

/// End of `cs[lo..]` once its trailing white space is removed.
fn skip_ws_backward(cs: &Vec<char>, lo: usize) -> (k: usize)
    requires
        lo <= cs.len(),
    ensures
        lo <= k <= cs.len(),
        trim_end(cs@.skip(lo as int)) == cs@.subrange(lo as int, k as int),
{
    let mut j: usize = cs.len();
    assert(cs@.subrange(lo as int, cs.len() as int) =~= cs@.skip(lo as int));
    while j > lo && is_whitespace(cs[j - 1])
        invariant
            lo <= j <= cs.len(),
            trim_end(cs@.skip(lo as int)) == trim_end(cs@.subrange(lo as int, j as int)),
        decreases j,
    {
        assert(cs@.subrange(lo as int, j as int).drop_last() =~= cs@.subrange(
            lo as int,
            j - 1,
        ));
        j -= 1;
    }
    j
}

/// `s` with leading and trailing white space removed (`str::trim`).
pub fn trim_string(s: &str) -> (r: String)
    ensures
        r@ == trim(s@),
{
    let cs = chars_of(s);
    let lo = skip_ws_forward(&cs);
    let hi = skip_ws_backward(&cs, lo);
    string_from_range(&cs, lo, hi)
}

/// `s` with trailing white space removed (`str::trim_end`).
pub fn trim_end_string(s: &str) -> (r: String)
    ensures
        r@ == trim_end(s@),
{
    let cs = chars_of(s);
    assert(cs@.skip(0) =~= cs@);
    let hi = skip_ws_backward(&cs, 0);
    string_from_range(&cs, 0, hi)
}

/// The words of `s`: maximal runs of characters that are not white space, in order
/// (`str::split_whitespace`).
pub open spec fn words(s: Seq<char>) -> Seq<Seq<char>> {
    let (acc, cur) = words_fold(s);
    if cur.len() > 0 {
        acc.push(cur)
    } else {
        acc
    }
}

/// Finished words and the word in progress after reading `s`.
pub open spec fn words_fold(s: Seq<char>) -> (Seq<Seq<char>>, Seq<char>)
    decreases s.len(),
{
    if s.len() == 0 {
        (Seq::empty(), Seq::empty())
    } else {
        let (acc, cur) = words_fold(s.drop_last());
        let c = s.last();
        if is_ws(c) {
            if cur.len() > 0 {
                (acc.push(cur), Seq::empty())
            } else {
                (acc, cur)
            }
        } else {
            (acc, cur.push(c))
        }
    }
}

/// The words of `s` (`str::split_whitespace`).
pub fn split_words(s: &str) -> (r: Vec<String>)
    ensures
        views(r@) == words(s@),
{
    let cs = chars_of(s);
    let mut acc: Vec<String> = Vec::new();
    let mut cur: Vec<char> = Vec::new();
    let mut i: usize = 0;
    while i < cs.len()
        invariant
            i <= cs.len(),
            cs@ == s@,
            (views(acc@), cur@) == words_fold(cs@.take(i as int)),
        decreases cs.len() - i,
    {
        assert(cs@.take(i + 1).drop_last() =~= cs@.take(i as int));
        let c = cs[i];
        if is_whitespace(c) {
            if cur.len() > 0 {
                let ghost before = acc@;
                let w = string_from_chars(&cur);
                acc.push(w);
                assert(views(acc@) =~= views(before).push(cur@));
                cur = Vec::new();
            }
        } else {
            cur.push(c);
        }
        i += 1;
    }
    assert(cs@.take(cs.len() as int) =~= cs@);
    if cur.len() > 0 {
        let ghost before = acc@;
        let w = string_from_chars(&cur);
        acc.push(w);
        assert(views(acc@) =~= views(before).push(cur@));
    }
    acc
}

/// A non-empty trimmed text does not begin with white space.
pub proof fn lemma_trim_head(s: Seq<char>)
    ensures
        trim(s).len() > 0 ==> !is_ws(trim(s)[0]),
{
    lemma_trim_start_head(s);
    lemma_trim_end_prefix(trim_start(s));
}

proof fn lemma_trim_start_head(s: Seq<char>)
    ensures
        trim_start(s).len() > 0 ==> !is_ws(trim_start(s)[0]),
    decreases s.len(),
{
    if s.len() > 0 && is_ws(s[0]) {
        lemma_trim_start_head(s.drop_first());
    }
}

proof fn lemma_trim_end_prefix(s: Seq<char>)
    ensures
        trim_end(s).len() <= s.len(),
        trim_end(s) == s.take(trim_end(s).len() as int),
    decreases s.len(),
{
    if s.len() > 0 && is_ws(s.last()) {
        lemma_trim_end_prefix(s.drop_last());
        assert(s.drop_last().take(trim_end(s).len() as int) =~= s.take(trim_end(s).len() as int));
    } else {
        assert(s.take(s.len() as int) =~= s);
    }
}

/// Reading a run of non-white-space characters from the start leaves no finished word
/// and that run in progress.
proof fn lemma_words_fold_run(a: Seq<char>)
    requires
        forall|j: int| 0 <= j < a.len() ==> !is_ws(#[trigger] a[j]),
    ensures
        words_fold(a) == (Seq::<Seq<char>>::empty(), a),
    decreases a.len(),
{
    if a.len() > 0 {
        assert forall|j: int| 0 <= j < a.drop_last().len() implies !is_ws(#[trigger] a.drop_last()[j]) by {
            assert(a.drop_last()[j] == a[j]);
        }
        lemma_words_fold_run(a.drop_last());
        assert(a.drop_last().push(a.last()) =~= a);
    }
}

/// After a non-empty run `a` of non-white-space characters, text `b` that is empty or
/// begins with white space: the words are `a`, then those of `b`.
pub proof fn lemma_words_after_word(a: Seq<char>, b: Seq<char>)
    requires
        a.len() > 0,
        forall|j: int| 0 <= j < a.len() ==> !is_ws(#[trigger] a[j]),
        b.len() > 0 ==> is_ws(b[0]),
    ensures
        words(a + b) == seq![a] + words(b),
{
    lemma_words_fold_run(a);
    if b.len() == 0 {
        assert(a + b =~= a);
    } else {
        lemma_words_fold_shift(a, b);
        let (acc, cur) = words_fold(b);
        assert((seq![a] + acc).push(cur) =~= seq![a] + acc.push(cur));
    }
}

/// Reading `a + b`, with `b` beginning with white space, finishes `a` first, then
/// proceeds as reading `b` alone.
proof fn lemma_words_fold_shift(a: Seq<char>, b: Seq<char>)
    requires
        a.len() > 0,
        words_fold(a) == (Seq::<Seq<char>>::empty(), a),
        b.len() > 0,
        is_ws(b[0]),
    ensures
        words_fold(a + b) == (seq![a] + words_fold(b).0, words_fold(b).1),
    decreases b.len(),
{
    let ab = a + b;
    assert(ab.drop_last() =~= a + b.drop_last());
    assert(ab.last() == b.last());
    if b.len() == 1 {
        assert(b.drop_last() =~= Seq::<char>::empty());
        assert(a + b.drop_last() =~= a);
        assert(words_fold(b.drop_last()) == (Seq::<Seq<char>>::empty(), Seq::<char>::empty()));
        assert(Seq::<Seq<char>>::empty().push(a) =~= seq![a] + Seq::<Seq<char>>::empty());
    } else {
        lemma_words_fold_shift(a, b.drop_last());
        let (acc, cur) = words_fold(b.drop_last());
        assert((seq![a] + acc).push(cur) =~= seq![a] + acc.push(cur));
    }
}

/// Pieces finished so far and the piece in progress after reading `s`, splitting at `sep`.
pub open spec fn split_fold(s: Seq<char>, sep: char) -> (Seq<Seq<char>>, Seq<char>)
    decreases s.len(),
{
    if s.len() == 0 {
        (Seq::empty(), Seq::empty())
    } else {
        let (acc, cur) = split_fold(s.drop_last(), sep);
        if s.last() == sep {
            (acc.push(cur), Seq::empty())
        } else {
            (acc, cur.push(s.last()))
        }
    }
}

/// The pieces of `s` between occurrences of `sep`, empty pieces included (`str::split`).
pub open spec fn split_on(s: Seq<char>, sep: char) -> Seq<Seq<char>> {
    let (acc, cur) = split_fold(s, sep);
    acc.push(cur)
}

/// The pieces of `parts` joined, with `sep` between each two.
pub open spec fn join_with(parts: Seq<Seq<char>>, sep: char) -> Seq<char>
    decreases parts.len(),
{
    if parts.len() == 0 {
        Seq::empty()
    } else if parts.len() == 1 {
        parts[0]
    } else {
        join_with(parts.drop_last(), sep) + seq![sep] + parts.last()
    }
}

/// The pieces of `s` between occurrences of `sep` (`str::split` with a `char` pattern).
pub fn split_on_char(s: &str, sep: char) -> (r: Vec<String>)
    ensures
        views(r@) == split_on(s@, sep),
{
    let cs = chars_of(s);
    let mut acc: Vec<String> = Vec::new();
    let mut cur: Vec<char> = Vec::new();
    let mut i: usize = 0;
    while i < cs.len()
        invariant
            i <= cs.len(),
            cs@ == s@,
            (views(acc@), cur@) == split_fold(cs@.take(i as int), sep),
        decreases cs.len() - i,
    {
        assert(cs@.take(i + 1).drop_last() =~= cs@.take(i as int));
        let c = cs[i];
        if c == sep {
            let ghost before = acc@;
            let w = string_from_chars(&cur);
            acc.push(w);
            assert(views(acc@) =~= views(before).push(cur@));
            cur = Vec::new();
        } else {
            cur.push(c);
        }
        i += 1;
    }
    assert(cs@.take(cs.len() as int) =~= cs@);
    let ghost before = acc@;
    let w = string_from_chars(&cur);
    acc.push(w);
    assert(views(acc@) =~= views(before).push(cur@));
    acc
}

/// Joining the pieces of `s` split at `sep` with `sep` gives back `s`; no piece holds `sep`.
pub proof fn law_split_then_join(s: Seq<char>, sep: char)
    ensures
        join_with(split_on(s, sep), sep) == s,
        forall|k: int, j: int|
            0 <= k < split_on(s, sep).len() && 0 <= j < split_on(s, sep)[k].len() ==> split_on(
                s,
                sep,
            )[k][j] != sep,
    decreases s.len(),
{
    if s.len() > 0 {
        law_split_then_join(s.drop_last(), sep);
        let (acc, cur) = split_fold(s.drop_last(), sep);
        let p = acc.push(cur);
        assert(p.drop_last() =~= acc);
        if s.last() == sep {
            let q = acc.push(cur).push(Seq::<char>::empty());
            assert(q.drop_last() =~= p);
            assert(join_with(q, sep) =~= s);
        } else {
            let q = acc.push(cur.push(s.last()));
            assert(q.drop_last() =~= acc);
            if acc.len() == 0 {
                assert(join_with(q, sep) =~= s);
            } else {
                assert(join_with(q, sep) =~= join_with(acc, sep) + seq![sep] + cur.push(s.last()));
                assert(join_with(p, sep) =~= join_with(acc, sep) + seq![sep] + cur);
                assert(s =~= s.drop_last().push(s.last()));
                assert(join_with(q, sep) =~= s);
            }
        }
    }
}

/// The non-empty pieces of `p`, in order.
pub open spec fn nonempty_pieces(p: Seq<Seq<char>>) -> Seq<Seq<char>>
    decreases p.len(),
{
    if p.len() == 0 {
        Seq::empty()
    } else if p.last().len() > 0 {
        nonempty_pieces(p.drop_last()).push(p.last())
    } else {
        nonempty_pieces(p.drop_last())
    }
}

/// The UTF-8 encoding of a concatenation is the concatenation of the encodings.
pub proof fn lemma_encode_utf8_concat(x: Seq<char>, y: Seq<char>)
    ensures
        vstd::utf8::encode_utf8(x + y) == vstd::utf8::encode_utf8(x) + vstd::utf8::encode_utf8(y),
    decreases x.len(),
{
    if x.len() == 0 {
        assert(x + y =~= y);
        assert(vstd::utf8::encode_utf8(x) + vstd::utf8::encode_utf8(y) =~= vstd::utf8::encode_utf8(y));
    } else {
        lemma_encode_utf8_concat(x.drop_first(), y);
        assert((x + y).drop_first() =~= x.drop_first() + y);
        assert((x + y)[0] == x[0]);
        let h = vstd::utf8::encode_scalar(x[0] as u32);
        assert(h + (vstd::utf8::encode_utf8(x.drop_first()) + vstd::utf8::encode_utf8(y)) =~= (h
            + vstd::utf8::encode_utf8(x.drop_first())) + vstd::utf8::encode_utf8(y));
    }
}

/// The non-empty strings of `v`, in order.
pub fn keep_nonempty(v: Vec<String>) -> (r: Vec<String>)
    ensures
        views(r@) == nonempty_pieces(views(v@)),
{
    let mut r: Vec<String> = Vec::new();
    let mut rest = v;
    let ghost all = views(rest@);
    let n = rest.len();
    let mut i: usize = 0;
    while i < n
        invariant
            i <= n == all.len(),
            rest@.len() == n - i,
            views(rest@) =~= all.skip(i as int),
            views(r@) == nonempty_pieces(all.take(i as int)),
        decreases n - i,
    {
        assert(all.take(i + 1).drop_last() =~= all.take(i as int));
        let ghost before = r@;
        let ghost before_rest = rest@;
        let piece = rest.remove(0);
        assert(views(rest@) =~= views(before_rest).drop_first());
        assert(views(before_rest)[0] == piece@);
        assert(all.skip(i as int)[0] == all[i as int]);
        if !piece.as_str().is_empty() {
            r.push(piece);
            assert(views(r@) =~= views(before).push(all[i as int]));
        }
        i += 1;
    }
    assert(all.take(n as int) =~= all);
    r
}

/// Does `s` begin with `prefix`?
pub open spec fn starts_with(s: Seq<char>, prefix: Seq<char>) -> bool {
    prefix.len() <= s.len() && s.take(prefix.len() as int) == prefix
}

/// Whether `s` begins with `prefix` (`str::starts_with`).
pub fn str_starts_with(s: &str, prefix: &str) -> (r: bool)
    ensures
        r == starts_with(s@, prefix@),
{
    let a = chars_of(s);
    let b = chars_of(prefix);
    if b.len() > a.len() {
        return false;
    }
    let mut i: usize = 0;
    while i < b.len()
        invariant
            i <= b.len() <= a.len(),
            a@ == s@,
            b@ == prefix@,
            forall|k: int| 0 <= k < i ==> a@[k] == b@[k],
        decreases b.len() - i,
    {
        if a[i] != b[i] {
            assert(s@.take(prefix@.len() as int)[i as int] != prefix@[i as int]);
            return false;
        }
        i += 1;
    }
    assert(s@.take(prefix@.len() as int) =~= prefix@);
    true
}

/// The decimal digit for `d < 10`.
pub open spec fn digit_char(d: nat) -> char {
    if d == 0 { '0' } else if d == 1 { '1' } else if d == 2 { '2' } else if d == 3 { '3' }
    else if d == 4 { '4' } else if d == 5 { '5' } else if d == 6 { '6' } else if d == 7 { '7' }
    else if d == 8 { '8' } else { '9' }
}

/// The decimal representation of `n`, without leading zeros.
pub open spec fn decimal(n: nat) -> Seq<char>
    decreases n,
{
    if n < 10 {
        seq![digit_char(n)]
    } else {
        decimal(n / 10).push(digit_char(n % 10))
    }
}

fn digit(d: u64) -> (c: char)
    requires
        d < 10,
    ensures
        c == digit_char(d as nat),
{
    if d == 0 { '0' } else if d == 1 { '1' } else if d == 2 { '2' } else if d == 3 { '3' }
    else if d == 4 { '4' } else if d == 5 { '5' } else if d == 6 { '6' } else if d == 7 { '7' }
    else if d == 8 { '8' } else { '9' }
}

/// Appends the decimal representation of `n` to `s`.
pub fn push_decimal(s: &mut String, n: u64)
    ensures
        final(s)@ == old(s)@ + decimal(n as nat),
    decreases n,
{
    if n < 10 {
        push_char(s, digit(n));
    } else {
        push_decimal(s, n / 10);
        push_char(s, digit(n % 10));
    }
}

/// `n` spaces.
pub open spec fn spaces(n: nat) -> Seq<char> {
    Seq::new(n, |i: int| ' ')
}

/// Appends `n` spaces to `s`.
pub fn push_spaces(s: &mut String, n: usize)
    ensures
        final(s)@ == old(s)@ + spaces(n as nat),
{
    let mut i: usize = 0;
    while i < n
        invariant
            i <= n,
            s@ == old(s)@ + spaces(i as nat),
        decreases n - i,
    {
        push_char(s, ' ');
        assert(spaces((i + 1) as nat) =~= spaces(i as nat).push(' '));
        i += 1;
    }
}

} // verus!
