//! Character-level text primitives shared by the slug, link and redaction code.
//!
//! Strings are modelled by their `Seq<char>` view; the executable helpers work on
//! `&[char]` buffers obtained once from a `&str`.
use vstd::prelude::*;

verus! {

/// `String::push` appends the character: afterwards the string holds its
/// former characters followed by `ch`, as the documentation of `push` says.
pub assume_specification[ String::push ](string: &mut String, ch: char)
    ensures
        final(string)@ == old(string)@.push(ch),
;

/// Unicode `White_Space`, as used by `char::is_whitespace` and `str::trim`.
pub open spec fn is_ws(c: char) -> bool {
    ||| ('\u{9}' <= c && c <= '\u{d}')
    ||| c == ' '
    ||| c == '\u{85}'
    ||| c == '\u{a0}'
    ||| c == '\u{1680}'
    ||| ('\u{2000}' <= c && c <= '\u{200a}')
    ||| c == '\u{2028}'
    ||| c == '\u{2029}'
    ||| c == '\u{202f}'
    ||| c == '\u{205f}'
    ||| c == '\u{3000}'
}

pub fn is_whitespace(c: char) -> (b: bool)
    ensures
        b == is_ws(c),
{
    ('\u{9}' <= c && c <= '\u{d}') || c == ' ' || c == '\u{85}' || c == '\u{a0}' || c
        == '\u{1680}' || ('\u{2000}' <= c && c <= '\u{200a}') || c == '\u{2028}' || c
        == '\u{2029}' || c == '\u{202f}' || c == '\u{205f}' || c == '\u{3000}'
}

/// Leading whitespace removed.
pub open spec fn trim_start(s: Seq<char>) -> Seq<char>
    decreases s.len(),
{
    if s.len() > 0 && is_ws(s[0]) {
        trim_start(s.drop_first())
    } else {
        s
    }
}

/// Trailing whitespace removed.
pub open spec fn trim_end(s: Seq<char>) -> Seq<char>
    decreases s.len(),
{
    if s.len() > 0 && is_ws(s.last()) {
        trim_end(s.drop_last())
    } else {
        s
    }
}

/// Whitespace removed at both ends (`str::trim`).
pub open spec fn trim(s: Seq<char>) -> Seq<char> {
    trim_end(trim_start(s))
}

/// `pat` occurs in `s` at position `i`.
pub open spec fn occurs_at(s: Seq<char>, i: int, pat: Seq<char>) -> bool {
    0 <= i && i + pat.len() <= s.len() && s.subrange(i, i + pat.len()) == pat
}

/// First position `>= i` where `pat` occurs in `s` (`str::find` from an offset).
pub open spec fn find_from(s: Seq<char>, pat: Seq<char>, i: int) -> Option<int>
    decreases s.len() + 1 - i,
{
    if i < 0 || i + pat.len() > s.len() {
        None
    } else if occurs_at(s, i, pat) {
        Some(i)
    } else {
        find_from(s, pat, i + 1)
    }
}

/// Last position of character `c` in `s` (`str::rfind` with a char).
pub open spec fn rfind_char(s: Seq<char>, c: char) -> Option<int>
    decreases s.len(),
{
    if s.len() == 0 {
        None
    } else if s.last() == c {
        Some(s.len() - 1)
    } else {
        rfind_char(s.drop_last(), c)
    }
}

pub proof fn lemma_rfind_char(s: Seq<char>, c: char)
    ensures
        rfind_char(s, c) matches Some(k) ==> 0 <= k < s.len() && s[k] == c && forall|j: int|
            k < j < s.len() ==> s[j] != c,
        rfind_char(s, c) is None ==> forall|j: int| 0 <= j < s.len() ==> s[j] != c,
    decreases s.len(),
{
    if s.len() > 0 && s.last() != c {
        let t = s.drop_last();
        lemma_rfind_char(t, c);
        assert forall|j: int| 0 <= j < t.len() implies t[j] == s[j] by {}
    }
}

pub proof fn lemma_trim_start_shape(s: Seq<char>)
    ensures
        exists|k: int| 0 <= k <= s.len() && trim_start(s) == s.subrange(k, s.len() as int),
        trim_start(s).len() == 0 || !is_ws(trim_start(s)[0]),
    decreases s.len(),
{
    if s.len() > 0 && is_ws(s[0]) {
        let t = s.drop_first();
        lemma_trim_start_shape(t);
        let k = choose|k: int| 0 <= k <= t.len() && trim_start(t) == t.subrange(k, t.len() as int);
        assert(t.subrange(k, t.len() as int) =~= s.subrange(k + 1, s.len() as int));
    } else {
        assert(s.subrange(0, s.len() as int) =~= s);
    }
}

pub proof fn lemma_trim_end_shape(s: Seq<char>)
    ensures
        exists|k: int| 0 <= k <= s.len() && trim_end(s) == s.subrange(0, k),
        trim_end(s).len() == 0 || !is_ws(trim_end(s).last()),
    decreases s.len(),
{
    if s.len() > 0 && is_ws(s.last()) {
        let t = s.drop_last();
        lemma_trim_end_shape(t);
        let k = choose|k: int| 0 <= k <= t.len() && trim_end(t) == t.subrange(0, k);
        assert(t.subrange(0, k) =~= s.subrange(0, k));
    } else {
        assert(s.subrange(0, s.len() as int) =~= s);
    }
}

/// Trimming twice is trimming once.
pub proof fn lemma_trim_idempotent(s: Seq<char>)
    ensures
        trim(trim(s)) == trim(s),
{
    let t = trim_start(s);
    lemma_trim_start_shape(s);
    lemma_trim_end_shape(t);
    let y = trim_end(t);
    let k = choose|k: int| 0 <= k <= t.len() && trim_end(t) == t.subrange(0, k);
    if y.len() > 0 {
        assert(y[0] == t[0]);
        assert(trim_start(y) == y);
        assert(trim_end(y) == y);
    } else {
        assert(trim_start(y) == y);
        assert(trim_end(y) == y);
    }
}

pub proof fn lemma_find_from(s: Seq<char>, pat: Seq<char>, i: int)
    requires
        0 <= i,
    ensures
        find_from(s, pat, i) matches Some(k) ==> i <= k && k + pat.len() <= s.len() && occurs_at(
            s,
            k,
            pat,
        ) && forall|j: int| i <= j < k ==> !occurs_at(s, j, pat),
        find_from(s, pat, i) is None ==> forall|j: int| i <= j ==> !occurs_at(s, j, pat),
    decreases s.len() + 1 - i,
{
    if i + pat.len() > s.len() {
    } else if occurs_at(s, i, pat) {
    } else {
        lemma_find_from(s, pat, i + 1);
    }
}

pub proof fn lemma_find_from_is(s: Seq<char>, pat: Seq<char>, i: int, k: int)
    requires
        0 <= i <= k,
        occurs_at(s, k, pat),
        forall|j: int| i <= j < k ==> !occurs_at(s, j, pat),
    ensures
        find_from(s, pat, i) == Some(k),
    decreases k - i,
{
    if i < k {
        assert(!occurs_at(s, i, pat));
        lemma_find_from_is(s, pat, i + 1, k);
    }
}

pub proof fn lemma_find_from_none(s: Seq<char>, pat: Seq<char>, i: int)
    requires
        0 <= i,
        forall|j: int| i <= j ==> !occurs_at(s, j, pat),
    ensures
        find_from(s, pat, i) is None,
    decreases s.len() + 1 - i,
{
    if i + pat.len() <= s.len() {
        assert(!occurs_at(s, i, pat));
        lemma_find_from_none(s, pat, i + 1);
    }
}

/// `s` starts with `p`.
pub open spec fn has_prefix(s: Seq<char>, p: Seq<char>) -> bool {
    p.len() <= s.len() && s.subrange(0, p.len() as int) == p
}

/// `s` ends with `p`.
pub open spec fn has_suffix(s: Seq<char>, p: Seq<char>) -> bool {
    p.len() <= s.len() && s.subrange(s.len() - p.len(), s.len() as int) == p
}

pub proof fn lemma_trim_start_skip(s: Seq<char>, i: int)
    requires
        0 <= i <= s.len(),
        forall|j: int| 0 <= j < i ==> is_ws(#[trigger] s[j]),
    ensures
        trim_start(s) == trim_start(s.subrange(i, s.len() as int)),
    decreases i,
{
    if i > 0 {
        assert(is_ws(s[0]));
        let t = s.drop_first();
        assert forall|j: int| 0 <= j < i - 1 implies is_ws(#[trigger] t[j]) by {
            assert(t[j] == s[j + 1]);
        }
        lemma_trim_start_skip(t, i - 1);
        assert(t.subrange(i - 1, t.len() as int) =~= s.subrange(i, s.len() as int));
    } else {
        assert(s.subrange(0, s.len() as int) =~= s);
    }
}

pub proof fn lemma_trim_end_take(s: Seq<char>, k: int)
    requires
        0 <= k <= s.len(),
        forall|j: int| k <= j < s.len() ==> is_ws(#[trigger] s[j]),
    ensures
        trim_end(s) == trim_end(s.subrange(0, k)),
    decreases s.len() - k,
{
    if k < s.len() {
        assert(is_ws(s.last()));
        let t = s.drop_last();
        lemma_trim_end_take(t, k);
        assert(t.subrange(0, k) =~= s.subrange(0, k));
    } else {
        assert(s.subrange(0, k) =~= s);
    }
}

/// The characters of `s`, in order.
pub fn to_chars(s: &str) -> (v: Vec<char>)
    ensures
        v@ == s@,
{
    broadcast use vstd::string::group_string_axioms;

    let mut v: Vec<char> = Vec::new();
    for c in it: s.chars()
        invariant
            v@ == it.seq().take(it.index() as int),
            it.seq() == s@,
    {
        v.push(c);
    }
    v
}

/// A `String` holding exactly the characters `v`.
pub fn from_chars(v: &[char]) -> (s: String)
    ensures
        s@ == v@,
{
    let mut s = String::new();
    let mut i: usize = 0;
    while i < v.len()
        invariant
            i <= v.len(),
            s@ == v@.take(i as int),
        decreases v.len() - i,
    {
        s.push(v[i]);
        i += 1;
    }
    s
}

/// A `String` holding `v[from..to]`.
pub fn from_char_range(v: &[char], from: usize, to: usize) -> (s: String)
    requires
        from <= to <= v.len(),
    ensures
        s@ == v@.subrange(from as int, to as int),
{
    let mut s = String::new();
    let mut i: usize = from;
    while i < to
        invariant
            from <= i <= to <= v.len(),
            s@ == v@.subrange(from as int, i as int),
        decreases to - i,
    {
        s.push(v[i]);
        i += 1;
        assert(s@ =~= v@.subrange(from as int, i as int));
    }
    s
}

/// A vector holding `v[from..to]`.
pub fn sub_vec(v: &[char], from: usize, to: usize) -> (r: Vec<char>)
    requires
        from <= to <= v.len(),
    ensures
        r@ == v@.subrange(from as int, to as int),
{
    let mut r: Vec<char> = Vec::new();
    let mut i: usize = from;
    while i < to
        invariant
            from <= i <= to <= v.len(),
            r@ == v@.subrange(from as int, i as int),
        decreases to - i,
    {
        r.push(v[i]);
        i += 1;
        assert(r@ =~= v@.subrange(from as int, i as int));
    }
    r
}

/// Append the characters of `src` to `dst`.
pub fn push_str(dst: &mut String, src: &str)
    ensures
        final(dst)@ == old(dst)@ + src@,
{
    let cs = to_chars(src);
    let mut i: usize = 0;
    while i < cs.len()
        invariant
            i <= cs.len(),
            cs@ == src@,
            dst@ == old(dst)@ + cs@.take(i as int),
        decreases cs.len() - i,
    {
        dst.push(cs[i]);
        i += 1;
        assert(dst@ =~= old(dst)@ + cs@.take(i as int));
    }
    assert(cs@.take(cs.len() as int) =~= cs@);
}

/// Append `src[from..to]` to `dst`.
pub fn push_range(dst: &mut String, src: &[char], from: usize, to: usize)
    requires
        from <= to <= src.len(),
    ensures
        final(dst)@ == old(dst)@ + src@.subrange(from as int, to as int),
{
    let mut i: usize = from;
    while i < to
        invariant
            from <= i <= to <= src.len(),
            dst@ == old(dst)@ + src@.subrange(from as int, i as int),
        decreases to - i,
    {
        dst.push(src[i]);
        i += 1;
        assert(dst@ =~= old(dst)@ + src@.subrange(from as int, i as int));
    }
}

/// Character-wise equality of two strings.
pub fn str_eq(a: &str, b: &str) -> (r: bool)
    ensures
        r == (a@ == b@),
{
    let x = to_chars(a);
    let y = to_chars(b);
    if x.len() != y.len() {
        return false;
    }
    let mut i: usize = 0;
    while i < x.len()
        invariant
            i <= x.len() == y.len(),
            x@ == a@,
            y@ == b@,
            forall|j: int| 0 <= j < i ==> x@[j] == y@[j],
        decreases x.len() - i,
    {
        if x[i] != y[i] {
            return false;
        }
        i += 1;
    }
    assert(x@ =~= y@);
    true
}

/// Equality of two character buffers.
pub fn chars_eq(x: &[char], y: &[char]) -> (r: bool)
    ensures
        r == (x@ == y@),
{
    if x.len() != y.len() {
        return false;
    }
    let mut i: usize = 0;
    while i < x.len()
        invariant
            i <= x.len() == y.len(),
            forall|j: int| 0 <= j < i ==> x@[j] == y@[j],
        decreases x.len() - i,
    {
        if x[i] != y[i] {
            return false;
        }
        i += 1;
    }
    assert(x@ =~= y@);
    true
}

/// Whether `pat` occurs in `s` at position `i`.
pub fn occurs_at_exec(s: &[char], i: usize, pat: &[char]) -> (r: bool)
    ensures
        r == occurs_at(s@, i as int, pat@),
{
    if i > s.len() || pat.len() > s.len() - i {
        return false;
    }
    let mut j: usize = 0;
    while j < pat.len()
        invariant
            j <= pat.len(),
            i + pat.len() <= s.len(),
            forall|k: int| 0 <= k < j ==> s@[i + k] == pat@[k],
        decreases pat.len() - j,
    {
        if s[i + j] != pat[j] {
            assert(s@.subrange(i as int, i + pat.len())[j as int] != pat@[j as int]);
            return false;
        }
        j += 1;
    }
    assert(s@.subrange(i as int, i + pat.len()) =~= pat@);
    true
}

/// Whether `s` starts with `p`.
pub fn starts_with(s: &str, p: &str) -> (r: bool)
    ensures
        r == has_prefix(s@, p@),
{
    let x = to_chars(s);
    let y = to_chars(p);
    if y.len() > x.len() {
        return false;
    }
    let mut i: usize = 0;
    while i < y.len()
        invariant
            i <= y.len() <= x.len(),
            x@ == s@,
            y@ == p@,
            forall|j: int| 0 <= j < i ==> x@[j] == y@[j],
        decreases y.len() - i,
    {
        if x[i] != y[i] {
            assert(x@.subrange(0, y.len() as int)[i as int] != y@[i as int]);
            return false;
        }
        i += 1;
    }
    assert(x@.subrange(0, y.len() as int) =~= y@);
    true
}

/// First position at or after `from` where `pat` occurs.
pub fn find_from_exec(s: &[char], pat: &[char], from: usize) -> (r: Option<usize>)
    ensures
        r matches Some(k) ==> find_from(s@, pat@, from as int) == Some(k as int),
        r is None ==> find_from(s@, pat@, from as int) is None,
{
    let mut i = from;
    while i <= s.len() && pat.len() <= s.len() - i
        invariant
            from <= i,
            find_from(s@, pat@, from as int) == find_from(s@, pat@, i as int),
        decreases s.len() + 1 - i,
    {
        proof {
            if pat.len() == 0 {
                assert(s@.subrange(i as int, i as int) =~= pat@);
            }
        }
        if occurs_at_exec(s, i, pat) {
            return Some(i);
        }
        i += 1;
    }
    None
}

/// Last position of `c` in `s[..end]`.
pub fn rfind_char_exec(s: &[char], end: usize, c: char) -> (r: Option<usize>)
    requires
        end <= s.len(),
    ensures
        r matches Some(k) ==> rfind_char(s@.subrange(0, end as int), c) == Some(k as int),
        r is None ==> rfind_char(s@.subrange(0, end as int), c) is None,
{
    let mut i = end;
    while i > 0
        invariant
            i <= end <= s.len(),
            rfind_char(s@.subrange(0, end as int), c) == rfind_char(s@.subrange(0, i as int), c),
        decreases i,
    {
        assert(s@.subrange(0, i as int).drop_last() =~= s@.subrange(0, i - 1));
        if s[i - 1] == c {
            return Some(i - 1);
        }
        i -= 1;
    }
    None
}

/// Bounds `(a, b)` such that `s[a..b]` is `s` trimmed.
pub fn trim_bounds(s: &[char]) -> (r: (usize, usize))
    ensures
        r.0 <= r.1 <= s.len(),
        s@.subrange(r.0 as int, r.1 as int) == trim(s@),
{
    let mut a: usize = 0;
    while a < s.len() && is_whitespace(s[a])
        invariant
            a <= s.len(),
            forall|j: int| 0 <= j < a ==> is_ws(#[trigger] s@[j]),
        decreases s.len() - a,
    {
        a += 1;
    }
    proof {
        lemma_trim_start_skip(s@, a as int);
    }
    let ghost t = s@.subrange(a as int, s.len() as int);
    if a < s.len() {
        assert(t[0] == s@[a as int]);
    }
    assert(trim_start(t) == t);
    let mut b: usize = s.len();
    while b > a && is_whitespace(s[b - 1])
        invariant
            a <= b <= s.len(),
            forall|j: int| b <= j < s.len() ==> is_ws(#[trigger] s@[j]),
        decreases b,
    {
        b -= 1;
    }
    proof {
        assert forall|j: int| (b - a) <= j < t.len() implies is_ws(#[trigger] t[j]) by {
            assert(t[j] == s@[a + j]);
        }
        lemma_trim_end_take(t, b - a);
        assert(t.subrange(0, b - a) =~= s@.subrange(a as int, b as int));
        let u = s@.subrange(a as int, b as int);
        if b > a {
            assert(u.last() == s@[b - 1]);
        }
        assert(trim_end(u) == u);
    }
    (a, b)
}

/// First position of character `c` in `s`.
pub open spec fn find_c(s: Seq<char>, c: char) -> Option<int> {
    find_from(s, seq![c], 0)
}

/// A line without its `\r\n` / `\n` terminator (the part before `\n`, with one
/// trailing `\r` removed).
pub open spec fn strip_cr(l: Seq<char>) -> Seq<char> {
    if l.len() > 0 && l.last() == '\r' {
        l.drop_last()
    } else {
        l
    }
}

/// The lines of `s` as `str::lines` yields them: split at `\n`, a `\r` before the
/// `\n` removed, no empty line after a final `\n`.
pub open spec fn lines_of(s: Seq<char>) -> Seq<Seq<char>>
    decreases s.len(),
{
    if s.len() == 0 {
        Seq::empty()
    } else {
        match find_c(s, '\n') {
            None => seq![s],
            Some(k) => {
                proof {
                    lemma_find_from(s, seq!['\n'], 0);
                }
                seq![strip_cr(s.subrange(0, k))] + lines_of(s.subrange(k + 1, s.len() as int))
            },
        }
    }
}

/// The pieces of `s` between occurrences of `c`, as `str::split` yields them.
pub open spec fn split_on(s: Seq<char>, c: char) -> Seq<Seq<char>>
    decreases s.len(),
{
    match find_c(s, c) {
        None => seq![s],
        Some(k) => {
            proof {
                lemma_find_from(s, seq![c], 0);
            }
            seq![s.subrange(0, k)] + split_on(s.subrange(k + 1, s.len() as int), c)
        },
    }
}

/// Each string trimmed.
pub open spec fn trim_all(v: Seq<Seq<char>>) -> Seq<Seq<char>> {
    v.map_values(|p: Seq<char>| trim(p))
}

/// The pieces of `s` between occurrences of `c`, each trimmed.
pub fn split_trimmed(s: &str, c: char) -> (r: Vec<String>)
    ensures
        r@.map_values(|x: String| x@) == trim_all(split_on(s@, c)),
{
    let cs = to_chars(s);
    let mut out: Vec<String> = Vec::new();
    let mut i: usize = 0;
    proof {
        assert(cs@.subrange(0, cs.len() as int) =~= cs@);
    }
    loop
        invariant
            i <= cs.len(),
            cs@ == s@,
            trim_all(split_on(cs@, c)) == out@.map_values(|x: String| x@) + trim_all(
                split_on(cs@.subrange(i as int, cs.len() as int), c),
            ),
        decreases cs.len() - i,
    {
        let j = next_char_from(&cs, i, c);
        let ghost rest = cs@.subrange(i as int, cs.len() as int);
        let piece = sub_vec(&cs, i, j);
        let (a, b) = trim_bounds(&piece);
        let t = from_char_range(&piece, a, b);
        let ghost before = out@.map_values(|x: String| x@);
        out.push(t);
        proof {
            assert(out@.map_values(|x: String| x@) =~= before.push(trim(piece@)));
            assert(rest.subrange(0, j - i) =~= piece@);
        }
        if j == cs.len() {
            proof {
                assert(split_on(rest, c) =~= seq![rest]);
                assert(rest =~= piece@);
                assert(trim_all(split_on(rest, c)) =~= seq![trim(piece@)]);
                assert(trim_all(split_on(cs@, c)) =~= out@.map_values(|x: String| x@));
            }
            return out;
        }
        proof {
            let next = cs@.subrange(j + 1, cs.len() as int);
            assert(rest.subrange(j - i + 1, rest.len() as int) =~= next);
            assert(split_on(rest, c) =~= seq![piece@] + split_on(next, c));
            assert(trim_all(split_on(rest, c)) =~= seq![trim(piece@)] + trim_all(split_on(next, c)));
            assert(trim_all(split_on(cs@, c)) =~= out@.map_values(|x: String| x@) + trim_all(
                split_on(next, c),
            ));
        }
        i = j + 1;
    }
}

/// The character views of a sequence of character buffers.
pub open spec fn bufs(v: Seq<Vec<char>>) -> Seq<Seq<char>> {
    v.map_values(|s: Vec<char>| s@)
}

/// Position of the next `c` at or after `i`, or the length when there is none,
/// and the proof facts relating it to `find_c` of the rest.
pub fn next_char_from(s: &[char], i: usize, c: char) -> (j: usize)
    requires
        i <= s.len(),
    ensures
        i <= j <= s.len(),
        j < s.len() ==> s@[j as int] == c && find_c(s@.subrange(i as int, s@.len() as int), c)
            == Some((j - i) as int),
        j == s.len() ==> find_c(s@.subrange(i as int, s@.len() as int), c) is None,
        forall|k: int| i <= k < j ==> s@[k] != c,
{
    let mut j = i;
    while j < s.len() && s[j] != c
        invariant
            i <= j <= s.len(),
            forall|k: int| i <= k < j ==> s@[k] != c,
        decreases s.len() - j,
    {
        j += 1;
    }
    proof {
        let rest = s@.subrange(i as int, s@.len() as int);
        assert forall|k: int| 0 <= k < j - i implies !occurs_at(rest, k, seq![c]) by {
            assert(rest.subrange(k, k + 1)[0] == s@[i + k]);
        }
        if j < s.len() {
            assert(rest.subrange(j - i, j - i + 1) =~= seq![c]);
            lemma_find_from_is(rest, seq![c], 0, (j - i) as int);
        } else {
            assert forall|k: int| 0 <= k implies !occurs_at(rest, k, seq![c]) by {}
            lemma_find_from_none(rest, seq![c], 0);
        }
    }
    j
}

/// The lines of `s` (see `lines_of`).
pub fn lines_exec(s: &[char]) -> (r: Vec<Vec<char>>)
    ensures
        bufs(r@) == lines_of(s@),
{
    let mut r: Vec<Vec<char>> = Vec::new();
    let mut i: usize = 0;
    proof {
        assert(s@.subrange(0, s@.len() as int) =~= s@);
    }
    while i < s.len()
        invariant
            i <= s.len(),
            bufs(r@) + lines_of(s@.subrange(i as int, s@.len() as int)) == lines_of(s@),
        decreases s.len() - i,
    {
        let ghost rest = s@.subrange(i as int, s@.len() as int);
        let j = next_char_from(s, i, '\n');
        let ghost pre = r@;
        if j < s.len() {
            let end = if j > i && s[j - 1] == '\r' { j - 1 } else { j };
            let line = sub_vec(s, i, end);
            r.push(line);
            proof {
                assert(rest.subrange(0, j - i) =~= s@.subrange(i as int, j as int));
                assert(strip_cr(rest.subrange(0, j - i)) =~= line@);
                assert(rest.subrange(j - i + 1, rest.len() as int) =~= s@.subrange(
                    j + 1,
                    s@.len() as int,
                ));
                assert(bufs(r@) =~= bufs(pre).push(line@));
                assert(bufs(pre).push(line@) + lines_of(s@.subrange(j + 1, s@.len() as int))
                    =~= bufs(pre) + (seq![line@] + lines_of(s@.subrange(j + 1, s@.len() as int))));
            }
            i = j + 1;
        } else {
            let line = sub_vec(s, i, s.len());
            r.push(line);
            proof {
                assert(bufs(r@) =~= bufs(pre).push(line@));
                assert(lines_of(s@.subrange(s@.len() as int, s@.len() as int)) =~= Seq::<
                    Seq<char>,
                >::empty());
                assert(bufs(pre).push(line@) + Seq::<Seq<char>>::empty() =~= bufs(pre) + seq![
                    line@,
                ]);
            }
            i = s.len();
        }
    }
    proof {
        assert(lines_of(s@.subrange(i as int, s@.len() as int)) =~= Seq::<Seq<char>>::empty());
        assert(bufs(r@) + Seq::<Seq<char>>::empty() =~= bufs(r@));
    }
    r
}

} // verus!
