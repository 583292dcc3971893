//! Slugs (page addresses relative to the wiki root) and `wiki://` URIs.
use vstd::prelude::*;

use crate::config::{GlobalConfig, WikiEntry};
use crate::ops_graph::{debug_quoted, debug_str};
use crate::text::{
    chars_eq, from_char_range, from_chars, has_prefix, is_ws, push_str, rfind_char,
    push_range, rfind_char_exec, lemma_rfind_char, str_eq, sub_vec, to_chars, trim, trim_bounds,
};

verus! {

// ── Outside calls ────────────────────────────────────────────────────────────

/// What `str::to_lowercase` returns for a string (Unicode lowercase mapping).
pub uninterp spec fn lowercase(s: Seq<char>) -> Seq<char>;

/// What `char::to_uppercase` yields for a character (one or more characters).
pub uninterp spec fn char_upper(c: char) -> Seq<char>;

/// Calls `str::to_lowercase`; the result is the Unicode lowercase mapping of `s`,
/// named `lowercase`.
#[verifier::external_body]
pub(crate) fn to_lowercase(s: &str) -> (r: String)
    ensures
        r@ == lowercase(s@),
{
    s.to_lowercase()
}

/// Calls `char::to_uppercase` and collects the characters it yields; the result is
/// the Unicode uppercase mapping of `c`, named `char_upper`.
#[verifier::external_body]
fn to_uppercase(c: char) -> (r: String)
    ensures
        r@ == char_upper(c),
{
    c.to_uppercase().collect()
}

// ── Validation ───────────────────────────────────────────────────────────────

/// Why a string is not a valid slug.
#[derive(Debug, Clone, Copy, PartialEq, Eq, Structural)]
pub enum SlugRejection {
    Empty,
    LeadingSlash,
    PathTraversal,
    HiddenComponent,
    FileExtension,
}

/// A rejected slug: the reason and the (trimmed) input.
#[derive(Debug)]
pub struct SlugError {
    pub kind: SlugRejection,
    pub input: String,
}

/// The description of a slug rejection.
pub open spec fn rejection_message(kind: SlugRejection, input: Seq<char>) -> Seq<char> {
    match kind {
        SlugRejection::Empty => "slug cannot be empty"@,
        SlugRejection::LeadingSlash => "slug cannot start with /: "@ + input,
        SlugRejection::PathTraversal => "slug cannot contain path traversal: "@ + input,
        SlugRejection::HiddenComponent => "slug cannot contain hidden components: "@ + input,
        SlugRejection::FileExtension => "slug cannot have a file extension: "@ + input,
    }
}

impl SlugError {
    /// Human-readable description of the rejection.
    pub fn message(&self) -> (r: String)
        ensures
            r@ == rejection_message(self.kind, self.input@),
    {
        let mut m = String::new();
        match self.kind {
            SlugRejection::Empty => push_str(&mut m, "slug cannot be empty"),
            SlugRejection::LeadingSlash => push_str(&mut m, "slug cannot start with /: "),
            SlugRejection::PathTraversal => push_str(&mut m, "slug cannot contain path traversal: "),
            SlugRejection::HiddenComponent => push_str(
                &mut m,
                "slug cannot contain hidden components: ",
            ),
            SlugRejection::FileExtension => push_str(&mut m, "slug cannot have a file extension: "),
        }
        if self.kind != SlugRejection::Empty {
            push_str(&mut m, self.input.as_str());
        }
        m
    }
}

/// Position `i` starts a `/`-separated segment.
pub open spec fn segment_start(s: Seq<char>, i: int) -> bool {
    i == 0 || s[i - 1] == '/'
}

/// Some segment is exactly `..`.
pub open spec fn has_parent_segment(s: Seq<char>) -> bool {
    exists|i: int|
        0 <= i && i + 1 < s.len() && s[i] == '.' && s[i + 1] == '.' && segment_start(s, i) && (
        i + 2 == s.len() || s[i + 2] == '/')
}

/// Some segment starts with `.`.
pub open spec fn has_hidden_segment(s: Seq<char>) -> bool {
    exists|i: int| 0 <= i < s.len() && s[i] == '.' && segment_start(s, i)
}

/// The last segment contains a `.`.
pub open spec fn last_segment_has_dot(s: Seq<char>) -> bool {
    exists|i: int|
        0 <= i < s.len() && s[i] == '.' && forall|j: int| i < j < s.len() ==> s[j] != '/'
}

/// The verdict on a candidate slug: the trimmed text when valid.
pub open spec fn check_slug(input: Seq<char>) -> Result<Seq<char>, SlugRejection> {
    let s = trim(input);
    if s.len() == 0 {
        Err(SlugRejection::Empty)
    } else if s[0] == '/' {
        Err(SlugRejection::LeadingSlash)
    } else if has_parent_segment(s) {
        Err(SlugRejection::PathTraversal)
    } else if has_hidden_segment(s) {
        Err(SlugRejection::HiddenComponent)
    } else if last_segment_has_dot(s) {
        Err(SlugRejection::FileExtension)
    } else {
        Ok(s)
    }
}

/// A segment is hidden when it starts with `.`.
pub open spec fn hidden_piece(seg: Seq<char>) -> bool {
    seg.len() > 0 && seg[0] == '.'
}

proof fn lemma_occurs_char(s: Seq<char>, j: int, c: char)
    requires
        0 <= j < s.len(),
    ensures
        crate::text::occurs_at(s, j, seq![c]) <==> s[j] == c,
{
    assert(s.subrange(j, j + 1) =~= seq![s[j]]);
    if crate::text::occurs_at(s, j, seq![c]) {
        assert(seq![s[j]][0] == seq![c][0]);
    }
}

proof fn lemma_split_nonempty(s: Seq<char>, c: char)
    ensures
        crate::text::split_on(s, c).len() > 0,
{
}

/// Over the `/`-separated pieces of `s`: some piece is hidden exactly when a
/// segment of `s` starts with `.`, and the last piece holds a `.` exactly
/// when the last segment of `s` does.
proof fn lemma_split_segments(s: Seq<char>)
    ensures
        has_hidden_segment(s) <==> exists|k: int|
            0 <= k < crate::text::split_on(s, '/').len() && hidden_piece(
                #[trigger] crate::text::split_on(s, '/')[k],
            ),
        last_segment_has_dot(s) <==> crate::text::split_on(s, '/').last().contains('.'),
    decreases s.len(),
{
    let sp = crate::text::split_on(s, '/');
    crate::text::lemma_find_from(s, seq!['/'], 0);
    match crate::text::find_c(s, '/') {
        None => {
            assert(sp == seq![s]);
            assert forall|j: int| 0 <= j < s.len() implies s[j] != '/' by {
                lemma_occurs_char(s, j, '/');
            }
            if has_hidden_segment(s) {
                let i = choose|i: int| 0 <= i < s.len() && s[i] == '.' && segment_start(s, i);
                assert(i == 0);
                assert(hidden_piece(sp[0]));
            }
            if exists|k: int| 0 <= k < sp.len() && hidden_piece(#[trigger] sp[k]) {
                assert(s[0] == '.' && segment_start(s, 0));
            }
            if last_segment_has_dot(s) {
                let i = choose|i: int|
                    0 <= i < s.len() && s[i] == '.' && forall|j: int| i < j < s.len() ==> s[j] != '/';
                assert(sp.last()[i] == '.');
            }
            if sp.last().contains('.') {
                let i = choose|i: int| 0 <= i < s.len() && s[i] == '.';
                assert(forall|j: int| i < j < s.len() ==> s[j] != '/');
            }
        },
        Some(k) => {
            let head = s.subrange(0, k);
            let rest = s.subrange(k + 1, s.len() as int);
            lemma_occurs_char(s, k, '/');
            assert forall|j: int| 0 <= j < k implies s[j] != '/' by {
                lemma_occurs_char(s, j, '/');
            }
            lemma_split_segments(rest);
            lemma_split_nonempty(rest, '/');
            let sr = crate::text::split_on(rest, '/');
            assert(sp == seq![head] + sr);
            assert(sp.last() == sr.last());
            // hidden segments
            if has_hidden_segment(s) {
                let i = choose|i: int| 0 <= i < s.len() && s[i] == '.' && segment_start(s, i);
                if i < k {
                    assert(i == 0);
                    assert(sp[0] == head && hidden_piece(head));
                } else {
                    assert(i > k);
                    let j = i - k - 1;
                    assert(rest[j] == s[i]);
                    if j > 0 {
                        assert(rest[j - 1] == s[i - 1]);
                    }
                    assert(segment_start(rest, j));
                    assert(has_hidden_segment(rest));
                    let q = choose|q: int| 0 <= q < sr.len() && hidden_piece(#[trigger] sr[q]);
                    assert(sp[q + 1] == sr[q]);
                }
            }
            if exists|q: int| 0 <= q < sp.len() && hidden_piece(#[trigger] sp[q]) {
                let q = choose|q: int| 0 <= q < sp.len() && hidden_piece(#[trigger] sp[q]);
                if q == 0 {
                    assert(head[0] == s[0] && segment_start(s, 0));
                } else {
                    assert(sp[q] == sr[q - 1]);
                    assert(exists|q2: int| 0 <= q2 < sr.len() && hidden_piece(#[trigger] sr[q2]));
                    let j = choose|j: int| 0 <= j < rest.len() && rest[j] == '.' && segment_start(rest, j);
                    assert(s[k + 1 + j] == '.');
                    if j > 0 {
                        assert(rest[j - 1] == s[k + j]);
                    }
                    assert(segment_start(s, k + 1 + j));
                }
            }
            // last segment
            if last_segment_has_dot(s) {
                let i = choose|i: int|
                    0 <= i < s.len() && s[i] == '.' && forall|j: int| i < j < s.len() ==> s[j] != '/';
                assert(i > k);
                let j = i - k - 1;
                assert(rest[j] == '.');
                assert forall|m: int| j < m < rest.len() implies rest[m] != '/' by {
                    assert(rest[m] == s[m + k + 1]);
                }
                assert(last_segment_has_dot(rest));
            }
            if last_segment_has_dot(rest) {
                let j = choose|j: int|
                    0 <= j < rest.len() && rest[j] == '.' && forall|m: int| j < m < rest.len() ==> rest[m]
                        != '/';
                assert(s[k + 1 + j] == '.');
                assert forall|m: int| k + 1 + j < m < s.len() implies s[m] != '/' by {
                    assert(s[m] == rest[m - k - 1]);
                }
                assert(last_segment_has_dot(s));
            }
        },
    }
}

/// A slug is accepted exactly when its trimmed text is non-empty, does not
/// start with `/`, has no `/`-separated segment starting with `.` and no `.`
/// in its last segment; the slug is then that trimmed text.
pub proof fn law_slug_pieces(input: Seq<char>)
    ensures
        ({
            let t = trim(input);
            let pieces = crate::text::split_on(t, '/');
            check_slug(input) is Ok <==> t.len() > 0 && t[0] != '/' && (forall|k: int|
                0 <= k < pieces.len() ==> !hidden_piece(#[trigger] pieces[k])) && !pieces.last().contains(
                '.',
            )
        }),
        check_slug(input) matches Ok(x) ==> x == trim(input),
{
    let t = trim(input);
    lemma_split_segments(t);
    if has_parent_segment(t) {
        let i = choose|i: int|
            0 <= i && i + 1 < t.len() && t[i] == '.' && t[i + 1] == '.' && segment_start(t, i) && (
            i + 2 == t.len() || t[i + 2] == '/');
        assert(has_hidden_segment(t));
    }
}

/// A valid slug: non-empty, no leading `/`, no `.`-prefixed segment, no dot in
/// the last segment, no surrounding whitespace.
pub open spec fn valid_slug(s: Seq<char>) -> bool {
    check_slug(s) == Ok::<Seq<char>, SlugRejection>(s)
}

fn parent_segment_exec(s: &[char]) -> (r: bool)
    ensures
        r == has_parent_segment(s@),
{
    let mut i: usize = 0;
    while s.len() > 0 && i < s.len() - 1
        invariant
            forall|k: int|
                0 <= k < i ==> !(k + 1 < s@.len() && s@[k] == '.' && s@[k + 1] == '.'
                    && segment_start(s@, k) && (k + 2 == s@.len() || s@[k + 2] == '/')),
        decreases s.len() - i,
    {
        if s[i] == '.' && s[i + 1] == '.' && (i == 0 || s[i - 1] == '/') && (i + 2 == s.len()
            || s[i + 2] == '/') {
            proof {
                let k = i as int;
                assert(0 <= k && k + 1 < s@.len() && s@[k] == '.' && s@[k + 1] == '.'
                    && segment_start(s@, k) && (k + 2 == s@.len() || s@[k + 2] == '/'));
            }
            return true;
        }
        i += 1;
    }
    false
}

fn hidden_segment_exec(s: &[char]) -> (r: bool)
    ensures
        r == has_hidden_segment(s@),
{
    let mut i: usize = 0;
    while i < s.len()
        invariant
            i <= s.len(),
            forall|k: int| 0 <= k < i ==> !(s@[k] == '.' && segment_start(s@, k)),
        decreases s.len() - i,
    {
        if s[i] == '.' && (i == 0 || s[i - 1] == '/') {
            return true;
        }
        i += 1;
    }
    false
}

fn last_segment_dot_exec(s: &[char]) -> (r: bool)
    ensures
        r == last_segment_has_dot(s@),
{
    let mut i: usize = s.len();
    while i > 0
        invariant
            i <= s.len(),
            forall|j: int| i <= j < s.len() ==> s@[j] != '/' && s@[j] != '.',
        decreases i,
    {
        if s[i - 1] == '.' {
            return true;
        }
        if s[i - 1] == '/' {
            proof {
                assert forall|k: int|
                    0 <= k < s@.len() && s@[k] == '.' implies !(forall|j: int|
                    k < j < s@.len() ==> s@[j] != '/') by {
                    assert(k < i - 1);
                    assert(s@[i - 1] == '/');
                }
            }
            return false;
        }
        i -= 1;
    }
    false
}

// ── Slug ─────────────────────────────────────────────────────────────────────

/// A validated slug — path relative to the wiki root, without extension.
#[derive(Debug)]
pub struct Slug(String);

impl Slug {
    #[verifier::type_invariant]
    spec fn inv(&self) -> bool {
        valid_slug(self.0@)
    }
}

impl View for Slug {
    type V = Seq<char>;

    closed spec fn view(&self) -> Seq<char> {
        self.0@
    }
}

impl Clone for Slug {
    fn clone(&self) -> (r: Self)
        ensures
            r@ == self@,
    {
        proof {
            use_type_invariant(self);
        }
        Slug(self.0.clone())
    }
}

impl Slug {
    /// Validate `s` as a slug. Surrounding whitespace is trimmed; the slug is
    /// rejected when empty, when it starts with `/`, when a segment is `..`,
    /// when a segment starts with `.`, or when the last segment contains `.`.
    pub fn try_from(s: &str) -> (r: Result<Slug, SlugError>)
        ensures
            match check_slug(s@) {
                Ok(t) => r matches Ok(slug) && slug@ == t,
                Err(k) => r matches Err(e) && e.kind == k && e.input@ == trim(s@),
            },
    {
        let cs = to_chars(s);
        let (a, b) = trim_bounds(&cs);
        let t = sub_vec(&cs, a, b);
        let text = from_chars(&t);
        if t.len() == 0 {
            return Err(SlugError { kind: SlugRejection::Empty, input: text });
        }
        if t[0] == '/' {
            return Err(SlugError { kind: SlugRejection::LeadingSlash, input: text });
        }
        if parent_segment_exec(&t) {
            return Err(SlugError { kind: SlugRejection::PathTraversal, input: text });
        }
        if hidden_segment_exec(&t) {
            return Err(SlugError { kind: SlugRejection::HiddenComponent, input: text });
        }
        if last_segment_dot_exec(&t) {
            return Err(SlugError { kind: SlugRejection::FileExtension, input: text });
        }
        proof {
            crate::text::lemma_trim_idempotent(s@);
        }
        Ok(Slug(text))
    }

    /// The slug text.
    pub fn as_str(&self) -> (r: &str)
        ensures
            r@ == self@,
    {
        self.0.as_str()
    }

    /// The slug text as an owned string.
    pub fn to_string(&self) -> (r: String)
        ensures
            r@ == self@,
    {
        self.0.clone()
    }

    /// Display title derived from the last segment: `-` becomes a space and each
    /// word is capitalized, the joining word `of` after the first staying lower case
    /// (`concepts/mixture-of-experts` gives `Mixture of Experts`).
    pub fn title(&self) -> (r: String)
        ensures
            r@ == title_case_spec(last_segment(self@)),
    {
        proof {
            lemma_rfind_char(self@, '/');
        }
        let cs = to_chars(self.0.as_str());
        proof {
            assert(cs@.subrange(0, cs@.len() as int) =~= cs@);
        }
        let start = match rfind_char_exec(&cs, cs.len(), '/') {
            Some(k) => k + 1,
            None => 0,
        };
        proof {
            assert(cs@.subrange(0, cs@.len() as int) =~= cs@);
        }
        let seg = sub_vec(&cs, start, cs.len());
        title_case(&seg)
    }

    /// Lowercase every segment.
    pub fn normalize(&self) -> (r: NormalizedSlug)
        ensures
            r@ == lowercase(self@),
    {
        NormalizedSlug(to_lowercase(self.0.as_str()))
    }

    /// The flat page location `<wiki_root>/<slug>.md`.
    pub fn flat_path(&self, wiki_root: &str) -> (r: String)
        ensures
            r@ == join_path(wiki_root@, self@ + md_ext()),
    {
        proof {
            use_type_invariant(self);
        }
        let mut rel = self.0.clone();
        rel.push('.');
        rel.push('m');
        rel.push('d');
        proof {
            assert(rel@ =~= self@ + md_ext());
        }
        join(wiki_root, rel.as_str())
    }

    /// The bundle page location `<wiki_root>/<slug>/index.md`.
    pub fn bundle_path(&self, wiki_root: &str) -> (r: String)
        ensures
            r@ == join_path(join_path(wiki_root@, self@), index_md()),
    {
        proof {
            use_type_invariant(self);
        }
        let dir = join(wiki_root, self.0.as_str());
        let idx = from_chars(&['i', 'n', 'd', 'e', 'x', '.', 'm', 'd']);
        proof {
            assert(idx@ =~= index_md());
        }
        join(dir.as_str(), idx.as_str())
    }

    /// Choose the page file for this slug: the flat file when it exists, else the
    /// bundle `index.md` when it exists, else the page is not found. The caller
    /// reports whether each of the two candidate files exists.
    pub fn resolve(&self, wiki_root: &str, flat_is_file: bool, bundle_is_file: bool) -> (r:
        Result<String, WikiError>)
        ensures
            flat_is_file ==> (r matches Ok(p) && p@ == join_path(wiki_root@, self@ + md_ext())),
            !flat_is_file && bundle_is_file ==> (r matches Ok(p) && p@ == join_path(
                join_path(wiki_root@, self@),
                index_md(),
            )),
            !flat_is_file && !bundle_is_file ==> (r matches Err(WikiError::SlugNotFound(m))
                && m@ == self@),
    {
        if flat_is_file {
            return Ok(self.flat_path(wiki_root));
        }
        if bundle_is_file {
            return Ok(self.bundle_path(wiki_root));
        }
        Err(WikiError::SlugNotFound(self.0.clone()))
    }
}

/// `.md`
pub open spec fn md_ext() -> Seq<char> {
    seq!['.', 'm', 'd']
}

/// `index.md`
pub open spec fn index_md() -> Seq<char> {
    seq!['i', 'n', 'd', 'e', 'x', '.', 'm', 'd']
}

/// `Path::join` of a relative path onto a root: the root, a separator when the
/// root is non-empty and does not already end in one, then the relative part.
pub open spec fn join_path(root: Seq<char>, rel: Seq<char>) -> Seq<char> {
    if root.len() == 0 {
        rel
    } else if root.last() == '/' {
        root + rel
    } else {
        root + seq!['/'] + rel
    }
}

/// Join a relative path onto a root directory.
pub fn join(root: &str, rel: &str) -> (r: String)
    requires
        rel@.len() == 0 || rel@[0] != '/',
    ensures
        r@ == join_path(root@, rel@),
{
    let rc = to_chars(root);
    let mut out = from_chars(&rc);
    if rc.len() > 0 && rc[rc.len() - 1] != '/' {
        out.push('/');
    }
    push_str(&mut out, rel);
    out
}

/// The part after the last `/` (the whole text when there is none).
pub open spec fn last_segment(s: Seq<char>) -> Seq<char> {
    match rfind_char(s, '/') {
        Some(k) => s.subrange(k + 1, s.len() as int),
        None => s,
    }
}

/// The joining word a title keeps in lower case unless it opens it: `of`,
/// as in `Mixture of Experts`.
pub open spec fn is_joining_word(w: Seq<char>) -> bool {
    w == "of"@
}

/// A word with its first character uppercased.
pub open spec fn capitalized(w: Seq<char>) -> Seq<char> {
    if w.len() == 0 {
        Seq::empty()
    } else {
        char_upper(w[0]) + w.drop_first()
    }
}

/// How one word of a title reads: capitalized, except a joining word that
/// does not open the title, which stays as written.
pub open spec fn title_word(w: Seq<char>, first: bool) -> Seq<char> {
    if !first && is_joining_word(w) {
        w
    } else {
        capitalized(w)
    }
}

/// Title of the rest `s` of a `-`-separated name, where `word` holds the
/// characters of the current word read so far and `first` says that word
/// opens the title. Each `-` becomes a space.
pub open spec fn title_words(s: Seq<char>, word: Seq<char>, first: bool) -> Seq<char>
    decreases s.len(),
{
    if s.len() == 0 {
        title_word(word, first)
    } else if s[0] == '-' {
        title_word(word, first) + seq![' '] + title_words(s.drop_first(), Seq::empty(), false)
    } else {
        title_words(s.drop_first(), word.push(s[0]), first)
    }
}

/// Title case of a `-`-separated name: each `-` becomes a space and each word
/// is capitalized, except the joining word `of` after the first word, which
/// stays lower case: `mixture-of-experts` reads
/// `Mixture of Experts`.
pub open spec fn title_case_spec(s: Seq<char>) -> Seq<char> {
    title_words(s, Seq::empty(), true)
}

proof fn lemma_title_words_step(s: Seq<char>, i: int, word: Seq<char>, first: bool)
    requires
        0 <= i < s.len(),
    ensures
        title_words(s.subrange(i, s.len() as int), word, first) == (if s[i] == '-' {
            title_word(word, first) + seq![' '] + title_words(
                s.subrange(i + 1, s.len() as int),
                Seq::empty(),
                false,
            )
        } else {
            title_words(s.subrange(i + 1, s.len() as int), word.push(s[i]), first)
        }),
{
    assert(s.subrange(i, s.len() as int).drop_first() =~= s.subrange(i + 1, s.len() as int));
}

fn word_is(w: &[char], lit: &str) -> (r: bool)
    ensures
        r == (w@ == lit@),
{
    let v = to_chars(lit);
    chars_eq(w, &v)
}

/// Whether `w` is a joining word (see `is_joining_word`).
pub fn joining_word(w: &[char]) -> (r: bool)
    ensures
        r == is_joining_word(w@),
{
    word_is(w, "of")
}

/// Appends one word of a title to `out` (see `title_word`).
fn push_title_word(out: &mut String, w: &[char], first: bool)
    ensures
        final(out)@ == old(out)@ + title_word(w@, first),
{
    if !first && joining_word(w) {
        push_range(out, w, 0, w.len());
        proof {
            assert(w@.subrange(0, w@.len() as int) =~= w@);
        }
    } else if w.len() > 0 {
        let u = to_uppercase(w[0]);
        push_str(out, u.as_str());
        push_range(out, w, 1, w.len());
        proof {
            assert(w@.subrange(1, w@.len() as int) =~= w@.drop_first());
            assert(old(out)@ + char_upper(w@[0]) + w@.drop_first() =~= old(out)@ + capitalized(
                w@,
            ));
        }
    } else {
        proof {
            assert(old(out)@ + Seq::<char>::empty() =~= old(out)@);
        }
    }
}

/// Title case of a name (see `title_case_spec`).
pub fn title_case(seg: &[char]) -> (r: String)
    ensures
        r@ == title_case_spec(seg@),
{
    let mut out = String::new();
    let mut word: Vec<char> = Vec::new();
    let mut first = true;
    let mut i: usize = 0;
    proof {
        assert(seg@.subrange(0, seg@.len() as int) =~= seg@);
        assert(out@ + title_words(seg@, word@, true) =~= title_case_spec(seg@));
    }
    while i < seg.len()
        invariant
            i <= seg.len(),
            out@ + title_words(seg@.subrange(i as int, seg@.len() as int), word@, first)
                == title_case_spec(seg@),
        decreases seg.len() - i,
    {
        proof {
            lemma_title_words_step(seg@, i as int, word@, first);
        }
        let c = seg[i];
        if c == '-' {
            push_title_word(&mut out, &word, first);
            out.push(' ');
            word = Vec::new();
            first = false;
            proof {
                assert(word@ =~= Seq::<char>::empty());
            }
        } else {
            word.push(c);
        }
        i += 1;
    }
    proof {
        assert(seg@.subrange(i as int, seg@.len() as int) =~= Seq::<char>::empty());
    }
    push_title_word(&mut out, &word, first);
    out
}

// ── NormalizedSlug ───────────────────────────────────────────────────────────

/// A lowercased slug, safe to compare with other normalized slugs.
#[derive(Debug)]
pub struct NormalizedSlug(String);

impl View for NormalizedSlug {
    type V = Seq<char>;

    closed spec fn view(&self) -> Seq<char> {
        self.0@
    }
}

impl NormalizedSlug {
    /// Wrap text that is already known to be normalized (as read back from the index).
    pub fn from_normalized(s: String) -> (r: NormalizedSlug)
        ensures
            r@ == s@,
    {
        NormalizedSlug(s)
    }

    /// The normalized slug text.
    pub fn as_str(&self) -> (r: &str)
        ensures
            r@ == self@,
    {
        self.0.as_str()
    }

    /// The normalized slug text as an owned string.
    pub fn to_string(&self) -> (r: String)
        ensures
            r@ == self@,
    {
        self.0.clone()
    }

    /// Whether the normalized slug reads exactly `other`.
    pub fn eq_str(&self, other: &str) -> (r: bool)
        ensures
            r == (self@ == other@),
    {
        str_eq(self.0.as_str(), other)
    }
}

impl PartialEq<&str> for NormalizedSlug {
    fn eq(&self, other: &&str) -> (r: bool) {
        str_eq(self.0.as_str(), *other)
    }
}

impl vstd::std_specs::cmp::PartialEqSpecImpl<&str> for NormalizedSlug {
    open spec fn obeys_eq_spec() -> bool {
        true
    }

    open spec fn eq_spec(&self, other: &&str) -> bool {
        self@ == other@
    }
}

impl PartialEq<String> for NormalizedSlug {
    fn eq(&self, other: &String) -> (r: bool) {
        str_eq(self.0.as_str(), other.as_str())
    }
}

impl vstd::std_specs::cmp::PartialEqSpecImpl<String> for NormalizedSlug {
    open spec fn obeys_eq_spec() -> bool {
        true
    }

    open spec fn eq_spec(&self, other: &String) -> bool {
        self@ == other@
    }
}

// ── Errors ───────────────────────────────────────────────────────────────────

/// The kind of a `WikiError`, without its payload.
#[derive(Debug, Clone, Copy, PartialEq, Eq, Structural)]
pub enum WikiFailure {
    InvalidSlug(SlugRejection),
    InvalidUri,
    NoDefaultWiki,
    UnknownWiki,
    PageNotFound,
    SlugNotFound,
    InvalidAssetParent(SlugRejection),
    AssetNotFound,
}

/// Errors of URI parsing and page resolution.
#[derive(Debug)]
pub enum WikiError {
    /// The text is not a valid slug.
    InvalidSlug(SlugError),
    /// `wiki://` with nothing after it.
    InvalidUri(String),
    /// No wiki was named and no default wiki is configured.
    NoDefaultWiki,
    /// No registered wiki has this name.
    UnknownWiki(String),
    /// No page or asset answers this read target.
    PageNotFound(String),
    /// Neither the flat file nor the bundle `index.md` of this slug exists.
    SlugNotFound(String),
    /// The asset's parent is not a valid slug.
    InvalidAssetParent(String, SlugError),
    /// No asset file exists at this location.
    AssetNotFound(String),
}

/// The description of an error.
pub open spec fn error_message(e: WikiError) -> Seq<char> {
    match e {
        WikiError::InvalidSlug(se) => rejection_message(se.kind, se.input@),
        WikiError::InvalidUri(s) => "invalid wiki URI: "@ + s@,
        WikiError::NoDefaultWiki => "no default wiki configured \u{2014} run `llm-wiki spaces set-default <name>`"@,
        WikiError::UnknownWiki(s) => "wiki not found: "@ + s@,
        WikiError::PageNotFound(s) => "page not found: "@ + s@,
        WikiError::SlugNotFound(s) => "page not found for slug: "@ + s@,
        WikiError::InvalidAssetParent(s, _) => "asset path has invalid parent slug: "@ + debug_str(
            s@,
        ),
        WikiError::AssetNotFound(s) => "asset not found: "@ + s@,
    }
}

impl WikiError {
    /// The kind of this error.
    pub open spec fn kind(self) -> WikiFailure {
        match self {
            WikiError::InvalidSlug(e) => WikiFailure::InvalidSlug(e.kind),
            WikiError::InvalidUri(_) => WikiFailure::InvalidUri,
            WikiError::NoDefaultWiki => WikiFailure::NoDefaultWiki,
            WikiError::UnknownWiki(_) => WikiFailure::UnknownWiki,
            WikiError::PageNotFound(_) => WikiFailure::PageNotFound,
            WikiError::SlugNotFound(_) => WikiFailure::SlugNotFound,
            WikiError::InvalidAssetParent(_, e) => WikiFailure::InvalidAssetParent(e.kind),
            WikiError::AssetNotFound(_) => WikiFailure::AssetNotFound,
        }
    }

    /// Human-readable description of the error.
    pub fn message(&self) -> (r: String)
        ensures
            r@ == error_message(*self),
    {
        let mut m = String::new();
        match self {
            WikiError::InvalidSlug(e) => {
                m = e.message();
            },
            WikiError::InvalidUri(s) => {
                push_str(&mut m, "invalid wiki URI: ");
                push_str(&mut m, s.as_str());
            },
            WikiError::NoDefaultWiki => {
                push_str(
                    &mut m,
                    "no default wiki configured \u{2014} run `llm-wiki spaces set-default <name>`",
                );
            },
            WikiError::UnknownWiki(s) => {
                push_str(&mut m, "wiki not found: ");
                push_str(&mut m, s.as_str());
            },
            WikiError::PageNotFound(s) => {
                push_str(&mut m, "page not found: ");
                push_str(&mut m, s.as_str());
            },
            WikiError::SlugNotFound(s) => {
                push_str(&mut m, "page not found for slug: ");
                push_str(&mut m, s.as_str());
            },
            WikiError::InvalidAssetParent(s, _) => {
                push_str(&mut m, "asset path has invalid parent slug: ");
                let q = debug_quoted(s.as_str());
                push_str(&mut m, q.as_str());
            },
            WikiError::AssetNotFound(s) => {
                push_str(&mut m, "asset not found: ");
                push_str(&mut m, s.as_str());
            },
        }
        m
    }
}

// ── wiki:// URIs ─────────────────────────────────────────────────────────────

/// `wiki://`
pub open spec fn scheme() -> Seq<char> {
    seq!['w', 'i', 'k', 'i', ':', '/', '/']
}

fn scheme_chars() -> (r: Vec<char>)
    ensures
        r@ == scheme(),
{
    let r = vec!['w', 'i', 'k', 'i', ':', '/', '/'];
    assert(r@ =~= scheme());
    r
}

/// The view of an optional string.
pub open spec fn opt_view(o: Option<String>) -> Option<Seq<char>> {
    match o {
        Some(s) => Some(s@),
        None => None,
    }
}

/// First position of `c` in `s`.
pub open spec fn find_char(s: Seq<char>, c: char) -> Option<int> {
    crate::text::find_from(s, seq![c], 0)
}

/// Parse of a `wiki://` URI or bare slug: the candidate wiki name and the slug.
pub open spec fn parse_uri(input: Seq<char>) -> Result<(Option<Seq<char>>, Seq<char>), WikiFailure> {
    let t = trim(input);
    if has_prefix(t, scheme()) {
        let r = t.subrange(7, t.len() as int);
        if r.len() == 0 {
            Err(WikiFailure::InvalidUri)
        } else {
            match find_char(r, '/') {
                Some(k) if k + 1 < r.len() => match check_slug(r.subrange(k + 1, r.len() as int)) {
                    Ok(sl) => Ok((Some(r.subrange(0, k)), sl)),
                    Err(e) => Err(WikiFailure::InvalidSlug(e)),
                },
                _ => match check_slug(crate::config::strip_all_suffix_char(r, '/')) {
                    Ok(sl) => Ok((None, sl)),
                    Err(e) => Err(WikiFailure::InvalidSlug(e)),
                },
            }
        }
    } else {
        match check_slug(t) {
            Ok(sl) => Ok((None, sl)),
            Err(e) => Err(WikiFailure::InvalidSlug(e)),
        }
    }
}

/// A parsed `wiki://` URI or bare slug.
#[derive(Debug)]
pub struct WikiUri {
    /// Candidate wiki name — `None` for bare slugs.
    pub wiki: Option<String>,
    /// The slug portion.
    pub slug: Slug,
}

fn slug_of(s: &str) -> (r: Result<Slug, WikiError>)
    ensures
        match check_slug(s@) {
            Ok(t) => r matches Ok(slug) && slug@ == t,
            Err(k) => r matches Err(e) && e.kind() == WikiFailure::InvalidSlug(k),
        },
{
    match Slug::try_from(s) {
        Ok(sl) => Ok(sl),
        Err(e) => Err(WikiError::InvalidSlug(e)),
    }
}

fn strip_trailing_slashes(v: &[char]) -> (r: usize)
    ensures
        r <= v.len(),
        v@.subrange(0, r as int) == crate::config::strip_all_suffix_char(v@, '/'),
{
    let mut e = v.len();
    assert(v@.subrange(0, e as int) =~= v@);
    while e > 0 && v[e - 1] == '/'
        invariant
            e <= v.len(),
            crate::config::strip_all_suffix_char(v@, '/') == crate::config::strip_all_suffix_char(
                v@.subrange(0, e as int),
                '/',
            ),
        decreases e,
    {
        assert(v@.subrange(0, e as int).drop_last() =~= v@.subrange(0, e - 1));
        e -= 1;
    }
    proof {
        let w = v@.subrange(0, e as int);
        if e > 0 {
            assert(w.last() == v@[e - 1]);
        }
    }
    e
}

impl WikiUri {
    /// Parse a `wiki://` URI or a bare slug.
    ///
    /// `wiki://name/slug` gives the candidate wiki `name` and slug `slug`;
    /// `wiki://slug` (no slash, or only trailing slashes) and bare slugs give no
    /// wiki. `wiki://` alone is an invalid URI.
    pub fn parse(input: &str) -> (r: Result<WikiUri, WikiError>)
        ensures
            match parse_uri(input@) {
                Ok((w, sl)) => r matches Ok(u) && opt_view(u.wiki) == w && u.slug@ == sl,
                Err(f) => r matches Err(e) && e.kind() == f,
            },
    {
        let cs = to_chars(input);
        let (a, b) = trim_bounds(&cs);
        let t = sub_vec(&cs, a, b);
        let sch = scheme_chars();
        if crate::text::occurs_at_exec(&t, 0, &sch) {
            let r = sub_vec(&t, 7, t.len());
            if r.len() == 0 {
                return Err(WikiError::InvalidUri(from_chars(&t)));
            }
            let slash = vec!['/'];
            let found = crate::text::find_from_exec(&r, &slash, 0);
            proof {
                assert(slash@ =~= seq!['/']);
                assert(r@.subrange(0, r@.len() as int) =~= r@);
            }
            match found {
                Some(k) => {
                    proof {
                        crate::text::lemma_find_from(r@, seq!['/'], 0);
                    }
                    if k + 1 < r.len() {
                        let rest = from_char_range(&r, k + 1, r.len());
                        let slug = slug_of(rest.as_str())?;
                        return Ok(WikiUri { wiki: Some(from_char_range(&r, 0, k)), slug });
                    }
                },
                None => {},
            }
            let e = strip_trailing_slashes(&r);
            let rest = from_char_range(&r, 0, e);
            let slug = slug_of(rest.as_str())?;
            Ok(WikiUri { wiki: None, slug })
        } else {
            let text = from_chars(&t);
            let slug = slug_of(text.as_str())?;
            Ok(WikiUri { wiki: None, slug })
        }
    }
}

// ── Wiki lookup ──────────────────────────────────────────────────────────────

/// Index of the first registered wiki named `name`, searching from `i`.
pub open spec fn find_wiki_from(wikis: Seq<WikiEntry>, name: Seq<char>, i: int) -> Option<int>
    decreases wikis.len() - i,
{
    if i < 0 || i >= wikis.len() {
        None
    } else if wikis[i].name@ == name {
        Some(i)
    } else {
        find_wiki_from(wikis, name, i + 1)
    }
}

/// Index of the first registered wiki named `name`.
pub open spec fn find_wiki(wikis: Seq<WikiEntry>, name: Seq<char>) -> Option<int> {
    find_wiki_from(wikis, name, 0)
}

pub proof fn lemma_find_wiki_from(wikis: Seq<WikiEntry>, name: Seq<char>, i: int)
    requires
        0 <= i,
    ensures
        find_wiki_from(wikis, name, i) matches Some(k) ==> i <= k < wikis.len() && wikis[k].name@
            == name,
    decreases wikis.len() - i,
{
    if i < wikis.len() && wikis[i].name@ != name {
        lemma_find_wiki_from(wikis, name, i + 1);
    }
}

/// Look up a registered wiki by name: the first entry with that name.
pub fn resolve_name(name: &str, global: &GlobalConfig) -> (r: Result<WikiEntry, WikiError>)
    ensures
        match find_wiki(global.wikis@, name@) {
            Some(i) => r matches Ok(e) && e == global.wikis@[i],
            None => r matches Err(e) && e.kind() == WikiFailure::UnknownWiki,
        },
{
    proof {
        lemma_find_wiki_from(global.wikis@, name@, 0);
    }
    let mut i: usize = 0;
    while i < global.wikis.len()
        invariant
            i <= global.wikis@.len(),
            find_wiki(global.wikis@, name@) == find_wiki_from(global.wikis@, name@, i as int),
        decreases global.wikis.len() - i,
    {
        if str_eq(global.wikis[i].name.as_str(), name) {
            return Ok(global.wikis[i].clone());
        }
        i += 1;
    }
    let mut n = String::new();
    push_str(&mut n, name);
    Err(WikiError::UnknownWiki(n))
}

/// The default wiki's name, when one is configured.
pub fn default_wiki(global: &GlobalConfig) -> (r: Result<&str, WikiError>)
    ensures
        global.global.default_wiki@.len() == 0 ==> (r matches Err(e) && e.kind()
            == WikiFailure::NoDefaultWiki),
        global.global.default_wiki@.len() != 0 ==> (r matches Ok(s) && s@
            == global.global.default_wiki@),
{
    match global.global.default_wiki_opt() {
        Some(s) => Ok(s),
        None => Err(WikiError::NoDefaultWiki),
    }
}

/// The default wiki's entry.
pub open spec fn default_entry(wikis: Seq<WikiEntry>, default: Seq<char>) -> Result<int, WikiFailure> {
    if default.len() == 0 {
        Err(WikiFailure::NoDefaultWiki)
    } else {
        match find_wiki(wikis, default) {
            Some(i) => Ok(i),
            None => Err(WikiFailure::UnknownWiki),
        }
    }
}

/// Resolution of a URI or bare slug: the index of the wiki entry and the slug.
pub open spec fn resolve_uri(
    input: Seq<char>,
    flag: Option<Seq<char>>,
    wikis: Seq<WikiEntry>,
    default: Seq<char>,
) -> Result<(int, Seq<char>), WikiFailure> {
    if has_prefix(input, scheme()) {
        match parse_uri(input) {
            Err(f) => Err(f),
            Ok((Some(name), sl)) => match find_wiki(wikis, name) {
                Some(i) => Ok((i, sl)),
                None => match check_slug(name + seq!['/'] + sl) {
                    Err(k) => Err(WikiFailure::InvalidSlug(k)),
                    Ok(full) => match default_entry(wikis, default) {
                        Ok(i) => Ok((i, full)),
                        Err(f) => Err(f),
                    },
                },
            },
            Ok((None, sl)) => match default_entry(wikis, default) {
                Ok(i) => Ok((i, sl)),
                Err(f) => Err(f),
            },
        }
    } else {
        let name = match flag {
            Some(f) => Some(f),
            None => if default.len() == 0 {
                None
            } else {
                Some(default)
            },
        };
        match name {
            None => Err(WikiFailure::NoDefaultWiki),
            Some(n) => match find_wiki(wikis, n) {
                None => Err(WikiFailure::UnknownWiki),
                Some(i) => match check_slug(input) {
                    Ok(sl) => Ok((i, sl)),
                    Err(k) => Err(WikiFailure::InvalidSlug(k)),
                },
            },
        }
    }
}

/// How resolution fails: a bare slug with no wiki named and no default wiki
/// has no wiki; a bare slug naming an unregistered wiki has an unknown wiki;
/// a `wiki://` URI whose name part is no registered wiki, with no default
/// wiki, fails; and so does a bare slug that is not a valid slug.
pub proof fn law_resolve_uri_errors(
    input: Seq<char>,
    flag: Option<Seq<char>>,
    wikis: Seq<WikiEntry>,
    default: Seq<char>,
)
    ensures
        !has_prefix(input, scheme()) && flag is None && default.len() == 0 ==> resolve_uri(
            input,
            flag,
            wikis,
            default,
        ) == Err::<(int, Seq<char>), WikiFailure>(WikiFailure::NoDefaultWiki),
        !has_prefix(input, scheme()) && (flag matches Some(w) && forall|i: int|
            0 <= i < wikis.len() ==> (#[trigger] wikis[i]).name@ != w) ==> resolve_uri(
            input,
            flag,
            wikis,
            default,
        ) == Err::<(int, Seq<char>), WikiFailure>(WikiFailure::UnknownWiki),
        has_prefix(input, scheme()) && default.len() == 0 && (parse_uri(input) matches Ok((Some(n), _))
            ==> forall|i: int| 0 <= i < wikis.len() ==> (#[trigger] wikis[i]).name@ != n)
            ==> resolve_uri(input, flag, wikis, default) is Err,
        !has_prefix(input, scheme()) && check_slug(input) is Err ==> resolve_uri(
            input,
            flag,
            wikis,
            default,
        ) is Err,
{
    if let Some(w) = flag {
        lemma_find_wiki_from(wikis, w, 0);
    }
    if let Ok((Some(n), _)) = parse_uri(input) {
        lemma_find_wiki_from(wikis, n, 0);
    }
}

/// The view of an optional string slice.
pub open spec fn opt_str_view(o: Option<&str>) -> Option<Seq<char>> {
    match o {
        Some(s) => Some(s@),
        None => None,
    }
}

impl WikiUri {
    /// Resolve a URI or bare slug against the global configuration.
    ///
    /// A `wiki://name/slug` URI names a wiki when `name` is registered; otherwise
    /// `name` is taken as the first slug segment and the default wiki is used.
    /// A bare slug uses `wiki_flag`, or the default wiki when no flag is given.
    pub fn resolve(input: &str, wiki_flag: Option<&str>, global: &GlobalConfig) -> (r: Result<
        (WikiEntry, Slug),
        WikiError,
    >)
        ensures
            match resolve_uri(
                input@,
                opt_str_view(wiki_flag),
                global.wikis@,
                global.global.default_wiki@,
            ) {
                Ok((i, sl)) => r matches Ok((e, s)) && e == global.wikis@[i] && s@ == sl,
                Err(f) => r matches Err(e) && e.kind() == f,
            },
    {
        let cs = to_chars(input);
        let sch = scheme_chars();
        if crate::text::occurs_at_exec(&cs, 0, &sch) {
            proof {
                assert(cs@.subrange(0, 7) == input@.subrange(0, 7));
            }
            let parsed = WikiUri::parse(input)?;
            proof {
                lemma_find_wiki_from(global.wikis@, global.global.default_wiki@, 0);
            }
            if let Some(name) = &parsed.wiki {
                proof {
                    lemma_find_wiki_from(global.wikis@, name@, 0);
                }
                match resolve_name(name.as_str(), global) {
                    Ok(entry) => {
                        return Ok((entry, parsed.slug));
                    },
                    Err(_) => {},
                }
                let mut full = name.clone();
                full.push('/');
                push_str(&mut full, parsed.slug.as_str());
                proof {
                    assert(full@ =~= name@ + seq!['/'] + parsed.slug@);
                }
                let slug = slug_of(full.as_str())?;
                let default = default_wiki(global)?;
                let entry = resolve_name(default, global)?;
                return Ok((entry, slug));
            }
            let default = default_wiki(global)?;
            let entry = resolve_name(default, global)?;
            Ok((entry, parsed.slug))
        } else {
            let wiki_name = match wiki_flag {
                Some(f) => f,
                None => match global.global.default_wiki_opt() {
                    Some(d) => d,
                    None => {
                        return Err(WikiError::NoDefaultWiki);
                    },
                },
            };
            proof {
                lemma_find_wiki_from(global.wikis@, wiki_name@, 0);
            }
            let entry = resolve_name(wiki_name, global)?;
            let slug = slug_of(input)?;
            Ok((entry, slug))
        }
    }
}

// ── Read targets ─────────────────────────────────────────────────────────────

/// What a read request resolves to.
#[derive(Debug)]
pub enum ReadTarget {
    /// A page file.
    Page(String),
    /// A co-located asset: the parent slug and the file name.
    Asset(String, String),
}

/// `md`
pub open spec fn md() -> Seq<char> {
    seq!['m', 'd']
}

/// For a path whose last segment has a non-empty extension other than `md`:
/// the parent part and the file name.
pub open spec fn asset_split(input: Seq<char>) -> Option<(Seq<char>, Seq<char>)> {
    match rfind_char(input, '/') {
        None => None,
        Some(pos) => {
            let f = input.subrange(pos + 1, input.len() as int);
            match rfind_char(f, '.') {
                None => None,
                Some(d) => {
                    let ext = f.subrange(d + 1, f.len() as int);
                    if ext.len() > 0 && ext != md() {
                        Some((input.subrange(0, pos), f))
                    } else {
                        None
                    }
                },
            }
        },
    }
}

/// An asset target splits the input at its last `/`: the input is the parent,
/// `/` and the file name; the file name holds no `/` and ends in a non-empty
/// extension other than `md` after its last `.`.
pub proof fn law_asset_split_shape(input: Seq<char>)
    ensures
        asset_split(input) matches Some((p, f)) ==> {
            &&& input == p + seq!['/'] + f
            &&& forall|j: int| 0 <= j < f.len() ==> f[j] != '/'
            &&& exists|d: int|
                0 <= d < f.len() && f[d] == '.' && (forall|j: int| d < j < f.len() ==> f[j] != '.')
                    && f.subrange(d + 1, f.len() as int).len() > 0 && f.subrange(
                    d + 1,
                    f.len() as int,
                ) != md()
        },
{
    lemma_rfind_char(input, '/');
    if let Some(pos) = rfind_char(input, '/') {
        let f = input.subrange(pos + 1, input.len() as int);
        lemma_rfind_char(f, '.');
        if let Some((p, f2)) = asset_split(input) {
            assert(input =~= p + seq!['/'] + f);
            assert forall|j: int| 0 <= j < f.len() implies f[j] != '/' by {
                assert(f[j] == input[pos + 1 + j]);
            }
            let d = rfind_char(f, '.')->0;
            assert(f[d] == '.');
        }
    }
}

/// The files a read request may probe, in the order they are consulted: the
/// flat and bundle page files (when the input is a valid slug) and the asset
/// file (when the input names an asset under a valid parent slug).
pub struct ReadProbes {
    pub flat: Option<String>,
    pub bundle: Option<String>,
    pub asset: Option<String>,
}

fn asset_parts(input: &str) -> (r: Option<(String, String)>)
    ensures
        match asset_split(input@) {
            Some((p, f)) => r matches Some((a, b)) && a@ == p && b@ == f,
            None => r is None,
        },
{
    let cs = to_chars(input);
    proof {
        assert(cs@.subrange(0, cs@.len() as int) =~= cs@);
        lemma_rfind_char(cs@, '/');
    }
    match rfind_char_exec(&cs, cs.len(), '/') {
        None => None,
        Some(pos) => {
            let f = sub_vec(&cs, pos + 1, cs.len());
            proof {
                assert(f@.subrange(0, f@.len() as int) =~= f@);
                lemma_rfind_char(f@, '.');
            }
            match rfind_char_exec(&f, f.len(), '.') {
                None => None,
                Some(d) => {
                    let ext = sub_vec(&f, d + 1, f.len());
                    let md_chars = vec!['m', 'd'];
                    proof {
                        assert(md_chars@ =~= md());
                    }
                    if ext.len() > 0 && !crate::text::chars_eq(&ext, &md_chars) {
                        Some((from_char_range(&cs, 0, pos), from_chars(&f)))
                    } else {
                        None
                    }
                },
            }
        },
    }
}

proof fn lemma_valid_first_not_slash(s: Seq<char>)
    requires
        check_slug(s) is Ok,
    ensures
        s.len() == 0 || s[0] != '/',
{
    if s.len() > 0 && !is_ws(s[0]) {
        crate::text::lemma_trim_start_shape(s);
        assert(crate::text::trim_start(s) == s);
        crate::text::lemma_trim_end_shape(s);
        let k = choose|k: int| 0 <= k <= s.len() && crate::text::trim_end(s) == s.subrange(0, k);
        assert(trim(s)[0] == s[0]);
    }
}

/// The files to probe for `input` under `wiki_root`.
pub fn read_target_probes(input: &str, wiki_root: &str) -> (r: ReadProbes)
    ensures
        match check_slug(input@) {
            Ok(sl) => (r.flat matches Some(f) && f@ == join_path(wiki_root@, sl + md_ext())) && (
            r.bundle matches Some(b) && b@ == join_path(join_path(wiki_root@, sl), index_md())),
            Err(_) => r.flat is None && r.bundle is None,
        },
        match asset_split(input@) {
            Some((p, f)) => if check_slug(p) is Ok {
                r.asset matches Some(a) && a@ == join_path(join_path(wiki_root@, p), f)
            } else {
                r.asset is None
            },
            None => r.asset is None,
        },
{
    let (flat, bundle) = match Slug::try_from(input) {
        Ok(slug) => (Some(slug.flat_path(wiki_root)), Some(slug.bundle_path(wiki_root))),
        Err(_) => (None, None),
    };
    let asset = match asset_parts(input) {
        Some((parent, filename)) => match Slug::try_from(parent.as_str()) {
            Ok(_) => {
                proof {
                    lemma_valid_first_not_slash(parent@);
                    lemma_rfind_char(input@, '/');
                    let pos = rfind_char(input@, '/')->0;
                    if filename@.len() > 0 {
                        assert(filename@[0] == input@[pos + 1]);
                    }
                    assert(!has_char_slash(filename@));
                }
                let dir = join(wiki_root, parent.as_str());
                Some(join(dir.as_str(), filename.as_str()))
            },
            Err(_) => None,
        },
        None => None,
    };
    ReadProbes { flat, bundle, asset }
}

spec fn has_char_slash(s: Seq<char>) -> bool {
    s.len() > 0 && s[0] == '/'
}

/// Two-step resolution of a read request: a page when the input is a valid slug
/// whose flat or bundle file exists; otherwise an asset when the last segment has
/// a non-`md` extension, its parent is a valid slug and the asset file exists.
/// The caller reports whether each probed file (see `read_target_probes`) exists.
pub fn resolve_read_target(
    input: &str,
    wiki_root: &str,
    flat_is_file: bool,
    bundle_is_file: bool,
    asset_is_file: bool,
) -> (r: Result<ReadTarget, WikiError>)
    ensures
        match check_slug(input@) {
            Ok(sl) => (flat_is_file ==> (r matches Ok(ReadTarget::Page(p)) && p@ == join_path(
                wiki_root@,
                sl + md_ext(),
            ))) && (!flat_is_file && bundle_is_file ==> (r matches Ok(ReadTarget::Page(p)) && p@
                == join_path(join_path(wiki_root@, sl), index_md()))),
            Err(_) => true,
        },
        !(check_slug(input@) is Ok && (flat_is_file || bundle_is_file)) ==> match asset_split(
            input@,
        ) {
            Some((p, f)) => match check_slug(p) {
                Err(k) => r matches Err(e) && e.kind() == WikiFailure::InvalidAssetParent(k),
                Ok(_) => if asset_is_file {
                    r matches Ok(ReadTarget::Asset(a, b)) && a@ == p && b@ == f
                } else {
                    r matches Err(e) && e.kind() == WikiFailure::AssetNotFound
                },
            },
            None => r matches Err(e) && e.kind() == WikiFailure::PageNotFound,
        },
{
    if let Ok(slug) = Slug::try_from(input) {
        if let Ok(path) = slug.resolve(wiki_root, flat_is_file, bundle_is_file) {
            return Ok(ReadTarget::Page(path));
        }
    }
    let mut whole = String::new();
    push_str(&mut whole, input);
    match asset_parts(input) {
        Some((parent, filename)) => match Slug::try_from(parent.as_str()) {
            Err(e) => Err(WikiError::InvalidAssetParent(whole, e)),
            Ok(_) => if asset_is_file {
                Ok(ReadTarget::Asset(parent, filename))
            } else {
                Err(WikiError::AssetNotFound(whole))
            },
        },
        None => Err(WikiError::PageNotFound(whole)),
    }
}

// ── Slugs of page files ──────────────────────────────────────────────────────

/// Why a file path gives no slug.
#[derive(Debug)]
pub enum SlugPathError {
    /// The path is not under the wiki root.
    NotUnderRoot,
    /// An `index.md` path has no parent directory.
    NoParent,
    /// The path gives an invalid slug.
    Invalid(SlugError),
}

/// Every `from` replaced by `/`.
pub open spec fn with_slashes(s: Seq<char>, from: char) -> Seq<char> {
    s.map_values(|c: char| if c == from { '/' } else { c })
}

/// The raw slug text of a page file: its path relative to the root, the
/// directory for an `index.md`, else without extension; separators as `/`.
/// `Err(0)` when the path is not under the root, `Err(1)` for an `index.md`
/// without parent.
pub open spec fn raw_slug_of_path(path: Seq<char>, root: Seq<char>, sep: char) -> Result<Seq<char>, u8> {
    match crate::pathutil::path_strip_prefix(path, root) {
        None => Err(0u8),
        Some(rel) => if crate::pathutil::path_file_name(rel) == Some("index.md"@) {
            match crate::pathutil::path_parent(rel) {
                None => Err(1u8),
                Some(p) => Ok(with_slashes(p, sep)),
            }
        } else {
            Ok(with_slashes(crate::pathutil::path_without_extension(rel), sep))
        },
    }
}

/// What `Slug::from_path` gives when the platform separator is `sep`.
pub open spec fn from_path_outcome(path: Seq<char>, root: Seq<char>, sep: char, r: Result<Slug, SlugPathError>) -> bool {
    match raw_slug_of_path(path, root, sep) {
        Err(0u8) => r matches Err(SlugPathError::NotUnderRoot),
        Err(_) => r matches Err(SlugPathError::NoParent),
        Ok(raw) => match check_slug(raw) {
            Ok(t) => r matches Ok(slug) && slug@ == t,
            Err(k) => r matches Err(SlugPathError::Invalid(e)) && e.kind == k,
        },
    }
}

fn replace_separator(s: &str, from: char) -> (r: String)
    ensures
        r@ == with_slashes(s@, from),
{
    let cs = to_chars(s);
    let mut out = String::new();
    let mut i: usize = 0;
    while i < cs.len()
        invariant
            i <= cs@.len(),
            cs@ == s@,
            out@ == with_slashes(s@, from).take(i as int),
        decreases cs@.len() - i,
    {
        let c = cs[i];
        if c == from {
            out.push('/');
        } else {
            out.push(c);
        }
        proof {
            assert(out@ =~= with_slashes(s@, from).take(i as int + 1));
        }
        i += 1;
    }
    proof {
        assert(with_slashes(s@, from).take(cs@.len() as int) =~= with_slashes(s@, from));
    }
    out
}

impl Slug {
    /// The slug of a page file under `wiki_root`: `concepts/moe.md` and
    /// `concepts/moe/index.md` both give `concepts/moe`.
    pub fn from_path(path: &str, wiki_root: &str) -> (r: Result<Slug, SlugPathError>)
        ensures
            from_path_outcome(path@, wiki_root@, '/', r) || from_path_outcome(path@, wiki_root@, '\\', r),
    {
        let sep = crate::pathutil::main_separator();
        let rel = match crate::pathutil::strip_prefix_of(path, wiki_root) {
            Some(r) => r,
            None => {
                return Err(SlugPathError::NotUnderRoot);
            },
        };
        let is_index = match crate::pathutil::file_name_of(rel.as_str()) {
            Some(n) => str_eq(n.as_str(), "index.md"),
            None => false,
        };
        let raw = if is_index {
            match crate::pathutil::parent_of(rel.as_str()) {
                Some(p) => p,
                None => {
                    return Err(SlugPathError::NoParent);
                },
            }
        } else {
            crate::pathutil::without_extension(rel.as_str())
        };
        let raw = replace_separator(raw.as_str(), sep);
        match Slug::try_from(raw.as_str()) {
            Ok(s) => Ok(s),
            Err(e) => Err(SlugPathError::Invalid(e)),
        }
    }
}

} // verus!
