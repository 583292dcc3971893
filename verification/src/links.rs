//! Link extraction from page frontmatter and bodies: `[[wikilinks]]` and
//! CommonMark inline links `[text](destination)`.
use vstd::prelude::*;

use crate::text::{
    find_from, find_from_exec, from_char_range, from_chars, has_prefix, has_suffix, lemma_find_from,
    lemma_rfind_char, occurs_at, occurs_at_exec, rfind_char, rfind_char_exec, sub_vec, to_chars,
    trim, trim_bounds,
};

verus! {

// ── Views ────────────────────────────────────────────────────────────────────

/// The character views of a sequence of strings.
pub open spec fn views(v: Seq<String>) -> Seq<Seq<char>> {
    v.map_values(|s: String| s@)
}

/// The character views of a sequence of character buffers.
pub open spec fn vviews(v: Seq<Vec<char>>) -> Seq<Seq<char>> {
    v.map_values(|s: Vec<char>| s@)
}

// ── ParsedLink ───────────────────────────────────────────────────────────────

/// A link value classified by scope.
#[derive(Debug)]
pub enum ParsedLink {
    /// Bare slug resolved within the current wiki.
    Local(String),
    /// `wiki://name/slug` URI resolved in another mounted wiki.
    CrossWiki {
        /// Name of the target wiki.
        wiki: String,
        /// Slug within the target wiki.
        slug: String,
    },
}

/// `wiki://`
pub open spec fn scheme() -> Seq<char> {
    crate::slug::scheme()
}

/// A link as (target wiki for cross-wiki links, slug or raw text).
pub open spec fn parse_link(s: Seq<char>) -> (Option<Seq<char>>, Seq<char>) {
    if has_prefix(s, scheme()) {
        let rest = s.subrange(7, s.len() as int);
        match crate::slug::find_char(rest, '/') {
            Some(k) => (Some(rest.subrange(0, k)), rest.subrange(k + 1, rest.len() as int)),
            None => (None, s),
        }
    } else {
        (None, s)
    }
}

/// The slug portion of a raw link (`ParsedLink::as_raw` after `ParsedLink::parse`).
pub open spec fn raw_of(s: Seq<char>) -> Seq<char> {
    parse_link(s).1
}

impl View for ParsedLink {
    type V = (Option<Seq<char>>, Seq<char>);

    open spec fn view(&self) -> (Option<Seq<char>>, Seq<char>) {
        match self {
            ParsedLink::Local(s) => (None, s@),
            ParsedLink::CrossWiki { wiki, slug } => (Some(wiki@), slug@),
        }
    }
}

impl ParsedLink {
    /// Classify a raw link: `wiki://name/slug` is cross-wiki, anything else local.
    pub fn parse(s: &str) -> (r: ParsedLink)
        ensures
            r@ == parse_link(s@),
    {
        let cs = to_chars(s);
        let sch = vec!['w', 'i', 'k', 'i', ':', '/', '/'];
        proof {
            assert(sch@ =~= scheme());
        }
        if occurs_at_exec(&cs, 0, &sch) {
            let rest = sub_vec(&cs, 7, cs.len());
            let slash = vec!['/'];
            proof {
                assert(slash@ =~= seq!['/']);
                lemma_find_from(rest@, seq!['/'], 0);
            }
            if let Some(k) = find_from_exec(&rest, &slash, 0) {
                return ParsedLink::CrossWiki {
                    wiki: from_char_range(&rest, 0, k),
                    slug: from_char_range(&rest, k + 1, rest.len()),
                };
            }
        }
        ParsedLink::Local(from_chars(&cs))
    }

    /// The slug portion of the link: the local slug, or the slug of a cross-wiki URI.
    pub fn as_raw(&self) -> (r: &str)
        ensures
            r@ == self@.1,
    {
        match self {
            ParsedLink::Local(s) => s.as_str(),
            ParsedLink::CrossWiki { wiki: _, slug } => slug.as_str(),
        }
    }
}

// ── Deduplication ────────────────────────────────────────────────────────────

/// Add candidates in order, skipping those already seen: the new `seen` and the
/// candidates that were added.
pub open spec fn dedup(seen: Seq<Seq<char>>, cands: Seq<Seq<char>>) -> (Seq<Seq<char>>, Seq<
    Seq<char>,
>)
    decreases cands.len(),
{
    if cands.len() == 0 {
        (seen, Seq::empty())
    } else {
        let (s1, a1) = dedup(seen, cands.drop_last());
        let c = cands.last();
        if s1.contains(c) {
            (s1, a1)
        } else {
            (s1.push(c), a1.push(c))
        }
    }
}

/// Deduplication adds exactly the candidates not yet seen, each once: the new
/// `seen` is the old one followed by the added candidates, it holds every
/// candidate, none of the added ones was seen before, and without repeats in
/// the old `seen` there are none in the new one.
pub proof fn law_dedup(seen: Seq<Seq<char>>, cands: Seq<Seq<char>>)
    ensures
        dedup(seen, cands).0 == seen + dedup(seen, cands).1,
        forall|i: int| 0 <= i < cands.len() ==> dedup(seen, cands).0.contains(#[trigger] cands[i]),
        forall|x: Seq<char>| #[trigger] dedup(seen, cands).1.contains(x) ==> !seen.contains(x),
        seen.no_duplicates() ==> dedup(seen, cands).0.no_duplicates(),
    decreases cands.len(),
{
    if cands.len() > 0 {
        let u = cands.drop_last();
        law_dedup(seen, u);
        let (s1, a1) = dedup(seen, u);
        let c = cands.last();
        assert forall|i: int| 0 <= i < cands.len() implies dedup(seen, cands).0.contains(#[trigger] cands[i]) by {
            if i < u.len() {
                assert(u[i] == cands[i]);
                let k = choose|k: int| 0 <= k < s1.len() && s1[k] == u[i];
                if !s1.contains(c) {
                    assert(s1.push(c)[k] == u[i]);
                }
            } else {
                if !s1.contains(c) {
                    assert(s1.push(c)[s1.len() as int] == c);
                }
            }
        }
        if !s1.contains(c) {
            assert(s1.push(c) =~= seen + a1.push(c));
            assert forall|x: Seq<char>| #[trigger] a1.push(c).contains(x) implies !seen.contains(x) by {
                if x == c {
                    if seen.contains(x) {
                        let k = choose|k: int| 0 <= k < seen.len() && seen[k] == x;
                        assert((seen + a1)[k] == seen[k]);
                        assert(s1[k] == x);
                        assert(s1.contains(c));
                    }
                } else {
                    let k = choose|k: int| 0 <= k < a1.push(c).len() && a1.push(c)[k] == x;
                    assert(a1[k] == x);
                    assert(a1.contains(x));
                }
            }
            if seen.no_duplicates() {
                assert forall|i: int, j: int|
                    0 <= i < s1.push(c).len() && 0 <= j < s1.push(c).len() && i != j implies s1.push(c)[i]
                    != s1.push(c)[j] by {
                    if i == s1.len() {
                        assert(s1[j] == s1.push(c)[j]);
                    } else if j == s1.len() {
                        assert(s1[i] == s1.push(c)[i]);
                    }
                }
            }
        }
    }
}

/// Whether `seen` holds a string equal to `c`.
fn contains_chars(seen: &Vec<String>, c: &[char]) -> (r: bool)
    ensures
        r == views(seen@).contains(c@),
{
    let mut i: usize = 0;
    while i < seen.len()
        invariant
            i <= seen.len(),
            forall|j: int| 0 <= j < i ==> seen@[j]@ != c@,
        decreases seen.len() - i,
    {
        let sc = to_chars(seen[i].as_str());
        if crate::text::chars_eq(&sc, c) {
            proof {
                assert(views(seen@)[i as int] == c@);
            }
            return true;
        }
        i += 1;
    }
    proof {
        if views(seen@).contains(c@) {
            let j = choose|j: int| 0 <= j < views(seen@).len() && views(seen@)[j] == c@;
            assert(seen@[j]@ == c@);
        }
    }
    false
}

proof fn lemma_dedup_step(seen: Seq<Seq<char>>, cands: Seq<Seq<char>>, i: int)
    requires
        0 <= i < cands.len(),
    ensures
        dedup(seen, cands.subrange(0, i + 1)) == ({
            let (s1, a1) = dedup(seen, cands.subrange(0, i));
            if s1.contains(cands[i]) {
                (s1, a1)
            } else {
                (s1.push(cands[i]), a1.push(cands[i]))
            }
        }),
{
    assert(cands.subrange(0, i + 1).drop_last() =~= cands.subrange(0, i));
}

/// Append each candidate not yet in `seen` to both `seen` and `out`.
fn dedup_push(seen: &mut Vec<String>, out: &mut Vec<String>, cands: &Vec<Vec<char>>)
    ensures
        views(final(seen)@) == dedup(views(old(seen)@), vviews(cands@)).0,
        views(final(out)@) == views(old(out)@) + dedup(views(old(seen)@), vviews(cands@)).1,
{
    let ghost s0 = views(seen@);
    let ghost o0 = views(out@);
    let mut i: usize = 0;
    proof {
        assert(vviews(cands@).subrange(0, 0) =~= Seq::<Seq<char>>::empty());
        assert(views(out@) =~= o0 + Seq::<Seq<char>>::empty());
    }
    while i < cands.len()
        invariant
            i <= cands.len(),
            views(seen@) == dedup(s0, vviews(cands@).subrange(0, i as int)).0,
            views(out@) == o0 + dedup(s0, vviews(cands@).subrange(0, i as int)).1,
        decreases cands.len() - i,
    {
        proof {
            lemma_dedup_step(s0, vviews(cands@), i as int);
        }
        let c = &cands[i];
        let ghost pre_seen = seen@;
        let ghost pre_out = out@;
        proof {
            assert(vviews(cands@)[i as int] == c@);
        }
        if !contains_chars(seen, c.as_slice()) {
            let st = from_chars(c.as_slice());
            seen.push(st);
            let x = from_chars(c.as_slice());
            out.push(x);
            proof {
                assert(views(seen@) =~= views(pre_seen).push(c@));
                assert(views(out@) =~= views(pre_out).push(c@));
            }
        }
        i += 1;
    }
    proof {
        assert(vviews(cands@).subrange(0, cands@.len() as int) =~= vviews(cands@));
    }
}

/// The slug part (`raw_of`) of each candidate link.
fn slug_parts(cands: &Vec<Vec<char>>) -> (r: Vec<Vec<char>>)
    ensures
        vviews(r@) == vviews(cands@).map_values(|s: Seq<char>| raw_of(s)),
{
    let mut r: Vec<Vec<char>> = Vec::new();
    let mut i: usize = 0;
    while i < cands.len()
        invariant
            i <= cands.len(),
            vviews(r@) == vviews(cands@).subrange(0, i as int).map_values(
                |s: Seq<char>| raw_of(s),
            ),
        decreases cands.len() - i,
    {
        let l = ParsedLink::parse(from_chars(cands[i].as_slice()).as_str());
        let x = to_chars(l.as_raw());
        let ghost pre = r@;
        r.push(x);
        proof {
            assert(vviews(cands@)[i as int] == cands@[i as int]@);
            assert(vviews(r@) =~= vviews(pre).push(raw_of(cands@[i as int]@)));
            assert(vviews(cands@).subrange(0, i + 1).map_values(|s: Seq<char>| raw_of(s))
                =~= vviews(cands@).subrange(0, i as int).map_values(|s: Seq<char>| raw_of(s)).push(
                raw_of(cands@[i as int]@),
            ));
        }
        i += 1;
    }
    proof {
        assert(vviews(cands@).subrange(0, cands@.len() as int) =~= vviews(cands@));
    }
    r
}

// ── Scanning ─────────────────────────────────────────────────────────────────

pub open spec fn open2() -> Seq<char> {
    seq!['[', '[']
}

pub open spec fn close2() -> Seq<char> {
    seq![']', ']']
}

pub open spec fn mid() -> Seq<char> {
    seq![']', '(']
}

/// Trimmed, non-empty `[[...]]` contents found scanning `t` from `i`, in order.
pub open spec fn wikilinks_from(t: Seq<char>, i: int) -> Seq<Seq<char>>
    decreases t.len() + 2 - i,
{
    if i < 0 {
        Seq::empty()
    } else {
        match find_from(t, open2(), i) {
            None => Seq::empty(),
            Some(st) => match find_from(t, close2(), st + 2) {
                None => Seq::empty(),
                Some(en) => {
                    proof {
                        lemma_find_from(t, open2(), i);
                        lemma_find_from(t, close2(), st + 2);
                    }
                    let raw = trim(t.subrange(st + 2, en));
                    let rest = wikilinks_from(t, en + 2);
                    if raw.len() > 0 {
                        seq![raw] + rest
                    } else {
                        rest
                    }
                },
            },
        }
    }
}

fn chars2(a: char, b: char) -> (r: Vec<char>)
    ensures
        r@ == seq![a, b],
{
    let r = vec![a, b];
    assert(r@ =~= seq![a, b]);
    r
}

/// The `[[...]]` contents of `t` (see `wikilinks_from`).
fn wikilink_candidates(t: &[char]) -> (r: Vec<Vec<char>>)
    ensures
        vviews(r@) == wikilinks_from(t@, 0),
{
    let op = chars2('[', '[');
    let cl = chars2(']', ']');
    let mut r: Vec<Vec<char>> = Vec::new();
    let mut i: usize = 0;
    while i <= t.len()
        invariant
            vviews(r@) + wikilinks_from(t@, i as int) == wikilinks_from(t@, 0),
            op@ == open2(),
            cl@ == close2(),
        decreases t.len() + 2 - i,
    {
        proof {
            lemma_find_from(t@, open2(), i as int);
        }
        let st = match find_from_exec(t, &op, i) {
            Some(st) => st,
            None => {
                proof {
                    assert(vviews(r@) + Seq::<Seq<char>>::empty() =~= vviews(r@));
                }
                return r;
            },
        };
        proof {
            lemma_find_from(t@, close2(), st + 2);
        }
        let en = match find_from_exec(t, &cl, st + 2) {
            Some(en) => en,
            None => {
                proof {
                    assert(vviews(r@) + Seq::<Seq<char>>::empty() =~= vviews(r@));
                }
                return r;
            },
        };
        let inner = sub_vec(t, st + 2, en);
        let (a, b) = trim_bounds(&inner);
        let ghost pre = r@;
        if a < b {
            let raw = sub_vec(&inner, a, b);
            r.push(raw);
            proof {
                assert(vviews(r@) =~= vviews(pre).push(raw@));
                assert(vviews(pre).push(raw@) + wikilinks_from(t@, en + 2) =~= vviews(pre) + (
                seq![raw@] + wikilinks_from(t@, en + 2)));
            }
        }
        i = en + 2;
    }
    proof {
        assert(wikilinks_from(t@, i as int) =~= Seq::<Seq<char>>::empty()) by {
            lemma_find_from(t@, open2(), i as int);
        }
        assert(vviews(r@) + Seq::<Seq<char>>::empty() =~= vviews(r@));
    }
    r
}

// ── CommonMark destinations ──────────────────────────────────────────────────

pub open spec fn md_suffix() -> Seq<char> {
    seq!['.', 'm', 'd']
}

pub open spec fn dot_slash() -> Seq<char> {
    seq!['.', '/']
}

pub open spec fn dotdot_slash() -> Seq<char> {
    seq!['.', '.', '/']
}

pub open spec fn dotdot() -> Seq<char> {
    seq!['.', '.']
}

/// The `/`-separated non-empty parts of `s`.
pub open spec fn parts_of(s: Seq<char>) -> Seq<Seq<char>>
    decreases s.len(),
{
    match crate::slug::find_char(s, '/') {
        None => if s.len() > 0 {
            seq![s]
        } else {
            Seq::empty()
        },
        Some(k) => {
            proof {
                lemma_find_from(s, seq!['/'], 0);
            }
            (if k > 0 {
                seq![s.subrange(0, k)]
            } else {
                Seq::empty()
            }) + parts_of(s.subrange(k + 1, s.len() as int))
        },
    }
}

/// Parts joined with `/`.
pub open spec fn join_parts(parts: Seq<Seq<char>>) -> Seq<char>
    decreases parts.len(),
{
    if parts.len() == 0 {
        Seq::empty()
    } else if parts.len() == 1 {
        parts[0]
    } else {
        join_parts(parts.drop_last()) + seq!['/'] + parts.last()
    }
}

/// Drop the last part, if any.
pub open spec fn pop_part(parts: Seq<Seq<char>>) -> Seq<Seq<char>> {
    if parts.len() > 0 {
        parts.drop_last()
    } else {
        parts
    }
}

/// Consume leading `./` and `../` (and a final `..`) from `rest`, popping a
/// directory part for each `..`.
pub open spec fn walk(parts: Seq<Seq<char>>, rest: Seq<char>) -> (Seq<Seq<char>>, Seq<char>)
    decreases rest.len(),
{
    if has_prefix(rest, dot_slash()) {
        walk(parts, rest.subrange(2, rest.len() as int))
    } else if has_prefix(rest, dotdot_slash()) {
        walk(pop_part(parts), rest.subrange(3, rest.len() as int))
    } else if rest == dotdot() {
        (pop_part(parts), Seq::empty())
    } else {
        (parts, rest)
    }
}

/// A CommonMark destination made relative to the wiki root: `.md` is stripped,
/// and a destination starting with `./`, `../` or equal to `..` is resolved
/// against the source page's directory.
pub open spec fn normalize_dest(dest: Seq<char>, source_dir: Seq<char>) -> Seq<char> {
    let d = if has_suffix(dest, md_suffix()) {
        dest.subrange(0, dest.len() - 3)
    } else {
        dest
    };
    if !(has_prefix(d, dot_slash()) || has_prefix(d, dotdot_slash()) || d == dotdot()) {
        d
    } else {
        let (ps, rest) = walk(parts_of(source_dir), d);
        if rest.len() == 0 {
            join_parts(ps)
        } else {
            let pre = join_parts(ps);
            if pre.len() == 0 {
                rest
            } else {
                pre + seq!['/'] + rest
            }
        }
    }
}

fn parts_exec(s: &[char]) -> (r: Vec<Vec<char>>)
    ensures
        vviews(r@) == parts_of(s@),
{
    let mut r: Vec<Vec<char>> = Vec::new();
    let mut i: usize = 0;
    proof {
        assert(s@.subrange(0, s@.len() as int) =~= s@);
    }
    while i < s.len()
        invariant
            i <= s.len(),
            vviews(r@) + parts_of(s@.subrange(i as int, s@.len() as int)) == parts_of(s@),
        decreases s.len() - i,
    {
        let ghost rest = s@.subrange(i as int, s@.len() as int);
        let mut j = i;
        while j < s.len() && s[j] != '/'
            invariant
                i <= j <= s.len(),
                forall|k: int| i <= k < j ==> s@[k] != '/',
            decreases s.len() - j,
        {
            j += 1;
        }
        proof {
            lemma_find_from(rest, seq!['/'], 0);
            assert forall|k: int| 0 <= k < j - i implies !occurs_at(rest, k, seq!['/']) by {
                assert(rest.subrange(k, k + 1)[0] == s@[i + k]);
            }
            if j < s.len() {
                assert(rest.subrange(j - i, j - i + 1) =~= seq!['/']);
                crate::text::lemma_find_from_is(rest, seq!['/'], 0, (j - i) as int);
                assert(crate::slug::find_char(rest, '/') == Some((j - i) as int));
                assert(rest.subrange(0, j - i) =~= s@.subrange(i as int, j as int));
                assert(rest.subrange(j - i + 1, rest.len() as int) =~= s@.subrange(
                    j + 1,
                    s@.len() as int,
                ));
            } else {
                assert forall|k: int| 0 <= k implies !occurs_at(rest, k, seq!['/']) by {
                    if k < j - i {
                    }
                }
                crate::text::lemma_find_from_none(rest, seq!['/'], 0);
                assert(crate::slug::find_char(rest, '/') is None);
                assert(rest =~= s@.subrange(i as int, j as int));
            }
        }
        let ghost pre = r@;
        if j > i {
            let part = sub_vec(s, i, j);
            r.push(part);
            proof {
                assert(vviews(r@) =~= vviews(pre).push(part@));
            }
        }
        if j < s.len() {
            proof {
                if j > i {
                    assert(vviews(pre).push(s@.subrange(i as int, j as int)) + parts_of(
                        s@.subrange(j + 1, s@.len() as int),
                    ) =~= vviews(pre) + (seq![s@.subrange(i as int, j as int)] + parts_of(
                        s@.subrange(j + 1, s@.len() as int),
                    )));
                } else {
                    assert(vviews(pre) + (Seq::<Seq<char>>::empty() + parts_of(
                        s@.subrange(j + 1, s@.len() as int),
                    )) =~= vviews(pre) + parts_of(s@.subrange(j + 1, s@.len() as int)));
                }
            }
            i = j + 1;
        } else {
            proof {
                assert(parts_of(s@.subrange(j as int, s@.len() as int)) =~= Seq::<
                    Seq<char>,
                >::empty());
                if j > i {
                    assert(vviews(r@) + Seq::<Seq<char>>::empty() =~= vviews(pre) + seq![
                        s@.subrange(i as int, j as int),
                    ]);
                } else {
                    assert(vviews(r@) + Seq::<Seq<char>>::empty() =~= vviews(pre) + Seq::<
                        Seq<char>,
                    >::empty());
                }
            }
            i = j;
        }
    }
    proof {
        assert(parts_of(s@.subrange(i as int, s@.len() as int)) =~= Seq::<Seq<char>>::empty());
        assert(vviews(r@) + Seq::<Seq<char>>::empty() =~= vviews(r@));
    }
    r
}

fn join_parts_exec(parts: &Vec<Vec<char>>) -> (r: Vec<char>)
    ensures
        r@ == join_parts(vviews(parts@)),
{
    let mut r: Vec<char> = Vec::new();
    let mut i: usize = 0;
    while i < parts.len()
        invariant
            i <= parts.len(),
            r@ == join_parts(vviews(parts@).subrange(0, i as int)),
        decreases parts.len() - i,
    {
        let ghost pre = r@;
        if i > 0 {
            r.push('/');
        }
        let p = &parts[i];
        let mut k: usize = 0;
        let ghost mid = r@;
        while k < p.len()
            invariant
                k <= p.len(),
                r@ == mid + p@.subrange(0, k as int),
            decreases p.len() - k,
        {
            r.push(p[k]);
            k += 1;
            assert(r@ =~= mid + p@.subrange(0, k as int));
        }
        proof {
            let ps = vviews(parts@).subrange(0, i + 1);
            assert(ps.drop_last() =~= vviews(parts@).subrange(0, i as int));
            assert(ps.last() == p@);
            assert(p@.subrange(0, p@.len() as int) =~= p@);
            if i == 0 {
                assert(r@ =~= p@);
            } else {
                assert(r@ =~= pre + seq!['/'] + p@);
            }
        }
        i += 1;
    }
    proof {
        assert(vviews(parts@).subrange(0, parts@.len() as int) =~= vviews(parts@));
    }
    r
}

pub proof fn lemma_prefix_at(d: Seq<char>, p: int, x: Seq<char>)
    requires
        0 <= p <= d.len(),
    ensures
        has_prefix(d.subrange(p, d.len() as int), x) == occurs_at(d, p, x),
{
    let rest = d.subrange(p, d.len() as int);
    if x.len() <= rest.len() {
        assert(rest.subrange(0, x.len() as int) =~= d.subrange(p, p + x.len()));
    }
}

/// Resolve a CommonMark destination against the source page's directory (see
/// `normalize_dest`).
fn normalize_commonmark_dest(dest: &[char], source_dir: &[char]) -> (r: Vec<char>)
    ensures
        r@ == normalize_dest(dest@, source_dir@),
{
    let md_v = vec!['.', 'm', 'd'];
    assert(md_v@ =~= md_suffix());
    let n = dest.len();
    let is_md = n >= 3 && occurs_at_exec(dest, n - 3, &md_v);
    proof {
        if n >= 3 {
            assert(dest@.subrange(n - 3, n as int) =~= dest@.subrange(dest@.len() - 3, dest@.len() as int));
        }
    }
    let d_end = if is_md { n - 3 } else { n };
    let d = sub_vec(dest, 0, d_end);
    proof {
        if !is_md {
            assert(d@ =~= dest@);
        }
    }
    let ds = chars2('.', '/');
    let dds = vec!['.', '.', '/'];
    assert(dds@ =~= dotdot_slash());
    let dd = chars2('.', '.');
    let rel = occurs_at_exec(&d, 0, &ds) || occurs_at_exec(&d, 0, &dds) || crate::text::chars_eq(
        &d,
        &dd,
    );
    proof {
        lemma_prefix_at(d@, 0, dot_slash());
        lemma_prefix_at(d@, 0, dotdot_slash());
        assert(d@.subrange(0, d@.len() as int) =~= d@);
    }
    if !rel {
        return d;
    }
    let mut parts = parts_exec(source_dir);
    let mut p: usize = 0;
    let mut rest_empty = false;
    proof {
        assert(d@.subrange(0, d@.len() as int) =~= d@);
    }
    loop
        invariant_except_break
            p <= d.len(),
            !rest_empty,
            ds@ == dot_slash(),
            dds@ == dotdot_slash(),
            walk(parts_of(source_dir@), d@) == walk(vviews(parts@), d@.subrange(p as int, d@.len() as int)),
        ensures
            p <= d.len(),
            rest_empty || (p < d.len() && !has_prefix(d@.subrange(p as int, d@.len() as int), dot_slash())
                && !has_prefix(d@.subrange(p as int, d@.len() as int), dotdot_slash())) || p == d.len(),
            walk(parts_of(source_dir@), d@) == (vviews(parts@), if rest_empty {
                Seq::<char>::empty()
            } else {
                d@.subrange(p as int, d@.len() as int)
            }),
        decreases d.len() - p,
    {
        let ghost rest = d@.subrange(p as int, d@.len() as int);
        proof {
            lemma_prefix_at(d@, p as int, dot_slash());
            lemma_prefix_at(d@, p as int, dotdot_slash());
        }
        if occurs_at_exec(&d, p, &ds) {
            proof {
                assert(rest.subrange(2, rest.len() as int) =~= d@.subrange(p + 2, d@.len() as int));
            }
            p += 2;
        } else if occurs_at_exec(&d, p, &dds) {
            let ghost pre = vviews(parts@);
            if parts.len() > 0 {
                parts.pop();
                proof {
                    assert(vviews(parts@) =~= pre.drop_last());
                }
            }
            proof {
                assert(rest.subrange(3, rest.len() as int) =~= d@.subrange(p + 3, d@.len() as int));
            }
            p += 3;
        } else {
            let is_dd = d.len() - p == 2 && d[p] == '.' && d[p + 1] == '.';
            proof {
                if is_dd {
                    assert(rest =~= dotdot());
                } else {
                    if rest.len() == 2 {
                        assert(rest[0] == d@[p as int]);
                        assert(rest[1] == d@[p + 1]);
                    }
                    assert(rest != dotdot());
                }
            }
            if is_dd {
                let ghost pre = vviews(parts@);
                if parts.len() > 0 {
                    parts.pop();
                    proof {
                        assert(vviews(parts@) =~= pre.drop_last());
                    }
                }
                rest_empty = true;
            }
            break;
        }
    }
    let prefix = join_parts_exec(&parts);
    if rest_empty || p == d.len() {
        proof {
            if p == d.len() {
                assert(d@.subrange(p as int, d@.len() as int) =~= Seq::<char>::empty());
            }
        }
        return prefix;
    }
    if prefix.len() == 0 {
        return sub_vec(&d, p, d.len());
    }
    let mut out = prefix;
    out.push('/');
    let tail = sub_vec(&d, p, d.len());
    let mut k: usize = 0;
    let ghost mid = out@;
    while k < tail.len()
        invariant
            k <= tail.len(),
            out@ == mid + tail@.subrange(0, k as int),
        decreases tail.len() - k,
    {
        out.push(tail[k]);
        k += 1;
        assert(out@ =~= mid + tail@.subrange(0, k as int));
    }
    assert(tail@.subrange(0, tail@.len() as int) =~= tail@);
    out
}

/// The destination of a link: trimmed, and cut at the first `#` (then trimmed again).
pub open spec fn dest_of(raw: Seq<char>) -> Seq<char> {
    let d = trim(raw);
    match crate::slug::find_char(d, '#') {
        Some(h) => trim(d.subrange(0, h)),
        None => d,
    }
}

pub open spec fn http() -> Seq<char> {
    seq!['h', 't', 't', 'p', ':', '/', '/']
}

pub open spec fn https() -> Seq<char> {
    seq!['h', 't', 't', 'p', 's', ':', '/', '/']
}

pub open spec fn mailto() -> Seq<char> {
    seq!['m', 'a', 'i', 'l', 't', 'o', ':']
}

/// A destination that names a page: non-empty, not an external URL, mail link or
/// pure anchor.
pub open spec fn dest_ok(d: Seq<char>) -> bool {
    d.len() > 0 && !has_prefix(d, http()) && !has_prefix(d, https()) && !has_prefix(d, mailto())
        && d[0] != '#'
}

/// The raw link for a destination, resolved against the source directory if given.
pub open spec fn dest_raw(d: Seq<char>, source_dir: Option<Seq<char>>) -> Seq<char> {
    match source_dir {
        Some(dir) => normalize_dest(d, dir),
        None => d,
    }
}

/// CommonMark link destinations found scanning `t` from `i`, in order, excluding
/// image links and destinations that do not name a page.
pub open spec fn cm_links_from(t: Seq<char>, i: int, source_dir: Option<Seq<char>>) -> Seq<
    Seq<char>,
>
    decreases t.len() + 2 - i,
{
    if i < 0 {
        Seq::empty()
    } else {
        match find_from(t, mid(), i) {
            None => Seq::empty(),
            Some(b) => {
                proof {
                    lemma_find_from(t, mid(), i);
                }
                match rfind_char(t.subrange(i, b), '[') {
                    Some(o) => match find_from(t, seq![')'], b + 2) {
                        Some(c) => {
                            proof {
                                lemma_find_from(t, seq![')'], b + 2);
                            }
                            let is_image = o > 0 && t[i + o - 1] == '!';
                            let d = dest_of(t.subrange(b + 2, c));
                            let rest = cm_links_from(t, c + 1, source_dir);
                            if !is_image && dest_ok(d) {
                                seq![dest_raw(d, source_dir)] + rest
                            } else {
                                rest
                            }
                        },
                        None => cm_links_from(t, b + 2, source_dir),
                    },
                    None => cm_links_from(t, b + 2, source_dir),
                }
            },
        }
    }
}

fn has_prefix_exec(d: &[char], x: &[char]) -> (r: bool)
    ensures
        r == has_prefix(d@, x@),
{
    proof {
        lemma_prefix_at(d@, 0, x@);
        assert(d@.subrange(0, d@.len() as int) =~= d@);
    }
    occurs_at_exec(d, 0, x)
}

fn dest_exec(raw: &[char]) -> (r: Vec<char>)
    ensures
        r@ == dest_of(raw@),
{
    let (a, b) = trim_bounds(raw);
    let d = sub_vec(raw, a, b);
    let hash = vec!['#'];
    proof {
        assert(hash@ =~= seq!['#']);
        lemma_find_from(d@, seq!['#'], 0);
    }
    match find_from_exec(&d, &hash, 0) {
        Some(h) => {
            let cut = sub_vec(&d, 0, h);
            let (a2, b2) = trim_bounds(&cut);
            sub_vec(&cut, a2, b2)
        },
        None => d,
    }
}

fn dest_ok_exec(d: &[char]) -> (r: bool)
    ensures
        r == dest_ok(d@),
{
    let h1 = vec!['h', 't', 't', 'p', ':', '/', '/'];
    let h2 = vec!['h', 't', 't', 'p', 's', ':', '/', '/'];
    let m = vec!['m', 'a', 'i', 'l', 't', 'o', ':'];
    assert(h1@ =~= http());
    assert(h2@ =~= https());
    assert(m@ =~= mailto());
    d.len() > 0 && !has_prefix_exec(d, &h1) && !has_prefix_exec(d, &h2) && !has_prefix_exec(d, &m)
        && d[0] != '#'
}

/// The CommonMark link destinations of `t` (see `cm_links_from`).
fn cm_candidates(t: &[char], source_dir: Option<&[char]>) -> (r: Vec<Vec<char>>)
    ensures
        vviews(r@) == cm_links_from(
            t@,
            0,
            match source_dir {
                Some(d) => Some(d@),
                None => None,
            },
        ),
{
    let ghost sd = match source_dir {
        Some(d) => Some(d@),
        None => None::<Seq<char>>,
    };
    let md = chars2(']', '(');
    let close = vec![')'];
    assert(close@ =~= seq![')']);
    let mut r: Vec<Vec<char>> = Vec::new();
    let mut i: usize = 0;
    while i <= t.len()
        invariant
            vviews(r@) + cm_links_from(t@, i as int, sd) == cm_links_from(t@, 0, sd),
            md@ == mid(),
            close@ == seq![')'],
            sd == match source_dir {
                Some(d) => Some(d@),
                None => None::<Seq<char>>,
            },
        decreases t.len() + 2 - i,
    {
        proof {
            lemma_find_from(t@, mid(), i as int);
        }
        let b = match find_from_exec(t, &md, i) {
            Some(b) => b,
            None => {
                proof {
                    assert(vviews(r@) + Seq::<Seq<char>>::empty() =~= vviews(r@));
                }
                return r;
            },
        };
        proof {
            lemma_rfind_char(t@.subrange(i as int, b as int), '[');
        }
        let before = sub_vec(t, i, b);
        proof {
            assert(before@.subrange(0, before@.len() as int) =~= before@);
        }
        match rfind_char_exec(&before, before.len(), '[') {
            Some(o) => {
                proof {
                    lemma_find_from(t@, seq![')'], b + 2);
                }
                match find_from_exec(t, &close, b + 2) {
                    Some(c) => {
                        let is_image = o > 0 && t[i + o - 1] == '!';
                        let inner = sub_vec(t, b + 2, c);
                        let d = dest_exec(&inner);
                        let ghost pre = r@;
                        if !is_image && dest_ok_exec(&d) {
                            let raw = match source_dir {
                                Some(dir) => normalize_commonmark_dest(&d, dir),
                                None => d,
                            };
                            r.push(raw);
                            proof {
                                assert(vviews(r@) =~= vviews(pre).push(raw@));
                                assert(vviews(pre).push(raw@) + cm_links_from(t@, c + 1, sd)
                                    =~= vviews(pre) + (seq![raw@] + cm_links_from(t@, c + 1, sd)));
                            }
                        }
                        i = c + 1;
                    },
                    None => {
                        i = b + 2;
                    },
                }
            },
            None => {
                i = b + 2;
            },
        }
    }
    proof {
        assert(cm_links_from(t@, i as int, sd) =~= Seq::<Seq<char>>::empty()) by {
            lemma_find_from(t@, mid(), i as int);
        }
        assert(vviews(r@) + Seq::<Seq<char>>::empty() =~= vviews(r@));
    }
    r
}

// ── Public extraction ────────────────────────────────────────────────────────

/// The view of an optional string slice.
pub open spec fn dir_view(o: Option<&str>) -> Option<Seq<char>> {
    match o {
        Some(s) => Some(s@),
        None => None,
    }
}

/// Body link extraction: given what has been seen, the new `seen` and the links
/// added — first the `[[wikilinks]]`, then the slug portion of each CommonMark
/// destination, each only when its slug was not seen before.
pub open spec fn body_links(seen: Seq<Seq<char>>, t: Seq<char>, dir: Option<Seq<char>>) -> (Seq<
    Seq<char>,
>, Seq<Seq<char>>) {
    let (s1, a1) = dedup(seen, wikilinks_from(t, 0));
    let (s2, a2) = dedup(s1, cm_links_from(t, 0, dir).map_values(|s: Seq<char>| raw_of(s)));
    (s2, a1 + a2)
}

/// Deduplicating a concatenation is deduplicating its first part, then its
/// second part against what the first left seen.
pub proof fn lemma_dedup_concat(seen: Seq<Seq<char>>, a: Seq<Seq<char>>, b: Seq<Seq<char>>)
    ensures
        dedup(seen, a + b) == ({
            let (s1, a1) = dedup(seen, a);
            let (s2, a2) = dedup(s1, b);
            (s2, a1 + a2)
        }),
    decreases b.len(),
{
    if b.len() == 0 {
        assert(a + b =~= a);
        let (s1, a1) = dedup(seen, a);
        assert(a1 + Seq::<Seq<char>>::empty() =~= a1);
    } else {
        let u = b.drop_last();
        lemma_dedup_concat(seen, a, u);
        assert((a + b).drop_last() =~= a + u);
        assert((a + b).last() == b.last());
        let (s1, a1) = dedup(seen, a);
        let (s2, a2) = dedup(s1, u);
        assert((a1 + a2).push(b.last()) =~= a1 + a2.push(b.last()));
    }
}

/// Deduplicating what was already deduplicated changes nothing: the first
/// occurrences of the first occurrences of `x` are those of `x`.
pub proof fn lemma_dedup_dedup(seen: Seq<Seq<char>>, x: Seq<Seq<char>>)
    ensures
        dedup(seen, dedup(Seq::empty(), x).1) == dedup(seen, x),
    decreases x.len(),
{
    if x.len() > 0 {
        let u = x.drop_last();
        let c = x.last();
        lemma_dedup_dedup(seen, u);
        law_dedup(Seq::empty(), u);
        law_dedup(seen, u);
        let (s1, a1) = dedup(Seq::<Seq<char>>::empty(), u);
        assert(Seq::<Seq<char>>::empty() + a1 =~= a1);
        assert(s1 == a1);
        let (t1, b1) = dedup(seen, u);
        if a1.contains(c) {
            let k = choose|k: int| 0 <= k < a1.len() && a1[k] == c;
            assert(a1.contains(a1[k]));
            lemma_dedup_added_from(Seq::empty(), u, c);
            let j = choose|j: int| 0 <= j < u.len() && u[j] == c;
            assert(t1.contains(u[j]));
        } else {
            assert forall|j: int| 0 <= j < u.len() implies u[j] != c by {
                assert(s1.contains(u[j]));
            }
            lemma_dedup_added_from(seen, u, c);
            assert(a1.push(c).drop_last() =~= a1);
            assert(a1.push(c).last() == c);
        }
    }
}

/// Every link that deduplication adds is one of its candidates; one that
/// none of the candidates equals is seen afterwards only if it was before.
proof fn lemma_dedup_added_from(seen: Seq<Seq<char>>, cands: Seq<Seq<char>>, c: Seq<char>)
    ensures
        dedup(seen, cands).1.contains(c) ==> exists|j: int| 0 <= j < cands.len() && cands[j] == c,
        (forall|j: int| 0 <= j < cands.len() ==> cands[j] != c) ==> (dedup(seen, cands).0.contains(c)
            <==> seen.contains(c)),
    decreases cands.len(),
{
    law_dedup(seen, cands);
    if cands.len() > 0 {
        let u = cands.drop_last();
        lemma_dedup_added_from(seen, u, c);
        let (s1, a1) = dedup(seen, u);
        if dedup(seen, cands).1.contains(c) {
            if a1.contains(c) {
                let j = choose|j: int| 0 <= j < u.len() && u[j] == c;
                assert(cands[j] == c);
            } else {
                assert(cands[cands.len() - 1] == c);
            }
        }
        if forall|j: int| 0 <= j < cands.len() ==> cands[j] != c {
            assert forall|j: int| 0 <= j < u.len() implies u[j] != c by {
                assert(cands[j] == u[j]);
            }
            let x = cands[cands.len() - 1];
            assert(x != c);
            if !s1.contains(x) {
                if s1.push(x).contains(c) {
                    let k = choose|k: int| 0 <= k < s1.push(x).len() && s1.push(x)[k] == c;
                    assert(k < s1.len());
                    assert(s1[k] == c);
                }
                if s1.contains(c) {
                    let k = choose|k: int| 0 <= k < s1.len() && s1[k] == c;
                    assert(s1.push(x)[k] == c);
                }
            }
        }
    }
}

/// The links of a page are the first occurrences, in order, of its `sources`,
/// then its `concepts`, then its body's `[[wikilinks]]` and then the slug parts
/// of its CommonMark links; equally, the first occurrences of its `sources`,
/// `concepts` and then the body links `extract_body_wikilinks` gives.
pub proof fn law_page_links_first_occurrences(page: ParsedPage)
    ensures
        page_links(page) == dedup(
            Seq::empty(),
            frontmatter_links(page) + (wikilinks_from(page.body@, 0) + cm_links_from(
                page.body@,
                0,
                None,
            ).map_values(|s: Seq<char>| raw_of(s))),
        ).1,
        page_links(page) == dedup(
            Seq::empty(),
            frontmatter_links(page) + body_links(Seq::empty(), page.body@, None).1,
        ).1,
{
    let f = frontmatter_links(page);
    let w = wikilinks_from(page.body@, 0);
    let m = cm_links_from(page.body@, 0, None).map_values(|s: Seq<char>| raw_of(s));
    lemma_dedup_concat(Seq::empty(), f, w + m);
    let (s1, a1) = dedup(Seq::empty(), f);
    lemma_dedup_concat(s1, w, m);
    let (t1, b1) = dedup(s1, w);
    assert(a1 + (b1 + dedup(t1, m).1) =~= (a1 + b1) + dedup(t1, m).1);
    lemma_dedup_concat(Seq::empty(), w, m);
    law_body_links_first_occurrences(page.body@, None);
    lemma_dedup_concat(Seq::empty(), f, body_links(Seq::empty(), page.body@, None).1);
    lemma_dedup_dedup(s1, w + m);
}

/// The body links of a text are the first occurrences, in order, of its
/// `[[wikilinks]]` followed by the slug parts of its CommonMark links.
pub proof fn law_body_links_first_occurrences(t: Seq<char>, dir: Option<Seq<char>>)
    ensures
        body_links(Seq::empty(), t, dir).1 == dedup(
            Seq::empty(),
            wikilinks_from(t, 0) + cm_links_from(t, 0, dir).map_values(|s: Seq<char>| raw_of(s)),
        ).1,
{
    lemma_dedup_concat(
        Seq::empty(),
        wikilinks_from(t, 0),
        cm_links_from(t, 0, dir).map_values(|s: Seq<char>| raw_of(s)),
    );
}

/// Body links extend what was seen by exactly the links they add, and never
/// repeat a link: without repeats in `seen` there are none after.
pub proof fn law_body_links(seen: Seq<Seq<char>>, t: Seq<char>, dir: Option<Seq<char>>)
    ensures
        body_links(seen, t, dir).0 == seen + body_links(seen, t, dir).1,
        seen.no_duplicates() ==> body_links(seen, t, dir).0.no_duplicates(),
        seen.no_duplicates() ==> body_links(seen, t, dir).1.no_duplicates(),
{
    let w = wikilinks_from(t, 0);
    let m = cm_links_from(t, 0, dir).map_values(|s: Seq<char>| raw_of(s));
    law_dedup(seen, w);
    let (s1, a1) = dedup(seen, w);
    law_dedup(s1, m);
    let (s2, a2) = dedup(s1, m);
    assert(s2 =~= seen + (a1 + a2));
    if seen.no_duplicates() {
        lemma_suffix_no_dups(seen, a1 + a2);
    }
}

/// The tail of a sequence without repeats has none.
pub proof fn lemma_suffix_no_dups(a: Seq<Seq<char>>, b: Seq<Seq<char>>)
    requires
        (a + b).no_duplicates(),
    ensures
        b.no_duplicates(),
{
    assert forall|i: int, j: int| 0 <= i < b.len() && 0 <= j < b.len() && i != j implies b[i]
        != b[j] by {
        assert((a + b)[a.len() + i] == b[i]);
        assert((a + b)[a.len() + j] == b[j]);
    }
}

/// Extract `[[slug]]` patterns and CommonMark `[text](destination)` links from
/// body text, appending those not yet in `seen` to `result` (and to `seen`).
/// For CommonMark links the slug portion of the destination is appended.
pub fn extract_wikilinks(
    text: &str,
    seen: &mut Vec<String>,
    result: &mut Vec<String>,
    source_dir: Option<&str>,
)
    ensures
        views(final(seen)@) == body_links(views(old(seen)@), text@, dir_view(source_dir)).0,
        views(final(result)@) == views(old(result)@) + body_links(
            views(old(seen)@),
            text@,
            dir_view(source_dir),
        ).1,
{
    let t = to_chars(text);
    let wl = wikilink_candidates(&t);
    dedup_push(seen, result, &wl);
    let dir_chars: Option<Vec<char>> = match source_dir {
        Some(d) => Some(to_chars(d)),
        None => None,
    };
    let cm = match &dir_chars {
        Some(d) => cm_candidates(&t, Some(d.as_slice())),
        None => cm_candidates(&t, None),
    };
    proof {
        assert(match dir_chars {
            Some(d) => Some(d@),
            None => None::<Seq<char>>,
        } == dir_view(source_dir));
    }
    let slugs = slug_parts(&cm);
    dedup_push(seen, result, &slugs);
    proof {
        let (s1, a1) = dedup(views(old(seen)@), wikilinks_from(text@, 0));
        let (s2, a2) = dedup(
            s1,
            cm_links_from(text@, 0, dir_view(source_dir)).map_values(|s: Seq<char>| raw_of(s)),
        );
        assert(views(result@) =~= views(old(result)@) + (a1 + a2));
    }
}

/// Extract the body links of raw text (no frontmatter) — see `extract_wikilinks`.
pub fn extract_body_wikilinks(text: &str, source_dir: Option<&str>) -> (r: Vec<String>)
    ensures
        views(r@) == body_links(Seq::empty(), text@, dir_view(source_dir)).1,
        views(r@).no_duplicates(),
{
    proof {
        law_body_links(Seq::empty(), text@, dir_view(source_dir));
    }
    let mut seen: Vec<String> = Vec::new();
    let mut result: Vec<String> = Vec::new();
    proof {
        assert(views(seen@) =~= Seq::<Seq<char>>::empty());
    }
    extract_wikilinks(text, &mut seen, &mut result, source_dir);
    proof {
        assert(views(Seq::<String>::empty()) =~= Seq::<Seq<char>>::empty());
    }
    result
}

/// The link-bearing parts of a parsed page: the `sources` and `concepts`
/// frontmatter lists and the body.
#[derive(Debug)]
pub struct ParsedPage {
    pub sources: Vec<String>,
    pub concepts: Vec<String>,
    pub body: String,
}

impl ParsedPage {
    /// The frontmatter list stored under `key` (`sources` or `concepts`); empty
    /// for any other key.
    pub fn string_list(&self, key: &str) -> (r: &Vec<String>)
        ensures
            key@ == seq!['s', 'o', 'u', 'r', 'c', 'e', 's'] ==> r@ == self.sources@,
            key@ == seq!['c', 'o', 'n', 'c', 'e', 'p', 't', 's'] ==> r@ == self.concepts@,
    {
        let k = to_chars(key);
        let src = vec!['s', 'o', 'u', 'r', 'c', 'e', 's'];
        let con = vec!['c', 'o', 'n', 'c', 'e', 'p', 't', 's'];
        assert(src@ =~= seq!['s', 'o', 'u', 'r', 'c', 'e', 's']);
        assert(con@ =~= seq!['c', 'o', 'n', 'c', 'e', 'p', 't', 's']);
        if crate::text::chars_eq(&k, &src) {
            &self.sources
        } else {
            &self.concepts
        }
    }
}

fn chars_of_all(v: &Vec<String>, out: &mut Vec<Vec<char>>)
    ensures
        vviews(final(out)@) == vviews(old(out)@) + views(v@),
{
    let mut i: usize = 0;
    while i < v.len()
        invariant
            i <= v.len(),
            vviews(out@) == vviews(old(out)@) + views(v@).subrange(0, i as int),
        decreases v.len() - i,
    {
        let c = to_chars(v[i].as_str());
        let ghost pre = out@;
        out.push(c);
        proof {
            assert(vviews(out@) =~= vviews(pre).push(c@));
            assert(views(v@)[i as int] == c@);
        }
        i += 1;
        assert(vviews(out@) =~= vviews(old(out)@) + views(v@).subrange(0, i as int));
    }
    assert(views(v@).subrange(0, v@.len() as int) =~= views(v@));
}

/// Frontmatter links: `sources` then `concepts`.
pub open spec fn frontmatter_links(page: ParsedPage) -> Seq<Seq<char>> {
    views(page.sources@) + views(page.concepts@)
}

/// All linked slugs of a page: frontmatter `sources`, `concepts`, then body
/// links. Deduplicated, order preserved.
pub open spec fn page_links(page: ParsedPage) -> Seq<Seq<char>> {
    let (s1, a1) = dedup(Seq::empty(), frontmatter_links(page));
    a1 + body_links(s1, page.body@, None).1
}

/// Extract all linked slugs from a parsed page: frontmatter `sources`,
/// `concepts`, and body links. Deduplicated, order preserved.
pub fn extract_links(page: &ParsedPage) -> (r: Vec<String>)
    ensures
        views(r@) == page_links(*page),
        views(r@).no_duplicates(),
{
    proof {
        let (s1, a1) = dedup(Seq::empty(), frontmatter_links(*page));
        law_dedup(Seq::empty(), frontmatter_links(*page));
        assert(Seq::<Seq<char>>::empty() + a1 =~= a1);
        law_body_links(s1, page.body@, None);
        assert(page_links(*page) == body_links(s1, page.body@, None).0);
    }
    let mut result: Vec<String> = Vec::new();
    let mut seen: Vec<String> = Vec::new();
    let mut cands: Vec<Vec<char>> = Vec::new();
    chars_of_all(&page.sources, &mut cands);
    chars_of_all(&page.concepts, &mut cands);
    proof {
        assert(views(seen@) =~= Seq::<Seq<char>>::empty());
        assert(vviews(cands@) =~= frontmatter_links(*page));
    }
    dedup_push(&mut seen, &mut result, &cands);
    proof {
        assert(views(Seq::<String>::empty()) =~= Seq::<Seq<char>>::empty());
    }
    extract_wikilinks(page.body.as_str(), &mut seen, &mut result, None);
    result
}

/// The views of a sequence of links.
pub open spec fn link_views(v: Seq<ParsedLink>) -> Seq<(Option<Seq<char>>, Seq<char>)> {
    v.map_values(|l: ParsedLink| l@)
}

/// Append each candidate not yet in `seen` to `seen`, and its parsed link to `out`.
fn dedup_push_links(seen: &mut Vec<String>, out: &mut Vec<ParsedLink>, cands: &Vec<Vec<char>>)
    ensures
        views(final(seen)@) == dedup(views(old(seen)@), vviews(cands@)).0,
        link_views(final(out)@) == link_views(old(out)@) + dedup(
            views(old(seen)@),
            vviews(cands@),
        ).1.map_values(|s: Seq<char>| parse_link(s)),
{
    let ghost s0 = views(seen@);
    let ghost o0 = link_views(out@);
    let mut i: usize = 0;
    proof {
        assert(vviews(cands@).subrange(0, 0) =~= Seq::<Seq<char>>::empty());
        assert(link_views(out@) =~= o0 + Seq::<(Option<Seq<char>>, Seq<char>)>::empty());
    }
    while i < cands.len()
        invariant
            i <= cands.len(),
            views(seen@) == dedup(s0, vviews(cands@).subrange(0, i as int)).0,
            link_views(out@) == o0 + dedup(s0, vviews(cands@).subrange(0, i as int)).1.map_values(
                |s: Seq<char>| parse_link(s),
            ),
        decreases cands.len() - i,
    {
        proof {
            lemma_dedup_step(s0, vviews(cands@), i as int);
        }
        let c = &cands[i];
        let ghost pre_seen = seen@;
        let ghost pre_out = out@;
        let ghost (s1, a1) = dedup(s0, vviews(cands@).subrange(0, i as int));
        proof {
            assert(vviews(cands@)[i as int] == c@);
        }
        if !contains_chars(seen, c.as_slice()) {
            let st = from_chars(c.as_slice());
            seen.push(st);
            proof {
                assert(views(seen@) =~= views(pre_seen).push(c@));
            }
            let l = ParsedLink::parse(from_chars(c.as_slice()).as_str());
            out.push(l);
            proof {
                assert(link_views(out@) =~= link_views(pre_out).push(parse_link(c@)));
                assert(a1.push(c@).map_values(|s: Seq<char>| parse_link(s)) =~= a1.map_values(
                    |s: Seq<char>| parse_link(s),
                ).push(parse_link(c@)));
            }
        }
        i += 1;
    }
    proof {
        assert(vviews(cands@).subrange(0, cands@.len() as int) =~= vviews(cands@));
    }
}

/// Append the CommonMark destinations of `text` not yet in `seen` to `result`
/// as parsed links.
pub fn extract_commonmark_links(
    text: &str,
    seen: &mut Vec<String>,
    result: &mut Vec<ParsedLink>,
    source_dir: Option<&str>,
)
    ensures
        views(final(seen)@) == dedup(views(old(seen)@), cm_links_from(text@, 0, dir_view(source_dir))).0,
        link_views(final(result)@) == link_views(old(result)@) + dedup(
            views(old(seen)@),
            cm_links_from(text@, 0, dir_view(source_dir)),
        ).1.map_values(|s: Seq<char>| parse_link(s)),
{
    let t = to_chars(text);
    let dir_chars: Option<Vec<char>> = match source_dir {
        Some(d) => Some(to_chars(d)),
        None => None,
    };
    let cm = match &dir_chars {
        Some(d) => cm_candidates(&t, Some(d.as_slice())),
        None => cm_candidates(&t, None),
    };
    proof {
        assert(match dir_chars {
            Some(d) => Some(d@),
            None => None::<Seq<char>>,
        } == dir_view(source_dir));
    }
    dedup_push_links(seen, result, &cm);
}

/// Body link extraction as parsed links: `[[wikilinks]]` then CommonMark
/// destinations, each parsed, each only when not seen before.
pub open spec fn parsed_body_links(seen: Seq<Seq<char>>, t: Seq<char>) -> (Seq<Seq<char>>, Seq<
    (Option<Seq<char>>, Seq<char>),
>) {
    let (s1, a1) = dedup(seen, wikilinks_from(t, 0));
    let (s2, a2) = dedup(s1, cm_links_from(t, 0, None));
    (s2, (a1 + a2).map_values(|s: Seq<char>| parse_link(s)))
}

/// Append the body links of `text` not yet in `seen` to `result` as parsed links.
pub fn extract_parsed_wikilinks(text: &str, seen: &mut Vec<String>, result: &mut Vec<ParsedLink>)
    ensures
        views(final(seen)@) == parsed_body_links(views(old(seen)@), text@).0,
        link_views(final(result)@) == link_views(old(result)@) + parsed_body_links(
            views(old(seen)@),
            text@,
        ).1,
{
    let t = to_chars(text);
    let wl = wikilink_candidates(&t);
    dedup_push_links(seen, result, &wl);
    extract_commonmark_links(text, seen, result, None);
    proof {
        let (s1, a1) = dedup(views(old(seen)@), wikilinks_from(text@, 0));
        let (s2, a2) = dedup(s1, cm_links_from(text@, 0, None));
        assert((a1 + a2).map_values(|s: Seq<char>| parse_link(s)) =~= a1.map_values(
            |s: Seq<char>| parse_link(s),
        ) + a2.map_values(|s: Seq<char>| parse_link(s)));
    }
}

/// All links of a page as parsed links: frontmatter `sources`, `concepts`, then
/// body links. Deduplicated by raw text, order preserved.
pub open spec fn page_parsed_links(page: ParsedPage) -> Seq<(Option<Seq<char>>, Seq<char>)> {
    let (s1, a1) = dedup(Seq::empty(), frontmatter_links(page));
    a1.map_values(|s: Seq<char>| parse_link(s)) + parsed_body_links(s1, page.body@).1
}

/// Like `extract_links`, but classifies each link as local or cross-wiki.
pub fn extract_parsed_links(page: &ParsedPage) -> (r: Vec<ParsedLink>)
    ensures
        link_views(r@) == page_parsed_links(*page),
{
    let mut result: Vec<ParsedLink> = Vec::new();
    let mut seen: Vec<String> = Vec::new();
    let mut cands: Vec<Vec<char>> = Vec::new();
    chars_of_all(&page.sources, &mut cands);
    chars_of_all(&page.concepts, &mut cands);
    proof {
        assert(views(seen@) =~= Seq::<Seq<char>>::empty());
        assert(vviews(cands@) =~= frontmatter_links(*page));
        assert(link_views(result@) =~= Seq::<(Option<Seq<char>>, Seq<char>)>::empty());
    }
    dedup_push_links(&mut seen, &mut result, &cands);
    proof {
        assert(views(Seq::<String>::empty()) =~= Seq::<Seq<char>>::empty());
    }
    extract_parsed_wikilinks(page.body.as_str(), &mut seen, &mut result);
    result
}

/// Trimming keeps only characters of the text: a character absent from the
/// text is absent from its trimmed form.
proof fn lemma_trim_keeps_absent(s: Seq<char>, c: char)
    requires
        !s.contains(c),
    ensures
        !trim(s).contains(c),
{
    crate::text::lemma_trim_start_shape(s);
    let k = choose|k: int| 0 <= k <= s.len() && crate::text::trim_start(s) == s.subrange(k, s.len() as int);
    let t = crate::text::trim_start(s);
    crate::text::lemma_trim_end_shape(t);
    let m = choose|m: int| 0 <= m <= t.len() && crate::text::trim_end(t) == t.subrange(0, m);
    if trim(s).contains(c) {
        let j = choose|j: int| 0 <= j < trim(s).len() && trim(s)[j] == c;
        assert(trim(s)[j] == s[k + j]);
    }
}

/// A link destination is cut at its first `#`: the destination never holds a
/// `#`; without a `#` it is the trimmed text; with one, it is the trimmed text
/// before the first `#`, trimmed again.
pub proof fn law_dest_drops_anchor(raw: Seq<char>)
    ensures
        !dest_of(raw).contains('#'),
        !trim(raw).contains('#') ==> dest_of(raw) == trim(raw),
        trim(raw).contains('#') ==> exists|h: int|
            0 <= h < trim(raw).len() && trim(raw)[h] == '#' && (forall|j: int|
                0 <= j < h ==> trim(raw)[j] != '#') && dest_of(raw) == trim(trim(raw).take(h)),
{
    let d = trim(raw);
    lemma_find_from(d, seq!['#'], 0);
    match crate::slug::find_char(d, '#') {
        Some(h) => {
            assert(d.subrange(h, h + 1) =~= seq![d[h]]);
            assert(seq![d[h]][0] == seq!['#'][0]);
            assert forall|j: int| 0 <= j < h implies d[j] != '#' by {
                assert(!crate::text::occurs_at(d, j, seq!['#']));
                assert(d.subrange(j, j + 1) =~= seq![d[j]]);
                if d[j] == '#' {
                    assert(d.subrange(j, j + 1) =~= seq!['#']);
                    assert(crate::text::occurs_at(d, j, seq!['#']));
                }
            }
            assert(d.subrange(0, h) =~= d.take(h));
            assert(!d.take(h).contains('#')) by {
                if d.take(h).contains('#') {
                    let j = choose|j: int| 0 <= j < d.take(h).len() && d.take(h)[j] == '#';
                    assert(d[j] == '#');
                }
            }
            lemma_trim_keeps_absent(d.take(h), '#');
        },
        None => {
            if d.contains('#') {
                let j = choose|j: int| 0 <= j < d.len() && d[j] == '#';
                assert(d.subrange(j, j + 1) =~= seq!['#']);
                assert(crate::text::occurs_at(d, j, seq!['#']));
            }
        },
    }
}

/// Without a source directory, no CommonMark link extracted from a text holds
/// a `#`: anchors are always cut off.
pub proof fn law_cm_links_have_no_anchor(t: Seq<char>, i: int)
    ensures
        forall|k: int| 0 <= k < cm_links_from(t, i, None).len() ==> !(#[trigger] cm_links_from(t, i, None)[k]).contains('#'),
    decreases t.len() + 2 - i,
{
    if i >= 0 {
        match find_from(t, mid(), i) {
            None => {},
            Some(b) => {
                lemma_find_from(t, mid(), i);
                match rfind_char(t.subrange(i, b), '[') {
                    Some(o) => match find_from(t, seq![')'], b + 2) {
                        Some(c) => {
                            lemma_find_from(t, seq![')'], b + 2);
                            let d = dest_of(t.subrange(b + 2, c));
                            law_dest_drops_anchor(t.subrange(b + 2, c));
                            law_cm_links_have_no_anchor(t, c + 1);
                            let rest = cm_links_from(t, c + 1, None);
                            let is_image = o > 0 && t[i + o - 1] == '!';
                            assert(dest_raw(d, None) == d);
                            assert(cm_links_from(t, i, None) == if !is_image && dest_ok(d) {
                                seq![d] + rest
                            } else {
                                rest
                            });
                            if !is_image && dest_ok(d) {
                                assert forall|k: int| 0 <= k < (seq![d] + rest).len() implies !(
                                #[trigger] (seq![d] + rest)[k]).contains('#') by {
                                    if k > 0 {
                                        assert((seq![d] + rest)[k] == rest[k - 1]);
                                    }
                                }
                            }
                        },
                        None => {
                            law_cm_links_have_no_anchor(t, b + 2);
                            assert(cm_links_from(t, i, None) == cm_links_from(t, b + 2, None));
                        },
                    },
                    None => {
                        law_cm_links_have_no_anchor(t, b + 2);
                        assert(cm_links_from(t, i, None) == cm_links_from(t, b + 2, None));
                    },
                }
            },
        }
    }
}

} // verus!
