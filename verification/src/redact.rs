//! Opt-in secret redaction for page bodies. Built-in patterns cover common API
//! keys, tokens and e-mail addresses; custom patterns come from configuration.
//! Redaction is lossy by design.
use vstd::prelude::*;

use crate::config::{CustomPattern, RedactConfig};
use crate::links::views;
use crate::text::{
    bufs, find_c, from_char_range, from_chars, lines_exec, lines_of, occurs_at, push_str, str_eq,
    strip_cr, to_chars,
};

verus! {

#[verifier::external_type_specification]
#[verifier::external_body]
pub struct ExRegex(regex::Regex);

// ── Outside calls ────────────────────────────────────────────────────────────

/// Whether `regex::Regex::new` accepts the pattern.
pub uninterp spec fn regex_compiles(pattern: Seq<char>) -> bool;

/// What `regex::Regex::is_match` answers for a pattern and a haystack.
pub uninterp spec fn regex_matches(pattern: Seq<char>, text: Seq<char>) -> bool;

/// What `regex::Regex::replace_all` returns for a pattern, a haystack and a
/// replacement string.
pub uninterp spec fn regex_replace(pattern: Seq<char>, text: Seq<char>, rep: Seq<char>) -> Seq<char>;

/// Calls `regex::Regex::new`; succeeds exactly when the pattern is accepted
/// (`regex_compiles`). The error detail is dropped.
#[verifier::external_body]
fn compile(pattern: &str) -> (r: Option<regex::Regex>)
    ensures
        r is Some <==> regex_compiles(pattern@),
{
    regex::Regex::new(pattern).ok()
}

/// A compiled pattern together with its source text. Only `CompiledPattern::new`
/// builds one, from the regex compiled from `source`.
pub struct CompiledPattern {
    name: String,
    source: String,
    regex: regex::Regex,
    replacement: String,
}

impl View for CompiledPattern {
    type V = (Seq<char>, Seq<char>, Seq<char>);

    /// (name, pattern source, replacement)
    closed spec fn view(&self) -> (Seq<char>, Seq<char>, Seq<char>) {
        (self.name@, self.source@, self.replacement@)
    }
}

/// Calls `regex::Regex::is_match` on the pattern's compiled regex; the answer is
/// `regex_matches` of the pattern source and the haystack.
#[verifier::external_body]
fn pattern_matches(p: &CompiledPattern, text: &str) -> (b: bool)
    ensures
        b == regex_matches(p@.1, text@),
{
    p.regex.is_match(text)
}

/// Calls `regex::Regex::replace_all` with the pattern's replacement string; the
/// result is `regex_replace` of the pattern source, the haystack and the
/// replacement.
#[verifier::external_body]
fn pattern_replace(p: &CompiledPattern, text: &str) -> (r: String)
    ensures
        r@ == regex_replace(p@.1, text@, p@.2),
{
    p.regex.replace_all(text, p.replacement.as_str()).into_owned()
}

impl CompiledPattern {
    /// Compile `source`; `None` when the regular expression is not accepted.
    pub fn new(name: &str, source: &str, replacement: &str) -> (r: Option<CompiledPattern>)
        ensures
            r is Some <==> regex_compiles(source@),
            r matches Some(p) ==> p@ == (name@, source@, replacement@),
    {
        match compile(source) {
            Some(regex) => {
                let mut n = String::new();
                push_str(&mut n, name);
                let mut s = String::new();
                push_str(&mut s, source);
                let mut rep = String::new();
                push_str(&mut rep, replacement);
                Some(CompiledPattern { name: n, source: s, regex, replacement: rep })
            },
            None => None,
        }
    }
}

// ── Report types ─────────────────────────────────────────────────────────────

/// One substitution: the pattern that matched and the 1-based line number.
#[derive(Debug)]
pub struct RedactionMatch {
    pub pattern_name: String,
    pub line_number: usize,
}

/// All substitutions applied to a single page body.
#[derive(Debug)]
pub struct RedactionReport {
    pub slug: String,
    pub matches: Vec<RedactionMatch>,
}

/// The views of a sequence of matches.
pub open spec fn match_views(v: Seq<RedactionMatch>) -> Seq<(Seq<char>, int)> {
    v.map_values(|m: RedactionMatch| (m.pattern_name@, m.line_number as int))
}

// ── Built-in patterns ────────────────────────────────────────────────────────

/// The built-in patterns: (name, regular expression, replacement).
pub open spec fn builtin_specs() -> Seq<(Seq<char>, Seq<char>, Seq<char>)> {
    seq![
        ("github-pat"@, "ghp_[A-Za-z0-9]{36}"@, "[REDACTED:github-pat]"@),
        ("openai-key"@, "sk-[A-Za-z0-9]{48}"@, "[REDACTED:openai-key]"@),
        ("anthropic-key"@, "sk-ant-[A-Za-z0-9\\-]{90,}"@, "[REDACTED:anthropic-key]"@),
        ("aws-access-key"@, "AKIA[0-9A-Z]{16}"@, "[REDACTED:aws-access-key]"@),
        ("bearer-token"@, "Bearer [A-Za-z0-9\\-._~+/]{20,}"@, "[REDACTED:bearer-token]"@),
        (
            "email"@,
            "[a-zA-Z0-9._%+\\-]+@[a-zA-Z0-9.\\-]+\\.[a-zA-Z]{2,}"@,
            "[REDACTED:email]"@,
        ),
    ]
}

fn builtin_triples() -> (r: Vec<(&'static str, &'static str, &'static str)>)
    ensures
        r@.len() == builtin_specs().len(),
        forall|i: int|
            0 <= i < r@.len() ==> (r@[i].0@, r@[i].1@, r@[i].2@) == #[trigger] builtin_specs()[i],
{
    let r = vec![
        ("github-pat", "ghp_[A-Za-z0-9]{36}", "[REDACTED:github-pat]"),
        ("openai-key", "sk-[A-Za-z0-9]{48}", "[REDACTED:openai-key]"),
        ("anthropic-key", "sk-ant-[A-Za-z0-9\\-]{90,}", "[REDACTED:anthropic-key]"),
        ("aws-access-key", "AKIA[0-9A-Z]{16}", "[REDACTED:aws-access-key]"),
        ("bearer-token", "Bearer [A-Za-z0-9\\-._~+/]{20,}", "[REDACTED:bearer-token]"),
        ("email", "[a-zA-Z0-9._%+\\-]+@[a-zA-Z0-9.\\-]+\\.[a-zA-Z]{2,}", "[REDACTED:email]"),
    ];
    r
}

/// The patterns in force: built-ins whose name is not disabled, then custom
/// patterns, each only when its regular expression compiles.
pub open spec fn active_patterns(
    builtins: Seq<(Seq<char>, Seq<char>, Seq<char>)>,
    disabled: Seq<Seq<char>>,
    customs: Seq<(Seq<char>, Seq<char>, Seq<char>)>,
) -> Seq<(Seq<char>, Seq<char>, Seq<char>)> {
    builtins.filter(|p: (Seq<char>, Seq<char>, Seq<char>)| !disabled.contains(p.0) && regex_compiles(p.1))
        + customs.filter(|p: (Seq<char>, Seq<char>, Seq<char>)| regex_compiles(p.1))
}

/// The views of the custom patterns of a configuration.
pub open spec fn custom_views(v: Seq<CustomPattern>) -> Seq<(Seq<char>, Seq<char>, Seq<char>)> {
    v.map_values(|c: CustomPattern| (c.name@, c.pattern@, c.replacement@))
}

/// The views of compiled patterns.
pub open spec fn pattern_views(v: Seq<CompiledPattern>) -> Seq<(Seq<char>, Seq<char>, Seq<char>)> {
    v.map_values(|p: CompiledPattern| p@)
}

fn contains_str(v: &Vec<String>, s: &str) -> (r: bool)
    ensures
        r == views(v@).contains(s@),
{
    let mut i: usize = 0;
    while i < v.len()
        invariant
            i <= v.len(),
            forall|j: int| 0 <= j < i ==> v@[j]@ != s@,
        decreases v.len() - i,
    {
        if str_eq(v[i].as_str(), s) {
            assert(views(v@)[i as int] == s@);
            return true;
        }
        i += 1;
    }
    proof {
        if views(v@).contains(s@) {
            let j = choose|j: int| 0 <= j < views(v@).len() && views(v@)[j] == s@;
            assert(v@[j]@ == s@);
        }
    }
    false
}

/// Compile the patterns in force for a configuration (see `active_patterns`).
pub fn build_patterns(config: &RedactConfig) -> (r: Vec<CompiledPattern>)
    ensures
        pattern_views(r@) == active_patterns(
            builtin_specs(),
            views(config.disable@),
            custom_views(config.patterns@),
        ),
{
    let ghost disabled = views(config.disable@);
    let ghost keep_b = |p: (Seq<char>, Seq<char>, Seq<char>)|
        !disabled.contains(p.0) && regex_compiles(p.1);
    let ghost keep_c = |p: (Seq<char>, Seq<char>, Seq<char>)| regex_compiles(p.1);
    let b = builtin_triples();
    let mut r: Vec<CompiledPattern> = Vec::new();
    let mut i: usize = 0;
    proof {
        assert(builtin_specs().take(0).filter(keep_b) =~= Seq::empty()) by {
            reveal_with_fuel(Seq::filter, 1);
        }
    }
    while i < b.len()
        invariant
            i <= b.len(),
            b@.len() == builtin_specs().len(),
            forall|k: int|
                0 <= k < b@.len() ==> (b@[k].0@, b@[k].1@, b@[k].2@) == #[trigger] builtin_specs()[k],
            disabled == views(config.disable@),
            keep_b == (|p: (Seq<char>, Seq<char>, Seq<char>)|
                !disabled.contains(p.0) && regex_compiles(p.1)),
            pattern_views(r@) == builtin_specs().take(i as int).filter(keep_b),
        decreases b.len() - i,
    {
        let (name, src, rep) = b[i];
        let ghost pre = r@;
        proof {
            assert(builtin_specs().take(i + 1).drop_last() =~= builtin_specs().take(i as int));
            reveal_with_fuel(Seq::filter, 1);
        }
        if !contains_str(&config.disable, name) {
            match CompiledPattern::new(name, src, rep) {
                Some(p) => {
                    r.push(p);
                    proof {
                        assert(pattern_views(r@) =~= pattern_views(pre).push(builtin_specs()[i as int]));
                    }
                },
                None => {},
            }
        }
        i += 1;
    }
    proof {
        assert(builtin_specs().take(b@.len() as int) =~= builtin_specs());
    }
    let ghost nb = pattern_views(r@);
    let mut j: usize = 0;
    proof {
        assert(custom_views(config.patterns@).take(0).filter(keep_c) =~= Seq::empty()) by {
            reveal_with_fuel(Seq::filter, 1);
        }
        assert(pattern_views(r@) =~= nb + custom_views(config.patterns@).take(0).filter(keep_c));
    }
    while j < config.patterns.len()
        invariant
            j <= config.patterns.len(),
            keep_c == (|p: (Seq<char>, Seq<char>, Seq<char>)| regex_compiles(p.1)),
            pattern_views(r@) == nb + custom_views(config.patterns@).take(j as int).filter(keep_c),
        decreases config.patterns.len() - j,
    {
        let c = &config.patterns[j];
        let ghost pre = r@;
        proof {
            assert(custom_views(config.patterns@).take(j + 1).drop_last() =~= custom_views(
                config.patterns@,
            ).take(j as int));
            reveal_with_fuel(Seq::filter, 1);
            assert(custom_views(config.patterns@)[j as int] == (c.name@, c.pattern@, c.replacement@));
        }
        match CompiledPattern::new(c.name.as_str(), c.pattern.as_str(), c.replacement.as_str()) {
            Some(p) => {
                r.push(p);
                proof {
                    assert(pattern_views(r@) =~= pattern_views(pre).push(
                        custom_views(config.patterns@)[j as int],
                    ));
                }
            },
            None => {},
        }
        j += 1;
    }
    proof {
        assert(custom_views(config.patterns@).take(config.patterns@.len() as int) =~= custom_views(
            config.patterns@,
        ));
    }
    r
}

// ── Core redaction ───────────────────────────────────────────────────────────

/// Apply the patterns in order to one line: each pattern that matches the
/// current text replaces all its matches. The redacted line and the names of
/// the patterns that matched.
pub open spec fn apply_patterns(pats: Seq<(Seq<char>, Seq<char>, Seq<char>)>, line: Seq<char>) -> (
    Seq<char>,
    Seq<Seq<char>>,
)
    decreases pats.len(),
{
    if pats.len() == 0 {
        (line, Seq::empty())
    } else {
        let (cur, names) = apply_patterns(pats.drop_last(), line);
        let p = pats.last();
        if regex_matches(p.1, cur) {
            (regex_replace(p.1, cur, p.2), names.push(p.0))
        } else {
            (cur, names)
        }
    }
}

/// Redact each line, terminating each with `\n`; the matches carry 1-based
/// line numbers.
pub open spec fn redact_lines(pats: Seq<(Seq<char>, Seq<char>, Seq<char>)>, lines: Seq<Seq<char>>) -> (
    Seq<char>,
    Seq<(Seq<char>, int)>,
)
    decreases lines.len(),
{
    if lines.len() == 0 {
        (Seq::empty(), Seq::empty())
    } else {
        let (t, m) = redact_lines(pats, lines.drop_last());
        let (l2, names) = apply_patterns(pats, lines.last());
        (t + l2 + seq!['\n'], m + names.map_values(|n: Seq<char>| (n, lines.len() as int)))
    }
}

/// Redaction of a body: line by line, keeping a final newline only when the
/// body has one.
pub open spec fn redact_text(pats: Seq<(Seq<char>, Seq<char>, Seq<char>)>, body: Seq<char>) -> (
    Seq<char>,
    Seq<(Seq<char>, int)>,
) {
    let (t, m) = redact_lines(pats, lines_of(body));
    let ends_nl = body.len() > 0 && body.last() == '\n';
    (if !ends_nl && t.len() > 0 && t.last() == '\n' {
        t.drop_last()
    } else {
        t
    }, m)
}

/// Redact secrets from `body` (never frontmatter) with the patterns in force for
/// `config`. Returns the redacted body and the matches (pattern name and 1-based
/// line number), in line order and, within a line, in pattern order.
pub fn redact_body(body: &str, config: &RedactConfig) -> (r: (String, Vec<RedactionMatch>))
    ensures
        (r.0@, match_views(r.1@)) == redact_text(
            active_patterns(builtin_specs(), views(config.disable@), custom_views(config.patterns@)),
            body@,
        ),
{
    let patterns = build_patterns(config);
    let ghost pats = pattern_views(patterns@);
    let cs = to_chars(body);
    let lines = lines_exec(&cs);
    let mut matches: Vec<RedactionMatch> = Vec::new();
    let mut result = String::new();
    let mut li: usize = 0;
    proof {
        assert(bufs(lines@).take(0) =~= Seq::<Seq<char>>::empty());
        assert(match_views(matches@) =~= Seq::<(Seq<char>, int)>::empty());
    }
    while li < lines.len()
        invariant
            li <= lines.len(),
            pats == pattern_views(patterns@),
            (result@, match_views(matches@)) == redact_lines(pats, bufs(lines@).take(li as int)),
        decreases lines.len() - li,
    {
        let line_number = li + 1;
        let mut current = from_chars(lines[li].as_slice());
        let ghost line = lines@[li as int]@;
        let ghost m0 = match_views(matches@);
        let ghost mut names: Seq<Seq<char>> = Seq::empty();
        let mut pi: usize = 0;
        proof {
            assert(pats.take(0) =~= Seq::<(Seq<char>, Seq<char>, Seq<char>)>::empty());
        }
        while pi < patterns.len()
            invariant
                pi <= patterns.len(),
                pats == pattern_views(patterns@),
                line_number == li + 1,
                (current@, names) == apply_patterns(pats.take(pi as int), line),
                match_views(matches@) == m0 + names.map_values(|n: Seq<char>| (n, line_number as int)),
            decreases patterns.len() - pi,
        {
            let pat = &patterns[pi];
            proof {
                assert(pats.take(pi + 1).drop_last() =~= pats.take(pi as int));
                assert(pats[pi as int] == pat@);
            }
            if pattern_matches(pat, current.as_str()) {
                let ghost pre = matches@;
                matches.push(RedactionMatch { pattern_name: pat.name.clone(), line_number });
                current = pattern_replace(pat, current.as_str());
                proof {
                    assert(pat@.0 == pat.name@);
                    names = names.push(pat@.0);
                    assert(match_views(matches@) =~= match_views(pre).push((pat@.0, line_number as int)));
                    assert(match_views(matches@) =~= m0 + names.map_values(
                        |n: Seq<char>| (n, line_number as int),
                    ));
                }
            }
            pi += 1;
        }
        proof {
            assert(pats.take(patterns@.len() as int) =~= pats);
            assert(bufs(lines@).take(li + 1).drop_last() =~= bufs(lines@).take(li as int));
            assert(bufs(lines@).take(li + 1).last() == line);
        }
        let ghost pre_res = result@;
        push_str(&mut result, current.as_str());
        result.push('\n');
        proof {
            assert(result@ =~= pre_res + current@ + seq!['\n']);
        }
        li += 1;
    }
    proof {
        assert(bufs(lines@).take(lines@.len() as int) =~= bufs(lines@));
    }
    let ends_nl = cs.len() > 0 && cs[cs.len() - 1] == '\n';
    let rc = to_chars(result.as_str());
    if !ends_nl && rc.len() > 0 && rc[rc.len() - 1] == '\n' {
        let trimmed = crate::text::from_char_range(&rc, 0, rc.len() - 1);
        proof {
            assert(rc@.subrange(0, rc@.len() - 1) =~= result@.drop_last());
        }
        return (trimmed, matches);
    }
    (result, matches)
}

// ── Error messages ───────────────────────────────────────────────────────────

/// Absolute Unix paths (`/` and at least three path characters) and
/// tilde-prefixed paths (`~` and at least two).
pub open spec fn path_pattern() -> Seq<char> {
    "(?:/[a-zA-Z0-9_./-]{3,}|~[a-zA-Z0-9_./~-]{2,})"@
}

/// Replace filesystem paths in an error message with `<path>` before it is sent
/// to a client.
pub fn redact_error(message: &str) -> (r: String)
    ensures
        regex_compiles(path_pattern()) ==> r@ == regex_replace(path_pattern(), message@, "<path>"@),
        !regex_compiles(path_pattern()) ==> r@ == message@,
{
    let pattern = "(?:/[a-zA-Z0-9_./-]{3,}|~[a-zA-Z0-9_./~-]{2,})";
    match CompiledPattern::new("path", pattern, "<path>") {
        Some(p) => pattern_replace(&p, message),
        None => {
            let mut m = String::new();
            push_str(&mut m, message);
            m
        },
    }
}

// ── Laws ─────────────────────────────────────────────────────────────────────

/// Lines each followed by `\n`, joined.
pub open spec fn joined_lines(lines: Seq<Seq<char>>) -> Seq<char>
    decreases lines.len(),
{
    if lines.len() == 0 {
        Seq::empty()
    } else {
        joined_lines(lines.drop_last()) + lines.last() + seq!['\n']
    }
}

proof fn lemma_apply_unmatched(pats: Seq<(Seq<char>, Seq<char>, Seq<char>)>, line: Seq<char>)
    requires
        forall|i: int| 0 <= i < pats.len() ==> !regex_matches(#[trigger] pats[i].1, line),
    ensures
        apply_patterns(pats, line) == (line, Seq::<Seq<char>>::empty()),
    decreases pats.len(),
{
    if pats.len() > 0 {
        let u = pats.drop_last();
        assert forall|i: int| 0 <= i < u.len() implies !regex_matches(#[trigger] u[i].1, line) by {
            assert(u[i] == pats[i]);
        }
        lemma_apply_unmatched(u, line);
        assert(!regex_matches(pats[pats.len() - 1].1, line));
    }
}

proof fn lemma_redact_lines_unmatched(
    pats: Seq<(Seq<char>, Seq<char>, Seq<char>)>,
    lines: Seq<Seq<char>>,
)
    requires
        forall|i: int, j: int|
            0 <= i < pats.len() && 0 <= j < lines.len() ==> !regex_matches(
                #[trigger] pats[i].1,
                #[trigger] lines[j],
            ),
    ensures
        redact_lines(pats, lines) == (joined_lines(lines), Seq::<(Seq<char>, int)>::empty()),
    decreases lines.len(),
{
    if lines.len() > 0 {
        let u = lines.drop_last();
        assert forall|i: int, j: int| 0 <= i < pats.len() && 0 <= j < u.len() implies !regex_matches(
            #[trigger] pats[i].1,
            #[trigger] u[j],
        ) by {
            assert(u[j] == lines[j]);
        }
        lemma_redact_lines_unmatched(pats, u);
        let l = lines.last();
        assert forall|i: int| 0 <= i < pats.len() implies !regex_matches(#[trigger] pats[i].1, l) by {
            assert(lines[lines.len() - 1] == l);
        }
        lemma_apply_unmatched(pats, l);
        assert(Seq::<Seq<char>>::empty().map_values(|n: Seq<char>| (n, lines.len() as int))
            =~= Seq::<(Seq<char>, int)>::empty());
        assert(Seq::<(Seq<char>, int)>::empty() + Seq::<(Seq<char>, int)>::empty()
            =~= Seq::<(Seq<char>, int)>::empty());
    }
}

proof fn lemma_joined_prepend(a: Seq<char>, rest: Seq<Seq<char>>)
    ensures
        joined_lines(seq![a] + rest) == a + seq!['\n'] + joined_lines(rest),
    decreases rest.len(),
{
    if rest.len() == 0 {
        assert((seq![a] + rest).drop_last() =~= Seq::<Seq<char>>::empty());
        assert((seq![a] + rest).last() == a);
        assert(joined_lines(Seq::<Seq<char>>::empty()) =~= Seq::<char>::empty());
        assert(joined_lines(seq![a] + rest) =~= a + seq!['\n'] + joined_lines(rest));
    } else {
        let u = rest.drop_last();
        lemma_joined_prepend(a, u);
        assert((seq![a] + rest).drop_last() =~= seq![a] + u);
        assert((seq![a] + rest).last() == rest.last());
        assert(joined_lines(seq![a] + rest) =~= a + seq!['\n'] + joined_lines(rest));
    }
}

/// Joining the lines of a text without carriage returns gives the text back,
/// with a final newline added when it lacked one.
proof fn lemma_lines_rejoin(s: Seq<char>)
    requires
        forall|j: int| 0 <= j < s.len() ==> s[j] != '\r',
    ensures
        joined_lines(lines_of(s)) == if s.len() == 0 || s.last() == '\n' {
            s
        } else {
            s + seq!['\n']
        },
    decreases s.len(),
{
    if s.len() > 0 {
        crate::text::lemma_find_from(s, seq!['\n'], 0);
        match find_c(s, '\n') {
            None => {
                let j = s.len() - 1;
                assert(s.subrange(j, j + 1) =~= seq![s[j]]);
                assert(!occurs_at(s, j, seq!['\n']));
                assert(lines_of(s) == seq![s]);
                lemma_joined_prepend(s, Seq::<Seq<char>>::empty());
                assert(seq![s] + Seq::<Seq<char>>::empty() =~= seq![s]);
                assert(joined_lines(Seq::<Seq<char>>::empty()) =~= Seq::<char>::empty());
                assert(joined_lines(seq![s]) =~= s + seq!['\n']);
            },
            Some(k) => {
                let head = s.subrange(0, k);
                let rest = s.subrange(k + 1, s.len() as int);
                assert(s.subrange(k, k + 1) =~= seq![s[k]]);
                assert(occurs_at(s, k, seq!['\n']));
                assert(seq![s[k]][0] == seq!['\n'][0]);
                assert(s[k] == '\n');
                if head.len() > 0 {
                    assert(head.last() == s[k - 1]);
                }
                assert(strip_cr(head) == head);
                assert(lines_of(s) == seq![head] + lines_of(rest));
                lemma_joined_prepend(head, lines_of(rest));
                assert forall|j: int| 0 <= j < rest.len() implies rest[j] != '\r' by {
                    assert(rest[j] == s[k + 1 + j]);
                }
                lemma_lines_rejoin(rest);
                assert(s =~= head + seq!['\n'] + rest);
                if rest.len() > 0 {
                    assert(rest.last() == s.last());
                    assert(head + seq!['\n'] + (rest + seq!['\n']) =~= s + seq!['\n']);
                } else {
                    assert(s.last() == '\n');
                    assert(head + seq!['\n'] + rest =~= s);
                }
            },
        }
    }
}

/// A body none of whose lines any pattern matches comes back unchanged, with
/// no matches (for a body without carriage returns, whose line structure and
/// final newline are then kept exactly).
pub proof fn law_redact_unmatched_unchanged(
    pats: Seq<(Seq<char>, Seq<char>, Seq<char>)>,
    body: Seq<char>,
)
    requires
        forall|j: int| 0 <= j < body.len() ==> body[j] != '\r',
        forall|i: int, j: int|
            0 <= i < pats.len() && 0 <= j < lines_of(body).len() ==> !regex_matches(
                #[trigger] pats[i].1,
                #[trigger] lines_of(body)[j],
            ),
    ensures
        redact_text(pats, body) == (body, Seq::<(Seq<char>, int)>::empty()),
{
    lemma_redact_lines_unmatched(pats, lines_of(body));
    lemma_lines_rejoin(body);
    let t = joined_lines(lines_of(body));
    if !(body.len() == 0 || body.last() == '\n') {
        assert((body + seq!['\n']).drop_last() =~= body);
    }
}

/// For a configuration, a body without carriage returns none of whose lines
/// a pattern in force matches (a built-in one not disabled, or a custom one
/// that compiles) is what `redact_body` gives back unchanged, with no matches.
pub proof fn law_redact_body_unmatched(body: Seq<char>, config: RedactConfig)
    requires
        forall|j: int| 0 <= j < body.len() ==> body[j] != '\r',
        forall|i: int, j: int|
            0 <= i < active_patterns(
                builtin_specs(),
                views(config.disable@),
                custom_views(config.patterns@),
            ).len() && 0 <= j < lines_of(body).len() ==> !regex_matches(
                #[trigger] active_patterns(
                    builtin_specs(),
                    views(config.disable@),
                    custom_views(config.patterns@),
                )[i].1,
                #[trigger] lines_of(body)[j],
            ),
    ensures
        redact_text(
            active_patterns(builtin_specs(), views(config.disable@), custom_views(config.patterns@)),
            body,
        ) == (body, Seq::<(Seq<char>, int)>::empty()),
{
    law_redact_unmatched_unchanged(
        active_patterns(builtin_specs(), views(config.disable@), custom_views(config.patterns@)),
        body,
    );
}

/// Each built-in pattern is in force exactly on its own terms: one whose own
/// name is not disabled and whose regular expression compiles is in force,
/// whatever other names are disabled; one whose own name is disabled is not
/// (unless a custom pattern is the very same); and every pattern in force
/// compiles and is a built-in or a custom one.
pub proof fn law_builtin_in_force(
    builtins: Seq<(Seq<char>, Seq<char>, Seq<char>)>,
    disabled: Seq<Seq<char>>,
    customs: Seq<(Seq<char>, Seq<char>, Seq<char>)>,
)
    ensures
        forall|i: int|
            0 <= i < builtins.len() && !disabled.contains(#[trigger] builtins[i].0) && regex_compiles(
                builtins[i].1,
            ) ==> active_patterns(builtins, disabled, customs).contains(builtins[i]),
        forall|i: int|
            0 <= i < builtins.len() && disabled.contains(#[trigger] builtins[i].0) && !customs.contains(
                builtins[i],
            ) ==> !active_patterns(builtins, disabled, customs).contains(builtins[i]),
        forall|x: (Seq<char>, Seq<char>, Seq<char>)| #[trigger]
            active_patterns(builtins, disabled, customs).contains(x) ==> regex_compiles(x.1) && (
            builtins.contains(x) || customs.contains(x)),
{
    broadcast use vstd::seq_lib::group_filter_ensures;

    let pb = |p: (Seq<char>, Seq<char>, Seq<char>)| !disabled.contains(p.0) && regex_compiles(p.1);
    let pc = |p: (Seq<char>, Seq<char>, Seq<char>)| regex_compiles(p.1);
    let fb = builtins.filter(pb);
    let fc = customs.filter(pc);
    assert(active_patterns(builtins, disabled, customs) == fb + fc);
    assert forall|i: int|
        0 <= i < builtins.len() && !disabled.contains(#[trigger] builtins[i].0) && regex_compiles(
            builtins[i].1,
        ) implies (fb + fc).contains(builtins[i]) by {
        assert(pb(builtins[i]));
        builtins.lemma_filter_contains(pb, i);
        let k = choose|k: int| 0 <= k < fb.len() && fb[k] == builtins[i];
        assert((fb + fc)[k] == builtins[i]);
    }
    assert forall|x: (Seq<char>, Seq<char>, Seq<char>)| #[trigger] (fb + fc).contains(x) implies (
    fb.contains(x) && pb(x) && builtins.contains(x)) || (fc.contains(x) && pc(x) && customs.contains(x)) by {
        let k = choose|k: int| 0 <= k < (fb + fc).len() && (fb + fc)[k] == x;
        if k < fb.len() {
            assert(fb[k] == x);
            assert(pb(fb[k]));
            builtins.lemma_filter_contains_rev(pb, x);
        } else {
            assert(fc[k - fb.len()] == x);
            assert(pc(fc[k - fb.len()]));
            customs.lemma_filter_contains_rev(pc, x);
        }
    }
}

} // verus!
