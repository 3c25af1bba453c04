//! Include/exclude glob filtering with brace expansion.
//!
//! Pattern compilation and matching are done by the `glob` crate; both are
//! deterministic in the pattern text, so their results are named by
//! uninterpreted spec functions and everything around them is verified.

use vstd::prelude::*;

use crate::text::find_char;
use crate::text::lemma_find_bounds;
use crate::text::spec_find;
use crate::text::spec_trim;
use crate::text::trim;

verus! {

/// glob::Pattern, a compiled glob expression, declared so that it can stand
/// in fields and signatures; opaque to the verifier.
#[verifier::external_type_specification]
#[verifier::external_body]
pub struct ExPattern(glob::Pattern);

/// glob::PatternError, what glob::Pattern::new returns for a rejected
/// pattern; opaque to the verifier.
#[verifier::external_type_specification]
#[verifier::external_body]
pub struct ExPatternError(glob::PatternError);

/// The pattern text a compiled glob pattern holds.
pub uninterp spec fn pattern_source(p: glob::Pattern) -> Seq<char>;

/// Whether the glob crate accepts this text as a pattern.
pub uninterp spec fn glob_valid(pattern: Seq<char>) -> bool;

/// Whether a glob pattern, given by its text, matches a path.
pub uninterp spec fn glob_match(pattern: Seq<char>, path: Seq<char>) -> bool;

/// Relies on glob::Pattern::new: compilation is deterministic in the pattern
/// text, and the compiled pattern holds that text.
#[verifier::external_body]
fn compile_pattern(pattern: &str) -> (r: Result<glob::Pattern, glob::PatternError>)
    ensures
        r is Ok <==> glob_valid(pattern@),
        r matches Ok(p) ==> pattern_source(p) == pattern@,
{
    glob::Pattern::new(pattern)
}

/// Relies on glob::Pattern::matches: with the default match options the
/// result is a function of the pattern text and the path alone.
#[verifier::external_body]
fn pattern_matches(p: &glob::Pattern, path: &str) -> (r: bool)
    ensures
        r == glob_match(pattern_source(*p), path@),
{
    p.matches(path)
}

/// The comma-separated pieces of `s` from position `i` on.
pub open spec fn spec_split_from(s: Seq<char>, i: int) -> Seq<Seq<char>>
    decreases s.len() - i when 0 <= i <= s.len() via spec_split_from_dec
{
    let j = spec_find(s, ',', i);
    if j >= s.len() {
        seq![s.subrange(i, s.len() as int)]
    } else {
        seq![s.subrange(i, j)] + spec_split_from(s, j + 1)
    }
}

#[via_fn]
proof fn spec_split_from_dec(s: Seq<char>, i: int) {
    lemma_find_bounds(s, ',', i);
}

/// One expanded pattern: the text before the `{` at `b`, then the trimmed
/// alternative, then the text after the `}` at `e`.
pub open spec fn spec_brace_item(s: Seq<char>, b: int, e: int, piece: Seq<char>) -> Seq<char> {
    s.subrange(0, b) + spec_trim(piece) + s.subrange(e + 1, s.len() as int)
}

/// What expanding brace syntax yields: if a `{` precedes the first `}`, one
/// pattern per comma-separated alternative between them (each alternative
/// trimmed of surrounding whitespace), with the text before the `{` and after
/// the `}` kept around each; otherwise the input alone.
pub open spec fn spec_expand_braces(s: Seq<char>) -> Seq<Seq<char>> {
    let b = spec_find(s, '{', 0);
    let e = spec_find(s, '}', 0);
    if b < s.len() && e < s.len() && b < e {
        spec_split_from(s.subrange(b + 1, e), 0).map_values(
            |piece: Seq<char>| spec_brace_item(s, b, e, piece),
        )
    } else {
        seq![s]
    }
}

/// Expand brace patterns like "*.{rs,toml}" into ["*.rs", "*.toml"].
pub fn expand_braces(pattern: &str) -> (r: Vec<String>)
    ensures
        r@.map_values(|t: String| t@) == spec_expand_braces(pattern@),
{
    let n = pattern.unicode_len();
    let b = find_char(pattern, '{', 0);
    let e = find_char(pattern, '}', 0);
    if b < n && e < n && b < e {
        let prefix = pattern.substring_char(0, b);
        let interior = pattern.substring_char(b + 1, e);
        let suffix = pattern.substring_char(e + 1, n);
        let m = interior.unicode_len();
        let ghost full = spec_split_from(interior@, 0);
        let mut out: Vec<String> = Vec::new();
        let ghost mut done: Seq<Seq<char>> = Seq::empty();
        let mut pos: usize = 0;
        proof {
            assert(full == done + spec_split_from(interior@, 0));
        }
        loop
            invariant_except_break
                pos <= m,
                m == interior@.len(),
                interior@ == pattern@.subrange(b + 1, e as int),
                prefix@ == pattern@.subrange(0, b as int),
                suffix@ == pattern@.subrange(e + 1, pattern@.len() as int),
                full == done + spec_split_from(interior@, pos as int),
                out@.map_values(|t: String| t@) == done.map_values(
                    |piece: Seq<char>| spec_brace_item(pattern@, b as int, e as int, piece),
                ),
            ensures
                out@.map_values(|t: String| t@) == full.map_values(
                    |piece: Seq<char>| spec_brace_item(pattern@, b as int, e as int, piece),
                ),
            decreases m - pos,
        {
            let j = find_char(interior, ',', pos);
            proof {
                lemma_find_bounds(interior@, ',', pos as int);
            }
            let raw = interior.substring_char(pos, j);
            let piece = trim(raw);
            let mut t = String::new();
            t.append(prefix);
            t.append(piece);
            t.append(suffix);
            let ghost prev = out@;
            out.push(t);
            proof {
                let ghost rawv = interior@.subrange(pos as int, j as int);
                assert(t@ =~= spec_brace_item(pattern@, b as int, e as int, rawv));
                prev.lemma_push_map_commute(|t: String| t@, t);
                assert(done.push(rawv) =~= done + seq![rawv]);
                done.lemma_push_map_commute(
                    |piece: Seq<char>| spec_brace_item(pattern@, b as int, e as int, piece),
                    rawv,
                );
                done = done + seq![rawv];
                assert(out@.map_values(|t: String| t@) =~= done.map_values(
                    |piece: Seq<char>| spec_brace_item(pattern@, b as int, e as int, piece),
                ));
            }
            if j >= m {
                proof {
                    assert(spec_split_from(interior@, pos as int) =~= seq![
                        interior@.subrange(pos as int, m as int),
                    ]);
                    assert(full =~= done);
                }
                break ;
            }
            pos = j + 1;
        }
        proof {
            assert(out@.map_values(|t: String| t@) =~= spec_expand_braces(pattern@));
        }
        out
    } else {
        let mut out: Vec<String> = Vec::new();
        out.push(pattern.to_owned());
        proof {
            assert(out@.map_values(|t: String| t@) =~= seq![pattern@]);
        }
        out
    }
}

/// Which pattern list a compilation failure came from.
#[derive(Debug, Clone, Copy, PartialEq, Eq, Structural)]
pub enum PatternList {
    Include,
    Exclude,
}

/// A pattern that the glob crate rejected, and the list it stood in.
#[derive(Debug, Clone)]
pub struct PatternCompileError {
    pub list: PatternList,
    pub pattern: String,
}

impl PatternCompileError {
    /// The failure described in one line.
    pub open spec fn spec_message(self) -> Seq<char> {
        (match self.list {
            PatternList::Include => "Failed to compile include patterns: "@,
            PatternList::Exclude => "Failed to compile exclude patterns: "@,
        }) + self.pattern@
    }

    /// The failure described in one line, naming the list and the pattern.
    pub fn message(&self) -> (r: String)
        ensures
            r@ == self.spec_message(),
    {
        let mut s = match self.list {
            PatternList::Include => String::new(),
            PatternList::Exclude => String::new(),
        };
        match self.list {
            PatternList::Include => s.append("Failed to compile include patterns: "),
            PatternList::Exclude => s.append("Failed to compile exclude patterns: "),
        }
        s.append(self.pattern.as_str());
        s
    }
}

/// Every pattern in the sequence is one the glob crate accepts.
pub open spec fn all_valid(patterns: Seq<Seq<char>>) -> bool {
    forall|i: int| 0 <= i < patterns.len() ==> glob_valid(#[trigger] patterns[i])
}

/// `p` is the first pattern in the sequence that the glob crate rejects.
pub open spec fn is_first_invalid(patterns: Seq<Seq<char>>, p: Seq<char>) -> bool {
    exists|i: int|
        {
            &&& 0 <= i < patterns.len()
            &&& !glob_valid(#[trigger] patterns[i])
            &&& p == patterns[i]
            &&& forall|k: int| 0 <= k < i ==> glob_valid(#[trigger] patterns[k])
        }
}

/// The concatenation of the brace expansions of each pattern, in order.
pub open spec fn spec_expand_all(patterns: Seq<Seq<char>>) -> Seq<Seq<char>>
    decreases patterns.len(),
{
    if patterns.len() == 0 {
        Seq::empty()
    } else {
        spec_expand_braces(patterns[0]) + spec_expand_all(patterns.skip(1))
    }
}

/// Appending one more pattern appends its expansion.
proof fn lemma_expand_all_snoc(s: Seq<Seq<char>>, i: int)
    requires
        0 <= i < s.len(),
    ensures
        spec_expand_all(s.take(i + 1)) == spec_expand_all(s.take(i)) + spec_expand_braces(s[i]),
    decreases i,
{
    if i == 0 {
        assert(s.take(1) =~= seq![s[0]]);
        assert(s.take(1).skip(1) =~= Seq::<Seq<char>>::empty());
        assert(s.take(0) =~= Seq::<Seq<char>>::empty());
        assert(spec_expand_all(s.take(i + 1)) =~= spec_expand_all(s.take(i)) + spec_expand_braces(
            s[i],
        ));
    } else {
        let t = s.skip(1);
        lemma_expand_all_snoc(t, i - 1);
        assert(s.take(i + 1).skip(1) =~= t.take(i));
        assert(s.take(i).skip(1) =~= t.take(i - 1));
        assert(s.take(i + 1)[0] == s[0]);
        assert(s.take(i)[0] == s[0]);
        assert(t[i - 1] == s[i]);
        assert(spec_expand_all(s.take(i + 1)) =~= spec_expand_all(s.take(i)) + spec_expand_braces(
            s[i],
        ));
    }
}

/// Brace-expand every pattern in the list, in order.
fn expand_all(patterns: &Vec<String>) -> (r: Vec<String>)
    ensures
        r@.map_values(|t: String| t@) == spec_expand_all(patterns@.map_values(|s: String| s@)),
{
    let ghost views = patterns@.map_values(|s: String| s@);
    let mut out: Vec<String> = Vec::new();
    let mut i: usize = 0;
    proof {
        assert(views.take(0) =~= Seq::<Seq<char>>::empty());
    }
    while i < patterns.len()
        invariant
            i <= patterns.len(),
            views == patterns@.map_values(|s: String| s@),
            out@.map_values(|t: String| t@) == spec_expand_all(views.take(i as int)),
        decreases patterns.len() - i,
    {
        let expanded = expand_braces(&patterns[i]);
        let ghost before = out@.map_values(|t: String| t@);
        let mut k: usize = 0;
        while k < expanded.len()
            invariant
                k <= expanded.len(),
                expanded@.map_values(|t: String| t@) == spec_expand_braces(views[i as int]),
                i < views.len(),
                out@.map_values(|t: String| t@) == before + spec_expand_braces(
                    views[i as int],
                ).take(k as int),
            decreases expanded.len() - k,
        {
            let s = expanded[k].clone();
            let ghost prev = out@;
            out.push(s);
            proof {
                let ghost exp = spec_expand_braces(views[i as int]);
                assert(s@ == expanded@.map_values(|t: String| t@)[k as int]);
                assert(s@ == exp[k as int]);
                prev.lemma_push_map_commute(|t: String| t@, s);
                assert(exp.take(k + 1) =~= exp.take(k as int).push(exp[k as int]));
                assert(out@.map_values(|t: String| t@) =~= before + exp.take(k + 1));
            }
            k = k + 1;
        }
        proof {
            let ghost exp = spec_expand_braces(views[i as int]);
            assert(exp.take(exp.len() as int) =~= exp);
            lemma_expand_all_snoc(views, i as int);
        }
        i = i + 1;
    }
    proof {
        assert(views.take(views.len() as int) =~= views);
    }
    out
}

/// Compile every pattern; on the first failure report that pattern's text.
fn compile_patterns(patterns: &Vec<String>) -> (r: Result<Vec<glob::Pattern>, String>)
    ensures
        r is Ok <==> all_valid(patterns@.map_values(|s: String| s@)),
        r matches Ok(v) ==> v@.map_values(|p: glob::Pattern| pattern_source(p))
            == patterns@.map_values(|s: String| s@),
        r matches Err(p) ==> is_first_invalid(patterns@.map_values(|s: String| s@), p@),
{
    let ghost views = patterns@.map_values(|s: String| s@);
    let mut out: Vec<glob::Pattern> = Vec::new();
    let mut i: usize = 0;
    while i < patterns.len()
        invariant
            i <= patterns.len(),
            views == patterns@.map_values(|s: String| s@),
            out@.map_values(|p: glob::Pattern| pattern_source(p)) == views.take(i as int),
            forall|k: int| 0 <= k < i ==> glob_valid(#[trigger] views[k]),
        decreases patterns.len() - i,
    {
        match compile_pattern(patterns[i].as_str()) {
            Ok(p) => {
                proof {
                    assert(pattern_source(p) == views[i as int]);
                }
                let ghost prev = out@;
                out.push(p);
                proof {
                    prev.lemma_push_map_commute(|p: glob::Pattern| pattern_source(p), p);
                    assert(views.take(i + 1) =~= views.take(i as int).push(views[i as int]));
                    assert(out@.map_values(|p: glob::Pattern| pattern_source(p)) =~= views.take(
                        i + 1,
                    ));
                }
            },
            Err(_) => {
                proof {
                    assert(!glob_valid(views[i as int]));
                    assert(!all_valid(views));
                    assert(is_first_invalid(views, views[i as int]));
                }
                return Err(patterns[i].clone());
            },
        }
        i = i + 1;
    }
    proof {
        assert(views.take(views.len() as int) =~= views);
    }
    Ok(out)
}

/// Whether any pattern in the list matches the path.
pub open spec fn spec_matches_any(patterns: Seq<Seq<char>>, path: Seq<char>) -> bool {
    exists|i: int| 0 <= i < patterns.len() && glob_match(#[trigger] patterns[i], path)
}

/// The filtering decision: a path matching any exclude pattern is never
/// watched; otherwise a non-empty include list must match it; with no include
/// patterns every remaining path is watched.
pub open spec fn spec_should_watch(
    includes: Seq<Seq<char>>,
    excludes: Seq<Seq<char>>,
    path: Seq<char>,
) -> bool {
    if spec_matches_any(excludes, path) {
        false
    } else if includes.len() > 0 {
        spec_matches_any(includes, path)
    } else {
        true
    }
}

/// Handles include/exclude pattern matching for file watching.
#[derive(Debug)]
pub struct PatternFilter {
    include_patterns: Vec<glob::Pattern>,
    exclude_patterns: Vec<glob::Pattern>,
}

impl PatternFilter {
    /// The texts of the compiled include patterns.
    pub closed spec fn includes(self) -> Seq<Seq<char>> {
        self.include_patterns@.map_values(|p: glob::Pattern| pattern_source(p))
    }

    /// The texts of the compiled exclude patterns.
    pub closed spec fn excludes(self) -> Seq<Seq<char>> {
        self.exclude_patterns@.map_values(|p: glob::Pattern| pattern_source(p))
    }

    /// Create a new pattern filter with include and exclude patterns.
    ///
    /// Each raw pattern is brace-expanded first; the expanded lists are then
    /// compiled, includes before excludes, and the first rejected pattern is
    /// reported with the list it stood in.
    pub fn new(include_patterns: Vec<String>, exclude_patterns: Vec<String>) -> (r: Result<
        Self,
        PatternCompileError,
    >)
        ensures
            ({
                let inc = spec_expand_all(include_patterns@.map_values(|s: String| s@));
                let exc = spec_expand_all(exclude_patterns@.map_values(|s: String| s@));
                &&& r is Ok <==> all_valid(inc) && all_valid(exc)
                &&& r matches Ok(f) ==> f.includes() == inc && f.excludes() == exc
                &&& r matches Err(e) ==> if !all_valid(inc) {
                    e.list is Include && is_first_invalid(inc, e.pattern@)
                } else {
                    e.list is Exclude && is_first_invalid(exc, e.pattern@)
                }
            }),
    {
        let expanded_include = expand_all(&include_patterns);
        let expanded_exclude = expand_all(&exclude_patterns);
        let compiled_include = match compile_patterns(&expanded_include) {
            Ok(v) => v,
            Err(p) => {
                return Err(PatternCompileError { list: PatternList::Include, pattern: p });
            },
        };
        let compiled_exclude = match compile_patterns(&expanded_exclude) {
            Ok(v) => v,
            Err(p) => {
                return Err(PatternCompileError { list: PatternList::Exclude, pattern: p });
            },
        };
        Ok(PatternFilter { include_patterns: compiled_include, exclude_patterns: compiled_exclude })
    }

    /// Check if a file path should be watched based on include/exclude patterns.
    pub fn should_watch(&self, path: &str) -> (r: bool)
        ensures
            r == spec_should_watch(self.includes(), self.excludes(), path@),
    {
        if self.matches_any_pattern(&self.exclude_patterns, path) {
            return false;
        }
        if self.include_patterns.len() > 0 {
            return self.matches_any_pattern(&self.include_patterns, path);
        }
        true
    }

    /// Check if path matches any of the given patterns.
    fn matches_any_pattern(&self, patterns: &Vec<glob::Pattern>, path: &str) -> (r: bool)
        ensures
            r == spec_matches_any(patterns@.map_values(|p: glob::Pattern| pattern_source(p)), path@),
    {
        let ghost texts = patterns@.map_values(|p: glob::Pattern| pattern_source(p));
        let mut i: usize = 0;
        while i < patterns.len()
            invariant
                i <= patterns.len(),
                texts == patterns@.map_values(|p: glob::Pattern| pattern_source(p)),
                forall|k: int| 0 <= k < i ==> !glob_match(#[trigger] texts[k], path@),
            decreases patterns.len() - i,
        {
            if pattern_matches(&patterns[i], path) {
                proof {
                    assert(glob_match(texts[i as int], path@));
                }
                return true;
            }
            i = i + 1;
        }
        false
    }
}

/// A path matching any exclude pattern is never watched, whatever the
/// include patterns say.
pub proof fn lemma_exclude_wins(includes: Seq<Seq<char>>, excludes: Seq<Seq<char>>, path: Seq<char>)
    requires
        spec_matches_any(excludes, path),
    ensures
        !spec_should_watch(includes, excludes, path),
{
}

/// With no include patterns, every path not matched by an exclude pattern
/// is watched.
pub proof fn lemma_empty_include_watches_all(
    includes: Seq<Seq<char>>,
    excludes: Seq<Seq<char>>,
    path: Seq<char>,
)
    requires
        includes.len() == 0,
        !spec_matches_any(excludes, path),
    ensures
        spec_should_watch(includes, excludes, path),
{
}

} // verus!
