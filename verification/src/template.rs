//! Per-event template context: path normalization, the event-kind name, and
//! single-pass placeholder substitution into a command template.

use vstd::prelude::*;

use crate::event::EventKind;
use crate::text::find_char;
use crate::text::lemma_find_absent;
use crate::text::lemma_find_bounds;
use crate::text::lemma_find_exact;
use crate::text::spec_find;
use crate::text::str_eq;

verus! {

/// The name an event kind substitutes for `{event_type}`.
pub open spec fn spec_event_type(kind: EventKind) -> Seq<char> {
    match kind {
        EventKind::Create => "create"@,
        EventKind::Modify(_) => "modify"@,
        EventKind::Remove => "delete"@,
        EventKind::Other => "change"@,
    }
}

/// `s` with every backslash replaced by a forward slash.
pub open spec fn spec_normalize(s: Seq<char>) -> Seq<char> {
    s.map_values(|c: char| if c == '\\' { '/' } else { c })
}

/// `rel` appended to `root` with a single separating slash, unless `root`
/// is empty or already ends in one.
pub open spec fn spec_join(root: Seq<char>, rel: Seq<char>) -> Seq<char> {
    if root.len() == 0 {
        rel
    } else if root.last() == '/' {
        root + rel
    } else {
        root + seq!['/'] + rel
    }
}

/// Template context for command substitution.
#[derive(Debug)]
pub struct TemplateContext {
    pub file_path: String,
    pub relative_path: String,
    pub event_type: String,
    pub absolute_path: String,
}

/// The mathematical content of a template context.
pub struct ContextView {
    pub file_path: Seq<char>,
    pub relative_path: Seq<char>,
    pub event_type: Seq<char>,
    pub absolute_path: Seq<char>,
}

impl View for TemplateContext {
    type V = ContextView;

    open spec fn view(&self) -> ContextView {
        ContextView {
            file_path: self.file_path@,
            relative_path: self.relative_path@,
            event_type: self.event_type@,
            absolute_path: self.absolute_path@,
        }
    }
}

/// `root` and `rel` joined with a single separating slash.
fn join_path(root: &str, rel: &str) -> (r: String)
    ensures
        r@ == spec_join(root@, rel@),
{
    let n = root.unicode_len();
    if n == 0 {
        rel.to_owned()
    } else if root.get_char(n - 1) == '/' {
        let mut s = root.to_owned();
        s.append(rel);
        s
    } else {
        let mut s = root.to_owned();
        s.append("/");
        s.append(rel);
        proof {
            reveal_strlit("/");
            assert("/"@ =~= seq!['/']);
            assert(s@ =~= root@ + seq!['/'] + rel@);
        }
        s
    }
}

impl TemplateContext {
    /// Build the context for one dispatched event: all three paths are
    /// normalized to forward slashes, the absolute path is the watch root
    /// joined with the relative path, and the event type names the kind.
    pub fn new(file_path: &str, relative_path: &str, event_kind: &EventKind, watch_path: &str) -> (r:
        TemplateContext)
        ensures
            r.file_path@ == spec_normalize(file_path@),
            r.relative_path@ == spec_normalize(relative_path@),
            r.event_type@ == spec_event_type(*event_kind),
            r.absolute_path@ == spec_normalize(spec_join(watch_path@, relative_path@)),
    {
        let absolute = join_path(watch_path, relative_path);
        TemplateContext {
            file_path: Self::normalize_path(file_path),
            relative_path: Self::normalize_path(relative_path),
            event_type: String::from_str(Self::event_kind_to_str(event_kind)),
            absolute_path: Self::normalize_path(absolute.as_str()),
        }
    }

    /// Normalize path to use forward slashes.
    ///
    /// When the path holds no backslash it is copied unchanged; otherwise
    /// each backslash becomes a forward slash.
    pub fn normalize_path(path: &str) -> (r: String)
        ensures
            r@ == spec_normalize(path@),
    {
        let n = path.unicode_len();
        let first_bs = find_char(path, '\\', 0);
        if first_bs >= n {
            proof {
                lemma_find_bounds(path@, '\\', 0);
                assert(spec_normalize(path@) =~= path@);
            }
            path.to_owned()
        } else {
            let mut out = String::new();
            let mut i: usize = 0;
            proof {
                assert(path@.take(0) =~= Seq::<char>::empty());
                assert(spec_normalize(path@.take(0)) =~= Seq::<char>::empty());
            }
            while i < n
                invariant
                    i <= n,
                    n == path@.len(),
                    out@ == spec_normalize(path@.take(i as int)),
                decreases n - i,
            {
                let c = path.get_char(i);
                if c == '\\' {
                    out.append("/");
                    proof {
                        reveal_strlit("/");
                        assert("/"@ =~= seq!['/']);
                    }
                } else {
                    out.append(path.substring_char(i, i + 1));
                }
                proof {
                    assert(path@.take(i + 1) =~= path@.take(i as int).push(path@[i as int]));
                    path@.take(i as int).lemma_push_map_commute(
                        |c: char| if c == '\\' { '/' } else { c },
                        path@[i as int],
                    );
                    assert(path@.subrange(i as int, i + 1) =~= seq![path@[i as int]]);
                    assert(out@ =~= spec_normalize(path@.take(i + 1)));
                }
                i = i + 1;
            }
            proof {
                assert(path@.take(n as int) =~= path@);
            }
            out
        }
    }

    /// The `{event_type}` name of an event kind.
    pub fn event_kind_to_str(event_kind: &EventKind) -> (r: &'static str)
        ensures
            r@ == spec_event_type(*event_kind),
    {
        match event_kind {
            EventKind::Create => "create",
            EventKind::Modify(_) => "modify",
            EventKind::Remove => "delete",
            EventKind::Other => "change",
        }
    }

}

impl ContextView {
    /// The value a placeholder name stands for, if it is one of the four
    /// known names.
    pub open spec fn spec_placeholder_value(self, name: Seq<char>) -> Option<Seq<char>> {
        if name == "file_path"@ {
            Some(self.file_path)
        } else if name == "relative_path"@ {
            Some(self.relative_path)
        } else if name == "event_type"@ {
            Some(self.event_type)
        } else if name == "absolute_path"@ {
            Some(self.absolute_path)
        } else {
            None
        }
    }

    /// Left-to-right substitution: at a `{`, the text up to the first
    /// following `}` names a placeholder, replaced by its value when known
    /// and kept verbatim (braces included) when not; a `{` with no later `}`
    /// stays as it is; every other character is copied.
    pub open spec fn spec_substitute(self, t: Seq<char>) -> Seq<char>
        decreases t.len() via Self::spec_substitute_dec
    {
        if t.len() == 0 {
            Seq::empty()
        } else if t[0] == '{' {
            let j = spec_find(t, '}', 0);
            if j < t.len() {
                (match self.spec_placeholder_value(t.subrange(1, j)) {
                    Some(v) => v,
                    None => t.subrange(0, j + 1),
                }) + self.spec_substitute(t.skip(j + 1))
            } else {
                seq!['{'] + self.spec_substitute(t.skip(1))
            }
        } else {
            seq![t[0]] + self.spec_substitute(t.skip(1))
        }
    }

    #[via_fn]
    proof fn spec_substitute_dec(self, t: Seq<char>) {
        lemma_find_bounds(t, '}', 0);
    }
}

/// Shifting the start of a search commutes with skipping a prefix.
proof fn lemma_find_skip(s: Seq<char>, c: char, p: int, q: int)
    requires
        0 <= p,
        0 <= q,
        p + q <= s.len(),
    ensures
        spec_find(s.skip(p), c, q) == spec_find(s, c, p + q) - p,
    decreases s.len() - p - q,
{
    if p + q < s.len() {
        assert(s.skip(p)[q] == s[p + q]);
        if s[p + q] != c {
            lemma_find_skip(s, c, p, q + 1);
        }
    }
}

/// A run of characters without `{` passes through substitution verbatim.
proof fn lemma_literal_run(ctx: ContextView, t: Seq<char>, k: int)
    requires
        0 <= k <= t.len(),
        forall|j: int| 0 <= j < k ==> t[j] != '{',
    ensures
        ctx.spec_substitute(t) == t.take(k) + ctx.spec_substitute(t.skip(k)),
    decreases k,
{
    if k == 0 {
        assert(t.skip(0) =~= t);
        assert(t.take(0) + ctx.spec_substitute(t) =~= ctx.spec_substitute(t));
    } else {
        assert(t[0] != '{');
        assert(forall|j: int| 0 <= j < k - 1 ==> t.skip(1)[j] != '{');
        lemma_literal_run(ctx, t.skip(1), k - 1);
        assert(t.skip(1).skip(k - 1) =~= t.skip(k));
        assert(seq![t[0]] + (t.skip(1).take(k - 1) + ctx.spec_substitute(t.skip(k))) =~= t.take(k)
            + ctx.spec_substitute(t.skip(k)));
    }
}

impl TemplateContext {
    /// Substitute template variables in a command string.
    ///
    /// A single left-to-right pass; each of `{file_path}`, `{relative_path}`,
    /// `{event_type}` and `{absolute_path}` is replaced wherever it occurs,
    /// an unknown placeholder is kept verbatim, and a `{` with no later `}`
    /// is kept as it is.
    pub fn substitute_template(&self, template: &str) -> (r: String)
        ensures
            r@ == self@.spec_substitute(template@),
    {
        let n = template.unicode_len();
        let mut result = String::new();
        let mut last_end: usize = 0;
        let mut i: usize = 0;
        proof {
            assert(template@.skip(0) =~= template@);
            assert(result@ + self@.spec_substitute(template@) =~= self@.spec_substitute(template@));
        }
        while i < n
            invariant
                last_end <= i <= n,
                n == template@.len(),
                forall|k: int| last_end <= k < i ==> template@[k] != '{',
                self@.spec_substitute(template@) == result@ + self@.spec_substitute(
                    template@.skip(last_end as int),
                ),
            decreases n - i,
        {
            if template.get_char(i) == '{' {
                let ghost t = template@;
                proof {
                    assert(forall|j: int|
                        0 <= j < i - last_end ==> t.skip(last_end as int)[j] != '{');
                    lemma_literal_run(self@, t.skip(last_end as int), i - last_end);
                    assert(t.skip(last_end as int).take(i - last_end) =~= t.subrange(
                        last_end as int,
                        i as int,
                    ));
                    assert(t.skip(last_end as int).skip(i - last_end) =~= t.skip(i as int));
                }
                result.append(template.substring_char(last_end, i));
                proof {
                    assert(self@.spec_substitute(t) == result@ + self@.spec_substitute(
                        t.skip(i as int),
                    ));
                }
                let j = find_char(template, '}', i + 1);
                proof {
                    lemma_find_bounds(t, '}', i + 1);
                    lemma_find_skip(t, '}', i as int, 0);
                    assert(t.skip(i as int)[0] == '{');
                    assert(spec_find(t.skip(i as int), '}', 0) == j - i);
                }
                if j < n {
                    let ghost rest = t.skip(i as int);
                    let ghost jloc = j - i;
                    proof {
                        assert(rest.subrange(1, jloc) =~= t.subrange(i + 1, j as int));
                        assert(rest.subrange(0, jloc + 1) =~= t.subrange(i as int, j + 1));
                        assert(rest.skip(jloc + 1) =~= t.skip(j + 1));
                    }
                    let name = template.substring_char(i + 1, j);
                    if str_eq(name, "file_path") {
                        result.append(self.file_path.as_str());
                    } else if str_eq(name, "relative_path") {
                        result.append(self.relative_path.as_str());
                    } else if str_eq(name, "event_type") {
                        result.append(self.event_type.as_str());
                    } else if str_eq(name, "absolute_path") {
                        result.append(self.absolute_path.as_str());
                    } else {
                        result.append(template.substring_char(i, j + 1));
                    }
                    proof {
                        assert(self@.spec_substitute(t) == result@ + self@.spec_substitute(
                            t.skip(j + 1),
                        ));
                    }
                    last_end = j + 1;
                    i = j + 1;
                } else {
                    result.append("{");
                    proof {
                        reveal_strlit("{");
                        assert("{"@ =~= seq!['{']);
                        assert(t.skip(i as int).skip(1) =~= t.skip(i + 1));
                        assert(self@.spec_substitute(t) == result@ + self@.spec_substitute(
                            t.skip(i + 1),
                        ));
                    }
                    last_end = i + 1;
                    i = i + 1;
                }
            } else {
                i = i + 1;
            }
        }
        let ghost t = template@;
        proof {
            lemma_literal_run(self@, t.skip(last_end as int), n - last_end);
            assert(t.skip(last_end as int).take(n - last_end) =~= t.subrange(
                last_end as int,
                n as int,
            ));
            assert(t.skip(last_end as int).skip(n - last_end) =~= Seq::<char>::empty());
            assert(self@.spec_substitute(Seq::<char>::empty()) =~= Seq::<char>::empty());
        }
        result.append(template.substring_char(last_end, n));
        proof {
            assert(result@ =~= self@.spec_substitute(t));
        }
        result
    }
}

/// At a placeholder `{name}` preceded by brace-free text, substitution
/// emits that text, handles the placeholder by its name, and continues
/// after the closing brace.
proof fn lemma_placeholder_step(ctx: ContextView, pre: Seq<char>, name: Seq<char>, post: Seq<char>)
    requires
        forall|j: int| 0 <= j < pre.len() ==> pre[j] != '{',
        forall|j: int| 0 <= j < name.len() ==> name[j] != '}',
    ensures
        ctx.spec_substitute(pre + seq!['{'] + name + seq!['}'] + post) == pre + (
        match ctx.spec_placeholder_value(name) {
            Some(v) => v,
            None => seq!['{'] + name + seq!['}'],
        }) + ctx.spec_substitute(post),
{
    let t = pre + seq!['{'] + name + seq!['}'] + post;
    assert(forall|j: int| 0 <= j < pre.len() ==> t[j] != '{');
    lemma_literal_run(ctx, t, pre.len() as int);
    let rest = t.skip(pre.len() as int);
    let j = name.len() as int + 1;
    assert(rest[0] == '{');
    assert(rest[j] == '}');
    assert(forall|k: int| 0 <= k < j ==> rest[k] != '}') by {
        assert(forall|k: int| 1 <= k < j ==> rest[k] == name[k - 1]);
    }
    lemma_find_exact(rest, '}', 0, j);
    assert(rest.subrange(1, j) =~= name);
    assert(rest.subrange(0, j + 1) =~= seq!['{'] + name + seq!['}']);
    assert(rest.skip(j + 1) =~= post);
    assert(ctx.spec_substitute(rest) == (match ctx.spec_placeholder_value(name) {
        Some(v) => v,
        None => seq!['{'] + name + seq!['}'],
    }) + ctx.spec_substitute(post));
    assert(t.take(pre.len() as int) =~= pre);
    assert(pre + ((match ctx.spec_placeholder_value(name) {
        Some(v) => v,
        None => seq!['{'] + name + seq!['}'],
    }) + ctx.spec_substitute(post)) =~= pre + (match ctx.spec_placeholder_value(name) {
        Some(v) => v,
        None => seq!['{'] + name + seq!['}'],
    }) + ctx.spec_substitute(post));
}

/// Every well-formed occurrence of a known placeholder is replaced by its
/// value: wherever the template reads as brace-free text, then `{name}`
/// for a known name, then anything, the output is that text, the name's
/// value, and the substitution of the remainder — so each occurrence,
/// repeats included, is substituted independently.
pub proof fn lemma_known_placeholder_substituted(
    ctx: ContextView,
    pre: Seq<char>,
    name: Seq<char>,
    v: Seq<char>,
    post: Seq<char>,
)
    requires
        forall|j: int| 0 <= j < pre.len() ==> pre[j] != '{',
        forall|j: int| 0 <= j < name.len() ==> name[j] != '}',
        ctx.spec_placeholder_value(name) == Some(v),
    ensures
        ctx.spec_substitute(pre + seq!['{'] + name + seq!['}'] + post) == pre + v
            + ctx.spec_substitute(post),
{
    lemma_placeholder_step(ctx, pre, name, post);
}

/// An unknown placeholder is kept verbatim, braces included, and the scan
/// resumes after its closing brace.
pub proof fn lemma_unknown_placeholder_verbatim(
    ctx: ContextView,
    pre: Seq<char>,
    name: Seq<char>,
    post: Seq<char>,
)
    requires
        forall|j: int| 0 <= j < pre.len() ==> pre[j] != '{',
        forall|j: int| 0 <= j < name.len() ==> name[j] != '}',
        ctx.spec_placeholder_value(name) is None,
    ensures
        ctx.spec_substitute(pre + seq!['{'] + name + seq!['}'] + post) == pre + seq!['{'] + name
            + seq!['}'] + ctx.spec_substitute(post),
{
    lemma_placeholder_step(ctx, pre, name, post);
    assert(pre + (seq!['{'] + name + seq!['}']) + ctx.spec_substitute(post) =~= pre + seq!['{']
        + name + seq!['}'] + ctx.spec_substitute(post));
}

/// A template with no `}` anywhere comes back unchanged: every `{` in it
/// is unmatched and is retained literally, and so is all other text.
pub proof fn lemma_unmatched_brace_retained(ctx: ContextView, t: Seq<char>)
    requires
        forall|j: int| 0 <= j < t.len() ==> t[j] != '}',
    ensures
        ctx.spec_substitute(t) == t,
    decreases t.len(),
{
    if t.len() > 0 {
        assert(forall|j: int| 0 <= j < t.skip(1).len() ==> t.skip(1)[j] != '}');
        lemma_unmatched_brace_retained(ctx, t.skip(1));
        if t[0] == '{' {
            lemma_find_absent(t, '}', 0);
        }
        assert(seq![t[0]] + t.skip(1) =~= t);
    }
}

/// A template holding no `{` at all comes back unchanged.
pub proof fn lemma_no_placeholders_unchanged(ctx: ContextView, t: Seq<char>)
    requires
        forall|j: int| 0 <= j < t.len() ==> t[j] != '{',
    ensures
        ctx.spec_substitute(t) == t,
    decreases t.len(),
{
    lemma_literal_run(ctx, t, t.len() as int);
    assert(t.take(t.len() as int) =~= t);
    assert(t.skip(t.len() as int) =~= Seq::<char>::empty());
    assert(t.take(t.len() as int) + ctx.spec_substitute(Seq::<char>::empty()) =~= t);
}

} // verus!
