//! The watcher core: validated configuration, relative-path computation,
//! and the per-event decision of which command, if any, to launch.
//!
//! The executable shell probes the file system (does the root exist, is it
//! a directory, does an event path still exist) and hands the answers in as
//! plain values; everything decided from them is verified here.

use vstd::prelude::*;

use crate::args::Args;
use crate::event::resolve_kind;
use crate::event::spec_resolve_kind;
use crate::event::CommandConfig;
use crate::event::EventKind;
use crate::event::RawEvent;
use crate::filter::all_valid;
use crate::filter::is_first_invalid;
use crate::filter::spec_expand_all;
use crate::filter::spec_should_watch;
use crate::filter::PatternCompileError;
use crate::filter::PatternFilter;
use crate::template::spec_event_type;
use crate::template::spec_join;
use crate::template::spec_normalize;
use crate::template::ContextView;
use crate::template::TemplateContext;
use crate::text::str_eq;

verus! {

/// What probing the requested watch root on disk found: nothing there, a
/// non-directory, or a directory with its canonical absolute path.
#[derive(Debug)]
pub enum DirProbe {
    Missing,
    NotDirectory,
    Canonical(String),
}

/// Why a watcher could not be built.
#[derive(Debug)]
pub enum WatchError {
    DirectoryMissing { path: String },
    NotADirectory { path: String },
    Pattern(PatternCompileError),
}

impl WatchError {
    /// The failure described in one line.
    pub open spec fn spec_message(self) -> Seq<char> {
        match self {
            WatchError::DirectoryMissing { path } => "Directory does not exist: "@ + path@,
            WatchError::NotADirectory { path } => "Path is not a directory: "@ + path@,
            WatchError::Pattern(e) => e.spec_message(),
        }
    }

    /// The failure described in one line.
    pub fn message(&self) -> (r: String)
        ensures
            r@ == self.spec_message(),
    {
        match self {
            WatchError::DirectoryMissing { path } => {
                let mut s = String::new();
                s.append("Directory does not exist: ");
                s.append(path.as_str());
                s
            },
            WatchError::NotADirectory { path } => {
                let mut s = String::new();
                s.append("Path is not a directory: ");
                s.append(path.as_str());
                s
            },
            WatchError::Pattern(e) => e.message(),
        }
    }
}

/// The path of `path` relative to `root`, if `path` lies under `root`:
/// either they are equal, or `path` continues `root` across a `/`.
pub open spec fn spec_relative_to(root: Seq<char>, path: Seq<char>) -> Option<Seq<char>> {
    if path == root {
        Some(Seq::empty())
    } else if root.len() > 0 && root.last() == '/' && path.len() >= root.len() && path.take(
        root.len() as int,
    ) == root {
        Some(path.skip(root.len() as int))
    } else if path.len() > root.len() && path.take(root.len() as int) == root && path[root.len() as int]
        == '/' {
        Some(path.skip(root.len() as int + 1))
    } else {
        None
    }
}

/// One decided dispatch: the path relative to the root, the kind the event
/// was handled as, and the fully substituted command text.
#[derive(Debug)]
pub struct CommandPlan {
    pub relative_path: String,
    pub event_kind: EventKind,
    pub command: String,
}

/// The mathematical content of a decided dispatch.
pub struct CommandPlanView {
    pub relative_path: Seq<char>,
    pub event_kind: EventKind,
    pub command: Seq<char>,
}

impl View for CommandPlan {
    type V = CommandPlanView;

    open spec fn view(&self) -> CommandPlanView {
        CommandPlanView {
            relative_path: self.relative_path@,
            event_kind: self.event_kind,
            command: self.command@,
        }
    }
}

/// Where a raw event goes at intake: straight to dispatch, or into the
/// debounce map to mature there.
#[derive(Debug, Clone, Copy, PartialEq, Eq, Structural)]
pub enum EventRoute {
    Direct,
    Coalesce,
}

/// Main file watcher that monitors directory changes.
#[derive(Debug)]
pub struct FileWatcher {
    watch_path: String,
    filter: PatternFilter,
    command_config: CommandConfig,
    debounce_ms: u64,
}

impl FileWatcher {
    /// The canonical watch root.
    pub closed spec fn root(self) -> Seq<char> {
        self.watch_path@
    }

    /// The expanded include pattern texts.
    pub closed spec fn includes(self) -> Seq<Seq<char>> {
        self.filter.includes()
    }

    /// The expanded exclude pattern texts.
    pub closed spec fn excludes(self) -> Seq<Seq<char>> {
        self.filter.excludes()
    }

    /// The configured command templates.
    pub closed spec fn config(self) -> CommandConfig {
        self.command_config
    }

    /// The debounce window in milliseconds; zero disables debouncing.
    pub closed spec fn debounce(self) -> u64 {
        self.debounce_ms
    }

    /// The canonical watch root.
    pub fn root_path(&self) -> (r: &str)
        ensures
            r@ == self.root(),
    {
        self.watch_path.as_str()
    }

    /// The debounce window in milliseconds; zero disables debouncing.
    pub fn debounce_ms(&self) -> (r: u64)
        ensures
            r == self.debounce(),
    {
        self.debounce_ms
    }

    /// Where a raw event goes: with a zero debounce window straight to
    /// dispatch, otherwise into the coalescer to mature there.
    pub fn route_event(&self) -> (r: EventRoute)
        ensures
            r == EventRoute::Direct <==> self.debounce() == 0,
            r == EventRoute::Coalesce <==> self.debounce() > 0,
    {
        if self.debounce_ms == 0 {
            EventRoute::Direct
        } else {
            EventRoute::Coalesce
        }
    }

    /// How often, in milliseconds, the pending events should be swept for
    /// maturity: fine-grained while debouncing is enabled, and effectively
    /// never when it is disabled, since nothing is ever pending then.
    pub fn sweep_interval_ms(&self) -> (r: u64)
        ensures
            self.debounce() > 0 ==> r == 50,
            self.debounce() == 0 ==> r == 3600000,
    {
        if self.debounce_ms > 0 {
            50
        } else {
            3600000
        }
    }

    /// Create a new file watcher instance.
    ///
    /// `probe` is what the file system said about `watch_path`: the watcher
    /// is only built when the root is a directory, with `probe` carrying its
    /// canonical path, and with every pattern accepted by the glob crate.
    pub fn new(
        watch_path: String,
        probe: DirProbe,
        include_patterns: Vec<String>,
        exclude_patterns: Vec<String>,
        command_config: CommandConfig,
        debounce_ms: u64,
    ) -> (r: Result<FileWatcher, WatchError>)
        ensures
            ({
                let inc = spec_expand_all(include_patterns@.map_values(|s: String| s@));
                let exc = spec_expand_all(exclude_patterns@.map_values(|s: String| s@));
                &&& probe is Missing ==> (r matches Err(e) && e matches WatchError::DirectoryMissing {
                    path,
                } && path@ == watch_path@)
                &&& probe is NotDirectory ==> (r matches Err(e)
                    && e matches WatchError::NotADirectory { path } && path@ == watch_path@)
                &&& probe matches DirProbe::Canonical(c) ==> {
                    &&& r is Ok <==> all_valid(inc) && all_valid(exc)
                    &&& r matches Ok(w) ==> w.root() == c@ && w.includes() == inc && w.excludes()
                        == exc && w.config() == command_config && w.debounce() == debounce_ms
                    &&& r matches Err(e) ==> (e matches WatchError::Pattern(pe) && (if !all_valid(
                        inc,
                    ) {
                        pe.list is Include && is_first_invalid(inc, pe.pattern@)
                    } else {
                        pe.list is Exclude && is_first_invalid(exc, pe.pattern@)
                    }))
                }
            }),
    {
        let canonical = match probe {
            DirProbe::Missing => {
                return Err(WatchError::DirectoryMissing { path: watch_path });
            },
            DirProbe::NotDirectory => {
                return Err(WatchError::NotADirectory { path: watch_path });
            },
            DirProbe::Canonical(c) => c,
        };
        let filter = match PatternFilter::new(include_patterns, exclude_patterns) {
            Ok(f) => f,
            Err(e) => {
                return Err(WatchError::Pattern(e));
            },
        };
        Ok(FileWatcher { watch_path: canonical, filter, command_config, debounce_ms })
    }

    /// Get the path of an event relative to the watch root, if it lies
    /// under it.
    pub fn get_relative_path(&self, path: &str) -> (r: Option<String>)
        ensures
            r matches Some(s) ==> spec_relative_to(self.root(), path@) == Some(s@),
            r is None ==> spec_relative_to(self.root(), path@) is None,
    {
        let root_len = self.watch_path.unicode_len();
        let n = path.unicode_len();
        if str_eq(path, self.watch_path.as_str()) {
            let r = String::new();
            proof {
                assert(r@ =~= Seq::<char>::empty());
            }
            return Some(r);
        }
        if root_len > 0 && self.watch_path.get_char(root_len - 1) == '/' && n >= root_len && str_eq(
            path.substring_char(0, root_len),
            self.watch_path.as_str(),
        ) {
            return Some(path.substring_char(root_len, n).to_owned());
        }
        if n > root_len && str_eq(path.substring_char(0, root_len), self.watch_path.as_str())
            && path.get_char(root_len) == '/' {
            return Some(path.substring_char(root_len + 1, n).to_owned());
        }
        None
    }

    /// The template context an event path is dispatched with.
    pub open spec fn spec_context_for(self, path: Seq<char>, rel: Seq<char>, kind: EventKind) -> ContextView {
        ContextView {
            file_path: spec_normalize(path),
            relative_path: spec_normalize(rel),
            event_type: spec_event_type(kind),
            absolute_path: spec_normalize(spec_join(self.root(), rel)),
        }
    }

    /// The decision for one affected path: nothing when the path lies
    /// outside the root, is filtered out, or no command applies; otherwise
    /// the reclassified kind and the substituted command.
    pub open spec fn spec_plan_path(self, path: Seq<char>, kind: EventKind, path_exists: bool) -> Option<
        CommandPlanView,
    > {
        match spec_relative_to(self.root(), path) {
            None => None,
            Some(rel) => {
                if !spec_should_watch(self.includes(), self.excludes(), rel) {
                    None
                } else {
                    let fk = spec_resolve_kind(kind, path_exists);
                    match self.config().spec_command_for(fk) {
                        None => None,
                        Some(tmpl) => Some(
                            CommandPlanView {
                                relative_path: rel,
                                event_kind: fk,
                                command: self.spec_context_for(path, rel, fk).spec_substitute(
                                    tmpl@,
                                ),
                            },
                        ),
                    }
                }
            },
        }
    }

    /// Decide what one affected path leads to.
    ///
    /// `path_exists` is whether the path is currently present on disk; it
    /// only matters for rename-class modifications, which are handled as
    /// removals when the path is gone.
    pub fn plan_for_path(&self, path: &str, event_kind: &EventKind, path_exists: bool) -> (r:
        Option<CommandPlan>)
        ensures
            r matches Some(p) ==> self.spec_plan_path(path@, *event_kind, path_exists) == Some(p@),
            r is None ==> self.spec_plan_path(path@, *event_kind, path_exists) is None,
    {
        let rel = match self.get_relative_path(path) {
            Some(r) => r,
            None => {
                return None;
            },
        };
        if !self.filter.should_watch(rel.as_str()) {
            return None;
        }
        let fk = resolve_kind(event_kind, path_exists);
        let template = match self.command_config.get_command_for_event(&fk) {
            Some(t) => t,
            None => {
                return None;
            },
        };
        let context = TemplateContext::new(path, rel.as_str(), &fk, self.watch_path.as_str());
        let command = context.substitute_template(template.as_str());
        Some(CommandPlan { relative_path: rel, event_kind: fk, command })
    }

    /// The decisions for an event's paths, in order, dropping those that
    /// lead to nothing.
    pub open spec fn spec_plans(
        self,
        kind: EventKind,
        paths: Seq<Seq<char>>,
        exists_flags: Seq<bool>,
    ) -> Seq<CommandPlanView>
        decreases paths.len(),
    {
        if paths.len() == 0 {
            Seq::empty()
        } else {
            (match self.spec_plan_path(paths[0], kind, exists_flags[0]) {
                Some(p) => seq![p],
                None => Seq::empty(),
            }) + self.spec_plans(kind, paths.skip(1), exists_flags.skip(1))
        }
    }

    /// Handle a file system event: decide, for each affected path, which
    /// command to launch. `path_exists` answers, per path, whether it is
    /// currently present on disk.
    pub fn plan_event(&self, event: &RawEvent, path_exists: &Vec<bool>) -> (r: Vec<CommandPlan>)
        requires
            path_exists@.len() == event.paths@.len(),
        ensures
            r@.map_values(|p: CommandPlan| p@) == self.spec_plans(
                event@.kind,
                event@.paths,
                path_exists@,
            ),
    {
        let mut out: Vec<CommandPlan> = Vec::new();
        let n = event.paths.len();
        let mut i: usize = 0;
        proof {
            lemma_plans_snoc_base(*self, event@.kind, event@.paths, path_exists@);
        }
        while i < n
            invariant
                i <= n,
                n == event.paths@.len(),
                path_exists@.len() == n,
                out@.map_values(|p: CommandPlan| p@) == self.spec_plans(
                    event@.kind,
                    event@.paths.take(i as int),
                    path_exists@.take(i as int),
                ),
            decreases n - i,
        {
            let path = &event.paths[i];
            let plan = self.plan_for_path(path.as_str(), &event.kind, path_exists[i]);
            proof {
                assert(path@ == event@.paths[i as int]);
                lemma_plans_snoc(*self, event@.kind, event@.paths, path_exists@, i as int);
            }
            match plan {
                Some(p) => {
                    let ghost prev = out@;
                    let ghost pview = p@;
                    out.push(p);
                    proof {
                        prev.lemma_push_map_commute(|p: CommandPlan| p@, p);
                        assert(out@.map_values(|p: CommandPlan| p@) =~= self.spec_plans(
                            event@.kind,
                            event@.paths.take(i as int),
                            path_exists@.take(i as int),
                        ) + seq![pview]);
                        assert(out@.map_values(|p: CommandPlan| p@) =~= self.spec_plans(
                            event@.kind,
                            event@.paths.take(i + 1),
                            path_exists@.take(i + 1),
                        ));
                    }
                },
                None => {
                    proof {
                        assert(out@.map_values(|p: CommandPlan| p@) + Seq::<
                            CommandPlanView,
                        >::empty() =~= out@.map_values(|p: CommandPlan| p@));
                        assert(out@.map_values(|p: CommandPlan| p@) =~= self.spec_plans(
                            event@.kind,
                            event@.paths.take(i + 1),
                            path_exists@.take(i + 1),
                        ));
                    }
                },
            }
            i = i + 1;
        }
        proof {
            assert(event@.paths.take(n as int) =~= event@.paths);
            assert(path_exists@.take(n as int) =~= path_exists@);
        }
        out
    }
}

/// Build the watcher a parsed command line asks for. `probe` is what the
/// file system said about the requested directory.
pub fn create_watcher_from_args(args: Args, probe: DirProbe) -> (r: Result<FileWatcher, WatchError>)
    ensures
        ({
            let inc = spec_expand_all(args.include_patterns@.map_values(|s: String| s@));
            let exc = spec_expand_all(args.exclude_patterns@.map_values(|s: String| s@));
            let config = CommandConfig {
                on_create: args.on_create,
                on_modify: args.on_modify,
                on_delete: args.on_delete,
                on_change: args.on_change,
            };
            &&& probe is Missing ==> (r matches Err(e) && e matches WatchError::DirectoryMissing {
                path,
            } && path@ == args.directory@)
            &&& probe is NotDirectory ==> (r matches Err(e) && e matches WatchError::NotADirectory {
                path,
            } && path@ == args.directory@)
            &&& probe matches DirProbe::Canonical(c) ==> {
                &&& r is Ok <==> all_valid(inc) && all_valid(exc)
                &&& r matches Ok(w) ==> w.root() == c@ && w.includes() == inc && w.excludes() == exc
                    && w.config() == config && w.debounce() == args.debounce
                &&& r matches Err(e) ==> (e matches WatchError::Pattern(pe) && (if !all_valid(inc) {
                    pe.list is Include && is_first_invalid(inc, pe.pattern@)
                } else {
                    pe.list is Exclude && is_first_invalid(exc, pe.pattern@)
                }))
            }
        }),
{
    FileWatcher::new(
        args.directory,
        probe,
        args.include_patterns,
        args.exclude_patterns,
        CommandConfig {
            on_create: args.on_create,
            on_modify: args.on_modify,
            on_delete: args.on_delete,
            on_change: args.on_change,
        },
        args.debounce,
    )
}

/// The plans of an empty prefix are empty.
proof fn lemma_plans_snoc_base(
    w: FileWatcher,
    kind: EventKind,
    paths: Seq<Seq<char>>,
    exists_flags: Seq<bool>,
)
    ensures
        w.spec_plans(kind, paths.take(0), exists_flags.take(0)) == Seq::<CommandPlanView>::empty(),
{
    assert(paths.take(0) =~= Seq::<Seq<char>>::empty());
    assert(exists_flags.take(0) =~= Seq::<bool>::empty());
}

/// Extending the prefix by one path appends that path's plan, if any.
proof fn lemma_plans_snoc(
    w: FileWatcher,
    kind: EventKind,
    paths: Seq<Seq<char>>,
    exists_flags: Seq<bool>,
    i: int,
)
    requires
        0 <= i < paths.len(),
        exists_flags.len() == paths.len(),
    ensures
        w.spec_plans(kind, paths.take(i + 1), exists_flags.take(i + 1)) == w.spec_plans(
            kind,
            paths.take(i),
            exists_flags.take(i),
        ) + (match w.spec_plan_path(paths[i], kind, exists_flags[i]) {
            Some(p) => seq![p],
            None => Seq::<CommandPlanView>::empty(),
        }),
    decreases i,
{
    if i == 0 {
        assert(paths.take(1) =~= seq![paths[0]]);
        assert(paths.take(1).skip(1) =~= Seq::<Seq<char>>::empty());
        assert(exists_flags.take(1).skip(1) =~= Seq::<bool>::empty());
        assert(paths.take(0) =~= Seq::<Seq<char>>::empty());
        assert(exists_flags.take(0) =~= Seq::<bool>::empty());
        assert(w.spec_plans(kind, paths.take(1), exists_flags.take(1)) =~= w.spec_plans(
            kind,
            paths.take(0),
            exists_flags.take(0),
        ) + (match w.spec_plan_path(paths[0], kind, exists_flags[0]) {
            Some(p) => seq![p],
            None => Seq::<CommandPlanView>::empty(),
        }));
    } else {
        let tp = paths.skip(1);
        let te = exists_flags.skip(1);
        lemma_plans_snoc(w, kind, tp, te, i - 1);
        assert(paths.take(i + 1).skip(1) =~= tp.take(i));
        assert(paths.take(i).skip(1) =~= tp.take(i - 1));
        assert(exists_flags.take(i + 1).skip(1) =~= te.take(i));
        assert(exists_flags.take(i).skip(1) =~= te.take(i - 1));
        assert(paths.take(i + 1)[0] == paths[0]);
        assert(paths.take(i)[0] == paths[0]);
        assert(exists_flags.take(i + 1)[0] == exists_flags[0]);
        assert(exists_flags.take(i)[0] == exists_flags[0]);
        assert(tp[i - 1] == paths[i]);
        assert(te[i - 1] == exists_flags[i]);
        assert(w.spec_plans(kind, paths.take(i + 1), exists_flags.take(i + 1)) =~= w.spec_plans(
            kind,
            paths.take(i),
            exists_flags.take(i),
        ) + (match w.spec_plan_path(paths[i], kind, exists_flags[i]) {
            Some(p) => seq![p],
            None => Seq::<CommandPlanView>::empty(),
        }));
    }
}

} // verus!
