//! Event kinds reported by the file-system notifier, and the per-kind
//! command configuration with its fallback resolution rule.

use vstd::prelude::*;

verus! {

/// The sub-kind of a modification notification. `Name` marks rename-class
/// notifications, which some editors emit in place of a removal.
#[derive(Debug, Clone, Copy, PartialEq, Eq, Structural)]
pub enum ModifySubkind {
    Data,
    Name,
    Other,
}

/// The kind of a raw file-system notification.
#[derive(Debug, Clone, Copy, PartialEq, Eq, Structural)]
pub enum EventKind {
    Create,
    Modify(ModifySubkind),
    Remove,
    Other,
}

/// Optional command templates, one per event kind, with `on_change` as the
/// fallback for kinds whose specific command is absent. Built once at startup.
#[derive(Debug, Clone)]
pub struct CommandConfig {
    pub on_create: Option<String>,
    pub on_modify: Option<String>,
    pub on_delete: Option<String>,
    pub on_change: Option<String>,
}

/// The first of `a` and `b` that is present, if either is.
pub open spec fn spec_or_else(a: Option<String>, b: Option<String>) -> Option<String> {
    if a is Some {
        a
    } else {
        b
    }
}

impl CommandConfig {
    /// The command that applies to an event of kind `kind`: the kind-specific
    /// command if configured, else the `on_change` fallback, else none.
    pub open spec fn spec_command_for(self, kind: EventKind) -> Option<String> {
        match kind {
            EventKind::Create => spec_or_else(self.on_create, self.on_change),
            EventKind::Modify(_) => spec_or_else(self.on_modify, self.on_change),
            EventKind::Remove => spec_or_else(self.on_delete, self.on_change),
            EventKind::Other => self.on_change,
        }
    }

    /// Get the appropriate command for an event kind.
    pub fn get_command_for_event(&self, event_kind: &EventKind) -> (r: Option<&String>)
        ensures
            r matches Some(s) ==> self.spec_command_for(*event_kind) == Some(*s),
            r is None ==> self.spec_command_for(*event_kind) is None,
    {
        match event_kind {
            EventKind::Create => or_else_ref(&self.on_create, &self.on_change),
            EventKind::Modify(_) => or_else_ref(&self.on_modify, &self.on_change),
            EventKind::Remove => or_else_ref(&self.on_delete, &self.on_change),
            EventKind::Other => or_else_ref(&self.on_change, &self.on_change),
        }
    }
}

/// A raw notification from the file-system notifier: a kind and the
/// absolute paths it affects.
#[derive(Debug)]
pub struct RawEvent {
    pub kind: EventKind,
    pub paths: Vec<String>,
}

/// The mathematical content of a raw notification.
pub struct RawEventView {
    pub kind: EventKind,
    pub paths: Seq<Seq<char>>,
}

impl View for RawEvent {
    type V = RawEventView;

    open spec fn view(&self) -> RawEventView {
        RawEventView { kind: self.kind, paths: self.paths@.map_values(|s: String| s@) }
    }
}

/// A copy of the event, field by field.
pub fn clone_event(event: &RawEvent) -> (r: RawEvent)
    ensures
        r@ == event@,
{
    let mut paths: Vec<String> = Vec::new();
    let mut i: usize = 0;
    while i < event.paths.len()
        invariant
            i <= event.paths.len(),
            paths@.map_values(|s: String| s@) == event.paths@.map_values(|s: String| s@).take(
                i as int,
            ),
        decreases event.paths.len() - i,
    {
        let s = event.paths[i].clone();
        let ghost prev = paths@;
        paths.push(s);
        proof {
            let ghost views = event.paths@.map_values(|s: String| s@);
            prev.lemma_push_map_commute(|s: String| s@, s);
            assert(views.take(i + 1) =~= views.take(i as int).push(views[i as int]));
            assert(paths@.map_values(|s: String| s@) =~= views.take(i + 1));
        }
        i = i + 1;
    }
    proof {
        let ghost views = event.paths@.map_values(|s: String| s@);
        assert(views.take(views.len() as int) =~= views);
    }
    RawEvent { kind: event.kind, paths }
}

/// The kind an event is handled as: a rename-class modification whose path
/// no longer exists on disk is treated as a removal; every other kind is
/// kept as observed.
pub open spec fn spec_resolve_kind(kind: EventKind, path_exists: bool) -> EventKind {
    if kind == EventKind::Modify(ModifySubkind::Name) && !path_exists {
        EventKind::Remove
    } else {
        kind
    }
}

/// Apply the rename-to-removal reclassification.
pub fn resolve_kind(kind: &EventKind, path_exists: bool) -> (r: EventKind)
    ensures
        r == spec_resolve_kind(*kind, path_exists),
{
    if *kind == EventKind::Modify(ModifySubkind::Name) && !path_exists {
        EventKind::Remove
    } else {
        *kind
    }
}

/// A rename-class modification of a path that is gone from disk resolves to
/// the removal command: `on_delete` when configured, else the `on_change`
/// fallback, never `on_modify`.
pub proof fn lemma_missing_rename_resolves_to_delete(config: CommandConfig)
    ensures
        config.spec_command_for(spec_resolve_kind(EventKind::Modify(ModifySubkind::Name), false))
            == spec_or_else(config.on_delete, config.on_change),
{
}

/// A reference to the first of `a` and `b` that is present, if either is.
fn or_else_ref<'a>(a: &'a Option<String>, b: &'a Option<String>) -> (r: Option<&'a String>)
    ensures
        r matches Some(s) ==> spec_or_else(*a, *b) == Some(*s),
        r is None ==> spec_or_else(*a, *b) is None,
{
    match a {
        Some(s) => Some(s),
        None => match b {
            Some(s) => Some(s),
            None => None,
        },
    }
}

} // verus!
