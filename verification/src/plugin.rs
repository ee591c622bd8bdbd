//! The plugin registry: what plugins declare in their manifest (commands,
//! keybindings, event subscriptions) and the single binding table that maps a
//! canonical chord to a built-in action or a plugin command.
//!
//! Precedence on a chord collision, later winning: core defaults, then plugin
//! manifest chords, with a user override replacing a plugin's declared chord.

use vstd::prelude::*;
use crate::keys::{action_at, canonical, canonical_spec, lemma_default_chords_distinct, CoreAction, KeyConfig};
use crate::strmap::StrMap;
use crate::text::{chars_of, is_prefix, starts_with_at};

verus! {

pub type PluginId = usize;

/// The JSON-RPC plugin protocol version the host speaks. Sent in `initialize`;
/// plugins may echo it back in their manifest so the host can warn on a
/// mismatch.
pub const PROTOCOL_VERSION: u32 = 1;

/// What a plugin declares in its initialize response.
#[derive(Debug, Default)]
pub struct Manifest {
    pub name: String,
    pub commands: Vec<CommandDef>,
    pub keybindings: Vec<KeyBinding>,
    pub events: Vec<String>,
    /// The protocol version the plugin was written against, if it says.
    pub protocol_version: Option<u32>,
}

#[derive(Debug)]
pub struct CommandDef {
    pub id: String,
    pub title: String,
}

#[derive(Debug)]
pub struct KeyBinding {
    /// e.g. "prefix |" — a chord after the prefix key.
    pub keys: String,
    pub command: String,
}

/// What the host reads of a JSON-RPC line from a plugin before anything else:
/// its `method`, when that is a string, and whether it carries a `result`.
pub struct Envelope {
    pub method: Option<String>,
    pub has_result: bool,
}

/// What a plugin's line is to the host.
#[derive(Clone, Copy, Debug, PartialEq, Eq, Structural)]
pub enum LineKind {
    /// A `host/*` action request.
    HostAction,
    /// The answer to `initialize`: the manifest.
    Manifest,
    /// Anything else (a plugin's own notification, say): ignored.
    Ignored,
}

/// A line with a method is a host action when the method starts with
/// `host/`, else ignored; a line without one is the manifest when it carries
/// a result, else ignored.
pub open spec fn line_kind(method: Option<Seq<char>>, has_result: bool) -> LineKind {
    match method {
        Some(m) => if is_prefix("host/"@, m) {
            LineKind::HostAction
        } else {
            LineKind::Ignored
        },
        None => if has_result {
            LineKind::Manifest
        } else {
            LineKind::Ignored
        },
    }
}

/// Classify a plugin's line by its envelope.
pub fn classify(env: &Envelope) -> (k: LineKind)
    ensures
        k == line_kind(
            match env.method {
                Some(m) => Some(m@),
                None => None,
            },
            env.has_result,
        ),
{
    match &env.method {
        Some(m) => {
            let v = chars_of(m.as_str());
            let p = chars_of("host/");
            assert(v@.subrange(0, v@.len() as int) =~= v@);
            if starts_with_at(v.as_slice(), 0, p.as_slice()) {
                LineKind::HostAction
            } else {
                LineKind::Ignored
            }
        },
        None => if env.has_result {
            LineKind::Manifest
        } else {
            LineKind::Ignored
        },
    }
}

/// What a chord triggers: a built-in action handled by the window, or a plugin
/// command (by id and owning plugin).
#[derive(Clone, Debug, PartialEq)]
pub enum Action {
    Core(CoreAction),
    Plugin { command: String, plugin: PluginId },
}

/// The single source of truth for "which chord does what". Core actions and
/// plugin commands share one keymap, so a user's `keys.toml` can rebind either.
pub struct Registry {
    /// command id -> owning plugin.
    pub commands: StrMap<PluginId>,
    /// canonical chord -> action.
    pub keymap: StrMap<Action>,
    /// event name -> subscribed plugins.
    pub events: StrMap<Vec<PluginId>>,
    /// The canonical chord that opens a prefix sequence (default `ctrl+a`).
    pub prefix: String,
    /// User overrides: command id -> canonical chord (replace the plugin's own).
    pub command_overrides: StrMap<String>,
}

/// The keymap seeded from the first `n` core chords of a key configuration.
pub open spec fn core_keymap(core: Seq<(CoreAction, String)>, n: int) -> Map<Seq<char>, Action>
    decreases n,
{
    if n <= 0 {
        Map::empty()
    } else {
        core_keymap(core, n - 1).insert(core[n - 1].1@, Action::Core(core[n - 1].0))
    }
}

/// The chord a manifest keybinding ends up on: the user's override for its
/// command if there is one, else its own chord canonicalized.
pub open spec fn binding_chord(
    overrides: Map<Seq<char>, String>,
    k: KeyBinding,
) -> Option<Seq<char>> {
    if overrides.contains_key(k.command@) {
        Some(overrides[k.command@]@)
    } else {
        canonical_spec(k.keys@)
    }
}

/// The keymap after binding the first `n` keybindings of `plugin`.
pub open spec fn bind_all(
    base: Map<Seq<char>, Action>,
    overrides: Map<Seq<char>, String>,
    kbs: Seq<KeyBinding>,
    n: int,
    plugin: PluginId,
) -> Map<Seq<char>, Action>
    decreases n,
{
    if n <= 0 {
        base
    } else {
        let prior = bind_all(base, overrides, kbs, n - 1, plugin);
        match binding_chord(overrides, kbs[n - 1]) {
            Some(c) => prior.insert(c, Action::Plugin { command: kbs[n - 1].command, plugin }),
            None => prior,
        }
    }
}

/// The command table after registering the first `n` commands of `plugin`.
pub open spec fn register_all(
    base: Map<Seq<char>, PluginId>,
    cmds: Seq<CommandDef>,
    n: int,
    plugin: PluginId,
) -> Map<Seq<char>, PluginId>
    decreases n,
{
    if n <= 0 {
        base
    } else {
        register_all(base, cmds, n - 1, plugin).insert(cmds[n - 1].id@, plugin)
    }
}

/// The subscribers of each event, as sequences.
pub open spec fn subscribers(m: Map<Seq<char>, Vec<PluginId>>) -> Map<Seq<char>, Seq<PluginId>> {
    m.map_values(|v: Vec<PluginId>| v@)
}

/// The subscriptions after `plugin` subscribes to the first `n` events.
pub open spec fn subscribe_all(
    base: Map<Seq<char>, Seq<PluginId>>,
    events: Seq<String>,
    n: int,
    plugin: PluginId,
) -> Map<Seq<char>, Seq<PluginId>>
    decreases n,
{
    if n <= 0 {
        base
    } else {
        let prior = subscribe_all(base, events, n - 1, plugin);
        let e = events[n - 1]@;
        let subs = if prior.contains_key(e) { prior[e] } else { Seq::empty() };
        prior.insert(e, subs.push(plugin))
    }
}

fn copy_ids(v: &Vec<PluginId>) -> (r: Vec<PluginId>)
    ensures
        r@ == v@,
{
    let mut r: Vec<PluginId> = Vec::new();
    let mut i: usize = 0;
    while i < v.len()
        invariant
            i <= v@.len(),
            r@ == v@.subrange(0, i as int),
        decreases v.len() - i,
    {
        r.push(v[i]);
        i += 1;
    }
    assert(r@ =~= v@);
    r
}

impl Registry {
    pub open spec fn overrides(self) -> Map<Seq<char>, String> {
        self.command_overrides@
    }

    /// Seed the table from the key configuration: the prefix, every core
    /// action's chord (in the configuration's order, a later one winning a
    /// shared chord), and the per-command overrides applied as plugins register.
    pub fn new(cfg: &KeyConfig) -> (r: Self)
        ensures
            r.keymap@ == core_keymap(cfg.core@, cfg.core@.len() as int),
            r.commands@ == Map::<Seq<char>, PluginId>::empty(),
            r.events@ == Map::<Seq<char>, Vec<PluginId>>::empty(),
            r.prefix@ == cfg.prefix@,
            r.overrides() == cfg.commands@,
    {
        let mut keymap: StrMap<Action> = StrMap::new();
        let mut i: usize = 0;
        while i < cfg.core.len()
            invariant
                i <= cfg.core@.len(),
                keymap@ == core_keymap(cfg.core@, i as int),
            decreases cfg.core.len() - i,
        {
            keymap.insert(cfg.core[i].1.clone(), Action::Core(cfg.core[i].0));
            i += 1;
        }
        Registry {
            commands: StrMap::new(),
            keymap,
            events: StrMap::new(),
            prefix: cfg.prefix.clone(),
            command_overrides: cfg.commands.duplicate(),
        }
    }

    /// Record what plugin `plugin` registers: its commands, its keybindings
    /// (each on the user's override chord for its command if there is one, else
    /// on its own chord canonicalized; one that does not canonicalize is
    /// skipped), and its event subscriptions.
    pub fn apply_manifest(&mut self, plugin: PluginId, m: &Manifest)
        ensures
            final(self).commands@ == register_all(
                old(self).commands@,
                m.commands@,
                m.commands@.len() as int,
                plugin,
            ),
            final(self).keymap@ == bind_all(
                old(self).keymap@,
                old(self).overrides(),
                m.keybindings@,
                m.keybindings@.len() as int,
                plugin,
            ),
            subscribers(final(self).events@) == subscribe_all(
                subscribers(old(self).events@),
                m.events@,
                m.events@.len() as int,
                plugin,
            ),
            final(self).prefix == old(self).prefix,
            final(self).overrides() == old(self).overrides(),
    {
        let mut i: usize = 0;
        while i < m.commands.len()
            invariant
                i <= m.commands@.len(),
                self.commands@ == register_all(old(self).commands@, m.commands@, i as int, plugin),
                self.keymap@ == old(self).keymap@,
                self.events@ == old(self).events@,
                self.prefix == old(self).prefix,
                self.overrides() == old(self).overrides(),
            decreases m.commands.len() - i,
        {
            self.commands.insert(m.commands[i].id.clone(), plugin);
            i += 1;
        }
        let mut j: usize = 0;
        while j < m.keybindings.len()
            invariant
                j <= m.keybindings@.len(),
                self.commands@ == register_all(
                    old(self).commands@,
                    m.commands@,
                    m.commands@.len() as int,
                    plugin,
                ),
                self.keymap@ == bind_all(
                    old(self).keymap@,
                    old(self).overrides(),
                    m.keybindings@,
                    j as int,
                    plugin,
                ),
                self.events@ == old(self).events@,
                self.prefix == old(self).prefix,
                self.overrides() == old(self).overrides(),
            decreases m.keybindings.len() - j,
        {
            let k = &m.keybindings[j];
            let chord = match self.command_overrides.get(k.command.as_str()) {
                Some(c) => Some(c.clone()),
                None => canonical(k.keys.as_str()),
            };
            if let Some(c) = chord {
                self.keymap.insert(c, Action::Plugin { command: k.command.clone(), plugin });
            }
            j += 1;
        }
        let mut e: usize = 0;
        while e < m.events.len()
            invariant
                e <= m.events@.len(),
                self.commands@ == register_all(
                    old(self).commands@,
                    m.commands@,
                    m.commands@.len() as int,
                    plugin,
                ),
                self.keymap@ == bind_all(
                    old(self).keymap@,
                    old(self).overrides(),
                    m.keybindings@,
                    m.keybindings@.len() as int,
                    plugin,
                ),
                subscribers(self.events@) == subscribe_all(
                    subscribers(old(self).events@),
                    m.events@,
                    e as int,
                    plugin,
                ),
                self.prefix == old(self).prefix,
                self.overrides() == old(self).overrides(),
            decreases m.events.len() - e,
        {
            let ghost before = subscribers(self.events@);
            let mut subs = match self.events.get(m.events[e].as_str()) {
                Some(v) => copy_ids(v),
                None => Vec::new(),
            };
            subs.push(plugin);
            let ghost sv = subs@;
            self.events.insert(m.events[e].clone(), subs);
            assert(subscribers(self.events@) =~= before.insert(m.events@[e as int]@, sv));
            e += 1;
        }
    }

    /// Resolve a canonical chord to its action, if any.
    pub fn action_for_chord(&self, chord: &str) -> (r: Option<&Action>)
        ensures
            match r {
                Some(a) => self.keymap@.contains_key(chord@) && self.keymap@[chord@] == *a,
                None => !self.keymap@.contains_key(chord@),
            },
    {
        self.keymap.get(chord)
    }

    /// The chord that opens a prefix sequence.
    pub fn prefix(&self) -> (s: &str)
        ensures
            s@ == self.prefix@,
    {
        self.prefix.as_str()
    }
}

impl Default for Registry {
    /// The registry of the built-in key configuration.
    fn default() -> (r: Self)
        ensures
            forall|a: CoreAction| #[trigger]
                r.keymap@.contains_key(a.default_chord_spec()) && r.keymap@[a.default_chord_spec()]
                    == Action::Core(a),
            r.commands@ == Map::<Seq<char>, PluginId>::empty(),
            r.events@ == Map::<Seq<char>, Vec<PluginId>>::empty(),
            r.prefix@ == "ctrl+a"@,
            r.overrides() == Map::<Seq<char>, String>::empty(),
    {
        let cfg = KeyConfig::default();
        let r = Registry::new(&cfg);
        proof {
            reveal_with_fuel(core_keymap, 8);
            assert forall|a: CoreAction| #[trigger]
                r.keymap@.contains_key(a.default_chord_spec()) && r.keymap@[a.default_chord_spec()]
                    == Action::Core(a) by {
                assert forall|b: CoreAction| b != a implies #[trigger] cfg.core_chord_spec(b)
                    != a.default_chord_spec() by {
                    lemma_default_chords_distinct(a, b);
                }
                assert(cfg.core@[0].0 == action_at(0));
                assert(cfg.core@[1].0 == action_at(1));
                assert(cfg.core@[2].0 == action_at(2));
                assert(cfg.core@[3].0 == action_at(3));
                assert(cfg.core@[4].0 == action_at(4));
                assert(cfg.core@[5].0 == action_at(5));
                assert(cfg.core@[6].0 == action_at(6));
                assert(cfg.core_chord_spec(CoreAction::Recall) == cfg.core@[0].1@);
                assert(cfg.core_chord_spec(CoreAction::Search) == cfg.core@[1].1@);
                assert(cfg.core_chord_spec(CoreAction::LiteralPrefix) == cfg.core@[2].1@);
                assert(cfg.core_chord_spec(CoreAction::Copy) == cfg.core@[3].1@);
                assert(cfg.core_chord_spec(CoreAction::Paste) == cfg.core@[4].1@);
                assert(cfg.core_chord_spec(CoreAction::ScrollUp) == cfg.core@[5].1@);
                assert(cfg.core_chord_spec(CoreAction::ScrollDown) == cfg.core@[6].1@);
            }
        }
        r
    }
}

/// After a manifest's keybindings are bound, a chord claimed by a keybinding
/// triggers the last keybinding that claimed it.
pub proof fn law_last_binding_wins(
    base: Map<Seq<char>, Action>,
    overrides: Map<Seq<char>, String>,
    kbs: Seq<KeyBinding>,
    n: int,
    plugin: PluginId,
    i: int,
)
    requires
        0 <= i < n <= kbs.len(),
        binding_chord(overrides, kbs[i]) is Some,
        forall|j: int|
            i < j < n ==> binding_chord(overrides, #[trigger] kbs[j]) != binding_chord(
                overrides,
                kbs[i],
            ),
    ensures
        ({
            let c = binding_chord(overrides, kbs[i])->0;
            let m = bind_all(base, overrides, kbs, n, plugin);
            m.contains_key(c) && m[c] == Action::Plugin { command: kbs[i].command, plugin }
        }),
    decreases n,
{
    if n - 1 > i {
        law_last_binding_wins(base, overrides, kbs, n - 1, plugin, i);
        assert(binding_chord(overrides, kbs[n - 1]) != binding_chord(overrides, kbs[i]));
    }
}

/// A chord that no keybinding of the manifest claims keeps whatever it was
/// bound to before; in particular a plugin's declared chord for a command the
/// user has overridden is left alone (the binding goes to the override chord).
pub proof fn law_unclaimed_chord_kept(
    base: Map<Seq<char>, Action>,
    overrides: Map<Seq<char>, String>,
    kbs: Seq<KeyBinding>,
    n: int,
    plugin: PluginId,
    c: Seq<char>,
)
    requires
        0 <= n <= kbs.len(),
        forall|j: int| 0 <= j < n ==> binding_chord(overrides, #[trigger] kbs[j]) != Some(c),
    ensures
        bind_all(base, overrides, kbs, n, plugin).contains_key(c) == base.contains_key(c),
        base.contains_key(c) ==> bind_all(base, overrides, kbs, n, plugin)[c] == base[c],
    decreases n,
{
    if n > 0 {
        law_unclaimed_chord_kept(base, overrides, kbs, n - 1, plugin, c);
        assert(binding_chord(overrides, kbs[n - 1]) != Some(c));
    }
}

/// After a manifest is applied, each of its commands belongs to the plugin
/// that sent it (a command id declared again by a later plugin moves to that
/// plugin).
pub proof fn law_manifest_owns_commands(
    base: Map<Seq<char>, PluginId>,
    cmds: Seq<CommandDef>,
    n: int,
    plugin: PluginId,
    i: int,
)
    requires
        0 <= i < n <= cmds.len(),
    ensures
        register_all(base, cmds, n, plugin).contains_key(cmds[i].id@),
        register_all(base, cmds, n, plugin)[cmds[i].id@] == plugin,
    decreases n,
{
    if n - 1 > i {
        law_manifest_owns_commands(base, cmds, n - 1, plugin, i);
    }
}

/// After a manifest is applied, the plugin is the last subscriber of each
/// event it names, and every earlier subscriber of an event stays subscribed,
/// in its place: manifests applied one after another each add their plugin.
pub proof fn law_manifest_subscribes(
    base: Map<Seq<char>, Seq<PluginId>>,
    events: Seq<String>,
    n: int,
    plugin: PluginId,
)
    requires
        0 <= n <= events.len(),
    ensures
        forall|i: int|
            0 <= i < n ==> #[trigger] subscribe_all(base, events, n, plugin).contains_key(events[i]@)
                && subscribe_all(base, events, n, plugin)[events[i]@].len() > 0
                && subscribe_all(base, events, n, plugin)[events[i]@].last() == plugin,
        forall|e: Seq<char>|
            #[trigger] base.contains_key(e) ==> subscribe_all(base, events, n, plugin).contains_key(e)
                && subscribe_all(base, events, n, plugin)[e].len() >= base[e].len()
                && subscribe_all(base, events, n, plugin)[e].take(base[e].len() as int) == base[e],
    decreases n,
{
    if n > 0 {
        law_manifest_subscribes(base, events, n - 1, plugin);
        let prior = subscribe_all(base, events, n - 1, plugin);
        let cur = subscribe_all(base, events, n, plugin);
        assert forall|e: Seq<char>| #[trigger] base.contains_key(e) implies cur.contains_key(e)
            && cur[e].len() >= base[e].len() && cur[e].take(base[e].len() as int) == base[e] by {
            if e == events[n - 1]@ {
                assert(cur[e] == prior[e].push(plugin));
                assert(prior[e].push(plugin).take(base[e].len() as int) =~= prior[e].take(
                    base[e].len() as int,
                ));
            }
        }
    }
}

} // verus!
