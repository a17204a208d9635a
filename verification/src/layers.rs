//! Reading `~/.gpui-vimrc`-style config files into an engine, layer by layer.
//!
//! Multiple apps may share one user rc file; action ids differ per app, so
//! hosts should load a HOST-SPECIFIC layer on top (it wins) and may opt into
//! lenient action dispatch (unknown ids ignored instead of reported).
//!
//! Files are read by the caller: a [`Loading`] says which file it wants next,
//! and takes what was read.
use crate::config::{parse, parsed_config, ConfigStats, RcFile};
use crate::doc::min;
use crate::options::Options;
use crate::shift::plus;
use crate::state::{text_of, texts_of, Vim, VimState};
use crate::strs::{chars_of, copy_str, has_prefix, same_str, starts_with, string_of};
use vstd::prelude::*;

verus! {

/// `source` directives may not chain forever (a cycle or a prank rc would
/// otherwise loop); vim caps `:source` depth similarly.
pub const MAX_SOURCE_DEPTH: usize = 4;

// ---- paths ---------------------------------------------------------------------------------------

/// Where a path with an optional leading `~` lies.
#[derive(Debug, PartialEq, Eq)]
pub enum PathBase {
    /// `~`: the home directory itself.
    Home,
    /// `~/rest`: below the home directory.
    UnderHome(String),
    /// Anything else, taken as it is.
    Plain,
}

/// Reads a leading `~` / `~/`.
pub fn expand_tilde(path: &str) -> (b: PathBase)
    ensures
        match b {
            PathBase::Home => path@ == "~"@,
            PathBase::UnderHome(rest) => path@ == "~/"@ + rest@,
            PathBase::Plain => path@ != "~"@ && !has_prefix(path@, "~/"@),
        },
{
    if same_str(path, "~") {
        return PathBase::Home;
    }
    let chars = chars_of(path);
    if starts_with(&chars, "~/") {
        proof {
            reveal_strlit("~/");
            assert(path@ =~= "~/"@ + path@.subrange(2, path@.len() as int));
        }
        return PathBase::UnderHome(string_of(&chars, 2, chars.len()));
    }
    PathBase::Plain
}

// ---- layers --------------------------------------------------------------------------------------

/// How `:action <id>` behaves when the host does not know the id. Shared rc
/// files contain mappings aimed at OTHER apps, so multi-app setups usually
/// want [`ActionPolicy::Ignore`] in the user layer and strict reporting only
/// in the host-specific layer.
#[derive(Clone, Copy, Debug, PartialEq, Eq, Structural)]
pub enum ActionPolicy {
    /// Report unknown ids through the status channel (default).
    Report,
    /// Silently ignore unknown ids.
    Ignore,
}

impl Default for ActionPolicy {
    fn default() -> (p: Self)
        ensures
            p == ActionPolicy::Report,
    {
        ActionPolicy::Report
    }
}

/// Layered loading plan. The HOST layer is applied after (and therefore
/// wins over) the USER layer: later mappings/options override earlier ones
/// per vim's layered-rc convention.
#[derive(Debug, PartialEq, Eq)]
pub struct Layers {
    /// User's cross-app config, typically `~/.gpui-vimrc`. Loaded with
    /// [`ActionPolicy::Ignore`] — its `:action` mappings may target other
    /// apps, so unknown ids here are expected.
    pub user: Option<String>,
    /// App-specific config, typically `~/.config/<app>/vimrc` or embedded
    /// defaults. Overrides the user layer; loaded with
    /// [`ActionPolicy::Report`] so real mistakes surface.
    pub host: Option<String>,
}

/// One planned layer load.
#[derive(Debug, PartialEq, Eq)]
pub struct LayerPlan {
    pub path: String,
    pub action_policy: ActionPolicy,
}

pub open spec fn plans(v: Seq<LayerPlan>) -> Seq<(Seq<char>, ActionPolicy)> {
    v.map_values(|p: LayerPlan| (p.path@, p.action_policy))
}

/// At most one layer.
pub open spec fn layer(path: Option<Seq<char>>, policy: ActionPolicy) -> Seq<(
    Seq<char>,
    ActionPolicy,
)> {
    match path {
        Some(p) => seq![(p, policy)],
        None => Seq::empty(),
    }
}

impl Layers {
    /// User layer at the given default path, if there is one.
    pub fn with_default_user(path: Option<String>) -> (l: Self)
        ensures
            l.user == path,
            l.host is None,
    {
        Layers { user: path, host: None }
    }

    /// What to load, in order: the user layer first, the host layer second.
    pub fn plan(&self) -> (v: Vec<LayerPlan>)
        ensures
            plans(v@) == layer(text_of(self.user), ActionPolicy::Ignore) + layer(
                text_of(self.host),
                ActionPolicy::Report,
            ),
    {
        let mut v: Vec<LayerPlan> = Vec::new();
        proof {
            assert(plans(v@) =~= Seq::empty());
        }
        push_layer(&mut v, &self.user, ActionPolicy::Ignore);
        push_layer(&mut v, &self.host, ActionPolicy::Report);
        proof {
            let a = layer(text_of(self.user), ActionPolicy::Ignore);
            assert(Seq::empty() + a =~= a);
        }
        v
    }
}

fn push_layer(v: &mut Vec<LayerPlan>, path: &Option<String>, action_policy: ActionPolicy)
    ensures
        plans(final(v)@) == plans(old(v)@) + layer(text_of(*path), action_policy),
{
    let ghost before = v@;
    if let Some(p) = path {
        v.push(LayerPlan { path: copy_str(p.as_str()), action_policy });
        proof {
            assert(plans(v@) =~= plans(before) + layer(text_of(*path), action_policy));
        }
    } else {
        proof {
            assert(plans(v@) =~= plans(before) + Seq::empty());
        }
    }
}

/// Stats across all applied layers.
#[derive(Clone, Copy, Debug, PartialEq, Eq, Structural)]
pub struct LoadedStats {
    pub options: usize,
    pub mappings: usize,
    pub ignored: usize,
    /// Files that existed and were applied.
    pub files: usize,
}

/// A sum, as far as it fits.
pub open spec fn total(a: usize, b: usize) -> usize {
    min(a + b, usize::MAX as int) as usize
}

impl Default for LoadedStats {
    fn default() -> (s: Self)
        ensures
            s == (LoadedStats { options: 0, mappings: 0, ignored: 0, files: 0 }),
    {
        LoadedStats { options: 0, mappings: 0, ignored: 0, files: 0 }
    }
}

impl LoadedStats {
    /// The stats of both.
    pub fn and(self, rhs: Self) -> (s: Self)
        ensures
            s == (LoadedStats {
                options: total(self.options, rhs.options),
                mappings: total(self.mappings, rhs.mappings),
                ignored: total(self.ignored, rhs.ignored),
                files: total(self.files, rhs.files),
            }),
    {
        LoadedStats {
            options: plus(self.options, rhs.options),
            mappings: plus(self.mappings, rhs.mappings),
            ignored: plus(self.ignored, rhs.ignored),
            files: plus(self.files, rhs.files),
        }
    }

    /// One more file, with its stats.
    pub fn count(self, stats: ConfigStats) -> (s: Self)
        ensures
            s == (LoadedStats {
                options: total(self.options, stats.options),
                mappings: total(self.mappings, stats.mappings),
                ignored: total(self.ignored, stats.ignored),
                files: total(self.files, 1),
            }),
    {
        self.and(
            LoadedStats {
                options: stats.options,
                mappings: stats.mappings,
                ignored: stats.ignored,
                files: 1,
            },
        )
    }
}

// ---- loading -------------------------------------------------------------------------------------

/// A file to read, and how many `source` directives led to it.
#[derive(Debug, PartialEq, Eq)]
pub struct Wanted {
    pub path: String,
    pub depth: usize,
}

pub open spec fn wanted(v: Seq<Wanted>) -> Seq<(Seq<char>, usize)> {
    v.map_values(|w: Wanted| (w.path@, w.depth))
}

/// Loading one layer: the files still to read, the next one last, and what
/// the files read so far have set.
pub struct Loading {
    pub pending: Vec<Wanted>,
    pub stats: ConfigStats,
}

/// What a [`Loading`] holds.
pub struct Load {
    pub pending: Seq<(Seq<char>, usize)>,
    pub options: usize,
    pub mappings: usize,
    pub ignored: usize,
}

impl View for Loading {
    type V = Load;

    open spec fn view(&self) -> Load {
        Load {
            pending: wanted(self.pending@),
            options: self.stats.options,
            mappings: self.stats.mappings,
            ignored: self.stats.ignored,
        }
    }
}

/// The files that a file sources, the first one last.
pub open spec fn sourced(sources: Seq<Seq<char>>, depth: usize) -> Seq<(Seq<char>, usize)> {
    Seq::new(sources.len(), |i: int| (sources[sources.len() - 1 - i], depth))
}

impl Load {
    /// The wanted file read. `source` directives apply after the file that
    /// holds them, in its order; beyond the depth limit they are left out, as
    /// are files that could not be read.
    pub open spec fn fed(self, rc: Option<RcFile>, options: Options) -> Load {
        let (_, depth) = self.pending.last();
        let rest = Load { pending: self.pending.drop_last(), ..self };
        match rc {
            Some(rc) => {
                let made = options.choices_made(rc.settings);
                Load {
                    pending: if depth < MAX_SOURCE_DEPTH {
                        rest.pending + sourced(rc.sources, (depth + 1) as usize)
                    } else {
                        rest.pending
                    },
                    options: total(self.options, made as usize),
                    mappings: total(self.mappings, rc.mappings.len() as usize),
                    ignored: total(
                        self.ignored,
                        min(rc.settings.len() - made + rc.ignored.len(), usize::MAX as int) as usize,
                    ),
                }
            },
            None => rest,
        }
    }

    /// No file is further than the limit away from the first one.
    pub open spec fn wf(self) -> bool {
        forall|i: int| 0 <= i < self.pending.len() ==> (#[trigger] self.pending[i]).1
            <= MAX_SOURCE_DEPTH
    }
}

/// Sourcing stays within the depth limit: a chain of `source` directives
/// comes to an end.
pub proof fn source_depth_is_bounded(l: Load, rc: Option<RcFile>, options: Options)
    requires
        l.wf(),
        l.pending.len() > 0,
    ensures
        l.fed(rc, options).wf(),
        l.pending.last().1 == MAX_SOURCE_DEPTH ==> l.fed(rc, options).pending
            == l.pending.drop_last(),
{
    let g = l.fed(rc, options);
    assert(l.pending[l.pending.len() - 1] == l.pending.last());
    assert forall|i: int| 0 <= i < g.pending.len() implies (#[trigger] g.pending[i]).1
        <= MAX_SOURCE_DEPTH by {
        if i < l.pending.len() - 1 {
            assert(g.pending[i] == l.pending[i]);
        }
    }
}

impl Loading {
    /// Starts with one file.
    pub fn new(path: &str) -> (l: Self)
        ensures
            l@ == (Load {
                pending: seq![(path@, 0usize)],
                options: 0,
                mappings: 0,
                ignored: 0,
            }),
            l@.wf(),
    {
        let mut pending: Vec<Wanted> = Vec::new();
        pending.push(Wanted { path: copy_str(path), depth: 0 });
        let l = Loading { pending, stats: ConfigStats::default() };
        proof {
            assert(l@.pending =~= seq![(path@, 0usize)]);
        }
        l
    }

    /// The file to read next, if one is left.
    pub fn next_file(&self) -> (p: Option<&str>)
        ensures
            p is Some == (self@.pending.len() > 0),
            p matches Some(s) ==> s@ == self@.pending.last().0,
    {
        proof {
            assert(wanted(self.pending@).len() == self.pending@.len());
        }
        let n = self.pending.len();
        if n == 0 {
            None
        } else {
            Some(self.pending[n - 1].path.as_str())
        }
    }

    fn want_sources(&mut self, sources: &Vec<String>, depth: usize)
        ensures
            final(self)@ == (Load {
                pending: old(self)@.pending + sourced(texts_of(sources@), depth),
                ..old(self)@
            }),
    {
        let ghost before = self@.pending;
        let ghost all = texts_of(sources@);
        let n = sources.len();
        let mut i: usize = 0;
        proof {
            assert(self@.pending =~= before + sourced(all, depth).take(0));
        }
        while i < n
            invariant
                i <= n,
                n == sources.len(),
                all == texts_of(sources@),
                self.stats == old(self).stats,
                self@.pending == before + sourced(all, depth).take(i as int),
            decreases n - i,
        {
            let ghost seen = self.pending@;
            let path = copy_str(sources[n - 1 - i].as_str());
            let ghost one = (path@, depth);
            proof {
                assert(all[n - 1 - i] == sources@[n - 1 - i]@);
                assert(sourced(all, depth)[i as int] == one);
            }
            self.pending.push(Wanted { path, depth });
            i = i + 1;
            proof {
                assert(wanted(self.pending@) =~= wanted(seen).push(one));
                assert(self@.pending =~= before + sourced(all, depth).take(i as int));
            }
        }
        proof {
            assert(sourced(all, depth).take(n as int) =~= sourced(all, depth));
        }
    }

    /// Takes what the file that was wanted next holds, or that it could not
    /// be read, and applies it.
    pub fn feed(&mut self, vim: &mut VimState, text: Option<&str>)
        requires
            old(self)@.pending.len() > 0,
            old(self)@.wf(),
        ensures
            final(self)@ == old(self)@.fed(
                match text {
                    Some(s) => Some(parsed_config(s@)),
                    None => None,
                },
                old(vim)@.options,
            ),
            final(self)@.wf(),
            final(vim)@ == match text {
                Some(s) => old(vim)@.configured(parsed_config(s@)),
                None => old(vim)@,
            },
    {
        proof {
            source_depth_is_bounded(
                self@,
                match text {
                    Some(s) => Some(parsed_config(s@)),
                    None => None,
                },
                vim@.options,
            );
            assert(self@.pending[self@.pending.len() - 1] == self@.pending.last());
        }
        let ghost before = self.pending@;
        let file = match self.pending.pop() {
            Some(file) => file,
            None => {
                return ;
            },
        };
        proof {
            assert(wanted(self.pending@) =~= wanted(before).drop_last());
            assert(wanted(before).last() == (file.path@, file.depth));
        }
        let text = match text {
            Some(text) => text,
            None => {
                return ;
            },
        };
        let config = parse(text);
        let made = vim.apply_config(&config);
        self.stats = ConfigStats {
            options: plus(self.stats.options, made.options),
            mappings: plus(self.stats.mappings, made.mappings),
            ignored: plus(self.stats.ignored, made.ignored),
        };
        if file.depth < MAX_SOURCE_DEPTH {
            self.want_sources(&config.sources, file.depth + 1);
        }
    }
}

/// Starts loading a layer; its action policy holds while it loads.
pub fn begin_layer(vim: &mut VimState, plan: &LayerPlan) -> (l: Loading)
    ensures
        final(vim)@ == (Vim {
            lenient_actions: plan.action_policy == ActionPolicy::Ignore,
            ..old(vim)@
        }),
        l@ == (Load {
            pending: seq![(plan.path@, 0usize)],
            options: 0,
            mappings: 0,
            ignored: 0,
        }),
        l@.wf(),
{
    vim.set_lenient_actions(plan.action_policy == ActionPolicy::Ignore);
    Loading::new(plan.path.as_str())
}

/// Strict dispatch again, after the shared layers.
pub fn end_layers(vim: &mut VimState)
    ensures
        final(vim)@ == (Vim { lenient_actions: false, ..old(vim)@ }),
{
    vim.set_lenient_actions(false);
}

} // verus!
