use vstd::prelude::*;
use vstd::string::{StrSliceExecFns, StringExecFns};

verus! {

/// A path registered for change notification, with its policy.
pub struct WatchTarget {
    pub path: String,
    pub recursive: bool,
    pub required: bool,
}

/// The model of a target: its path, whether it is recursive, whether it is required.
pub type TargetView = (Seq<char>, bool, bool);

impl View for WatchTarget {
    type V = TargetView;

    open spec fn view(&self) -> TargetView {
        (self.path@, self.recursive, self.required)
    }
}

impl WatchTarget {
    /// A copy of this target.
    pub fn duplicate(&self) -> (r: WatchTarget)
        ensures
            r@ == self@,
    {
        WatchTarget { path: self.path.clone(), recursive: self.recursive, required: self.required }
    }
}

pub open spec fn views(ts: Seq<WatchTarget>) -> Seq<TargetView> {
    ts.map_values(|t: WatchTarget| t@)
}

/// `root` joined with the relative name `name`, with one separator between them.
pub open spec fn join_spec(root: Seq<char>, name: Seq<char>) -> Seq<char> {
    if root.len() == 0 || root.last() == '/' {
        root + name
    } else {
        root + seq!['/'] + name
    }
}

pub open spec fn book_json() -> Seq<char> {
    seq!['b', 'o', 'o', 'k', '.', 'j', 's', 'o', 'n']
}

pub open spec fn book_toml() -> Seq<char> {
    seq!['b', 'o', 'o', 'k', '.', 't', 'o', 'm', 'l']
}

/// What is watched, in registration order: the source directory (required,
/// recursive), the theme directory if there is one (optional, recursive), and
/// both configuration file names under the root (optional, not recursive).
pub open spec fn plan_spec(source: Seq<char>, theme: Option<Seq<char>>, root: Seq<char>) -> Seq<TargetView> {
    let configs = seq![(join_spec(root, book_json()), false, false), (join_spec(root, book_toml()), false, false)];
    match theme {
        Some(t) => seq![(source, true, true), (t, true, false)] + configs,
        None => seq![(source, true, true)] + configs,
    }
}

/// Joins a relative name onto a root path.
pub fn join_path(root: &str, name: &str) -> (r: String)
    ensures
        r@ == join_spec(root@, name@),
{
    let n = root.unicode_len();
    let mut r = String::from_str(root);
    if n > 0 && root.get_char(n - 1) != '/' {
        r.append("/");
        proof {
            reveal_strlit("/");
        }
    }
    r.append(name);
    r
}

/// The watch targets for a book with the given source directory, optional
/// theme directory and root directory.
pub fn watch_plan(source: &str, theme: Option<&str>, root: &str) -> (r: Vec<WatchTarget>)
    ensures
        views(r@) =~= plan_spec(source@, match theme { Some(t) => Some(t@), None => None }, root@),
{
    let mut r: Vec<WatchTarget> = Vec::new();
    r.push(WatchTarget { path: String::from_str(source), recursive: true, required: true });
    match theme {
        Some(t) => {
            r.push(WatchTarget { path: String::from_str(t), recursive: true, required: false });
        },
        None => {},
    }
    let json = join_path(root, "book.json");
    let toml = join_path(root, "book.toml");
    proof {
        reveal_strlit("book.json");
        reveal_strlit("book.toml");
        assert("book.json"@ =~= book_json());
        assert("book.toml"@ =~= book_toml());
    }
    r.push(WatchTarget { path: json, recursive: false, required: false });
    r.push(WatchTarget { path: toml, recursive: false, required: false });
    r
}

/// What one registration attempt means for startup.
pub enum Registration {
    /// The target is now watched.
    Active,
    /// An optional target could not be registered and is left out.
    Skipped,
    /// A required target could not be registered: startup must stop.
    Fatal,
}

pub open spec fn registration_spec(required: bool, registered: bool) -> Registration {
    if registered {
        Registration::Active
    } else if required {
        Registration::Fatal
    } else {
        Registration::Skipped
    }
}

/// Startup over a plan and the outcome of each registration attempt, in
/// order: the active targets, or the path of the first required target that
/// could not be registered.
pub open spec fn startup_spec(plan: Seq<TargetView>, outcomes: Seq<bool>) -> Result<Seq<TargetView>, Seq<char>>
    decreases plan.len(),
{
    if plan.len() == 0 {
        Ok(seq![])
    } else {
        let t = plan.last();
        match startup_spec(plan.drop_last(), outcomes) {
            Err(p) => Err(p),
            Ok(active) => if outcomes[plan.len() - 1] {
                Ok(active.push(t))
            } else if t.2 {
                Err(t.0)
            } else {
                Ok(active)
            },
        }
    }
}

/// Once startup has failed on a prefix of the plan, the later targets do not
/// change the outcome.
pub proof fn lemma_failure_persists(plan: Seq<TargetView>, outcomes: Seq<bool>, k: int)
    requires
        0 <= k <= plan.len(),
        startup_spec(plan.subrange(0, k), outcomes) is Err,
    ensures
        startup_spec(plan, outcomes) == startup_spec(plan.subrange(0, k), outcomes),
    decreases plan.len() - k,
{
    if k == plan.len() {
        assert(plan.subrange(0, k) =~= plan);
    } else {
        let longer = plan.subrange(0, k + 1);
        assert(longer.drop_last() =~= plan.subrange(0, k));
        assert(longer.subrange(0, k) =~= plan.subrange(0, k));
        assert(plan.subrange(0, k + 1) =~= longer);
        lemma_failure_persists(plan, outcomes, k + 1);
    }
}

/// The targets of `plan` whose registration succeeded, in order.
pub open spec fn kept(plan: Seq<TargetView>, outcomes: Seq<bool>) -> Seq<TargetView>
    decreases plan.len(),
{
    if plan.len() == 0 {
        seq![]
    } else if outcomes[plan.len() - 1] {
        kept(plan.drop_last(), outcomes).push(plan.last())
    } else {
        kept(plan.drop_last(), outcomes)
    }
}

/// When every required target of the plan was registered, startup succeeds
/// and the active targets are exactly those that were registered.
pub proof fn lemma_required_registered_succeeds(plan: Seq<TargetView>, outcomes: Seq<bool>)
    requires
        outcomes.len() == plan.len(),
        forall|i: int| 0 <= i < plan.len() && (#[trigger] plan[i]).2 ==> outcomes[i],
    ensures
        startup_spec(plan, outcomes) == Ok::<Seq<TargetView>, Seq<char>>(kept(plan, outcomes)),
{
    if plan.len() > 0 {
        lemma_required_registered_succeeds_prefix(plan, outcomes);
    }
}

proof fn lemma_required_registered_succeeds_prefix(plan: Seq<TargetView>, outcomes: Seq<bool>)
    requires
        plan.len() > 0,
        outcomes.len() >= plan.len(),
        forall|i: int| 0 <= i < plan.len() && (#[trigger] plan[i]).2 ==> outcomes[i],
    ensures
        startup_spec(plan, outcomes) == Ok::<Seq<TargetView>, Seq<char>>(kept(plan, outcomes)),
    decreases plan.len(),
{
    let shorter = plan.drop_last();
    if shorter.len() > 0 {
        assert forall|i: int| 0 <= i < shorter.len() && (#[trigger] shorter[i]).2 implies outcomes[i] by {
            assert(shorter[i] == plan[i]);
        }
        lemma_required_registered_succeeds_prefix(shorter, outcomes);
    } else {
        assert(startup_spec(shorter, outcomes) == Ok::<Seq<TargetView>, Seq<char>>(seq![]));
        assert(kept(shorter, outcomes) == Seq::<TargetView>::empty());
    }
    assert(plan.last() == plan[plan.len() - 1]);
    assert(plan[plan.len() - 1].2 ==> outcomes[plan.len() - 1]);
}

/// The first target of a plan whose registration succeeded is the first
/// target kept.
pub proof fn lemma_kept_first(plan: Seq<TargetView>, outcomes: Seq<bool>)
    requires
        plan.len() > 0,
        outcomes.len() >= plan.len(),
        outcomes[0],
    ensures
        kept(plan, outcomes).len() > 0,
        kept(plan, outcomes)[0] == plan[0],
    decreases plan.len(),
{
    let shorter = plan.drop_last();
    if plan.len() > 1 {
        lemma_kept_first(shorter, outcomes);
        assert(kept(shorter, outcomes).len() > 0);
        assert(kept(shorter, outcomes).push(plan.last())[0] == kept(shorter, outcomes)[0]);
        assert(shorter[0] == plan[0]);
    } else {
        assert(kept(shorter, outcomes) == Seq::<TargetView>::empty());
        assert(kept(plan, outcomes) == seq![plan.last()]);
    }
}

/// If the source directory cannot be registered, startup fails with its path,
/// whatever happens to the other targets.
pub proof fn lemma_source_refused_is_fatal(source: Seq<char>, theme: Option<Seq<char>>, root: Seq<char>, outcomes: Seq<bool>)
    requires
        outcomes.len() == plan_spec(source, theme, root).len(),
        !outcomes[0],
    ensures
        startup_spec(plan_spec(source, theme, root), outcomes) == Err::<Seq<TargetView>, Seq<char>>(source),
{
    let plan = plan_spec(source, theme, root);
    let first = plan.subrange(0, 1);
    assert(first.drop_last() =~= Seq::<TargetView>::empty());
    assert(startup_spec(first.drop_last(), outcomes) == Ok::<Seq<TargetView>, Seq<char>>(seq![]));
    assert(first.last() == (source, true, true));
    assert(startup_spec(first, outcomes) == Err::<Seq<TargetView>, Seq<char>>(source));
    lemma_failure_persists(plan, outcomes, 1);
}

/// If the source directory is registered, startup succeeds whatever happens
/// to the theme directory and the configuration files: the source directory
/// is active, along with every optional target that was registered.
pub proof fn lemma_optional_targets_tolerated(source: Seq<char>, theme: Option<Seq<char>>, root: Seq<char>, outcomes: Seq<bool>)
    requires
        outcomes.len() == plan_spec(source, theme, root).len(),
        outcomes[0],
    ensures
        startup_spec(plan_spec(source, theme, root), outcomes) == Ok::<Seq<TargetView>, Seq<char>>(kept(plan_spec(source, theme, root), outcomes)),
        kept(plan_spec(source, theme, root), outcomes)[0] == (source, true, true),
{
    let plan = plan_spec(source, theme, root);
    assert forall|i: int| 0 <= i < plan.len() && (#[trigger] plan[i]).2 implies outcomes[i] by {
        if i > 0 {
            assert(!plan[i].2);
        }
    }
    lemma_required_registered_succeeds(plan, outcomes);
    lemma_kept_first(plan, outcomes);
}

/// The targets registered so far.
pub struct Registry {
    pub active: Vec<WatchTarget>,
}

impl Registry {
    pub fn new() -> (r: Registry)
        ensures
            r.active@.len() == 0,
    {
        Registry { active: Vec::new() }
    }

    /// Records the outcome of registering `target`.
    pub fn record(&mut self, target: WatchTarget, registered: bool) -> (r: Registration)
        ensures
            r == registration_spec(target.required, registered),
            registered ==> final(self).active@ == old(self).active@.push(target),
            !registered ==> final(self).active@ == old(self).active@,
    {
        if registered {
            self.active.push(target);
            Registration::Active
        } else if target.required {
            Registration::Fatal
        } else {
            Registration::Skipped
        }
    }
}

/// Runs startup over `plan`, where `outcomes[i]` tells whether the watcher
/// accepted `plan[i]`. Stops at the first required target that was refused
/// and returns its path; otherwise returns the active targets.
pub fn settle(plan: &Vec<WatchTarget>, outcomes: &Vec<bool>) -> (r: Result<Vec<WatchTarget>, String>)
    requires
        outcomes@.len() == plan@.len(),
    ensures
        match r {
            Ok(active) => startup_spec(views(plan@), outcomes@) == Ok::<Seq<TargetView>, Seq<char>>(views(active@)),
            Err(p) => startup_spec(views(plan@), outcomes@) == Err::<Seq<TargetView>, Seq<char>>(p@),
        },
{
    let ghost all = views(plan@);
    let mut registry = Registry::new();
    let mut i: usize = 0;
    assert(all.subrange(0, 0) =~= Seq::<TargetView>::empty());
    assert(views(registry.active@) =~= Seq::<TargetView>::empty());
    while i < plan.len()
        invariant
            0 <= i <= plan@.len(),
            outcomes@.len() == plan@.len(),
            all == views(plan@),
            startup_spec(all.subrange(0, i as int), outcomes@) == Ok::<Seq<TargetView>, Seq<char>>(views(registry.active@)),
        decreases plan@.len() - i,
    {
        let t = plan[i].duplicate();
        let ghost before = registry.active@;
        let ghost prefix = all.subrange(0, i + 1);
        proof {
            assert(prefix.drop_last() =~= all.subrange(0, i as int));
            assert(prefix.last() == t@);
        }
        let path = t.path.clone();
        match registry.record(t, outcomes[i]) {
            Registration::Fatal => {
                proof {
                    lemma_failure_persists(all, outcomes@, i + 1);
                }
                return Err(path);
            },
            _ => {},
        }
        proof {
            if outcomes@[i as int] {
                assert(views(registry.active@) =~= views(before).push(t@));
            }
        }
        i = i + 1;
    }
    assert(all.subrange(0, plan@.len() as int) =~= all);
    Ok(registry.active)
}

} // verus!
