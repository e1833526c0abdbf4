//! Application lifecycle hooks, run in named phases: the init phases after the
//! container is built and before serving, the shutdown phases after the
//! transports stop.
//!
//! Within a phase hooks run in `(provider, method)` name order, so boot is
//! deterministic whatever order the registry yields them in. An init phase aborts
//! at the first failing hook; a shutdown phase runs every hook whatever fails.

use vstd::prelude::*;
use vstd::string::StringExecFns;

verus! {

/// The point in the application lifecycle at which a hook runs.
#[derive(Clone, Copy, Debug, PartialEq, Eq, Structural)]
pub enum LifecyclePhase {
    OnModuleInit,
    OnApplicationBootstrap,
    OnModuleDestroy,
    BeforeApplicationShutdown,
    OnApplicationShutdown,
}

/// The name a phase is reported under.
pub open spec fn phase_label(phase: LifecyclePhase) -> Seq<char> {
    match phase {
        LifecyclePhase::OnModuleInit => "OnModuleInit"@,
        LifecyclePhase::OnApplicationBootstrap => "OnApplicationBootstrap"@,
        LifecyclePhase::OnModuleDestroy => "OnModuleDestroy"@,
        LifecyclePhase::BeforeApplicationShutdown => "BeforeApplicationShutdown"@,
        LifecyclePhase::OnApplicationShutdown => "OnApplicationShutdown"@,
    }
}

impl LifecyclePhase {
    /// The name this phase is reported under.
    pub fn label(&self) -> (s: &'static str)
        ensures
            s@ == phase_label(*self),
    {
        match self {
            LifecyclePhase::OnModuleInit => {
                proof {
                    reveal_strlit("OnModuleInit");
                }
                "OnModuleInit"
            },
            LifecyclePhase::OnApplicationBootstrap => {
                proof {
                    reveal_strlit("OnApplicationBootstrap");
                }
                "OnApplicationBootstrap"
            },
            LifecyclePhase::OnModuleDestroy => {
                proof {
                    reveal_strlit("OnModuleDestroy");
                }
                "OnModuleDestroy"
            },
            LifecyclePhase::BeforeApplicationShutdown => {
                proof {
                    reveal_strlit("BeforeApplicationShutdown");
                }
                "BeforeApplicationShutdown"
            },
            LifecyclePhase::OnApplicationShutdown => {
                proof {
                    reveal_strlit("OnApplicationShutdown");
                }
                "OnApplicationShutdown"
            },
        }
    }
}

/// One lifecycle hook: the phase it runs in, the provider and method it names,
/// and the thunk that runs it against the container.
pub struct LifecycleHook<R> {
    pub phase: LifecyclePhase,
    pub provider: &'static str,
    pub method: &'static str,
    pub run: R,
}

/// `a` comes strictly before `b` in lexicographic order of code points, the order
/// of `str` comparison.
pub open spec fn text_less(a: Seq<char>, b: Seq<char>) -> bool
    decreases a.len(),
{
    if a.len() == 0 {
        b.len() > 0
    } else if b.len() == 0 {
        false
    } else if a[0] != b[0] {
        (a[0] as int) < (b[0] as int)
    } else {
        text_less(a.drop_first(), b.drop_first())
    }
}

/// `text_less` is transitive.
pub proof fn lemma_text_less_transitive(a: Seq<char>, b: Seq<char>, c: Seq<char>)
    requires
        text_less(a, b),
        text_less(b, c),
    ensures
        text_less(a, c),
    decreases a.len(),
{
    if a.len() > 0 && b.len() > 0 && c.len() > 0 && a[0] == b[0] && b[0] == c[0] {
        lemma_text_less_transitive(a.drop_first(), b.drop_first(), c.drop_first());
    }
}

/// `text_less` orders any two different texts one way or the other, and never
/// both ways.
pub proof fn lemma_text_less_total(a: Seq<char>, b: Seq<char>)
    ensures
        a != b ==> (text_less(a, b) || text_less(b, a)),
        !(text_less(a, b) && text_less(b, a)),
        !text_less(a, a),
    decreases a.len(),
{
    if a.len() > 0 && b.len() > 0 {
        lemma_text_less_total(a.drop_first(), b.drop_first());
        if a[0] == b[0] && a != b {
            assert(a =~= seq![a[0]] + a.drop_first());
            assert(b =~= seq![b[0]] + b.drop_first());
        }
    } else if a.len() == 0 && b.len() == 0 {
        assert(a =~= b);
    }
    if a.len() > 0 {
        lemma_text_less_total(a.drop_first(), a.drop_first());
    }
}

/// The sort key of a hook: its provider, then its method.
pub open spec fn hook_key_less<R>(h: LifecycleHook<R>, g: LifecycleHook<R>) -> bool {
    text_less(h.provider@, g.provider@) || (h.provider@ == g.provider@ && text_less(h.method@, g.method@))
}

/// Whether text `a` comes strictly before text `b`.
pub fn str_less(a: &str, b: &str) -> (r: bool)
    ensures
        r == text_less(a@, b@),
{
    let n = a.unicode_len();
    let m = b.unicode_len();
    let mut i: usize = 0;
    assert(a@.skip(0) =~= a@);
    assert(b@.skip(0) =~= b@);
    while i < n && i < m
        invariant
            n == a@.len(),
            m == b@.len(),
            i <= n,
            i <= m,
            text_less(a@, b@) == text_less(a@.skip(i as int), b@.skip(i as int)),
        decreases n - i,
    {
        let ca = a.get_char(i);
        let cb = b.get_char(i);
        assert(a@.skip(i as int)[0] == ca);
        assert(b@.skip(i as int)[0] == cb);
        if ca != cb {
            return (ca as u32) < (cb as u32);
        }
        assert(a@.skip(i as int).drop_first() =~= a@.skip(i + 1));
        assert(b@.skip(i as int).drop_first() =~= b@.skip(i + 1));
        i = i + 1;
    }
    i < m && i == n
}

/// Whether hook `h` sorts strictly before hook `g`.
fn hook_less<R>(h: &LifecycleHook<R>, g: &LifecycleHook<R>) -> (r: bool)
    ensures
        r == hook_key_less(*h, *g),
{
    if str_less(h.provider, g.provider) {
        true
    } else if str_less(g.provider, h.provider) {
        proof {
            lemma_text_less_total(h.provider@, g.provider@);
        }
        false
    } else {
        proof {
            lemma_text_less_total(h.provider@, g.provider@);
        }
        str_less(h.method, g.method)
    }
}

/// `order` lists, once each, exactly the hooks of `registry` registered for
/// `phase`, sorted by `(provider, method)`, hooks with equal names keeping their
/// registry order.
pub open spec fn phase_order<R>(registry: Seq<LifecycleHook<R>>, phase: LifecyclePhase, order: Seq<usize>) -> bool {
    &&& order.no_duplicates()
    &&& forall|k: int| 0 <= k < order.len() ==> (#[trigger] order[k]) < registry.len() && registry[order[k] as int].phase == phase
    &&& forall|i: int| 0 <= i < registry.len() && (#[trigger] registry[i]).phase == phase ==> order.contains(i as usize)
    &&& forall|k: int, l: int|
        0 <= k < l < order.len() ==> !hook_key_less(registry[#[trigger] order[l] as int], registry[#[trigger] order[k] as int])
    &&& forall|k: int, l: int|
        0 <= k < l < order.len() && !hook_key_less(registry[order[k] as int], registry[order[l] as int])
            ==> #[trigger] order[k] < #[trigger] order[l]
}

proof fn lemma_key_less_transitive<R>(a: LifecycleHook<R>, b: LifecycleHook<R>, c: LifecycleHook<R>)
    requires
        hook_key_less(a, b),
        hook_key_less(b, c),
    ensures
        hook_key_less(a, c),
{
    if text_less(a.provider@, b.provider@) && text_less(b.provider@, c.provider@) {
        lemma_text_less_transitive(a.provider@, b.provider@, c.provider@);
    } else if text_less(a.method@, b.method@) && text_less(b.method@, c.method@) && a.provider@ == b.provider@ && b.provider@ == c.provider@ {
        lemma_text_less_transitive(a.method@, b.method@, c.method@);
    }
}

proof fn lemma_key_less_total<R>(a: LifecycleHook<R>, b: LifecycleHook<R>)
    ensures
        !(hook_key_less(a, b) && hook_key_less(b, a)),
        !hook_key_less(a, a),
{
    lemma_text_less_total(a.provider@, b.provider@);
    lemma_text_less_total(a.method@, b.method@);
}

/// The facts `hooks_for` keeps about the first `n` hooks of `registry`.
pub open spec fn order_of_prefix<R>(registry: Seq<LifecycleHook<R>>, phase: LifecyclePhase, order: Seq<usize>, n: int) -> bool {
    &&& order.no_duplicates()
    &&& forall|k: int| 0 <= k < order.len() ==> (#[trigger] order[k]) < n && registry[order[k] as int].phase == phase
    &&& forall|j: int| 0 <= j < n && (#[trigger] registry[j]).phase == phase ==> order.contains(j as usize)
    &&& forall|k: int, l: int|
        0 <= k < l < order.len() ==> !hook_key_less(registry[#[trigger] order[l] as int], registry[#[trigger] order[k] as int])
    &&& forall|k: int, l: int|
        0 <= k < l < order.len() && !hook_key_less(registry[order[k] as int], registry[order[l] as int])
            ==> #[trigger] order[k] < #[trigger] order[l]
}

/// `o` is `old` with `v` inserted at `pos`, position by position.
pub open spec fn inserted_at(old: Seq<usize>, o: Seq<usize>, pos: int, v: usize) -> bool {
    &&& o.len() == old.len() + 1
    &&& 0 <= pos <= old.len()
    &&& o[pos] == v
    &&& forall|k: int| 0 <= k < pos ==> #[trigger] o[k] == old[k]
    &&& forall|k: int| pos < k < o.len() ==> #[trigger] o[k] == old[k - 1]
}

proof fn lemma_inserted_at(old: Seq<usize>, pos: int, v: usize)
    requires
        0 <= pos <= old.len(),
    ensures
        inserted_at(old, old.insert(pos, v), pos, v),
{
}

/// The hooks after the insertion point all sort strictly after hook `i`.
proof fn lemma_tail_after<R>(registry: Seq<LifecycleHook<R>>, phase: LifecyclePhase, old: Seq<usize>, pos: int, i: int)
    requires
        order_of_prefix(registry, phase, old, i),
        0 <= i < registry.len(),
        0 <= pos <= old.len(),
        pos < old.len() ==> hook_key_less(registry[i], registry[old[pos] as int]),
    ensures
        forall|k: int| pos <= k < old.len() ==> hook_key_less(registry[i], registry[#[trigger] old[k] as int]),
{
    assert forall|k: int| pos <= k < old.len() implies hook_key_less(registry[i], registry[#[trigger] old[k] as int]) by {
        if k > pos {
            let a = registry[i];
            let b = registry[old[pos] as int];
            let c = registry[old[k] as int];
            assert(!hook_key_less(c, b));
            if !hook_key_less(b, c) {
                lemma_text_less_total(b.provider@, c.provider@);
                lemma_text_less_total(b.method@, c.method@);
                assert(b.provider@ == c.provider@ && b.method@ == c.method@);
            } else {
                lemma_key_less_transitive(a, b, c);
            }
        }
    }
}

proof fn lemma_insert_members<R>(registry: Seq<LifecycleHook<R>>, phase: LifecyclePhase, old: Seq<usize>, o: Seq<usize>, pos: int, i: int)
    requires
        0 <= i < registry.len(),
        i < usize::MAX,
        registry[i].phase == phase,
        order_of_prefix(registry, phase, old, i),
        inserted_at(old, o, pos, i as usize),
    ensures
        o.no_duplicates(),
        forall|k: int| 0 <= k < o.len() ==> (#[trigger] o[k]) < i + 1 && registry[o[k] as int].phase == phase,
        forall|j: int| 0 <= j < i + 1 && (#[trigger] registry[j]).phase == phase ==> o.contains(j as usize),
{
    assert forall|k: int| 0 <= k < o.len() implies (#[trigger] o[k]) < i + 1 && registry[o[k] as int].phase == phase by {
        if k < pos {
            assert(o[k] == old[k]);
        } else if k > pos {
            assert(o[k] == old[k - 1]);
        }
    }
    assert forall|a: int, b: int| 0 <= a < o.len() && 0 <= b < o.len() && a != b implies o[a] != o[b] by {
        if a != pos && b != pos {
            let a2 = if a < pos { a } else { a - 1 };
            let b2 = if b < pos { b } else { b - 1 };
            assert(o[a] == old[a2] && o[b] == old[b2]);
        } else if a == pos {
            let b2 = if b < pos { b } else { b - 1 };
            assert(o[b] == old[b2]);
        } else {
            let a2 = if a < pos { a } else { a - 1 };
            assert(o[a] == old[a2]);
        }
    }
    assert forall|j: int| 0 <= j < i + 1 && (#[trigger] registry[j]).phase == phase implies o.contains(j as usize) by {
        if j < i {
            assert(old.contains(j as usize));
            let k = choose|k: int| 0 <= k < old.len() && old[k] == j as usize;
            if k < pos {
                assert(o[k] == old[k]);
            } else {
                assert(o[k + 1] == old[k]);
            }
        } else {
            assert(o[pos] == i);
        }
    }
}

proof fn lemma_insert_sorted<R>(registry: Seq<LifecycleHook<R>>, phase: LifecyclePhase, old: Seq<usize>, o: Seq<usize>, pos: int, i: int)
    requires
        0 <= i < registry.len(),
        i < usize::MAX,
        order_of_prefix(registry, phase, old, i),
        inserted_at(old, o, pos, i as usize),
        forall|k: int| 0 <= k < pos ==> !hook_key_less(registry[i], registry[#[trigger] old[k] as int]),
        forall|k: int| pos <= k < old.len() ==> hook_key_less(registry[i], registry[#[trigger] old[k] as int]),
    ensures
        forall|a: int, b: int|
            0 <= a < b < o.len() ==> !hook_key_less(registry[#[trigger] o[b] as int], registry[#[trigger] o[a] as int]),
{
    assert forall|a: int, b: int|
        0 <= a < b < o.len() implies !hook_key_less(registry[#[trigger] o[b] as int], registry[#[trigger] o[a] as int]) by {
        if a < pos && b < pos {
            assert(o[a] == old[a] && o[b] == old[b]);
        } else if a < pos && b == pos {
            assert(o[a] == old[a]);
        } else if a < pos && b > pos {
            assert(o[a] == old[a] && o[b] == old[b - 1]);
        } else if a == pos {
            assert(o[b] == old[b - 1]);
            lemma_key_less_total(registry[o[a] as int], registry[o[b] as int]);
        } else {
            assert(o[a] == old[a - 1] && o[b] == old[b - 1]);
        }
    }
}

proof fn lemma_insert_stable<R>(registry: Seq<LifecycleHook<R>>, phase: LifecyclePhase, old: Seq<usize>, o: Seq<usize>, pos: int, i: int)
    requires
        0 <= i < registry.len(),
        i < usize::MAX,
        order_of_prefix(registry, phase, old, i),
        inserted_at(old, o, pos, i as usize),
        forall|k: int| pos <= k < old.len() ==> hook_key_less(registry[i], registry[#[trigger] old[k] as int]),
    ensures
        forall|a: int, b: int|
            0 <= a < b < o.len() && !hook_key_less(registry[o[a] as int], registry[o[b] as int])
                ==> #[trigger] o[a] < #[trigger] o[b],
{
    assert forall|a: int, b: int|
        0 <= a < b < o.len() && !hook_key_less(registry[o[a] as int], registry[o[b] as int])
            implies #[trigger] o[a] < #[trigger] o[b] by {
        if a < pos && b < pos {
            assert(o[a] == old[a] && o[b] == old[b]);
        } else if a < pos && b == pos {
            assert(o[a] == old[a]);
        } else if a < pos && b > pos {
            assert(o[a] == old[a] && o[b] == old[b - 1]);
        } else if a == pos {
            assert(o[b] == old[b - 1]);
            assert(hook_key_less(registry[o[a] as int], registry[o[b] as int]));
        } else {
            assert(o[a] == old[a - 1] && o[b] == old[b - 1]);
        }
    }
}

/// Inserting hook `i` before the first hook that sorts strictly after it keeps the
/// order sorted and stable.
proof fn lemma_insert_keeps_order<R>(
    registry: Seq<LifecycleHook<R>>,
    phase: LifecyclePhase,
    old_order: Seq<usize>,
    o: Seq<usize>,
    pos: int,
    i: int,
)
    requires
        0 <= i < registry.len(),
        i < usize::MAX,
        registry[i].phase == phase,
        order_of_prefix(registry, phase, old_order, i),
        0 <= pos <= old_order.len(),
        o == old_order.insert(pos, i as usize),
        forall|k: int| 0 <= k < pos ==> !hook_key_less(registry[i], registry[#[trigger] old_order[k] as int]),
        pos < old_order.len() ==> hook_key_less(registry[i], registry[old_order[pos] as int]),
    ensures
        order_of_prefix(registry, phase, o, i + 1),
{
    lemma_inserted_at(old_order, pos, i as usize);
    lemma_tail_after(registry, phase, old_order, pos, i);
    lemma_insert_members(registry, phase, old_order, o, pos, i);
    lemma_insert_sorted(registry, phase, old_order, o, pos, i);
    lemma_insert_stable(registry, phase, old_order, o, pos, i);
}

/// The hooks registered for `phase`, as positions in `registry`, sorted by
/// `(provider, method)` so that boot does not depend on the order the registry
/// yields them in.
pub fn hooks_for<R>(registry: &[LifecycleHook<R>], phase: LifecyclePhase) -> (order: Vec<usize>)
    ensures
        phase_order(registry@, phase, order@),
{
    let mut order: Vec<usize> = Vec::new();
    let mut i: usize = 0;
    while i < registry.len()
        invariant
            i <= registry@.len(),
            order_of_prefix(registry@, phase, order@, i as int),
        decreases registry@.len() - i,
    {
        if registry[i].phase == phase {
            let h = &registry[i];
            // The first position whose hook sorts strictly after `h`.
            let mut pos: usize = 0;
            while pos < order.len() && !hook_less(h, &registry[order[pos]])
                invariant
                    pos <= order@.len(),
                    order_of_prefix(registry@, phase, order@, i as int),
                    i < registry@.len(),
                    *h == registry@[i as int],
                    forall|k: int| 0 <= k < pos ==> !hook_key_less(registry@[i as int], registry@[#[trigger] order@[k] as int]),
                decreases order@.len() - pos,
            {
                pos = pos + 1;
            }
            let ghost old_order = order@;
            assert(pos < old_order.len() ==> hook_key_less(registry@[i as int], registry@[old_order[pos as int] as int]));
            order.insert(pos, i);
            proof {
                lemma_insert_keeps_order(registry@, phase, old_order, order@, pos as int, i as int);
            }
        }
        i = i + 1;
    }
    order
}

/// The context a failing init hook's error is reported with.
pub open spec fn failure_text(phase: LifecyclePhase, provider: Seq<char>, method: Seq<char>) -> Seq<char> {
    "lifecycle hook "@ + provider + "::"@ + method + " ("@ + phase_label(phase) + ") failed"@
}

/// The context a failing init hook's error is reported with, naming the hook and
/// the phase.
pub fn failure_message(phase: LifecyclePhase, provider: &str, method: &str) -> (m: String)
    ensures
        m@ == failure_text(phase, provider@, method@),
{
    let mut m = String::from_str("lifecycle hook ");
    m.append(provider);
    m.append("::");
    m.append(method);
    m.append(" (");
    m.append(phase.label());
    m.append(") failed");
    proof {
        reveal_strlit("lifecycle hook ");
        reveal_strlit("::");
        reveal_strlit(" (");
        reveal_strlit(") failed");
    }
    m
}

/// Drives one phase: which hook runs next, and when the phase is over. A strict
/// phase (the init phases) ends at the first failing hook; a lenient one (the
/// shutdown phases) runs every hook whatever fails.
pub struct PhaseRun {
    phase: LifecyclePhase,
    strict: bool,
    order: Vec<usize>,
    done: usize,
    failed: Option<usize>,
}

impl PhaseRun {
    pub closed spec fn phase(&self) -> LifecyclePhase {
        self.phase
    }

    pub closed spec fn strict(&self) -> bool {
        self.strict
    }

    /// The hooks of the phase, in the order they run.
    pub closed spec fn order(&self) -> Seq<usize> {
        self.order@
    }

    /// How many hooks have run.
    pub closed spec fn done(&self) -> nat {
        self.done as nat
    }

    /// The hook that aborted a strict phase.
    pub closed spec fn failed(&self) -> Option<usize> {
        self.failed
    }

    /// The phase is over: every hook ran, or a strict phase hit a failure.
    pub open spec fn finished(&self) -> bool {
        self.done() >= self.order().len() || self.failed() is Some
    }

    /// Start running `phase` over the hooks of `registry`.
    pub fn start<R>(registry: &[LifecycleHook<R>], phase: LifecyclePhase, strict: bool) -> (r: PhaseRun)
        ensures
            r.phase() == phase,
            r.strict() == strict,
            phase_order(registry@, phase, r.order()),
            r.done() == 0,
            r.failed() is None,
    {
        PhaseRun { phase, strict, order: hooks_for(registry, phase), done: 0, failed: None }
    }

    /// The position in the registry of the hook to run next; `None` once the phase
    /// is over.
    pub fn next_hook(&self) -> (h: Option<usize>)
        ensures
            self.finished() ==> h is None,
            !self.finished() ==> h == Some(self.order()[self.done() as int]),
    {
        if self.failed.is_some() || self.done >= self.order.len() {
            None
        } else {
            Some(self.order[self.done])
        }
    }

    /// Record whether the hook `next_hook` named succeeded.
    pub fn record(&mut self, ok: bool)
        requires
            !old(self).finished(),
        ensures
            final(self).phase() == old(self).phase(),
            final(self).strict() == old(self).strict(),
            final(self).order() == old(self).order(),
            final(self).done() == old(self).done() + 1,
            final(self).failed() == (if !ok && old(self).strict() {
                Some(old(self).order()[old(self).done() as int])
            } else {
                old(self).failed()
            }),
    {
        let n = self.order.len();
        assert(self.done < n);
        if !ok && self.strict {
            self.failed = Some(self.order[self.done]);
        }
        self.done = self.done + 1;
    }

    /// The hook that aborted the phase, if a strict phase hit a failure.
    pub fn failure(&self) -> (f: Option<usize>)
        ensures
            f == self.failed(),
    {
        self.failed
    }
}

} // verus!
