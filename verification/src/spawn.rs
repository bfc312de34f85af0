//! The scene spawner's bookkeeping: requests waiting for a scene to load,
//! roots spawned per scene for hot-reload, queued requests and queued
//! dynamic programs.
//!
//! The host drives the spawner each tick: it asks for the waiters of a
//! scene that finished loading and spawns them; on a modification it takes
//! the spawned roots, re-applies the scene to each, and hands back the
//! outcomes, whereupon exactly the roots whose entity was missing are
//! dropped.

use vstd::prelude::*;

use crate::scene::SceneEntity;
// set reasoning for the component-identity model
use crate::scene::SpecSceneEntity;
use crate::scene::SpecSceneSchematic;

verus! {

broadcast use vstd::set::group_set_axioms, vstd::set_lib::group_set_lib_default;

/// One spawn request: the root entity and the scene asset to apply.
#[derive(PartialEq, Eq, Structural, Clone, Copy, Debug)]
pub struct SpawnScene {
    pub entity: u64,
    pub handle: u64,
}

/// The requests waiting for one scene asset, in arrival order.
#[derive(Debug, PartialEq, Eq)]
pub struct Waiters {
    pub id: u64,
    pub spawns: Vec<SpawnScene>,
}

/// The roots spawned from one scene asset.
#[derive(Debug, PartialEq, Eq)]
pub struct SpawnedRoots {
    pub id: u64,
    pub roots: Vec<u64>,
}

/// How one re-application of a scene to a root went.
#[derive(PartialEq, Eq, Structural, Clone, Copy, Debug)]
pub enum ReapplyOutcome {
    /// The root took the scene again.
    Done,
    /// The root's entity no longer exists; the root is dropped.
    Missing,
    /// Another failure: logged, and the root is kept.
    Failed,
}

/// The spawner's state.
pub struct SceneSpawner {
    pub waiting: Vec<Waiters>,
    pub spawned: Vec<SpawnedRoots>,
    pub watching_for_changes: bool,
    pub queued: Vec<SpawnScene>,
    pub queued_commands: Vec<u64>,
}

/// No two waiting entries share a scene asset.
pub open spec fn wf_waiting(w: Seq<Waiters>) -> bool {
    forall|i: int, j: int| 0 <= i < j < w.len() ==> (#[trigger] w[i]).id != (#[trigger] w[j]).id
}

/// No two spawned entries share a scene asset.
pub open spec fn wf_spawned(s: Seq<SpawnedRoots>) -> bool {
    forall|i: int, j: int| 0 <= i < j < s.len() ==> (#[trigger] s[i]).id != (#[trigger] s[j]).id
}

/// The first waiting entry for a scene asset.
pub open spec fn spec_find_waiting(w: Seq<Waiters>, id: u64) -> Option<int>
    decreases w.len(),
{
    if w.len() == 0 {
        Option::None
    } else if w[0].id == id {
        Option::Some(0int)
    } else {
        match spec_find_waiting(w.drop_first(), id) {
            Option::Some(i) => Option::Some(i + 1),
            Option::None => Option::None,
        }
    }
}

/// The waiters recorded for a scene asset, in arrival order.
pub open spec fn spec_waiters(w: Seq<Waiters>, id: u64) -> Seq<SpawnScene> {
    match spec_find_waiting(w, id) {
        Option::Some(i) => w[i].spawns@,
        Option::None => Seq::empty(),
    }
}

/// What a waiting find means.
pub proof fn lemma_find_waiting(w: Seq<Waiters>, id: u64)
    ensures
        match spec_find_waiting(w, id) {
            Option::Some(i) => 0 <= i < w.len() && w[i].id == id && forall|j: int|
                0 <= j < i ==> (#[trigger] w[j]).id != id,
            Option::None => forall|j: int| 0 <= j < w.len() ==> (#[trigger] w[j]).id != id,
        },
    decreases w.len(),
{
    if w.len() > 0 && w[0].id != id {
        let rest = w.drop_first();
        lemma_find_waiting(rest, id);
        match spec_find_waiting(rest, id) {
            Option::Some(i) => {
                assert(rest[i] == w[i + 1]);
                assert forall|j: int| 0 <= j < i + 1 implies (#[trigger] w[j]).id != id by {
                    if j > 0 {
                        assert(rest[j - 1] == w[j]);
                    }
                }
            },
            Option::None => {
                assert forall|j: int| 0 <= j < w.len() implies (#[trigger] w[j]).id != id by {
                    if j > 0 {
                        assert(rest[j - 1] == w[j]);
                    }
                }
            },
        }
    }
}

/// The first spawned entry for a scene asset.
pub open spec fn spec_find_spawned(s: Seq<SpawnedRoots>, id: u64) -> Option<int>
    decreases s.len(),
{
    if s.len() == 0 {
        Option::None
    } else if s[0].id == id {
        Option::Some(0int)
    } else {
        match spec_find_spawned(s.drop_first(), id) {
            Option::Some(i) => Option::Some(i + 1),
            Option::None => Option::None,
        }
    }
}

/// The roots recorded as spawned from a scene asset.
pub open spec fn spec_spawned(s: Seq<SpawnedRoots>, id: u64) -> Seq<u64> {
    match spec_find_spawned(s, id) {
        Option::Some(i) => s[i].roots@,
        Option::None => Seq::empty(),
    }
}

/// What a spawned find means.
pub proof fn lemma_find_spawned(s: Seq<SpawnedRoots>, id: u64)
    ensures
        match spec_find_spawned(s, id) {
            Option::Some(i) => 0 <= i < s.len() && s[i].id == id && forall|j: int|
                0 <= j < i ==> (#[trigger] s[j]).id != id,
            Option::None => forall|j: int| 0 <= j < s.len() ==> (#[trigger] s[j]).id != id,
        },
    decreases s.len(),
{
    if s.len() > 0 && s[0].id != id {
        let rest = s.drop_first();
        lemma_find_spawned(rest, id);
        match spec_find_spawned(rest, id) {
            Option::Some(i) => {
                assert(rest[i] == s[i + 1]);
                assert forall|j: int| 0 <= j < i + 1 implies (#[trigger] s[j]).id != id by {
                    if j > 0 {
                        assert(rest[j - 1] == s[j]);
                    }
                }
            },
            Option::None => {
                assert forall|j: int| 0 <= j < s.len() implies (#[trigger] s[j]).id != id by {
                    if j > 0 {
                        assert(rest[j - 1] == s[j]);
                    }
                }
            },
        }
    }
}

/// The roots that survive a reload: those whose re-application did not find
/// the entity missing.
pub open spec fn spec_survivors(roots: Seq<u64>, outcomes: Seq<ReapplyOutcome>) -> Seq<u64>
    decreases roots.len(),
{
    if roots.len() == 0 || outcomes.len() == 0 {
        Seq::empty()
    } else if outcomes[0] == ReapplyOutcome::Missing {
        spec_survivors(roots.drop_first(), outcomes.drop_first())
    } else {
        seq![roots[0]] + spec_survivors(roots.drop_first(), outcomes.drop_first())
    }
}

impl SceneSpawner {
    /// A fresh spawner; hot-reload tracking is on only when the host
    /// watches for changes.
    pub fn new(watching_for_changes: bool) -> (r: SceneSpawner)
        ensures
            r.waiting@.len() == 0,
            r.spawned@.len() == 0,
            r.queued@.len() == 0,
            r.queued_commands@.len() == 0,
            r.watching_for_changes == watching_for_changes,
    {
        SceneSpawner {
            waiting: Vec::new(),
            spawned: Vec::new(),
            watching_for_changes,
            queued: Vec::new(),
            queued_commands: Vec::new(),
        }
    }

    /// Queue an explicit spawn request.
    pub fn queue(&mut self, spawn_scene: SpawnScene)
        ensures
            final(self).queued@ == old(self).queued@.push(spawn_scene),
            final(self).waiting@ == old(self).waiting@,
            final(self).spawned@ == old(self).spawned@,
            final(self).queued_commands@ == old(self).queued_commands@,
            final(self).watching_for_changes == old(self).watching_for_changes,
    {
        self.queued.push(spawn_scene);
    }

    /// Queue a dynamic program by handle; queueing one twice records it
    /// once.
    pub fn queue_command(&mut self, command: u64)
        ensures
            old(self).queued_commands@.contains(command) ==> final(self).queued_commands@ == old(
                self,
            ).queued_commands@,
            !old(self).queued_commands@.contains(command) ==> final(self).queued_commands@ == old(
                self,
            ).queued_commands@.push(command),
            final(self).waiting@ == old(self).waiting@,
            final(self).spawned@ == old(self).spawned@,
            final(self).queued@ == old(self).queued@,
            final(self).watching_for_changes == old(self).watching_for_changes,
    {
        let mut i: usize = 0;
        while i < self.queued_commands.len()
            invariant
                0 <= i <= self.queued_commands@.len(),
                *self == *old(self),
                forall|j: int| 0 <= j < i ==> self.queued_commands@[j] != command,
            decreases self.queued_commands@.len() - i,
        {
            if self.queued_commands[i] == command {
                return ;
            }
            i = i + 1;
        }
        proof {
            assert(!old(self).queued_commands@.contains(command));
        }
        self.queued_commands.push(command);
    }

    /// Record a request whose scene is still loading: it joins the waiters
    /// of that scene, after any earlier ones.
    pub fn push_waiting(&mut self, spawn_scene: SpawnScene)
        requires
            wf_waiting(old(self).waiting@),
        ensures
            wf_waiting(final(self).waiting@),
            spec_waiters(final(self).waiting@, spawn_scene.handle) == spec_waiters(
                old(self).waiting@,
                spawn_scene.handle,
            ).push(spawn_scene),
            forall|other: u64|
                other != spawn_scene.handle ==> spec_waiters(final(self).waiting@, other)
                    == spec_waiters(old(self).waiting@, other),
            final(self).spawned@ == old(self).spawned@,
            final(self).queued@ == old(self).queued@,
            final(self).queued_commands@ == old(self).queued_commands@,
            final(self).watching_for_changes == old(self).watching_for_changes,
    {
        let id = spawn_scene.handle;
        proof {
            lemma_find_waiting(self.waiting@, id);
        }
        let mut i: usize = 0;
        while i < self.waiting.len()
            invariant
                0 <= i <= self.waiting@.len(),
                *self == *old(self),
                wf_waiting(self.waiting@),
                forall|j: int| 0 <= j < i ==> (#[trigger] self.waiting@[j]).id != id,
                id == spawn_scene.handle,
            decreases self.waiting@.len() - i,
        {
            proof {
                lemma_find_waiting(self.waiting@, id);
            }
            if self.waiting[i].id == id {
                proof {
                    match spec_find_waiting(self.waiting@, id) {
                        Option::Some(ip) => {
                            if ip < i as int {
                                assert(self.waiting@[ip].id != id);
                            }
                            if ip > i as int {
                                assert(self.waiting@[i as int].id != id);
                            }
                        },
                        Option::None => {
                            assert(self.waiting@[i as int].id != id);
                        },
                    }
                    assert(spec_find_waiting(self.waiting@, id) == Option::Some(i as int));
                }
                let mut entry = self.waiting.remove(i);
                entry.spawns.push(spawn_scene);
                self.waiting.insert(i, entry);
                proof {
                    assert(final(self).waiting@ =~= old(self).waiting@.update(i as int, entry));
                    lemma_find_waiting(final(self).waiting@, id);
                    assert forall|other: u64| other != id implies spec_waiters(
                        final(self).waiting@,
                        other,
                    ) == spec_waiters(old(self).waiting@, other) by {
                        lemma_update_keeps_other_waiters(
                            old(self).waiting@,
                            i as int,
                            entry,
                            other,
                        );
                    }
                    assert(spec_find_waiting(final(self).waiting@, id) == Option::Some(
                        i as int,
                    )) by {
                        lemma_find_same_ids(old(self).waiting@, final(self).waiting@, id);
                    }
                    assert forall|a: int, c: int|
                        0 <= a < c < final(self).waiting@.len() implies (#[trigger] final(self).waiting@[a]).id != (#[trigger] final(self).waiting@[c]).id by {
                        if a == i as int {
                            assert(final(self).waiting@[a] == entry);
                        } else {
                            assert(final(self).waiting@[a] == old(self).waiting@[a]);
                        }
                        if c == i as int {
                            assert(final(self).waiting@[c] == entry);
                        } else {
                            assert(final(self).waiting@[c] == old(self).waiting@[c]);
                        }
                    }
                }
                return ;
            }
            i = i + 1;
        }
        proof {
            lemma_find_waiting(self.waiting@, id);
            assert(spec_find_waiting(self.waiting@, id) is None);
        }
        let mut spawns: Vec<SpawnScene> = Vec::new();
        spawns.push(spawn_scene);
        let entry = Waiters { id, spawns };
        self.waiting.push(entry);
        proof {
            lemma_push_waiters(old(self).waiting@, entry);
            assert(spec_waiters(old(self).waiting@, id) =~= Seq::<SpawnScene>::empty());
            assert(entry.spawns@ =~= Seq::<SpawnScene>::empty().push(spawn_scene));
            assert forall|a: int, c: int|
                0 <= a < c < final(self).waiting@.len() implies (#[trigger] final(self).waiting@[a]).id != (#[trigger] final(self).waiting@[c]).id by {
                if c < old(self).waiting@.len() {
                    assert(final(self).waiting@[a] == old(self).waiting@[a]);
                    assert(final(self).waiting@[c] == old(self).waiting@[c]);
                } else {
                    assert(final(self).waiting@[a] == old(self).waiting@[a]);
                    assert(old(self).waiting@[a].id != id);
                }
            }
        }
    }

    /// Take every waiter recorded for a scene that has finished loading:
    /// they are handed out in arrival order, and none remains.
    pub fn take_waiting(&mut self, id: u64) -> (r: Vec<SpawnScene>)
        requires
            wf_waiting(old(self).waiting@),
        ensures
            wf_waiting(final(self).waiting@),
            r@ == spec_waiters(old(self).waiting@, id),
            spec_waiters(final(self).waiting@, id) == Seq::<SpawnScene>::empty(),
            forall|other: u64|
                other != id ==> spec_waiters(final(self).waiting@, other) == spec_waiters(
                    old(self).waiting@,
                    other,
                ),
            final(self).spawned@ == old(self).spawned@,
            final(self).queued@ == old(self).queued@,
            final(self).queued_commands@ == old(self).queued_commands@,
            final(self).watching_for_changes == old(self).watching_for_changes,
    {
        proof {
            lemma_find_waiting(self.waiting@, id);
        }
        let mut i: usize = 0;
        while i < self.waiting.len()
            invariant
                0 <= i <= self.waiting@.len(),
                *self == *old(self),
                wf_waiting(self.waiting@),
                forall|j: int| 0 <= j < i ==> (#[trigger] self.waiting@[j]).id != id,
            decreases self.waiting@.len() - i,
        {
            proof {
                lemma_find_waiting(self.waiting@, id);
            }
            if self.waiting[i].id == id {
                proof {
                    match spec_find_waiting(self.waiting@, id) {
                        Option::Some(ip) => {
                            if ip < i as int {
                                assert(self.waiting@[ip].id != id);
                            }
                            if ip > i as int {
                                assert(self.waiting@[i as int].id != id);
                            }
                        },
                        Option::None => {
                            assert(self.waiting@[i as int].id != id);
                        },
                    }
                    assert(spec_find_waiting(self.waiting@, id) == Option::Some(i as int));
                }
                let entry = self.waiting.remove(i);
                proof {
                    lemma_remove_waiters(old(self).waiting@, i as int, id);
                    lemma_find_waiting(final(self).waiting@, id);
                }
                return entry.spawns;
            }
            i = i + 1;
        }
        proof {
            lemma_find_waiting(self.waiting@, id);
            assert(spec_waiters(self.waiting@, id) =~= Seq::<SpawnScene>::empty());
        }
        Vec::new()
    }

    /// Record a spawned root for hot-reload, when tracking is on; a root
    /// recorded twice is kept once.
    pub fn record_spawned(&mut self, id: u64, root: u64)
        requires
            wf_spawned(old(self).spawned@),
        ensures
            wf_spawned(final(self).spawned@),
            !old(self).watching_for_changes ==> *final(self) == *old(self),
            old(self).watching_for_changes ==> {
                &&& (spec_spawned(old(self).spawned@, id).contains(root) ==> spec_spawned(
                    final(self).spawned@,
                    id,
                ) == spec_spawned(old(self).spawned@, id))
                &&& (!spec_spawned(old(self).spawned@, id).contains(root) ==> spec_spawned(
                    final(self).spawned@,
                    id,
                ) == spec_spawned(old(self).spawned@, id).push(root))
                &&& forall|other: u64|
                    other != id ==> spec_spawned(final(self).spawned@, other) == spec_spawned(
                        old(self).spawned@,
                        other,
                    )
                &&& final(self).waiting@ == old(self).waiting@
                &&& final(self).queued@ == old(self).queued@
                &&& final(self).queued_commands@ == old(self).queued_commands@
                &&& final(self).watching_for_changes == old(self).watching_for_changes
            },
    {
        if !self.watching_for_changes {
            return ;
        }
        proof {
            lemma_find_spawned(self.spawned@, id);
        }
        let mut i: usize = 0;
        while i < self.spawned.len()
            invariant
                0 <= i <= self.spawned@.len(),
                *self == *old(self),
                old(self).watching_for_changes,
                wf_spawned(self.spawned@),
                forall|j: int| 0 <= j < i ==> (#[trigger] self.spawned@[j]).id != id,
            decreases self.spawned@.len() - i,
        {
            proof {
                lemma_find_spawned(self.spawned@, id);
            }
            if self.spawned[i].id == id {
                proof {
                    match spec_find_spawned(self.spawned@, id) {
                        Option::Some(ip) => {
                            if ip < i as int {
                                assert(self.spawned@[ip].id != id);
                            }
                            if ip > i as int {
                                assert(self.spawned@[i as int].id != id);
                            }
                        },
                        Option::None => {
                            assert(self.spawned@[i as int].id != id);
                        },
                    }
                    assert(spec_find_spawned(self.spawned@, id) == Option::Some(i as int));
                }
                let mut entry = self.spawned.remove(i);
                let mut k: usize = 0;
                let mut found = false;
                while k < entry.roots.len()
                    invariant
                        0 <= k <= entry.roots@.len(),
                        entry == old(self).spawned@[i as int],
                        !found ==> forall|j: int| 0 <= j < k ==> entry.roots@[j] != root,
                        found ==> entry.roots@.contains(root),
                    ensures
                        entry == old(self).spawned@[i as int],
                        found == entry.roots@.contains(root),
                    decreases entry.roots@.len() - k,
                {
                    if entry.roots[k] == root {
                        found = true;
                        break ;
                    }
                    k = k + 1;
                }
                if !found {
                    entry.roots.push(root);
                }
                self.spawned.insert(i, entry);
                proof {
                    assert(final(self).spawned@ =~= old(self).spawned@.update(i as int, entry));
                    lemma_find_same_spawned_ids(old(self).spawned@, final(self).spawned@, id);
                    assert forall|other: u64| other != id implies spec_spawned(
                        final(self).spawned@,
                        other,
                    ) == spec_spawned(old(self).spawned@, other) by {
                        lemma_update_keeps_other_spawned(
                            old(self).spawned@,
                            i as int,
                            entry,
                            other,
                        );
                    }
                    assert forall|a: int, c: int|
                        0 <= a < c < final(self).spawned@.len() implies (#[trigger] final(self).spawned@[a]).id != (#[trigger] final(self).spawned@[c]).id by {
                        if a == i as int {
                            assert(final(self).spawned@[a] == entry);
                        } else {
                            assert(final(self).spawned@[a] == old(self).spawned@[a]);
                        }
                        if c == i as int {
                            assert(final(self).spawned@[c] == entry);
                        } else {
                            assert(final(self).spawned@[c] == old(self).spawned@[c]);
                        }
                    }
                }
                return ;
            }
            i = i + 1;
        }
        proof {
            lemma_find_spawned(self.spawned@, id);
            assert(spec_find_spawned(self.spawned@, id) is None);
            assert(spec_spawned(self.spawned@, id) =~= Seq::<u64>::empty());
        }
        let mut roots: Vec<u64> = Vec::new();
        roots.push(root);
        let entry = SpawnedRoots { id, roots };
        self.spawned.push(entry);
        proof {
            lemma_push_spawned(old(self).spawned@, entry);
            assert(entry.roots@ =~= Seq::<u64>::empty().push(root));
            assert forall|a: int, c: int|
                0 <= a < c < final(self).spawned@.len() implies (#[trigger] final(self).spawned@[a]).id != (#[trigger] final(self).spawned@[c]).id by {
                if c < old(self).spawned@.len() {
                    assert(final(self).spawned@[a] == old(self).spawned@[a]);
                    assert(final(self).spawned@[c] == old(self).spawned@[c]);
                } else {
                    assert(final(self).spawned@[a] == old(self).spawned@[a]);
                    assert(old(self).spawned@[a].id != id);
                }
            }
        }
    }

    /// Take the roots spawned from a modified scene, to re-apply it to each
    /// of them.
    pub fn begin_reload(&mut self, id: u64) -> (r: Vec<u64>)
        requires
            wf_spawned(old(self).spawned@),
        ensures
            wf_spawned(final(self).spawned@),
            spec_find_spawned(final(self).spawned@, id) is None,
            r@ == spec_spawned(old(self).spawned@, id),
            spec_spawned(final(self).spawned@, id) == Seq::<u64>::empty(),
            forall|other: u64|
                other != id ==> spec_spawned(final(self).spawned@, other) == spec_spawned(
                    old(self).spawned@,
                    other,
                ),
            final(self).waiting@ == old(self).waiting@,
            final(self).queued@ == old(self).queued@,
            final(self).queued_commands@ == old(self).queued_commands@,
            final(self).watching_for_changes == old(self).watching_for_changes,
    {
        proof {
            lemma_find_spawned(self.spawned@, id);
        }
        let mut i: usize = 0;
        while i < self.spawned.len()
            invariant
                0 <= i <= self.spawned@.len(),
                *self == *old(self),
                wf_spawned(self.spawned@),
                forall|j: int| 0 <= j < i ==> (#[trigger] self.spawned@[j]).id != id,
            decreases self.spawned@.len() - i,
        {
            proof {
                lemma_find_spawned(self.spawned@, id);
            }
            if self.spawned[i].id == id {
                proof {
                    match spec_find_spawned(self.spawned@, id) {
                        Option::Some(ip) => {
                            if ip < i as int {
                                assert(self.spawned@[ip].id != id);
                            }
                            if ip > i as int {
                                assert(self.spawned@[i as int].id != id);
                            }
                        },
                        Option::None => {
                            assert(self.spawned@[i as int].id != id);
                        },
                    }
                    assert(spec_find_spawned(self.spawned@, id) == Option::Some(i as int));
                }
                let entry = self.spawned.remove(i);
                proof {
                    lemma_remove_spawned(old(self).spawned@, i as int, id);
                    lemma_find_spawned(final(self).spawned@, id);
                }
                return entry.roots;
            }
            i = i + 1;
        }
        proof {
            lemma_find_spawned(self.spawned@, id);
            assert(spec_spawned(self.spawned@, id) =~= Seq::<u64>::empty());
        }
        Vec::new()
    }

    /// After a reload: keep exactly the roots whose re-application did not
    /// find the entity missing. The root whose entity was gone is dropped;
    /// the rest are preserved, in order.
    pub fn end_reload(&mut self, id: u64, roots: &Vec<u64>, outcomes: &Vec<ReapplyOutcome>)
        requires
            wf_spawned(old(self).spawned@),
            roots@.len() == outcomes@.len(),
            spec_find_spawned(old(self).spawned@, id) is None,
        ensures
            wf_spawned(final(self).spawned@),
            spec_spawned(final(self).spawned@, id) == spec_survivors(roots@, outcomes@),
            forall|other: u64|
                other != id ==> spec_spawned(final(self).spawned@, other) == spec_spawned(
                    old(self).spawned@,
                    other,
                ),
            final(self).waiting@ == old(self).waiting@,
            final(self).queued@ == old(self).queued@,
            final(self).queued_commands@ == old(self).queued_commands@,
            final(self).watching_for_changes == old(self).watching_for_changes,
    {
        let mut survivors: Vec<u64> = Vec::new();
        let mut k: usize = 0;
        proof {
            assert(roots@.subrange(0, roots@.len() as int) =~= roots@);
            assert(outcomes@.subrange(0, outcomes@.len() as int) =~= outcomes@);
        }
        while k < roots.len()
            invariant
                0 <= k <= roots@.len(),
                roots@.len() == outcomes@.len(),
                spec_survivors(roots@, outcomes@) == survivors@ + spec_survivors(
                    roots@.subrange(k as int, roots@.len() as int),
                    outcomes@.subrange(k as int, outcomes@.len() as int),
                ),
            decreases roots@.len() - k,
        {
            let ghost rrem = roots@.subrange(k as int, roots@.len() as int);
            let ghost orem = outcomes@.subrange(k as int, outcomes@.len() as int);
            proof {
                assert(rrem[0] == roots@[k as int]);
                assert(orem[0] == outcomes@[k as int]);
                assert(rrem.drop_first() =~= roots@.subrange(k as int + 1, roots@.len() as int));
                assert(orem.drop_first() =~= outcomes@.subrange(
                    k as int + 1,
                    outcomes@.len() as int,
                ));
            }
            let keep = match outcomes[k] {
                ReapplyOutcome::Missing => false,
                _ => true,
            };
            if keep {
                let ghost before = survivors@;
                survivors.push(roots[k]);
                proof {
                    assert(survivors@ =~= before.push(roots@[k as int]));
                    assert(before + spec_survivors(rrem, orem) =~= survivors@ + spec_survivors(
                        rrem.drop_first(),
                        orem.drop_first(),
                    ));
                }
            }
            k = k + 1;
        }
        proof {
            assert(roots@.subrange(roots@.len() as int, roots@.len() as int) =~= Seq::<
                u64,
            >::empty());
            assert(outcomes@.subrange(outcomes@.len() as int, outcomes@.len() as int) =~= Seq::<
                ReapplyOutcome,
            >::empty());
            assert(spec_survivors(roots@, outcomes@) =~= survivors@);
        }
        let entry = SpawnedRoots { id, roots: survivors };
        self.spawned.push(entry);
        proof {
            lemma_find_spawned(old(self).spawned@, id);
            lemma_push_spawned(old(self).spawned@, entry);
            assert forall|a: int, c: int|
                0 <= a < c < final(self).spawned@.len() implies (#[trigger] final(self).spawned@[a]).id != (#[trigger] final(self).spawned@[c]).id by {
                if c < old(self).spawned@.len() {
                    assert(final(self).spawned@[a] == old(self).spawned@[a]);
                    assert(final(self).spawned@[c] == old(self).spawned@[c]);
                } else {
                    assert(final(self).spawned@[a] == old(self).spawned@[a]);
                    assert(old(self).spawned@[a].id != id);
                }
            }
        }
    }
}

// ---------------------------------------------------------------------------
// How pushing, updating and removing an entry read through the per-id
// views.

proof fn lemma_push_waiters(w: Seq<Waiters>, entry: Waiters)
    requires
        spec_find_waiting(w, entry.id) is None,
    ensures
        spec_waiters(w.push(entry), entry.id) == entry.spawns@,
        forall|other: u64|
            other != entry.id ==> spec_waiters(w.push(entry), other) == spec_waiters(w, other),
{
    let p = w.push(entry);
    lemma_find_waiting(w, entry.id);
    lemma_find_waiting(p, entry.id);
    match spec_find_waiting(p, entry.id) {
        Option::Some(i) => {
            if i < w.len() {
                assert(p[i] == w[i]);
                assert(w[i].id != entry.id);
            }
            assert(p[i] == entry);
        },
        Option::None => {
            assert(p[w.len() as int] == entry);
            assert(p[w.len() as int].id != entry.id);
        },
    }
    assert forall|other: u64| other != entry.id implies spec_waiters(p, other) == spec_waiters(
        w,
        other,
    ) by {
        lemma_find_waiting(p, other);
        lemma_find_waiting(w, other);
        match spec_find_waiting(w, other) {
            Option::Some(k) => {
                assert(w[k].id == other);
                assert(p[k] == w[k]);
                match spec_find_waiting(p, other) {
                    Option::Some(kp) => {
                        if kp < k {
                            assert(p[kp] == w[kp]);
                            assert(w[kp].id != other);
                        }
                        if k < kp {
                            assert(p[k].id != other);
                        }
                        assert(kp == k);
                    },
                    Option::None => {
                        assert(p[k].id != other);
                    },
                }
            },
            Option::None => {
                if let Option::Some(kp) = spec_find_waiting(p, other) {
                    if kp < w.len() {
                        assert(p[kp] == w[kp]);
                        assert(w[kp].id != other);
                    } else {
                        assert(p[kp] == entry);
                    }
                }
            },
        }
    }
}

proof fn lemma_push_spawned(s: Seq<SpawnedRoots>, entry: SpawnedRoots)
    requires
        spec_find_spawned(s, entry.id) is None,
    ensures
        spec_spawned(s.push(entry), entry.id) == entry.roots@,
        forall|other: u64|
            other != entry.id ==> spec_spawned(s.push(entry), other) == spec_spawned(s, other),
{
    let p = s.push(entry);
    lemma_find_spawned(s, entry.id);
    lemma_find_spawned(p, entry.id);
    match spec_find_spawned(p, entry.id) {
        Option::Some(i) => {
            if i < s.len() {
                assert(p[i] == s[i]);
                assert(s[i].id != entry.id);
            }
            assert(p[i] == entry);
        },
        Option::None => {
            assert(p[s.len() as int] == entry);
            assert(p[s.len() as int].id != entry.id);
        },
    }
    assert forall|other: u64| other != entry.id implies spec_spawned(p, other) == spec_spawned(
        s,
        other,
    ) by {
        lemma_find_spawned(p, other);
        lemma_find_spawned(s, other);
        match spec_find_spawned(s, other) {
            Option::Some(k) => {
                assert(s[k].id == other);
                assert(p[k] == s[k]);
                match spec_find_spawned(p, other) {
                    Option::Some(kp) => {
                        if kp < k {
                            assert(p[kp] == s[kp]);
                            assert(s[kp].id != other);
                        }
                        if k < kp {
                            assert(p[k].id != other);
                        }
                        assert(kp == k);
                    },
                    Option::None => {
                        assert(p[k].id != other);
                    },
                }
            },
            Option::None => {
                if let Option::Some(kp) = spec_find_spawned(p, other) {
                    if kp < s.len() {
                        assert(p[kp] == s[kp]);
                        assert(s[kp].id != other);
                    } else {
                        assert(p[kp] == entry);
                    }
                }
            },
        }
    }
}

proof fn lemma_find_same_ids(a: Seq<Waiters>, b: Seq<Waiters>, id: u64)
    requires
        a.len() == b.len(),
        forall|j: int| 0 <= j < a.len() ==> (#[trigger] a[j]).id == b[j].id,
    ensures
        spec_find_waiting(a, id) == spec_find_waiting(b, id),
    decreases a.len(),
{
    if a.len() > 0 {
        assert(a[0].id == b[0].id);
        assert forall|j: int| 0 <= j < a.drop_first().len() implies (#[trigger] a.drop_first()[j]).id
            == b.drop_first()[j].id by {
            assert(a.drop_first()[j] == a[j + 1]);
            assert(b.drop_first()[j] == b[j + 1]);
            assert(a[j + 1].id == b[j + 1].id);
        }
        lemma_find_same_ids(a.drop_first(), b.drop_first(), id);
    }
}

proof fn lemma_find_same_spawned_ids(a: Seq<SpawnedRoots>, b: Seq<SpawnedRoots>, id: u64)
    requires
        a.len() == b.len(),
        forall|j: int| 0 <= j < a.len() ==> (#[trigger] a[j]).id == b[j].id,
    ensures
        spec_find_spawned(a, id) == spec_find_spawned(b, id),
    decreases a.len(),
{
    if a.len() > 0 {
        assert(a[0].id == b[0].id);
        assert forall|j: int| 0 <= j < a.drop_first().len() implies (#[trigger] a.drop_first()[j]).id
            == b.drop_first()[j].id by {
            assert(a.drop_first()[j] == a[j + 1]);
            assert(b.drop_first()[j] == b[j + 1]);
            assert(a[j + 1].id == b[j + 1].id);
        }
        lemma_find_same_spawned_ids(a.drop_first(), b.drop_first(), id);
    }
}

proof fn lemma_update_keeps_other_waiters(w: Seq<Waiters>, i: int, entry: Waiters, other: u64)
    requires
        0 <= i < w.len(),
        entry.id == w[i].id,
        other != entry.id,
    ensures
        spec_waiters(w.update(i, entry), other) == spec_waiters(w, other),
    decreases w.len(),
{
    let b = w.update(i, entry);
    assert forall|j: int| 0 <= j < w.len() implies (#[trigger] w[j]).id == b[j].id by {}
    lemma_find_same_ids(w, b, other);
    lemma_find_waiting(w, other);
    lemma_find_waiting(b, other);
    if let Option::Some(k) = spec_find_waiting(w, other) {
        assert(w[k].id == other);
        assert(k != i);
        assert(b[k] == w[k]);
    }
}

proof fn lemma_update_keeps_other_spawned(
    s: Seq<SpawnedRoots>,
    i: int,
    entry: SpawnedRoots,
    other: u64,
)
    requires
        0 <= i < s.len(),
        entry.id == s[i].id,
        other != entry.id,
    ensures
        spec_spawned(s.update(i, entry), other) == spec_spawned(s, other),
    decreases s.len(),
{
    let b = s.update(i, entry);
    assert forall|j: int| 0 <= j < s.len() implies (#[trigger] s[j]).id == b[j].id by {}
    lemma_find_same_spawned_ids(s, b, other);
    lemma_find_spawned(s, other);
    lemma_find_spawned(b, other);
    if let Option::Some(k) = spec_find_spawned(s, other) {
        assert(s[k].id == other);
        assert(k != i);
        assert(b[k] == s[k]);
    }
}

proof fn lemma_remove_waiters(w: Seq<Waiters>, i: int, id: u64)
    requires
        wf_waiting(w),
        0 <= i < w.len(),
        w[i].id == id,
    ensures
        spec_find_waiting(w.remove(i), id) is None,
        forall|other: u64|
            other != id ==> spec_waiters(w.remove(i), other) == spec_waiters(w, other),
        wf_waiting(w.remove(i)),
    decreases w.len(),
{
    let b = w.remove(i);
    assert forall|a: int, c: int| 0 <= a < c < b.len() implies (#[trigger] b[a]).id
        != (#[trigger] b[c]).id by {
        if a < i {
            assert(b[a] == w[a]);
        } else {
            assert(b[a] == w[a + 1]);
        }
        if c < i {
            assert(b[c] == w[c]);
        } else {
            assert(b[c] == w[c + 1]);
        }
    }
    assert forall|j: int| 0 <= j < b.len() implies (#[trigger] b[j]).id != id by {
        if j < i {
            assert(b[j] == w[j]);
        } else {
            assert(b[j] == w[j + 1]);
        }
    }
    lemma_find_waiting(b, id);
    assert forall|other: u64| other != id implies spec_waiters(b, other) == spec_waiters(
        w,
        other,
    ) by {
        lemma_find_waiting(b, other);
        lemma_find_waiting(w, other);
        match spec_find_waiting(w, other) {
            Option::Some(k) => {
                assert(w[k].id == other);
                assert(k != i);
                if k < i {
                    assert(b[k] == w[k]);
                    match spec_find_waiting(b, other) {
                        Option::Some(kb) => {
                            if kb < k {
                                if kb < i {
                                    assert(b[kb] == w[kb]);
                                } else {
                                    assert(b[kb] == w[kb + 1]);
                                }
                            }
                            if k < kb {
                                assert(b[k].id != other);
                            }
                            assert(kb == k);
                        },
                        Option::None => {
                            assert(b[k].id != other);
                        },
                    }
                } else {
                    assert(b[k - 1] == w[k]);
                    match spec_find_waiting(b, other) {
                        Option::Some(kb) => {
                            if kb < k - 1 {
                                if kb < i {
                                    assert(b[kb] == w[kb]);
                                    assert(w[kb].id != other);
                                } else {
                                    assert(b[kb] == w[kb + 1]);
                                    assert(w[kb + 1].id != other);
                                }
                            }
                            if k - 1 < kb {
                                assert(b[k - 1].id != other);
                            }
                            assert(kb == k - 1);
                        },
                        Option::None => {
                            assert(b[k - 1].id != other);
                        },
                    }
                }
            },
            Option::None => {
                if let Option::Some(kb) = spec_find_waiting(b, other) {
                    if kb < i {
                        assert(b[kb] == w[kb]);
                        assert(w[kb].id != other);
                    } else {
                        assert(b[kb] == w[kb + 1]);
                        assert(w[kb + 1].id != other);
                    }
                }
            },
        }
    }
}

proof fn lemma_remove_spawned(s: Seq<SpawnedRoots>, i: int, id: u64)
    requires
        wf_spawned(s),
        0 <= i < s.len(),
        s[i].id == id,
    ensures
        spec_find_spawned(s.remove(i), id) is None,
        forall|other: u64|
            other != id ==> spec_spawned(s.remove(i), other) == spec_spawned(s, other),
        wf_spawned(s.remove(i)),
    decreases s.len(),
{
    let b = s.remove(i);
    assert forall|a: int, c: int| 0 <= a < c < b.len() implies (#[trigger] b[a]).id
        != (#[trigger] b[c]).id by {
        if a < i {
            assert(b[a] == s[a]);
        } else {
            assert(b[a] == s[a + 1]);
        }
        if c < i {
            assert(b[c] == s[c]);
        } else {
            assert(b[c] == s[c + 1]);
        }
    }
    assert forall|j: int| 0 <= j < b.len() implies (#[trigger] b[j]).id != id by {
        if j < i {
            assert(b[j] == s[j]);
        } else {
            assert(b[j] == s[j + 1]);
        }
    }
    lemma_find_spawned(b, id);
    assert forall|other: u64| other != id implies spec_spawned(b, other) == spec_spawned(
        s,
        other,
    ) by {
        lemma_find_spawned(b, other);
        lemma_find_spawned(s, other);
        match spec_find_spawned(s, other) {
            Option::Some(k) => {
                assert(s[k].id == other);
                assert(k != i);
                if k < i {
                    assert(b[k] == s[k]);
                    match spec_find_spawned(b, other) {
                        Option::Some(kb) => {
                            if kb < k {
                                if kb < i {
                                    assert(b[kb] == s[kb]);
                                } else {
                                    assert(b[kb] == s[kb + 1]);
                                }
                            }
                            if k < kb {
                                assert(b[k].id != other);
                            }
                            assert(kb == k);
                        },
                        Option::None => {
                            assert(b[k].id != other);
                        },
                    }
                } else {
                    assert(b[k - 1] == s[k]);
                    match spec_find_spawned(b, other) {
                        Option::Some(kb) => {
                            if kb < k - 1 {
                                if kb < i {
                                    assert(b[kb] == s[kb]);
                                    assert(s[kb].id != other);
                                } else {
                                    assert(b[kb] == s[kb + 1]);
                                    assert(s[kb + 1].id != other);
                                }
                            }
                            if k - 1 < kb {
                                assert(b[k - 1].id != other);
                            }
                            assert(kb == k - 1);
                        },
                        Option::None => {
                            assert(b[k - 1].id != other);
                        },
                    }
                }
            },
            Option::None => {
                if let Option::Some(kb) = spec_find_spawned(b, other) {
                    if kb < i {
                        assert(b[kb] == s[kb]);
                        assert(s[kb].id != other);
                    } else {
                        assert(b[kb] == s[kb + 1]);
                        assert(s[kb + 1].id != other);
                    }
                }
            },
        }
    }
}

// ---------------------------------------------------------------------------
// Applying a resolved scene to a root's component set.

/// The component type identities one application of a resolved entity
/// installs on its root: one per schematic.
pub open spec fn spec_installed_ids(schematics: Seq<SpecSceneSchematic>) -> Set<u64> {
    Set::new(
        |id: u64|
            exists|k: int| 0 <= k < schematics.len() && (#[trigger] schematics[k]).type_id == id,
    )
}

/// The set of component type identities a component list holds.
pub open spec fn spec_id_set(v: Seq<u64>) -> Set<u64> {
    Set::new(|id: u64| v.contains(id))
}

fn contains_id(v: &Vec<u64>, id: u64) -> (r: bool)
    ensures
        r == v@.contains(id),
{
    let mut i: usize = 0;
    while i < v.len()
        invariant
            0 <= i <= v@.len(),
            forall|j: int| 0 <= j < i ==> v@[j] != id,
        decreases v@.len() - i,
    {
        if v[i] == id {
            return true;
        }
        i = i + 1;
    }
    false
}

impl SceneEntity {
    /// Install the root's components onto a component set: each schematic's
    /// type identity is upserted, never doubled. Components already present
    /// and not re-emitted persist.
    pub fn apply_ids(&self, components: &mut Vec<u64>)
        ensures
            spec_id_set(final(components)@) == spec_id_set(old(components)@) + spec_installed_ids(
                self.m().schematics,
            ),
    {
        let ghost schs = self.m().schematics;
        let mut i: usize = 0;
        while i < self.schematics.len()
            invariant
                0 <= i <= self.schematics@.len(),
                schs == self.m().schematics,
                schs.len() == self.schematics@.len(),
                spec_id_set(components@) == spec_id_set(old(components)@) + spec_installed_ids(
                    schs.subrange(0, i as int),
                ),
            decreases self.schematics@.len() - i,
        {
            let id = self.schematics[i].type_id;
            proof {
                assert(schs[i as int] == self.schematics@[i as int].m());
                assert(schs[i as int].type_id == id);
            }
            let ghost before = components@;
            if !contains_id(components, id) {
                components.push(id);
            }
            proof {
                let prefix = schs.subrange(0, i as int);
                let prefix2 = schs.subrange(0, i as int + 1);
                let lhs = spec_id_set(components@);
                let rhs = spec_id_set(old(components)@) + spec_installed_ids(prefix2);
                assert(components@.contains(id)) by {
                    if before.contains(id) {
                        assert(components@ == before);
                    } else {
                        assert(components@.last() == id);
                    }
                }
                assert(prefix2[i as int].type_id == id);
                assert forall|x: u64| lhs.contains(x) implies rhs.contains(x) by {
                    let j = choose|j: int| 0 <= j < components@.len() && components@[j] == x;
                    if j < before.len() {
                        assert(before[j] == x);
                        assert(spec_id_set(before).contains(x));
                        if spec_installed_ids(prefix).contains(x) {
                            let k = choose|k: int|
                                0 <= k < prefix.len() && prefix[k].type_id == x;
                            assert(prefix2[k] == prefix[k]);
                        }
                    } else {
                        assert(components@[j] == id);
                    }
                }
                assert forall|x: u64| rhs.contains(x) implies lhs.contains(x) by {
                    if spec_id_set(old(components)@).contains(x) || spec_installed_ids(
                        prefix,
                    ).contains(x) {
                        assert(spec_id_set(before).contains(x));
                        let j = choose|j: int| 0 <= j < before.len() && before[j] == x;
                        assert(components@[j] == x);
                    } else {
                        let k = choose|k: int|
                            0 <= k < prefix2.len() && prefix2[k].type_id == x;
                        if k < prefix.len() {
                            assert(prefix[k] == prefix2[k]);
                        } else {
                            assert(x == id);
                        }
                    }
                }
                assert(lhs =~= rhs);
            }
            i = i + 1;
        }
        proof {
            assert(schs.subrange(0, schs.len() as int) =~= schs);
        }
    }
}

/// Re-applying the same resolved scene to the same root leaves the
/// component set exactly as the first application left it: installing is an
/// upsert, so installing the same identities twice adds nothing.
pub proof fn lemma_reapply_idempotent(before: Set<u64>, e: SpecSceneEntity)
    ensures
        (before + spec_installed_ids(e.schematics)) + spec_installed_ids(e.schematics) == before
            + spec_installed_ids(e.schematics),
{
    assert((before + spec_installed_ids(e.schematics)) + spec_installed_ids(e.schematics)
        =~= before + spec_installed_ids(e.schematics));
}

} // verus!
