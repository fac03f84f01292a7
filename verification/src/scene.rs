//! A snapshot of the scene's hierarchy: for each entity its name and its
//! children, as the engine reported them for one frame.

use std::collections::{HashMap, HashSet};
use vstd::prelude::*;
use vstd::set_lib::lemma_len_subset;

verus! {

broadcast use vstd::std_specs::hash::group_hash_axioms;

/// What the tree shows of one entity.
#[derive(Debug, PartialEq, Eq)]
pub struct SceneEntry {
    /// The entity's name, where it has one.
    pub name: Option<String>,
    /// The entity's children, in the engine's order; empty where it has none.
    pub children: Vec<u64>,
}

/// A `SceneEntry` as a mathematical value.
pub struct SceneEntryView {
    pub name: Option<Seq<char>>,
    pub children: Seq<u64>,
}

/// The entry that records `name` and `children`.
pub open spec fn entry_of(name: Option<String>, children: Vec<u64>) -> SceneEntryView {
    SceneEntryView {
        name: match name {
            Some(name) => Some(name@),
            None => None,
        },
        children: children@,
    }
}

impl View for SceneEntry {
    type V = SceneEntryView;

    open spec fn view(&self) -> SceneEntryView {
        entry_of(self.name, self.children)
    }
}

/// A scene as a mathematical value: the entries by entity.
pub type SceneView = Map<u64, SceneEntryView>;

/// Every chain of children that starts at `entity` stays among the entities
/// of `scene` and ends after fewer than `depth` steps.
pub open spec fn hierarchy_within(scene: SceneView, entity: u64, depth: nat) -> bool
    decreases depth,
{
    &&& depth > 0
    &&& scene.contains_key(entity)
    &&& forall|i: int|
        0 <= i < scene[entity].children.len() ==> hierarchy_within(
            scene,
            #[trigger] scene[entity].children[i],
            (depth - 1) as nat,
        )
}

/// Below `entity` the scene is a hierarchy: every entity met on the way down
/// is known, and no chain of children goes on for ever.
pub open spec fn is_hierarchy(scene: SceneView, entity: u64) -> bool {
    exists|depth: nat| hierarchy_within(scene, entity, depth)
}

/// A snapshot of the scene, filled entity by entity.
pub struct SceneGraph {
    entries: HashMap<u64, SceneEntry>,
}

impl View for SceneGraph {
    type V = SceneView;

    closed spec fn view(&self) -> SceneView {
        Map::new(
            |entity: u64| self.entries@.contains_key(entity),
            |entity: u64| self.entries@[entity]@,
        )
    }
}

impl SceneGraph {
    /// A snapshot of nothing.
    pub fn new() -> (graph: Self)
        ensures
            graph@ == Map::<u64, SceneEntryView>::empty(),
    {
        let graph = SceneGraph { entries: HashMap::new() };
        assert(graph@ =~= Map::<u64, SceneEntryView>::empty());
        graph
    }

    /// Records `entity` with its name and children. A second record of the
    /// same entity replaces the first.
    pub fn insert(&mut self, entity: u64, name: Option<String>, children: Vec<u64>)
        ensures
            final(self)@ == old(self)@.insert(entity, entry_of(name, children)),
    {
        let ghost entry = entry_of(name, children);
        self.entries.insert(entity, SceneEntry { name, children });
        assert(self@ =~= old(self)@.insert(entity, entry));
    }

    /// The record of `entity`, if there is one.
    pub fn get(&self, entity: u64) -> (entry: Option<&SceneEntry>)
        ensures
            match entry {
                Some(entry) => self@.contains_key(entity) && entry@ == self@[entity],
                None => !self@.contains_key(entity),
            },
    {
        self.entries.get(&entity)
    }

    /// The number of entities recorded.
    pub fn len(&self) -> (n: usize)
        ensures
            n == self@.dom().len(),
            self@.dom().finite(),
    {
        assert(self@.dom() =~= self.entries@.dom());
        self.entries.len()
    }

    /// The walk behind `is_hierarchy`, at most `depth` steps down. `cleared`
    /// holds the entities already found to head a hierarchy; they are not
    /// walked again.
    fn clears(&self, entity: u64, depth: usize, cleared: &mut HashSet<u64>) -> (ok: bool)
        requires
            forall|known: u64| old(cleared)@.contains(known) ==> is_hierarchy(self@, known),
        ensures
            forall|known: u64| final(cleared)@.contains(known) ==> is_hierarchy(self@, known),
            ok ==> is_hierarchy(self@, entity),
            !ok ==> !hierarchy_within(self@, entity, depth as nat),
        decreases depth,
    {
        if cleared.contains(&entity) {
            return true;
        }
        if depth == 0 {
            return false;
        }
        let entry = match self.get(entity) {
            Some(entry) => entry,
            None => {
                return false;
            },
        };
        let mut i: usize = 0;
        while i < entry.children.len()
            invariant
                i <= entry.children.len(),
                depth > 0,
                self@.contains_key(entity),
                entry.children@ == self@[entity].children,
                forall|known: u64| cleared@.contains(known) ==> is_hierarchy(self@, known),
                forall|j: int|
                    0 <= j < i ==> is_hierarchy(self@, #[trigger] self@[entity].children[j]),
            decreases entry.children.len() - i,
        {
            if !self.clears(entry.children[i], depth - 1, cleared) {
                assert(!hierarchy_within(
                    self@,
                    self@[entity].children[i as int],
                    (depth - 1) as nat,
                ));
                return false;
            }
            i += 1;
        }
        proof {
            let below = lemma_common_depth(
                self@,
                self@[entity].children,
                self@[entity].children.len(),
            );
            assert(hierarchy_within(self@, entity, below + 1));
        }
        cleared.insert(entity);
        true
    }

    /// Whether the snapshot is a hierarchy below `entity`.
    pub fn is_hierarchy(&self, entity: u64) -> (ok: bool)
        ensures
            ok == is_hierarchy(self@, entity),
    {
        let mut cleared: HashSet<u64> = HashSet::new();
        let ok = self.clears(entity, self.len(), &mut cleared);
        proof {
            if is_hierarchy(self@, entity) {
                lemma_hierarchy_depth(self@, entity);
            }
        }
        ok
    }
}

/// A hierarchy whose chains end within `shallow` steps ends within any
/// greater number of steps too.
pub proof fn lemma_within_deeper(scene: SceneView, entity: u64, shallow: nat, deep: nat)
    requires
        hierarchy_within(scene, entity, shallow),
        shallow <= deep,
    ensures
        hierarchy_within(scene, entity, deep),
    decreases shallow,
{
    assert forall|i: int| 0 <= i < scene[entity].children.len() implies hierarchy_within(
        scene,
        #[trigger] scene[entity].children[i],
        (deep - 1) as nat,
    ) by {
        lemma_within_deeper(
            scene,
            scene[entity].children[i],
            (shallow - 1) as nat,
            (deep - 1) as nat,
        );
    }
}

/// Finitely many hierarchies end within a common number of steps: the result
/// is one within which the hierarchies below the first `n` of `entities` all
/// end.
pub proof fn lemma_common_depth(scene: SceneView, entities: Seq<u64>, n: nat) -> (depth: nat)
    requires
        n <= entities.len(),
        forall|i: int| 0 <= i < n ==> is_hierarchy(scene, #[trigger] entities[i]),
    ensures
        forall|i: int| 0 <= i < n ==> hierarchy_within(scene, #[trigger] entities[i], depth),
    decreases n,
{
    if n == 0 {
        0
    } else {
        let rest = lemma_common_depth(scene, entities, (n - 1) as nat);
        let child = entities[n - 1];
        let last = choose|last: nat| hierarchy_within(scene, child, last);
        let depth = if rest >= last {
            rest
        } else {
            last
        };
        assert forall|i: int| 0 <= i < n implies hierarchy_within(
            scene,
            #[trigger] entities[i],
            depth,
        ) by {
            if i < n - 1 {
                lemma_within_deeper(scene, entities[i], rest, depth);
            } else {
                lemma_within_deeper(scene, entities[i], last, depth);
            }
        }
        depth
    }
}

/// The entities below which every chain ends within `depth` steps.
spec fn reached(scene: SceneView, depth: nat) -> Set<u64> {
    Set::new(|entity: u64| hierarchy_within(scene, entity, depth))
}

/// One more step reaches no further entity.
spec fn settled(scene: SceneView, depth: nat) -> bool {
    reached(scene, depth + 1).subset_of(reached(scene, depth))
}

/// Once one more step reaches nothing new, no number of steps does.
proof fn lemma_settled_stays(scene: SceneView, at: nat, depth: nat, entity: u64)
    requires
        settled(scene, at),
        hierarchy_within(scene, entity, depth),
    ensures
        hierarchy_within(scene, entity, at),
    decreases depth,
{
    if depth <= at {
        lemma_within_deeper(scene, entity, depth, at);
    } else {
        assert forall|i: int| 0 <= i < scene[entity].children.len() implies hierarchy_within(
            scene,
            #[trigger] scene[entity].children[i],
            at,
        ) by {
            lemma_settled_stays(scene, at, (depth - 1) as nat, scene[entity].children[i]);
        }
        assert(hierarchy_within(scene, entity, at + 1));
        assert(reached(scene, at + 1).contains(entity));
        assert(reached(scene, at).contains(entity));
    }
}

/// Until it settles, every further step reaches at least one more entity.
proof fn lemma_reached_grows(scene: SceneView, depth: nat)
    requires
        scene.dom().finite(),
    ensures
        reached(scene, depth).subset_of(scene.dom()),
        reached(scene, depth).finite(),
        (exists|at: nat| at < depth && settled(scene, at)) || reached(scene, depth).len() >= depth,
    decreases depth,
{
    lemma_len_subset(reached(scene, depth), scene.dom());
    if depth > 0 {
        let before = (depth - 1) as nat;
        lemma_reached_grows(scene, before);
        if exists|at: nat| at < before && settled(scene, at) {
            let at = choose|at: nat| at < before && settled(scene, at);
            assert(at < depth && settled(scene, at));
        } else if settled(scene, before) {
            assert(before < depth && settled(scene, before));
        } else {
            let fresh = choose|entity: u64|
                reached(scene, depth).contains(entity) && !reached(scene, before).contains(entity);
            assert forall|entity: u64| reached(scene, before).contains(entity) implies reached(
                scene,
                depth,
            ).contains(entity) by {
                lemma_within_deeper(scene, entity, before, depth);
            }
            reached(scene, before).lemma_subset_not_in_lt(reached(scene, depth), fresh);
        }
    }
}

/// In a scene of `n` entities a hierarchy is never deeper than `n`: a chain
/// of children that went on for more steps would meet some entity twice, and
/// so go on for ever.
pub proof fn lemma_hierarchy_depth(scene: SceneView, entity: u64)
    requires
        scene.dom().finite(),
        is_hierarchy(scene, entity),
    ensures
        hierarchy_within(scene, entity, scene.dom().len()),
{
    let n = scene.dom().len();
    lemma_reached_grows(scene, n + 1);
    lemma_len_subset(reached(scene, n + 1), scene.dom());
    let at = choose|at: nat| at < n + 1 && settled(scene, at);
    let depth = choose|depth: nat| hierarchy_within(scene, entity, depth);
    lemma_settled_stays(scene, at, depth, entity);
    lemma_within_deeper(scene, entity, at, n);
}

} // verus!
