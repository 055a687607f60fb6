use std::collections::HashMap;
use vstd::prelude::*;

use itertools::Itertools;
use rand::Rng;

verus! {

broadcast use vstd::std_specs::hash::group_hash_axioms;

/// Draws a number uniformly from `0..upper` with `rand::thread_rng()` and
/// `Rng::gen_range`. The draw depends on chance; rand documents only that
/// it lies in the range, and `gen_range` panics on an empty range.
#[verifier::external_body]
fn random_below(upper: usize) -> (r: usize)
    requires
        upper > 0,
    ensures
        r < upper,
{
    rand::thread_rng().gen_range(0..upper)
}

/// Keeps the first occurrence of every id and drops later repeats, in order,
/// through `itertools::Itertools::unique` (documented as stable, keeping the
/// first item of a set of duplicates).
#[verifier::external_body]
fn unique_ids(ids: Vec<u64>) -> (r: Vec<u64>)
    ensures
        r@ == ids@.remove_duplicates(Seq::empty()),
{
    ids.into_iter().unique().collect()
}

/// Index of the asset used for a new background or asteroid sprite, among
/// `count` assets. The draw covers `0..count - 1`, so the last asset is
/// never chosen.
pub fn pick_random_asset(count: usize) -> (i: usize)
    requires
        count >= 2,
    ensures
        i < count - 1,
{
    random_below(count - 1)
}

/// The controller an event names: a shadow copy stands for the sprite it
/// mirrors (`shadow_of[i]`), a controller for itself.
pub open spec fn resolve_controllers(events: Seq<u64>, shadow_of: Seq<Option<u64>>) -> Seq<u64> {
    Seq::new(events.len(), |i: int| match shadow_of[i] {
        Some(c) => c,
        None => events[i],
    })
}

/// The asteroids hit (or exploding) this frame: each event's entity resolved
/// to its controller, every controller once, in the order first met.
pub fn controllers_of(events: &Vec<u64>, shadow_of: &Vec<Option<u64>>) -> (r: Vec<u64>)
    requires
        events.len() == shadow_of.len(),
    ensures
        r@ == resolve_controllers(events@, shadow_of@).remove_duplicates(Seq::empty()),
{
    let mut resolved: Vec<u64> = Vec::new();
    let mut i: usize = 0;
    while i < events.len()
        invariant
            i <= events.len(),
            events.len() == shadow_of.len(),
            resolved@ == resolve_controllers(events@, shadow_of@).take(i as int),
        decreases events.len() - i,
    {
        let c = match shadow_of[i] {
            Some(c) => c,
            None => events[i],
        };
        resolved.push(c);
        i = i + 1;
        proof {
            assert(resolved@ =~= resolve_controllers(events@, shadow_of@).take(i as int));
        }
    }
    proof {
        assert(resolve_controllers(events@, shadow_of@).take(i as int) =~= resolve_controllers(events@, shadow_of@));
    }
    unique_ids(resolved)
}

/// The controllers in `controllers` that are still live asteroids (listed
/// in `live`: those that still have a position and bounds), in order.
pub open spec fn live_controllers_spec(controllers: Seq<u64>, live: Seq<u64>) -> Seq<u64>
    decreases controllers.len(),
{
    if controllers.len() == 0 {
        Seq::empty()
    } else {
        let earlier = live_controllers_spec(controllers.drop_last(), live);
        if live.contains(controllers.last()) {
            earlier.push(controllers.last())
        } else {
            earlier
        }
    }
}

fn contains_id(ids: &Vec<u64>, x: u64) -> (b: bool)
    ensures
        b == ids@.contains(x),
{
    let mut i: usize = 0;
    while i < ids.len()
        invariant
            i <= ids.len(),
            forall|k: int| 0 <= k < i ==> ids@[k] != x,
        decreases ids.len() - i,
    {
        if ids[i] == x {
            return true;
        }
        i = i + 1;
    }
    false
}

/// The controllers to handle this frame: of those hit (as `controllers_of`
/// gives them), the ones that are still live asteroids; one already
/// despawned or exploding is left alone.
pub fn live_controllers(controllers: &Vec<u64>, live: &Vec<u64>) -> (r: Vec<u64>)
    ensures
        r@ == live_controllers_spec(controllers@, live@),
{
    let mut r: Vec<u64> = Vec::new();
    let mut i: usize = 0;
    while i < controllers.len()
        invariant
            i <= controllers.len(),
            r@ == live_controllers_spec(controllers@.take(i as int), live@),
        decreases controllers.len() - i,
    {
        proof {
            assert(controllers@.take(i as int + 1).drop_last() =~= controllers@.take(i as int));
            assert(controllers@.take(i as int + 1).last() == controllers@[i as int]);
        }
        let c = controllers[i];
        if contains_id(live, c) {
            r.push(c);
        }
        i = i + 1;
    }
    proof {
        assert(controllers@.take(i as int) =~= controllers@);
    }
    r
}

/// Only live asteroids are handled, each hit live one is, and none twice
/// when the hit controllers are each listed once.
pub proof fn law_only_live_controllers(controllers: Seq<u64>, live: Seq<u64>)
    ensures
        forall|c: u64| #[trigger] live_controllers_spec(controllers, live).contains(c) <==> (controllers.contains(c)
            && live.contains(c)),
        controllers.no_duplicates() ==> live_controllers_spec(controllers, live).no_duplicates(),
    decreases controllers.len(),
{
    if controllers.len() > 0 {
        let front = controllers.drop_last();
        let x = controllers.last();
        law_only_live_controllers(front, live);
        let earlier = live_controllers_spec(front, live);
        let r = live_controllers_spec(controllers, live);
        assert forall|c: u64| #[trigger] r.contains(c) <==> (controllers.contains(c) && live.contains(c)) by {
            if r.contains(c) {
                let j = choose|j: int| 0 <= j < r.len() && r[j] == c;
                if j < earlier.len() {
                    assert(r[j] == earlier[j]);
                    assert(earlier.contains(c));
                    let k = choose|k: int| 0 <= k < front.len() && front[k] == c;
                    assert(controllers[k] == front[k]);
                } else {
                    assert(controllers[controllers.len() - 1] == c);
                }
            }
            if controllers.contains(c) && live.contains(c) {
                let k = choose|k: int| 0 <= k < controllers.len() && controllers[k] == c;
                if k < front.len() {
                    assert(front[k] == c);
                    assert(earlier.contains(c));
                    let j = choose|j: int| 0 <= j < earlier.len() && earlier[j] == c;
                    if live.contains(x) {
                        assert(earlier.push(x)[j] == c);
                    }
                } else {
                    assert(earlier.push(x)[earlier.len() as int] == c);
                }
            }
        }
        if controllers.no_duplicates() {
            assert(front.no_duplicates()) by {
                assert forall|i: int, j: int| 0 <= i < front.len() && 0 <= j < front.len() && i != j implies front[i] != front[j] by {
                    assert(front[i] == controllers[i]);
                    assert(front[j] == controllers[j]);
                }
            }
            if live.contains(x) {
                assert(!earlier.contains(x)) by {
                    if earlier.contains(x) {
                        let k = choose|k: int| 0 <= k < front.len() && front[k] == x;
                        assert(controllers[k] == controllers[controllers.len() - 1]);
                    }
                }
                assert forall|i: int, j: int| 0 <= i < r.len() && 0 <= j < r.len() && i != j implies r[i] != r[j] by {
                    if i < earlier.len() && j < earlier.len() {
                        assert(r[i] == earlier[i]);
                        assert(r[j] == earlier[j]);
                    } else if i < earlier.len() {
                        assert(r[i] == earlier[i]);
                        assert(earlier.contains(r[i]));
                    } else if j < earlier.len() {
                        assert(r[j] == earlier[j]);
                        assert(earlier.contains(r[j]));
                    }
                }
            }
        }
    }
}

/// No controller is handled twice in a frame, and every hit one is handled.
pub proof fn law_controllers_handled_once(events: Seq<u64>, shadow_of: Seq<Option<u64>>)
    requires
        events.len() == shadow_of.len(),
    ensures
        resolve_controllers(events, shadow_of).remove_duplicates(Seq::empty()).no_duplicates(),
        forall|c: u64| resolve_controllers(events, shadow_of).contains(c) <==>
            #[trigger] resolve_controllers(events, shadow_of).remove_duplicates(Seq::empty()).contains(c),
{
    let s = resolve_controllers(events, shadow_of);
    s.lemma_remove_duplicates_properties(Seq::empty());
    lemma_remove_duplicates_no_duplicates(s, Seq::empty());
    assert(s + Seq::<u64>::empty() =~= s);
}

pub(crate) proof fn lemma_remove_duplicates_no_duplicates<A>(s: Seq<A>, seen: Seq<A>)
    requires
        seen.no_duplicates(),
    ensures
        s.remove_duplicates(seen).no_duplicates(),
    decreases s.len(),
{
    if s.len() > 0 {
        if seen.contains(s[0]) {
            lemma_remove_duplicates_no_duplicates(s.skip(1), seen);
        } else {
            let next = seen + seq![s[0]];
            assert forall|i: int, j: int| 0 <= i < next.len() && 0 <= j < next.len() && i != j implies next[i] != next[j] by {
                if i == seen.len() as int {
                    assert(!seen.contains(next[j]) || next[j] != s[0]);
                } else if j == seen.len() as int {
                    assert(seen[i] != s[0]);
                }
            }
            lemma_remove_duplicates_no_duplicates(s.skip(1), next);
        }
    }
}

/// The shadow copies (entity ids) of `controller`, in the order listed:
/// `shadows` pairs each shadow with the controller it mirrors.
pub open spec fn shadows_of_spec(controller: u64, shadows: Seq<(u64, u64)>) -> Seq<u64>
    decreases shadows.len(),
{
    if shadows.len() == 0 {
        Seq::empty()
    } else {
        let earlier = shadows_of_spec(controller, shadows.drop_last());
        if shadows.last().1 == controller {
            earlier.push(shadows.last().0)
        } else {
            earlier
        }
    }
}

/// The shadows to despawn along with an exploding controller.
pub fn shadows_of(controller: u64, shadows: &Vec<(u64, u64)>) -> (r: Vec<u64>)
    ensures
        r@ == shadows_of_spec(controller, shadows@),
{
    let mut r: Vec<u64> = Vec::new();
    let mut i: usize = 0;
    while i < shadows.len()
        invariant
            i <= shadows.len(),
            r@ == shadows_of_spec(controller, shadows@.take(i as int)),
        decreases shadows.len() - i,
    {
        proof {
            assert(shadows@.take(i as int + 1).drop_last() =~= shadows@.take(i as int));
            assert(shadows@.take(i as int + 1).last() == shadows@[i as int]);
        }
        let (shadow, of) = shadows[i];
        if of == controller {
            r.push(shadow);
        }
        i = i + 1;
    }
    proof {
        assert(shadows@.take(i as int) =~= shadows@);
    }
    r
}

/// Everything an explosion despawns, controller by controller: each
/// exploding controller followed by its shadows.
pub open spec fn explosion_despawns_spec(controllers: Seq<u64>, shadows: Seq<(u64, u64)>) -> Seq<u64>
    decreases controllers.len(),
{
    if controllers.len() == 0 {
        Seq::empty()
    } else {
        explosion_despawns_spec(controllers.drop_last(), shadows).push(controllers.last()) + shadows_of_spec(
            controllers.last(),
            shadows,
        )
    }
}

/// The entities to despawn for the exploding controllers (as
/// `live_controllers` gives them): each controller, then every shadow mirroring it.
pub fn explosion_despawns(controllers: &Vec<u64>, shadows: &Vec<(u64, u64)>) -> (r: Vec<u64>)
    ensures
        r@ == explosion_despawns_spec(controllers@, shadows@),
{
    let mut r: Vec<u64> = Vec::new();
    let mut i: usize = 0;
    while i < controllers.len()
        invariant
            i <= controllers.len(),
            r@ == explosion_despawns_spec(controllers@.take(i as int), shadows@),
        decreases controllers.len() - i,
    {
        proof {
            assert(controllers@.take(i as int + 1).drop_last() =~= controllers@.take(i as int));
            assert(controllers@.take(i as int + 1).last() == controllers@[i as int]);
        }
        let c = controllers[i];
        r.push(c);
        let mut own = shadows_of(c, shadows);
        r.append(&mut own);
        i = i + 1;
    }
    proof {
        assert(controllers@.take(i as int) =~= controllers@);
    }
    r
}

/// A shadow is despawned in an explosion exactly when the controller it
/// mirrors explodes.
pub proof fn law_shadows_follow_controller(controller: u64, shadows: Seq<(u64, u64)>, shadow: u64)
    ensures
        shadows_of_spec(controller, shadows).contains(shadow) <==> exists|k: int|
            0 <= k < shadows.len() && #[trigger] shadows[k] == (shadow, controller),
    decreases shadows.len(),
{
    if shadows.len() > 0 {
        let front = shadows.drop_last();
        law_shadows_follow_controller(controller, front, shadow);
        let earlier = shadows_of_spec(controller, front);
        if exists|k: int| 0 <= k < shadows.len() && #[trigger] shadows[k] == (shadow, controller) {
            let k = choose|k: int| 0 <= k < shadows.len() && #[trigger] shadows[k] == (shadow, controller);
            if k < front.len() {
                assert(front[k] == shadows[k]);
                let j = choose|j: int| 0 <= j < earlier.len() && earlier[j] == shadow;
                if shadows.last().1 == controller {
                    assert(earlier.push(shadows.last().0)[j] == shadow);
                }
            } else {
                assert(shadows.last() == (shadow, controller));
                assert(earlier.push(shadow)[earlier.len() as int] == shadow);
            }
        }
        if shadows_of_spec(controller, shadows).contains(shadow) {
            if earlier.contains(shadow) {
                let k = choose|k: int| 0 <= k < front.len() && #[trigger] front[k] == (shadow, controller);
                assert(shadows[k] == front[k]);
            } else {
                let r = shadows_of_spec(controller, shadows);
                let j = choose|j: int| 0 <= j < r.len() && r[j] == shadow;
                assert(shadows.last().1 == controller);
                if j < earlier.len() {
                    assert(r[j] == earlier[j]);
                }
                assert(shadows[shadows.len() - 1] == (shadow, controller));
            }
        }
    }
}

/// Why no asteroid sprite could be handed out.
#[derive(Debug, Clone, Copy, PartialEq, Eq, Structural)]
pub enum AsteroidMaterialError {
    NoMaterialsAvailable,
}

/// A pool of pre-generated asteroid materials (by handle id), each with the
/// pixel size of its texture.
#[derive(Debug)]
pub struct AsteroidMaterials {
    sizes_by_material: HashMap<u64, (u32, u32)>,
    materials: Vec<u64>,
}

impl AsteroidMaterials {
    pub closed spec fn pool(&self) -> Seq<u64> {
        self.materials@
    }

    pub closed spec fn sizes(&self) -> Map<u64, (u32, u32)> {
        self.sizes_by_material@
    }

    /// Every pooled material has a known size.
    pub open spec fn wf(&self) -> bool {
        forall|i: int| 0 <= i < self.pool().len() ==> self.sizes().contains_key(#[trigger] self.pool()[i])
    }

    pub fn new() -> (m: AsteroidMaterials)
        ensures
            m.pool() == Seq::<u64>::empty(),
            m.sizes() == Map::<u64, (u32, u32)>::empty(),
            m.wf(),
    {
        AsteroidMaterials { sizes_by_material: HashMap::new(), materials: Vec::new() }
    }

    /// How many materials the pool holds.
    pub fn len(&self) -> (n: usize)
        ensures
            n == self.pool().len(),
    {
        self.materials.len()
    }

    /// Adds a freshly created material of the given texture size to the pool.
    pub fn add(&mut self, material: u64, size: (u32, u32))
        requires
            old(self).wf(),
        ensures
            final(self).wf(),
            final(self).pool() == old(self).pool().push(material),
            final(self).sizes() == old(self).sizes().insert(material, size),
    {
        let ghost before = self.materials@;
        self.materials.push(material);
        self.sizes_by_material.insert(material, size);
        proof {
            assert forall|i: int| 0 <= i < self.materials@.len() implies self.sizes_by_material@.contains_key(#[trigger] self.materials@[i]) by {
                if i < before.len() {
                    assert(self.materials@[i] == before[i]);
                    assert(old(self).pool()[i] == before[i]);
                    assert(old(self).sizes().contains_key(before[i]));
                } else {
                    assert(self.materials@[i] == material);
                }
            }
        }
    }

    /// Takes the last pooled material and its size.
    pub fn pop(&mut self) -> (r: Result<(u64, (u32, u32)), AsteroidMaterialError>)
        requires
            old(self).wf(),
        ensures
            final(self).wf(),
            final(self).sizes() == old(self).sizes(),
            old(self).pool().len() == 0 ==> r == Err::<(u64, (u32, u32)), AsteroidMaterialError>(AsteroidMaterialError::NoMaterialsAvailable)
                && final(self).pool() == old(self).pool(),
            old(self).pool().len() > 0 ==> r == Ok::<(u64, (u32, u32)), AsteroidMaterialError>((old(self).pool().last(), old(self).sizes()[old(self).pool().last()]))
                && final(self).pool() == old(self).pool().drop_last(),
    {
        match self.materials.pop() {
            Some(material) => {
                assert(self.sizes_by_material@.contains_key(material));
                let size = *self.sizes_by_material.get(&material).unwrap();
                Ok((material, size))
            },
            None => Err(AsteroidMaterialError::NoMaterialsAvailable),
        }
    }

    /// Returns a material to the pool at a random place, if it is one of the
    /// pool's materials; a foreign material is ignored.
    pub fn push(&mut self, material: u64)
        requires
            old(self).wf(),
            old(self).pool().len() < usize::MAX,
        ensures
            final(self).wf(),
            final(self).sizes() == old(self).sizes(),
            old(self).sizes().contains_key(material) ==> exists|at: int| 0 <= at <= old(self).pool().len()
                && final(self).pool() == old(self).pool().insert(at, material),
            !old(self).sizes().contains_key(material) ==> final(self).pool() == old(self).pool(),
    {
        if self.sizes_by_material.contains_key(&material) {
            let at = random_below(self.materials.len() + 1);
            let ghost before = self.materials@;
            self.materials.insert(at, material);
            proof {
                assert(self.materials@ == before.insert(at as int, material));
                assert forall|i: int| 0 <= i < self.materials@.len() implies self.sizes_by_material@.contains_key(#[trigger] self.materials@[i]) by {
                    if i < at {
                        assert(self.materials@[i] == before[i]);
                    } else if i > at {
                        assert(self.materials@[i] == before[i - 1]);
                    }
                }
            }
        }
    }
}

/// Handing a popped material back leaves the pool as it was, up to order:
/// the same materials as often as before. (A popped pool is shorter than it
/// was, so handing back meets `push`'s bound on the pool's length.)
pub proof fn law_pop_then_push_keeps_pool(pool: Seq<u64>, at: int)
    requires
        pool.len() > 0,
        0 <= at <= pool.len() - 1,
    ensures
        pool.drop_last().insert(at, pool.last()).len() == pool.len(),
        pool.drop_last().insert(at, pool.last()).to_multiset() == pool.to_multiset(),
{
    broadcast use vstd::seq_lib::group_to_multiset_ensures;
    let front = pool.drop_last();
    let x = pool.last();
    let t = front.insert(at, x);
    assert(t.remove(at) =~= front);
    assert(pool =~= front.push(x));
    assert(t[at] == x);
    assert(t.remove(at).to_multiset() == t.to_multiset().remove(x));
    assert(t.contains(x));
    assert(t.to_multiset().count(x) > 0);
    assert(t.to_multiset() =~= t.to_multiset().remove(x).insert(x));
}

/// The game's textures (by handle id) and the pixel sizes
/// collected for them as they finish loading.
#[derive(Debug)]
pub struct Textures {
    spaceship: u64,
    flame: u64,
    shot: u64,
    asteroids: Vec<u64>,
    sizes: HashMap<u64, (u32, u32)>,
}

impl Textures {
    pub closed spec fn sizes_view(&self) -> Map<u64, (u32, u32)> {
        self.sizes@
    }

    /// The texture handles: spaceship, flame, shot, then the asteroids.
    pub closed spec fn handles(&self) -> (u64, u64, u64, Seq<u64>) {
        (self.spaceship, self.flame, self.shot, self.asteroids@)
    }

    pub fn spaceship(&self) -> (h: u64)
        ensures
            h == self.handles().0,
    {
        self.spaceship
    }

    pub fn flame(&self) -> (h: u64)
        ensures
            h == self.handles().1,
    {
        self.flame
    }

    pub fn shot(&self) -> (h: u64)
        ensures
            h == self.handles().2,
    {
        self.shot
    }

    pub fn asteroids(&self) -> (v: &Vec<u64>)
        ensures
            v@ == self.handles().3,
    {
        &self.asteroids
    }

    pub fn new(spaceship: u64, flame: u64, shot: u64, asteroids: Vec<u64>) -> (t: Textures)
        ensures
            t.handles() == (spaceship, flame, shot, asteroids@),
            t.sizes_view() == Map::<u64, (u32, u32)>::empty(),
    {
        Textures { spaceship, flame, shot, asteroids, sizes: HashMap::new() }
    }

    /// Every texture has reported its size: the three sprites and every
    /// asteroid texture.
    pub fn has_size_for_all(&self) -> (b: bool)
        ensures
            b == (3 + self.handles().3.len() == self.sizes_view().len()),
    {
        let n = self.sizes.len();
        n >= 3 && n - 3 == self.asteroids.len()
    }

    /// Records the size of a texture once it is loaded (`None` while its
    /// image is not available).
    pub fn capture_size(&mut self, handle: u64, size: Option<(u32, u32)>)
        ensures
            final(self).handles() == old(self).handles(),
            final(self).sizes_view() == match size {
                Some(s) => old(self).sizes_view().insert(handle, s),
                None => old(self).sizes_view(),
            },
    {
        if let Some(s) = size {
            self.sizes.insert(handle, s);
        }
    }

    pub fn get_size(&self, handle: u64) -> (r: Option<(u32, u32)>)
        ensures
            r == (if self.sizes_view().contains_key(handle) { Some(self.sizes_view()[handle]) } else { None }),
    {
        match self.sizes.get(&handle) {
            Some(s) => Some(*s),
            None => None,
        }
    }
}

} // verus!
