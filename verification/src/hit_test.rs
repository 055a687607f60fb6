use vstd::prelude::*;

verus! {

/// Index of the first `true` in `row`.
pub open spec fn first_true(row: Seq<bool>) -> Option<int>
    decreases row.len(),
{
    if row.len() == 0 {
        None
    } else if row[0] {
        Some(0)
    } else {
        match first_true(row.drop_first()) {
            Some(j) => Some(j + 1),
            None => None,
        }
    }
}

proof fn lemma_first_true(row: Seq<bool>)
    ensures
        match first_true(row) {
            Some(j) => 0 <= j < row.len() && row[j] && forall|k: int| 0 <= k < j ==> !#[trigger] row[k],
            None => forall|k: int| 0 <= k < row.len() ==> !#[trigger] row[k],
        },
    decreases row.len(),
{
    if row.len() > 0 && !row[0] {
        lemma_first_true(row.drop_first());
        match first_true(row.drop_first()) {
            Some(j) => {
                assert forall|k: int| 0 <= k < j + 1 implies !#[trigger] row[k] by {
                    if k > 0 {
                        assert(row[k] == row.drop_first()[k - 1]);
                    }
                }
            },
            None => {
                assert forall|k: int| 0 <= k < row.len() implies !#[trigger] row[k] by {
                    if k > 0 {
                        assert(row[k] == row.drop_first()[k - 1]);
                    }
                }
            },
        }
    }
}

proof fn lemma_first_true_at(row: Seq<bool>, j: int)
    requires
        0 <= j <= row.len(),
        forall|k: int| 0 <= k < j ==> !#[trigger] row[k],
    ensures
        j < row.len() && row[j] ==> first_true(row) == Some(j),
        j == row.len() ==> first_true(row) is None,
    decreases row.len(),
{
    if row.len() > 0 && j > 0 {
        assert forall|k: int| 0 <= k < j - 1 implies !#[trigger] row.drop_first()[k] by {
            assert(row.drop_first()[k] == row[k + 1]);
        }
        lemma_first_true_at(row.drop_first(), j - 1);
        if j < row.len() && row[j] {
            assert(row.drop_first()[j - 1] == row[j]);
        }
    }
}

/// The rows of a hit matrix as sequences.
pub open spec fn rows(hits: Seq<Vec<bool>>) -> Seq<Seq<bool>> {
    hits.map_values(|r: Vec<bool>| r@)
}

/// For every shooter, in order, the first target it touches:
/// `(shooter, target)` pairs; a shooter touching nothing gives no pair.
pub open spec fn first_hits_spec(hits: Seq<Seq<bool>>) -> Seq<(int, int)>
    decreases hits.len(),
{
    if hits.len() == 0 {
        Seq::empty()
    } else {
        let prev = first_hits_spec(hits.drop_last());
        match first_true(hits.last()) {
            Some(j) => prev.push((hits.len() - 1, j)),
            None => prev,
        }
    }
}

/// The first target in `row` that is touched.
fn find_first_true(row: &Vec<bool>) -> (r: Option<usize>)
    ensures
        match r {
            Some(j) => first_true(row@) == Some(j as int),
            None => first_true(row@) is None,
        },
{
    let mut j: usize = 0;
    while j < row.len()
        invariant
            j <= row.len(),
            forall|k: int| 0 <= k < j ==> !#[trigger] row@[k],
        decreases row.len() - j,
    {
        if row[j] {
            proof {
                lemma_first_true_at(row@, j as int);
            }
            return Some(j);
        }
        j = j + 1;
    }
    proof {
        lemma_first_true_at(row@, j as int);
    }
    None
}

/// Pairs each shooter with the first target it touches. `hits[i][j]` tells
/// whether shooter `i` (a laser, or the player) touches target `j` (an
/// asteroid inside the window). A laser that hits is spent, and each pair
/// is one shot (or one collision) event.
pub fn first_hits(hits: &Vec<Vec<bool>>) -> (pairs: Vec<(usize, usize)>)
    ensures
        pairs@.map_values(|p: (usize, usize)| (p.0 as int, p.1 as int)) == first_hits_spec(rows(hits@)),
{
    let mut pairs: Vec<(usize, usize)> = Vec::new();
    let mut i: usize = 0;
    while i < hits.len()
        invariant
            i <= hits.len(),
            pairs@.map_values(|p: (usize, usize)| (p.0 as int, p.1 as int)) == first_hits_spec(rows(hits@).take(i as int)),
        decreases hits.len() - i,
    {
        let found = find_first_true(&hits[i]);
        proof {
            let t = rows(hits@).take(i as int + 1);
            assert(t.drop_last() =~= rows(hits@).take(i as int));
            assert(t.last() == hits@[i as int]@);
            assert(t.len() == i + 1);
            assert(first_hits_spec(t) == match first_true(t.last()) {
                Some(j) => first_hits_spec(t.drop_last()).push((i as int, j)),
                None => first_hits_spec(t.drop_last()),
            });
        }
        let ghost before = pairs@;
        match found {
            Some(j) => {
                pairs.push((i, j));
                proof {
                    assert(pairs@.map_values(|p: (usize, usize)| (p.0 as int, p.1 as int)) =~=
                        before.map_values(|p: (usize, usize)| (p.0 as int, p.1 as int)).push((i as int, j as int)));
                }
            },
            None => {},
        }
        i = i + 1;
    }
    proof {
        assert(rows(hits@).take(hits.len() as int) =~= rows(hits@));
    }
    pairs
}

/// A shooter and target are reported as a pair only when that target is the
/// first one the shooter touches.
pub open spec fn is_first_hit(hits: Seq<Seq<bool>>, i: int, j: int) -> bool {
    &&& 0 <= i < hits.len()
    &&& 0 <= j < hits[i].len()
    &&& hits[i][j]
    &&& forall|k: int| 0 <= k < j ==> !#[trigger] hits[i][k]
}

/// Every reported pair is a first hit, and shooters appear at most once, in
/// increasing order.
pub proof fn law_first_hits_sound(hits: Seq<Seq<bool>>)
    ensures
        forall|p: int| 0 <= p < first_hits_spec(hits).len() ==>
            is_first_hit(hits, (#[trigger] first_hits_spec(hits)[p]).0, first_hits_spec(hits)[p].1),
        forall|p: int, q: int| 0 <= p < q < first_hits_spec(hits).len() ==>
            (#[trigger] first_hits_spec(hits)[p]).0 < (#[trigger] first_hits_spec(hits)[q]).0,
    decreases hits.len(),
{
    if hits.len() > 0 {
        let front = hits.drop_last();
        law_first_hits_sound(front);
        lemma_first_true(hits.last());
        let prev = first_hits_spec(front);
        let cur = first_hits_spec(hits);
        assert forall|p: int| 0 <= p < prev.len() implies (#[trigger] prev[p]).0 < hits.len() - 1 by {
            lemma_first_hits_bound(front, p);
        }
        assert forall|p: int| 0 <= p < cur.len() implies is_first_hit(hits, (#[trigger] cur[p]).0, cur[p].1) by {
            if p < prev.len() {
                assert(cur[p] == prev[p]);
                assert(is_first_hit(front, prev[p].0, prev[p].1));
                assert(front[prev[p].0] == hits[prev[p].0]);
            } else {
                assert(hits.last() == hits[hits.len() - 1]);
            }
        }
        assert forall|p: int, q: int| 0 <= p < q < cur.len() implies (#[trigger] cur[p]).0 < (#[trigger] cur[q]).0 by {
            if q < prev.len() {
                assert(cur[p] == prev[p] && cur[q] == prev[q]);
            } else {
                assert(cur[p] == prev[p]);
            }
        }
    }
}

proof fn lemma_first_hits_bound(hits: Seq<Seq<bool>>, p: int)
    requires
        0 <= p < first_hits_spec(hits).len(),
    ensures
        first_hits_spec(hits)[p].0 < hits.len(),
    decreases hits.len(),
{
    if hits.len() > 0 {
        let prev = first_hits_spec(hits.drop_last());
        if p < prev.len() {
            lemma_first_hits_bound(hits.drop_last(), p);
        }
    }
}

/// Every shooter that touches some target gets a pair.
pub proof fn law_first_hits_complete(hits: Seq<Seq<bool>>, i: int, j: int)
    requires
        0 <= i < hits.len(),
        0 <= j < hits[i].len(),
        hits[i][j],
    ensures
        exists|p: int| 0 <= p < first_hits_spec(hits).len() && (#[trigger] first_hits_spec(hits)[p]).0 == i,
    decreases hits.len(),
{
    let front = hits.drop_last();
    let prev = first_hits_spec(front);
    if i < hits.len() - 1 {
        assert(front[i] == hits[i]);
        law_first_hits_complete(front, i, j);
        let p = choose|p: int| 0 <= p < prev.len() && (#[trigger] prev[p]).0 == i;
        assert(first_hits_spec(hits)[p] == prev[p]);
    } else {
        lemma_first_true(hits.last());
        assert(hits.last() == hits[i]);
        let p = prev.len() as int;
        assert(first_hits_spec(hits)[p].0 == i);
    }
}

/// The first target in `row` that is touched and whose controller is not
/// yet claimed; `ctrl[j]` is the controller of target `j` (a shadow copy maps
/// to the asteroid it mirrors, a controller to itself).
pub open spec fn first_unclaimed(row: Seq<bool>, ctrl: Seq<usize>, claimed: Seq<usize>) -> Option<int>
    decreases row.len(),
{
    if row.len() == 0 || ctrl.len() == 0 {
        None
    } else if row[0] && !claimed.contains(ctrl[0]) {
        Some(0)
    } else {
        match first_unclaimed(row.drop_first(), ctrl.drop_first(), claimed) {
            Some(j) => Some(j + 1),
            None => None,
        }
    }
}

/// The shooters that hit so far and the controllers they claimed.
pub struct Claims {
    pub shooters: Seq<usize>,
    pub claimed: Seq<usize>,
}

/// One shooter's turn: it claims the controller of the first unclaimed target
/// it touches, if any.
pub open spec fn claim_step(st: Claims, row: Seq<bool>, ctrl: Seq<usize>, shooter: usize) -> Claims {
    match first_unclaimed(row, ctrl, st.claimed) {
        Some(j) => Claims { shooters: st.shooters.push(shooter), claimed: st.claimed.push(ctrl[j]) },
        None => st,
    }
}

/// The claims after `r` full passes over the shooters and `b` turns of the
/// next pass.
pub open spec fn claims_after(hits: Seq<Seq<bool>>, ids: Seq<usize>, ctrl: Seq<usize>, r: nat, b: nat) -> Claims
    decreases r, b,
{
    if b == 0 {
        if r == 0 {
            Claims { shooters: Seq::empty(), claimed: Seq::empty() }
        } else {
            claims_after(hits, ids, ctrl, (r - 1) as nat, hits.len())
        }
    } else if b > hits.len() {
        claims_after(hits, ids, ctrl, r, hits.len())
    } else {
        claim_step(claims_after(hits, ids, ctrl, r, (b - 1) as nat), hits[b - 1], ctrl, ids[b - 1])
    }
}

proof fn lemma_first_unclaimed(row: Seq<bool>, ctrl: Seq<usize>, claimed: Seq<usize>)
    ensures
        match first_unclaimed(row, ctrl, claimed) {
            Some(j) => {
                &&& 0 <= j < row.len()
                &&& j < ctrl.len()
                &&& row[j]
                &&& !claimed.contains(ctrl[j])
                &&& forall|k: int| 0 <= k < j ==> !(#[trigger] row[k] && !claimed.contains(ctrl[k]))
            },
            None => forall|k: int| 0 <= k < row.len() && k < ctrl.len() ==> !(#[trigger] row[k] && !claimed.contains(ctrl[k])),
        },
    decreases row.len(),
{
    if row.len() > 0 && ctrl.len() > 0 && !(row[0] && !claimed.contains(ctrl[0])) {
        lemma_first_unclaimed(row.drop_first(), ctrl.drop_first(), claimed);
        assert forall|k: int| 0 < k < row.len() && k < ctrl.len() implies row[k] == row.drop_first()[k - 1] && ctrl[k] == ctrl.drop_first()[k - 1] by {}
    }
}

proof fn lemma_first_unclaimed_at(row: Seq<bool>, ctrl: Seq<usize>, claimed: Seq<usize>, j: int)
    requires
        0 <= j <= row.len(),
        row.len() == ctrl.len(),
        forall|k: int| 0 <= k < j ==> !(#[trigger] row[k] && !claimed.contains(ctrl[k])),
    ensures
        j < row.len() && row[j] && !claimed.contains(ctrl[j]) ==> first_unclaimed(row, ctrl, claimed) == Some(j),
        j == row.len() ==> first_unclaimed(row, ctrl, claimed) is None,
    decreases row.len(),
{
    if row.len() > 0 && j > 0 {
        assert forall|k: int| 0 <= k < j - 1 implies !(#[trigger] row.drop_first()[k] && !claimed.contains(ctrl.drop_first()[k])) by {
            assert(row.drop_first()[k] == row[k + 1]);
            assert(ctrl.drop_first()[k] == ctrl[k + 1]);
        }
        lemma_first_unclaimed_at(row.drop_first(), ctrl.drop_first(), claimed, j - 1);
    }
}

fn vec_contains(v: &Vec<usize>, x: usize) -> (b: bool)
    ensures
        b == v@.contains(x),
{
    let mut i: usize = 0;
    while i < v.len()
        invariant
            i <= v.len(),
            forall|k: int| 0 <= k < i ==> v@[k] != x,
        decreases v.len() - i,
    {
        if v[i] == x {
            assert(v@[i as int] == x);
            return true;
        }
        i = i + 1;
    }
    false
}

fn find_first_unclaimed(row: &Vec<bool>, ctrl: &Vec<usize>, claimed: &Vec<usize>) -> (r: Option<usize>)
    requires
        row.len() == ctrl.len(),
    ensures
        match r {
            Some(j) => first_unclaimed(row@, ctrl@, claimed@) == Some(j as int),
            None => first_unclaimed(row@, ctrl@, claimed@) is None,
        },
{
    let mut j: usize = 0;
    while j < row.len()
        invariant
            j <= row.len(),
            row.len() == ctrl.len(),
            forall|k: int| 0 <= k < j ==> !(#[trigger] row@[k] && !claimed@.contains(ctrl@[k])),
        decreases row.len() - j,
    {
        if row[j] && !vec_contains(claimed, ctrl[j]) {
            proof {
                lemma_first_unclaimed_at(row@, ctrl@, claimed@, j as int);
            }
            return Some(j);
        }
        j = j + 1;
    }
    proof {
        lemma_first_unclaimed_at(row@, ctrl@, claimed@, j as int);
    }
    None
}

/// Hit test in which each asteroid (a controller together with its shadow
/// copies) can be hit only once per frame. For `rounds` passes (one per
/// player on the field), each shooter `b` in turn takes the first target it
/// touches whose controller is not yet claimed. Returns the ids (`ids[b]`)
/// of the shooters that hit, and the controllers they claimed, in order.
pub fn claim_hits(hits: &Vec<Vec<bool>>, ids: &Vec<usize>, ctrl: &Vec<usize>, rounds: usize) -> (r: (Vec<usize>, Vec<usize>))
    requires
        ids.len() == hits.len(),
        forall|i: int| 0 <= i < hits.len() ==> (#[trigger] hits@[i]).len() == ctrl.len(),
    ensures
        r.0@ == claims_after(rows(hits@), ids@, ctrl@, rounds as nat, 0).shooters,
        r.1@ == claims_after(rows(hits@), ids@, ctrl@, rounds as nat, 0).claimed,
{
    let mut shooters: Vec<usize> = Vec::new();
    let mut claimed: Vec<usize> = Vec::new();
    let ghost h = rows(hits@);
    let mut r: usize = 0;
    while r < rounds
        invariant
            r <= rounds,
            h == rows(hits@),
            ids.len() == hits.len(),
            forall|i: int| 0 <= i < hits.len() ==> (#[trigger] hits@[i]).len() == ctrl.len(),
            shooters@ == claims_after(h, ids@, ctrl@, r as nat, 0).shooters,
            claimed@ == claims_after(h, ids@, ctrl@, r as nat, 0).claimed,
        decreases rounds - r,
    {
        let mut b: usize = 0;
        while b < hits.len()
            invariant
                b <= hits.len(),
                r < rounds,
                h == rows(hits@),
                ids.len() == hits.len(),
                forall|i: int| 0 <= i < hits.len() ==> (#[trigger] hits@[i]).len() == ctrl.len(),
                shooters@ == claims_after(h, ids@, ctrl@, r as nat, b as nat).shooters,
                claimed@ == claims_after(h, ids@, ctrl@, r as nat, b as nat).claimed,
            decreases hits.len() - b,
        {
            proof {
                assert(h[b as int] == hits@[b as int]@);
            }
            let found = find_first_unclaimed(&hits[b], ctrl, &claimed);
            match found {
                Some(j) => {
                    proof {
                        lemma_first_unclaimed(hits@[b as int]@, ctrl@, claimed@);
                    }
                    shooters.push(ids[b]);
                    claimed.push(ctrl[j]);
                },
                None => {},
            }
            b = b + 1;
        }
        proof {
            assert(claims_after(h, ids@, ctrl@, (r + 1) as nat, 0) == claims_after(h, ids@, ctrl@, r as nat, h.len()));
        }
        r = r + 1;
    }
    (shooters, claimed)
}

/// No controller is claimed twice, and every shooter that hits claims
/// exactly one controller.
pub proof fn law_claims_distinct(hits: Seq<Seq<bool>>, ids: Seq<usize>, ctrl: Seq<usize>, r: nat, b: nat)
    ensures
        claims_after(hits, ids, ctrl, r, b).claimed.no_duplicates(),
        claims_after(hits, ids, ctrl, r, b).claimed.len() == claims_after(hits, ids, ctrl, r, b).shooters.len(),
    decreases r, b,
{
    if b == 0 {
        if r > 0 {
            law_claims_distinct(hits, ids, ctrl, (r - 1) as nat, hits.len());
        }
    } else if b > hits.len() {
        law_claims_distinct(hits, ids, ctrl, r, hits.len());
    } else {
        law_claims_distinct(hits, ids, ctrl, r, (b - 1) as nat);
        let st = claims_after(hits, ids, ctrl, r, (b - 1) as nat);
        lemma_first_unclaimed(hits[b - 1], ctrl, st.claimed);
        match first_unclaimed(hits[b - 1], ctrl, st.claimed) {
            Some(j) => {
                let c = st.claimed.push(ctrl[j]);
                assert forall|x: int, y: int| 0 <= x < c.len() && 0 <= y < c.len() && x != y implies c[x] != c[y] by {
                    if x == c.len() - 1 {
                        assert(c[y] == st.claimed[y]);
                    } else if y == c.len() - 1 {
                        assert(c[x] == st.claimed[x]);
                    }
                }
            },
            None => {},
        }
    }
}

/// Shooter `shooter` (an id in `ids`) touches a target whose controller is
/// `c`: some row `k` with `ids[k] == shooter` touches a target `j` with
/// `ctrl[j] == c`.
pub open spec fn hit_by_shooter(hits: Seq<Seq<bool>>, ids: Seq<usize>, ctrl: Seq<usize>, shooter: usize, c: usize) -> bool {
    exists|k: int, j: int|
        0 <= k < hits.len() && k < ids.len() && 0 <= j < ctrl.len() && j < hits[k].len() && #[trigger] hits[k][j]
            && ids[k] == shooter && ctrl[j] == c
}

/// Every reported shooter is the id of a row that really touched a target
/// of the controller reported beside it: the shooters are ids from `ids`,
/// never row positions, and each claimed asteroid was hit by its shooter.
pub proof fn law_claims_come_from_hits(hits: Seq<Seq<bool>>, ids: Seq<usize>, ctrl: Seq<usize>, r: nat, b: nat)
    requires
        ids.len() == hits.len(),
    ensures
        forall|p: int| 0 <= p < claims_after(hits, ids, ctrl, r, b).shooters.len() ==> hit_by_shooter(
            hits,
            ids,
            ctrl,
            #[trigger] claims_after(hits, ids, ctrl, r, b).shooters[p],
            claims_after(hits, ids, ctrl, r, b).claimed[p],
        ),
    decreases r, b,
{
    law_claims_distinct(hits, ids, ctrl, r, b);
    if b == 0 {
        if r > 0 {
            law_claims_come_from_hits(hits, ids, ctrl, (r - 1) as nat, hits.len());
            assert(claims_after(hits, ids, ctrl, r, b) == claims_after(hits, ids, ctrl, (r - 1) as nat, hits.len()));
        } else {
            assert(claims_after(hits, ids, ctrl, r, b).shooters.len() == 0);
        }
    } else if b > hits.len() {
        law_claims_come_from_hits(hits, ids, ctrl, r, hits.len());
        assert(claims_after(hits, ids, ctrl, r, b) == claims_after(hits, ids, ctrl, r, hits.len()));
    } else {
        law_claims_come_from_hits(hits, ids, ctrl, r, (b - 1) as nat);
        law_claims_distinct(hits, ids, ctrl, r, (b - 1) as nat);
        let st = claims_after(hits, ids, ctrl, r, (b - 1) as nat);
        let now = claims_after(hits, ids, ctrl, r, b);
        let row = hits[b - 1];
        lemma_first_unclaimed(row, ctrl, st.claimed);
        match first_unclaimed(row, ctrl, st.claimed) {
            Some(j) => {
                assert forall|p: int| 0 <= p < now.shooters.len() implies hit_by_shooter(
                    hits,
                    ids,
                    ctrl,
                    #[trigger] now.shooters[p],
                    now.claimed[p],
                ) by {
                    if p < st.shooters.len() {
                        assert(now.shooters[p] == st.shooters[p]);
                        assert(now.claimed[p] == st.claimed[p]);
                    } else {
                        assert(now.shooters[p] == ids[b - 1]);
                        assert(now.claimed[p] == ctrl[j]);
                        assert(hits[b - 1][j]);
                        let k = b - 1;
                        assert(0 <= k < hits.len() && k < ids.len() && 0 <= j < ctrl.len() && j < hits[k].len() && hits[k][j]
                            && ids[k] == now.shooters[p] && ctrl[j] == now.claimed[p]);
                    }
                }
            },
            None => {
                assert(now == st);
            },
        }
    }
}

} // verus!
