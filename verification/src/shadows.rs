use vstd::prelude::*;

verus! {

/// Where a shadow copy of a wrapping sprite sits relative to it, one window
/// width (W) and/or height (H) away, so that the sprite shows on the far side
/// of the window while it crosses an edge.
#[allow(non_camel_case_types)]
#[derive(Debug, Clone, Copy, PartialEq, Eq, Structural)]
pub enum ShadowPlacement {
    MinW_MaxH,
    MedW_MaxH,
    MaxW_MaxH,
    MinW_MedY,
    MaxW_MedY,
    MinW_MinH,
    MedW_MinH,
    MaxW_MinH,
}

/// The offset of a placement in window widths and heights.
pub open spec fn offset_spec(p: ShadowPlacement) -> (int, int) {
    match p {
        ShadowPlacement::MinW_MaxH => (-1, 1),
        ShadowPlacement::MedW_MaxH => (0, 1),
        ShadowPlacement::MaxW_MaxH => (1, 1),
        ShadowPlacement::MinW_MedY => (-1, 0),
        ShadowPlacement::MaxW_MedY => (1, 0),
        ShadowPlacement::MinW_MinH => (-1, -1),
        ShadowPlacement::MedW_MinH => (0, -1),
        ShadowPlacement::MaxW_MinH => (1, -1),
    }
}

impl ShadowPlacement {
    /// The offset in window widths and heights: the shadow stands at the
    /// controller's position plus `(x * width, y * height)`.
    pub fn offset(&self) -> (o: (i8, i8))
        ensures
            (o.0 as int, o.1 as int) == offset_spec(*self),
    {
        match self {
            ShadowPlacement::MinW_MaxH => (-1, 1),
            ShadowPlacement::MedW_MaxH => (0, 1),
            ShadowPlacement::MaxW_MaxH => (1, 1),
            ShadowPlacement::MinW_MedY => (-1, 0),
            ShadowPlacement::MaxW_MedY => (1, 0),
            ShadowPlacement::MinW_MinH => (-1, -1),
            ShadowPlacement::MedW_MinH => (0, -1),
            ShadowPlacement::MaxW_MinH => (1, -1),
        }
    }

    /// Every placement, in declaration order: one shadow is spawned for each.
    pub fn all() -> (v: Vec<ShadowPlacement>)
        ensures
            v@ == all_placements(),
    {
        vec![
            ShadowPlacement::MinW_MaxH,
            ShadowPlacement::MedW_MaxH,
            ShadowPlacement::MaxW_MaxH,
            ShadowPlacement::MinW_MedY,
            ShadowPlacement::MaxW_MedY,
            ShadowPlacement::MinW_MinH,
            ShadowPlacement::MedW_MinH,
            ShadowPlacement::MaxW_MinH,
        ]
    }
}

pub open spec fn all_placements() -> Seq<ShadowPlacement> {
    seq![
        ShadowPlacement::MinW_MaxH,
        ShadowPlacement::MedW_MaxH,
        ShadowPlacement::MaxW_MaxH,
        ShadowPlacement::MinW_MedY,
        ShadowPlacement::MaxW_MedY,
        ShadowPlacement::MinW_MinH,
        ShadowPlacement::MedW_MinH,
        ShadowPlacement::MaxW_MinH,
    ]
}

/// The neighbouring window cells a wrapping sprite's shadows are spawned
/// in, in spawn order: the four corners, then left and right, then below
/// and above.
pub open spec fn wrap_displacements_spec() -> Seq<(int, int)> {
    seq![(-1, -1), (-1, 1), (1, -1), (1, 1), (-1, 0), (1, 0), (0, -1), (0, 1)]
}

/// Displacements, in window widths and heights, of the shadows spawned for
/// a sprite that wraps around the window edges.
pub fn wrap_displacements() -> (v: Vec<(i8, i8)>)
    ensures
        v@.map_values(|d: (i8, i8)| (d.0 as int, d.1 as int)) == wrap_displacements_spec(),
{
    let v: Vec<(i8, i8)> = vec![(-1, -1), (-1, 1), (1, -1), (1, 1), (-1, 0), (1, 0), (0, -1), (0, 1)];
    proof {
        assert(v@.map_values(|d: (i8, i8)| (d.0 as int, d.1 as int)) =~= wrap_displacements_spec());
    }
    v
}

/// The eight cells around the window (in window widths and heights).
pub open spec fn neighbour_cells() -> Set<(int, int)> {
    Set::new(|c: (int, int)| -1 <= c.0 <= 1 && -1 <= c.1 <= 1 && c != (0int, 0int))
}

/// The eight placements cover the eight neighbouring window cells, each
/// exactly once and never the window itself.
pub proof fn law_placements_cover_neighbours()
    ensures
        all_placements().len() == 8,
        all_placements().map_values(|p: ShadowPlacement| offset_spec(p)).no_duplicates(),
        all_placements().map_values(|p: ShadowPlacement| offset_spec(p)).to_set() == neighbour_cells(),
{
    let offs = all_placements().map_values(|p: ShadowPlacement| offset_spec(p));
    assert(offs =~= seq![(-1int, 1int), (0int, 1int), (1int, 1int), (-1int, 0int), (1int, 0int), (-1int, -1int), (0int, -1int), (1int, -1int)]);
    assert(offs.to_set() =~= neighbour_cells()) by {
        assert forall|c: (int, int)| neighbour_cells().contains(c) implies offs.to_set().contains(c) by {
            if c == (-1int, 1int) { assert(offs[0] == c); }
            else if c == (0int, 1int) { assert(offs[1] == c); }
            else if c == (1int, 1int) { assert(offs[2] == c); }
            else if c == (-1int, 0int) { assert(offs[3] == c); }
            else if c == (1int, 0int) { assert(offs[4] == c); }
            else if c == (-1int, -1int) { assert(offs[5] == c); }
            else if c == (0int, -1int) { assert(offs[6] == c); }
            else { assert(offs[7] == c); }
        }
    }
}

/// The wrap displacements name the same eight neighbouring cells as the
/// shadow placements, each once: a wrapping sprite gets the same eight
/// shadows either way.
pub proof fn law_wrap_displacements_cover_neighbours()
    ensures
        wrap_displacements_spec().no_duplicates(),
        wrap_displacements_spec().to_set() == neighbour_cells(),
{
    let d = wrap_displacements_spec();
    assert(d.to_set() =~= neighbour_cells()) by {
        assert forall|c: (int, int)| neighbour_cells().contains(c) implies d.to_set().contains(c) by {
            if c == (-1int, -1int) { assert(d[0] == c); }
            else if c == (-1int, 1int) { assert(d[1] == c); }
            else if c == (1int, -1int) { assert(d[2] == c); }
            else if c == (1int, 1int) { assert(d[3] == c); }
            else if c == (-1int, 0int) { assert(d[4] == c); }
            else if c == (1int, 0int) { assert(d[5] == c); }
            else if c == (0int, -1int) { assert(d[6] == c); }
            else { assert(d[7] == c); }
        }
    }
}

} // verus!
