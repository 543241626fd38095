//! Whether a building fits where it is placed or moved to, given what the
//! world holds at each cell of its footprint.
use vstd::prelude::*;

verus! {

/// What the world holds at one cell of a footprint.
#[derive(Clone, Copy, Debug, PartialEq, Eq)]
pub struct FootprintCell {
    /// The cell lies inside the world.
    pub in_world: bool,
    /// The cell is empty.
    pub empty: bool,
    /// The origin of a building covering the cell, if one does.
    pub covered_by: Option<(i32, i32)>,
    /// The cell belongs to the building being moved (its old footprint).
    pub part_of_old: bool,
}

/// Why a building does not fit.
#[derive(Clone, Copy, Debug, PartialEq, Eq, Structural)]
pub enum FootprintError {
    /// A cell is outside the world or not empty ("Нет места").
    NoRoom,
    /// A cell belongs to another building ("Место занято").
    Taken,
}

impl FootprintError {
    /// The message shown to the player.
    pub fn message(self) -> (r: &'static str)
        ensures
            r@ == (match self {
                FootprintError::NoRoom => "Нет места"@,
                FootprintError::Taken => "Место занято"@,
            }),
    {
        match self {
            FootprintError::NoRoom => "Нет места",
            FootprintError::Taken => "Место занято",
        }
    }
}

/// The verdict on one cell of a new building.
pub open spec fn new_cell_error(c: FootprintCell) -> Option<FootprintError> {
    if !c.in_world || !c.empty {
        Some(FootprintError::NoRoom)
    } else if c.covered_by is Some {
        Some(FootprintError::Taken)
    } else {
        None
    }
}

/// The verdict on one cell of a building moved away from `old`: its own old
/// cells do not count as obstacles.
pub open spec fn moved_cell_error(c: FootprintCell, old: (i32, i32)) -> Option<FootprintError> {
    if !c.in_world {
        Some(FootprintError::NoRoom)
    } else if !c.empty && !c.part_of_old {
        Some(FootprintError::NoRoom)
    } else if c.covered_by matches Some(p) && p != old {
        Some(FootprintError::Taken)
    } else {
        None
    }
}

/// The first error among the cells in footprint order, `Ok` when none.
pub open spec fn first_error(errs: Seq<Option<FootprintError>>) -> Result<(), FootprintError>
    decreases errs.len(),
{
    if errs.len() == 0 {
        Ok(())
    } else {
        match errs[0] {
            Some(e) => Err(e),
            None => first_error(errs.drop_first()),
        }
    }
}

proof fn lemma_first_error_step(errs: Seq<Option<FootprintError>>, i: int)
    requires
        0 <= i <= errs.len(),
        forall|j: int| 0 <= j < i ==> errs[j] is None,
    ensures
        first_error(errs) == first_error(errs.skip(i)),
    decreases i,
{
    if i > 0 {
        let d = errs.drop_first();
        assert(errs[0] is None);
        assert forall|j: int| 0 <= j < i - 1 implies d[j] is None by {
            assert(d[j] == errs[j + 1]);
        }
        lemma_first_error_step(d, i - 1);
        assert(d.skip(i - 1) =~= errs.skip(i));
    } else {
        assert(errs.skip(0) =~= errs);
    }
}

/// Checks the footprint of a new building cell by cell, in order.
pub fn check_new_building_area(cells: &Vec<FootprintCell>) -> (r: Result<(), FootprintError>)
    ensures
        r == first_error(cells@.map_values(|c: FootprintCell| new_cell_error(c))),
{
    let ghost errs = cells@.map_values(|c: FootprintCell| new_cell_error(c));
    let mut i: usize = 0;
    while i < cells.len()
        invariant
            i <= cells@.len(),
            errs == cells@.map_values(|c: FootprintCell| new_cell_error(c)),
            forall|j: int| 0 <= j < i ==> (#[trigger] errs[j]) is None,
        decreases cells@.len() - i,
    {
        let c = cells[i];
        let e = if !c.in_world || !c.empty {
            Some(FootprintError::NoRoom)
        } else if c.covered_by.is_some() {
            Some(FootprintError::Taken)
        } else {
            None
        };
        assert(errs[i as int] == e);
        if let Some(err) = e {
            proof {
                lemma_first_error_step(errs, i as int);
            }
            return Err(err);
        }
        i = i + 1;
    }
    proof {
        lemma_first_error_step(errs, errs.len() as int);
        assert(errs.skip(errs.len() as int) =~= Seq::<Option<FootprintError>>::empty());
    }
    Ok(())
}

/// Checks the footprint of a building moved away from `old`, cell by cell.
pub fn check_moved_footprint(cells: &Vec<FootprintCell>, old: (i32, i32)) -> (r: Result<
    (),
    FootprintError,
>)
    ensures
        r == first_error(cells@.map_values(|c: FootprintCell| moved_cell_error(c, old))),
{
    let ghost errs = cells@.map_values(|c: FootprintCell| moved_cell_error(c, old));
    let mut i: usize = 0;
    while i < cells.len()
        invariant
            i <= cells@.len(),
            errs == cells@.map_values(|c: FootprintCell| moved_cell_error(c, old)),
            forall|j: int| 0 <= j < i ==> (#[trigger] errs[j]) is None,
        decreases cells@.len() - i,
    {
        let c = cells[i];
        let e = if !c.in_world {
            Some(FootprintError::NoRoom)
        } else if !c.empty && !c.part_of_old {
            Some(FootprintError::NoRoom)
        } else {
            match c.covered_by {
                Some(p) => if p.0 != old.0 || p.1 != old.1 {
                    Some(FootprintError::Taken)
                } else {
                    None
                },
                None => None,
            }
        };
        assert(errs[i as int] == e);
        if let Some(err) = e {
            proof {
                lemma_first_error_step(errs, i as int);
            }
            return Err(err);
        }
        i = i + 1;
    }
    proof {
        lemma_first_error_step(errs, errs.len() as int);
        assert(errs.skip(errs.len() as int) =~= Seq::<Option<FootprintError>>::empty());
    }
    Ok(())
}

/// The cell `(x, y)` lies in the footprint `cells` (offsets) of a building
/// at `(bx, by)`.
pub fn footprint_has_cell(bx: i32, by: i32, cells: &Vec<(i32, i32)>, x: i32, y: i32) -> (r: bool)
    ensures
        r == exists|i: int|
            0 <= i < cells@.len() && bx + (#[trigger] cells@[i]).0 == x && by + cells@[i].1 == y,
{
    let mut i: usize = 0;
    while i < cells.len()
        invariant
            i <= cells@.len(),
            forall|j: int| 0 <= j < i ==> !(bx + (#[trigger] cells@[j]).0 == x && by + cells@[j].1 == y),
        decreases cells@.len() - i,
    {
        let (dx, dy) = cells[i];
        if bx as i64 + dx as i64 == x as i64 && by as i64 + dy as i64 == y as i64 {
            return true;
        }
        i = i + 1;
    }
    false
}

} // verus!
