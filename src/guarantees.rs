use vstd::prelude::*;

use crate::geometry::{URect, UVec2};
use crate::packer::{
    PackerError, allocate, allocate_all, areas_after, best_fit, fits, lemma_best_fit_range,
    lemma_step_wf, regions_wf,
};

verus! {

/// No two successful outcomes share a cell.
pub open spec fn placements_apart(results: Seq<Result<URect, PackerError>>) -> bool {
    forall|i: int, j: int|
        0 <= i < results.len() && 0 <= j < results.len() && i != j && results[i] is Ok
            && results[j] is Ok ==> !(#[trigger] results[i])->Ok_0.overlaps(
            (#[trigger] results[j])->Ok_0,
        )
}

/// No successful outcome shares a cell with a free region.
pub open spec fn placements_clear_of(
    results: Seq<Result<URect, PackerError>>,
    areas: Seq<URect>,
) -> bool {
    forall|i: int, k: int|
        0 <= i < results.len() && 0 <= k < areas.len() && results[i] is Ok
            ==> !(#[trigger] results[i])->Ok_0.overlaps(#[trigger] areas[k])
}

/// `q` shares no cell with any of `areas`.
pub open spec fn clear_of(q: URect, areas: Seq<URect>) -> bool {
    forall|k: int| 0 <= k < areas.len() ==> !q.overlaps(#[trigger] areas[k])
}

/// One allocation keeps the regions apart, hands out a rectangle that lies in the
/// free space it had and that none of the new regions shares a cell with, and
/// leaves no region outside the free space it had.
proof fn lemma_allocate_step(areas: Seq<URect>, waste: int, size: UVec2, width: int, height: int)
    requires
        regions_wf(areas, width, height),
        waste >= 0,
    ensures
        regions_wf(allocate(areas, waste, size).0, width, height),
        allocate(areas, waste, size).1 is Ok ==> clear_of(
            allocate(areas, waste, size).1->Ok_0,
            allocate(areas, waste, size).0,
        ),
        forall|q: URect|
            clear_of(q, areas) ==> #[trigger] clear_of(q, allocate(areas, waste, size).0),
        forall|q: URect|
            clear_of(q, areas) && allocate(areas, waste, size).1 is Ok ==> !(#[trigger] q.overlaps(
                allocate(areas, waste, size).1->Ok_0,
            )),
{
    if size.x != 0 && size.y != 0 {
        lemma_best_fit_range(areas, size, areas.len() as int);
        if let Some(i) = best_fit(areas, size, areas.len() as int) {
            lemma_step_wf(areas, i, size, waste, width, height);
            let r = areas[i];
            let out = areas_after(areas, i, size, waste);
            assert(fits(r, size));
            assert forall|k: int| 0 <= k < out.len() && k != i && k < areas.len() implies
                #[trigger] out[k] == areas[k] && !areas[k].overlaps(r) by {}
            assert forall|q: URect| clear_of(q, areas) implies #[trigger] clear_of(q, out) by {
                assert(!q.overlaps(r));
                assert forall|k: int| 0 <= k < out.len() implies !q.overlaps(#[trigger] out[k]) by {
                    if k < areas.len() && k != i {
                        assert(!q.overlaps(areas[k]));
                    }
                }
            }
            let p = allocate(areas, waste, size).1->Ok_0;
            assert forall|k: int| 0 <= k < out.len() implies !p.overlaps(#[trigger] out[k]) by {
                if k < areas.len() && k != i {
                    assert(!areas[k].overlaps(r));
                }
            }
            assert forall|q: URect| clear_of(q, areas) implies !(#[trigger] q.overlaps(p)) by {
                assert(!q.overlaps(r));
            }
        }
    }
}

proof fn lemma_allocate_all_apart(
    areas: Seq<URect>,
    waste: int,
    sizes: Seq<UVec2>,
    width: int,
    height: int,
)
    requires
        regions_wf(areas, width, height),
        waste >= 0,
    ensures
        regions_wf(allocate_all(areas, waste, sizes).0, width, height),
        placements_apart(allocate_all(areas, waste, sizes).1),
        placements_clear_of(
            allocate_all(areas, waste, sizes).1,
            allocate_all(areas, waste, sizes).0,
        ),
        allocate_all(areas, waste, sizes).1.len() == sizes.len(),
    decreases sizes.len(),
{
    if sizes.len() > 0 {
        lemma_allocate_all_apart(areas, waste, sizes.drop_last(), width, height);
        let before = allocate_all(areas, waste, sizes.drop_last());
        let step = allocate(before.0, waste, sizes.last());
        lemma_allocate_step(before.0, waste, sizes.last(), width, height);
        let rs = before.1.push(step.1);
        assert forall|i: int| 0 <= i < before.1.len() && before.1[i] is Ok implies
            #[trigger] clear_of(before.1[i]->Ok_0, before.0) by {
            assert forall|k: int| 0 <= k < before.0.len() implies !before.1[i]->Ok_0.overlaps(
                #[trigger] before.0[k],
            ) by {
                assert(!before.1[i]->Ok_0.overlaps(before.0[k]));
            }
        }
        assert forall|i: int, k: int|
            0 <= i < rs.len() && 0 <= k < step.0.len() && rs[i] is Ok implies
            !(#[trigger] rs[i])->Ok_0.overlaps(#[trigger] step.0[k]) by {
            if i < before.1.len() {
                assert(clear_of(before.1[i]->Ok_0, before.0));
                assert(clear_of(before.1[i]->Ok_0, step.0));
            }
        }
        assert forall|i: int, j: int|
            0 <= i < rs.len() && 0 <= j < rs.len() && i != j && rs[i] is Ok && rs[j] is Ok implies
            !(#[trigger] rs[i])->Ok_0.overlaps((#[trigger] rs[j])->Ok_0) by {
            if i < before.1.len() && j < before.1.len() {
                assert(!before.1[i]->Ok_0.overlaps(before.1[j]->Ok_0));
            } else if i < before.1.len() {
                assert(clear_of(before.1[i]->Ok_0, before.0));
                assert(!before.1[i]->Ok_0.overlaps(step.1->Ok_0));
            } else {
                assert(clear_of(before.1[j]->Ok_0, before.0));
                assert(!before.1[j]->Ok_0.overlaps(step.1->Ok_0));
            }
        }
    }
}

/// Rectangles handed out by successive allocations on a packer never share a cell.
pub proof fn lemma_placements_never_overlap(
    areas: Seq<URect>,
    waste: int,
    sizes: Seq<UVec2>,
    width: int,
    height: int,
    i: int,
    j: int,
)
    requires
        regions_wf(areas, width, height),
        waste >= 0,
        0 <= i < sizes.len(),
        0 <= j < sizes.len(),
        i != j,
        allocate_all(areas, waste, sizes).1[i] is Ok,
        allocate_all(areas, waste, sizes).1[j] is Ok,
    ensures
        !allocate_all(areas, waste, sizes).1[i]->Ok_0.overlaps(
            allocate_all(areas, waste, sizes).1[j]->Ok_0,
        ),
{
    lemma_allocate_all_apart(areas, waste, sizes, width, height);
    let rs = allocate_all(areas, waste, sizes).1;
    assert(!rs[i]->Ok_0.overlaps(rs[j]->Ok_0));
}

/// A request with no width or no height succeeds with the rectangle of that size
/// at the origin and leaves the free regions as they were, so that any allocation
/// after it comes out as it would have without it.
pub proof fn lemma_empty_request_is_free(areas: Seq<URect>, waste: int, size: UVec2, next: UVec2)
    requires
        size.x == 0 || size.y == 0,
    ensures
        allocate(areas, waste, size).0 == areas,
        allocate(areas, waste, size).1 == Ok::<URect, PackerError>(
            URect { top_left: UVec2 { x: 0, y: 0 }, bottom_right: size },
        ),
        allocate(allocate(areas, waste, size).0, waste, next) == allocate(areas, waste, next),
{
}

/// Once a request fails, the free regions stay as they were, and every later request
/// at least as wide and at least as tall fails too.
pub proof fn lemma_failure_persists(areas: Seq<URect>, waste: int, size: UVec2, later: Seq<UVec2>)
    requires
        allocate(areas, waste, size).1 is Err,
        forall|k: int|
            0 <= k < later.len() ==> (#[trigger] later[k]).x >= size.x && later[k].y >= size.y,
    ensures
        allocate(areas, waste, size).0 == areas,
        allocate_all(areas, waste, later).0 == areas,
        allocate_all(areas, waste, later).1 == Seq::new(
            later.len(),
            |k: int| Err::<URect, PackerError>(PackerError::NotEnoughSpace),
        ),
    decreases later.len(),
{
    lemma_best_fit_range(areas, size, areas.len() as int);
    if later.len() > 0 {
        lemma_failure_persists(areas, waste, size, later.drop_last());
        let x = later.last();
        assert(x == later[later.len() - 1]);
        lemma_best_fit_range(areas, x, areas.len() as int);
        assert forall|k: int| 0 <= k < areas.len() implies !fits(#[trigger] areas[k], x) by {
            assert(!fits(areas[k], size));
        }
        assert(allocate_all(areas, waste, later).1 =~= Seq::new(
            later.len(),
            |k: int| Err::<URect, PackerError>(PackerError::NotEnoughSpace),
        ));
    }
}

} // verus!
