use vstd::prelude::*;

use crate::geometry::{URect, UVec2};
use crate::ordering::{sort_tallest_first, tallest_first};

verus! {

/// The waste threshold of a fresh packer, in canvas rows.
pub const DEFAULT_ADMISSIBLE_WASTE: u64 = 8;

#[derive(Debug, Clone, Copy, PartialEq, Eq, Hash, Structural)]
pub enum PackerError {
    NotEnoughSpace,
}

/// What a packer holds: its free regions in scan order, the waste threshold
/// and the canvas size.
pub ghost struct PackerView {
    pub areas: Seq<URect>,
    pub waste: int,
    pub width: int,
    pub height: int,
}

/// Every free region lies in the canvas, and no two of them share a cell.
pub open spec fn regions_wf(areas: Seq<URect>, width: int, height: int) -> bool {
    &&& forall|k: int| 0 <= k < areas.len() ==> #[trigger] areas[k].within(width, height)
    &&& forall|k1: int, k2: int|
        0 <= k1 < areas.len() && 0 <= k2 < areas.len() && k1 != k2
            ==> !(#[trigger] areas[k1].overlaps(#[trigger] areas[k2]))
}

impl PackerView {
    pub open spec fn wf(&self) -> bool {
        regions_wf(self.areas, self.width, self.height)
    }
}

/// The whole canvas `(0,0)`-`(width,height)`.
pub open spec fn canvas(width: u32, height: u32) -> URect {
    URect { top_left: UVec2 { x: 0, y: 0 }, bottom_right: UVec2 { x: width, y: height } }
}

/// The region `r` can hold a block of `size` with a border of one cell on each side.
pub open spec fn fits(r: URect, size: UVec2) -> bool {
    r.is_ordered() && size.x + 2 <= r.width_spec() && size.y + 2 <= r.height_spec()
}

/// The region chosen among the first `n` regions: the first that fits, replaced in
/// turn by each later fitting region that is at most as wide and at most as tall.
pub open spec fn best_fit(areas: Seq<URect>, size: UVec2, n: int) -> Option<int>
    decreases n,
{
    if n <= 0 {
        None
    } else {
        let prev = best_fit(areas, size, n - 1);
        let r = areas[n - 1];
        if !fits(r, size) {
            prev
        } else {
            match prev {
                None => Some(n - 1),
                Some(b) => if r.width_spec() <= areas[b].width_spec() && r.height_spec()
                    <= areas[b].height_spec() {
                    Some(n - 1)
                } else {
                    prev
                },
            }
        }
    }
}

/// The row where the space left below a block placed in `r` begins: right below
/// the block, or the bottom of `r` where that space would be no taller than `waste`.
pub open spec fn split_row(r: URect, size: UVec2, waste: int) -> int {
    let candidate = r.top_left.y + size.y + 2;
    if r.bottom_right.y - candidate > waste {
        candidate
    } else {
        r.bottom_right.y as int
    }
}

pub open spec fn space_underneath(r: URect, size: UVec2, waste: int) -> URect {
    URect {
        top_left: UVec2 { x: r.top_left.x, y: split_row(r, size, waste) as u32 },
        bottom_right: r.bottom_right,
    }
}

pub open spec fn space_right(r: URect, size: UVec2, waste: int) -> URect {
    URect {
        top_left: UVec2 { x: (r.top_left.x + size.x + 2) as u32, y: r.top_left.y },
        bottom_right: UVec2 { x: r.bottom_right.x, y: split_row(r, size, waste) as u32 },
    }
}

pub open spec fn zero_area(r: URect) -> bool {
    r.width_spec() == 0 || r.height_spec() == 0
}

/// The free regions once a block of `size` has been cut from region `i`.
pub open spec fn areas_after(areas: Seq<URect>, i: int, size: UVec2, waste: int) -> Seq<URect> {
    let under = space_underneath(areas[i], size, waste);
    let right = space_right(areas[i], size, waste);
    if zero_area(right) {
        areas.update(i, under)
    } else if zero_area(under) {
        areas.update(i, right)
    } else {
        areas.update(i, right).push(under)
    }
}

/// The rectangle handed out for a block of `size` cut at the top left of `r`.
pub open spec fn placement(r: URect, size: UVec2) -> URect {
    URect {
        top_left: UVec2 { x: (r.top_left.x + 1) as u32, y: (r.top_left.y + 1) as u32 },
        bottom_right: UVec2 {
            x: (r.top_left.x + size.x + 1) as u32,
            y: (r.top_left.y + size.y + 1) as u32,
        },
    }
}

/// One allocation: the free regions afterwards, and its outcome.
pub open spec fn allocate(areas: Seq<URect>, waste: int, size: UVec2) -> (Seq<URect>, Result<
    URect,
    PackerError,
>) {
    if size.x == 0 || size.y == 0 {
        (areas, Ok(URect { top_left: UVec2 { x: 0, y: 0 }, bottom_right: size }))
    } else {
        match best_fit(areas, size, areas.len() as int) {
            None => (areas, Err(PackerError::NotEnoughSpace)),
            Some(i) => (areas_after(areas, i, size, waste), Ok(placement(areas[i], size))),
        }
    }
}

/// Allocations of `sizes` one after another, in order: the free regions at the
/// end, and the outcome of each.
pub open spec fn allocate_all(areas: Seq<URect>, waste: int, sizes: Seq<UVec2>) -> (Seq<URect>, Seq<
    Result<URect, PackerError>,
>)
    decreases sizes.len(),
{
    if sizes.len() == 0 {
        (areas, seq![])
    } else {
        let before = allocate_all(areas, waste, sizes.drop_last());
        let step = allocate(before.0, waste, sizes.last());
        (step.0, before.1.push(step.1))
    }
}

pub proof fn lemma_best_fit_range(areas: Seq<URect>, size: UVec2, n: int)
    requires
        n <= areas.len(),
    ensures
        best_fit(areas, size, n) matches Some(b) ==> 0 <= b < n && fits(areas[b], size),
        best_fit(areas, size, n) is None
            <==> forall|k: int| 0 <= k < n ==> !fits(#[trigger] areas[k], size),
    decreases n,
{
    if n > 0 {
        lemma_best_fit_range(areas, size, n - 1);
        if best_fit(areas, size, n) is None {
            assert forall|k: int| 0 <= k < n implies !fits(#[trigger] areas[k], size) by {
                if k < n - 1 {
                } else {
                }
            }
        }
    }
}

/// Cutting a block from a free region keeps the regions inside the canvas and
/// apart from each other.
pub proof fn lemma_step_wf(
    areas: Seq<URect>,
    i: int,
    size: UVec2,
    waste: int,
    width: int,
    height: int,
)
    requires
        regions_wf(areas, width, height),
        0 <= i < areas.len(),
        fits(areas[i], size),
        waste >= 0,
    ensures
        regions_wf(areas_after(areas, i, size, waste), width, height),
{
    let r = areas[i];
    let under = space_underneath(r, size, waste);
    let right = space_right(r, size, waste);
    let out = areas_after(areas, i, size, waste);
    assert(under.inside(r) && under.is_ordered());
    assert(right.inside(r) && right.is_ordered());
    assert(!under.overlaps(right));
    assert forall|k: int| 0 <= k < out.len() implies #[trigger] out[k].within(width, height) by {
        assert(r.within(width, height));
        if k < areas.len() && k != i {
            assert(areas[k].within(width, height));
        }
    }
    assert forall|k1: int, k2: int|
        0 <= k1 < out.len() && 0 <= k2 < out.len() && k1 != k2 implies
        !(#[trigger] out[k1].overlaps(#[trigger] out[k2])) by {
        if k1 < areas.len() && k1 != i {
            assert(!areas[k1].overlaps(r));
        }
        if k2 < areas.len() && k2 != i {
            assert(!areas[k2].overlaps(r));
        }
        if k1 < areas.len() && k2 < areas.len() && k1 != i && k2 != i {
            assert(!areas[k1].overlaps(areas[k2]));
        }
    }
}

/// A canvas of fixed size, with the free regions that are left of it.
#[derive(Debug, Clone)]
pub struct Packer {
    areas: Vec<URect>,
    admissable_waste: u64,
    width: u32,
    height: u32,
}

impl View for Packer {
    type V = PackerView;

    closed spec fn view(&self) -> PackerView {
        PackerView {
            areas: self.areas@,
            waste: self.admissable_waste as int,
            width: self.width as int,
            height: self.height as int,
        }
    }
}

impl Packer {
    /// A packer whose one free region is the whole canvas `(0,0)`-`(width,height)`.
    pub fn new(width: u32, height: u32) -> (r: Packer)
        ensures
            r@.areas == seq![canvas(width, height)],
            r@.waste == DEFAULT_ADMISSIBLE_WASTE,
            r@.width == width,
            r@.height == height,
            r@.wf(),
    {
        let top_left = UVec2::new(0, 0);
        let bottom_right = UVec2::new(width, height);
        let r = Packer {
            areas: vec![URect::new(top_left, bottom_right)],
            admissable_waste: DEFAULT_ADMISSIBLE_WASTE,
            width,
            height,
        };
        assert(r@.areas =~= seq![canvas(width, height)]);
        r
    }

    /// The same packer with another waste threshold.
    pub fn with_admissable_waste(self, waste: u32) -> (r: Packer)
        ensures
            r@.waste == waste,
            r@.areas == self@.areas,
            r@.width == self@.width,
            r@.height == self@.height,
    {
        let mut p = self;
        p.admissable_waste = waste as u64;
        p
    }

    /// The free regions, in scan order.
    pub fn areas(&self) -> (r: &Vec<URect>)
        ensures
            r@ == self@.areas,
    {
        &self.areas
    }

    /// The height of leftover space below a block that is given up rather than kept.
    pub fn admissable_waste(&self) -> (r: u64)
        ensures
            r == self@.waste,
    {
        self.admissable_waste
    }

    pub fn width(&self) -> (r: u32)
        ensures
            r == self@.width,
    {
        self.width
    }

    pub fn height(&self) -> (r: u32)
        ensures
            r == self@.height,
    {
        self.height
    }

    /// Places a block of `size`, with a border of one cell on each side, in a
    /// free region and returns the rectangle inside the border.
    pub fn try_allocate(&mut self, size: UVec2) -> (r: Result<URect, PackerError>)
        requires
            old(self)@.wf(),
        ensures
            (final(self)@.areas, r) == allocate(old(self)@.areas, old(self)@.waste, size),
            final(self)@.waste == old(self)@.waste,
            final(self)@.width == old(self)@.width,
            final(self)@.height == old(self)@.height,
            final(self)@.wf(),
            r is Err <==> (size.x > 0 && size.y > 0 && forall|k: int|
                0 <= k < old(self)@.areas.len() ==> !fits(#[trigger] old(self)@.areas[k], size)),
            size.x == 0 || size.y == 0 ==> final(self)@ == old(self)@,
            r is Ok && size.x > 0 && size.y > 0 ==> r->Ok_0.width_spec() == size.x
                && r->Ok_0.height_spec() == size.y && r->Ok_0.within(
                old(self)@.width,
                old(self)@.height,
            ),
    {
        if size.x == 0 || size.y == 0 {
            return Ok(URect::new(UVec2::new(0, 0), size));
        }
        let ghost areas = self.areas@;
        let n = self.areas.len();
        let mut best: Option<usize> = None;
        let mut i: usize = 0;
        while i < n
            invariant
                self.areas@ == areas,
                n == areas.len(),
                0 <= i <= n,
                regions_wf(areas, self.width as int, self.height as int),
                best is None <==> best_fit(areas, size, i as int) is None,
                best matches Some(b) ==> best_fit(areas, size, i as int) == Some(b as int),
            decreases n - i,
        {
            proof {
                lemma_best_fit_range(areas, size, i as int);
            }
            let area = self.areas[i];
            assert(area.within(self.width as int, self.height as int));
            let w = area.width();
            let h = area.height();
            if w >= 2 && h >= 2 && size.x <= w - 2 && size.y <= h - 2 {
                let update = match best {
                    None => true,
                    Some(b) => {
                        let current = self.areas[b];
                        current.width() >= w && current.height() >= h
                    },
                };
                if update {
                    best = Some(i);
                }
            }
            i += 1;
        }
        proof {
            lemma_best_fit_range(areas, size, n as int);
        }
        let b = match best {
            None => {
                return Err(PackerError::NotEnoughSpace);
            },
            Some(b) => b,
        };
        let region = self.areas[b];
        let top_left = region.top_left;
        let bottom_right = region.bottom_right;
        let padded_width = size.x + 2;
        let padded_height = size.y + 2;
        let candidate = top_left.y + padded_height;
        let split = if (bottom_right.y - candidate) as u64 > self.admissable_waste {
            candidate
        } else {
            bottom_right.y
        };
        let space_underneath = URect::new(UVec2::new(top_left.x, split), bottom_right);
        let space_right = URect::new(
            UVec2::new(top_left.x + padded_width, top_left.y),
            space_underneath.top_right(),
        );
        if space_right.is_zero_area() {
            self.areas.set(b, space_underneath);
        } else {
            self.areas.set(b, space_right);
            if !space_underneath.is_zero_area() {
                self.areas.push(space_underneath);
            }
        }
        proof {
            let waste = self.admissable_waste as int;
            lemma_step_wf(areas, b as int, size, waste, self.width as int, self.height as int);
            assert(self.areas@ =~= areas_after(areas, b as int, size, waste));
            assert(areas[b as int].within(self.width as int, self.height as int));
        }
        Ok(
            URect::new(
                UVec2::new(top_left.x + 1, top_left.y + 1),
                UVec2::new(top_left.x + padded_width - 1, top_left.y + padded_height - 1),
            ),
        )
    }

    /// Allocates each of `sizes`, from the tallest to the shortest, and returns the
    /// outcomes in that order. The waste threshold becomes one more than the
    /// smallest height, so that the shortest size is never treated as waste.
    pub fn pack(&mut self, sizes: Vec<UVec2>) -> (r: Vec<Result<URect, PackerError>>)
        requires
            old(self)@.wf(),
        ensures
            sizes@.len() == 0 ==> r@.len() == 0 && final(self)@ == old(self)@,
            sizes@.len() > 0 ==> forall|k: int|
                0 <= k < sizes@.len() ==> final(self)@.waste <= #[trigger] sizes@[k].y + 1,
            sizes@.len() > 0 ==> exists|k: int|
                0 <= k < sizes@.len() && final(self)@.waste == #[trigger] sizes@[k].y + 1,
            sizes@.len() > 0 ==> (final(self)@.areas, r@) == allocate_all(
                old(self)@.areas,
                final(self)@.waste,
                tallest_first(sizes@),
            ),
            final(self)@.width == old(self)@.width,
            final(self)@.height == old(self)@.height,
            final(self)@.wf(),
    {
        if sizes.len() == 0 {
            return Vec::new();
        }
        let mut smallest: u32 = sizes[0].y;
        let mut k: usize = 1;
        while k < sizes.len()
            invariant
                1 <= k <= sizes.len(),
                forall|j: int| 0 <= j < k ==> smallest <= #[trigger] sizes@[j].y,
                exists|j: int| 0 <= j < k && smallest == #[trigger] sizes@[j].y,
            decreases sizes.len() - k,
        {
            if sizes[k].y < smallest {
                smallest = sizes[k].y;
            }
            k += 1;
        }
        self.admissable_waste = smallest as u64 + 1;
        let order = sort_tallest_first(&sizes);
        let ghost areas = self.areas@;
        let mut out: Vec<Result<URect, PackerError>> = Vec::new();
        let mut i: usize = 0;
        proof {
            assert(order@.take(0) =~= Seq::<UVec2>::empty());
        }
        while i < order.len()
            invariant
                0 <= i <= order.len(),
                self@.wf(),
                self@.waste == smallest + 1,
                self@.width == old(self)@.width,
                self@.height == old(self)@.height,
                areas == old(self)@.areas,
                (self@.areas, out@) == allocate_all(areas, self@.waste, order@.take(i as int)),
            decreases order.len() - i,
        {
            let result = self.try_allocate(order[i]);
            out.push(result);
            proof {
                assert(order@.take(i + 1).drop_last() =~= order@.take(i as int));
            }
            i += 1;
        }
        proof {
            assert(order@.take(i as int) =~= order@);
        }
        out
    }
}

} // verus!
