//! The heights of the terrain, as the physics sees them: a grid of
//! single-precision bit patterns, row after row.

use vstd::prelude::*;

verus! {

/// The terrain heights on a grid of `width` by `height` texels.
#[derive(Debug, Clone, PartialEq, Eq)]
pub struct HeightmapPhy {
    width: usize,
    height: usize,
    texels: Vec<u32>,
}

/// The mathematical content of a height map.
pub struct HeightmapView {
    pub width: nat,
    pub height: nat,
    pub texels: Seq<u32>,
}

impl View for HeightmapPhy {
    type V = HeightmapView;

    closed spec fn view(&self) -> HeightmapView {
        HeightmapView {
            width: self.width as nat,
            height: self.height as nat,
            texels: self.texels@,
        }
    }
}

/// The flat terrain of the given size: every height is zero.
pub open spec fn flat(width: nat, height: nat) -> HeightmapView {
    HeightmapView { width, height, texels: Seq::new(width * height, |i: int| 0u32) }
}

impl HeightmapPhy {
    /// There is one height for every texel of the grid.
    pub open spec fn wf(&self) -> bool {
        self@.texels.len() == self@.width * self@.height
    }

    /// The flat terrain of the given size.
    pub fn new(width: usize, height: usize) -> (map: HeightmapPhy)
        requires
            width * height <= usize::MAX,
        ensures
            map.wf(),
            map@ == flat(width as nat, height as nat),
    {
        let count: usize = width * height;
        let mut texels: Vec<u32> = Vec::new();
        let mut i: usize = 0;
        while i < count
            invariant
                i <= count,
                texels@.len() == i,
                forall|k: int| 0 <= k < i ==> texels@[k] == 0,
            decreases count - i,
        {
            texels.push(0);
            i += 1;
        }
        assert(texels@ =~= flat(width as nat, height as nat).texels);
        HeightmapPhy { width, height, texels }
    }

    /// The number of texels in a row.
    pub fn width(&self) -> (width: usize)
        ensures
            width == self@.width,
    {
        self.width
    }

    /// The number of rows.
    pub fn height(&self) -> (height: usize)
        ensures
            height == self@.height,
    {
        self.height
    }

    /// The height at column `x` of row `y`, if the grid has such a texel.
    pub fn z(&self, x: usize, y: usize) -> (z: Option<u32>)
        requires
            self.wf(),
        ensures
            z == if x < self@.width && y < self@.height {
                Some(self@.texels[y * self@.width + x])
            } else {
                None
            },
    {
        if x < self.width && y < self.height {
            let count: usize = self.texels.len();
            assert(0 <= y * self.width && y * self.width + x < self.width * self.height)
                by (nonlinear_arith)
                requires
                    x < self.width,
                    y < self.height,
            ;
            Some(self.texels[y * self.width + x])
        } else {
            None
        }
    }

    /// Sets the height at column `x` of row `y`. Returns whether the grid
    /// has such a texel; if it has not, nothing changes.
    pub fn set_z(&mut self, x: usize, y: usize, z: u32) -> (done: bool)
        requires
            old(self).wf(),
        ensures
            final(self).wf(),
            done == (x < old(self)@.width && y < old(self)@.height),
            final(self)@ == if done {
                HeightmapView {
                    width: old(self)@.width,
                    height: old(self)@.height,
                    texels: old(self)@.texels.update(y * old(self)@.width + x, z),
                }
            } else {
                old(self)@
            },
    {
        if x < self.width && y < self.height {
            let count: usize = self.texels.len();
            assert(0 <= y * self.width && y * self.width + x < self.width * self.height)
                by (nonlinear_arith)
                requires
                    x < self.width,
                    y < self.height,
            ;
            let index: usize = y * self.width + x;
            self.texels[index] = z;
            true
        } else {
            false
        }
    }
}

} // verus!
