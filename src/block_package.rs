use vstd::prelude::*;

verus! {

/// Number of cells of a block's shape: a five by five grid.
pub const SHAPE_CELLS: usize = 25;

/// Color of a customization block.
#[derive(PartialEq, Eq, Structural, Clone, Copy, Debug)]
pub enum BlockColor {
    White,
    Red,
    Green,
    Blue,
    Pink,
    Yellow,
}

/// What identifies a package.
#[derive(Debug)]
pub struct PackageInfo {
    pub id: String,
    pub base_path: String,
    pub script_path: String,
}

/// A customization block package.
#[derive(Debug)]
pub struct BlockPackage {
    pub package_info: PackageInfo,
    pub name: String,
    pub description: String,
    pub is_program: bool,
    pub block_color: BlockColor,
    /// Row-major cells of the five by five grid the block covers.
    pub shape: Vec<bool>,
}

/// The shape set from `cells`: missing cells are empty, extra ones dropped.
pub open spec fn shape_of(cells: Seq<bool>) -> Seq<bool> {
    Seq::new(SHAPE_CELLS as nat, |i: int| i < cells.len() && cells[i])
}

impl BlockPackage {
    /// An empty white block of package `package_info`.
    pub fn new(package_info: PackageInfo) -> (r: BlockPackage)
        ensures
            r.package_info == package_info,
            r.name@.len() == 0,
            r.description@.len() == 0,
            !r.is_program,
            r.block_color == BlockColor::White,
            r.shape@ == shape_of(seq![]),
    {
        let mut shape: Vec<bool> = Vec::new();
        let mut i: usize = 0;
        while i < SHAPE_CELLS
            invariant
                i <= SHAPE_CELLS,
                shape@.len() == i,
                forall|j: int| 0 <= j < i ==> !(#[trigger] shape@[j]),
            decreases SHAPE_CELLS - i,
        {
            shape.push(false);
            i += 1;
        }
        proof {
            assert(shape@ =~= shape_of(seq![]));
        }
        BlockPackage {
            package_info,
            name: String::new(),
            description: String::new(),
            is_program: false,
            block_color: BlockColor::White,
            shape,
        }
    }

    pub fn package_info(&self) -> (r: &PackageInfo)
        ensures
            *r == self.package_info,
    {
        &self.package_info
    }

    /// Sets the shape from `cells`, read row by row.
    pub fn set_shape(&mut self, cells: &Vec<bool>)
        ensures
            final(self).shape@ == shape_of(cells@),
            final(self).package_info == old(self).package_info,
            final(self).name == old(self).name,
            final(self).description == old(self).description,
            final(self).is_program == old(self).is_program,
            final(self).block_color == old(self).block_color,
    {
        let mut shape: Vec<bool> = Vec::new();
        let mut i: usize = 0;
        while i < SHAPE_CELLS
            invariant
                i <= SHAPE_CELLS,
                shape@.len() == i,
                forall|j: int| 0 <= j < i ==> #[trigger] shape@[j] == (j < cells@.len() && cells@[j]),
            decreases SHAPE_CELLS - i,
        {
            shape.push(i < cells.len() && cells[i]);
            i += 1;
        }
        proof {
            assert(shape@ =~= shape_of(cells@));
        }
        self.shape = shape;
    }

    /// Sets the block color from its numeric encoding; an unknown one gives
    /// white.
    pub fn set_color(&mut self, code: u8)
        ensures
            final(self).block_color == (match code {
                1 => BlockColor::Red,
                2 => BlockColor::Green,
                3 => BlockColor::Blue,
                4 => BlockColor::Pink,
                5 => BlockColor::Yellow,
                _ => BlockColor::White,
            }),
            final(self).shape == old(self).shape,
            final(self).package_info == old(self).package_info,
            final(self).name == old(self).name,
            final(self).description == old(self).description,
            final(self).is_program == old(self).is_program,
    {
        self.block_color = match code {
            1 => BlockColor::Red,
            2 => BlockColor::Green,
            3 => BlockColor::Blue,
            4 => BlockColor::Pink,
            5 => BlockColor::Yellow,
            _ => BlockColor::White,
        };
    }
}

} // verus!
