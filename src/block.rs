use vstd::prelude::*;

use crate::ambient::random_below;

verus! {

/// The seven piece shapes.
#[derive(Debug, Clone, Copy, PartialEq, Eq, Structural)]
pub enum BlockKind {
    I,
    J,
    L,
    O,
    S,
    T,
    Z,
}

/// Position of each kind in the order `I, J, L, O, S, T, Z`.
pub open spec fn kind_index(k: BlockKind) -> nat {
    match k {
        BlockKind::I => 0,
        BlockKind::J => 1,
        BlockKind::L => 2,
        BlockKind::O => 3,
        BlockKind::S => 4,
        BlockKind::T => 5,
        BlockKind::Z => 6,
    }
}

/// The four cells of a kind in its spawn orientation, relative to the pivot.
pub open spec fn base_shape(k: BlockKind) -> Seq<(int, int)> {
    match k {
        BlockKind::I => seq![(0, 0), (-1, 0), (1, 0), (2, 0)],
        BlockKind::J => seq![(0, 0), (-1, 0), (1, 0), (-1, -1)],
        BlockKind::L => seq![(0, 0), (-1, 0), (1, 0), (1, -1)],
        BlockKind::O => seq![(0, -1), (1, -1), (0, 0), (1, 0)],
        BlockKind::S => seq![(0, -1), (-1, -1), (0, 0), (1, 0)],
        BlockKind::T => seq![(0, -1), (-1, 0), (1, 0), (0, 0)],
        BlockKind::Z => seq![(0, -1), (1, -1), (0, 0), (-1, 0)],
    }
}

/// An offset turned clockwise `r` quarter turns (`r` in `0..4`).
pub open spec fn turn(p: (int, int), r: int) -> (int, int) {
    if r == 0 {
        p
    } else if r == 1 {
        (-p.1, p.0)
    } else if r == 2 {
        (-p.0, -p.1)
    } else {
        (p.1, -p.0)
    }
}

impl BlockKind {
    /// The kind at position `i` of `I, J, L, O, S, T, Z`; any `i` past the
    /// end gives `Z`.
    pub fn from_index(i: usize) -> (r: BlockKind)
        ensures
            i < 7 ==> kind_index(r) == i,
            i >= 7 ==> r == BlockKind::Z,
    {
        match i {
            0 => BlockKind::I,
            1 => BlockKind::J,
            2 => BlockKind::L,
            3 => BlockKind::O,
            4 => BlockKind::S,
            5 => BlockKind::T,
            _ => BlockKind::Z,
        }
    }

    /// A kind drawn uniformly at random.
    pub fn random() -> (r: BlockKind) {
        BlockKind::from_index(random_below(7))
    }

    /// The colour code of the kind: its position in `I, J, L, O, S, T, Z`.
    pub fn color(&self) -> (r: u8)
        ensures
            r as nat == kind_index(*self),
    {
        match self {
            BlockKind::I => 0,
            BlockKind::J => 1,
            BlockKind::L => 2,
            BlockKind::O => 3,
            BlockKind::S => 4,
            BlockKind::T => 5,
            BlockKind::Z => 6,
        }
    }
}

/// A falling piece: its kind, pivot position and orientation.
#[derive(Debug, Clone, Copy, PartialEq, Eq, Structural)]
pub struct Block {
    pub kind: BlockKind,
    pub x: i32,
    pub y: i32,
    pub rotation: u8,
}

pub const SPAWN_X: i32 = 4;

pub const SPAWN_Y: i32 = -2;

impl Block {
    /// The board cell of the `i`-th square of the piece.
    pub open spec fn cell(self, i: int) -> (int, int) {
        let p = turn(base_shape(self.kind)[i], self.rotation as int);
        (p.0 + self.x, p.1 + self.y)
    }

    /// Pivot and rotation are far enough from the integer limits for every
    /// square of the piece to have coordinates that fit in an `i32`.
    pub open spec fn in_range(self) -> bool {
        &&& self.rotation < 4
        &&& i32::MIN + 2 <= self.x <= i32::MAX - 2
        &&& i32::MIN + 2 <= self.y <= i32::MAX - 2
    }

    /// A piece of the given kind at the spawn point, unrotated.
    pub fn new(kind: BlockKind) -> (r: Block)
        ensures
            r == (Block { kind, x: SPAWN_X, y: SPAWN_Y, rotation: 0 }),
    {
        Block { kind, x: SPAWN_X, y: SPAWN_Y, rotation: 0 }
    }

    /// Turns the piece a quarter turn clockwise.
    pub fn rotate(&mut self)
        requires
            old(self).rotation < u8::MAX,
        ensures
            *final(self) == (Block { rotation: ((old(self).rotation + 1) % 4) as u8, ..*old(self) }),
    {
        self.rotation = (self.rotation + 1) % 4;
    }

    /// The four board cells the piece covers, as `(column, row)` pairs.
    pub fn blocks(&self) -> (r: [(i32, i32); 4])
        requires
            self.in_range(),
        ensures
            forall|i: int|
                0 <= i < 4 ==> (#[trigger] r@[i]).0 == self.cell(i).0 && r@[i].1 == self.cell(i).1,
    {
        let base: [(i32, i32); 4] = match self.kind {
            BlockKind::I => [(0, 0), (-1, 0), (1, 0), (2, 0)],
            BlockKind::J => [(0, 0), (-1, 0), (1, 0), (-1, -1)],
            BlockKind::L => [(0, 0), (-1, 0), (1, 0), (1, -1)],
            BlockKind::O => [(0, -1), (1, -1), (0, 0), (1, 0)],
            BlockKind::S => [(0, -1), (-1, -1), (0, 0), (1, 0)],
            BlockKind::T => [(0, -1), (-1, 0), (1, 0), (0, 0)],
            BlockKind::Z => [(0, -1), (1, -1), (0, 0), (-1, 0)],
        };
        let ghost shape = base_shape(self.kind);
        assert(forall|i: int|
            0 <= i < 4 ==> base@[i].0 == shape[i].0 && base@[i].1 == shape[i].1);
        let mut rotated: [(i32, i32); 4] = [(0, 0); 4];
        for i in 0..4
            invariant
                self.in_range(),
                shape == base_shape(self.kind),
                forall|k: int| 0 <= k < 4 ==> base@[k].0 == shape[k].0 && base@[k].1 == shape[k].1,
                forall|k: int| 0 <= k < 4 ==> -2 <= #[trigger] shape[k].0 <= 2 && -2 <= shape[k].1 <= 2,
                forall|k: int|
                    0 <= k < i ==> (#[trigger] rotated@[k]).0 == self.cell(k).0 && rotated@[k].1
                        == self.cell(k).1,
        {
            let (x, y) = base[i];
            let (rx, ry): (i32, i32) = match self.rotation {
                0 => (x, y),
                1 => (-y, x),
                2 => (-x, -y),
                _ => (y, -x),
            };
            rotated[i] = (rx + self.x, ry + self.y);
        }
        rotated
    }

    /// Puts the piece back at the spawn point, unrotated.
    pub fn reset(&mut self)
        ensures
            *final(self) == Block::new_spec(old(self).kind),
    {
        self.x = SPAWN_X;
        self.y = SPAWN_Y;
        self.rotation = 0;
    }

    /// A piece of the given kind at the spawn point, unrotated.
    pub open spec fn new_spec(kind: BlockKind) -> Block {
        Block { kind, x: SPAWN_X, y: SPAWN_Y, rotation: 0 }
    }

    /// Moves the piece one column left.
    pub fn move_left(&mut self)
        requires
            old(self).x > i32::MIN,
        ensures
            *final(self) == (Block { x: (old(self).x - 1) as i32, ..*old(self) }),
    {
        self.x -= 1;
    }

    /// Moves the piece one column right.
    pub fn move_right(&mut self)
        requires
            old(self).x < i32::MAX,
        ensures
            *final(self) == (Block { x: (old(self).x + 1) as i32, ..*old(self) }),
    {
        self.x += 1;
    }

    /// Moves the piece one row down.
    pub fn move_down(&mut self)
        requires
            old(self).y < i32::MAX,
        ensures
            *final(self) == (Block { y: (old(self).y + 1) as i32, ..*old(self) }),
    {
        self.y += 1;
    }
}

} // verus!
