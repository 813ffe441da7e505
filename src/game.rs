use vstd::prelude::*;

use crate::block::{Block, BlockKind, SPAWN_X, SPAWN_Y};
use crate::board::{
    after_garbage, cleared, empty_rows, fits, kept_rows, placed_count, valid_position,
    with_squares, Board, Cell, BOARD_HEIGHT, BOARD_WIDTH,
};
use crate::message::{GameMessage, MessageView};

verus! {

/// Whether the game runs, is paused, or has ended.
#[derive(Debug, Clone, Copy, PartialEq, Eq, Structural)]
pub enum GameState {
    Playing,
    Paused,
    GameOver,
}

/// Points, cleared lines and level.
#[derive(Debug, Clone, Copy, PartialEq, Eq, Structural)]
pub struct Score {
    pub points: u32,
    pub lines: u32,
    pub level: u32,
}

impl Default for Score {
    fn default() -> (r: Score)
        ensures
            r == (Score { points: 0, lines: 0, level: 1 }),
    {
        Score { points: 0, lines: 0, level: 1 }
    }
}

/// Points per level for clearing `n` lines at once.
pub open spec fn line_points(n: u32) -> u32 {
    if n == 1 {
        100
    } else if n == 2 {
        300
    } else if n == 3 {
        500
    } else if n == 4 {
        800
    } else {
        0
    }
}

/// The score after `n` lines were cleared at once: points by the table
/// times the level, lines added, and one level per ten lines.
pub open spec fn scored(s: Score, n: u32) -> Score {
    let lines = s.lines + n;
    Score {
        points: (s.points + line_points(n) * s.level) as u32,
        lines: lines as u32,
        level: (lines / 10 + 1) as u32,
    }
}

/// A piece of the board's columns and rows, as the moves keep it.
pub open spec fn piece_ok(b: Block) -> bool {
    &&& b.rotation < 4
    &&& 0 <= b.x < BOARD_WIDTH
    &&& i32::MIN + 2 <= b.y < BOARD_HEIGHT
}

/// A piece at the spawn point, unrotated.
pub open spec fn spawned(b: Block) -> bool {
    b.x == SPAWN_X && b.y == SPAWN_Y && b.rotation == 0
}

/// The piece moved by `(dx, dy)`.
pub open spec fn moved(b: Block, dx: int, dy: int) -> Block {
    Block { x: (b.x + dx) as i32, y: (b.y + dy) as i32, ..b }
}

/// The piece turned a quarter turn clockwise.
pub open spec fn turned(b: Block) -> Block {
    Block { rotation: ((b.rotation + 1) % 4) as u8, ..b }
}

/// The square of a kind that sits on the pivot in every orientation.
pub open spec fn pivot_index(k: BlockKind) -> int {
    match k {
        BlockKind::I => 0,
        BlockKind::J => 0,
        BlockKind::L => 0,
        BlockKind::O => 2,
        BlockKind::S => 2,
        BlockKind::T => 3,
        BlockKind::Z => 2,
    }
}

proof fn lemma_pivot(b: Block)
    requires
        b.rotation < 4,
    ensures
        0 <= pivot_index(b.kind) < 4,
        b.cell(pivot_index(b.kind)) == (b.x as int, b.y as int),
{
}

/// A valid piece has its pivot on the board's columns and above its floor.
proof fn lemma_valid_piece(rows: Seq<Seq<Cell>>, b: Block)
    requires
        b.rotation < 4,
        valid_position(rows, b),
    ensures
        0 <= b.x < BOARD_WIDTH,
        b.y < BOARD_HEIGHT,
{
    lemma_pivot(b);
    assert(fits(rows, b.cell(pivot_index(b.kind))));
}

/// Where a piece comes to rest when dropped straight down.
pub open spec fn landing(rows: Seq<Seq<Cell>>, b: Block) -> Block
    decreases BOARD_HEIGHT - b.y,
{
    if b.y < BOARD_HEIGHT && b.rotation < 4 && valid_position(rows, moved(b, 0, 1)) && b.y + 1
        < BOARD_HEIGHT {
        landing(rows, moved(b, 0, 1))
    } else {
        b
    }
}

/// The game rules' state: board, pieces, score and the roster of peers.
pub struct Game {
    pub board: Board,
    pub current_block: Block,
    pub next_block: Block,
    pub hold_block: Option<Block>,
    pub has_held: bool,
    pub state: GameState,
    pub score: Score,
    pub lines_just_cleared: bool,
    pub player_id: Option<String>,
    pub other_players: Vec<(String, i32)>,
}

/// The scores of the peers, ids as character sequences.
pub open spec fn others_view(v: Seq<(String, i32)>) -> Seq<(Seq<char>, i32)> {
    v.map_values(|p: (String, i32)| (p.0@, p.1))
}

/// No id twice.
pub open spec fn unique_ids(s: Seq<(Seq<char>, i32)>) -> bool {
    forall|i: int, j: int|
        0 <= i < s.len() && 0 <= j < s.len() && i != j ==> #[trigger] s[i].0 != #[trigger] s[j].0
}

/// The score listed for peer `k`, if it is listed.
pub open spec fn score_of(s: Seq<(Seq<char>, i32)>, k: Seq<char>) -> Option<i32> {
    if exists|i: int| 0 <= i < s.len() && #[trigger] s[i].0 == k {
        Some(s[choose|i: int| 0 <= i < s.len() && #[trigger] s[i].0 == k].1)
    } else {
        None
    }
}

/// `s1` lists what `s0` lists, but with peer `k` at score `v`.
pub open spec fn others_set(s0: Seq<(Seq<char>, i32)>, s1: Seq<(Seq<char>, i32)>, k: Seq<char>, v: i32) -> bool {
    forall|q: Seq<char>| #[trigger] score_of(s1, q) == if q == k { Some(v) } else { score_of(s0, q) }
}

/// `s1` lists what `s0` lists, but without peer `k`.
pub open spec fn others_removed(s0: Seq<(Seq<char>, i32)>, s1: Seq<(Seq<char>, i32)>, k: Seq<char>) -> bool {
    forall|q: Seq<char>| #[trigger] score_of(s1, q) == if q == k { None } else { score_of(s0, q) }
}

/// The id of an optional string.
pub open spec fn opt_view(o: Option<String>) -> Option<Seq<char>> {
    match o {
        Some(s) => Some(s@),
        None => None,
    }
}

proof fn lemma_score_at(s: Seq<(Seq<char>, i32)>, i: int)
    requires
        unique_ids(s),
        0 <= i < s.len(),
    ensures
        score_of(s, s[i].0) == Some(s[i].1),
{
    let j = choose|j: int| 0 <= j < s.len() && #[trigger] s[j].0 == s[i].0;
    assert(s[j].0 == s[i].0);
}

/// The state after the current piece is locked into the board (see
/// `lock_current_block`); `r` is what the call returns.
pub open spec fn locked(g0: Game, g1: Game, r: bool) -> bool {
    let b = g0.current_block;
    let rows = g0.board@;
    if valid_position(rows, b) && placed_count(b) == 4 {
        let placed = with_squares(rows, b, 4);
        let n = (placed.len() - kept_rows(placed).len()) as u32;
        &&& g1.board@ == cleared(placed)
        &&& r == (n > 0)
        &&& g1.score == scored(g0.score, n)
        &&& g1.current_block == g0.next_block
        &&& spawned(g1.next_block)
        &&& !g1.has_held
        &&& g1.lines_just_cleared == (g0.lines_just_cleared || n > 0)
        &&& g1.state == g0.state
        &&& g1.hold_block == g0.hold_block
        &&& g1.player_id == g0.player_id
        &&& g1.other_players == g0.other_players
    } else {
        &&& !r
        &&& g1.board@ == (if valid_position(rows, b) {
            with_squares(rows, b, placed_count(b))
        } else {
            rows
        })
        &&& g1.state == GameState::GameOver
        &&& g1.score == g0.score
        &&& g1.current_block == g0.current_block
        &&& g1.next_block == g0.next_block
        &&& g1.has_held == g0.has_held
        &&& g1.lines_just_cleared == g0.lines_just_cleared
        &&& g1.hold_block == g0.hold_block
        &&& g1.player_id == g0.player_id
        &&& g1.other_players == g0.other_players
    }
}

impl Game {
    /// Board of full size, pieces within its columns and rows, peers listed
    /// once each.
    pub open spec fn wf(&self) -> bool {
        &&& self.board.wf()
        &&& piece_ok(self.current_block)
        &&& piece_ok(self.next_block)
        &&& unique_ids(others_view(self.other_players@))
    }

    /// The score can take one more lock without overflowing.
    pub open spec fn score_room(&self) -> bool {
        &&& self.score.points + 800 * self.score.level <= u32::MAX
        &&& self.score.lines + BOARD_HEIGHT <= u32::MAX
    }

    /// A fresh game: empty board, two random pieces at the spawn point,
    /// nothing held, playing, score zero at level 1, no peers.
    pub fn new() -> (r: Game)
        ensures
            r.wf(),
            r.board@ == empty_rows(BOARD_HEIGHT as nat),
            spawned(r.current_block),
            spawned(r.next_block),
            r.hold_block is None,
            !r.has_held,
            r.state == GameState::Playing,
            r.score == (Score { points: 0, lines: 0, level: 1 }),
            !r.lines_just_cleared,
            r.player_id is None,
            r.other_players@.len() == 0,
    {
        Game {
            board: Board::new(),
            current_block: Block::new(BlockKind::random()),
            next_block: Block::new(BlockKind::random()),
            hold_block: None,
            has_held: false,
            state: GameState::Playing,
            score: Score::default(),
            lines_just_cleared: false,
            player_id: None,
            other_players: Vec::new(),
        }
    }

    /// Moves the current piece by `(dx, dy)` when it fits there; returns
    /// whether it moved.
    pub fn move_current_block(&mut self, dx: i32, dy: i32) -> (r: bool)
        requires
            old(self).wf(),
            i32::MIN <= old(self).current_block.x + dx <= i32::MAX,
            i32::MIN + 2 <= old(self).current_block.y + dy <= i32::MAX,
        ensures
            final(self).wf(),
            r == valid_position(old(self).board@, moved(old(self).current_block, dx as int, dy as int)),
            *final(self) == (Game {
                current_block: if r {
                    moved(old(self).current_block, dx as int, dy as int)
                } else {
                    old(self).current_block
                },
                ..*old(self)
            }),
    {
        let ghost cand = moved(self.current_block, dx as int, dy as int);
        let nx = self.current_block.x + dx;
        let ny = self.current_block.y + dy;
        if nx < 0 || nx >= BOARD_WIDTH as i32 || ny >= BOARD_HEIGHT as i32 {
            proof {
                if valid_position(self.board@, cand) {
                    lemma_valid_piece(self.board@, cand);
                }
            }
            return false;
        }
        let mut new_block = self.current_block;
        new_block.x = nx;
        new_block.y = ny;
        assert(new_block == cand);
        if self.board.is_valid_position(&new_block) {
            self.current_block = new_block;
            true
        } else {
            false
        }
    }

    /// Turns the current piece a quarter turn clockwise when it fits; failing
    /// that, turned and one column left; failing that, turned and one column
    /// right. Returns whether it turned.
    pub fn rotate_current_block(&mut self) -> (r: bool)
        requires
            old(self).wf(),
        ensures
            final(self).wf(),
            ({
                let rows = old(self).board@;
                let t = turned(old(self).current_block);
                let left = moved(t, -1, 0);
                let right = moved(t, 1, 0);
                &&& r == (valid_position(rows, t) || valid_position(rows, left) || valid_position(
                    rows,
                    right,
                ))
                &&& *final(self) == (Game {
                    current_block: if valid_position(rows, t) {
                        t
                    } else if valid_position(rows, left) {
                        left
                    } else if valid_position(rows, right) {
                        right
                    } else {
                        old(self).current_block
                    },
                    ..*old(self)
                })
            }),
    {
        let ghost rows = self.board@;
        let mut new_block = self.current_block;
        new_block.rotate();
        assert(new_block == turned(self.current_block));
        if self.board.is_valid_position(&new_block) {
            self.current_block = new_block;
            return true;
        }
        new_block.x = self.current_block.x - 1;
        assert(new_block == moved(turned(self.current_block), -1, 0));
        if self.board.is_valid_position(&new_block) {
            proof {
                lemma_valid_piece(rows, new_block);
            }
            self.current_block = new_block;
            return true;
        }
        new_block.x = self.current_block.x + 1;
        assert(new_block == moved(turned(self.current_block), 1, 0));
        if self.board.is_valid_position(&new_block) {
            proof {
                lemma_valid_piece(rows, new_block);
            }
            self.current_block = new_block;
            return true;
        }
        false
    }

    /// Adds the points for `lines_cleared` lines at the current level, adds
    /// the lines, and sets the level to one per ten lines, starting at 1.
    pub fn update_score(&mut self, lines_cleared: u32)
        requires
            old(self).score.points + line_points(lines_cleared) * old(self).score.level <= u32::MAX,
            old(self).score.lines + lines_cleared <= u32::MAX,
        ensures
            *final(self) == (Game { score: scored(old(self).score, lines_cleared), ..*old(self) }),
    {
        let base: u32 = match lines_cleared {
            1 => 100,
            2 => 300,
            3 => 500,
            4 => 800,
            _ => 0,
        };
        assert(base == line_points(lines_cleared));
        assert(base * self.score.level <= u32::MAX) by (nonlinear_arith)
            requires
                base * self.score.level <= u32::MAX - self.score.points,
                self.score.points >= 0,
        ;
        let points = base * self.score.level;
        self.score.points = self.score.points + points;
        self.score.lines = self.score.lines + lines_cleared;
        self.score.level = self.score.lines / 10 + 1;
    }

    /// Locks the current piece into the board. When it cannot be placed
    /// whole, the game is over and `false` comes back. Otherwise complete
    /// rows are cleared and scored, the next piece comes into play, a new
    /// random one is drawn, holding is allowed again, and the result says
    /// whether any row was cleared.
    pub fn lock_current_block(&mut self) -> (r: bool)
        requires
            old(self).wf(),
            old(self).score_room(),
        ensures
            final(self).wf(),
            locked(*old(self), *final(self), r),
    {
        let current = self.current_block;
        if !self.board.place_block(&current) {
            self.state = GameState::GameOver;
            return false;
        }
        let lines_cleared = self.board.clear_lines();
        if lines_cleared > 0 {
            self.lines_just_cleared = true;
        }
        assert(line_points(lines_cleared) <= 800);
        assert(line_points(lines_cleared) * self.score.level <= 800 * self.score.level) by (nonlinear_arith)
            requires
                line_points(lines_cleared) <= 800,
        ;
        self.update_score(lines_cleared);
        self.current_block = self.next_block;
        self.next_block = Block::new(BlockKind::random());
        self.has_held = false;
        lines_cleared > 0
    }

    /// Drops the current piece straight down as far as it fits, then locks
    /// it.
    pub fn hard_drop(&mut self) -> (r: bool)
        requires
            old(self).wf(),
            old(self).score_room(),
        ensures
            final(self).wf(),
            locked(
                Game {
                    current_block: landing(old(self).board@, old(self).current_block),
                    ..*old(self)
                },
                *final(self),
                r,
            ),
    {
        let ghost g0 = *self;
        while self.move_current_block(0, 1)
            invariant
                self.wf(),
                self.score_room(),
                *self == (Game { current_block: self.current_block, ..g0 }),
                landing(g0.board@, self.current_block) == landing(g0.board@, g0.current_block),
            decreases BOARD_HEIGHT - self.current_block.y,
        {
        }
        assert(landing(g0.board@, self.current_block) == self.current_block);
        self.lock_current_block()
    }

    /// One step of gravity: the current piece moves down a row, or locks
    /// when it cannot.
    pub fn step_down(&mut self)
        requires
            old(self).wf(),
            old(self).score_room(),
        ensures
            final(self).wf(),
            valid_position(old(self).board@, moved(old(self).current_block, 0, 1)) ==> *final(self)
                == (Game { current_block: moved(old(self).current_block, 0, 1), ..*old(self) }),
            !valid_position(old(self).board@, moved(old(self).current_block, 0, 1)) ==> exists|r: bool|
                locked(*old(self), *final(self), r),
    {
        if !self.move_current_block(0, 1) {
            self.lock_current_block();
        }
    }

    /// Whether the game is running (neither paused nor over).
    pub fn is_running(&self) -> (r: bool)
        ensures
            r == (self.state == GameState::Playing),
    {
        self.state == GameState::Playing
    }

    /// Pauses a running game or resumes a paused one; an ended game stays
    /// ended.
    pub fn toggle_pause(&mut self)
        ensures
            *final(self) == (Game {
                state: match old(self).state {
                    GameState::Playing => GameState::Paused,
                    GameState::Paused => GameState::Playing,
                    GameState::GameOver => GameState::GameOver,
                },
                ..*old(self)
            }),
    {
        match self.state {
            GameState::Playing => self.state = GameState::Paused,
            GameState::Paused => self.state = GameState::Playing,
            _ => {},
        }
    }

    /// Starts a new game: board, pieces, hold, state and score as in
    /// `new`; the player's own id and the peers are kept.
    pub fn start_game(&mut self)
        requires
            old(self).wf(),
        ensures
            final(self).wf(),
            final(self).board@ == empty_rows(BOARD_HEIGHT as nat),
            spawned(final(self).current_block),
            spawned(final(self).next_block),
            final(self).hold_block is None,
            !final(self).has_held,
            final(self).state == GameState::Playing,
            final(self).score == (Score { points: 0, lines: 0, level: 1 }),
            !final(self).lines_just_cleared,
            final(self).player_id == old(self).player_id,
            final(self).other_players == old(self).other_players,
    {
        self.board = Board::new();
        self.current_block = Block::new(BlockKind::random());
        self.next_block = Block::new(BlockKind::random());
        self.hold_block = None;
        self.has_held = false;
        self.state = GameState::Playing;
        self.score = Score::default();
        self.lines_just_cleared = false;
    }

    /// Clears the complete rows of the board and returns how many went;
    /// notes when any did.
    pub fn clear_lines(&mut self) -> (r: u32)
        requires
            old(self).wf(),
        ensures
            final(self).wf(),
            r == old(self).board@.len() - kept_rows(old(self).board@).len(),
            final(self).board@ == cleared(old(self).board@),
            final(self).lines_just_cleared == (old(self).lines_just_cleared || r > 0),
            *final(self) == (Game {
                board: final(self).board,
                lines_just_cleared: final(self).lines_just_cleared,
                ..*old(self)
            }),
    {
        let lines = self.board.clear_lines();
        if lines > 0 {
            self.lines_just_cleared = true;
        }
        lines
    }

    /// The message that announces `lines` cleared lines to the peers, once
    /// the player knows its own id: `None` when no line was cleared.
    pub fn line_clear_message(&self, lines: u32) -> (r: Option<GameMessage>)
        ensures
            match r {
                Some(m) => lines > 0 && self.player_id is Some && m@ == (MessageView::LineCleared {
                    player_id: self.player_id->0@,
                    count: if lines <= i32::MAX {
                        lines as i32
                    } else {
                        0
                    },
                }),
                None => lines == 0 || self.player_id is None,
            },
    {
        if lines == 0 {
            return None;
        }
        match &self.player_id {
            Some(id) => {
                let count: i32 = if lines <= i32::MAX as u32 {
                    lines as i32
                } else {
                    0
                };
                Some(GameMessage::LineCleared { player_id: id.clone(), count })
            },
            None => None,
        }
    }

    /// The message that publishes the player's own score, once it knows its
    /// own id.
    pub fn status_message(&self) -> (r: Option<GameMessage>)
        ensures
            match r {
                Some(m) => self.player_id is Some && m@ == (MessageView::GameState {
                    player_id: self.player_id->0@,
                    score: self.score.points as i32,
                }),
                None => self.player_id is None,
            },
    {
        match &self.player_id {
            Some(id) => Some(
                GameMessage::GameState { player_id: id.clone(), score: self.score.points as i32 },
            ),
            None => None,
        }
    }

    /// Whether `id` is the player's own id.
    pub fn is_own(&self, id: &String) -> (r: bool)
        ensures
            r == (opt_view(self.player_id) == Some(id@)),
    {
        match &self.player_id {
            Some(own) => *own == *id,
            None => false,
        }
    }

    /// Where peer `id` stands in the list, if it is there.
    fn find_other(&self, id: &String) -> (r: Option<usize>)
        ensures
            match r {
                Some(i) => i < self.other_players@.len() && others_view(self.other_players@)[i as int].0
                    == id@,
                None => forall|i: int|
                    0 <= i < self.other_players@.len() ==> #[trigger] others_view(
                        self.other_players@,
                    )[i].0 != id@,
            },
    {
        let n = self.other_players.len();
        for i in 0..n
            invariant
                n == self.other_players@.len(),
                forall|k: int| 0 <= k < i ==> #[trigger] others_view(self.other_players@)[k].0 != id@,
        {
            if self.other_players[i].0 == *id {
                return Some(i);
            }
        }
        None
    }

    /// Lists peer `id` with score `score`, replacing what was listed for it.
    pub fn set_other(&mut self, id: String, score: i32)
        requires
            old(self).wf(),
        ensures
            final(self).wf(),
            others_set(others_view(old(self).other_players@), others_view(final(self).other_players@), id@, score),
            *final(self) == (Game { other_players: final(self).other_players, ..*old(self) }),
    {
        let ghost s0 = others_view(self.other_players@);
        let ghost k = id@;
        match self.find_other(&id) {
            Some(i) => {
                self.other_players.set(i, (id, score));
                proof {
                    let s1 = others_view(self.other_players@);
                    assert(s1 =~= s0.update(i as int, (k, score)));
                    assert forall|a: int, b: int|
                        0 <= a < s1.len() && 0 <= b < s1.len() && a != b implies #[trigger] s1[a].0
                            != #[trigger] s1[b].0 by {
                        assert(s0[a].0 == s1[a].0);
                        assert(s0[b].0 == s1[b].0);
                    }
                    assert forall|q: Seq<char>| #[trigger] score_of(s1, q) == if q == k {
                        Some(score)
                    } else {
                        score_of(s0, q)
                    } by {
                        if q == k {
                            lemma_score_at(s1, i as int);
                        } else {
                            if exists|j: int| 0 <= j < s0.len() && #[trigger] s0[j].0 == q {
                                let j = choose|j: int| 0 <= j < s0.len() && #[trigger] s0[j].0 == q;
                                lemma_score_at(s0, j);
                                lemma_score_at(s1, j);
                            } else {
                                assert forall|j: int| 0 <= j < s1.len() implies #[trigger] s1[j].0 != q by {
                                    assert(s0[j].0 == s1[j].0 || j == i);
                                }
                            }
                        }
                    }
                }
            },
            None => {
                self.other_players.push((id, score));
                proof {
                    let s1 = others_view(self.other_players@);
                    assert(s1 =~= s0.push((k, score)));
                    assert forall|a: int, b: int|
                        0 <= a < s1.len() && 0 <= b < s1.len() && a != b implies #[trigger] s1[a].0
                            != #[trigger] s1[b].0 by {
                        if a < s0.len() && b < s0.len() {
                            assert(s0[a].0 == s1[a].0);
                            assert(s0[b].0 == s1[b].0);
                        }
                    }
                    assert forall|q: Seq<char>| #[trigger] score_of(s1, q) == if q == k {
                        Some(score)
                    } else {
                        score_of(s0, q)
                    } by {
                        if q == k {
                            lemma_score_at(s1, s0.len() as int);
                        } else {
                            if exists|j: int| 0 <= j < s0.len() && #[trigger] s0[j].0 == q {
                                let j = choose|j: int| 0 <= j < s0.len() && #[trigger] s0[j].0 == q;
                                lemma_score_at(s0, j);
                                lemma_score_at(s1, j);
                            } else {
                                assert forall|j: int| 0 <= j < s1.len() implies #[trigger] s1[j].0 != q by {
                                    if j < s0.len() {
                                        assert(s0[j].0 == s1[j].0);
                                    }
                                }
                            }
                        }
                    }
                }
            },
        }
    }

    /// Drops peer `id` from the list; nothing changes when it is not listed.
    pub fn remove_other(&mut self, id: &String)
        requires
            old(self).wf(),
        ensures
            final(self).wf(),
            others_removed(others_view(old(self).other_players@), others_view(final(self).other_players@), id@),
            *final(self) == (Game { other_players: final(self).other_players, ..*old(self) }),
    {
        let ghost s0 = others_view(self.other_players@);
        let ghost k = id@;
        match self.find_other(id) {
            Some(i) => {
                self.other_players.remove(i);
                proof {
                    let s1 = others_view(self.other_players@);
                    assert(s1 =~= s0.remove(i as int));
                    assert forall|a: int, b: int|
                        0 <= a < s1.len() && 0 <= b < s1.len() && a != b implies #[trigger] s1[a].0
                            != #[trigger] s1[b].0 by {
                        let a0 = if a < i { a } else { a + 1 };
                        let b0 = if b < i { b } else { b + 1 };
                        assert(s0[a0].0 == s1[a].0);
                        assert(s0[b0].0 == s1[b].0);
                    }
                    assert forall|q: Seq<char>| #[trigger] score_of(s1, q) == if q == k {
                        None
                    } else {
                        score_of(s0, q)
                    } by {
                        if q == k {
                            assert forall|j: int| 0 <= j < s1.len() implies #[trigger] s1[j].0 != q by {
                                let j0 = if j < i { j } else { j + 1 };
                                assert(s0[j0].0 == s1[j].0);
                            }
                        } else {
                            if exists|j: int| 0 <= j < s0.len() && #[trigger] s0[j].0 == q {
                                let j = choose|j: int| 0 <= j < s0.len() && #[trigger] s0[j].0 == q;
                                lemma_score_at(s0, j);
                                let j1 = if j < i { j } else { j - 1 };
                                assert(s1[j1] == s0[j]);
                                lemma_score_at(s1, j1);
                            } else {
                                assert forall|j: int| 0 <= j < s1.len() implies #[trigger] s1[j].0 != q by {
                                    let j0 = if j < i { j } else { j + 1 };
                                    assert(s0[j0].0 == s1[j].0);
                                }
                            }
                        }
                    }
                }
            },
            None => {
                proof {
                    assert forall|q: Seq<char>| #[trigger] score_of(s0, q) == if q == k {
                        None
                    } else {
                        score_of(s0, q)
                    } by {}
                }
            },
        }
    }

    /// Applies a message from the server: a `Join` tells the player its own
    /// id when it has none yet and lists any other newcomer at score 0; a
    /// peer's `GameState` lists its score; a peer's `LineCleared` brings in
    /// that many garbage rows; `PlayerLeft` drops the peer; a `GameOver`
    /// with the player's own id ends the game. Messages about the player
    /// itself change nothing else.
    pub fn apply_message(&mut self, msg: GameMessage)
        requires
            old(self).wf(),
        ensures
            final(self).wf(),
            ({
                let g0 = *old(self);
                let g1 = *final(self);
                let s0 = others_view(g0.other_players@);
                let s1 = others_view(g1.other_players@);
                let own = opt_view(g0.player_id);
                match msg@ {
                    MessageView::Join { player_id } => {
                        let me = match own {
                            Some(o) => o,
                            None => player_id,
                        };
                        &&& opt_view(g1.player_id) == Some(me)
                        &&& player_id != me ==> others_set(s0, s1, player_id, 0)
                        &&& player_id == me ==> s1 == s0
                        &&& g1 == (Game {
                            player_id: g1.player_id,
                            other_players: g1.other_players,
                            ..g0
                        })
                    },
                    MessageView::GameState { player_id, score } => if own == Some(player_id) {
                        g1 == g0
                    } else {
                        &&& others_set(s0, s1, player_id, score)
                        &&& g1 == (Game { other_players: g1.other_players, ..g0 })
                    },
                    MessageView::LineCleared { player_id, count } => if own == Some(player_id) {
                        g1 == g0
                    } else {
                        &&& after_garbage(
                            g0.board@,
                            g1.board@,
                            if count > 0 {
                                count as int
                            } else {
                                0
                            },
                        )
                        &&& g1 == (Game { board: g1.board, ..g0 })
                    },
                    MessageView::GameOver { player_id } => if own == Some(player_id) {
                        g1 == (Game { state: GameState::GameOver, ..g0 })
                    } else {
                        g1 == g0
                    },
                    MessageView::PlayerLeft { player_id } => {
                        &&& others_removed(s0, s1, player_id)
                        &&& g1 == (Game { other_players: g1.other_players, ..g0 })
                    },
                }
            }),
    {
        match msg {
            GameMessage::Join { player_id } => {
                if self.player_id.is_none() {
                    self.player_id = Some(player_id.clone());
                }
                if !self.is_own(&player_id) {
                    self.set_other(player_id, 0);
                }
            },
            GameMessage::GameState { player_id, score } => {
                if !self.is_own(&player_id) {
                    self.set_other(player_id, score);
                }
            },
            GameMessage::LineCleared { player_id, count } => {
                if !self.is_own(&player_id) {
                    self.board.add_garbage_lines(count);
                }
            },
            GameMessage::PlayerLeft { player_id } => {
                self.remove_other(&player_id);
            },
            GameMessage::GameOver { player_id } => {
                if self.is_own(&player_id) {
                    self.state = GameState::GameOver;
                }
            },
        }
    }
}

impl Default for Game {
    fn default() -> (r: Game)
        ensures
            r.wf(),
            r.board@ == empty_rows(BOARD_HEIGHT as nat),
            spawned(r.current_block),
            spawned(r.next_block),
            r.state == GameState::Playing,
            r.score == (Score { points: 0, lines: 0, level: 1 }),
            r.player_id is None,
            r.other_players@.len() == 0,
    {
        Game::new()
    }
}

} // verus!
