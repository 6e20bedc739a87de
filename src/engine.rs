//! A generated siege engine skeleton and its ASCII form.
use vstd::prelude::*;
use crate::tile::{char_of, Tile};

verus! {

/// What an engine is: a grid of tiles, row by row.
pub struct EngineView {
    pub width: nat,
    pub height: nat,
    pub tiles: Seq<Tile>,
}

/// A generated siege engine.
#[derive(Debug)]
pub struct Engine {
    width: u32,
    height: u32,
    tiles: Vec<Tile>,
}

/// The characters of each row of a `width` x `height` grid of tiles.
pub open spec fn ascii_rows(tiles: Seq<Tile>, width: nat, height: nat) -> Seq<Seq<char>> {
    Seq::new(height, |y: int| Seq::new(width, |x: int| char_of(tiles[y * width + x])))
}

/// Lines put together with a newline between each two.
pub open spec fn join_lines(lines: Seq<Seq<char>>) -> Seq<char>
    decreases lines.len(),
{
    if lines.len() == 0 {
        Seq::empty()
    } else if lines.len() == 1 {
        lines[0]
    } else {
        join_lines(lines.drop_last()) + seq!['\n'] + lines.last()
    }
}

/// The ASCII art of a grid of tiles: one line per row; nothing for a grid without
/// cells.
pub open spec fn ascii_of(tiles: Seq<Tile>, width: nat, height: nat) -> Seq<char> {
    if width == 0 {
        Seq::empty()
    } else {
        join_lines(ascii_rows(tiles, width, height))
    }
}

/// Relies on std's `String::push`: appends one character.
#[verifier::external_body]
fn push_char(s: &mut String, c: char)
    ensures
        final(s)@ == old(s)@.push(c),
{
    s.push(c);
}

proof fn lemma_row_index(width: nat, height: nat, y: int, x: int)
    requires
        0 <= y < height,
        0 <= x < width,
    ensures
        0 <= y * width + x < width * height,
{
    assert(y * width + x < width * height) by (nonlinear_arith)
        requires
            0 <= y < height,
            0 <= x < width,
    ;
    assert(0 <= y * width) by (nonlinear_arith)
        requires
            0 <= y,
    ;
}

impl View for Engine {
    type V = EngineView;

    closed spec fn view(&self) -> EngineView {
        EngineView { width: self.width as nat, height: self.height as nat, tiles: self.tiles@ }
    }
}

impl Engine {
    #[verifier::type_invariant]
    spec fn well_formed(self) -> bool {
        &&& self.tiles@.len() == self.width * self.height
        &&& forall|i: int| 0 <= i < self.tiles@.len() ==> self.tiles@[i] != Tile::Edge
    }

    /// An engine of the given size from its tiles, row by row.
    pub(crate) fn new(width: u32, height: u32, tiles: Vec<Tile>) -> (r: Engine)
        requires
            tiles@.len() == width * height,
            forall|i: int| 0 <= i < tiles@.len() ==> tiles@[i] != Tile::Edge,
        ensures
            r@ == (EngineView { width: width as nat, height: height as nat, tiles: tiles@ }),
    {
        Engine { width, height, tiles }
    }

    /// Render the engine as ASCII art: one line per row, one character per tile.
    pub fn to_ascii(&self) -> (r: String)
        ensures
            r@ == ascii_of(self@.tiles, self@.width, self@.height),
    {
        proof {
            use_type_invariant(self);
        }
        let n = self.tiles.len();
        let mut s = String::new();
        if self.width == 0 {
            return s;
        }
        let ghost rows = ascii_rows(self.tiles@, self.width as nat, self.height as nat);
        let mut y: u32 = 0;
        while y < self.height
            invariant
                0 <= y <= self.height,
                0 < self.width,
                rows == ascii_rows(self.tiles@, self.width as nat, self.height as nat),
                s@ == join_lines(rows.take(y as int)),
                self.tiles@.len() == self.width * self.height,
                n == self.tiles@.len(),
                forall|i: int| 0 <= i < self.tiles@.len() ==> self.tiles@[i] != Tile::Edge,
            decreases self.height - y,
        {
            let ghost before = s@;
            if y > 0 {
                push_char(&mut s, '\n');
            }
            let mut x: u32 = 0;
            while x < self.width
                invariant
                    0 <= y < self.height,
                    0 <= x <= self.width,
                    rows == ascii_rows(self.tiles@, self.width as nat, self.height as nat),
                    before == join_lines(rows.take(y as int)),
                    s@ == (if y > 0 { before + seq!['\n'] } else { before }) + rows[y as int].take(
                        x as int,
                    ),
                    self.tiles@.len() == self.width * self.height,
                    n == self.tiles@.len(),
                    forall|i: int| 0 <= i < self.tiles@.len() ==> self.tiles@[i] != Tile::Edge,
                decreases self.width - x,
            {
                proof {
                    lemma_row_index(self.width as nat, self.height as nat, y as int, x as int);
                }
                let i = y as usize * self.width as usize + x as usize;
                let c = self.tiles[i].to_ascii();
                push_char(&mut s, c);
                proof {
                    assert(rows[y as int].take(x as int + 1) =~= rows[y as int].take(x as int).push(c));
                }
                x = x + 1;
            }
            proof {
                assert(rows[y as int].take(self.width as int) =~= rows[y as int]);
                let next = rows.take(y as int + 1);
                assert(next.drop_last() =~= rows.take(y as int));
                if y == 0 {
                    assert(before =~= Seq::<char>::empty());
                    assert(s@ =~= join_lines(next));
                } else {
                    assert(s@ =~= join_lines(next));
                }
            }
            y = y + 1;
        }
        proof {
            assert(rows.take(self.height as int) =~= rows);
        }
        s
    }

    /// The tiles, row by row.
    pub fn tiles(&self) -> (r: &Vec<Tile>)
        ensures
            r@ == self@.tiles,
    {
        &self.tiles
    }

    /// Amount of tiles in a row.
    pub fn width(&self) -> (r: u32)
        ensures
            r == self@.width,
    {
        self.width
    }

    /// Amount of tiles in a column.
    pub fn height(&self) -> (r: u32)
        ensures
            r == self@.height,
    {
        self.height
    }
}

} // verus!
