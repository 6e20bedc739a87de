//! Reading templates from text: ASCII art and rows of numeric codes.
use vstd::prelude::*;
use crate::catalog::MAX_CELLS;
use crate::engine::{ascii_of, join_lines};
use crate::generator::Generator;
use crate::grid::{fits, fits_exec, lemma_cell_index, lemma_fits, lemma_index_in_grid, lemma_unpad_padded, padded, unpadded};
use crate::text::{
    lines_view, nonempty, split_fields, split_line_fields, split_state, split_template_lines,
    strip_cr, template_lines, text_lines,
};
use crate::tile::{char_of, code_of, tile_of_char, Tile};

verus! {

/// Why a template could not be read.
#[derive(Debug, Copy, Clone, PartialEq, Eq, Structural)]
pub enum TemplateError {
    /// A numeric field is not a number from 0 to 255.
    MalformedNumber,
    /// A character or code stands for no tile.
    UnknownSymbol,
    /// The tiles do not fill the given width and height, or rows differ in length.
    DimensionMismatch,
    /// The template has no rows.
    Empty,
    /// The padded template has more cells than the solver can address.
    TooLarge,
}

/// The error that an array of tiles for a `w` x `h` template meets first, if any.
pub open spec fn array_error(w: int, h: int, tiles: Seq<Tile>) -> Option<TemplateError> {
    if tiles.len() != w * h {
        Some(TemplateError::DimensionMismatch)
    } else if tiles.contains(Tile::Edge) {
        Some(TemplateError::UnknownSymbol)
    } else if !fits(w, h) {
        Some(TemplateError::TooLarge)
    } else {
        None
    }
}

/// The length of the longest line.
pub open spec fn max_len(lines: Seq<Seq<char>>) -> nat
    decreases lines.len(),
{
    if lines.len() == 0 {
        0
    } else if lines.last().len() > max_len(lines.drop_last()) {
        lines.last().len()
    } else {
        max_len(lines.drop_last())
    }
}

/// The tiles of a template's lines, row by row, each line filled up with empty
/// tiles to `width`.
pub open spec fn ascii_tiles(lines: Seq<Seq<char>>, width: int) -> Seq<Tile> {
    Seq::new(
        (lines.len() * width) as nat,
        |k: int|
            {
                let line = lines[k / width];
                let x = k % width;
                if x < line.len() {
                    tile_of_char(line[x])->0
                } else {
                    Tile::Empty
                }
            },
    )
}

/// The error that a template text meets first, if any.
pub open spec fn ascii_error(s: Seq<char>) -> Option<TemplateError> {
    let lines = template_lines(s);
    if exists|i: int, j: int|
        0 <= i < lines.len() && 0 <= j < lines[i].len() && tile_of_char(#[trigger] lines[i][j]) is None {
        Some(TemplateError::UnknownSymbol)
    } else if lines.len() == 0 {
        Some(TemplateError::Empty)
    } else if !fits(max_len(lines) as int, lines.len() as int) {
        Some(TemplateError::TooLarge)
    } else {
        None
    }
}

/// No line is longer than the longest.
pub proof fn lemma_max_len(lines: Seq<Seq<char>>)
    ensures
        forall|i: int| 0 <= i < lines.len() ==> #[trigger] lines[i].len() <= max_len(lines),
    decreases lines.len(),
{
    if lines.len() > 0 {
        lemma_max_len(lines.drop_last());
        assert forall|i: int| 0 <= i < lines.len() implies #[trigger] lines[i].len() <= max_len(
            lines,
        ) by {
            if i < lines.len() - 1 {
                assert(lines[i] == lines.drop_last()[i]);
            }
        }
    }
}

/// The lines kept by `nonempty` are not empty.
pub proof fn lemma_nonempty(lines: Seq<Seq<char>>)
    ensures
        forall|i: int| 0 <= i < nonempty(lines).len() ==> #[trigger] nonempty(lines)[i].len() > 0,
    decreases lines.len(),
{
    if lines.len() > 0 {
        lemma_nonempty(lines.drop_last());
        let rest = nonempty(lines.drop_last());
        if lines.last().len() > 0 {
            assert forall|i: int| 0 <= i < nonempty(lines).len() implies #[trigger] nonempty(
                lines,
            )[i].len() > 0 by {
                if i < rest.len() {
                    assert(nonempty(lines)[i] == rest[i]);
                }
            }
        }
    }
}

/// Each line filled up with spaces to `width` characters.
pub open spec fn pad_lines(lines: Seq<Seq<char>>, width: int) -> Seq<Seq<char>> {
    lines.map_values(|l: Seq<char>| l + Seq::new((width - l.len()) as nat, |i: int| ' '))
}

/// Writing a template text back.
///
/// Reading a template text and writing its template back as ASCII art gives the
/// text's lines that are not empty, each filled up with spaces to the longest,
/// one per line: the text itself up to spaces at the end of short lines, a
/// carriage return before each newline, empty lines and a final newline.
pub proof fn lemma_ascii_round_trip(s: Seq<char>)
    requires
        ascii_error(s) is None,
    ensures
        ({
            let lines = template_lines(s);
            let w = max_len(lines) as int;
            let h = lines.len() as int;
            ascii_of(unpadded(padded(ascii_tiles(lines, w), w, h), w, h), w as nat, h as nat)
                == join_lines(pad_lines(lines, w))
        }),
{
    let lines = template_lines(s);
    let w = max_len(lines) as int;
    let h = lines.len() as int;
    let tiles = ascii_tiles(lines, w);
    lemma_max_len(lines);
    lemma_nonempty(crate::text::text_lines(s));
    assert(lines[0].len() > 0);
    lemma_unpad_padded(tiles, w, h);
    let rows = crate::engine::ascii_rows(tiles, w as nat, h as nat);
    let padded_lines = pad_lines(lines, w);
    assert forall|y: int| 0 <= y < h implies #[trigger] rows[y] =~= padded_lines[y] by {
        assert forall|x: int| 0 <= x < w implies rows[y][x] == padded_lines[y][x] by {
            lemma_index_in_grid(w, h, x, y);
            lemma_cell_index(y * w + x, w, x, y);
            let l = lines[y];
            if x < l.len() {
                assert(tile_of_char(l[x]) is Some);
                assert(char_of(tile_of_char(l[x])->0) == l[x]);
            }
        }
    }
    assert(rows =~= padded_lines);
}

/// The fields of each line of a numeric template text.
pub open spec fn csv_rows(s: Seq<char>) -> Seq<Seq<Seq<char>>> {
    template_lines(s).map_values(|l: Seq<char>| split_fields(l))
}

/// Whether some field of the rows fails to read with the error `e`.
pub open spec fn some_field_fails(rows: Seq<Seq<Seq<char>>>, e: TemplateError) -> bool {
    exists|i: int, j: int|
        0 <= i < rows.len() && 0 <= j < rows[i].len() && code_of(#[trigger] rows[i][j]) == Err::<
            Tile,
            TemplateError,
        >(e)
}

/// The error that a numeric template text meets first, if any.
pub open spec fn csv_error(s: Seq<char>) -> Option<TemplateError> {
    let rows = csv_rows(s);
    if some_field_fails(rows, TemplateError::MalformedNumber) {
        Some(TemplateError::MalformedNumber)
    } else if some_field_fails(rows, TemplateError::UnknownSymbol) {
        Some(TemplateError::UnknownSymbol)
    } else if rows.len() == 0 {
        Some(TemplateError::Empty)
    } else if exists|i: int| 0 <= i < rows.len() && #[trigger] rows[i].len() != rows[0].len() {
        Some(TemplateError::DimensionMismatch)
    } else if !fits(rows[0].len() as int, rows.len() as int) {
        Some(TemplateError::TooLarge)
    } else {
        None
    }
}

/// The tiles of the fields of a numeric template's rows, `width` fields each,
/// row by row.
pub open spec fn csv_tiles(rows: Seq<Seq<Seq<char>>>, width: int) -> Seq<Tile> {
    Seq::new((rows.len() * width) as nat, |k: int| code_of(rows[k / width][k % width])->Ok_0)
}

/// Reading on past a newline ends the open line.
proof fn lemma_split_newline(s: Seq<char>)
    ensures
        split_state(s.push('\n')) == (split_state(s).0.push(strip_cr(split_state(s).1)), Seq::<
            char,
        >::empty()),
{
    assert(s.push('\n').drop_last() =~= s);
}

/// Reading on through characters that are no newline adds them to the open line.
proof fn lemma_split_append(s: Seq<char>, t: Seq<char>)
    requires
        forall|i: int| 0 <= i < t.len() ==> t[i] != '\n',
    ensures
        split_state(s + t) == (split_state(s).0, split_state(s).1 + t),
    decreases t.len(),
{
    if t.len() == 0 {
        assert(s + t =~= s);
        assert(split_state(s).1 + t =~= split_state(s).1);
    } else {
        let u = t.drop_last();
        lemma_split_append(s, u);
        assert((s + t).drop_last() =~= s + u);
        assert(split_state(s).1 + u.push(t.last()) =~= split_state(s).1 + t);
        assert(u.push(t.last()) =~= t);
    }
}

/// Lines without newlines or carriage returns, put together with newlines, are
/// read back as the same lines.
proof fn lemma_split_join(lines: Seq<Seq<char>>)
    requires
        lines.len() >= 1,
        forall|i: int, j: int|
            0 <= i < lines.len() && 0 <= j < lines[i].len() ==> #[trigger] lines[i][j] != '\n'
                && lines[i][j] != '\r',
    ensures
        split_state(join_lines(lines)) == (lines.drop_last(), lines.last()),
    decreases lines.len(),
{
    if lines.len() == 1 {
        lemma_split_append(Seq::empty(), lines[0]);
        assert(Seq::<char>::empty() + lines[0] =~= lines[0]);
        assert(lines.drop_last() =~= Seq::<Seq<char>>::empty());
    } else {
        let init = lines.drop_last();
        lemma_split_join(init);
        let head = join_lines(init);
        lemma_split_newline(head);
        assert(head + seq!['\n'] =~= head.push('\n'));
        lemma_split_append(head.push('\n'), lines.last());
        assert(init.last() == lines[lines.len() - 2]);
        assert(strip_cr(init.last()) == init.last());
        assert(init.drop_last().push(init.last()) =~= init);
        assert(Seq::<char>::empty() + lines.last() =~= lines.last());
    }
}

/// Lines that are all non-empty are all kept.
proof fn lemma_nonempty_keeps(lines: Seq<Seq<char>>)
    requires
        forall|i: int| 0 <= i < lines.len() ==> #[trigger] lines[i].len() > 0,
    ensures
        nonempty(lines) == lines,
    decreases lines.len(),
{
    if lines.len() > 0 {
        lemma_nonempty_keeps(lines.drop_last());
        assert(lines.drop_last().push(lines.last()) =~= lines);
    }
}

/// Lines all `w` long have the longest length `w`.
proof fn lemma_max_len_equal(lines: Seq<Seq<char>>, w: nat)
    requires
        lines.len() >= 1,
        forall|i: int| 0 <= i < lines.len() ==> #[trigger] lines[i].len() == w,
    ensures
        max_len(lines) == w,
    decreases lines.len(),
{
    let init = lines.drop_last();
    if lines.len() > 1 {
        assert forall|i: int| 0 <= i < init.len() implies #[trigger] init[i].len() == w by {
            assert(init[i] == lines[i]);
        }
        lemma_max_len_equal(init, w);
    } else {
        assert(init.len() == 0);
        assert(max_len(init) == 0);
    }
}

/// A rectangular template text comes back unchanged.
///
/// A text of rows of tile characters, all equally long, one per line, reads as
/// a template, and writing that template back as ASCII art gives the text.
pub proof fn lemma_ascii_round_trip_exact(lines: Seq<Seq<char>>, w: nat)
    requires
        lines.len() >= 1,
        w >= 1,
        forall|i: int| 0 <= i < lines.len() ==> #[trigger] lines[i].len() == w,
        forall|i: int, j: int|
            0 <= i < lines.len() && 0 <= j < lines[i].len() ==> tile_of_char(#[trigger] lines[i][j]) is Some,
        fits(w as int, lines.len() as int),
    ensures
        ({
            let s = join_lines(lines);
            let h = lines.len() as int;
            &&& ascii_error(s) is None
            &&& template_lines(s) == lines
            &&& ascii_of(
                unpadded(padded(ascii_tiles(template_lines(s), w as int), w as int, h), w as int, h),
                w,
                h as nat,
            ) == s
        }),
{
    let s = join_lines(lines);
    assert forall|i: int, j: int|
        0 <= i < lines.len() && 0 <= j < lines[i].len() implies #[trigger] lines[i][j] != '\n'
            && lines[i][j] != '\r' by {
        assert(tile_of_char(lines[i][j]) is Some);
    }
    lemma_split_join(lines);
    assert(text_lines(s) =~= lines);
    lemma_nonempty_keeps(lines);
    lemma_max_len_equal(lines, w);
    lemma_ascii_round_trip(s);
    assert forall|i: int| 0 <= i < lines.len() implies #[trigger] pad_lines(lines, w as int)[i]
        == lines[i] by {
        assert(lines[i] + Seq::new((w - lines[i].len()) as nat, |k: int| ' ') =~= lines[i]);
    }
    assert(pad_lines(lines, w as int) =~= lines);
}

impl Generator {
    /// Use an ASCII art template, one row per line, with the characters of
    /// [`Tile`]. Empty lines are skipped, and shorter lines are filled up with
    /// empty tiles to the longest.
    ///
    /// Fails on a character that stands for no tile, on a text without rows, and
    /// on a template too large for the solver.
    pub fn from_ascii(ascii: &str) -> (r: Result<Generator, TemplateError>)
        ensures
            match ascii_error(ascii@) {
                Some(e) => r == Err::<Generator, TemplateError>(e),
                None => {
                    let lines = template_lines(ascii@);
                    let w = max_len(lines);
                    let h = lines.len();
                    &&& r is Ok
                    &&& r->Ok_0.wf()
                    &&& r->Ok_0@.width == w
                    &&& r->Ok_0@.height == h
                    &&& r->Ok_0@.grid == padded(ascii_tiles(lines, w as int), w as int, h as int)
                },
            },
    {
        let lines = split_template_lines(ascii);
        let ghost ls = template_lines(ascii@);
        assert(lines@.len() == ls.len());
        assert(forall|a: int| 0 <= a < ls.len() ==> #[trigger] lines@[a]@ == ls[a]);
        let mut i: usize = 0;
        while i < lines.len()
            invariant
                lines_view(lines@) == ls,
                ls == template_lines(ascii@),
                lines@.len() == ls.len(),
                forall|a: int| 0 <= a < ls.len() ==> #[trigger] lines@[a]@ == ls[a],
                0 <= i <= lines@.len(),
                forall|a: int, b: int|
                    0 <= a < i && 0 <= b < ls[a].len() ==> tile_of_char(#[trigger] ls[a][b]) is Some,
            decreases lines@.len() - i,
        {
            let mut j: usize = 0;
            while j < lines[i].len()
                invariant
                    lines_view(lines@) == ls,
                ls == template_lines(ascii@),
                lines@.len() == ls.len(),
                forall|a: int| 0 <= a < ls.len() ==> #[trigger] lines@[a]@ == ls[a],
                    0 <= i < lines@.len(),
                    0 <= j <= ls[i as int].len(),
                    forall|a: int, b: int|
                        0 <= a < i && 0 <= b < ls[a].len() ==> tile_of_char(#[trigger] ls[a][b]) is Some,
                    forall|b: int| 0 <= b < j ==> tile_of_char(#[trigger] ls[i as int][b]) is Some,
                decreases ls[i as int].len() - j,
            {
                if Tile::try_from_ascii(lines[i][j]).is_none() {
                    assert(0 <= j < ls[i as int].len());
                    assert(tile_of_char(ls[i as int][j as int]) is None);
                    assert(exists|a: int, b: int|
                        0 <= a < ls.len() && 0 <= b < ls[a].len() && tile_of_char(#[trigger] ls[a][b]) is None);
                    return Err(TemplateError::UnknownSymbol);
                }
                j = j + 1;
            }
            i = i + 1;
        }
        if lines.len() == 0 {
            return Err(TemplateError::Empty);
        }
        let mut width: usize = 0;
        let mut i: usize = 0;
        while i < lines.len()
            invariant
                lines_view(lines@) == ls,
                ls == template_lines(ascii@),
                lines@.len() == ls.len(),
                forall|a: int| 0 <= a < ls.len() ==> #[trigger] lines@[a]@ == ls[a],
                0 <= i <= lines@.len(),
                width == max_len(ls.take(i as int)),
            decreases lines@.len() - i,
        {
            proof {
                assert(ls.take(i as int + 1).drop_last() =~= ls.take(i as int));
            }
            if lines[i].len() > width {
                width = lines[i].len();
            }
            i = i + 1;
        }
        let height = lines.len();
        proof {
            assert(ls.take(height as int) =~= ls);
            lemma_max_len(ls);
            lemma_nonempty(crate::text::text_lines(ascii@));
        }
        if !fits_exec(width as u64, height as u64) {
            return Err(TemplateError::TooLarge);
        }
        proof {
            lemma_fits(width as int, height as int);
            assert(ls[0].len() > 0);
        }
        let ghost target = ascii_tiles(ls, width as int);
        let mut tiles: Vec<Tile> = Vec::new();
        let mut y: usize = 0;
        while y < height
            invariant
                lines_view(lines@) == ls,
                ls == template_lines(ascii@),
                lines@.len() == ls.len(),
                forall|a: int| 0 <= a < ls.len() ==> #[trigger] lines@[a]@ == ls[a],
                height == ls.len(),
                0 < width,
                width * height <= MAX_CELLS,
                forall|a: int, b: int|
                    0 <= a < ls.len() && 0 <= b < ls[a].len() ==> tile_of_char(#[trigger] ls[a][b]) is Some,
                target == ascii_tiles(ls, width as int),
                0 <= y <= height,
                tiles@.len() == y * width,
                forall|k: int| 0 <= k < tiles@.len() ==> tiles@[k] == target[k],
                forall|k: int| 0 <= k < tiles@.len() ==> tiles@[k] != Tile::Edge,
            decreases height - y,
        {
            let mut x: usize = 0;
            while x < width
                invariant
                    lines_view(lines@) == ls,
                ls == template_lines(ascii@),
                lines@.len() == ls.len(),
                forall|a: int| 0 <= a < ls.len() ==> #[trigger] lines@[a]@ == ls[a],
                    height == ls.len(),
                    0 < width,
                    width * height <= MAX_CELLS,
                    forall|a: int, b: int|
                        0 <= a < ls.len() && 0 <= b < ls[a].len() ==> tile_of_char(#[trigger] ls[a][b]) is Some,
                    target == ascii_tiles(ls, width as int),
                    0 <= y < height,
                    0 <= x <= width,
                    tiles@.len() == y * width + x,
                    forall|k: int| 0 <= k < tiles@.len() ==> tiles@[k] == target[k],
                    forall|k: int| 0 <= k < tiles@.len() ==> tiles@[k] != Tile::Edge,
                decreases width - x,
            {
                proof {
                    lemma_index_in_grid(width as int, height as int, x as int, y as int);
                    lemma_cell_index(tiles@.len() as int, width as int, x as int, y as int);
                    assert(height * width == width * height) by (nonlinear_arith);
                }
                if x < lines[y].len() {
                    tiles.push(Tile::from_ascii(lines[y][x]));
                } else {
                    tiles.push(Tile::Empty);
                }
                x = x + 1;
            }
            assert((y + 1) * width == y * width + width) by (nonlinear_arith);
            y = y + 1;
        }
        proof {
            assert(height * width == width * height) by (nonlinear_arith);
            assert(tiles@ =~= target);
            assert(!tiles@.contains(Tile::Edge));
        }
        Self::from_array(width as u32, height as u32, tiles.as_slice())
    }

    /// Use a template of numeric codes: one row per line, the codes separated by
    /// commas. Empty lines are skipped.
    ///
    /// Fails on a field that is not a number from 0 to 255, then on a code that
    /// no tile has, then on a text without rows, on rows of different lengths,
    /// and on a template too large for the solver.
    pub fn from_csv(text: &str) -> (r: Result<Generator, TemplateError>)
        ensures
            match csv_error(text@) {
                Some(e) => r == Err::<Generator, TemplateError>(e),
                None => {
                    let rows = csv_rows(text@);
                    let w = rows[0].len();
                    let h = rows.len();
                    &&& r is Ok
                    &&& r->Ok_0.wf()
                    &&& r->Ok_0@.width == w
                    &&& r->Ok_0@.height == h
                    &&& r->Ok_0@.grid == padded(csv_tiles(rows, w as int), w as int, h as int)
                },
            },
    {
        let lines = split_template_lines(text);
        let ghost ls = template_lines(text@);
        let ghost rows = csv_rows(text@);
        assert(lines@.len() == ls.len());
        assert(forall|a: int| 0 <= a < ls.len() ==> #[trigger] lines@[a]@ == ls[a]);
        let mut codes: Vec<Vec<Tile>> = Vec::new();
        let mut malformed = false;
        let mut unknown = false;
        let mut i: usize = 0;
        while i < lines.len()
            invariant
                ls == template_lines(text@),
                rows == csv_rows(text@),
                lines@.len() == ls.len(),
                forall|a: int| 0 <= a < ls.len() ==> #[trigger] lines@[a]@ == ls[a],
                0 <= i <= lines@.len(),
                codes@.len() == i,
                forall|a: int| 0 <= a < i ==> #[trigger] codes@[a]@.len() == rows[a].len(),
                forall|a: int, b: int|
                    0 <= a < i && 0 <= b < rows[a].len() ==> (code_of(#[trigger] rows[a][b]) is Ok
                        ==> codes@[a]@[b] == code_of(rows[a][b])->Ok_0),
                forall|a: int, b: int|
                    0 <= a < i && 0 <= b < rows[a].len() ==> codes@[a]@[b] != Tile::Edge,
                malformed == exists|a: int, b: int|
                    0 <= a < i && 0 <= b < rows[a].len() && code_of(#[trigger] rows[a][b])
                        == Err::<Tile, TemplateError>(TemplateError::MalformedNumber),
                unknown == exists|a: int, b: int|
                    0 <= a < i && 0 <= b < rows[a].len() && code_of(#[trigger] rows[a][b])
                        == Err::<Tile, TemplateError>(TemplateError::UnknownSymbol),
            decreases lines@.len() - i,
        {
            let fields = split_line_fields(&lines[i]);
            let ghost f = rows[i as int];
            assert(f == split_fields(ls[i as int]));
            assert(fields@.len() == f.len());
            assert(forall|b: int| 0 <= b < f.len() ==> #[trigger] fields@[b]@ == f[b]);
            let mut row: Vec<Tile> = Vec::new();
            let mut j: usize = 0;
            while j < fields.len()
                invariant
                    rows == csv_rows(text@),
                    0 <= i < lines@.len(),
                    lines@.len() == rows.len(),
                    f == rows[i as int],
                    fields@.len() == f.len(),
                    forall|b: int| 0 <= b < f.len() ==> #[trigger] fields@[b]@ == f[b],
                    0 <= j <= f.len(),
                    row@.len() == j,
                    forall|b: int|
                        0 <= b < j ==> (code_of(#[trigger] f[b]) is Ok ==> row@[b] == code_of(
                            f[b],
                        )->Ok_0),
                    forall|b: int| 0 <= b < j ==> row@[b] != Tile::Edge,
                    malformed == ((exists|a: int, b: int|
                        0 <= a < i && 0 <= b < rows[a].len() && code_of(#[trigger] rows[a][b])
                            == Err::<Tile, TemplateError>(TemplateError::MalformedNumber)) || (exists|
                        b: int,
                    |
                        0 <= b < j && code_of(#[trigger] f[b]) == Err::<Tile, TemplateError>(
                            TemplateError::MalformedNumber,
                        ))),
                    unknown == ((exists|a: int, b: int|
                        0 <= a < i && 0 <= b < rows[a].len() && code_of(#[trigger] rows[a][b])
                            == Err::<Tile, TemplateError>(TemplateError::UnknownSymbol)) || (exists|
                        b: int,
                    |
                        0 <= b < j && code_of(#[trigger] f[b]) == Err::<Tile, TemplateError>(
                            TemplateError::UnknownSymbol,
                        ))),
                decreases f.len() - j,
            {
                match Tile::parse_code(&fields[j]) {
                    Ok(t) => {
                        row.push(t);
                    },
                    Err(TemplateError::MalformedNumber) => {
                        malformed = true;
                        row.push(Tile::Empty);
                    },
                    Err(_) => {
                        unknown = true;
                        row.push(Tile::Empty);
                    },
                }
                j = j + 1;
            }
            codes.push(row);
            proof {
                assert forall|a: int, b: int|
                    0 <= a < i + 1 && 0 <= b < rows[a].len() && code_of(#[trigger] rows[a][b])
                        == Err::<Tile, TemplateError>(TemplateError::MalformedNumber) implies malformed by {
                    if a == i {
                        assert(code_of(f[b]) == Err::<Tile, TemplateError>(TemplateError::MalformedNumber));
                    }
                }
                assert forall|a: int, b: int|
                    0 <= a < i + 1 && 0 <= b < rows[a].len() && code_of(#[trigger] rows[a][b])
                        == Err::<Tile, TemplateError>(TemplateError::UnknownSymbol) implies unknown by {
                    if a == i {
                        assert(code_of(f[b]) == Err::<Tile, TemplateError>(TemplateError::UnknownSymbol));
                    }
                }
            }
            i = i + 1;
        }
        if malformed {
            return Err(TemplateError::MalformedNumber);
        }
        if unknown {
            return Err(TemplateError::UnknownSymbol);
        }
        if lines.len() == 0 {
            return Err(TemplateError::Empty);
        }
        let width = codes[0].len();
        let height = codes.len();
        proof {
            assert(!some_field_fails(rows, TemplateError::MalformedNumber));
            assert(!some_field_fails(rows, TemplateError::UnknownSymbol));
        }
        let mut i: usize = 0;
        while i < height
            invariant
                rows == csv_rows(text@),
                !some_field_fails(rows, TemplateError::MalformedNumber),
                !some_field_fails(rows, TemplateError::UnknownSymbol),
                codes@.len() == rows.len(),
                height == rows.len(),
                0 < height,
                width == rows[0].len(),
                forall|a: int| 0 <= a < height ==> #[trigger] codes@[a]@.len() == rows[a].len(),
                0 <= i <= height,
                forall|a: int| 0 <= a < i ==> #[trigger] rows[a].len() == width,
            decreases height - i,
        {
            if codes[i].len() != width {
                assert(rows[i as int].len() != rows[0].len());
                return Err(TemplateError::DimensionMismatch);
            }
            i = i + 1;
        }
        if !fits_exec(width as u64, height as u64) {
            return Err(TemplateError::TooLarge);
        }
        proof {
            lemma_fits(width as int, height as int);
            assert forall|a: int, b: int|
                0 <= a < height && 0 <= b < rows[a].len() implies code_of(#[trigger] rows[a][b]) is Ok by {
                if code_of(rows[a][b]) == Err::<Tile, TemplateError>(TemplateError::MalformedNumber) {
                    assert(some_field_fails(rows, TemplateError::MalformedNumber));
                }
                if code_of(rows[a][b]) == Err::<Tile, TemplateError>(TemplateError::UnknownSymbol) {
                    assert(some_field_fails(rows, TemplateError::UnknownSymbol));
                }
            }
        }
        let ghost target = csv_tiles(rows, width as int);
        let mut tiles: Vec<Tile> = Vec::new();
        let mut y: usize = 0;
        while y < height
            invariant
                rows == csv_rows(text@),
                codes@.len() == rows.len(),
                height == rows.len(),
                width * height <= MAX_CELLS,
                forall|a: int| 0 <= a < height ==> #[trigger] codes@[a]@.len() == width,
                forall|a: int| 0 <= a < height ==> #[trigger] rows[a].len() == width,
                forall|a: int, b: int|
                    0 <= a < height && 0 <= b < rows[a].len() ==> (code_of(#[trigger] rows[a][b]) is Ok
                        ==> codes@[a]@[b] == code_of(rows[a][b])->Ok_0),
                forall|a: int, b: int|
                    0 <= a < height && 0 <= b < rows[a].len() ==> codes@[a]@[b] != Tile::Edge,
                forall|a: int, b: int|
                    0 <= a < height && 0 <= b < rows[a].len() ==> code_of(#[trigger] rows[a][b]) is Ok,
                target == csv_tiles(rows, width as int),
                0 <= y <= height,
                tiles@.len() == y * width,
                forall|k: int| 0 <= k < tiles@.len() ==> tiles@[k] == target[k],
                forall|k: int| 0 <= k < tiles@.len() ==> tiles@[k] != Tile::Edge,
            decreases height - y,
        {
            let mut x: usize = 0;
            while x < width
                invariant
                    rows == csv_rows(text@),
                    codes@.len() == rows.len(),
                    height == rows.len(),
                    width * height <= MAX_CELLS,
                    forall|a: int| 0 <= a < height ==> #[trigger] codes@[a]@.len() == width,
                    forall|a: int| 0 <= a < height ==> #[trigger] rows[a].len() == width,
                    forall|a: int, b: int|
                        0 <= a < height && 0 <= b < rows[a].len() ==> (code_of(#[trigger] rows[a][b])
                            is Ok ==> codes@[a]@[b] == code_of(rows[a][b])->Ok_0),
                    forall|a: int, b: int|
                        0 <= a < height && 0 <= b < rows[a].len() ==> codes@[a]@[b] != Tile::Edge,
                    forall|a: int, b: int|
                        0 <= a < height && 0 <= b < rows[a].len() ==> code_of(#[trigger] rows[a][b]) is Ok,
                    target == csv_tiles(rows, width as int),
                    0 <= y < height,
                    0 <= x <= width,
                    tiles@.len() == y * width + x,
                    forall|k: int| 0 <= k < tiles@.len() ==> tiles@[k] == target[k],
                    forall|k: int| 0 <= k < tiles@.len() ==> tiles@[k] != Tile::Edge,
                decreases width - x,
            {
                proof {
                    lemma_index_in_grid(width as int, height as int, x as int, y as int);
                    lemma_cell_index(tiles@.len() as int, width as int, x as int, y as int);
                    assert(height * width == width * height) by (nonlinear_arith);
                    assert(code_of(rows[y as int][x as int]) is Ok);
                }
                tiles.push(codes[y][x]);
                x = x + 1;
            }
            assert((y + 1) * width == y * width + width) by (nonlinear_arith);
            y = y + 1;
        }
        proof {
            assert(height * width == width * height) by (nonlinear_arith);
            assert(tiles@ =~= target);
            assert(!tiles@.contains(Tile::Edge));
        }
        Self::from_array(width as u32, height as u32, tiles.as_slice())
    }
}

} // verus!
