//! The border rule: what every generated grid must keep of the template's border.
use vstd::prelude::*;
use crate::catalog::MAX_CELLS;
use crate::grid::{lemma_grid_cell, lemma_index_in_grid, on_ring};

verus! {

/// One cell of an output grid held to exactly one pattern.
#[derive(Debug, Copy, Clone, PartialEq, Eq, Structural)]
pub struct Pin {
    pub x: u32,
    pub y: u32,
    pub pattern_id: u32,
}

/// Ensures that the border of a generated grid looks like the template's.
///
/// The corners and the middle of the top edge are pinned to the patterns found
/// there in the template, and the patterns found anywhere on the template's
/// border are kept out of the inside of the output.
#[derive(Debug, Clone)]
pub struct ForceBorderForbid {
    pub pattern_ids: Vec<u32>,
    pub top_left: u32,
    pub bot_left: u32,
    pub top_right: u32,
    pub bot_right: u32,
    pub top_mid: u32,
}

/// The ids on the border of a `w` x `h` grid of pattern ids: the top and bottom
/// cell of each column in turn, then the left and right cell of each row.
pub open spec fn border_ids(ids: Seq<u32>, w: int, h: int) -> Seq<u32> {
    Seq::new(
        (2 * w + 2 * h) as nat,
        |k: int|
            if k < 2 * w {
                if k % 2 == 0 {
                    ids[k / 2]
                } else {
                    ids[(h - 1) * w + k / 2]
                }
            } else {
                let j = k - 2 * w;
                if j % 2 == 0 {
                    ids[(j / 2) * w]
                } else {
                    ids[(j / 2) * w + w - 1]
                }
            },
    )
}

/// The cells of a `w` x `h` output that the rule pins, with their patterns: the
/// four corners, then the middle of the top edge.
pub open spec fn rule_pins(
    top_left: u32,
    bot_left: u32,
    top_right: u32,
    bot_right: u32,
    top_mid: u32,
    w: int,
    h: int,
) -> Seq<Pin> {
    seq![
        Pin { x: 0, y: 0, pattern_id: top_left },
        Pin { x: 0, y: (h - 1) as u32, pattern_id: bot_left },
        Pin { x: (w - 1) as u32, y: 0, pattern_id: top_right },
        Pin { x: (w - 1) as u32, y: (h - 1) as u32, pattern_id: bot_right },
        Pin { x: (w / 2) as u32, y: 0, pattern_id: top_mid },
    ]
}

/// Whether a `w` x `h` grid of chosen pattern ids keeps each pin, and holds
/// none of the `banned` ids off its outer ring.
pub open spec fn honours(pins: Seq<Pin>, banned: Seq<u32>, chosen: Seq<u32>, w: int, h: int) -> bool {
    &&& forall|p: int| 0 <= p < pins.len() ==> chosen[pins[p].y * w + pins[p].x] == pins[p].pattern_id
    &&& forall|k: int|
        0 <= k < chosen.len() && !on_ring(k % w, k / w, w, h) ==> !banned.contains(
            #[trigger] chosen[k],
        )
}

/// Whether `(x, y)` lies on the outer ring of a grid `width` wide and `height` high.
pub fn coord_is_edge(x: u32, y: u32, width: u32, height: u32) -> (r: bool)
    ensures
        r == on_ring(x as int, y as int, width as int, height as int),
{
    x == 0 || x as u64 + 1 == width as u64 || y == 0 || y as u64 + 1 == height as u64
}

impl ForceBorderForbid {
    /// The cells of a `width` x `height` output that the rule pins: the four
    /// corners, then the middle of the top edge.
    pub fn pins(&self, width: u32, height: u32) -> (r: Vec<Pin>)
        requires
            1 <= width,
            1 <= height,
        ensures
            r@ == rule_pins(
                self.top_left,
                self.bot_left,
                self.top_right,
                self.bot_right,
                self.top_mid,
                width as int,
                height as int,
            ),
    {
        let r = vec![
            Pin { x: 0, y: 0, pattern_id: self.top_left },
            Pin { x: 0, y: height - 1, pattern_id: self.bot_left },
            Pin { x: width - 1, y: 0, pattern_id: self.top_right },
            Pin { x: width - 1, y: height - 1, pattern_id: self.bot_right },
            Pin { x: width / 2, y: 0, pattern_id: self.top_mid },
        ];
        proof {
            assert(r@ =~= rule_pins(
                self.top_left,
                self.bot_left,
                self.top_right,
                self.bot_right,
                self.top_mid,
                width as int,
                height as int,
            ));
        }
        r
    }

    /// Whether a `width` x `height` grid of chosen pattern ids, row by row, keeps
    /// the rule: each pinned cell holds its pattern, and no cell off the outer
    /// ring holds a border pattern.
    pub fn honoured_by(&self, chosen: &Vec<u32>, width: u32, height: u32) -> (r: bool)
        requires
            1 <= width,
            1 <= height,
            chosen@.len() == width * height,
            width * height <= MAX_CELLS,
        ensures
            r == honours(
                rule_pins(
                    self.top_left,
                    self.bot_left,
                    self.top_right,
                    self.bot_right,
                    self.top_mid,
                    width as int,
                    height as int,
                ),
                self.pattern_ids@,
                chosen@,
                width as int,
                height as int,
            ),
    {
        let pins = self.pins(width, height);
        let ghost w = width as int;
        assert(forall|q: int| 0 <= q < pins@.len() ==> pins@[q].x < width && pins@[q].y < height);
        let mut p: usize = 0;
        while p < pins.len()
            invariant
                pins@ == rule_pins(
                    self.top_left,
                    self.bot_left,
                    self.top_right,
                    self.bot_right,
                    self.top_mid,
                    width as int,
                    height as int,
                ),
                w == width,
                chosen@.len() == width * height,
                width * height <= MAX_CELLS,
                forall|q: int| 0 <= q < pins@.len() ==> pins@[q].x < width && pins@[q].y < height,
                1 <= width,
                1 <= height,
                0 <= p <= pins@.len(),
                forall|q: int|
                    0 <= q < p ==> chosen@[pins@[q].y * w + pins@[q].x] == pins@[q].pattern_id,
            decreases pins@.len() - p,
        {
            let pin = pins[p];
            proof {
                lemma_index_in_grid(width as int, height as int, pin.x as int, pin.y as int);
            }
            let i = pin.y as usize * width as usize + pin.x as usize;
            if chosen[i] != pin.pattern_id {
                return false;
            }
            p = p + 1;
        }
        let mut k: usize = 0;
        while k < chosen.len()
            invariant
                w == width,
                chosen@.len() == width * height,
                width * height <= MAX_CELLS,
                1 <= width,
                1 <= height,
                0 <= k <= chosen@.len(),
                forall|j: int|
                    0 <= j < k && !on_ring(j % w, j / w, w, height as int) ==> !self.pattern_ids@.contains(
                        #[trigger] chosen@[j],
                    ),
            decreases chosen@.len() - k,
        {
            proof {
                lemma_grid_cell(k as int, width as int, height as int);
            }
            let x = (k % width as usize) as u32;
            let y = (k / width as usize) as u32;
            if !coord_is_edge(x, y, width, height) {
                let id = chosen[k];
                let mut b: usize = 0;
                while b < self.pattern_ids.len()
                    invariant
                        0 <= b <= self.pattern_ids@.len(),
                        w == width,
                        0 <= k < chosen@.len(),
                        !on_ring(k as int % w, k as int / w, w, height as int),
                        id == chosen@[k as int],
                        forall|c: int| 0 <= c < b ==> self.pattern_ids@[c] != id,
                    decreases self.pattern_ids@.len() - b,
                {
                    if self.pattern_ids[b] == id {
                        assert(self.pattern_ids@.contains(chosen@[k as int]));
                        return false;
                    }
                    b = b + 1;
                }
            }
            k = k + 1;
        }
        true
    }
}

} // verus!
