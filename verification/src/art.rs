//! The arcade art as cells: which glyphs of the arm template are revealed
//! for a progress count, the placeholders of the rest, the closing line for
//! each stage, and which barrel rows of the syringe are still full. Turning
//! a progress fraction into counts, and cells into colours, is the front-end's.
use vstd::prelude::*;

use crate::text::{char_is_ws, chars_of, is_ws};

verus! {

/// Number of rows in the arm template.
pub const ARM_ROWS: usize = 10;

/// Row `i` of the arm template (a forearm and fist, then a caption).
pub open spec fn arm_row(i: int) -> Seq<char> {
    if i == 0 {
        "          .--.  "@
    } else 
    if i == 1 {
        "      .--|    | "@
    } else 
    if i == 2 {
        "  .--|  |    | "@
    } else 
    if i == 3 {
        " |  |   |    | "@
    } else 
    if i == 4 {
        " |  |   |    | "@
    } else 
    if i == 5 {
        " |  |   |    | "@
    } else 
    if i == 6 {
        "  '--|  |    | "@
    } else 
    if i == 7 {
        "      '--|    | "@
    } else 
    if i == 8 {
        "          '--'  "@
    } else {
        "    VEINS WRITING\u{2026}"@
    }
}

fn arm_row_exec(i: usize) -> (r: &'static str)
    requires
        i < ARM_ROWS,
    ensures
        r@ == arm_row(i as int),
{
    if i == 0 {
        "          .--.  "
    } else 
    if i == 1 {
        "      .--|    | "
    } else 
    if i == 2 {
        "  .--|  |    | "
    } else 
    if i == 3 {
        " |  |   |    | "
    } else 
    if i == 4 {
        " |  |   |    | "
    } else 
    if i == 5 {
        " |  |   |    | "
    } else 
    if i == 6 {
        "  '--|  |    | "
    } else 
    if i == 7 {
        "      '--|    | "
    } else 
    if i == 8 {
        "          '--'  "
    } else {
        "    VEINS WRITING\u{2026}"
    }
}

proof fn lemma_arm_row_len(i: int)
    requires
        0 <= i < ARM_ROWS,
    ensures
        arm_row(i).len() <= 20,
{
    reveal_strlit("          .--.  ");
    reveal_strlit("      .--|    | ");
    reveal_strlit("  .--|  |    | ");
    reveal_strlit(" |  |   |    | ");
    reveal_strlit(" |  |   |    | ");
    reveal_strlit(" |  |   |    | ");
    reveal_strlit("  '--|  |    | ");
    reveal_strlit("      '--|    | ");
    reveal_strlit("          '--'  ");
    reveal_strlit("    VEINS WRITING\u{2026}");
}

/// One cell of the drawn art.
#[derive(Debug, Clone, Copy, PartialEq, Eq, Structural)]
pub enum ArtCell {
    /// A template glyph already revealed.
    Glyph(char),
    /// The dim stand-in for a glyph not revealed yet.
    Placeholder(char),
    /// Whitespace of the template, drawn as it is.
    Blank(char),
}

/// How many glyphs (characters that are not whitespace) `s` holds.
pub open spec fn count_glyphs(s: Seq<char>) -> nat
    decreases s.len(),
{
    if s.len() == 0 {
        0
    } else {
        count_glyphs(s.drop_last()) + if is_ws(s.last()) {
            0nat
        } else {
            1nat
        }
    }
}

proof fn lemma_count_glyphs_len(s: Seq<char>)
    ensures
        count_glyphs(s) <= s.len(),
    decreases s.len(),
{
    if s.len() > 0 {
        lemma_count_glyphs_len(s.drop_last());
    }
}

/// How many glyphs the template rows before row `i` hold.
pub open spec fn glyphs_before_row(i: nat) -> nat
    decreases i,
{
    if i == 0 {
        0
    } else {
        glyphs_before_row((i - 1) as nat) + count_glyphs(arm_row(i - 1))
    }
}

proof fn lemma_glyphs_before_row_bound(i: nat)
    requires
        i <= ARM_ROWS,
    ensures
        glyphs_before_row(i) <= 20 * i,
    decreases i,
{
    if i > 0 {
        lemma_glyphs_before_row_bound((i - 1) as nat);
        lemma_arm_row_len(i - 1);
        lemma_count_glyphs_len(arm_row(i - 1));
    }
}

/// The place of the glyph at row `i`, column `j` in reading order (row by
/// row, left to right), counting glyphs only.
pub open spec fn glyph_index(i: int, j: int) -> nat {
    glyphs_before_row(i as nat) + count_glyphs(arm_row(i).take(j))
}

/// The stand-in for a glyph not revealed yet: a dim dot for the outline
/// characters `.`, `'`, `-` and `|`, a blank for the letters.
pub open spec fn placeholder(c: char) -> char {
    if c == '.' || c == '\'' || c == '-' || c == '|' {
        '\u{b7}'
    } else {
        ' '
    }
}

/// The cell at row `i`, column `j` of the arm when `reveal` glyphs are shown:
/// whitespace as it is; a glyph itself when fewer than `reveal` glyphs come
/// before it in reading order; its placeholder otherwise.
pub open spec fn arm_cell(i: int, j: int, reveal: nat) -> ArtCell {
    let c = arm_row(i)[j];
    if is_ws(c) {
        ArtCell::Blank(c)
    } else if glyph_index(i, j) < reveal {
        ArtCell::Glyph(c)
    } else {
        ArtCell::Placeholder(placeholder(c))
    }
}

pub open spec fn cell_rows(rows: Seq<Vec<ArtCell>>) -> Seq<Seq<ArtCell>> {
    rows.map_values(|r: Vec<ArtCell>| r@)
}

/// The arm template as cells, with the first `reveal` glyphs (in reading
/// order) revealed: the arm "writes itself" as `reveal` grows.
pub fn arm_cells(reveal: usize) -> (r: Vec<Vec<ArtCell>>)
    ensures
        r@.len() == ARM_ROWS,
        forall|i: int| 0 <= i < ARM_ROWS ==> (#[trigger] cell_rows(r@)[i]).len() == arm_row(i).len(),
        forall|i: int, j: int|
            0 <= i < ARM_ROWS && 0 <= j < arm_row(i).len() ==> #[trigger] cell_rows(r@)[i][j]
                == arm_cell(i, j, reveal as nat),
{
    let mut rows: Vec<Vec<ArtCell>> = Vec::new();
    let mut seen: u64 = 0;
    let mut i: usize = 0;
    while i < ARM_ROWS
        invariant
            i <= ARM_ROWS,
            rows@.len() == i,
            seen == glyphs_before_row(i as nat),
            seen <= 20 * i,
            forall|a: int| 0 <= a < i ==> (#[trigger] cell_rows(rows@)[a]).len() == arm_row(a).len(),
            forall|a: int, b: int|
                0 <= a < i && 0 <= b < arm_row(a).len() ==> #[trigger] cell_rows(rows@)[a][b]
                    == arm_cell(a, b, reveal as nat),
        decreases ARM_ROWS - i,
    {
        let v = chars_of(arm_row_exec(i));
        proof {
            lemma_arm_row_len(i as int);
        }
        let mut cells: Vec<ArtCell> = Vec::new();
        let mut j: usize = 0;
        while j < v.len()
            invariant
                i < ARM_ROWS,
                v@ == arm_row(i as int),
                v@.len() <= 20,
                j <= v.len(),
                cells@.len() == j,
                seen == glyphs_before_row(i as nat) + count_glyphs(v@.take(j as int)),
                seen <= 20 * i + j,
                forall|b: int| 0 <= b < j ==> cells@[b] == arm_cell(i as int, b, reveal as nat),
            decreases v.len() - j,
        {
            let c = v[j];
            assert(v@.take(j + 1).drop_last() == v@.take(j as int));
            assert(v@.take(j + 1).last() == c);
            let ws = char_is_ws(c);
            let cell = if ws {
                ArtCell::Blank(c)
            } else if (seen as usize) < reveal {
                ArtCell::Glyph(c)
            } else if c == '.' || c == '\'' || c == '-' || c == '|' {
                ArtCell::Placeholder('\u{b7}')
            } else {
                ArtCell::Placeholder(' ')
            };
            assert(arm_row(i as int)[j as int] == c);
            assert(glyph_index(i as int, j as int) == seen);
            assert(cell == arm_cell(i as int, j as int, reveal as nat));
            cells.push(cell);
            if !ws {
                seen = seen + 1;
            }
            j += 1;
        }
        assert(v@.take(v.len() as int) == v@);
        let ghost before = rows@;
        rows.push(cells);
        assert(cell_rows(rows@) == cell_rows(before).push(cells@));
        i += 1;
    }
    rows
}

/// How many glyphs the whole arm template holds: the count at which it is
/// fully revealed.
pub fn arm_glyph_count() -> (n: usize)
    ensures
        n == glyphs_before_row(ARM_ROWS as nat),
{
    let mut seen: u64 = 0;
    let mut i: usize = 0;
    while i < ARM_ROWS
        invariant
            i <= ARM_ROWS,
            seen == glyphs_before_row(i as nat),
            seen <= 20 * i,
        decreases ARM_ROWS - i,
    {
        let v = chars_of(arm_row_exec(i));
        proof {
            lemma_arm_row_len(i as int);
        }
        let mut j: usize = 0;
        while j < v.len()
            invariant
                i < ARM_ROWS,
                v@ == arm_row(i as int),
                v@.len() <= 20,
                j <= v.len(),
                seen == glyphs_before_row(i as nat) + count_glyphs(v@.take(j as int)),
                seen <= 20 * i + j,
            decreases v.len() - j,
        {
            assert(v@.take(j + 1).drop_last() == v@.take(j as int));
            assert(v@.take(j + 1).last() == v@[j as int]);
            if !char_is_ws(v[j]) {
                seen = seen + 1;
            }
            j += 1;
        }
        assert(v@.take(v.len() as int) == v@);
        i += 1;
    }
    seen as usize
}

/// A glyph once revealed stays revealed as the count grows.
pub proof fn lemma_arm_reveal_monotone(i: int, j: int, r1: nat, r2: nat)
    requires
        r1 <= r2,
        arm_cell(i, j, r1) is Glyph,
    ensures
        arm_cell(i, j, r2) == arm_cell(i, j, r1),
{
}

/// Where the injection stands: nothing yet, under way, or done.
#[derive(Debug, Clone, Copy, PartialEq, Eq, Structural)]
pub enum ArmStage {
    Waiting,
    Injecting,
    Clear,
}

pub open spec fn arm_footer_spec(stage: ArmStage) -> Seq<char> {
    match stage {
        ArmStage::Waiting => "  waiting for juice\u{2026}"@,
        ArmStage::Injecting => "  injecting\u{2026}"@,
        ArmStage::Clear => "  \u{2605}\u{2605} LEVEL CLEAR \u{2014} HIT LOADED \u{2605}\u{2605}"@,
    }
}

/// The line under the arm for each stage.
pub fn arm_footer(stage: ArmStage) -> (r: &'static str)
    ensures
        r@ == arm_footer_spec(stage),
{
    match stage {
        ArmStage::Waiting => "  waiting for juice\u{2026}",
        ArmStage::Injecting => "  injecting\u{2026}",
        ArmStage::Clear => "  \u{2605}\u{2605} LEVEL CLEAR \u{2014} HIT LOADED \u{2605}\u{2605}",
    }
}

/// Which rows of a syringe barrel of `rows` rows (top first) are still full
/// when `filled` rows of fluid are left: the bottom `filled` ones.
pub fn barrel_rows(rows: usize, filled: usize) -> (r: Vec<bool>)
    ensures
        r@.len() == rows,
        forall|i: int| 0 <= i < rows ==> #[trigger] r@[i] == (rows - 1 - i < filled),
{
    let mut out: Vec<bool> = Vec::new();
    let mut i: usize = 0;
    while i < rows
        invariant
            i <= rows,
            out@.len() == i,
            forall|k: int| 0 <= k < i ==> #[trigger] out@[k] == (rows - 1 - k < filled),
        decreases rows - i,
    {
        out.push(rows - 1 - i < filled);
        i += 1;
    }
    out
}

} // verus!
