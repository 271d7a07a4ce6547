use junk_core::art::{arm_cells, arm_footer, arm_glyph_count, barrel_rows, ArmStage, ArtCell};

fn text(rows: &[Vec<ArtCell>]) -> Vec<String> {
    rows.iter()
        .map(|r| {
            r.iter()
                .map(|c| match c {
                    ArtCell::Glyph(c) | ArtCell::Placeholder(c) | ArtCell::Blank(c) => *c,
                })
                .collect()
        })
        .collect()
}

#[test]
fn arm_fully_revealed_is_the_template() {
    let total = arm_glyph_count();
    assert_eq!(total, 55);
    let rows = arm_cells(total);
    assert_eq!(rows.len(), 10);
    assert_eq!(text(&rows)[0], "          .--.  ");
    assert_eq!(text(&rows)[6], "  '--|  |    | ");
    assert_eq!(text(&rows)[9], "    VEINS WRITING…");
    assert!(rows.iter().flatten().all(|c| !matches!(c, ArtCell::Placeholder(_))));
}

#[test]
fn arm_nothing_revealed_shows_placeholders() {
    let rows = arm_cells(0);
    assert_eq!(text(&rows)[0], "          ····  ");
    assert_eq!(text(&rows)[9], "                  ");
    assert!(rows.iter().flatten().all(|c| !matches!(c, ArtCell::Glyph(_))));
}

#[test]
fn arm_writes_itself_in_reading_order() {
    // the first row has 4 glyphs; revealing 5 shows them and the first of row 2
    let rows = arm_cells(5);
    assert_eq!(rows[0][10], ArtCell::Glyph('.'));
    assert_eq!(rows[0][13], ArtCell::Glyph('.'));
    assert_eq!(rows[1][6], ArtCell::Glyph('.'));
    assert_eq!(rows[1][7], ArtCell::Placeholder('·'));
    for k in 0..=55 {
        let a = arm_cells(k);
        let b = arm_cells(k + 1);
        let shown = |rows: &Vec<Vec<ArtCell>>| {
            rows.iter().flatten().filter(|c| matches!(c, ArtCell::Glyph(_))).count()
        };
        assert_eq!(shown(&a), k.min(55));
        for (ra, rb) in a.iter().zip(b.iter()) {
            for (ca, cb) in ra.iter().zip(rb.iter()) {
                if matches!(ca, ArtCell::Glyph(_)) {
                    assert_eq!(ca, cb);
                }
            }
        }
    }
}

#[test]
fn arm_footers() {
    assert_eq!(arm_footer(ArmStage::Waiting), "  waiting for juice…");
    assert_eq!(arm_footer(ArmStage::Injecting), "  injecting…");
    assert_eq!(arm_footer(ArmStage::Clear), "  ★★ LEVEL CLEAR — HIT LOADED ★★");
}

#[test]
fn syringe_barrel_empties_from_the_top() {
    assert_eq!(barrel_rows(8, 8), vec![true; 8]);
    assert_eq!(barrel_rows(8, 0), vec![false; 8]);
    assert_eq!(barrel_rows(6, 2), vec![false, false, false, false, true, true]);
    assert_eq!(barrel_rows(3, 9), vec![true; 3]);
}
