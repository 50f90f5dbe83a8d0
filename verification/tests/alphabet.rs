use write_with_emoji::alphabet::{lookup, Glyph, A, I, M, SPACE};

fn shape(glyph: &Glyph) -> Vec<String> {
    (0..5u32)
        .map(|r| glyph.pattern(r).iter().map(|&b| if b { '#' } else { '.' }).collect())
        .collect()
}

#[test]
fn every_supported_character_has_five_rows_of_one_width() {
    for c in ('A'..='Z').chain('a'..='z').chain([' ']) {
        let glyph = lookup(c).unwrap();
        assert!(1 <= glyph.width && glyph.width <= 6, "{:?}", c);
        for r in 0..5u32 {
            assert_eq!(glyph.pattern(r).len(), glyph.width as usize, "{:?} row {}", c, r);
        }
        assert!(glyph.bits < (1u32 << (5 * glyph.width)), "{:?}", c);
    }
}

#[test]
fn lookup_is_repeatable() {
    for c in ('A'..='Z').chain([' ']) {
        assert_eq!(shape(&lookup(c).unwrap()), shape(&lookup(c).unwrap()));
    }
}

#[test]
fn lower_case_shares_the_glyph() {
    for (upper, lower) in ('A'..='Z').zip('a'..='z') {
        let u = lookup(upper).unwrap();
        let l = lookup(lower).unwrap();
        assert_eq!((u.width, u.bits), (l.width, l.bits));
    }
}

#[test]
fn other_characters_have_no_glyph() {
    for c in ['0', '9', '!', '.', '-', '@', '[', '`', '{', '\t', '\n', '\u{df}', '\u{131}', '\u{17f}', '\u{e9}'] {
        assert!(lookup(c).is_none(), "{:?}", c);
    }
}

#[test]
fn letters_are_distinct() {
    let shapes: Vec<Vec<String>> = ('A'..='Z').map(|c| shape(&lookup(c).unwrap())).collect();
    for i in 0..shapes.len() {
        for j in 0..i {
            assert_ne!(shapes[i], shapes[j]);
        }
    }
}

#[test]
fn shape_of_a() {
    let glyph = lookup('A').unwrap();
    assert_eq!(glyph.width, 4);
    assert_eq!(glyph.bits, A);
    assert_eq!(shape(&glyph), vec![".##.", "#..#", "####", "#..#", "#..#"]);
}

#[test]
fn shape_of_i_and_m() {
    let i = lookup('I').unwrap();
    let m = lookup('m').unwrap();
    assert_eq!(i.bits, I);
    assert_eq!(m.bits, M);
    assert!(i.width < m.width);
    assert_eq!(shape(&i), vec!["###", ".#.", ".#.", ".#.", "###"]);
    assert_eq!(shape(&m), vec!["#...#", "##.##", "#.#.#", "#...#", "#...#"]);
}

#[test]
fn space_is_blank() {
    let glyph = lookup(' ').unwrap();
    assert_eq!(glyph.bits, SPACE);
    assert_eq!(glyph.width, 2);
    assert_eq!(shape(&glyph), vec!["..", "..", "..", "..", ".."]);
}

#[test]
fn is_filled_reads_single_cells() {
    let glyph = lookup('L').unwrap();
    assert!(glyph.is_filled(0, 0));
    assert!(!glyph.is_filled(0, 1));
    assert!(!glyph.is_filled(3, 3));
    assert!(glyph.is_filled(4, 3));
    assert_eq!(glyph.pattern(4), vec![true, true, true, true]);
    assert_eq!(glyph.pattern(0), vec![true, false, false, false]);
}
