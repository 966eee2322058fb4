use ui4::text::{processed_text, section_ranges, text_runs, SectionFonts, TextRun};

#[test]
fn runs_split_by_section_font_and_fallback() {
    let text: Vec<char> = "ab€c".chars().collect();
    let sections = vec![
        SectionFonts { char_len: 2, fonts: vec![0, 1] },
        SectionFonts { char_len: 10, fonts: vec![1] },
    ];
    let covered = vec![vec![0, 1], vec![1], vec![], vec![1]];
    assert_eq!(
        text_runs(&text, &sections, &covered),
        vec![
            TextRun::Text { start: 0, end: 1, section: 0, font: 0 },
            TextRun::Text { start: 1, end: 2, section: 0, font: 1 },
            TextRun::Text { start: 2, end: 2, section: 1, font: 1 },
            TextRun::Fallback { section: 1, font: 1 },
            TextRun::Text { start: 5, end: 6, section: 1, font: 1 },
        ]
    );
}

#[test]
fn the_last_section_takes_the_rest() {
    let text: Vec<char> = "xyz".chars().collect();
    let sections = vec![SectionFonts { char_len: 1, fonts: vec![3] }];
    let covered = vec![vec![3], vec![3], vec![3]];
    assert_eq!(
        text_runs(&text, &sections, &covered),
        vec![
            TextRun::Text { start: 0, end: 1, section: 0, font: 3 },
            TextRun::Text { start: 1, end: 3, section: 0, font: 3 },
        ]
    );
}

#[test]
fn without_fonts_every_character_falls_back() {
    let sections = vec![SectionFonts { char_len: 5, fonts: vec![0] }];
    assert_eq!(
        processed_text("hé", &vec![], &sections),
        vec![
            TextRun::Text { start: 0, end: 0, section: 0, font: 0 },
            TextRun::Fallback { section: 0, font: 0 },
            TextRun::Text { start: 1, end: 1, section: 0, font: 0 },
            TextRun::Fallback { section: 0, font: 0 },
            TextRun::Text { start: 3, end: 3, section: 0, font: 0 },
        ]
    );
}

#[test]
fn section_lengths_are_counted_over_the_whole_text() {
    let text: Vec<char> = "abcd".chars().collect();
    let sections = vec![
        SectionFonts { char_len: 1, fonts: vec![0] },
        SectionFonts { char_len: 3, fonts: vec![1] },
        SectionFonts { char_len: 9, fonts: vec![2] },
    ];
    let covered = vec![vec![0, 1, 2]; 4];
    assert_eq!(
        text_runs(&text, &sections, &covered),
        vec![
            TextRun::Text { start: 0, end: 1, section: 0, font: 0 },
            TextRun::Text { start: 1, end: 1, section: 1, font: 0 },
            TextRun::Text { start: 1, end: 3, section: 1, font: 1 },
            TextRun::Text { start: 3, end: 3, section: 2, font: 1 },
            TextRun::Text { start: 3, end: 4, section: 2, font: 2 },
        ]
    );
}

#[test]
fn sections_split_at_their_ends() {
    assert_eq!(section_ranges(&vec![2, 2, 5], 7), vec![(0, 2), (2, 2), (2, 5), (5, 7)]);
    assert_eq!(section_ranges(&vec![], 3), vec![(0, 3)]);
}
