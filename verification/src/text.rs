//! Splitting a text into runs for layout: each run is set in one font at the size of one
//! section. A character takes the first font of its section that has a glyph for it; one
//! that no font of its section covers is replaced by the fallback character.

use vstd::prelude::*;

verus! {

#[verifier::external_type_specification]
#[verifier::external_body]
pub struct ExFdFont(fontdue::Font);

/// The glyph index that `fontdue::Font::lookup_glyph_index` gives for a character: 0 where
/// the font has no glyph for it. It is fixed by the font's data and the character.
pub uninterp spec fn glyph_of(font: fontdue::Font, ch: char) -> u16;

/// `fontdue::Font::lookup_glyph_index`: the font's glyph index for the character, 0 where the
/// font has no glyph for it; named [`glyph_of`], since it is read from the font's own table.
#[verifier::external_body]
fn glyph_index(font: &fontdue::Font, ch: char) -> (r: u16)
    ensures
        r == glyph_of(*font, ch),
{
    font.lookup_glyph_index(ch)
}

/// The positions, in order, of the first `n` fonts of `fonts` that have a glyph for `ch`.
pub open spec fn covering_upto(fonts: Seq<fontdue::Font>, ch: char, n: int) -> Seq<usize>
    decreases n,
{
    if n <= 0 {
        Seq::empty()
    } else {
        let before = covering_upto(fonts, ch, n - 1);
        if glyph_of(fonts[n - 1], ch) != 0 {
            before.push((n - 1) as usize)
        } else {
            before
        }
    }
}

/// For each character of `text`, the positions of the fonts of `fonts` that have a glyph for it.
pub open spec fn text_coverage(fonts: Seq<fontdue::Font>, text: Seq<char>) -> Seq<Seq<usize>> {
    Seq::new(text.len(), |i: int| covering_upto(fonts, text[i], fonts.len() as int))
}

/// A section of a text: how many characters it spans, and its fonts, by their position in the
/// font table, the preferred one first.
pub struct SectionFonts {
    pub char_len: usize,
    pub fonts: Vec<usize>,
}

/// One piece of laid-out text, set in a font at the size of a section.
#[derive(Clone, Copy, PartialEq, Eq, Structural, Debug)]
pub enum TextRun {
    /// The text from byte `start` to byte `end`.
    Text { start: usize, end: usize, section: usize, font: usize },
    /// The fallback character, standing for one character that no font of its section covers.
    Fallback { section: usize, font: usize },
}

/// The number of bytes of the UTF-8 encoding of `c`.
pub open spec fn utf8_len(c: char) -> int {
    if (c as u32) < 0x80 {
        1
    } else if (c as u32) < 0x800 {
        2
    } else if (c as u32) < 0x10000 {
        3
    } else {
        4
    }
}

/// The first of `fonts` that is among `covering`.
pub open spec fn first_font(fonts: Seq<usize>, covering: Seq<usize>) -> Option<usize>
    decreases fonts.len(),
{
    if fonts.len() == 0 {
        None
    } else if covering.contains(fonts[0]) {
        Some(fonts[0])
    } else {
        first_font(fonts.drop_first(), covering)
    }
}

/// Where the splitting stands: the pending run from byte `start` to byte `end`, the current
/// section, how many characters were passed (counted over the whole text, not per section),
/// the current font, and the runs so far.
pub struct Chunking {
    pub start: int,
    pub end: int,
    pub section: int,
    pub counted: int,
    pub font: usize,
    pub runs: Seq<TextRun>,
}

/// The pending run of `st`.
pub open spec fn pending_run(st: Chunking) -> TextRun {
    TextRun::Text { start: st.start as usize, end: st.end as usize, section: st.section as usize, font: st.font }
}

/// Before the first character: the first section, in its first font.
pub open spec fn chunking_start(sections: Seq<SectionFonts>) -> Chunking {
    Chunking { start: 0, end: 0, section: 0, counted: 0, font: sections[0].fonts@[0], runs: Seq::empty() }
}

/// The splitting after character `c`, covered by the fonts `covering`. When the count of
/// characters passed equals the current section's length, the pending run is closed and the
/// next section (or the last one) begins; the count goes on without restarting.
/// Then a change of font closes the pending run, and a character that no font of the section
/// covers closes it too and is replaced by the fallback character.
pub open spec fn chunking_step(st: Chunking, c: char, covering: Seq<usize>, sections: Seq<SectionFonts>) -> Chunking {
    let st1 = if sections[st.section].char_len == st.counted {
        Chunking {
            runs: st.runs.push(pending_run(st)),
            section: if st.section + 1 < sections.len() { st.section + 1 } else { sections.len() - 1 },
            start: st.end,
            ..st
        }
    } else {
        st
    };
    let w = utf8_len(c);
    match first_font(sections[st1.section].fonts@, covering) {
        Some(f) => if f == st1.font {
            Chunking { end: st1.end + w, counted: st1.counted + 1, ..st1 }
        } else {
            Chunking {
                runs: st1.runs.push(pending_run(st1)),
                font: f,
                start: st1.end,
                end: st1.end + w,
                counted: st1.counted + 1,
                ..st1
            }
        },
        None => Chunking {
            runs: st1.runs.push(pending_run(st1)).push(TextRun::Fallback { section: st1.section as usize, font: st1.font }),
            start: st1.end + w,
            end: st1.end + w,
            counted: st1.counted + 1,
            ..st1
        },
    }
}

/// The splitting after the first `n` characters.
pub open spec fn chunking(text: Seq<char>, covered: Seq<Seq<usize>>, sections: Seq<SectionFonts>, n: int) -> Chunking
    decreases n,
{
    if n <= 0 {
        chunking_start(sections)
    } else {
        chunking_step(chunking(text, covered, sections, n - 1), text[n - 1], covered[n - 1], sections)
    }
}

/// The runs of a text: those closed on the way, then the pending one.
pub open spec fn spec_text_runs(text: Seq<char>, sections: Seq<SectionFonts>, covered: Seq<Seq<usize>>) -> Seq<TextRun> {
    let st = chunking(text, covered, sections, text.len() as int);
    st.runs.push(pending_run(st))
}

/// Every character counts towards the sections, also one replaced by the fallback character:
/// after `n` characters, `n` were counted. The current section stays in range and never goes
/// back, and once more characters than the first section's length were passed, a later
/// section is in effect (where there is one).
pub proof fn law_every_character_counts(text: Seq<char>, covered: Seq<Seq<usize>>, sections: Seq<SectionFonts>, n: int)
    requires
        sections_ok(sections),
        0 <= n <= text.len(),
    ensures
        chunking(text, covered, sections, n).counted == n,
        0 <= chunking(text, covered, sections, n).section < sections.len(),
        n > sections[0].char_len && sections.len() > 1 ==> chunking(text, covered, sections, n).section >= 1,
    decreases n,
{
    if n > 0 {
        law_every_character_counts(text, covered, sections, n - 1);
        let st = chunking(text, covered, sections, n - 1);
        assert(chunking(text, covered, sections, n) == chunking_step(st, text[n - 1], covered[n - 1], sections));
    }
}

/// The section in effect never goes back: after more characters it is the same or a later one.
pub proof fn law_sections_in_order(text: Seq<char>, covered: Seq<Seq<usize>>, sections: Seq<SectionFonts>, m: int, n: int)
    requires
        sections_ok(sections),
        0 <= m <= n <= text.len(),
    ensures
        chunking(text, covered, sections, m).section <= chunking(text, covered, sections, n).section,
    decreases n - m,
{
    if m < n {
        law_sections_in_order(text, covered, sections, m, n - 1);
        law_every_character_counts(text, covered, sections, n - 1);
        let st = chunking(text, covered, sections, n - 1);
        assert(chunking(text, covered, sections, n) == chunking_step(st, text[n - 1], covered[n - 1], sections));
    }
}

/// Every section has a font.
pub open spec fn sections_ok(sections: Seq<SectionFonts>) -> bool {
    &&& sections.len() > 0
    &&& forall|k: int| 0 <= k < sections.len() ==> #[trigger] sections[k].fonts@.len() > 0
}

/// The number of bytes of the UTF-8 encoding of `c`.
fn char_len_utf8(c: char) -> (n: usize)
    ensures
        n == utf8_len(c),
{
    let u = c as u32;
    if u < 0x80 {
        1
    } else if u < 0x800 {
        2
    } else if u < 0x10000 {
        3
    } else {
        4
    }
}

/// Whether `v` holds `x`.
fn holds(v: &Vec<usize>, x: usize) -> (b: bool)
    ensures
        b == v@.contains(x),
{
    let mut k: usize = 0;
    while k < v.len()
        invariant
            0 <= k <= v@.len(),
            forall|j: int| 0 <= j < k ==> v@[j] != x,
        decreases v@.len() - k,
    {
        if v[k] == x {
            return true;
        }
        k += 1;
    }
    false
}

/// The first of `fonts` that is among `covering`, see [`first_font`].
fn find_font(fonts: &Vec<usize>, covering: &Vec<usize>) -> (r: Option<usize>)
    ensures
        r == first_font(fonts@, covering@),
{
    let mut j: usize = 0;
    proof {
        assert(fonts@.skip(0) =~= fonts@);
    }
    while j < fonts.len()
        invariant
            0 <= j <= fonts@.len(),
            first_font(fonts@, covering@) == first_font(fonts@.skip(j as int), covering@),
        decreases fonts@.len() - j,
    {
        proof {
            assert(fonts@.skip(j as int)[0] == fonts@[j as int]);
            assert(fonts@.skip(j as int).drop_first() =~= fonts@.skip(j + 1));
        }
        if holds(covering, fonts[j]) {
            return Some(fonts[j]);
        }
        j += 1;
    }
    proof {
        assert(fonts@.skip(j as int).len() == 0);
    }
    None
}

/// Splits `text` into runs, `covered[i]` being the fonts that have a glyph for `text[i]`,
/// see [`spec_text_runs`].
pub fn text_runs(text: &Vec<char>, sections: &Vec<SectionFonts>, covered: &Vec<Vec<usize>>) -> (runs: Vec<TextRun>)
    requires
        sections_ok(sections@),
        covered@.len() == text@.len(),
        4 * text@.len() <= usize::MAX,
    ensures
        runs@ == spec_text_runs(text@, sections@, covered@.map_values(|v: Vec<usize>| v@)),
{
    let ghost cov = covered@.map_values(|v: Vec<usize>| v@);
    let mut start: usize = 0;
    let mut end: usize = 0;
    let mut section: usize = 0;
    let mut counted: usize = 0;
    let mut font: usize = sections[0].fonts[0];
    let mut runs: Vec<TextRun> = Vec::new();
    let mut i: usize = 0;
    while i < text.len()
        invariant
            sections_ok(sections@),
            covered@.len() == text@.len(),
            4 * text@.len() <= usize::MAX,
            cov == covered@.map_values(|v: Vec<usize>| v@),
            0 <= i <= text@.len(),
            start <= end <= 4 * i,
            section < sections@.len(),
            counted <= i,
            chunking(text@, cov, sections@, i as int) == (Chunking {
                start: start as int,
                end: end as int,
                section: section as int,
                counted: counted as int,
                font,
                runs: runs@,
            }),
        decreases text@.len() - i,
    {
        let c = text[i];
        if sections[section].char_len == counted {
            runs.push(TextRun::Text { start, end, section, font });
            section = if section < sections.len() - 1 { section + 1 } else { sections.len() - 1 };
            start = end;
        }
        let w = char_len_utf8(c);
        match find_font(&sections[section].fonts, &covered[i]) {
            Some(f) => {
                if f != font {
                    runs.push(TextRun::Text { start, end, section, font });
                    font = f;
                    start = end;
                }
                end = end + w;
                counted = counted + 1;
            },
            None => {
                runs.push(TextRun::Text { start, end, section, font });
                runs.push(TextRun::Fallback { section, font });
                end = end + w;
                start = end;
                counted = counted + 1;
            },
        }
        proof {
            assert(cov[i as int] == covered@[i as int]@);
        }
        i += 1;
    }
    runs.push(TextRun::Text { start, end, section, font });
    runs
}

/// The fonts of `fonts` that have a glyph for `ch`, by position, in order.
fn covering_fonts(fonts: &Vec<fontdue::Font>, ch: char) -> (v: Vec<usize>)
    ensures
        v@ == covering_upto(fonts@, ch, fonts@.len() as int),
        forall|f: int| 0 <= f < fonts@.len() ==> (v@.contains(f as usize) <==> glyph_of(fonts@[f], ch) != 0),
        forall|k: int| 0 <= k < v@.len() ==> #[trigger] v@[k] < fonts@.len(),
{
    let mut v: Vec<usize> = Vec::new();
    let mut f: usize = 0;
    while f < fonts.len()
        invariant
            0 <= f <= fonts@.len(),
            v@ == covering_upto(fonts@, ch, f as int),
            forall|g: int| 0 <= g < f ==> (v@.contains(g as usize) <==> glyph_of(fonts@[g], ch) != 0),
            forall|k: int| 0 <= k < v@.len() ==> #[trigger] v@[k] < f,
        decreases fonts@.len() - f,
    {
        let ghost before = v@;
        if glyph_index(&fonts[f], ch) != 0 {
            v.push(f);
            proof {
                assert forall|g: int| 0 <= g < f + 1 implies (v@.contains(g as usize) <==> glyph_of(fonts@[g], ch) != 0) by {
                    if g < f {
                        if before.contains(g as usize) {
                            let k = choose|k: int| 0 <= k < before.len() && before[k] == g as usize;
                            assert(v@[k] == g as usize);
                        }
                        if v@.contains(g as usize) {
                            let k = choose|k: int| 0 <= k < v@.len() && v@[k] == g as usize;
                            if k < before.len() {
                                assert(before[k] == g as usize);
                            }
                        }
                    } else {
                        assert(v@[v@.len() - 1] == f);
                    }
                }
            }
        } else {
            proof {
                assert(!before.contains(f)) by {
                    if before.contains(f) {
                        let k = choose|k: int| 0 <= k < before.len() && before[k] == f;
                        assert(before[k] < f);
                    }
                }
            }
        }
        f += 1;
    }
    v
}

/// Splits the text `s` into runs, each character covered by the fonts of the table `fonts`
/// that have a glyph for it, see [`text_runs`].
pub fn processed_text(s: &str, fonts: &Vec<fontdue::Font>, sections: &Vec<SectionFonts>) -> (runs: Vec<TextRun>)
    requires
        sections_ok(sections@),
        4 * s@.len() <= usize::MAX,
    ensures
        runs@ == spec_text_runs(s@, sections@, text_coverage(fonts@, s@)),
{
    let n = s.unicode_len();
    let mut text: Vec<char> = Vec::new();
    let mut covered: Vec<Vec<usize>> = Vec::new();
    let mut i: usize = 0;
    while i < n
        invariant
            n == s@.len(),
            0 <= i <= n,
            text@ == s@.take(i as int),
            covered@.len() == i,
            forall|j: int| 0 <= j < i ==> #[trigger] covered@[j]@ == covering_upto(fonts@, s@[j], fonts@.len() as int),
        decreases n - i,
    {
        let c = s.get_char(i);
        text.push(c);
        covered.push(covering_fonts(fonts, c));
        proof {
            assert(s@.take(i + 1) =~= s@.take(i as int).push(c));
        }
        i += 1;
    }
    proof {
        assert(s@.take(n as int) =~= s@);
    }
    let runs = text_runs(&text, sections, &covered);
    proof {
        assert(covered@.map_values(|v: Vec<usize>| v@) =~= text_coverage(fonts@, s@));
    }
    runs
}

/// Where section `k` of a text starts: at 0 for the first, at the end of the one before
/// otherwise.
pub open spec fn section_start(ends: Seq<usize>, k: int) -> int {
    if k == 0 { 0 } else { ends[k - 1] as int }
}

/// The byte range of each section of a text of `len` bytes: the sections that end at `ends`,
/// in order, then one more that runs to the end of the text.
pub fn section_ranges(ends: &Vec<usize>, len: usize) -> (r: Vec<(usize, usize)>)
    requires
        forall|k: int| 0 <= k < ends@.len() ==> section_start(ends@, k) <= #[trigger] ends@[k] <= len,
    ensures
        r@.len() == ends@.len() + 1,
        forall|k: int| 0 <= k < ends@.len() ==> #[trigger] r@[k] == (section_start(ends@, k) as usize, ends@[k]),
        r@[ends@.len() as int] == (section_start(ends@, ends@.len() as int) as usize, len),
{
    let mut r: Vec<(usize, usize)> = Vec::new();
    let mut start: usize = 0;
    let mut k: usize = 0;
    while k < ends.len()
        invariant
            0 <= k <= ends@.len(),
            r@.len() == k,
            start == section_start(ends@, k as int),
            start <= len,
            forall|j: int| 0 <= j < ends@.len() ==> section_start(ends@, j) <= #[trigger] ends@[j] <= len,
            forall|j: int| 0 <= j < k ==> #[trigger] r@[j] == (section_start(ends@, j) as usize, ends@[j]),
        decreases ends@.len() - k,
    {
        r.push((start, ends[k]));
        start = ends[k];
        k += 1;
    }
    r.push((start, len));
    r
}

} // verus!
