//! The 5x7 bitmap font of the debug overlay.
//!
//! The font file (`assets/<namespace>/font/5x7.json`) maps each printable
//! character to its glyph: 7 rows of 5 pixels, written as strings.

use vstd::prelude::*;
use std::collections::BTreeMap;

verus! {

/// The entries, in key order, of the JSON object of string lists that
/// `text` holds, or `None` when `text` is not such an object.
pub uninterp spec fn json_glyph_map(text: Seq<char>) -> Option<Seq<(Seq<char>, Seq<Seq<char>>)>>;

/// The views of raw glyph entries.
pub open spec fn raw_view(s: Seq<(String, Vec<String>)>) -> Seq<(Seq<char>, Seq<Seq<char>>)> {
    s.map_values(|e: (String, Vec<String>)| (e.0@, e.1@.map_values(|r: String| r@)))
}

/// No two raw entries share a key.
pub open spec fn distinct_raw_keys(s: Seq<(Seq<char>, Seq<Seq<char>>)>) -> bool {
    forall|i: int, j: int| 0 <= i < s.len() && 0 <= j < s.len() && i != j ==> #[trigger] s[i].0 != #[trigger] s[j].0
}

/// Reads `text` with `serde_json::from_str` into a
/// `BTreeMap<String, Vec<String>>` and hands out its entries in key order.
/// The contract names the outcome by `json_glyph_map` and states that a map
/// yields each key once.
#[verifier::external_body]
fn parse_glyph_map(text: &str) -> (r: Result<Vec<(String, Vec<String>)>, serde_json::Error>)
    ensures
        match r {
            Ok(v) => json_glyph_map(text@) == Some(raw_view(v@)) && distinct_raw_keys(raw_view(v@)),
            Err(_) => json_glyph_map(text@) is None,
        },
{
    match serde_json::from_str::<BTreeMap<String, Vec<String>>>(text) {
        Ok(map) => Ok(map.into_iter().collect()),
        Err(e) => Err(e),
    }
}

/// The message `serde_json` gives for a parse error, by its `Display`.
#[verifier::external_body]
fn json_error_message(e: &serde_json::Error) -> String {
    e.to_string()
}

/// The glyphs among raw font entries: each entry whose key is a single
/// character and whose bitmap has 7 rows, in the order the entries come.
pub open spec fn glyph_table(raw: Seq<(Seq<char>, Seq<Seq<char>>)>) -> Seq<(char, Seq<Seq<char>>)>
    decreases raw.len(),
{
    if raw.len() == 0 {
        Seq::empty()
    } else {
        let rest = glyph_table(raw.drop_last());
        let e = raw.last();
        if e.0.len() == 1 && e.1.len() == 7 {
            rest.push((e.0[0], e.1))
        } else {
            rest
        }
    }
}

/// The bitmap of the first glyph for `ch` at or after `i`, if any.
pub open spec fn glyph_from(g: Seq<(char, Seq<Seq<char>>)>, ch: char, i: int) -> Option<Seq<Seq<char>>>
    decreases g.len() - i,
{
    if i < 0 || i >= g.len() {
        None
    } else if g[i].0 == ch {
        Some(g[i].1)
    } else {
        glyph_from(g, ch, i + 1)
    }
}

/// The bitmap recorded for `ch`, if any.
pub open spec fn glyph_of(g: Seq<(char, Seq<Seq<char>>)>, ch: char) -> Option<Seq<Seq<char>>> {
    glyph_from(g, ch, 0)
}

/// ASCII letters `a`..=`z` in upper case; every other character unchanged.
pub open spec fn ascii_upper(ch: char) -> char {
    if 'a' <= ch && ch <= 'z' {
        ((ch as u32) - 32) as char
    } else {
        ch
    }
}

/// Seven empty rows: what a character without a glyph draws.
pub open spec fn blank_rows() -> Seq<Seq<char>> {
    Seq::new(7, |i: int| Seq::<char>::empty())
}

/// What the font draws for `ch`: its glyph, else the glyph of its ASCII upper
/// case, else nothing.
pub open spec fn glyph_rows(g: Seq<(char, Seq<Seq<char>>)>, ch: char) -> Seq<Seq<char>> {
    match glyph_of(g, ch) {
        Some(rows) => rows,
        None => if ascii_upper(ch) != ch && glyph_of(g, ascii_upper(ch)) is Some {
            glyph_of(g, ascii_upper(ch))->0
        } else {
            blank_rows()
        },
    }
}

fn to_ascii_upper(ch: char) -> (r: char)
    ensures
        r == ascii_upper(ch),
{
    if 'a' <= ch && ch <= 'z' {
        let u: u32 = ch as u32;
        let b: u8 = (u - 32) as u8;
        b as char
    } else {
        ch
    }
}

/// Errors that can occur during font loading.
#[derive(Clone, Debug, PartialEq, Eq)]
pub enum FontError {
    Load(String),
}

/// The rows of a glyph bitmap.
pub open spec fn rows_view(rows: [String; 7]) -> Seq<Seq<char>> {
    rows@.map_values(|r: String| r@)
}

/// The glyphs of a font with their bitmaps.
pub open spec fn glyphs_view(s: Seq<(char, [String; 7])>) -> Seq<(char, Seq<Seq<char>>)> {
    s.map_values(|e: (char, [String; 7])| (e.0, rows_view(e.1)))
}

/// A 5x7 bitmap font.
#[derive(Debug)]
pub struct Font {
    glyphs: Vec<(char, [String; 7])>,
    blank: [String; 7],
}

impl View for Font {
    type V = Seq<(char, Seq<Seq<char>>)>;

    closed spec fn view(&self) -> Seq<(char, Seq<Seq<char>>)> {
        glyphs_view(self.glyphs@)
    }
}

fn blank_glyph() -> (r: [String; 7])
    ensures
        rows_view(r) == blank_rows(),
{
    let r = [String::new(), String::new(), String::new(), String::new(), String::new(), String::new(), String::new()];
    assert(rows_view(r) =~= blank_rows());
    r
}

impl Font {
    /// Every font's blank glyph has seven empty rows.
    #[verifier::type_invariant]
    spec fn blank_is_empty(self) -> bool {
        rows_view(self.blank) == blank_rows()
    }

    /// Creates an empty font (no glyphs will render).
    pub fn new_empty() -> (r: Font)
        ensures
            r@ == Seq::<(char, Seq<Seq<char>>)>::empty(),
    {
        let r = Font { glyphs: Vec::new(), blank: blank_glyph() };
        assert(glyphs_view(r.glyphs@) =~= Seq::<(char, Seq<Seq<char>>)>::empty());
        r
    }

    /// The font of a file's raw entries: each single-character key with a
    /// 7-row bitmap becomes a glyph; other entries are skipped.
    pub fn from_raw(raw: &Vec<(String, Vec<String>)>) -> (r: Font)
        ensures
            r@ == glyph_table(raw_view(raw@)),
    {
        let mut glyphs: Vec<(char, [String; 7])> = Vec::new();
        let mut i: usize = 0;
        while i < raw.len()
            invariant
                i <= raw@.len(),
                glyphs_view(glyphs@) == glyph_table(raw_view(raw@.subrange(0, i as int))),
            decreases raw.len() - i,
        {
            let ghost before = raw_view(raw@.subrange(0, i as int));
            let ghost after = raw_view(raw@.subrange(0, i + 1));
            proof {
                assert(after.drop_last() =~= before);
                assert(after.last() == raw_view(raw@)[i as int]);
            }
            let key = raw[i].0.as_str();
            let rows = &raw[i].1;
            if key.unicode_len() == 1 && rows.len() == 7 {
                let ch = key.get_char(0);
                let bitmap = [
                    rows[0].clone(),
                    rows[1].clone(),
                    rows[2].clone(),
                    rows[3].clone(),
                    rows[4].clone(),
                    rows[5].clone(),
                    rows[6].clone(),
                ];
                let ghost g0 = glyphs@;
                glyphs.push((ch, bitmap));
                proof {
                    assert(rows_view(bitmap) =~= rows@.map_values(|r: String| r@));
                    assert(glyphs_view(glyphs@) =~= glyphs_view(g0).push((ch, rows_view(bitmap))));
                }
            }
            i = i + 1;
        }
        assert(raw@.subrange(0, raw@.len() as int) =~= raw@);
        Font { glyphs, blank: blank_glyph() }
    }

    /// Loads a font from the text of its JSON file.
    pub fn load(text: &str) -> (r: Result<Font, FontError>)
        ensures
            match r {
                Ok(f) => json_glyph_map(text@) is Some && f@ == glyph_table(json_glyph_map(text@)->0),
                Err(_) => json_glyph_map(text@) is None,
            },
    {
        match parse_glyph_map(text) {
            Ok(raw) => Ok(Font::from_raw(&raw)),
            Err(e) => Err(FontError::Load(json_error_message(&e))),
        }
    }

    /// Number of loaded glyphs.
    pub fn glyph_count(&self) -> (r: usize)
        ensures
            r == self@.len(),
    {
        self.glyphs.len()
    }

    fn find(&self, ch: char) -> (r: Option<usize>)
        ensures
            match r {
                Some(i) => i < self@.len() && glyph_of(self@, ch) == Some(self@[i as int].1),
                None => glyph_of(self@, ch) is None,
            },
    {
        let ghost g = self@;
        let mut i: usize = 0;
        while i < self.glyphs.len()
            invariant
                i <= self.glyphs@.len(),
                g == glyphs_view(self.glyphs@),
                glyph_of(g, ch) == glyph_from(g, ch, i as int),
            decreases self.glyphs.len() - i,
        {
            assert(g[i as int].0 == self.glyphs@[i as int].0);
            if self.glyphs[i].0 == ch {
                return Some(i);
            }
            i = i + 1;
        }
        None
    }

    /// Returns the 7-row bitmap for a character: its own glyph, else that of
    /// its ASCII upper case, else seven empty rows.
    pub fn glyph(&self, ch: char) -> (r: &[String; 7])
        ensures
            rows_view(*r) == glyph_rows(self@, ch),
    {
        proof {
            use_type_invariant(self);
        }
        match self.find(ch) {
            Some(i) => &self.glyphs[i].1,
            None => {
                let upper = to_ascii_upper(ch);
                if upper != ch {
                    match self.find(upper) {
                        Some(i) => &self.glyphs[i].1,
                        None => &self.blank,
                    }
                } else {
                    &self.blank
                }
            },
        }
    }
}

impl Clone for Font {
    fn clone(&self) -> (r: Font)
        ensures
            r@ == self@,
    {
        let mut glyphs: Vec<(char, [String; 7])> = Vec::new();
        let mut i: usize = 0;
        while i < self.glyphs.len()
            invariant
                i <= self.glyphs@.len(),
                glyphs_view(glyphs@) == glyphs_view(self.glyphs@.subrange(0, i as int)),
            decreases self.glyphs.len() - i,
        {
            let g = &self.glyphs[i];
            let bitmap = [
                g.1[0].clone(),
                g.1[1].clone(),
                g.1[2].clone(),
                g.1[3].clone(),
                g.1[4].clone(),
                g.1[5].clone(),
                g.1[6].clone(),
            ];
            let ghost g0 = glyphs@;
            glyphs.push((g.0, bitmap));
            proof {
                assert(rows_view(bitmap) =~= rows_view(g.1));
                assert(glyphs@ =~= g0.push((g.0, bitmap)));
                assert(self.glyphs@.subrange(0, i + 1) =~= self.glyphs@.subrange(0, i as int).push(*g));
                assert(glyphs_view(glyphs@) =~= glyphs_view(g0).push((g.0, rows_view(bitmap))));
                assert(glyphs_view(self.glyphs@.subrange(0, i + 1)) =~= glyphs_view(self.glyphs@.subrange(0, i as int)).push((g.0, rows_view(g.1))));
            }
            i = i + 1;
        }
        assert(self.glyphs@.subrange(0, self.glyphs@.len() as int) =~= self.glyphs@);
        Font { glyphs, blank: blank_glyph() }
    }
}

} // verus!
