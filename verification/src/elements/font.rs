use vstd::prelude::*;
use super::field_orientation::FieldOrientation;
use crate::text::chars_of;

verus! {

/// A font selection: the font's name, its cell size in dots and its rotation.
/// A size of zero means "derive it from the other dimension" when rendering.
#[derive(Debug)]
pub struct FontInfo {
    pub name: String,
    pub width: i32,
    pub height: i32,
    pub orientation: FieldOrientation,
}

/// The names of the printer's resident fonts.
pub open spec fn is_standard_font_name(n: Seq<char>) -> bool {
    n == seq!['0'] || (n.len() == 1 && 'A' <= n[0] && n[0] <= 'H')
}

/// The typeface that text in a font is drawn with.
#[derive(Debug, Clone, Copy, PartialEq, Eq, Structural)]
pub enum FontFace {
    Helvetica,
    DejavuBold,
    Gs,
    DejavuMono,
}

/// The typeface for a font name: `0` is Helvetica, `B`, `D`, `P`, `Q` and `S`
/// are DejaVu bold, `GS` has its own, and every other name is DejaVu mono.
pub open spec fn font_face_of(name: Seq<char>) -> FontFace {
    if name == seq!['0'] {
        FontFace::Helvetica
    } else if name.len() == 1 && (name[0] == 'B' || name[0] == 'D' || name[0] == 'P' || name[0]
        == 'Q' || name[0] == 'S') {
        FontFace::DejavuBold
    } else if name == seq!['G', 'S'] {
        FontFace::Gs
    } else {
        FontFace::DejavuMono
    }
}

/// The typeface to draw text in the font `name` with: see [`font_face_of`].
pub fn font_face(name: &str) -> (f: FontFace)
    ensures
        f == font_face_of(name@),
{
    let v = chars_of(name);
    if v.len() == 1 {
        let c = v[0];
        if c == '0' {
            assert(v@ == seq!['0']);
            FontFace::Helvetica
        } else if c == 'B' || c == 'D' || c == 'P' || c == 'Q' || c == 'S' {
            FontFace::DejavuBold
        } else {
            FontFace::DejavuMono
        }
    } else if v.len() == 2 && v[0] == 'G' && v[1] == 'S' {
        assert(v@ == seq!['G', 'S']);
        FontFace::Gs
    } else {
        FontFace::DejavuMono
    }
}

impl FontInfo {
    /// A font with an empty name, no size and normal orientation.
    pub fn empty() -> (f: FontInfo)
        ensures
            f.name@ == Seq::<char>::empty(),
            f.width == 0,
            f.height == 0,
            f.orientation == FieldOrientation::Normal,
    {
        FontInfo { name: String::new(), width: 0, height: 0, orientation: FieldOrientation::Normal }
    }

    /// A copy of this font.
    pub fn copy(&self) -> (f: FontInfo)
        ensures
            f == *self,
    {
        FontInfo {
            name: self.name.clone(),
            width: self.width,
            height: self.height,
            orientation: self.orientation,
        }
    }

    /// Whether the font is one of the printer's resident fonts.
    pub fn is_standard_font(&self) -> (b: bool)
        ensures
            b == is_standard_font_name(self.name@),
    {
        let n = chars_of(self.name.as_str());
        if n.len() == 1 && n[0] == '0' {
            assert(n@ =~= seq!['0']);
        }
        assert(n@ == seq!['0'] ==> n@[0] == '0');
        n.len() == 1 && (n[0] == '0' || ('A' <= n[0] && n[0] <= 'H'))
    }
}

} // verus!
