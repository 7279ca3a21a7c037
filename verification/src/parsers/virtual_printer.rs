//! The printer state that ZPL commands change: defaults, the field being
//! built, and the graphics and formats stored on the printer.
use vstd::prelude::*;
use crate::elements::barcode_info::BarcodeDimensions;
use crate::elements::field_alignment::FieldAlignment;
use crate::elements::field_info::{FieldConfig, FieldInfo};
use crate::elements::field_orientation::FieldOrientation;
use crate::elements::font::FontInfo;
use crate::elements::label_position::LabelPosition;
use crate::elements::reverse_print::ReversePrint;
use crate::elements::stored_format::StoredFormat;
use crate::elements::stored_graphics::StoredGraphics;
use crate::text::push_char;

verus! {

/// The first entry of `v` whose name is `key`.
pub open spec fn entry_at<T>(v: Seq<(String, T)>, key: Seq<char>, i: int) -> bool {
    &&& 0 <= i < v.len()
    &&& v[i].0@ == key
    &&& forall|j: int| 0 <= j < i ==> (#[trigger] v[j]).0@ != key
}

/// No entry of `v` is named `key`.
pub open spec fn no_entry<T>(v: Seq<(String, T)>, key: Seq<char>) -> bool {
    forall|j: int| 0 <= j < v.len() ==> (#[trigger] v[j]).0@ != key
}

/// The position of the first entry named `key`.
pub fn find_entry<T>(v: &Vec<(String, T)>, key: &String) -> (r: Option<usize>)
    ensures
        match r {
            Some(i) => entry_at(v@, key@, i as int),
            None => no_entry(v@, key@),
        },
        match r {
            Some(i) => find_first(v@, key@) == Some(i as int),
            None => find_first(v@, key@) is None,
        },
{
    let r = find_entry_at(v, key);
    proof {
        lemma_find_first(v@, key@);
        match r {
            Some(i) => {
                lemma_entry_unique(v@, key@, i as int, find_first(v@, key@).unwrap());
            },
            None => {
                if find_first(v@, key@) is Some {
                    let j = find_first(v@, key@).unwrap();
                    assert(v@[j].0@ == key@);
                }
            },
        }
    }
    r
}

fn find_entry_at<T>(v: &Vec<(String, T)>, key: &String) -> (r: Option<usize>)
    ensures
        match r {
            Some(i) => entry_at(v@, key@, i as int),
            None => no_entry(v@, key@),
        },
{
    let mut i: usize = 0;
    while i < v.len()
        invariant
            i <= v@.len(),
            forall|j: int| 0 <= j < i ==> (#[trigger] v@[j]).0@ != key@,
        decreases v@.len() - i,
    {
        if v[i].0 == *key {
            return Some(i);
        }
        i += 1;
    }
    None
}

/// `new` is `old` with an entry named `k` stored: the first entry of that
/// name replaced, or a new entry added at the end.
pub open spec fn stored_entry<T>(old: Seq<(String, T)>, new: Seq<(String, T)>, k: Seq<char>) -> bool {
    match find_first(old, k) {
        Some(i) => new.len() == old.len() && new[i].0@ == k && forall|j: int|
            0 <= j < old.len() && j != i ==> #[trigger] new[j] == old[j],
        None => new.len() == old.len() + 1 && new.drop_last() == old && new.last().0@ == k,
    }
}

/// The value that `stored_entry` put under `k`.
pub open spec fn stored_value<T>(old: Seq<(String, T)>, new: Seq<(String, T)>, k: Seq<char>) -> T {
    match find_first(old, k) {
        Some(i) => new[i].1,
        None => new.last().1,
    }
}

/// Stores `val` under `key`: replaces the first entry of that name, or adds one.
pub fn store_entry<T>(v: &mut Vec<(String, T)>, key: String, val: T)
    ensures
        stored_entry(old(v)@, final(v)@, key@),
        stored_value(old(v)@, final(v)@, key@) == val,
        ({
            let k = key@;
            match find_first(old(v)@, k) {
                Some(i) => final(v)@ == old(v)@.update(i, (key, val)),
                None => final(v)@ == old(v)@.push((key, val)),
            }
        }),
{
    let found = find_entry(v, &key);
    proof {
        lemma_find_first(v@, key@);
    }
    let ghost kv = key@;
    match found {
        Some(i) => {
            v.set(i, (key, val));
        },
        None => {
            v.push((key, val));
            proof {
                assert(v@.drop_last() =~= old(v)@);
            }
        },
    }
}

/// The position of the first entry named `key`, if any.
pub open spec fn find_first<T>(v: Seq<(String, T)>, key: Seq<char>) -> Option<int> {
    if exists|i: int| entry_at(v, key, i) {
        Some(choose|i: int| entry_at(v, key, i))
    } else {
        None
    }
}

pub proof fn lemma_entry_unique<T>(v: Seq<(String, T)>, key: Seq<char>, i: int, j: int)
    requires
        entry_at(v, key, i),
        entry_at(v, key, j),
    ensures
        i == j,
{
    if i < j {
        assert(v[i].0@ != key);
    } else if j < i {
        assert(v[j].0@ != key);
    }
}

pub proof fn lemma_find_first<T>(v: Seq<(String, T)>, key: Seq<char>)
    ensures
        match find_first(v, key) {
            Some(i) => entry_at(v, key, i),
            None => no_entry(v, key),
        },
{
    if !(exists|i: int| entry_at(v, key, i)) {
        assert forall|j: int| 0 <= j < v.len() implies (#[trigger] v[j]).0@ != key by {
            if v[j].0@ == key {
                let first = choose_first(v, key, j);
                assert(entry_at(v, key, first));
            }
        }
    }
}

/// The first position at or before `j` that holds `key`, given that `j` does.
proof fn choose_first<T>(v: Seq<(String, T)>, key: Seq<char>, j: int) -> (i: int)
    requires
        0 <= j < v.len(),
        v[j].0@ == key,
    ensures
        entry_at(v, key, i),
    decreases j,
{
    if exists|k: int| 0 <= k < j && (#[trigger] v[k]).0@ == key {
        let k = choose|k: int| 0 <= k < j && (#[trigger] v[k]).0@ == key;
        choose_first(v, key, k)
    } else {
        j
    }
}

/// What a read of `k` gives back after an entry was stored under it: the
/// entry just stored, found first.
pub proof fn lemma_store_then_find<T>(v: Seq<(String, T)>, w: Seq<(String, T)>, k: Seq<char>)
    requires
        stored_entry(v, w, k),
    ensures
        find_first(w, k) matches Some(i) && w[i].0@ == k && w[i].1 == stored_value(v, w, k),
{
    lemma_find_first(v, k);
    match find_first(v, k) {
        Some(i) => {
            assert forall|j: int| 0 <= j < i implies (#[trigger] w[j]).0@ != k by {
                assert(w[j] == v[j]);
            }
            assert(entry_at(w, k, i));
            lemma_find_first(w, k);
            lemma_entry_unique(w, k, i, find_first(w, k).unwrap());
        },
        None => {
            let n = v.len() as int;
            assert forall|j: int| 0 <= j < n implies (#[trigger] w[j]).0@ != k by {
                assert(w[j] == w.drop_last()[j]);
            }
            assert(entry_at(w, k, n));
            lemma_find_first(w, k);
            lemma_entry_unique(w, k, n, find_first(w, k).unwrap());
        },
    }
}

/// Storing under `k` leaves what a read of any other name gives back.
pub proof fn lemma_store_keeps_others<T>(
    v: Seq<(String, T)>,
    w: Seq<(String, T)>,
    k: Seq<char>,
    other: Seq<char>,
)
    requires
        stored_entry(v, w, k),
        other != k,
    ensures
        match find_first(v, other) {
            Some(i) => find_first(w, other) == Some(i) && w[i] == v[i],
            None => find_first(w, other) is None,
        },
{
    lemma_find_first(v, other);
    lemma_find_first(w, other);
    lemma_find_first(v, k);
    let n = v.len() as int;
    assert forall|j: int| 0 <= j < n implies (#[trigger] w[j]).0@ == other <==> v[j].0@ == other by {
        match find_first(v, k) {
            Some(i) => {
                if j != i {
                    assert(w[j] == v[j]);
                }
            },
            None => {
                assert(w[j] == w.drop_last()[j]);
            },
        }
    }
    match find_first(v, other) {
        Some(i) => {
            assert(entry_at(w, other, i));
            lemma_entry_unique(w, other, i, find_first(w, other).unwrap());
            match find_first(v, k) {
                Some(m) => {
                    assert(i != m);
                },
                None => {
                    assert(w[i] == w.drop_last()[i]);
                },
            }
        },
        None => {
            if find_first(w, other) is Some {
                let j = find_first(w, other).unwrap();
                if j < n {
                    assert(v[j].0@ == other);
                } else {
                    match find_first(v, k) {
                        Some(m) => {},
                        None => {
                            assert(w[j].0@ == k);
                        },
                    }
                }
            }
        },
    }
}

/// The printer state between ZPL commands.
#[derive(Debug)]
pub struct VirtualPrinter {
    pub stored_graphics: Vec<(String, StoredGraphics)>,
    pub stored_formats: Vec<(String, StoredFormat)>,
    pub label_home_position: LabelPosition,
    pub next_element_position: LabelPosition,
    pub default_font: FontInfo,
    pub last_field_font: FontInfo,
    pub default_orientation: FieldOrientation,
    pub default_alignment: FieldAlignment,
    pub next_element_alignment: Option<FieldAlignment>,
    pub next_element_field_element: Option<FieldConfig>,
    pub next_element_field_data: String,
    pub next_element_field_number: i32,
    pub next_font: Option<FontInfo>,
    pub next_download_format_name: String,
    pub next_hex_escape_char: u8,
    pub next_element_field_reverse: bool,
    pub label_reverse: bool,
    pub default_barcode_dimensions: BarcodeDimensions,
    pub current_charset: i32,
    pub print_width: i32,
    pub label_inverted: bool,
}

/// The position a field starts from when no `^FO` or `^FT` was given.
pub open spec fn origin_position(p: LabelPosition) -> bool {
    p == LabelPosition { x: 0, y: 0, calculate_from_bottom: false, automatic_position: false }
}

/// The font the next field uses: the one `^A` chose, else the default font.
pub open spec fn next_font_or_default(p: VirtualPrinter) -> FontInfo {
    match p.next_font {
        Some(f) => f,
        None => p.default_font,
    }
}

/// The field information `get_field_info` gives for printer state `p`.
pub open spec fn field_info_of(p: VirtualPrinter) -> FieldInfo {
    FieldInfo {
        reverse_print: ReversePrint { value: p.next_element_field_reverse || p.label_reverse },
        element: p.next_element_field_element,
        font: next_font_or_default(p),
        position: p.next_element_position,
        alignment: match p.next_element_alignment {
            Some(a) => a,
            None => p.default_alignment,
        },
        width: p.default_barcode_dimensions.module_width,
        width_ratio: p.default_barcode_dimensions.width_ratio,
        height: p.default_barcode_dimensions.height,
        current_charset: p.current_charset,
    }
}

/// `q` is `p` after the field state was reset (`reset_field_state`).
pub open spec fn after_field_reset(p: VirtualPrinter, q: VirtualPrinter) -> bool {
    &&& q.next_element_field_data@ == Seq::<char>::empty()
    &&& q == VirtualPrinter {
        next_element_position: LabelPosition {
            x: 0,
            y: 0,
            calculate_from_bottom: false,
            automatic_position: false,
        },
        next_element_field_element: None,
        next_element_field_data: q.next_element_field_data,
        next_element_field_number: -1i32,
        next_element_alignment: None,
        last_field_font: next_font_or_default(p),
        next_font: None,
        next_element_field_reverse: false,
        next_hex_escape_char: 0u8,
        ..p
    }
}

impl VirtualPrinter {
    /// The state of a printer at power-on: default font `A`, module width 2,
    /// ratio 3.0, barcode height 10, no field in progress, nothing stored.
    pub open spec fn at_power_on(&self) -> bool {
        &&& self.stored_graphics@.len() == 0
        &&& self.stored_formats@.len() == 0
        &&& origin_position(self.label_home_position)
        &&& origin_position(self.next_element_position)
        &&& self.default_font.name@ == seq!['A']
        &&& self.default_font.width == 0
        &&& self.default_font.height == 0
        &&& self.default_font.orientation == FieldOrientation::Normal
        &&& self.last_field_font.name@ == Seq::<char>::empty()
        &&& self.last_field_font.width == 0
        &&& self.last_field_font.height == 0
        &&& self.last_field_font.orientation == FieldOrientation::Normal
        &&& self.default_orientation == FieldOrientation::Normal
        &&& self.default_alignment == FieldAlignment::Left
        &&& self.next_element_alignment is None
        &&& self.next_element_field_element is None
        &&& self.next_element_field_data@ == Seq::<char>::empty()
        &&& self.next_element_field_number == -1
        &&& self.next_font is None
        &&& self.next_download_format_name@ == Seq::<char>::empty()
        &&& self.next_hex_escape_char == 0
        &&& !self.next_element_field_reverse
        &&& !self.label_reverse
        &&& self.default_barcode_dimensions == (BarcodeDimensions {
            module_width: 2,
            width_ratio: 3000,
            height: 10,
        })
        &&& self.current_charset == 0
        &&& self.print_width == 0
        &&& !self.label_inverted
    }

    /// A printer at power-on: default font `A`, module width 2, ratio 3.0,
    /// barcode height 10, no field in progress, nothing stored.
    pub fn new() -> (p: VirtualPrinter)
        ensures
            p.at_power_on(),
    {
        let origin = LabelPosition {
            x: 0,
            y: 0,
            calculate_from_bottom: false,
            automatic_position: false,
        };
        let mut name = String::new();
        push_char(&mut name, 'A');
        assert(name@ =~= seq!['A']);
        VirtualPrinter {
            stored_graphics: Vec::new(),
            stored_formats: Vec::new(),
            label_home_position: origin,
            next_element_position: origin,
            default_font: FontInfo {
                name,
                width: 0,
                height: 0,
                orientation: FieldOrientation::Normal,
            },
            last_field_font: FontInfo::empty(),
            default_orientation: FieldOrientation::Normal,
            default_alignment: FieldAlignment::Left,
            next_element_alignment: None,
            next_element_field_element: None,
            next_element_field_data: String::new(),
            next_element_field_number: -1,
            next_font: None,
            next_download_format_name: String::new(),
            next_hex_escape_char: 0,
            next_element_field_reverse: false,
            label_reverse: false,
            default_barcode_dimensions: BarcodeDimensions::initial(),
            current_charset: 0,
            print_width: 0,
            label_inverted: false,
        }
    }

    /// Sets the default orientation, and with it the orientation of the default
    /// font and of a font chosen for the next field.
    pub fn set_default_orientation(&mut self, orientation: FieldOrientation)
        ensures
            *final(self) == (VirtualPrinter {
                default_orientation: orientation,
                default_font: FontInfo { orientation, ..old(self).default_font },
                next_font: match old(self).next_font {
                    Some(f) => Some(FontInfo { orientation, ..f }),
                    None => None,
                },
                ..*old(self)
            }),
    {
        self.default_orientation = orientation;
        self.default_font.orientation = orientation;
        match &mut self.next_font {
            Some(f) => {
                f.orientation = orientation;
            },
            None => {},
        }
    }

    /// The font for the next field: the one chosen with `^A`, else the default.
    pub fn get_next_font_or_default(&self) -> (f: FontInfo)
        ensures
            f == next_font_or_default(*self),
    {
        match &self.next_font {
            Some(f) => f.copy(),
            None => self.default_font.copy(),
        }
    }

    /// The alignment for the next field: the one given with `^FO`/`^FT`, else the default.
    pub fn get_next_element_alignment_or_default(&self) -> (a: FieldAlignment)
        ensures
            a == match self.next_element_alignment {
                Some(a) => a,
                None => self.default_alignment,
            },
    {
        match self.next_element_alignment {
            Some(a) => a,
            None => self.default_alignment,
        }
    }

    /// Reverse printing for the next field: `^FR` or `^LRY`.
    pub fn get_reverse_print(&self) -> (r: ReversePrint)
        ensures
            r.value == (self.next_element_field_reverse || self.label_reverse),
    {
        ReversePrint { value: self.next_element_field_reverse || self.label_reverse }
    }

    /// Everything known about the field being built.
    pub fn get_field_info(&self) -> (f: FieldInfo)
        ensures
            f == field_info_of(*self),
    {
        FieldInfo {
            reverse_print: ReversePrint {
                value: self.next_element_field_reverse || self.label_reverse,
            },
            element: self.next_element_field_element,
            font: self.get_next_font_or_default(),
            position: self.next_element_position,
            alignment: self.get_next_element_alignment_or_default(),
            width: self.default_barcode_dimensions.module_width,
            width_ratio: self.default_barcode_dimensions.width_ratio,
            height: self.default_barcode_dimensions.height,
            current_charset: self.current_charset,
        }
    }

    /// Forgets the field just finished; its font is kept for `^GS`.
    pub fn reset_field_state(&mut self)
        ensures
            after_field_reset(*old(self), *final(self)),
            origin_position(final(self).next_element_position),
            final(self).next_element_field_element is None,
            final(self).next_element_field_data@ == Seq::<char>::empty(),
            final(self).next_element_field_number == -1,
            final(self).next_element_alignment is None,
            final(self).last_field_font == next_font_or_default(*old(self)),
            final(self).next_font is None,
            !final(self).next_element_field_reverse,
            final(self).next_hex_escape_char == 0,
            *final(self) == (VirtualPrinter {
                next_element_position: final(self).next_element_position,
                next_element_field_element: None,
                next_element_field_data: final(self).next_element_field_data,
                next_element_field_number: -1i32,
                next_element_alignment: None,
                last_field_font: final(self).last_field_font,
                next_font: None,
                next_element_field_reverse: false,
                next_hex_escape_char: 0u8,
                ..*old(self)
            }),
    {
        self.next_element_position = LabelPosition {
            x: 0,
            y: 0,
            calculate_from_bottom: false,
            automatic_position: false,
        };
        self.next_element_field_element = None;
        self.next_element_field_data = String::new();
        self.next_element_field_number = -1;
        self.next_element_alignment = None;
        self.last_field_font = self.get_next_font_or_default();
        self.next_font = None;
        self.next_element_field_reverse = false;
        self.next_hex_escape_char = 0;
    }

    /// Starts a new label (`^XA`): no format download, not inverted.
    pub fn reset_label_state(&mut self)
        ensures
            final(self).next_download_format_name@ == Seq::<char>::empty(),
            *final(self) == (VirtualPrinter {
                next_download_format_name: final(self).next_download_format_name,
                label_inverted: false,
                ..*old(self)
            }),
    {
        self.next_download_format_name = String::new();
        self.label_inverted = false;
    }
}

} // verus!
