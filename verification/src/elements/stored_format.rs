//! Stored formats (`^DF`) and their recall (`^XF`): numbered fields of a
//! template wait for data (`^FN`) and are then resolved into drawable
//! elements.
use std::collections::HashMap;
use vstd::prelude::*;
use super::barcode_128::Barcode128WithData;
use super::barcode_2of5::Barcode2of5WithData;
use super::barcode_39::Barcode39WithData;
use super::barcode_aztec::BarcodeAztecWithData;
use super::barcode_datamatrix::BarcodeDatamatrixWithData;
use super::barcode_ean13::BarcodeEan13WithData;
use super::barcode_pdf417::BarcodePdf417WithData;
use super::barcode_qr::BarcodeQrWithData;
use super::field_alignment::FieldAlignment;
use super::field_block::FieldBlock;
use super::field_info::{FieldConfig, FieldInfo};
use super::field_orientation::FieldOrientation;
use super::font::FontInfo;
use super::graphic_symbol::GraphicSymbol;
use super::label_element::{LabelElement, same_element};
use super::label_position::LabelPosition;
use super::maxicode::MaxicodeWithData;
use super::reverse_print::ReversePrint;
use super::text_field::TextField;
use crate::encodings::{to_unicode_text, unicode_text};
use crate::text::{chars_of, push_char, string_of};

verus! {

broadcast use vstd::std_specs::hash::group_hash_axioms;

/// A format stored with `^DF`: the elements of its block.
#[derive(Debug)]
pub struct StoredFormat {
    pub inverted: bool,
    pub elements: Vec<LabelElement>,
}

/// A field of a stored format (`^FN` inside `^DF`).
#[derive(Debug)]
pub struct StoredField {
    pub number: i32,
    pub field: FieldInfo,
}

/// Data for a numbered field of a recalled format (`^FN` after `^XF`).
#[derive(Debug)]
pub struct RecalledFieldData {
    pub number: i32,
    pub data: String,
}

/// A stored field together with the data it received.
#[derive(Debug)]
pub struct RecalledField {
    pub stored: StoredField,
    pub data: String,
}

/// A recalled format being filled: its elements, and for each field number
/// the positions of the fields that still wait for data.
#[derive(Debug)]
pub struct RecalledFormat {
    pub inverted: bool,
    pub elements: Vec<LabelElement>,
    pub field_refs: HashMap<i32, Vec<usize>>,
}

/// Every position recorded in `refs` is below `n`.
pub open spec fn refs_in_range(refs: Map<i32, Vec<usize>>, n: nat) -> bool {
    forall|k: i32, j: int|
        refs.contains_key(k) && 0 <= j < refs[k]@.len() ==> #[trigger] refs[k]@[j] < n
}

/// The field information of a field that no stored field describes.
pub open spec fn blank_field(f: FieldInfo) -> bool {
    &&& f.reverse_print.value == false
    &&& f.element is None
    &&& f.font.name@ == Seq::<char>::empty()
    &&& f.font.width == 0
    &&& f.font.height == 0
    &&& f.font.orientation == FieldOrientation::Normal
    &&& f.position == LabelPosition {
        x: 0,
        y: 0,
        calculate_from_bottom: false,
        automatic_position: false,
    }
    &&& f.alignment == FieldAlignment::Left
    &&& f.width == 0
    &&& f.width_ratio == 0
    &&& f.height == 0
    &&& f.current_charset == 0
}

/// The positions waiting for field `n`, or none.
pub open spec fn waiting(refs: Map<i32, Vec<usize>>, n: i32) -> Seq<usize> {
    if refs.contains_key(n) {
        refs[n]@
    } else {
        seq![]
    }
}

/// What adding element `e` does to a recalled format's elements and waiting
/// positions (`b_*` before, `a_*` after).
pub open spec fn add_rel(
    b_elems: Seq<LabelElement>,
    b_refs: Map<i32, Vec<usize>>,
    e: LabelElement,
    a_elems: Seq<LabelElement>,
    a_refs: Map<i32, Vec<usize>>,
) -> bool {
    match e {
        LabelElement::StoredField(sf) => {
            &&& a_elems.len() == b_elems.len() + 1
            &&& a_elems.drop_last() == b_elems
            &&& a_elems.last() matches LabelElement::RecalledField(rf) && rf.stored == sf
                && rf.data@ == Seq::<char>::empty()
            &&& a_refs.dom() == b_refs.dom().insert(sf.number)
            &&& forall|k: i32| k != sf.number && b_refs.contains_key(k) ==> a_refs[k] == b_refs[k]
            &&& a_refs[sf.number]@ == waiting(b_refs, sf.number).push(b_elems.len() as usize)
        },
        LabelElement::RecalledFieldData(d) => {
            if b_refs.contains_key(d.number) {
                &&& a_refs == b_refs.remove(d.number)
                &&& a_elems.len() == b_elems.len()
                &&& forall|k: int|
                    0 <= k < b_elems.len() ==> if b_refs[d.number]@.contains(k as usize)
                        && b_elems[k] is RecalledField {
                        a_elems[k] matches LabelElement::RecalledField(rf) && rf.stored
                            == b_elems[k]->RecalledField_0.stored && rf.data == d.data
                    } else {
                        #[trigger] a_elems[k] == b_elems[k]
                    }
            } else {
                &&& a_refs == b_refs
                &&& a_elems.len() == b_elems.len() + 1
                &&& a_elems.drop_last() == b_elems
                &&& a_elems.last() matches LabelElement::RecalledField(rf) && rf.stored.number
                    == d.number && blank_field(rf.stored.field) && rf.data == d.data
            }
        },
        _ => {
            &&& a_elems == b_elems.push(e)
            &&& a_refs == b_refs
        },
    }
}

/// A stored field followed by the data for its number, where nothing waited
/// for that number before: the field stands last, filled in place with that
/// data, the elements before it are unchanged, no element is added for the
/// data, and the waiting positions are as they were before the field came.
pub proof fn lemma_store_then_fill(
    e0: Seq<LabelElement>,
    r0: Map<i32, Vec<usize>>,
    sf: StoredField,
    e1: Seq<LabelElement>,
    r1: Map<i32, Vec<usize>>,
    d: RecalledFieldData,
    e2: Seq<LabelElement>,
    r2: Map<i32, Vec<usize>>,
)
    requires
        e0.len() < usize::MAX,
        !r0.contains_key(sf.number),
        d.number == sf.number,
        add_rel(e0, r0, LabelElement::StoredField(sf), e1, r1),
        add_rel(e1, r1, LabelElement::RecalledFieldData(d), e2, r2),
    ensures
        e2.len() == e0.len() + 1,
        e2.last() matches LabelElement::RecalledField(rf) && rf.stored == sf && rf.data == d.data,
        forall|k: int| 0 <= k < e0.len() ==> #[trigger] e2[k] == e0[k],
        !r2.contains_key(sf.number),
        r2 == r0,
{
    let n = sf.number;
    assert(r1.contains_key(n));
    assert(r1[n]@ == seq![e0.len() as usize]);
    assert forall|k: int| 0 <= k < e0.len() implies #[trigger] e2[k] == e0[k] by {
        assert(e1[k] == e1.drop_last()[k]);
        if r1[n]@.contains(k as usize) {
            let j = choose|j: int| 0 <= j < r1[n]@.len() && r1[n]@[j] == k as usize;
            assert(j == 0);
        }
    }
    let last = e0.len() as int;
    assert(r1[n]@[0] == last as usize);
    assert(r1[n]@.contains(last as usize));
    assert(e1[last] == e1.last());
    assert(e2[last] == e2.last());
    assert(r2 =~= r0);
}

/// `\&` replaced by a line break, left to right.
pub open spec fn amp_newlines(s: Seq<char>) -> Seq<char>
    decreases s.len(),
{
    if s.len() == 0 {
        seq![]
    } else if s.len() >= 2 && s[0] == '\\' && s[1] == '&' {
        seq!['\n'] + amp_newlines(s.subrange(2, s.len() as int))
    } else {
        seq![s[0]] + amp_newlines(s.subrange(1, s.len() as int))
    }
}

/// The `^GS` symbol text: leading spaces, then at most one of `A` to `E`.
pub open spec fn gs_text(s: Seq<char>) -> Seq<char>
    decreases s.len(),
{
    if s.len() == 0 {
        seq![]
    } else if s[0] == ' ' {
        seq![' '] + gs_text(s.subrange(1, s.len() as int))
    } else if 'A' <= s[0] && s[0] <= 'E' {
        seq![s[0]]
    } else {
        seq![]
    }
}

/// A text field made from field information and its data, with an optional block.
pub open spec fn text_field_of(t: TextField, f: FieldInfo, data: Seq<char>, fb: Option<FieldBlock>) -> bool {
    &&& t.font == f.font
    &&& t.position == f.position
    &&& t.alignment == f.alignment
    &&& t.text@ == unicode_text(amp_newlines(data), f.current_charset)
    &&& t.block == fb
    &&& t.reverse_print == f.reverse_print
}

/// A `^GS` symbol drawn as text in the symbol font.
pub open spec fn symbol_field_of(t: TextField, f: FieldInfo, data: Seq<char>, gs: GraphicSymbol) -> bool {
    &&& t.font.name@ == seq!['G', 'S']
    &&& t.font.width == gs.width
    &&& t.font.height == gs.height
    &&& t.font.orientation == gs.orientation
    &&& t.position == f.position
    &&& t.alignment == f.alignment
    &&& t.text@ == gs_text(data)
    &&& t.block is None
    &&& t.reverse_print == f.reverse_print
}

/// A field that resolves to nothing: no field type and no data, or a symbol
/// field without a symbol letter.
pub open spec fn resolves_to_none(f: RecalledField) -> bool {
    ||| (f.stored.field.element is None && f.data@.len() == 0)
    ||| (f.stored.field.element matches Some(FieldConfig::GraphicSymbol(_)) && gs_text(
        f.data@,
    ).len() == 0)
}

/// The element a field with data resolves to.
pub open spec fn resolved_element(f: RecalledField, e: LabelElement) -> bool {
    let field = f.stored.field;
    let text = f.data;
    match field.element {
        Some(FieldConfig::Maxicode(mc)) => e == LabelElement::Maxicode(
            MaxicodeWithData {
                reverse_print: field.reverse_print,
                code: mc,
                position: field.position,
                data: text,
            },
        ),
        Some(FieldConfig::BarcodePdf417(bc)) => e == LabelElement::BarcodePdf417(
            BarcodePdf417WithData {
                reverse_print: field.reverse_print,
                barcode: bc,
                position: field.position,
                data: text,
            },
        ),
        Some(FieldConfig::Barcode128(bc)) => e == LabelElement::Barcode128(
            Barcode128WithData {
                reverse_print: field.reverse_print,
                barcode: bc,
                width: field.width,
                position: field.position,
                data: text,
            },
        ),
        Some(FieldConfig::BarcodeEan13(bc)) => e == LabelElement::BarcodeEan13(
            BarcodeEan13WithData {
                reverse_print: field.reverse_print,
                barcode: bc,
                width: field.width,
                position: field.position,
                data: text,
            },
        ),
        Some(FieldConfig::Barcode2of5(bc)) => e == LabelElement::Barcode2of5(
            Barcode2of5WithData {
                reverse_print: field.reverse_print,
                barcode: bc,
                width: field.width,
                width_ratio: field.width_ratio,
                position: field.position,
                data: text,
            },
        ),
        Some(FieldConfig::Barcode39(bc)) => e == LabelElement::Barcode39(
            Barcode39WithData {
                reverse_print: field.reverse_print,
                barcode: bc,
                width: field.width,
                width_ratio: field.width_ratio,
                position: field.position,
                data: text,
            },
        ),
        Some(FieldConfig::BarcodeAztec(bc)) => e == LabelElement::BarcodeAztec(
            BarcodeAztecWithData {
                reverse_print: field.reverse_print,
                barcode: bc,
                position: field.position,
                data: text,
            },
        ),
        Some(FieldConfig::BarcodeDatamatrix(bc)) => e == LabelElement::BarcodeDatamatrix(
            BarcodeDatamatrixWithData {
                reverse_print: field.reverse_print,
                barcode: bc,
                position: field.position,
                data: text,
            },
        ),
        Some(FieldConfig::BarcodeQr(bc)) => e == LabelElement::BarcodeQr(
            BarcodeQrWithData {
                reverse_print: field.reverse_print,
                barcode: bc,
                height: field.height,
                position: field.position,
                data: text,
            },
        ),
        Some(FieldConfig::GraphicSymbol(gs)) => e matches LabelElement::Text(t)
            && symbol_field_of(t, field, text@, gs),
        Some(FieldConfig::FieldBlock(fb)) => e matches LabelElement::Text(t) && text_field_of(
            t,
            field,
            text@,
            Some(fb),
        ),
        None => e matches LabelElement::Text(t) && text_field_of(t, field, text@, None),
    }
}

/// What a field resolves to: nothing, or its element.
pub open spec fn field_resolution(f: RecalledField, r: Option<LabelElement>) -> bool {
    if resolves_to_none(f) {
        r is None
    } else {
        r matches Some(e) && resolved_element(f, e)
    }
}

/// The drawable elements of a recalled format: each field replaced by what it
/// resolves to, everything else kept.
pub open spec fn resolves_to(es: Seq<LabelElement>, out: Seq<LabelElement>) -> bool
    decreases es.len(),
{
    if es.len() == 0 {
        out.len() == 0
    } else {
        match es.last() {
            LabelElement::RecalledField(rf) => if resolves_to_none(rf) {
                resolves_to(es.drop_last(), out)
            } else {
                &&& out.len() >= 1
                &&& resolved_element(rf, out.last())
                &&& resolves_to(es.drop_last(), out.drop_last())
            },
            e => {
                &&& out.len() >= 1
                &&& same_element(e, out.last())
                &&& resolves_to(es.drop_last(), out.drop_last())
            },
        }
    }
}

/// The symbol text of `^GS` data (`to_gs_text`).
pub fn to_gs_text(text: &str) -> (r: String)
    ensures
        r@ == gs_text(text@),
{
    let s = chars_of(text);
    let n = s.len();
    let mut res = String::new();
    let mut i: usize = 0;
    proof {
        assert(s@.subrange(0, n as int) =~= s@);
        assert(res@ + gs_text(text@) =~= gs_text(text@));
    }
    while i < n
        invariant
            i <= n,
            n == s@.len(),
            s@ == text@,
            res@ + gs_text(s@.subrange(i as int, n as int)) == gs_text(text@),
        decreases n - i,
    {
        let c = s[i];
        proof {
            assert(s@.subrange(i as int, n as int)[0] == c);
            assert(s@.subrange(i as int, n as int).subrange(1, (n - i) as int) =~= s@.subrange(
                i + 1,
                n as int,
            ));
        }
        if c == ' ' {
            push_char(&mut res, c);
            proof {
                assert(res@ + gs_text(s@.subrange(i + 1, n as int)) =~= gs_text(text@));
            }
            i += 1;
        } else {
            if 'A' <= c && c <= 'E' {
                push_char(&mut res, c);
            }
            proof {
                assert(res@ =~= gs_text(text@));
            }
            return res;
        }
    }
    proof {
        assert(res@ =~= gs_text(text@));
    }
    res
}

/// `text` with every `\&` replaced by a line break.
fn replace_amp_newlines(text: &str) -> (r: String)
    ensures
        r@ == amp_newlines(text@),
{
    let s = chars_of(text);
    let n = s.len();
    let mut out: Vec<char> = Vec::new();
    let mut i: usize = 0;
    proof {
        assert(s@.subrange(0, n as int) =~= s@);
        assert(out@ + amp_newlines(text@) =~= amp_newlines(text@));
    }
    while i < n
        invariant
            i <= n,
            n == s@.len(),
            s@ == text@,
            out@ + amp_newlines(s@.subrange(i as int, n as int)) == amp_newlines(text@),
        decreases n - i,
    {
        let ghost rest = s@.subrange(i as int, n as int);
        if i + 1 < n && s[i] == '\\' && s[i + 1] == '&' {
            out.push('\n');
            proof {
                assert(rest.subrange(2, rest.len() as int) =~= s@.subrange(i + 2, n as int));
                assert(out@ + amp_newlines(s@.subrange(i + 2, n as int)) =~= amp_newlines(text@));
            }
            i += 2;
        } else {
            out.push(s[i]);
            proof {
                assert(rest.subrange(1, rest.len() as int) =~= s@.subrange(i + 1, n as int));
                assert(out@ + amp_newlines(s@.subrange(i + 1, n as int)) =~= amp_newlines(text@));
            }
            i += 1;
        }
    }
    proof {
        assert(out@ + amp_newlines(s@.subrange(n as int, n as int)) =~= out@);
    }
    string_of(&out)
}

/// A text field for field data, converted from the field's character set
/// (`to_text_field`).
fn to_text_field(text: &str, field: &FieldInfo, fb: Option<FieldBlock>) -> (r: Result<
    Option<LabelElement>,
    String,
>)
    ensures
        r matches Ok(Some(LabelElement::Text(t))) && text_field_of(t, *field, text@, fb),
{
    let replaced = replace_amp_newlines(text);
    let unicode = to_unicode_text(replaced.as_str(), field.current_charset);
    match unicode {
        Ok(u) => Ok(
            Some(
                LabelElement::Text(
                    TextField {
                        font: field.font.copy(),
                        position: field.position,
                        alignment: field.alignment,
                        text: u,
                        block: fb,
                        reverse_print: field.reverse_print,
                    },
                ),
            ),
        ),
        Err(e) => Err(e),
    }
}

/// A `^GS` symbol as a text field in the symbol font, or nothing without a
/// symbol letter (`to_graphic_symbol_text_field`).
fn to_graphic_symbol_text_field(text: &str, field: &FieldInfo, gs: GraphicSymbol) -> (r: Result<
    Option<LabelElement>,
    String,
>)
    ensures
        r matches Ok(o) && (if gs_text(text@).len() == 0 {
            o is None
        } else {
            o matches Some(LabelElement::Text(t)) && symbol_field_of(t, *field, text@, gs)
        }),
{
    let g = to_gs_text(text);
    if g.as_str().is_empty() {
        return Ok(None);
    }
    let mut name = String::new();
    push_char(&mut name, 'G');
    push_char(&mut name, 'S');
    assert(name@ =~= seq!['G', 'S']);
    Ok(
        Some(
            LabelElement::Text(
                TextField {
                    font: FontInfo {
                        name,
                        width: gs.width,
                        height: gs.height,
                        orientation: gs.orientation,
                    },
                    position: field.position,
                    alignment: field.alignment,
                    text: g,
                    reverse_print: field.reverse_print,
                    block: None,
                },
            ),
        ),
    )
}

/// The drawable element of a field with its data, or nothing (`resolve_field`).
pub fn resolve_field(f: &RecalledField) -> (r: Result<Option<LabelElement>, String>)
    ensures
        r matches Ok(o) && field_resolution(*f, o),
{
    let field = &f.stored.field;
    let text = &f.data;
    if field.element.is_none() && text.as_str().is_empty() {
        return Ok(None);
    }
    match field.element {
        Some(FieldConfig::Maxicode(mc)) => Ok(
            Some(
                LabelElement::Maxicode(
                    MaxicodeWithData {
                        reverse_print: field.reverse_print,
                        code: mc,
                        position: field.position,
                        data: text.clone(),
                    },
                ),
            ),
        ),
        Some(FieldConfig::BarcodePdf417(bc)) => Ok(
            Some(
                LabelElement::BarcodePdf417(
                    BarcodePdf417WithData {
                        reverse_print: field.reverse_print,
                        barcode: bc,
                        position: field.position,
                        data: text.clone(),
                    },
                ),
            ),
        ),
        Some(FieldConfig::Barcode128(bc)) => Ok(
            Some(
                LabelElement::Barcode128(
                    Barcode128WithData {
                        reverse_print: field.reverse_print,
                        barcode: bc,
                        width: field.width,
                        position: field.position,
                        data: text.clone(),
                    },
                ),
            ),
        ),
        Some(FieldConfig::BarcodeEan13(bc)) => Ok(
            Some(
                LabelElement::BarcodeEan13(
                    BarcodeEan13WithData {
                        reverse_print: field.reverse_print,
                        barcode: bc,
                        width: field.width,
                        position: field.position,
                        data: text.clone(),
                    },
                ),
            ),
        ),
        Some(FieldConfig::Barcode2of5(bc)) => Ok(
            Some(
                LabelElement::Barcode2of5(
                    Barcode2of5WithData {
                        reverse_print: field.reverse_print,
                        barcode: bc,
                        width: field.width,
                        width_ratio: field.width_ratio,
                        position: field.position,
                        data: text.clone(),
                    },
                ),
            ),
        ),
        Some(FieldConfig::Barcode39(bc)) => Ok(
            Some(
                LabelElement::Barcode39(
                    Barcode39WithData {
                        reverse_print: field.reverse_print,
                        barcode: bc,
                        width: field.width,
                        width_ratio: field.width_ratio,
                        position: field.position,
                        data: text.clone(),
                    },
                ),
            ),
        ),
        Some(FieldConfig::BarcodeAztec(bc)) => Ok(
            Some(
                LabelElement::BarcodeAztec(
                    BarcodeAztecWithData {
                        reverse_print: field.reverse_print,
                        barcode: bc,
                        position: field.position,
                        data: text.clone(),
                    },
                ),
            ),
        ),
        Some(FieldConfig::BarcodeDatamatrix(bc)) => Ok(
            Some(
                LabelElement::BarcodeDatamatrix(
                    BarcodeDatamatrixWithData {
                        reverse_print: field.reverse_print,
                        barcode: bc,
                        position: field.position,
                        data: text.clone(),
                    },
                ),
            ),
        ),
        Some(FieldConfig::BarcodeQr(bc)) => Ok(
            Some(
                LabelElement::BarcodeQr(
                    BarcodeQrWithData {
                        reverse_print: field.reverse_print,
                        barcode: bc,
                        height: field.height,
                        position: field.position,
                        data: text.clone(),
                    },
                ),
            ),
        ),
        Some(FieldConfig::GraphicSymbol(gs)) => to_graphic_symbol_text_field(
            text.as_str(),
            field,
            gs,
        ),
        Some(FieldConfig::FieldBlock(fb)) => to_text_field(text.as_str(), field, Some(fb)),
        None => to_text_field(text.as_str(), field, None),
    }
}

/// `states` records each step of adding `added` (copies of `es`) to an
/// empty recalled format.
pub open spec fn build_chain(
    es: Seq<LabelElement>,
    added: Seq<LabelElement>,
    states: Seq<(Seq<LabelElement>, Map<i32, Vec<usize>>)>,
) -> bool {
    &&& added.len() == es.len()
    &&& states.len() == es.len() + 1
    &&& states[0].0 == Seq::<LabelElement>::empty()
    &&& states[0].1 == Map::<i32, Vec<usize>>::empty()
    &&& forall|k: int| 0 <= k < es.len() ==> #[trigger] same_element(es[k], added[k])
    &&& forall|k: int|
        0 <= k < es.len() ==> #[trigger] add_rel(
            states[k].0,
            states[k].1,
            added[k],
            states[k + 1].0,
            states[k + 1].1,
        )
}

/// Adding the elements `es` one by one to an empty recalled format gives
/// `elems` and `refs`.
pub open spec fn built_from(
    es: Seq<LabelElement>,
    elems: Seq<LabelElement>,
    refs: Map<i32, Vec<usize>>,
) -> bool {
    exists|added: Seq<LabelElement>, states: Seq<(Seq<LabelElement>, Map<i32, Vec<usize>>)>|
        #[trigger] build_chain(es, added, states) && states[es.len() as int].0 == elems
            && states[es.len() as int].1 == refs
}

/// A field of a recalled format that no stored field describes.
fn blank_field_info() -> (f: FieldInfo)
    ensures
        blank_field(f),
{
    FieldInfo {
        reverse_print: ReversePrint { value: false },
        element: None,
        font: FontInfo::empty(),
        position: LabelPosition {
            x: 0,
            y: 0,
            calculate_from_bottom: false,
            automatic_position: false,
        },
        alignment: FieldAlignment::Left,
        width: 0,
        width_ratio: 0,
        height: 0,
        current_charset: 0,
    }
}

impl StoredFormat {
    /// A recalled format whose fields wait for data: each element is added in
    /// turn as `RecalledFormat::add_element` adds it.
    pub fn to_recalled_format(&self) -> (rf: RecalledFormat)
        ensures
            rf.inverted == self.inverted,
            rf.wf(),
            built_from(self.elements@, rf.elements@, rf.field_refs@),
    {
        let mut rf = RecalledFormat {
            inverted: self.inverted,
            elements: Vec::new(),
            field_refs: HashMap::new(),
        };
        let ghost mut added: Seq<LabelElement> = seq![];
        let ghost mut states: Seq<(Seq<LabelElement>, Map<i32, Vec<usize>>)> = seq![
            (rf.elements@, rf.field_refs@),
        ];
        let n = self.elements.len();
        let mut k: usize = 0;
        while k < n
            invariant
                k <= n,
                n == self.elements@.len(),
                rf.inverted == self.inverted,
                rf.wf(),
                added.len() == k,
                states.len() == k + 1,
                states[0].0 == Seq::<LabelElement>::empty(),
                states[0].1 == Map::<i32, Vec<usize>>::empty(),
                forall|j: int| 0 <= j < k ==> #[trigger] same_element(self.elements@[j], added[j]),
                forall|j: int|
                    0 <= j < k ==> #[trigger] add_rel(
                        states[j].0,
                        states[j].1,
                        added[j],
                        states[j + 1].0,
                        states[j + 1].1,
                    ),
                states[k as int].0 == rf.elements@,
                states[k as int].1 == rf.field_refs@,
            decreases n - k,
        {
            let e = self.elements[k].copy();
            let ghost eg = e;
            let ghost before = (rf.elements@, rf.field_refs@);
            rf.add_element(e);
            proof {
                let added0 = added;
                let states0 = states;
                added = added.push(eg);
                states = states.push((rf.elements@, rf.field_refs@));
                assert forall|j: int| 0 <= j < k + 1 implies #[trigger] same_element(
                    self.elements@[j],
                    added[j],
                ) by {
                    if j < k {
                        assert(added[j] == added0[j]);
                        assert(same_element(self.elements@[j], added0[j]));
                    }
                }
                assert forall|j: int| 0 <= j < k + 1 implies #[trigger] add_rel(
                    states[j].0,
                    states[j].1,
                    added[j],
                    states[j + 1].0,
                    states[j + 1].1,
                ) by {
                    if j < k {
                        assert(added[j] == added0[j]);
                        assert(states[j] == states0[j]);
                        assert(states[j + 1] == states0[j + 1]);
                        assert(add_rel(
                            states0[j].0,
                            states0[j].1,
                            added0[j],
                            states0[j + 1].0,
                            states0[j + 1].1,
                        ));
                    } else {
                        assert(states[j] == before);
                    }
                }
            }
            k += 1;
        }
        proof {
            assert(build_chain(self.elements@, added, states));
        }
        rf
    }
}

impl RecalledFormat {
    /// Every waiting position names an element.
    pub open spec fn wf(&self) -> bool {
        refs_in_range(self.field_refs@, self.elements@.len())
    }

    /// Adds an element: a stored field waits for data, field data fills the
    /// fields that wait for its number (or becomes a field of its own), and
    /// anything else is kept as it is. Always returns `true`.
    pub fn add_element(&mut self, element: LabelElement) -> (r: bool)
        requires
            old(self).wf(),
        ensures
            r,
            final(self).wf(),
            final(self).inverted == old(self).inverted,
            add_rel(
                old(self).elements@,
                old(self).field_refs@,
                element,
                final(self).elements@,
                final(self).field_refs@,
            ),
    {
        match element {
            LabelElement::StoredField(sf) => {
                let idx = self.elements.len();
                let number = sf.number;
                let ghost sfg = sf;
                let ghost b_refs = self.field_refs@;
                self.elements.push(
                    LabelElement::RecalledField(RecalledField { stored: sf, data: String::new() }),
                );
                assert(self.elements@.drop_last() =~= old(self).elements@);
                let mut waiting_now = match self.field_refs.remove(&number) {
                    Some(v) => v,
                    None => Vec::new(),
                };
                assert(waiting_now@ == waiting(b_refs, number));
                waiting_now.push(idx);
                self.field_refs.insert(number, waiting_now);
                proof {
                    assert(self.field_refs@.dom() =~= b_refs.dom().insert(number));
                    assert forall|k: i32, j: int|
                        self.field_refs@.contains_key(k) && 0 <= j
                            < self.field_refs@[k]@.len() implies #[trigger] self.field_refs@[k]@[j]
                        < self.elements@.len() by {
                        if k != number {
                            assert(self.field_refs@[k] == b_refs[k]);
                        }
                    }
                }
                true
            },
            LabelElement::RecalledFieldData(rfd) => {
                let _len = self.elements.len();
                let ghost b_elems = self.elements@;
                let ghost b_refs = self.field_refs@;
                match self.field_refs.remove(&rfd.number) {
                    Some(indices) => {
                        let mut j: usize = 0;
                        while j < indices.len()
                            invariant
                                j <= indices@.len(),
                                indices == b_refs[rfd.number],
                                b_refs.contains_key(rfd.number),
                                b_elems.len() <= usize::MAX,
                                refs_in_range(b_refs, b_elems.len()),
                                self.elements@.len() == b_elems.len(),
                                self.field_refs@ == b_refs.remove(rfd.number),
                                self.inverted == old(self).inverted,
                                forall|k: int|
                                    0 <= k < b_elems.len() ==> if indices@.take(j as int).contains(
                                        k as usize,
                                    ) && b_elems[k] is RecalledField {
                                        self.elements@[k] matches LabelElement::RecalledField(rf)
                                            && rf.stored == b_elems[k]->RecalledField_0.stored
                                            && rf.data == rfd.data
                                    } else {
                                        #[trigger] self.elements@[k] == b_elems[k]
                                    },
                            decreases indices@.len() - j,
                        {
                            let idx = indices[j];
                            assert(idx < b_elems.len());
                            let replacement = match &self.elements[idx] {
                                LabelElement::RecalledField(f) => Some(
                                    LabelElement::RecalledField(
                                        RecalledField {
                                            stored: StoredField {
                                                number: f.stored.number,
                                                field: f.stored.field.copy(),
                                            },
                                            data: rfd.data.clone(),
                                        },
                                    ),
                                ),
                                _ => None,
                            };
                            let ghost before = self.elements@;
                            if let Some(new_el) = replacement {
                                self.elements.set(idx, new_el);
                            }
                            proof {
                                assert forall|k: int| 0 <= k < b_elems.len() implies if indices@.take(
                                    j + 1,
                                ).contains(k as usize) && b_elems[k] is RecalledField {
                                    self.elements@[k] matches LabelElement::RecalledField(rf)
                                        && rf.stored == b_elems[k]->RecalledField_0.stored
                                        && rf.data == rfd.data
                                } else {
                                    #[trigger] self.elements@[k] == b_elems[k]
                                } by {
                                    assert(indices@.take(j + 1) == indices@.take(j as int).push(
                                        idx,
                                    ));
                                    if k != idx as int {
                                        assert(self.elements@[k] == before[k]);
                                        if indices@.take(j + 1).contains(k as usize) {
                                            let w = choose|w: int|
                                                0 <= w < indices@.take(j + 1).len()
                                                    && #[trigger] indices@.take(j + 1)[w]
                                                    == k as usize;
                                            assert(indices@.take(j + 1)[w] == indices@[w]);
                                            assert(w != j);
                                            assert(indices@.take(j as int)[w] == k as usize);
                                        }
                                    } else {
                                        assert(indices@.take(j + 1)[j as int] == idx);
                                        if indices@.take(j as int).contains(k as usize) {
                                        }
                                    }
                                }
                            }
                            j += 1;
                        }
                        proof {
                            assert(indices@.take(indices@.len() as int) =~= indices@);
                        }
                    },
                    None => {
                        self.elements.push(
                            LabelElement::RecalledField(
                                RecalledField {
                                    stored: StoredField {
                                        number: rfd.number,
                                        field: blank_field_info(),
                                    },
                                    data: rfd.data,
                                },
                            ),
                        );
                        proof {
                            assert(self.elements@.drop_last() =~= b_elems);
                            assert(self.field_refs@ =~= b_refs);
                        }
                    },
                }
                true
            },
            other => {
                let ghost o = other;
                self.elements.push(other);
                assert(self.elements@ == old(self).elements@.push(o));
                true
            },
        }
    }

    /// The drawable elements: each field resolved with its data, everything
    /// else kept.
    pub fn resolve_elements(&self) -> (r: Result<Vec<LabelElement>, String>)
        ensures
            r matches Ok(v) && resolves_to(self.elements@, v@),
    {
        let mut res: Vec<LabelElement> = Vec::new();
        let n = self.elements.len();
        let mut k: usize = 0;
        while k < n
            invariant
                k <= n,
                n == self.elements@.len(),
                resolves_to(self.elements@.take(k as int), res@),
            decreases n - k,
        {
            proof {
                let t = self.elements@.take(k + 1);
                assert(t.drop_last() =~= self.elements@.take(k as int));
                assert(t.last() == self.elements@[k as int]);
            }
            match &self.elements[k] {
                LabelElement::RecalledField(rf) => {
                    match resolve_field(rf) {
                        Ok(Some(e)) => {
                            let ghost r0 = res@;
                            res.push(e);
                            proof {
                                assert(res@.drop_last() =~= r0);
                            }
                        },
                        Ok(None) => {},
                        Err(e) => {
                            return Err(e);
                        },
                    }
                },
                other => {
                    let ghost r0 = res@;
                    res.push(other.copy());
                    proof {
                        assert(res@.drop_last() =~= r0);
                    }
                },
            }
            k += 1;
        }
        proof {
            assert(self.elements@.take(n as int) =~= self.elements@);
        }
        Ok(res)
    }
}

} // verus!
