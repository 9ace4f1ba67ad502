//! The inspector panel: what it shows for the current selection, when its
//! cached property editors are dropped, and reading a color typed into it as
//! hexadecimal `rrggbb`.

use vstd::prelude::*;
use vstd::utf8::is_char_boundary;
use vstd::string::StringSliceAdditionalSpecFns;
use crate::editor::selection::SelectionSet;

verus! {

/// What the inspector panel shows.
pub enum InspectorView {
    /// Nothing is selected: the scene's global lighting controls.
    Lighting,
    /// Several objects are selected (this many): their aggregate properties.
    Multiple(usize),
    /// Exactly this object is selected: its components.
    Single(u64),
}

/// The inspector's memory between frames: the entity it shows, and the
/// property editors (of the caller's type `E`) it keeps for that entity's
/// components and for the global lighting controls.
pub struct InspectorState<E> {
    pub selected_entity: Option<u64>,
    pub editors: Vec<E>,
    pub lighting_editors: Vec<E>,
}

impl<E> Default for InspectorState<E> {
    fn default() -> (s: Self)
        ensures
            s.selected_entity is None,
            s.editors@.len() == 0,
            s.lighting_editors@.len() == 0,
    {
        InspectorState { selected_entity: None, editors: Vec::new(), lighting_editors: Vec::new() }
    }
}

impl<E> InspectorState<E> {
    /// Chooses the view for `selection`: the lighting controls when it is
    /// empty, the aggregate view when it holds several objects (in both cases
    /// no entity is shown), and the one selected object otherwise. When that
    /// object is not the one shown before, the component editors are dropped.
    /// The lighting editors are kept.
    pub fn show_selection(&mut self, selection: &SelectionSet) -> (view: InspectorView)
        ensures
            selection.entities@.len() == 0 ==> view == InspectorView::Lighting && final(self).selected_entity is None,
            selection.entities@.len() > 1 ==> view == InspectorView::Multiple(selection.entities@.len() as usize)
                && final(self).selected_entity is None,
            selection.entities@.len() != 1 ==> final(self).editors@ == old(self).editors@,
            selection.entities@.len() == 1 ==> {
                &&& view matches InspectorView::Single(e)
                &&& selection.entities@ == Set::<u64>::empty().insert(e)
                &&& final(self).selected_entity == Some(e)
                &&& final(self).editors@ == (if old(self).selected_entity == Some(e) {
                    old(self).editors@
                } else {
                    Seq::<E>::empty()
                })
            },
            final(self).lighting_editors@ == old(self).lighting_editors@,
    {
        let n = selection.len();
        if n == 0 {
            self.selected_entity = None;
            return InspectorView::Lighting;
        }
        if n > 1 {
            self.selected_entity = None;
            return InspectorView::Multiple(n);
        }
        match selection.single() {
            Some(e) => {
                let changed = match self.selected_entity {
                    Some(shown) => shown != e,
                    None => true,
                };
                if changed {
                    self.selected_entity = Some(e);
                    self.editors.clear();
                }
                InspectorView::Single(e)
            },
            None => InspectorView::Lighting,
        }
    }
}

/// `s` without its leading `#` characters.
pub open spec fn trim_hashes(s: Seq<u8>) -> Seq<u8>
    decreases s.len(),
{
    if s.len() > 0 && s[0] == 35u8 {
        trim_hashes(s.skip(1))
    } else {
        s
    }
}

/// The value of a hexadecimal digit (`0-9`, `a-f`, `A-F`), if `c` is one.
pub open spec fn hex_digit(c: u8) -> Option<u8> {
    if 48 <= c <= 57 {
        Some((c - 48) as u8)
    } else if 97 <= c <= 102 {
        Some((c - 87) as u8)
    } else if 65 <= c <= 70 {
        Some((c - 55) as u8)
    } else {
        None
    }
}

/// A byte as `u8::from_str_radix(_, 16)` reads the two-byte text `a b`: an
/// optional `+` then one digit, or two digits.
pub open spec fn hex_pair(a: u8, b: u8) -> Option<u8> {
    if a == 43u8 {
        hex_digit(b)
    } else {
        match (hex_digit(a), hex_digit(b)) {
            (Some(h), Some(l)) => Some((h * 16 + l) as u8),
            _ => None,
        }
    }
}

/// The color written in `s` (UTF-8 bytes): leading `#`s are dropped, six
/// bytes must remain, read in pairs as red, green and blue.
pub open spec fn hex_color(s: Seq<u8>) -> Option<(u8, u8, u8)> {
    let t = trim_hashes(s);
    if t.len() != 6 {
        None
    } else {
        match (hex_pair(t[0], t[1]), hex_pair(t[2], t[3]), hex_pair(t[4], t[5])) {
            (Some(r), Some(g), Some(b)) => Some((r, g, b)),
            _ => None,
        }
    }
}

proof fn lemma_trim_prefix(s: Seq<u8>, k: int)
    requires
        0 <= k <= s.len(),
        forall|i: int| 0 <= i < k ==> s[i] == 35u8,
    ensures
        trim_hashes(s) == trim_hashes(s.skip(k)),
    decreases k,
{
    if k > 0 {
        assert(s[0] == 35u8);
        assert(trim_hashes(s) == trim_hashes(s.skip(1)));
        assert(s.skip(1).skip(k - 1) =~= s.skip(k));
        assert forall|i: int| 0 <= i < k - 1 implies s.skip(1)[i] == 35u8 by {
            assert(s.skip(1)[i] == s[i + 1]);
        }
        lemma_trim_prefix(s.skip(1), k - 1);
    } else {
        assert(s.skip(0) =~= s);
    }
}

/// `c` is a character that writes the hexadecimal digit `v`: `0`-`9` for
/// 0 to 9, and `a`-`f` or `A`-`F` for 10 to 15.
pub open spec fn writes_hex_digit(c: u8, v: int) -> bool {
    ||| 0 <= v < 10 && c == '0' as u8 + v
    ||| 10 <= v < 16 && (c == 'a' as u8 + (v - 10) || c == 'A' as u8 + (v - 10))
}

/// Every hexadecimal digit is read at its value, and nothing else reads as a
/// digit.
pub proof fn lemma_hex_digit_values(c: u8)
    ensures
        forall|v: int| writes_hex_digit(c, v) ==> hex_digit(c) == Some(v as u8),
        hex_digit(c) matches Some(v) ==> writes_hex_digit(c, v as int),
{
}

/// Two digits written for `hi` and `lo` read as the byte `16 * hi + lo`.
pub proof fn lemma_hex_pair_value(a: u8, b: u8, hi: int, lo: int)
    requires
        writes_hex_digit(a, hi),
        writes_hex_digit(b, lo),
    ensures
        hex_pair(a, b) == Some((16 * hi + lo) as u8),
        0 <= 16 * hi + lo < 256,
{
    lemma_hex_digit_values(a);
    lemma_hex_digit_values(b);
}

/// A colour written as `#` (any number of them) and six hexadecimal digits
/// reads as its three channels, each `16 * hi + lo` of its two digits.
pub proof fn lemma_hex_color_value(s: Seq<u8>, d: Seq<int>)
    requires
        trim_hashes(s).len() == 6,
        d.len() == 6,
        forall|i: int| 0 <= i < 6 ==> writes_hex_digit(#[trigger] trim_hashes(s)[i], d[i]),
    ensures
        hex_color(s) == Some((
            (16 * d[0] + d[1]) as u8,
            (16 * d[2] + d[3]) as u8,
            (16 * d[4] + d[5]) as u8,
        )),
{
    let t = trim_hashes(s);
    assert(writes_hex_digit(t[0], d[0]));
    assert(writes_hex_digit(t[1], d[1]));
    assert(writes_hex_digit(t[2], d[2]));
    assert(writes_hex_digit(t[3], d[3]));
    assert(writes_hex_digit(t[4], d[4]));
    assert(writes_hex_digit(t[5], d[5]));
    lemma_hex_pair_value(t[0], t[1], d[0], d[1]);
    lemma_hex_pair_value(t[2], t[3], d[2], d[3]);
    lemma_hex_pair_value(t[4], t[5], d[4], d[5]);
}

fn hex_digit_of(c: u8) -> (r: Option<u8>)
    ensures
        r == hex_digit(c),
{
    if 48 <= c && c <= 57 {
        Some(c - 48)
    } else if 97 <= c && c <= 102 {
        Some(c - 87)
    } else if 65 <= c && c <= 70 {
        Some(c - 55)
    } else {
        None
    }
}

fn hex_pair_of(a: u8, b: u8) -> (r: Option<u8>)
    ensures
        r == hex_pair(a, b),
{
    if a == 43 {
        return hex_digit_of(b);
    }
    match (hex_digit_of(a), hex_digit_of(b)) {
        (Some(h), Some(l)) => Some(h * 16 + l),
        _ => None,
    }
}

/// Reads `hex` as a color `rrggbb`, after any leading `#`s. Six bytes must
/// remain; each pair is one channel. The six bytes are cut at 2 and 4, so
/// those must fall between characters.
pub fn parse_hex_color(hex: &str) -> (r: Option<(u8, u8, u8)>)
    requires
        trim_hashes(hex.spec_bytes()).len() == 6 ==> {
            &&& is_char_boundary(trim_hashes(hex.spec_bytes()), 2)
            &&& is_char_boundary(trim_hashes(hex.spec_bytes()), 4)
        },
    ensures
        r == hex_color(hex.spec_bytes()),
{
    let bytes = hex.as_bytes();
    let mut k: usize = 0;
    while k < bytes.len() && bytes[k] == 35
        invariant
            k <= bytes@.len(),
            bytes@ == hex.spec_bytes(),
            forall|i: int| 0 <= i < k ==> bytes@[i] == 35u8,
        decreases bytes@.len() - k,
    {
        k = k + 1;
    }
    proof {
        lemma_trim_prefix(bytes@, k as int);
        assert(trim_hashes(bytes@.skip(k as int)) == bytes@.skip(k as int));
    }
    if bytes.len() - k != 6 {
        return None;
    }
    let r = hex_pair_of(bytes[k], bytes[k + 1]);
    let g = hex_pair_of(bytes[k + 2], bytes[k + 3]);
    let b = hex_pair_of(bytes[k + 4], bytes[k + 5]);
    match (r, g, b) {
        (Some(r), Some(g), Some(b)) => Some((r, g, b)),
        _ => None,
    }
}

} // verus!
