//! Minimal EDID 1.x reader, used to recover a panel's serial number.
//!
//! The identifiers the backends hand out track the *port* a monitor is
//! plugged into, not the monitor. Two identical panels swapped between two
//! cables keep their port ids and exchange their pictures. The EDID serial is
//! the one field that follows the panel, so it is what a binding is checked
//! against before any write.

use vstd::prelude::*;
use vstd::slice::slice_subrange;

use crate::digits::{
    dec, decimal, hex, hex_padded, law_thirty_two_bits_are_eight_digits, worth,
};
use crate::text::{
    cat2, cat3, cut_out, law_a_text_is_trimmed_one_way, opt_text, same, string_of, trim, trimmed,
};

verus! {

#[derive(Debug, Clone, Copy, PartialEq, Eq, Structural)]
pub enum EdidError {
    TooShort(usize),
    BadHeader,
}

pub open spec fn edid_error_text(e: EdidError) -> Seq<char> {
    match e {
        EdidError::TooShort(n) => "EDID block is "@ + decimal(n as nat)
            + " bytes, expected at least 128"@,
        EdidError::BadHeader => "EDID header signature is missing"@,
    }
}

impl EdidError {
    pub fn to_string(&self) -> (r: String)
        ensures
            r@ == edid_error_text(*self),
    {
        match self {
            EdidError::TooShort(n) => cat3(
                "EDID block is ",
                dec(*n as u64).as_str(),
                " bytes, expected at least 128",
            ),
            EdidError::BadHeader => "EDID header signature is missing".to_owned(),
        }
    }
}

pub const TAG_SERIAL: u8 = 0xFF;

pub const TAG_NAME: u8 = 0xFC;

#[derive(Debug, PartialEq, Eq)]
pub struct EdidInfo {
    /// Three-letter PNP id, e.g. `AOC`.
    pub manufacturer: Option<String>,
    /// Descriptor 0xFC, e.g. `27P2DG5`.
    pub model_name: Option<String>,
    /// Descriptor 0xFF, e.g. `ASFPA9A001109`.
    pub serial_text: Option<String>,
    /// Bytes 12..16. Often 0, and often identical across units of a model.
    pub serial_binary: u32,
    pub product_code: u16,
    pub manufacture_year: Option<u16>,
    pub manufacture_week: Option<u8>,
}

pub struct EdidInfoView {
    pub manufacturer: Option<Seq<char>>,
    pub model_name: Option<Seq<char>>,
    pub serial_text: Option<Seq<char>>,
    pub serial_binary: u32,
    pub product_code: u16,
    pub manufacture_year: Option<u16>,
    pub manufacture_week: Option<u8>,
}

impl DeepView for EdidInfo {
    type V = EdidInfoView;

    open spec fn deep_view(&self) -> EdidInfoView {
        EdidInfoView {
            manufacturer: opt_text(self.manufacturer),
            model_name: opt_text(self.model_name),
            serial_text: opt_text(self.serial_text),
            serial_binary: self.serial_binary,
            product_code: self.product_code,
            manufacture_year: self.manufacture_year,
            manufacture_week: self.manufacture_week,
        }
    }
}

impl Clone for EdidInfo {
    fn clone(&self) -> (r: Self)
        ensures
            r == *self,
    {
        EdidInfo {
            manufacturer: self.manufacturer.clone(),
            model_name: self.model_name.clone(),
            serial_text: self.serial_text.clone(),
            serial_binary: self.serial_binary,
            product_code: self.product_code,
            manufacture_year: self.manufacture_year,
            manufacture_week: self.manufacture_week,
        }
    }
}

impl Default for EdidInfo {
    fn default() -> (r: Self)
        ensures
            r.deep_view() == (EdidInfoView {
                manufacturer: None,
                model_name: None,
                serial_text: None,
                serial_binary: 0,
                product_code: 0,
                manufacture_year: None,
                manufacture_week: None,
            }),
    {
        EdidInfo {
            manufacturer: None,
            model_name: None,
            serial_text: None,
            serial_binary: 0,
            product_code: 0,
            manufacture_year: None,
            manufacture_week: None,
        }
    }
}

impl EdidInfoView {
    /// The serial to identify the panel by: the readable one unless it is
    /// empty or the placeholder `0`, else the number unless it is zero.
    pub open spec fn best_serial(self) -> Option<Seq<char>> {
        if self.serial_text is Some && self.serial_text->0.len() > 0 && self.serial_text->0
            != "0"@ {
            self.serial_text
        } else if self.serial_binary != 0 {
            Some("bin:"@ + hex_padded(self.serial_binary as nat, 8))
        } else {
            None
        }
    }
}

impl EdidInfo {
    /// The best serial available, preferring the human-readable descriptor.
    ///
    /// Returns `None` rather than inventing one: a monitor with no serial must
    /// be handled by the ambiguity path, not bound to a guess.
    pub fn best_serial(&self) -> (r: Option<String>)
        ensures
            opt_text(r) == self.deep_view().best_serial(),
    {
        if let Some(text) = &self.serial_text {
            if text.as_str().unicode_len() > 0 && !same(text.as_str(), "0") {
                return Some(text.clone());
            }
        }
        if self.serial_binary != 0 {
            return Some(cat2("bin:", hex(self.serial_binary, 8).as_str()));
        }
        None
    }
}

/// One letter of a manufacturer id, counted from `A` = 1.
pub open spec fn pnp_letter(v: int) -> char {
    (64 + v) as char
}

/// The manufacturer id packed into two bytes: three letters of five bits.
pub open spec fn pnp_id(packed: int) -> Option<Seq<char>> {
    let a = (packed / 1024) % 32;
    let b = (packed / 32) % 32;
    let c = packed % 32;
    if 1 <= a <= 26 && 1 <= b <= 26 && 1 <= c <= 26 {
        Some(seq![pnp_letter(a), pnp_letter(b), pnp_letter(c)])
    } else {
        None
    }
}

/// The bytes before the first line feed.
pub open spec fn before_line_feed(b: Seq<u8>) -> Seq<u8>
    decreases b.len(),
{
    if b.len() == 0 || b[0] == 0x0A {
        Seq::empty()
    } else {
        seq![b[0]] + before_line_feed(b.skip(1))
    }
}

/// The printable ASCII characters among some bytes.
pub open spec fn printable(b: Seq<u8>) -> Seq<char>
    decreases b.len(),
{
    if b.len() == 0 {
        Seq::empty()
    } else if 0x20 <= b.last() < 0x7F {
        printable(b.drop_last()).push(b.last() as char)
    } else {
        printable(b.drop_last())
    }
}

/// The text of a descriptor: it ends at a line feed and is padded with
/// spaces. Nothing printable is no text.
pub open spec fn descriptor_text(b: Seq<u8>) -> Option<Seq<char>> {
    let t = trimmed(printable(before_line_feed(b)));
    if t.len() > 0 {
        Some(t)
    } else {
        None
    }
}

/// A text descriptor of the kind `tag` stands at `off`.
pub open spec fn has_descriptor(e: Seq<u8>, off: int, tag: u8) -> bool {
    e[off] == 0 && e[off + 1] == 0 && e[off + 2] == 0 && e[off + 3] == tag
}

/// The text of the last of the four descriptors of the kind `tag`.
pub open spec fn last_descriptor(e: Seq<u8>, tag: u8) -> Option<Seq<char>> {
    if has_descriptor(e, 108, tag) {
        descriptor_text(e.subrange(113, 126))
    } else if has_descriptor(e, 90, tag) {
        descriptor_text(e.subrange(95, 108))
    } else if has_descriptor(e, 72, tag) {
        descriptor_text(e.subrange(77, 90))
    } else if has_descriptor(e, 54, tag) {
        descriptor_text(e.subrange(59, 72))
    } else {
        None
    }
}

/// The eight bytes every EDID block begins with.
pub open spec fn has_header(e: Seq<u8>) -> bool {
    &&& e[0] == 0x00
    &&& e[1] == 0xFF
    &&& e[2] == 0xFF
    &&& e[3] == 0xFF
    &&& e[4] == 0xFF
    &&& e[5] == 0xFF
    &&& e[6] == 0xFF
    &&& e[7] == 0x00
}

/// What an EDID block says.
pub open spec fn edid_info(e: Seq<u8>) -> EdidInfoView {
    EdidInfoView {
        manufacturer: pnp_id(e[8] * 256 + e[9]),
        model_name: last_descriptor(e, TAG_NAME),
        serial_text: last_descriptor(e, TAG_SERIAL),
        serial_binary: (e[12] + 0x100 * e[13] + 0x1_0000 * e[14] + 0x100_0000 * e[15]) as u32,
        product_code: (e[10] + 0x100 * e[11]) as u16,
        manufacture_year: if e[17] > 0 {
            Some((1990 + e[17]) as u16)
        } else {
            None
        },
        manufacture_week: if 0 < e[16] <= 54 {
            Some(e[16])
        } else {
            None
        },
    }
}

fn decode_pnp_id(packed: u16) -> (r: Option<String>)
    ensures
        opt_text(r) == pnp_id(packed as int),
{
    let a: u8 = ((packed / 1024) % 32) as u8;
    let b: u8 = ((packed / 32) % 32) as u8;
    let c: u8 = (packed % 32) as u8;
    if a == 0 || a > 26 || b == 0 || b > 26 || c == 0 || c > 26 {
        return None;
    }
    let mut out = String::new();
    out.push((64 + a) as char);
    out.push((64 + b) as char);
    out.push((64 + c) as char);
    assert(out@ =~= seq![pnp_letter(a as int), pnp_letter(b as int), pnp_letter(c as int)]);
    Some(out)
}

proof fn lemma_before_line_feed(b: Seq<u8>, n: int)
    requires
        0 <= n <= b.len(),
        forall|j: int| 0 <= j < n ==> b[j] != 0x0A,
        n == b.len() || b[n] == 0x0A,
    ensures
        before_line_feed(b) == b.take(n),
    decreases b.len(),
{
    if n == 0 {
        assert(b.take(0) =~= Seq::<u8>::empty());
    } else {
        assert forall|j: int| 0 <= j < n - 1 implies b.skip(1)[j] != 0x0A by {
            assert(b.skip(1)[j] == b[j + 1]);
        }
        if n < b.len() {
            assert(b.skip(1)[n - 1] == b[n]);
        }
        lemma_before_line_feed(b.skip(1), n - 1);
        assert(seq![b[0]] + b.skip(1).take(n - 1) =~= b.take(n));
    }
}

/// Descriptor text is terminated by 0x0A and padded with spaces.
fn decode_descriptor_text(bytes: &[u8]) -> (r: Option<String>)
    ensures
        opt_text(r) == descriptor_text(bytes@),
{
    let mut end: usize = 0;
    while end < bytes.len() && bytes[end] != 0x0A
        invariant
            end <= bytes.len(),
            forall|j: int| 0 <= j < end ==> bytes@[j] != 0x0A,
        decreases bytes.len() - end,
    {
        end += 1;
    }
    proof {
        lemma_before_line_feed(bytes@, end as int);
    }
    let ghost kept = bytes@.take(end as int);
    let mut cs: Vec<char> = Vec::new();
    let mut i: usize = 0;
    assert(kept.take(0) =~= Seq::<u8>::empty());
    while i < end
        invariant
            i <= end <= bytes.len(),
            kept == bytes@.take(end as int),
            cs@ == printable(kept.take(i as int)),
        decreases end - i,
    {
        assert(kept.take(i as int + 1).drop_last() =~= kept.take(i as int));
        assert(kept.take(i as int + 1).last() == bytes@[i as int]);
        let b: u8 = bytes[i];
        if 0x20 <= b && b < 0x7F {
            cs.push(b as char);
        }
        i += 1;
    }
    assert(kept.take(end as int) =~= kept);
    let t = trim(cs.as_slice());
    if t.len() > 0 {
        Some(string_of(t))
    } else {
        None
    }
}

fn descriptor_at(e: &[u8], off: usize, tag: u8) -> (r: bool)
    requires
        off + 3 < e.len(),
    ensures
        r == has_descriptor(e@, off as int, tag),
{
    e[off] == 0 && e[off + 1] == 0 && e[off + 2] == 0 && e[off + 3] == tag
}

fn find_descriptor(e: &[u8], tag: u8) -> (r: Option<String>)
    requires
        e.len() >= 128,
    ensures
        opt_text(r) == last_descriptor(e@, tag),
{
    if descriptor_at(e, 108, tag) {
        decode_descriptor_text(slice_subrange(e, 113, 126))
    } else if descriptor_at(e, 90, tag) {
        decode_descriptor_text(slice_subrange(e, 95, 108))
    } else if descriptor_at(e, 72, tag) {
        decode_descriptor_text(slice_subrange(e, 77, 90))
    } else if descriptor_at(e, 54, tag) {
        decode_descriptor_text(slice_subrange(e, 59, 72))
    } else {
        None
    }
}

/// Reads an EDID block.
pub fn parse(edid: &[u8]) -> (r: Result<EdidInfo, EdidError>)
    ensures
        match r {
            Ok(info) => edid@.len() >= 128 && has_header(edid@) && info.deep_view() == edid_info(
                edid@,
            ),
            Err(EdidError::TooShort(n)) => n == edid@.len() && edid@.len() < 128,
            Err(EdidError::BadHeader) => edid@.len() >= 128 && !has_header(edid@),
        },
{
    if edid.len() < 128 {
        return Err(EdidError::TooShort(edid.len()));
    }
    let header = edid[0] == 0x00 && edid[1] == 0xFF && edid[2] == 0xFF && edid[3] == 0xFF
        && edid[4] == 0xFF && edid[5] == 0xFF && edid[6] == 0xFF && edid[7] == 0x00;
    if !header {
        return Err(EdidError::BadHeader);
    }
    Ok(
        EdidInfo {
            manufacturer: decode_pnp_id(edid[8] as u16 * 256 + edid[9] as u16),
            model_name: find_descriptor(edid, TAG_NAME),
            serial_text: find_descriptor(edid, TAG_SERIAL),
            serial_binary: edid[12] as u32 + 0x100 * edid[13] as u32 + 0x1_0000 * edid[14] as u32
                + 0x100_0000 * edid[15] as u32,
            product_code: edid[10] as u16 + 0x100 * edid[11] as u16,
            manufacture_year: if edid[17] > 0 {
                Some(1990 + edid[17] as u16)
            } else {
                None
            },
            manufacture_week: if edid[16] > 0 && edid[16] <= 54 {
                Some(edid[16])
            } else {
                None
            },
        },
    )
}

// ---------------------------------------------------------------------------
// What a block that was written says when it is read
// ---------------------------------------------------------------------------

/// Where the `k`th of the four descriptors stands.
pub open spec fn descriptor_place(k: int) -> int {
    54 + 18 * k
}

/// The `k`th descriptor is a text of the kind `tag`.
pub open spec fn holds_text(e: Seq<u8>, k: int, tag: u8) -> bool {
    let at = descriptor_place(k);
    e[at] == 0 && e[at + 1] == 0 && e[at + 2] == 0 && e[at + 3] == tag
}

/// The `k`th descriptor has this text written in it: its characters, then a
/// line feed where there is room for one.
pub open spec fn text_written(e: Seq<u8>, k: int, text: Seq<char>) -> bool {
    let at = descriptor_place(k) + 5;
    &&& 0 < text.len() <= 13
    &&& forall|i: int|
        0 <= i < text.len() ==> 0x20 <= #[trigger] e[at + i] < 0x7F && text[i] as int == e[at + i]
    &&& text[0] != ' ' && text.last() != ' '
    &&& text.len() < 13 ==> e[at + text.len()] == 0x0A
}

/// A text that is written in any of the four descriptors is read back, unless a
/// later descriptor is of the same kind: the serial and the model's name alike.
pub proof fn law_a_descriptor_is_read_back(e: Seq<u8>, k: int, text: Seq<char>, tag: u8)
    requires
        e.len() >= 128,
        0 <= k < 4,
        tag == 0xFF || tag == 0xFC,
        holds_text(e, k, tag),
        forall|j: int| k < j < 4 ==> !#[trigger] holds_text(e, j, tag),
        text_written(e, k, text),
    ensures
        tag == 0xFF ==> edid_info(e).serial_text == Some(text),
        tag == 0xFC ==> edid_info(e).model_name == Some(text),
{
    let at = descriptor_place(k) + 5;
    let b = e.subrange(at, at + 13);
    let n = text.len() as int;
    assert forall|i: int| 0 <= i < n implies 0x20 <= #[trigger] b[i] < 0x7F && text[i] as int
        == b[i] by {
        assert(b[i] == e[at + i]);
    }
    if n < 13 {
        assert(b[n] == e[at + n]);
    }
    lemma_before_line_feed(b, n);
    assert forall|i: int| 0 <= i < n implies 0x20 <= #[trigger] b.take(n)[i] < 0x7F && text[i] as int
        == b.take(n)[i] by {
        assert(b.take(n)[i] == b[i]);
    }
    lemma_printable_all(b.take(n), text);
    lemma_no_space_around(text);
    assert(descriptor_text(b) == Some(text));
    assert(holds_text(e, 3, tag) == has_descriptor(e, 108, tag));
    assert(holds_text(e, 2, tag) == has_descriptor(e, 90, tag));
    assert(holds_text(e, 1, tag) == has_descriptor(e, 72, tag));
    assert(holds_text(e, 0, tag) == has_descriptor(e, 54, tag));
    assert(last_descriptor(e, tag) == Some(text));
}

/// A block without a descriptor of a kind has no text of that kind.
pub proof fn law_no_descriptor_is_made_up(e: Seq<u8>, tag: u8)
    requires
        e.len() >= 128,
        tag == 0xFF || tag == 0xFC,
        forall|j: int| 0 <= j < 4 ==> !#[trigger] holds_text(e, j, tag),
    ensures
        tag == 0xFF ==> edid_info(e).serial_text is None,
        tag == 0xFC ==> edid_info(e).model_name is None,
{
    assert(holds_text(e, 3, tag) == has_descriptor(e, 108, tag));
    assert(holds_text(e, 2, tag) == has_descriptor(e, 90, tag));
    assert(holds_text(e, 1, tag) == has_descriptor(e, 72, tag));
    assert(holds_text(e, 0, tag) == has_descriptor(e, 54, tag));
}

proof fn lemma_printable_all(b: Seq<u8>, text: Seq<char>)
    requires
        b.len() == text.len(),
        forall|i: int|
            0 <= i < b.len() ==> 0x20 <= #[trigger] b[i] < 0x7F && text[i] as int == b[i],
    ensures
        printable(b) == text,
    decreases b.len(),
{
    if b.len() > 0 {
        let front = b.drop_last();
        assert forall|i: int| 0 <= i < front.len() implies 0x20 <= #[trigger] front[i] < 0x7F
            && text.drop_last()[i] as int == front[i] by {
            assert(front[i] == b[i]);
        }
        lemma_printable_all(front, text.drop_last());
        assert(b[b.len() - 1] == b.last());
        assert(text.drop_last().push(text.last()) =~= text);
    } else {
        assert(text =~= Seq::<char>::empty());
    }
}

proof fn lemma_no_space_around(text: Seq<char>)
    requires
        text.len() > 0,
        0x20 < (text[0] as int) < 0x7F,
        0x20 < (text.last() as int) < 0x7F,
    ensures
        trimmed(text) == text,
{
    assert(cut_out(text, 0, text.len() as int));
    law_a_text_is_trimmed_one_way(text, 0, text.len() as int);
    assert(text.subrange(0, text.len() as int) =~= text);
}

/// The numbers of a block are read back as they were written, low byte first.
pub proof fn law_numbers_are_read_back(e: Seq<u8>, serial: u32, product: u16)
    requires
        e.len() >= 128,
        e[12] == serial % 256,
        e[13] == (serial / 256) % 256,
        e[14] == (serial / 65536) % 256,
        e[15] == serial / 16777216,
        e[10] == product % 256,
        e[11] == product / 256,
    ensures
        edid_info(e).serial_binary == serial,
        edid_info(e).product_code == product,
        edid_info(e).manufacture_year == if e[17] == 0 {
            None
        } else {
            Some((1990 + e[17]) as u16)
        },
        edid_info(e).manufacture_week == if 1 <= e[16] <= 54 {
            Some(e[16])
        } else {
            None
        },
{
}

/// A manufacturer of three letters is read back as it was packed, five bits a
/// letter.
pub proof fn law_a_manufacturer_is_read_back(e: Seq<u8>, a: char, b: char, c: char)
    requires
        e.len() >= 128,
        'A' <= a <= 'Z' && 'A' <= b <= 'Z' && 'A' <= c <= 'Z',
        256 * e[8] + e[9] == 1024 * (a as int - 64) + 32 * (b as int - 64) + (c as int - 64),
    ensures
        edid_info(e).manufacturer == Some(seq![a, b, c]),
{
    let packed = e[8] * 256 + e[9];
    assert(packed / 1024 == a as int - 64);
    assert((packed / 32) % 32 == b as int - 64);
    assert(packed % 32 == c as int - 64);
}

/// A panel is known by the serial that can be read, unless there is none or it
/// is the placeholder `0`; then by its number, unless that is zero. The number
/// is told with all its digits, so that two panels with different numbers are
/// never known by the same one.
pub proof fn law_a_panel_is_known_by_its_best_serial(info: EdidInfoView)
    ensures
        match info.best_serial() {
            Some(s) => if info.serial_text matches Some(t) && t.len() > 0 && t != seq!['0'] {
                info.serial_text == Some(s)
            } else {
                info.serial_binary != 0 && s.len() == 12 && s.take(4) == seq!['b', 'i', 'n', ':']
                    && worth(s.skip(4), 16) == info.serial_binary
            },
            None => info.serial_binary == 0 && (info.serial_text matches Some(t) ==> t.len() == 0
                || t == seq!['0']),
        },
{
    reveal_strlit("0");
    reveal_strlit("bin:");
    assert("0"@ =~= seq!['0']);
    assert("bin:"@ =~= seq!['b', 'i', 'n', ':']);
    law_thirty_two_bits_are_eight_digits(info.serial_binary);
    let told = hex_padded(info.serial_binary as nat, 8);
    assert(("bin:"@ + told).skip(4) =~= told);
    assert(("bin:"@ + told).take(4) =~= "bin:"@);
}

/// An EDID is known by its first eight bytes: nought, six times all ones, and
/// nought again.
pub proof fn law_an_edid_begins_with_its_header(e: Seq<u8>)
    requires
        e.len() >= 8,
    ensures
        has_header(e) <==> e.take(8) == seq![
            0u8,
            255u8,
            255u8,
            255u8,
            255u8,
            255u8,
            255u8,
            0u8,
        ],
{
    let header = seq![0u8, 255u8, 255u8, 255u8, 255u8, 255u8, 255u8, 0u8];
    if has_header(e) {
        assert(e.take(8) =~= header);
    }
    if e.take(8) == header {
        assert forall|i: int| 0 <= i < 8 implies e[i] == #[trigger] header[i] by {
            assert(e.take(8)[i] == e[i]);
        }
        assert(e[0] == header[0] && e[1] == header[1] && e[2] == header[2] && e[3] == header[3]);
        assert(e[4] == header[4] && e[5] == header[5] && e[6] == header[6] && e[7] == header[7]);
    }
}

} // verus!
