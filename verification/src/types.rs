//! Domain vocabulary: monitor identity, VCP 0x60 input codes, and result
//! types that keep apart what must not be confused.

use vstd::prelude::*;

use crate::digits::{
    all_digits, hex, hex_byte, hex_byte_value, hex_padded, law_a_byte_is_read_for_its_worth,
    law_a_number_is_worth_its_digits, law_zeros_before_a_number_add_nothing,
    lemma_hex_byte_round_trip, numeral, worth,
};
use crate::text::{
    after_prefix, cat2, cat3, cat4, chars_of, cut_out, law_trimming_leaves_the_text, opt_text,
    string_of, strip_prefix, trim, trimmed,
};

verus! {

/// The MCCS feature code for Input Source. This is the *feature*, never a value.
pub const VCP_INPUT_SOURCE: u8 = 0x60;

/// A value written to or read from VCP `0x60`.
///
/// Values are monitor specific. Nothing in this type implies a given code is
/// supported, correct, or attached to a live source.
#[derive(Debug, Clone, Copy, PartialEq, Eq, Hash, PartialOrd, Ord, Structural)]
pub struct InputCode(pub u8);

/// The text of an input code: `0x` and two upper-case digits.
pub open spec fn code_text(code: InputCode) -> Seq<char> {
    "0x"@ + hex_padded(code.0 as nat, 2)
}

/// The label MCCS 2.2 suggests for well known codes.
pub open spec fn standard_name(code: InputCode) -> Option<Seq<char>> {
    match code.0 {
        0x01 => Some("VGA-1"@),
        0x02 => Some("VGA-2"@),
        0x03 => Some("DVI-1"@),
        0x04 => Some("DVI-2"@),
        0x05 => Some("Composite-1"@),
        0x06 => Some("Composite-2"@),
        0x07 => Some("S-Video-1"@),
        0x08 => Some("S-Video-2"@),
        0x09 => Some("Tuner-1"@),
        0x0A => Some("Tuner-2"@),
        0x0B => Some("Tuner-3"@),
        0x0C => Some("Component-1"@),
        0x0D => Some("Component-2"@),
        0x0E => Some("Component-3"@),
        0x0F => Some("DisplayPort-1"@),
        0x10 => Some("DisplayPort-2"@),
        0x11 => Some("HDMI-1"@),
        0x12 => Some("HDMI-2"@),
        _ => None,
    }
}

/// The contents of an optional string slice.
pub open spec fn opt_str(o: Option<&str>) -> Option<Seq<char>> {
    match o {
        Some(s) => Some(s@),
        None => None,
    }
}

/// What follows the `0x` or `0X` of a code.
pub open spec fn after_hex_prefix(t: Seq<char>) -> Option<Seq<char>> {
    match after_prefix(t, "0x"@) {
        Some(h) => Some(h),
        None => after_prefix(t, "0X"@),
    }
}

/// The code a text stands for: once trimmed, `0x` and one or two digits.
pub open spec fn code_in(s: Seq<char>) -> Result<InputCode, InputCodeParseErrorView> {
    let t = trimmed(s);
    if t.len() == 0 {
        Err(InputCodeParseErrorView::Empty)
    } else {
        match after_hex_prefix(t) {
            None => Err(InputCodeParseErrorView::MissingHexPrefix(t)),
            Some(h) => match hex_byte_value(h) {
                Some(b) => Ok(InputCode(b)),
                None => Err(InputCodeParseErrorView::NotHexByte(t)),
            },
        }
    }
}

impl InputCode {
    pub fn new(value: u8) -> (r: Self)
        ensures
            r.0 == value,
    {
        InputCode(value)
    }

    pub fn get(self) -> (r: u8)
        ensures
            r == self.0,
    {
        self.0
    }

    /// The label MCCS 2.2 suggests for well known codes.
    ///
    /// Advisory only: a monitor may use a standard code for a nonstandard
    /// port, so this is for display, never for deciding what to write.
    pub fn standard_label(self) -> (r: Option<&'static str>)
        ensures
            opt_str(r) == standard_name(self),
    {
        match self.0 {
            0x01 => Some("VGA-1"),
            0x02 => Some("VGA-2"),
            0x03 => Some("DVI-1"),
            0x04 => Some("DVI-2"),
            0x05 => Some("Composite-1"),
            0x06 => Some("Composite-2"),
            0x07 => Some("S-Video-1"),
            0x08 => Some("S-Video-2"),
            0x09 => Some("Tuner-1"),
            0x0A => Some("Tuner-2"),
            0x0B => Some("Tuner-3"),
            0x0C => Some("Component-1"),
            0x0D => Some("Component-2"),
            0x0E => Some("Component-3"),
            0x0F => Some("DisplayPort-1"),
            0x10 => Some("DisplayPort-2"),
            0x11 => Some("HDMI-1"),
            0x12 => Some("HDMI-2"),
            _ => None,
        }
    }

    /// `0x11`, `0x0F`: always two upper-case digits.
    pub fn to_string(&self) -> (r: String)
        ensures
            r@ == code_text(*self),
    {
        cat2("0x", hex(self.0 as u32, 2).as_str())
    }

    /// Reads a code. A bare number such as `11` is refused: decimal 11 is
    /// `0x0B`, but whoever copied `11` out of a capabilities listing means
    /// `0x11`.
    pub fn from_str(s: &str) -> (r: Result<InputCode, InputCodeParseError>)
        ensures
            match r {
                Ok(c) => code_in(s@) == Ok::<InputCode, InputCodeParseErrorView>(c),
                Err(e) => code_in(s@) == Err::<InputCode, InputCodeParseErrorView>(e.deep_view()),
            },
    {
        let cs = chars_of(s);
        InputCode::from_chars(cs.as_slice())
    }

    /// Reads a code out of a piece of text.
    pub fn from_chars(s: &[char]) -> (r: Result<InputCode, InputCodeParseError>)
        ensures
            match r {
                Ok(c) => code_in(s@) == Ok::<InputCode, InputCodeParseErrorView>(c),
                Err(e) => code_in(s@) == Err::<InputCode, InputCodeParseErrorView>(e.deep_view()),
            },
    {
        let t = trim(s);
        if t.len() == 0 {
            return Err(InputCodeParseError::Empty);
        }
        let digits = match strip_prefix(t, "0x") {
            Some(h) => Some(h),
            None => strip_prefix(t, "0X"),
        };
        match digits {
            None => Err(InputCodeParseError::MissingHexPrefix(string_of(t))),
            Some(h) => match hex_byte(h) {
                Some(b) => Ok(InputCode(b)),
                None => Err(InputCodeParseError::NotHexByte(string_of(t))),
            },
        }
    }
}

impl core::str::FromStr for InputCode {
    type Err = InputCodeParseError;

    fn from_str(s: &str) -> Result<InputCode, InputCodeParseError> {
        InputCode::from_str(s)
    }
}

/// Why a string was rejected as an input code.
#[derive(Debug, PartialEq, Eq)]
pub enum InputCodeParseError {
    /// No `0x` before the digits, so the number is ambiguous.
    MissingHexPrefix(String),
    NotHexByte(String),
    Empty,
}

pub enum InputCodeParseErrorView {
    MissingHexPrefix(Seq<char>),
    NotHexByte(Seq<char>),
    Empty,
}

impl DeepView for InputCodeParseError {
    type V = InputCodeParseErrorView;

    open spec fn deep_view(&self) -> InputCodeParseErrorView {
        match self {
            InputCodeParseError::MissingHexPrefix(s) => InputCodeParseErrorView::MissingHexPrefix(
                s@,
            ),
            InputCodeParseError::NotHexByte(s) => InputCodeParseErrorView::NotHexByte(s@),
            InputCodeParseError::Empty => InputCodeParseErrorView::Empty,
        }
    }
}

impl Clone for InputCodeParseError {
    fn clone(&self) -> (r: Self)
        ensures
            r == *self,
    {
        match self {
            InputCodeParseError::MissingHexPrefix(s) => InputCodeParseError::MissingHexPrefix(
                s.clone(),
            ),
            InputCodeParseError::NotHexByte(s) => InputCodeParseError::NotHexByte(s.clone()),
            InputCodeParseError::Empty => InputCodeParseError::Empty,
        }
    }
}

impl InputCodeParseErrorView {
    /// The message for a person.
    pub open spec fn message(self) -> Seq<char> {
        match self {
            InputCodeParseErrorView::MissingHexPrefix(s) => "input code `"@ + s
                + "` is ambiguous: write it with an explicit `0x` prefix (e.g. `0x11`)"@,
            InputCodeParseErrorView::NotHexByte(s) => "input code `"@ + s
                + "` is not a valid 8-bit hex value"@,
            InputCodeParseErrorView::Empty => "input code is empty"@,
        }
    }
}

impl InputCodeParseError {
    pub fn to_string(&self) -> (r: String)
        ensures
            r@ == self.deep_view().message(),
    {
        match self {
            InputCodeParseError::MissingHexPrefix(s) => cat3(
                "input code `",
                s.as_str(),
                "` is ambiguous: write it with an explicit `0x` prefix (e.g. `0x11`)",
            ),
            InputCodeParseError::NotHexByte(s) => cat3(
                "input code `",
                s.as_str(),
                "` is not a valid 8-bit hex value",
            ),
            InputCodeParseError::Empty => "input code is empty".to_owned(),
        }
    }
}

/// A code read back from its own text is the same code.
pub proof fn law_code_text_reads_back(code: InputCode)
    ensures
        code_in(code_text(code)) == Ok::<InputCode, InputCodeParseErrorView>(code),
{
    reveal_strlit("0x");
    crate::digits::lemma_hex_byte_round_trip(code.0);
    let h = hex_padded(code.0 as nat, 2);
    let t = code_text(code);
    assert(crate::digits::hex_digit(h[1]));
    assert(t.len() == 4);
    assert(t[0] == '0');
    assert(t.last() == h[1]);
    assert(!crate::text::white_space(t[0]));
    assert(!crate::text::white_space(t.last()));
    assert(trimmed(t) == t);
    assert("0x"@.is_prefix_of(t));
    assert(t.skip(2) =~= h);
}

/// No text without the `0x` prefix is ever read as a code, whatever digits it
/// holds: `11` is neither decimal eleven nor `0x11`.
pub proof fn law_bare_numbers_are_never_codes(s: Seq<char>)
    requires
        after_hex_prefix(trimmed(s)) is None,
    ensures
        code_in(s) is Err,
{
}

// ---------------------------------------------------------------------------
// Evidence
// ---------------------------------------------------------------------------

/// How much is actually known about a claim.
///
/// Never upgrade a level without the evidence that level names.
#[derive(Debug, Clone, Copy, PartialEq, Eq, PartialOrd, Ord, Structural)]
pub enum Evidence {
    /// No information at all.
    Unknown,
    /// The capabilities string lists it. Capabilities strings are routinely
    /// wrong, incomplete, or list inputs the panel does not physically have.
    Reported,
    /// This value was read back from the monitor at some point: a register
    /// fact, not a picture fact.
    ReadConfirmed,
    /// The value was written and a subsequent read returned it. Still a
    /// register fact.
    WriteConfirmed,
    /// A human watched the physical input change and said so. The only level
    /// that justifies using a code in an unattended switch.
    UserConfirmed,
}

impl Default for Evidence {
    fn default() -> (r: Self)
        ensures
            r == Evidence::Unknown,
    {
        Evidence::Unknown
    }
}

pub open spec fn evidence_name(e: Evidence) -> Seq<char> {
    match e {
        Evidence::Unknown => "unknown"@,
        Evidence::Reported => "reported"@,
        Evidence::ReadConfirmed => "read-confirmed"@,
        Evidence::WriteConfirmed => "write-confirmed"@,
        Evidence::UserConfirmed => "user-confirmed"@,
    }
}

impl Evidence {
    /// Whether this level is good enough to issue an unattended write.
    pub fn is_trusted_for_switching(self) -> (r: bool)
        ensures
            r <==> self == Evidence::UserConfirmed,
    {
        match self {
            Evidence::UserConfirmed => true,
            _ => false,
        }
    }

    pub fn label(self) -> (r: &'static str)
        ensures
            r@ == evidence_name(self),
    {
        match self {
            Evidence::Unknown => "unknown",
            Evidence::Reported => "reported",
            Evidence::ReadConfirmed => "read-confirmed",
            Evidence::WriteConfirmed => "write-confirmed",
            Evidence::UserConfirmed => "user-confirmed",
        }
    }

    pub fn to_string(&self) -> (r: String)
        ensures
            r@ == evidence_name(*self),
    {
        self.label().to_owned()
    }
}

// ---------------------------------------------------------------------------
// Identity
// ---------------------------------------------------------------------------

/// How the host reaches the display. Only `DdcCi` can carry VCP 0x60.
#[derive(Debug, PartialEq, Eq)]
pub enum Transport {
    DdcCi,
    /// Windows WMI brightness path, i.e. the internal laptop panel.
    /// Not an input-switch target, and kept available for recovery.
    Wmi,
    /// The built-in panel, as the graphics driver reports it.
    Internal,
    Other(String),
}

pub enum TransportView {
    DdcCi,
    Wmi,
    Internal,
    Other(Seq<char>),
}

impl DeepView for Transport {
    type V = TransportView;

    open spec fn deep_view(&self) -> TransportView {
        match self {
            Transport::DdcCi => TransportView::DdcCi,
            Transport::Wmi => TransportView::Wmi,
            Transport::Internal => TransportView::Internal,
            Transport::Other(s) => TransportView::Other(s@),
        }
    }
}

impl TransportView {
    pub open spec fn name(self) -> Seq<char> {
        match self {
            TransportView::DdcCi => "DDC/CI"@,
            TransportView::Wmi => "WMI"@,
            TransportView::Internal => "the built-in panel"@,
            TransportView::Other(s) => s,
        }
    }
}

impl Clone for Transport {
    fn clone(&self) -> (r: Self)
        ensures
            r == *self,
    {
        match self {
            Transport::DdcCi => Transport::DdcCi,
            Transport::Wmi => Transport::Wmi,
            Transport::Internal => Transport::Internal,
            Transport::Other(s) => Transport::Other(s.clone()),
        }
    }
}

impl Transport {
    pub fn supports_input_switching(&self) -> (r: bool)
        ensures
            r <==> self.deep_view() is DdcCi,
    {
        match self {
            Transport::DdcCi => true,
            _ => false,
        }
    }

    pub fn to_string(&self) -> (r: String)
        ensures
            r@ == self.deep_view().name(),
    {
        match self {
            Transport::DdcCi => "DDC/CI".to_owned(),
            Transport::Wmi => "WMI".to_owned(),
            Transport::Internal => "the built-in panel".to_owned(),
            Transport::Other(s) => s.clone(),
        }
    }
}

/// What a host knows about one physical display right now.
#[derive(Debug, PartialEq, Eq)]
pub struct MonitorIdentity {
    /// Backend-stable handle: a device path id, or a ddcutil selector.
    pub backend_id: String,
    /// Discovery-time ordinal. An addressing convenience, NOT identity.
    pub discovery_index: Option<u32>,
    pub manufacturer: Option<String>,
    pub model: Option<String>,
    /// EDID serial: the only field that tracks the panel rather than the port.
    pub serial: Option<String>,
    pub transport: Transport,
}

pub struct MonitorIdentityView {
    pub backend_id: Seq<char>,
    pub discovery_index: Option<u32>,
    pub manufacturer: Option<Seq<char>>,
    pub model: Option<Seq<char>>,
    pub serial: Option<Seq<char>>,
    pub transport: TransportView,
}

impl DeepView for MonitorIdentity {
    type V = MonitorIdentityView;

    open spec fn deep_view(&self) -> MonitorIdentityView {
        MonitorIdentityView {
            backend_id: self.backend_id@,
            discovery_index: self.discovery_index,
            manufacturer: opt_text(self.manufacturer),
            model: opt_text(self.model),
            serial: opt_text(self.serial),
            transport: self.transport.deep_view(),
        }
    }
}

impl Clone for MonitorIdentity {
    fn clone(&self) -> (r: Self)
        ensures
            r == *self,
    {
        MonitorIdentity {
            backend_id: self.backend_id.clone(),
            discovery_index: self.discovery_index,
            manufacturer: self.manufacturer.clone(),
            model: self.model.clone(),
            serial: self.serial.clone(),
            transport: self.transport.clone(),
        }
    }
}

impl MonitorIdentityView {
    /// Model and serial, for a person.
    pub open spec fn description(self) -> Seq<char> {
        let model = match self.model {
            Some(m) => m,
            None => "unknown model"@,
        };
        match self.serial {
            Some(sn) => model + " (s/n "@ + sn + ")"@,
            None => model + " (no serial in EDID)"@,
        }
    }
}

impl MonitorIdentity {
    pub fn describe(&self) -> (r: String)
        ensures
            r@ == self.deep_view().description(),
    {
        let model: &str = match &self.model {
            Some(m) => m.as_str(),
            None => "unknown model",
        };
        match &self.serial {
            Some(sn) => cat4(model, " (s/n ", sn.as_str(), ")"),
            None => cat2(model, " (no serial in EDID)"),
        }
    }
}

/// A display found by a backend, with the raw evidence it was parsed from.
#[derive(Debug, PartialEq, Eq)]
pub struct DetectedMonitor {
    pub identity: MonitorIdentity,
    /// Unmodified backend output this record came from.
    pub raw: String,
}

pub struct DetectedMonitorView {
    pub identity: MonitorIdentityView,
    pub raw: Seq<char>,
}

impl DeepView for DetectedMonitor {
    type V = DetectedMonitorView;

    open spec fn deep_view(&self) -> DetectedMonitorView {
        DetectedMonitorView { identity: self.identity.deep_view(), raw: self.raw@ }
    }
}

impl Clone for DetectedMonitor {
    fn clone(&self) -> (r: Self)
        ensures
            r == *self,
    {
        DetectedMonitor { identity: self.identity.clone(), raw: self.raw.clone() }
    }
}

impl DetectedMonitorView {
    pub open spec fn handle(self) -> MonitorHandleView {
        MonitorHandleView {
            backend_id: self.identity.backend_id,
            discovery_index: self.identity.discovery_index,
            model: self.identity.model,
            serial: self.identity.serial,
        }
    }

    /// Whether this display's input can be switched at all.
    pub open spec fn switchable(self) -> bool {
        self.identity.transport is DdcCi
    }
}

impl DetectedMonitor {
    pub fn handle(&self) -> (r: MonitorHandle)
        ensures
            r.deep_view() == self.deep_view().handle(),
    {
        MonitorHandle {
            backend_id: self.identity.backend_id.clone(),
            discovery_index: self.identity.discovery_index,
            model: self.identity.model.clone(),
            serial: self.identity.serial.clone(),
        }
    }
}

/// Everything a backend needs to address one display in a later command.
#[derive(Debug, PartialEq, Eq)]
pub struct MonitorHandle {
    pub backend_id: String,
    pub discovery_index: Option<u32>,
    pub model: Option<String>,
    pub serial: Option<String>,
}

pub struct MonitorHandleView {
    pub backend_id: Seq<char>,
    pub discovery_index: Option<u32>,
    pub model: Option<Seq<char>>,
    pub serial: Option<Seq<char>>,
}

impl DeepView for MonitorHandle {
    type V = MonitorHandleView;

    open spec fn deep_view(&self) -> MonitorHandleView {
        MonitorHandleView {
            backend_id: self.backend_id@,
            discovery_index: self.discovery_index,
            model: opt_text(self.model),
            serial: opt_text(self.serial),
        }
    }
}

impl Clone for MonitorHandle {
    fn clone(&self) -> (r: Self)
        ensures
            r == *self,
    {
        MonitorHandle {
            backend_id: self.backend_id.clone(),
            discovery_index: self.discovery_index,
            model: self.model.clone(),
            serial: self.serial.clone(),
        }
    }
}

// ---------------------------------------------------------------------------
// Capabilities
// ---------------------------------------------------------------------------

/// One entry in a monitor's advertised input list.
#[derive(Debug, PartialEq, Eq)]
pub struct InputSourceOption {
    pub code: InputCode,
    /// Label as printed by the backend, when it supplied one.
    pub label: Option<String>,
}

pub struct InputSourceOptionView {
    pub code: InputCode,
    pub label: Option<Seq<char>>,
}

impl DeepView for InputSourceOption {
    type V = InputSourceOptionView;

    open spec fn deep_view(&self) -> InputSourceOptionView {
        InputSourceOptionView { code: self.code, label: opt_text(self.label) }
    }
}

impl Clone for InputSourceOption {
    fn clone(&self) -> (r: Self)
        ensures
            r == *self,
    {
        InputSourceOption { code: self.code, label: self.label.clone() }
    }
}

impl InputSourceOptionView {
    /// The label the backend gave, else the standard one, else the bare code.
    pub open spec fn text(self) -> Seq<char> {
        let label = match self.label {
            Some(l) => Some(l),
            None => standard_name(self.code),
        };
        match label {
            Some(l) => l + " ("@ + code_text(self.code) + ")"@,
            None => code_text(self.code),
        }
    }

    /// A code under the name MCCS suggests for it.
    pub open spec fn standard(code: InputCode) -> InputSourceOptionView {
        InputSourceOptionView { code, label: standard_name(code) }
    }
}

impl InputSourceOption {
    /// A code under the name MCCS suggests for it.
    pub fn standard(code: InputCode) -> (r: InputSourceOption)
        ensures
            r.deep_view() == InputSourceOptionView::standard(code),
    {
        InputSourceOption {
            code,
            label: match code.standard_label() {
                Some(l) => Some(l.to_owned()),
                None => None,
            },
        }
    }

    pub fn to_string(&self) -> (r: String)
        ensures
            r@ == self.deep_view().text(),
    {
        let code = self.code.to_string();
        match &self.label {
            Some(l) => cat4(l.as_str(), " (", code.as_str(), ")"),
            None => match self.code.standard_label() {
                Some(l) => cat4(l, " (", code.as_str(), ")"),
                None => code,
            },
        }
    }
}

/// Parsed capabilities for VCP 0x60, plus the untouched source text.
#[derive(Debug, PartialEq, Eq)]
pub struct InputCapabilities {
    /// Whether the monitor advertised feature 0x60 at all.
    pub feature_present: bool,
    pub options: Vec<InputSourceOption>,
    /// Raw MCCS capabilities string, if the backend exposed one.
    pub raw_capabilities: Option<String>,
    /// Full unmodified backend output, always retained as evidence.
    pub raw_output: String,
}

pub struct InputCapabilitiesView {
    pub feature_present: bool,
    pub options: Seq<InputSourceOptionView>,
    pub raw_capabilities: Option<Seq<char>>,
    pub raw_output: Seq<char>,
}

impl DeepView for InputCapabilities {
    type V = InputCapabilitiesView;

    open spec fn deep_view(&self) -> InputCapabilitiesView {
        InputCapabilitiesView {
            feature_present: self.feature_present,
            options: self.options.deep_view(),
            raw_capabilities: opt_text(self.raw_capabilities),
            raw_output: self.raw_output@,
        }
    }
}

impl InputCapabilities {
    pub fn advertises(&self, code: InputCode) -> (r: bool)
        ensures
            r <==> exists|i: int|
                0 <= i < self.deep_view().options.len() && #[trigger] self.deep_view().options[i].code
                    == code,
    {
        let mut i: usize = 0;
        while i < self.options.len()
            invariant
                i <= self.options.len(),
                forall|j: int| 0 <= j < i ==> #[trigger] self.deep_view().options[j].code != code,
            decreases self.options.len() - i,
        {
            if self.options[i].code == code {
                assert(self.deep_view().options[i as int].code == code);
                return true;
            }
            i += 1;
        }
        false
    }
}

// ---------------------------------------------------------------------------
// Reading and writing
// ---------------------------------------------------------------------------

/// The result of trying to read VCP 0x60.
///
/// These stay separate on purpose: collapsing them would let "the monitor
/// stopped answering because it was switched away" masquerade as "this
/// monitor has no input source feature".
#[derive(Debug, PartialEq, Eq)]
pub enum InputReading {
    Value(InputCode),
    /// The monitor answered, and does not implement 0x60.
    Unsupported,
    /// The read failed while the link was believed to be up.
    ReadFailed { detail: String },
    /// The read failed right after this monitor was switched away, which is
    /// expected and is not evidence that the switch failed.
    UnavailableAfterSwitch { detail: String },
}

pub enum InputReadingView {
    Value(InputCode),
    Unsupported,
    ReadFailed { detail: Seq<char> },
    UnavailableAfterSwitch { detail: Seq<char> },
}

impl DeepView for InputReading {
    type V = InputReadingView;

    open spec fn deep_view(&self) -> InputReadingView {
        match self {
            InputReading::Value(c) => InputReadingView::Value(*c),
            InputReading::Unsupported => InputReadingView::Unsupported,
            InputReading::ReadFailed { detail } => InputReadingView::ReadFailed { detail: detail@ },
            InputReading::UnavailableAfterSwitch { detail } => {
                InputReadingView::UnavailableAfterSwitch { detail: detail@ }
            },
        }
    }
}

impl Clone for InputReading {
    fn clone(&self) -> (r: Self)
        ensures
            r == *self,
    {
        match self {
            InputReading::Value(c) => InputReading::Value(*c),
            InputReading::Unsupported => InputReading::Unsupported,
            InputReading::ReadFailed { detail } => InputReading::ReadFailed {
                detail: detail.clone(),
            },
            InputReading::UnavailableAfterSwitch { detail } => {
                InputReading::UnavailableAfterSwitch { detail: detail.clone() }
            },
        }
    }
}

impl InputReadingView {
    pub open spec fn value(self) -> Option<InputCode> {
        match self {
            InputReadingView::Value(c) => Some(c),
            _ => None,
        }
    }

    pub open spec fn text(self) -> Seq<char> {
        match self {
            InputReadingView::Value(c) => match standard_name(c) {
                Some(l) => l + " ("@ + code_text(c) + ")"@,
                None => code_text(c),
            },
            InputReadingView::Unsupported => "feature 0x60 not supported"@,
            InputReadingView::ReadFailed { detail } => "read failed: "@ + detail,
            InputReadingView::UnavailableAfterSwitch { detail } => {
                "unreadable after switch (expected): "@ + detail
            },
        }
    }
}

impl InputReading {
    pub fn value(&self) -> (r: Option<InputCode>)
        ensures
            r == self.deep_view().value(),
    {
        match self {
            InputReading::Value(c) => Some(*c),
            _ => None,
        }
    }

    pub fn to_string(&self) -> (r: String)
        ensures
            r@ == self.deep_view().text(),
    {
        match self {
            InputReading::Value(c) => {
                let code = c.to_string();
                match c.standard_label() {
                    Some(l) => cat4(l, " (", code.as_str(), ")"),
                    None => code,
                }
            },
            InputReading::Unsupported => "feature 0x60 not supported".to_owned(),
            InputReading::ReadFailed { detail } => cat2("read failed: ", detail.as_str()),
            InputReading::UnavailableAfterSwitch { detail } => cat2(
                "unreadable after switch (expected): ",
                detail.as_str(),
            ),
        }
    }
}

/// What actually happened when VCP 0x60 was written.
///
/// `Accepted` deliberately does not say "succeeded": a zero exit status only
/// means the DDC write was dispatched without an error being reported.
#[derive(Debug, PartialEq, Eq)]
pub enum WriteOutcome {
    /// Command returned success. Visual state unconfirmed.
    Accepted,
    /// The monitor read the value back. It has told what is in its input
    /// register, which is not the same as what it is putting on the panel.
    StoredByMonitor(InputCode),
    ConfirmedByUser,
    Failed { detail: String },
    /// It could not be determined whether the write landed.
    Unknown { detail: String },
}

pub enum WriteOutcomeView {
    Accepted,
    StoredByMonitor(InputCode),
    ConfirmedByUser,
    Failed { detail: Seq<char> },
    Unknown { detail: Seq<char> },
}

impl DeepView for WriteOutcome {
    type V = WriteOutcomeView;

    open spec fn deep_view(&self) -> WriteOutcomeView {
        match self {
            WriteOutcome::Accepted => WriteOutcomeView::Accepted,
            WriteOutcome::StoredByMonitor(c) => WriteOutcomeView::StoredByMonitor(*c),
            WriteOutcome::ConfirmedByUser => WriteOutcomeView::ConfirmedByUser,
            WriteOutcome::Failed { detail } => WriteOutcomeView::Failed { detail: detail@ },
            WriteOutcome::Unknown { detail } => WriteOutcomeView::Unknown { detail: detail@ },
        }
    }
}

impl Clone for WriteOutcome {
    fn clone(&self) -> (r: Self)
        ensures
            r == *self,
    {
        match self {
            WriteOutcome::Accepted => WriteOutcome::Accepted,
            WriteOutcome::StoredByMonitor(c) => WriteOutcome::StoredByMonitor(*c),
            WriteOutcome::ConfirmedByUser => WriteOutcome::ConfirmedByUser,
            WriteOutcome::Failed { detail } => WriteOutcome::Failed { detail: detail.clone() },
            WriteOutcome::Unknown { detail } => WriteOutcome::Unknown { detail: detail.clone() },
        }
    }
}

impl WriteOutcomeView {
    pub open spec fn is_failure(self) -> bool {
        self is Failed
    }

    /// What an outcome proves about the input it was written for.
    pub open spec fn evidence(self) -> Evidence {
        match self {
            WriteOutcomeView::ConfirmedByUser => Evidence::UserConfirmed,
            WriteOutcomeView::StoredByMonitor(_) => Evidence::WriteConfirmed,
            _ => Evidence::Unknown,
        }
    }

    pub open spec fn text(self) -> Seq<char> {
        match self {
            WriteOutcomeView::Accepted => "issued, visual state unconfirmed"@,
            WriteOutcomeView::StoredByMonitor(c) => "monitor stored "@ + code_text(c)
                + "; it does not report what it displays"@,
            WriteOutcomeView::ConfirmedByUser => "confirmed by user"@,
            WriteOutcomeView::Failed { detail } => "failed: "@ + detail,
            WriteOutcomeView::Unknown { detail } => "unknown: "@ + detail,
        }
    }
}

impl WriteOutcome {
    /// True only with positive evidence that the write did not land.
    pub fn is_failure(&self) -> (r: bool)
        ensures
            r == self.deep_view().is_failure(),
    {
        match self {
            WriteOutcome::Failed { .. } => true,
            _ => false,
        }
    }

    pub fn evidence(&self) -> (r: Evidence)
        ensures
            r == self.deep_view().evidence(),
    {
        match self {
            WriteOutcome::ConfirmedByUser => Evidence::UserConfirmed,
            WriteOutcome::StoredByMonitor(_) => Evidence::WriteConfirmed,
            _ => Evidence::Unknown,
        }
    }

    pub fn to_string(&self) -> (r: String)
        ensures
            r@ == self.deep_view().text(),
    {
        match self {
            WriteOutcome::Accepted => "issued, visual state unconfirmed".to_owned(),
            WriteOutcome::StoredByMonitor(c) => cat3(
                "monitor stored ",
                c.to_string().as_str(),
                "; it does not report what it displays",
            ),
            WriteOutcome::ConfirmedByUser => "confirmed by user".to_owned(),
            WriteOutcome::Failed { detail } => cat2("failed: ", detail.as_str()),
            WriteOutcome::Unknown { detail } => cat2("unknown: ", detail.as_str()),
        }
    }
}

/// Only a person who watched the screen makes an input trusted: no read-back
/// and no accepted write ever does.
pub proof fn law_only_a_person_confirms(outcome: WriteOutcomeView)
    ensures
        outcome.evidence() == Evidence::UserConfirmed <==> outcome is ConfirmedByUser,
{
}

// ---------------------------------------------------------------------------
// What is told apart
// ---------------------------------------------------------------------------

/// A text is a code from `from` to `to`: `0x` and one or two digits.
pub open spec fn code_stands(s: Seq<char>, from: int, to: int) -> bool {
    &&& from + 3 <= to <= from + 4
    &&& s[from] == '0'
    &&& s[from + 1] == 'x' || s[from + 1] == 'X'
    &&& all_digits(s.subrange(from + 2, to), 16)
}

/// A code is what its digits are worth behind `0x`, with white space around it
/// passed over. Nothing else is a code.
pub proof fn law_a_code_is_worth_its_digits(s: Seq<char>) -> (ends: (int, int))
    ensures
        cut_out(s, ends.0, ends.1),
        match code_in(s) {
            Ok(code) => code_stands(s, ends.0, ends.1) && worth(
                s.subrange(ends.0 + 2, ends.1),
                16,
            ) == code.0,
            Err(InputCodeParseErrorView::Empty) => ends.0 == ends.1,
            Err(_) => ends.0 < ends.1 && !code_stands(s, ends.0, ends.1),
        },
{
    reveal_strlit("0x");
    reveal_strlit("0X");
    let ends = law_trimming_leaves_the_text(s);
    let t = trimmed(s);
    if t.len() >= 2 {
        let h = t.skip(2);
        assert("0x"@.is_prefix_of(t) <==> t[0] == '0' && t[1] == 'x') by {
            let two = t.subrange(0, 2);
            assert(two[0] == t[0] && two[1] == t[1]);
            if t[0] == '0' && t[1] == 'x' {
                assert("0x"@ =~= two);
            }
        }
        assert("0X"@.is_prefix_of(t) <==> t[0] == '0' && t[1] == 'X') by {
            let two = t.subrange(0, 2);
            assert(two[0] == t[0] && two[1] == t[1]);
            if t[0] == '0' && t[1] == 'X' {
                assert("0X"@ =~= two);
            }
        }
        assert(h =~= s.subrange(ends.0 + 2, ends.1));
        law_a_byte_is_read_for_its_worth(h);
    }
    ends
}

/// Codes are written apart: two digits behind `0x`, worth the code.
pub proof fn law_a_code_is_written_for_its_worth(a: InputCode, b: InputCode)
    ensures
        code_text(a).len() == 4,
        code_text(a).take(2) == seq!['0', 'x'],
        worth(code_text(a).skip(2), 16) == a.0,
        code_text(a) == code_text(b) ==> a == b,
{
    reveal_strlit("0x");
    law_a_number_is_worth_its_digits(a.0 as nat, 16);
    law_zeros_before_a_number_add_nothing(numeral(a.0 as nat, 16), 2, 16);
    lemma_hex_byte_round_trip(a.0);
    lemma_hex_byte_round_trip(b.0);
    assert(code_text(a).skip(2) =~= hex_padded(a.0 as nat, 2));
    assert(code_text(b).skip(2) =~= hex_padded(b.0 as nat, 2));
    assert(code_text(a).take(2) =~= seq!['0', 'x']);
}

/// The standard inputs come in kinds, each numbered from one: the first code of
/// a kind, how many there are, and what it is called.
pub open spec fn input_kinds() -> Seq<(int, int, Seq<char>)> {
    seq![
        (0x01int, 2int, "VGA-"@),
        (0x03int, 2int, "DVI-"@),
        (0x05int, 2int, "Composite-"@),
        (0x07int, 2int, "S-Video-"@),
        (0x09int, 3int, "Tuner-"@),
        (0x0Cint, 3int, "Component-"@),
        (0x0Fint, 2int, "DisplayPort-"@),
        (0x11int, 2int, "HDMI-"@),
    ]
}

/// A standard input is called by its kind and its number among its kind; no
/// other code has a name.
pub proof fn law_standard_inputs_are_numbered_in_their_kind(kind: int, n: int, code: InputCode)
    requires
        0 <= kind < input_kinds().len(),
        0 <= n < input_kinds()[kind].1,
    ensures
        code.0 == input_kinds()[kind].0 + n ==> standard_name(code) == Some(
            input_kinds()[kind].2 + numeral((n + 1) as nat, 10),
        ),
        standard_name(code) is Some <==> 0x01 <= code.0 <= 0x12,
{
    reveal_strlit("VGA-");
    reveal_strlit("DVI-");
    reveal_strlit("Composite-");
    reveal_strlit("S-Video-");
    reveal_strlit("Tuner-");
    reveal_strlit("Component-");
    reveal_strlit("DisplayPort-");
    reveal_strlit("HDMI-");
    reveal_strlit("VGA-1");
    reveal_strlit("VGA-2");
    reveal_strlit("DVI-1");
    reveal_strlit("DVI-2");
    reveal_strlit("Composite-1");
    reveal_strlit("Composite-2");
    reveal_strlit("S-Video-1");
    reveal_strlit("S-Video-2");
    reveal_strlit("Tuner-1");
    reveal_strlit("Tuner-2");
    reveal_strlit("Tuner-3");
    reveal_strlit("Component-1");
    reveal_strlit("Component-2");
    reveal_strlit("Component-3");
    reveal_strlit("DisplayPort-1");
    reveal_strlit("DisplayPort-2");
    reveal_strlit("HDMI-1");
    reveal_strlit("HDMI-2");
    assert(numeral((n + 1) as nat, 10) =~= seq![(49 + n) as char]);
    if code.0 == input_kinds()[kind].0 + n {
        assert(standard_name(code)->0 =~= input_kinds()[kind].2 + seq![(49 + n) as char]);
    }
}

/// What became of a write is told so that it can be told apart: two outcomes
/// that read alike are the same.
pub proof fn law_outcomes_read_apart(a: WriteOutcomeView, b: WriteOutcomeView)
    requires
        a.text() == b.text(),
    ensures
        a == b,
{
    reveal_strlit("issued, visual state unconfirmed");
    reveal_strlit("monitor stored ");
    reveal_strlit("; it does not report what it displays");
    reveal_strlit("confirmed by user");
    reveal_strlit("failed: ");
    reveal_strlit("unknown: ");
    lemma_outcome_begins(a);
    lemma_outcome_begins(b);
    match (a, b) {
        (WriteOutcomeView::StoredByMonitor(x), WriteOutcomeView::StoredByMonitor(y)) => {
            law_a_code_is_written_for_its_worth(x, y);
            law_a_code_is_written_for_its_worth(y, x);
            assert(a.text().subrange(15, 19) =~= code_text(x));
            assert(b.text().subrange(15, 19) =~= code_text(y));
        },
        (WriteOutcomeView::Failed { detail: x }, WriteOutcomeView::Failed { detail: y }) => {
            assert(a.text().skip(8) =~= x);
            assert(b.text().skip(8) =~= y);
        },
        (WriteOutcomeView::Unknown { detail: x }, WriteOutcomeView::Unknown { detail: y }) => {
            assert(a.text().skip(9) =~= x);
            assert(b.text().skip(9) =~= y);
        },
        _ => {},
    }
}

proof fn lemma_outcome_begins(o: WriteOutcomeView)
    ensures
        o.text().len() > 0,
        o.text()[0] == match o {
            WriteOutcomeView::Accepted => 'i',
            WriteOutcomeView::StoredByMonitor(_) => 'm',
            WriteOutcomeView::ConfirmedByUser => 'c',
            WriteOutcomeView::Failed { .. } => 'f',
            WriteOutcomeView::Unknown { .. } => 'u',
        },
{
    reveal_strlit("issued, visual state unconfirmed");
    reveal_strlit("monitor stored ");
    reveal_strlit("confirmed by user");
    reveal_strlit("failed: ");
    reveal_strlit("unknown: ");
}

/// Only a write that failed is a failure.
pub proof fn law_only_a_failed_write_is_a_failure(outcome: WriteOutcomeView)
    ensures
        outcome.is_failure() <==> outcome is Failed,
        outcome.evidence() == Evidence::WriteConfirmed <==> outcome is StoredByMonitor,
{
}

/// A display is handed on with the connection, the model and the serial that it
/// was found with, and can be switched where it speaks DDC/CI alone.
pub proof fn law_a_handle_is_of_its_display(d: DetectedMonitorView)
    ensures
        d.handle().backend_id == d.identity.backend_id,
        d.handle().serial == d.identity.serial,
        d.handle().model == d.identity.model,
        d.handle().discovery_index == d.identity.discovery_index,
        d.switchable() <==> d.identity.transport is DdcCi,
{
}

} // verus!
