//! Read-only capability probing for the Wayland portal input path.
//!
//! The application runs the system's query tools. This module reads their
//! output, decides which roles a desktop can take and writes the report.
use vstd::prelude::*;

use crate::text::{
    bool_str, char_is_digit, char_is_white, char_range, parse_unsigned, push_decimal, push_numeral,
    same_chars, same_text, split_lines, to_chars, to_text, trim_chars,
};

verus! {

pub const KEYBOARD: u32 = 1;

pub const POINTER: u32 = 2;

pub const TOUCHSCREEN: u32 = 4;

/// All kinds of input that are shared.
pub const SHARED_INPUT: u32 = 7;

#[derive(Debug, Clone, PartialEq, Eq)]
pub struct InterfaceProbe {
    pub available: bool,
    pub version: Option<u32>,
    pub capabilities: Option<u32>,
    pub error: Option<String>,
}

impl InterfaceProbe {
    /// Whether keyboard, pointer and touch screen are all offered.
    pub open spec fn shares_input(self) -> bool {
        self.capabilities matches Some(bits) && bits & SHARED_INPUT == SHARED_INPUT
    }

    pub fn supports_shared_input(&self) -> (shared: bool)
        ensures
            shared == self.shares_input(),
    {
        match self.capabilities {
            Some(bits) => bits & SHARED_INPUT == SHARED_INPUT,
            None => false,
        }
    }
}

#[derive(Debug, Clone, PartialEq, Eq)]
pub struct GraphicalSession {
    pub id: String,
    pub session_type: String,
    pub state: String,
}

#[derive(Debug, Clone, PartialEq, Eq)]
pub struct DoctorReport {
    pub process_session_type: Option<String>,
    pub wayland_display: Option<String>,
    pub display: Option<String>,
    pub session_bus_configured: bool,
    pub active_graphical_session: Option<GraphicalSession>,
    pub portal_available: bool,
    pub portal_error: Option<String>,
    pub input_capture: InterfaceProbe,
    pub remote_desktop: InterfaceProbe,
    pub libei_version: Option<String>,
}

pub open spec fn view_of(text: Option<String>) -> Option<Seq<char>> {
    match text {
        Some(text) => Some(text@),
        None => None,
    }
}

/// Whether an interface is recent and shares all input.
pub open spec fn interface_ready(probe: InterfaceProbe) -> bool {
    (probe.version matches Some(version) && version >= 2) && probe.shares_input()
}

impl DoctorReport {
    /// Whether this process or the active session is on Wayland.
    pub open spec fn on_wayland(self) -> bool {
        (self.process_session_type matches Some(name) && name@ == "wayland"@) || (
        self.active_graphical_session matches Some(session) && session.session_type@
            == "wayland"@)
    }

    pub open spec fn can_control(self) -> bool {
        self.portal_available && interface_ready(self.input_capture) && self.libei_version is Some
            && self.on_wayland()
    }

    pub open spec fn can_follow(self) -> bool {
        self.portal_available && interface_ready(self.remote_desktop) && self.libei_version is Some
            && self.on_wayland()
    }

    pub fn controller_ready(&self) -> (ready: bool)
        ensures
            ready == self.can_control(),
    {
        self.portal_available && is_ready(&self.input_capture) && self.libei_version.is_some()
            && self.has_wayland_session()
    }

    pub fn follower_ready(&self) -> (ready: bool)
        ensures
            ready == self.can_follow(),
    {
        self.portal_available && is_ready(&self.remote_desktop) && self.libei_version.is_some()
            && self.has_wayland_session()
    }

    fn has_wayland_session(&self) -> (on: bool)
        ensures
            on == self.on_wayland(),
    {
        if let Some(name) = &self.process_session_type {
            if same_text(name.as_str(), "wayland") {
                return true;
            }
        }
        match &self.active_graphical_session {
            Some(session) => same_text(session.session_type.as_str(), "wayland"),
            None => false,
        }
    }

    /// The report as JSON.
    pub fn to_json(&self) -> (json: String)
        ensures
            json@ == json_report(*self),
    {
        let mut json = String::new();
        json.push_str("{\n");
        assert(json@ =~= "{\n"@);
        push_option_line(&mut json, "process_session_type", &self.process_session_type);
        push_option_line(&mut json, "wayland_display", &self.wayland_display);
        push_option_line(&mut json, "display", &self.display);
        push_bool_line(&mut json, "session_bus_configured", self.session_bus_configured);
        self.push_session(&mut json);
        push_bool_line(&mut json, "portal_available", self.portal_available);
        push_option_line(&mut json, "portal_error", &self.portal_error);
        write_interface_json(&mut json, "input_capture", &self.input_capture);
        write_interface_json(&mut json, "remote_desktop", &self.remote_desktop);
        push_option_line(&mut json, "libei_version", &self.libei_version);
        push_bool_line(&mut json, "controller_ready", self.controller_ready());
        push_bool_line(&mut json, "follower_ready", self.follower_ready());
        json.push_str(
            "  \"probe_scope\": \"read-only; no portal sessions or consent prompts\"\n}",
        );
        json
    }

    fn push_session(&self, json: &mut String)
        ensures
            final(json)@ == old(json)@ + session_json(self.active_graphical_session),
    {
        match &self.active_graphical_session {
            Some(session) => {
                json.push_str("  \"active_graphical_session\": {\"id\": ");
                push_json_string(json, session.id.as_str());
                json.push_str(", \"type\": ");
                push_json_string(json, session.session_type.as_str());
                json.push_str(", \"state\": ");
                push_json_string(json, session.state.as_str());
                json.push_str("},\n");
            },
            None => {
                json.push_str("  \"active_graphical_session\": null,\n");
            },
        }
        assert(json@ =~= old(json)@ + session_json(self.active_graphical_session));
    }
}

fn is_ready(probe: &InterfaceProbe) -> (ready: bool)
    ensures
        ready == interface_ready(*probe),
{
    match probe.version {
        Some(version) => version >= 2 && probe.supports_shared_input(),
        None => false,
    }
}

/// Whether a character is a control character.
pub open spec fn is_control(c: char) -> bool {
    (c as u32) <= 0x1f || 0x7f <= c as u32 <= 0x9f
}

/// Four hexadecimal digits.
pub open spec fn four_digits(n: nat) -> Seq<char> {
    seq![
        crate::text::hex_digit(n / 4096 % 16),
        crate::text::hex_digit(n / 256 % 16),
        crate::text::hex_digit(n / 16 % 16),
        crate::text::hex_digit(n % 16),
    ]
}

/// A character inside a JSON string.
pub open spec fn escaped(c: char) -> Seq<char> {
    if c == '"' {
        "\\\""@
    } else if c == '\\' {
        "\\\\"@
    } else if c == '\n' {
        "\\n"@
    } else if c == '\r' {
        "\\r"@
    } else if c == '\t' {
        "\\t"@
    } else if is_control(c) {
        "\\u"@ + four_digits(c as nat)
    } else {
        seq![c]
    }
}

pub open spec fn escaped_all(s: Seq<char>) -> Seq<char>
    decreases s.len(),
{
    if s.len() == 0 {
        Seq::empty()
    } else {
        escaped_all(s.drop_last()) + escaped(s.last())
    }
}

/// A text as a JSON string.
pub open spec fn json_text(s: Seq<char>) -> Seq<char> {
    "\""@ + escaped_all(s) + "\""@
}

pub open spec fn json_optional(s: Option<Seq<char>>) -> Seq<char> {
    match s {
        Some(s) => json_text(s),
        None => "null"@,
    }
}

pub open spec fn json_count(n: Option<u32>) -> Seq<char> {
    match n {
        Some(n) => crate::text::decimal(n as nat),
        None => "null"@,
    }
}

/// One entry of the report on a line of its own.
pub open spec fn json_line(key: Seq<char>, value: Seq<char>) -> Seq<char> {
    "  \""@ + key + "\": "@ + value + ",\n"@
}

/// One entry of an interface on a line of its own.
pub open spec fn inner_line(key: Seq<char>, value: Seq<char>) -> Seq<char> {
    "    \""@ + key + "\": "@ + value + ",\n"@
}

pub open spec fn has_bit(bits: Option<u32>, bit: u32) -> bool {
    bits matches Some(bits) && bits & bit != 0
}

pub open spec fn interface_json(name: Seq<char>, probe: InterfaceProbe) -> Seq<char> {
    "  \""@ + name + "\": {\n"@ + inner_line(
        "available"@,
        crate::text::bool_text(probe.available),
    ) + inner_line("version"@, json_count(probe.version)) + inner_line(
        "capabilities"@,
        json_count(probe.capabilities),
    ) + inner_line(
        "keyboard"@,
        crate::text::bool_text(has_bit(probe.capabilities, KEYBOARD)),
    ) + inner_line(
        "pointer"@,
        crate::text::bool_text(has_bit(probe.capabilities, POINTER)),
    ) + inner_line(
        "touchscreen"@,
        crate::text::bool_text(has_bit(probe.capabilities, TOUCHSCREEN)),
    ) + "    \"error\": "@ + json_optional(view_of(probe.error)) + "\n  },\n"@
}

pub open spec fn session_json(session: Option<GraphicalSession>) -> Seq<char> {
    match session {
        Some(session) => "  \"active_graphical_session\": {\"id\": "@ + json_text(session.id@)
            + ", \"type\": "@ + json_text(session.session_type@) + ", \"state\": "@ + json_text(
            session.state@,
        ) + "},\n"@,
        None => "  \"active_graphical_session\": null,\n"@,
    }
}

pub open spec fn json_report(report: DoctorReport) -> Seq<char> {
    "{\n"@ + json_line("process_session_type"@, json_optional(view_of(report.process_session_type)))
        + json_line("wayland_display"@, json_optional(view_of(report.wayland_display))) + json_line(
        "display"@,
        json_optional(view_of(report.display)),
    ) + json_line(
        "session_bus_configured"@,
        crate::text::bool_text(report.session_bus_configured),
    ) + session_json(report.active_graphical_session) + json_line(
        "portal_available"@,
        crate::text::bool_text(report.portal_available),
    ) + json_line("portal_error"@, json_optional(view_of(report.portal_error))) + interface_json(
        "input_capture"@,
        report.input_capture,
    ) + interface_json("remote_desktop"@, report.remote_desktop) + json_line(
        "libei_version"@,
        json_optional(view_of(report.libei_version)),
    ) + json_line("controller_ready"@, crate::text::bool_text(report.can_control())) + json_line(
        "follower_ready"@,
        crate::text::bool_text(report.can_follow()),
    ) + "  \"probe_scope\": \"read-only; no portal sessions or consent prompts\"\n}"@
}

fn push_hex_digit(out: &mut String, n: u64)
    requires
        n < 16,
    ensures
        final(out)@ == old(out)@.push(crate::text::hex_digit(n as nat)),
{
    push_numeral(out, n, 16);
    assert(out@ =~= old(out)@.push(crate::text::hex_digit(n as nat)));
}

fn push_json_string(out: &mut String, value: &str)
    ensures
        final(out)@ == old(out)@ + json_text(value@),
{
    let chars = to_chars(value);
    out.push_str("\"");
    let ghost head = out@;
    let mut i: usize = 0;
    assert(escaped_all(chars@.take(0)) =~= Seq::<char>::empty());
    assert(head + escaped_all(chars@.take(0)) =~= head);
    while i < chars.len()
        invariant
            i <= chars.len(),
            chars@ == value@,
            out@ == head + escaped_all(chars@.take(i as int)),
        decreases chars.len() - i,
    {
        let c = chars[i];
        proof {
            let next = chars@.take(i + 1);
            assert(next.drop_last() =~= chars@.take(i as int));
            assert(next.last() == c);
        }
        let ghost before = out@;
        push_escaped(out, c);
        assert(out@ =~= head + escaped_all(chars@.take(i + 1)));
        i = i + 1;
    }
    assert(chars@.take(i as int) =~= value@);
    out.push_str("\"");
    assert(out@ =~= old(out)@ + json_text(value@));
}

fn push_escaped(out: &mut String, c: char)
    ensures
        final(out)@ == old(out)@ + escaped(c),
{
    let n: u32 = c as u32;
    if c == '"' {
        out.push_str("\\\"");
    } else if c == '\\' {
        out.push_str("\\\\");
    } else if c == '\n' {
        out.push_str("\\n");
    } else if c == '\r' {
        out.push_str("\\r");
    } else if c == '\t' {
        out.push_str("\\t");
    } else if n <= 0x1f || (0x7f <= n && n <= 0x9f) {
        out.push_str("\\u");
        push_hex_digit(out, (n / 4096 % 16) as u64);
        push_hex_digit(out, (n / 256 % 16) as u64);
        push_hex_digit(out, (n / 16 % 16) as u64);
        push_hex_digit(out, (n % 16) as u64);
        assert(out@ =~= old(out)@ + ("\\u"@ + four_digits(c as nat)));
    } else {
        out.push(c);
    }
    assert(out@ =~= old(out)@ + escaped(c));
}

/// A text as a JSON string.
pub fn json_string(value: &str) -> (json: String)
    ensures
        json@ == json_text(value@),
{
    let mut json = String::new();
    push_json_string(&mut json, value);
    assert(json@ =~= json_text(value@));
    json
}

fn push_option_line(json: &mut String, key: &str, value: &Option<String>)
    ensures
        final(json)@ == old(json)@ + json_line(key@, json_optional(view_of(*value))),
{
    json.push_str("  \"");
    json.push_str(key);
    json.push_str("\": ");
    push_json_option(json, value);
    json.push_str(",\n");
    assert(json@ =~= old(json)@ + json_line(key@, json_optional(view_of(*value))));
}

fn push_json_option(json: &mut String, value: &Option<String>)
    ensures
        final(json)@ == old(json)@ + json_optional(view_of(*value)),
{
    match value {
        Some(text) => push_json_string(json, text.as_str()),
        None => json.push_str("null"),
    }
}

fn push_bool_line(json: &mut String, key: &str, value: bool)
    ensures
        final(json)@ == old(json)@ + json_line(key@, crate::text::bool_text(value)),
{
    json.push_str("  \"");
    json.push_str(key);
    json.push_str("\": ");
    json.push_str(bool_str(value));
    json.push_str(",\n");
    assert(json@ =~= old(json)@ + json_line(key@, crate::text::bool_text(value)));
}

fn push_inner_bool(json: &mut String, key: &str, value: bool)
    ensures
        final(json)@ == old(json)@ + inner_line(key@, crate::text::bool_text(value)),
{
    json.push_str("    \"");
    json.push_str(key);
    json.push_str("\": ");
    json.push_str(bool_str(value));
    json.push_str(",\n");
    assert(json@ =~= old(json)@ + inner_line(key@, crate::text::bool_text(value)));
}

fn push_inner_count(json: &mut String, key: &str, value: Option<u32>)
    ensures
        final(json)@ == old(json)@ + inner_line(key@, json_count(value)),
{
    json.push_str("    \"");
    json.push_str(key);
    json.push_str("\": ");
    match value {
        Some(n) => push_decimal(json, n as u64),
        None => json.push_str("null"),
    }
    json.push_str(",\n");
    assert(json@ =~= old(json)@ + inner_line(key@, json_count(value)));
}

fn has_capability(bits: Option<u32>, bit: u32) -> (has: bool)
    ensures
        has == has_bit(bits, bit),
{
    match bits {
        Some(bits) => bits & bit != 0,
        None => false,
    }
}

fn write_interface_json(json: &mut String, name: &str, probe: &InterfaceProbe)
    ensures
        final(json)@ == old(json)@ + interface_json(name@, *probe),
{
    let mut part = String::new();
    part.push_str("  \"");
    assert(part@ =~= "  \""@);
    part.push_str(name);
    part.push_str("\": {\n");
    push_inner_bool(&mut part, "available", probe.available);
    push_inner_count(&mut part, "version", probe.version);
    push_inner_count(&mut part, "capabilities", probe.capabilities);
    push_inner_bool(&mut part, "keyboard", has_capability(probe.capabilities, KEYBOARD));
    push_inner_bool(&mut part, "pointer", has_capability(probe.capabilities, POINTER));
    push_inner_bool(&mut part, "touchscreen", has_capability(probe.capabilities, TOUCHSCREEN));
    part.push_str("    \"error\": ");
    push_json_option(&mut part, &probe.error);
    part.push_str("\n  },\n");
    json.push_str(part.as_str());
}

pub open spec fn or_unset(value: Option<Seq<char>>) -> Seq<char> {
    match value {
        Some(text) => text,
        None => "not set"@,
    }
}

pub open spec fn yes_or_no(value: bool) -> Seq<char> {
    if value {
        "yes"@
    } else {
        "no"@
    }
}

pub open spec fn error_note(error: Option<Seq<char>>) -> Seq<char> {
    match error {
        Some(text) => " ("@ + text + ")"@,
        None => Seq::empty(),
    }
}

pub open spec fn count_or_unknown(n: Option<u32>) -> Seq<char> {
    match n {
        Some(n) => crate::text::decimal(n as nat),
        None => "unknown"@,
    }
}

pub open spec fn interface_line(
    name: Seq<char>,
    probe: InterfaceProbe,
    capability: Seq<char>,
) -> Seq<char> {
    name + ": "@ + yes_or_no(probe.available) + " version="@ + count_or_unknown(probe.version)
        + " "@ + capability + "="@ + count_or_unknown(probe.capabilities) + " keyboard="@
        + yes_or_no(has_bit(probe.capabilities, KEYBOARD)) + " pointer="@ + yes_or_no(
        has_bit(probe.capabilities, POINTER),
    ) + " touchscreen="@ + yes_or_no(has_bit(probe.capabilities, TOUCHSCREEN)) + error_note(
        view_of(probe.error),
    ) + "\n"@
}

pub open spec fn session_line(session: Option<GraphicalSession>) -> Seq<char> {
    match session {
        Some(session) => "active graphical session: "@ + session.session_type@ + " (id="@
            + session.id@ + ", state="@ + session.state@ + ")\n"@,
        None => "active graphical session: not detected\n"@,
    }
}

/// The report in words, line by line.
pub open spec fn human_report(report: DoctorReport) -> Seq<char> {
    "CachyBridge Wayland capability probe\nprocess session: "@ + or_unset(
        view_of(report.process_session_type),
    ) + " (WAYLAND_DISPLAY="@ + or_unset(view_of(report.wayland_display)) + ", DISPLAY="@ + or_unset(
        view_of(report.display),
    ) + ")\n"@ + session_line(report.active_graphical_session) + "session bus: "@ + (
    if report.session_bus_configured {
        "configured"@
    } else {
        "not configured"@
    }) + "\ndesktop portal: "@ + yes_or_no(report.portal_available) + error_note(
        view_of(report.portal_error),
    ) + "\n"@ + interface_line("InputCapture"@, report.input_capture, "SupportedCapabilities"@)
        + interface_line("RemoteDesktop"@, report.remote_desktop, "AvailableDeviceTypes"@)
        + "libei: "@ + (match view_of(report.libei_version) {
        Some(text) => text,
        None => "not detected"@,
    }) + "\ncontroller role ready: "@ + yes_or_no(report.can_control())
        + "\nfollower role ready: "@ + yes_or_no(report.can_follow())
        + "\nscope: read-only capability check; portal consent, sessions, barriers, and EIS handshakes were not attempted\n"@
}

fn yes_no(value: bool) -> (word: &'static str)
    ensures
        word@ == yes_or_no(value),
{
    if value {
        "yes"
    } else {
        "no"
    }
}

fn push_option(out: &mut String, value: &Option<String>, otherwise: &str)
    ensures
        final(out)@ == old(out)@ + match view_of(*value) {
            Some(text) => text,
            None => otherwise@,
        },
{
    match value {
        Some(text) => out.push_str(text.as_str()),
        None => out.push_str(otherwise),
    }
}

fn push_error(out: &mut String, error: &Option<String>)
    ensures
        final(out)@ == old(out)@ + error_note(view_of(*error)),
{
    if let Some(text) = error {
        out.push_str(" (");
        out.push_str(text.as_str());
        out.push_str(")");
    }
    assert(out@ =~= old(out)@ + error_note(view_of(*error)));
}

fn push_count(out: &mut String, n: Option<u32>)
    ensures
        final(out)@ == old(out)@ + count_or_unknown(n),
{
    match n {
        Some(n) => push_decimal(out, n as u64),
        None => out.push_str("unknown"),
    }
}

fn push_interface(out: &mut String, name: &str, probe: &InterfaceProbe, capability: &str)
    ensures
        final(out)@ == old(out)@ + interface_line(name@, *probe, capability@),
{
    let mut line = String::new();
    line.push_str(name);
    assert(line@ =~= name@);
    line.push_str(": ");
    line.push_str(yes_no(probe.available));
    line.push_str(" version=");
    push_count(&mut line, probe.version);
    line.push_str(" ");
    line.push_str(capability);
    line.push_str("=");
    push_count(&mut line, probe.capabilities);
    line.push_str(" keyboard=");
    line.push_str(yes_no(has_capability(probe.capabilities, KEYBOARD)));
    line.push_str(" pointer=");
    line.push_str(yes_no(has_capability(probe.capabilities, POINTER)));
    line.push_str(" touchscreen=");
    line.push_str(yes_no(has_capability(probe.capabilities, TOUCHSCREEN)));
    push_error(&mut line, &probe.error);
    line.push_str("\n");
    out.push_str(line.as_str());
}

fn push_session_line(out: &mut String, session: &Option<GraphicalSession>)
    ensures
        final(out)@ == old(out)@ + session_line(*session),
{
    match session {
        Some(session) => {
            out.push_str("active graphical session: ");
            out.push_str(session.session_type.as_str());
            out.push_str(" (id=");
            out.push_str(session.id.as_str());
            out.push_str(", state=");
            out.push_str(session.state.as_str());
            out.push_str(")\n");
        },
        None => {
            out.push_str("active graphical session: not detected\n");
        },
    }
    assert(out@ =~= old(out)@ + session_line(*session));
}

impl DoctorReport {
    /// The report in words.
    pub fn human_text(&self) -> (text: String)
        ensures
            text@ == human_report(*self),
    {
        let mut text = String::new();
        text.push_str("CachyBridge Wayland capability probe\nprocess session: ");
        assert(text@ =~= "CachyBridge Wayland capability probe\nprocess session: "@);
        push_option(&mut text, &self.process_session_type, "not set");
        text.push_str(" (WAYLAND_DISPLAY=");
        push_option(&mut text, &self.wayland_display, "not set");
        text.push_str(", DISPLAY=");
        push_option(&mut text, &self.display, "not set");
        text.push_str(")\n");
        push_session_line(&mut text, &self.active_graphical_session);
        text.push_str("session bus: ");
        text.push_str(
            if self.session_bus_configured {
                "configured"
            } else {
                "not configured"
            },
        );
        text.push_str("\ndesktop portal: ");
        text.push_str(yes_no(self.portal_available));
        push_error(&mut text, &self.portal_error);
        text.push_str("\n");
        push_interface(&mut text, "InputCapture", &self.input_capture, "SupportedCapabilities");
        push_interface(&mut text, "RemoteDesktop", &self.remote_desktop, "AvailableDeviceTypes");
        text.push_str("libei: ");
        push_option(&mut text, &self.libei_version, "not detected");
        text.push_str("\ncontroller role ready: ");
        text.push_str(yes_no(self.controller_ready()));
        text.push_str("\nfollower role ready: ");
        text.push_str(yes_no(self.follower_ready()));
        text.push_str(
            "\nscope: read-only capability check; portal consent, sessions, barriers, and EIS handshakes were not attempted\n",
        );
        text
    }
}

/// Whether `needle` stands in a text at a place.
pub open spec fn stands_at(s: Seq<char>, needle: Seq<char>, at: int) -> bool {
    0 <= at && at + needle.len() <= s.len() && s.subrange(at, at + needle.len()) == needle
}

/// The digits at the start of a text.
pub open spec fn leading_digits(s: Seq<char>) -> Seq<char>
    decreases s.len(),
{
    if s.len() > 0 && crate::text::is_digit(s[0]) {
        seq![s[0]] + leading_digits(s.skip(1))
    } else {
        Seq::empty()
    }
}

/// Whether `at` is the first place of `needle`.
pub open spec fn is_first(s: Seq<char>, needle: Seq<char>, at: int) -> bool {
    stands_at(s, needle, at) && forall|j: int| 0 <= j < at ==> !#[trigger] stands_at(s, needle, j)
}

/// The number behind the marker `uint32` in a reply.
pub open spec fn uint32_denoted(s: Seq<char>) -> Option<nat> {
    if exists|at: int| is_first(s, "uint32 "@, at) {
        let at = choose|at: int| is_first(s, "uint32 "@, at);
        crate::text::unsigned(leading_digits(s.skip(at + 7)), u32::MAX as nat)
    } else {
        None
    }
}

/// The first place of `needle`, if it occurs.
fn find_text(chars: &[char], needle: &[char]) -> (at: Option<usize>)
    ensures
        match at {
            Some(at) => is_first(chars@, needle@, at as int),
            None => forall|j: int| !#[trigger] stands_at(chars@, needle@, j),
        },
{
    if needle.len() > chars.len() {
        return None;
    }
    let last: usize = chars.len() - needle.len();
    let mut at: usize = 0;
    loop
        invariant
            at <= last,
            last == chars@.len() - needle@.len(),
            chars@.len() <= usize::MAX,
            forall|j: int| 0 <= j < at ==> !#[trigger] stands_at(chars@, needle@, j),
        decreases last - at,
    {
        let part = char_range(chars, at, at + needle.len());
        if same_chars(part.as_slice(), needle) {
            assert(stands_at(chars@, needle@, at as int));
            return Some(at);
        }
        assert(!stands_at(chars@, needle@, at as int));
        if at == last {
            return None;
        }
        at = at + 1;
    }
}

/// Reads the unsigned number in a variant that the query tool printed.
pub fn parse_uint32(text: &str) -> (value: Option<u32>)
    ensures
        match value {
            Some(n) => uint32_denoted(text@) == Some(n as nat),
            None => uint32_denoted(text@) is None,
        },
{
    let chars = to_chars(text);
    let marker = to_chars("uint32 ");
    proof {
        reveal_strlit("uint32 ");
    }
    let at = match find_text(chars.as_slice(), marker.as_slice()) {
        Some(at) => at,
        None => {
            assert(forall|at: int| !is_first(text@, "uint32 "@, at));
            return None;
        },
    };
    proof {
        assert(is_first(text@, "uint32 "@, at as int));
        let chosen = choose|at: int| is_first(text@, "uint32 "@, at);
        assert(chosen == at) by {
            if chosen < at {
                assert(!stands_at(text@, "uint32 "@, chosen));
            } else if chosen > at {
                assert(!stands_at(text@, "uint32 "@, at as int));
            }
        }
    }
    assert(at + 7 <= chars@.len() && chars@.len() == chars.len());
    let start: usize = at + 7;
    let mut end: usize = start;
    let ghost tail = text@.skip(start as int);
    assert(tail.skip(0) =~= tail);
    assert(tail.take(0) + leading_digits(tail.skip(0)) =~= leading_digits(tail));
    while end < chars.len() && char_is_digit(chars[end])
        invariant
            start <= end <= chars.len(),
            chars@ == text@,
            tail == text@.skip(start as int),
            tail.take(end - start) + leading_digits(tail.skip(end - start)) == leading_digits(tail),
        decreases chars.len() - end,
    {
        proof {
            let k = end - start;
            assert(tail[k] == chars@[end as int]);
            assert(tail.skip(k)[0] == tail[k]);
            assert(tail.skip(k).skip(1) =~= tail.skip(k + 1));
            assert(tail.take(k + 1) + leading_digits(tail.skip(k + 1)) =~= tail.take(k) + (seq![
                tail.skip(k)[0],
            ] + leading_digits(tail.skip(k + 1))));
        }
        end = end + 1;
    }
    proof {
        let k = end - start;
        if end < chars.len() {
            assert(tail.skip(k)[0] == chars@[end as int]);
        }
        assert(leading_digits(tail.skip(k)) =~= Seq::<char>::empty());
        assert(text@.subrange(start as int, end as int) =~= tail.take(k));
        assert(leading_digits(tail) =~= tail.take(k));
    }
    let digits = char_range(chars.as_slice(), start, end);
    match parse_unsigned(digits.as_slice(), 0xffff_ffff) {
        Some(n) => Some(n as u32),
        None => None,
    }
}

/// Whether a text says that the portal's name has an owner.
pub fn says_true(text: &str) -> (yes: bool)
    ensures
        yes == exists|at: int| stands_at(text@, "true"@, at),
{
    let chars = to_chars(text);
    let word = to_chars("true");
    match find_text(chars.as_slice(), word.as_slice()) {
        Some(at) => {
            assert(stands_at(text@, "true"@, at as int));
            true
        },
        None => false,
    }
}

pub open spec fn reply_text(reply: Seq<char>) -> Seq<char> {
    "unexpected gdbus reply: "@ + crate::text::trimmed(reply)
}

/// A property in the reply of the query tool, or why it could not be had.
pub fn portal_property(reply: Result<String, String>) -> (result: Result<u32, String>)
    ensures
        match reply {
            Err(why) => result == Err::<u32, String>(why),
            Ok(text) => match result {
                Ok(n) => uint32_denoted(text@) == Some(n as nat),
                Err(why) => uint32_denoted(text@) is None && why@ == reply_text(text@),
            },
        },
{
    match reply {
        Err(why) => Err(why),
        Ok(text) => match parse_uint32(text.as_str()) {
            Some(n) => Ok(n),
            None => {
                let chars = to_chars(text.as_str());
                let trimmed = trim_chars(chars.as_slice());
                let shown = to_text(trimmed.as_slice());
                let mut why = String::new();
                why.push_str("unexpected gdbus reply: ");
                why.push_str(shown.as_str());
                assert(why@ =~= reply_text(text@));
                Err(why)
            },
        },
    }
}

/// An interface is there if both of its properties could be read; the first
/// failure is reported.
pub fn probe_interface(version: Result<u32, String>, capabilities: Result<u32, String>) -> (probe:
    InterfaceProbe)
    ensures
        match (version, capabilities) {
            (Ok(version), Ok(capabilities)) => {
                &&& probe.available
                &&& probe.version == Some(version)
                &&& probe.capabilities == Some(capabilities)
                &&& probe.error is None
            },
            (version, capabilities) => {
                &&& !probe.available
                &&& probe.version is None
                &&& probe.capabilities is None
                &&& probe.error == Some(
                    match version {
                        Err(why) => why,
                        Ok(_) => capabilities->Err_0,
                    },
                )
            },
        },
{
    match (version, capabilities) {
        (Ok(version), Ok(capabilities)) => InterfaceProbe {
            available: true,
            version: Some(version),
            capabilities: Some(capabilities),
            error: None,
        },
        (Err(why), _) => InterfaceProbe {
            available: false,
            version: None,
            capabilities: None,
            error: Some(why),
        },
        (Ok(_), Err(why)) => InterfaceProbe {
            available: false,
            version: None,
            capabilities: None,
            error: Some(why),
        },
    }
}

/// The words of a line, parted by white space.
pub open spec fn words(s: Seq<char>) -> Seq<Seq<char>>
    decreases s.len(),
{
    let start = leading_white(s);
    let rest = s.skip(start);
    if start < 0 || start >= s.len() {
        Seq::empty()
    } else {
        let len = leading_black(rest);
        if len <= 0 || len > rest.len() {
            Seq::empty()
        } else {
            seq![rest.take(len)] + words(rest.skip(len))
        }
    }
}

/// How many white characters a text starts with.
pub open spec fn leading_white(s: Seq<char>) -> int
    decreases s.len(),
{
    if s.len() > 0 && crate::text::is_white(s[0]) {
        1 + leading_white(s.skip(1))
    } else {
        0
    }
}

/// How many other characters a text starts with.
pub open spec fn leading_black(s: Seq<char>) -> int
    decreases s.len(),
{
    if s.len() > 0 && !crate::text::is_white(s[0]) {
        1 + leading_black(s.skip(1))
    } else {
        0
    }
}

proof fn lemma_leading(s: Seq<char>)
    ensures
        0 <= leading_white(s) <= s.len(),
        0 <= leading_black(s) <= s.len(),
        leading_white(s) < s.len() ==> leading_black(s.skip(leading_white(s))) >= 1,
    decreases s.len(),
{
    if s.len() > 0 {
        lemma_leading(s.skip(1));
        if crate::text::is_white(s[0]) {
            let n = leading_white(s.skip(1));
            assert(s.skip(1).skip(n) =~= s.skip(1 + n));
        } else {
            assert(s.skip(0) =~= s);
        }
    }
}

fn skip_white(chars: &[char], from: usize) -> (to: usize)
    requires
        from <= chars@.len(),
    ensures
        to == from + leading_white(chars@.skip(from as int)),
        to <= chars@.len(),
{
    let mut to: usize = from;
    let ghost all = leading_white(chars@.skip(from as int));
    while to < chars.len() && char_is_white(chars[to])
        invariant
            from <= to <= chars@.len(),
            all == (to - from) + leading_white(chars@.skip(to as int)),
        decreases chars.len() - to,
    {
        assert(chars@.skip(to as int)[0] == chars@[to as int]);
        assert(chars@.skip(to as int).skip(1) =~= chars@.skip(to + 1));
        to = to + 1;
    }
    proof {
        if to < chars.len() {
            assert(chars@.skip(to as int)[0] == chars@[to as int]);
        }
    }
    to
}

fn skip_black(chars: &[char], from: usize) -> (to: usize)
    requires
        from <= chars@.len(),
    ensures
        to == from + leading_black(chars@.skip(from as int)),
        to <= chars@.len(),
{
    let mut to: usize = from;
    let ghost all = leading_black(chars@.skip(from as int));
    while to < chars.len() && !char_is_white(chars[to])
        invariant
            from <= to <= chars@.len(),
            all == (to - from) + leading_black(chars@.skip(to as int)),
        decreases chars.len() - to,
    {
        assert(chars@.skip(to as int)[0] == chars@[to as int]);
        assert(chars@.skip(to as int).skip(1) =~= chars@.skip(to + 1));
        to = to + 1;
    }
    proof {
        if to < chars.len() {
            assert(chars@.skip(to as int)[0] == chars@[to as int]);
        }
    }
    to
}

fn split_words(chars: &[char]) -> (out: Vec<Vec<char>>)
    ensures
        crate::text::texts(out@) == words(chars@),
{
    let mut out: Vec<Vec<char>> = Vec::new();
    let mut at: usize = 0;
    assert(chars@.skip(0) =~= chars@);
    assert(crate::text::texts(out@) + words(chars@.skip(0)) =~= words(chars@));
    loop
        invariant
            at <= chars@.len(),
            crate::text::texts(out@) + words(chars@.skip(at as int)) == words(chars@),
        decreases chars.len() - at,
    {
        let ghost rest = chars@.skip(at as int);
        proof {
            lemma_leading(rest);
        }
        let start = skip_white(chars, at);
        assert(rest.skip(start - at) =~= chars@.skip(start as int));
        if start == chars.len() {
            assert(words(rest) =~= Seq::<Seq<char>>::empty());
            assert(crate::text::texts(out@) + words(rest) =~= crate::text::texts(out@));
            return out;
        }
        proof {
            lemma_leading(chars@.skip(start as int));
        }
        let end = skip_black(chars, start);
        let word = char_range(chars, start, end);
        let ghost before = crate::text::texts(out@);
        proof {
            let tail = chars@.skip(start as int);
            let len = end - start;
            assert(word@ =~= tail.take(len));
            assert(tail.skip(len) =~= chars@.skip(end as int));
            assert(words(rest) =~= seq![word@] + words(chars@.skip(end as int)));
        }
        out.push(word);
        proof {
            assert(crate::text::texts(out@) =~= before.push(word@));
            assert(crate::text::texts(out@) + words(chars@.skip(end as int)) =~= before + words(
                rest,
            ));
        }
        at = end;
    }
}

/// The sessions of a user in a listing: the first word of every line whose
/// second word is the user's id.
pub open spec fn sessions_of(lines: Seq<Seq<char>>, uid: Seq<char>) -> Seq<Seq<char>>
    decreases lines.len(),
{
    if lines.len() == 0 {
        Seq::empty()
    } else {
        let columns = words(lines.last());
        let before = sessions_of(lines.drop_last(), uid);
        if columns.len() >= 2 && columns[1] == uid {
            before.push(columns[0])
        } else {
            before
        }
    }
}

/// The ids of a user's sessions, in the order of the listing.
pub fn session_ids(listing: &str, uid: &str) -> (ids: Vec<String>)
    ensures
        ids@.map_values(|id: String| id@) == sessions_of(
            crate::text::lines(listing@),
            crate::text::trimmed(uid@),
        ),
{
    let chars = to_chars(listing);
    let lines = split_lines(chars.as_slice());
    let uid_chars = to_chars(uid);
    let user = trim_chars(uid_chars.as_slice());
    let mut ids: Vec<String> = Vec::new();
    let mut i: usize = 0;
    let ghost all = crate::text::lines(listing@);
    assert(ids@.map_values(|id: String| id@) =~= sessions_of(all.take(0), user@));
    while i < lines.len()
        invariant
            i <= lines.len(),
            crate::text::texts(lines@) == all,
            ids@.map_values(|id: String| id@) == sessions_of(all.take(i as int), user@),
        decreases lines.len() - i,
    {
        let columns = split_words(lines[i].as_slice());
        proof {
            let next = all.take(i + 1);
            assert(next.drop_last() =~= all.take(i as int));
            assert(next.last() == lines@[i as int]@);
            assert(columns@.len() == words(next.last()).len());
        }
        if columns.len() >= 2 && same_chars(columns[1].as_slice(), user.as_slice()) {
            let id = to_text(columns[0].as_slice());
            let ghost before = ids@.map_values(|id: String| id@);
            proof {
                assert(words(all[i as int])[0] == columns@[0]@);
                assert(words(all[i as int])[1] == columns@[1]@);
            }
            ids.push(id);
            assert(ids@.map_values(|id: String| id@) =~= before.push(id@));
        } else {
            proof {
                if columns@.len() >= 2 {
                    assert(words(all[i as int])[1] == columns@[1]@);
                }
            }
        }
        i = i + 1;
    }
    assert(all.take(i as int) =~= all);
    ids
}

/// The value of a property among lines: what follows `name=` on the first line
/// that starts so.
pub open spec fn property_in(lines: Seq<Seq<char>>, name: Seq<char>) -> Option<Seq<char>>
    decreases lines.len(),
{
    if lines.len() == 0 {
        None
    } else {
        let key = name.push('=');
        if key.len() <= lines[0].len() && lines[0].take(key.len() as int) == key {
            Some(lines[0].skip(key.len() as int))
        } else {
            property_in(lines.skip(1), name)
        }
    }
}

pub fn property_value(properties: &str, name: &str) -> (value: Option<String>)
    ensures
        view_of(value) == property_in(crate::text::lines(properties@), name@),
{
    let chars = to_chars(properties);
    let lines = split_lines(chars.as_slice());
    let mut key = to_chars(name);
    key.push('=');
    let mut i: usize = 0;
    let ghost all = crate::text::lines(properties@);
    assert(all.skip(0) =~= all);
    while i < lines.len()
        invariant
            i <= lines.len(),
            key@ == name@.push('='),
            all == crate::text::lines(properties@),
            crate::text::texts(lines@) == all,
            property_in(all.skip(i as int), name@) == property_in(all, name@),
        decreases lines.len() - i,
    {
        let line = &lines[i];
        proof {
            assert(all.skip(i as int)[0] == lines@[i as int]@);
            assert(all.skip(i as int).skip(1) =~= all.skip(i + 1));
        }
        if line.len() >= key.len() {
            let head = char_range(line.as_slice(), 0, key.len());
            assert(head@ =~= line@.take(key@.len() as int));
            if same_chars(head.as_slice(), key.as_slice()) {
                let tail = char_range(line.as_slice(), key.len(), line.len());
                let value = to_text(tail.as_slice());
                proof {
                    let first = all.skip(i as int)[0];
                    assert(tail@ =~= first.skip(key@.len() as int));
                    assert(property_in(all.skip(i as int), name@) == Some(value@));
                }
                return Some(value);
            }
        }
        i = i + 1;
    }
    assert(all.skip(i as int) =~= Seq::empty());
    None
}

/// What the properties of a session lead to.
#[derive(Debug, Clone, PartialEq, Eq)]
pub enum SessionStep {
    /// A property is missing: no session is reported.
    GiveUp,
    /// It is not a local graphical session in use.
    Skip,
    Found(GraphicalSession),
}

pub open spec fn session_suits(
    session_type: Seq<char>,
    state: Seq<char>,
    remote: Seq<char>,
) -> bool {
    remote == "no"@ && (session_type == "wayland"@ || session_type == "x11"@) && (state
        == "active"@ || state == "online"@)
}

/// Whether a session is the active graphical one.
pub fn graphical_session(id: String, properties: &str) -> (step: SessionStep)
    ensures
        ({
            let lines = crate::text::lines(properties@);
            match (
                property_in(lines, "Type"@),
                property_in(lines, "State"@),
                property_in(lines, "Remote"@),
            ) {
                (Some(session_type), Some(state), Some(remote)) => if session_suits(
                    session_type,
                    state,
                    remote,
                ) {
                    step matches SessionStep::Found(session) && session.id@ == id@
                        && session.session_type@ == session_type && session.state@ == state
                } else {
                    step == SessionStep::Skip
                },
                _ => step == SessionStep::GiveUp,
            }
        }),
{
    let session_type = match property_value(properties, "Type") {
        Some(value) => value,
        None => {
            return SessionStep::GiveUp;
        },
    };
    let state = match property_value(properties, "State") {
        Some(value) => value,
        None => {
            return SessionStep::GiveUp;
        },
    };
    let remote = match property_value(properties, "Remote") {
        Some(value) => value,
        None => {
            return SessionStep::GiveUp;
        },
    };
    if same_text(remote.as_str(), "no") && (same_text(session_type.as_str(), "wayland")
        || same_text(session_type.as_str(), "x11")) && (same_text(state.as_str(), "active")
        || same_text(state.as_str(), "online")) {
        return SessionStep::Found(GraphicalSession { id, session_type, state });
    }
    SessionStep::Skip
}

/// What the environment and the query tools said.
pub struct ProbeInputs {
    pub process_session_type: Option<String>,
    pub wayland_display: Option<String>,
    pub display: Option<String>,
    pub session_bus_address: Option<String>,
    pub active_graphical_session: Option<GraphicalSession>,
    pub portal_owner: Result<String, String>,
    pub input_capture_version: Result<String, String>,
    pub input_capture_capabilities: Result<String, String>,
    pub remote_desktop_version: Result<String, String>,
    pub remote_desktop_capabilities: Result<String, String>,
    pub libei: Option<String>,
}

/// A value of the environment, unless it is empty.
fn nonempty(value: Option<String>) -> (kept: Option<String>)
    ensures
        view_of(kept) == kept_text(view_of(value)),
{
    match value {
        Some(text) => {
            let chars = to_chars(text.as_str());
            if chars.len() == 0 {
                return None;
            }
            Some(text)
        },
        None => None,
    }
}

pub open spec fn kept_text(value: Option<Seq<char>>) -> Option<Seq<char>> {
    match value {
        Some(text) => if text.len() == 0 {
            None
        } else {
            Some(text)
        },
        None => None,
    }
}

pub open spec fn trimmed_text(value: Option<Seq<char>>) -> Option<Seq<char>> {
    match value {
        Some(text) => kept_text(Some(crate::text::trimmed(text))),
        None => None,
    }
}

/// Whether a probe is what two replies must lead to.
pub open spec fn probed(
    version: Result<String, String>,
    capabilities: Result<String, String>,
    probe: InterfaceProbe,
) -> bool {
    let number = |reply: Result<String, String>|
        match reply {
            Ok(text) => uint32_denoted(text@),
            Err(_) => None::<nat>,
        };
    let fault = |reply: Result<String, String>|
        match reply {
            Ok(text) => reply_text(text@),
            Err(why) => why@,
        };
    match (number(version), number(capabilities)) {
        (Some(v), Some(c)) => {
            &&& probe.available
            &&& probe.version matches Some(n) && n == v
            &&& probe.capabilities matches Some(n) && n == c
            &&& probe.error is None
        },
        (None, _) => {
            &&& !probe.available && probe.version is None && probe.capabilities is None
            &&& view_of(probe.error) == Some(fault(version))
        },
        (Some(_), None) => {
            &&& !probe.available && probe.version is None && probe.capabilities is None
            &&& view_of(probe.error) == Some(fault(capabilities))
        },
    }
}

/// The report on what was said.
pub fn probe(inputs: ProbeInputs) -> (report: DoctorReport)
    ensures
        view_of(report.process_session_type) == kept_text(view_of(inputs.process_session_type)),
        view_of(report.wayland_display) == kept_text(view_of(inputs.wayland_display)),
        view_of(report.display) == kept_text(view_of(inputs.display)),
        report.session_bus_configured == (kept_text(view_of(inputs.session_bus_address)) is Some),
        report.active_graphical_session == inputs.active_graphical_session,
        match inputs.portal_owner {
            Ok(text) => report.portal_available == (exists|at: int|
                stands_at(text@, "true"@, at)) && report.portal_error is None,
            Err(why) => !report.portal_available && report.portal_error == Some(why),
        },
        probed(
            inputs.input_capture_version,
            inputs.input_capture_capabilities,
            report.input_capture,
        ),
        probed(
            inputs.remote_desktop_version,
            inputs.remote_desktop_capabilities,
            report.remote_desktop,
        ),
        view_of(report.libei_version) == trimmed_text(view_of(inputs.libei)),
{
    let (portal_available, portal_error) = match inputs.portal_owner {
        Ok(text) => (says_true(text.as_str()), None),
        Err(why) => (false, Some(why)),
    };
    let libei_version = match inputs.libei {
        Some(text) => {
            let chars = to_chars(text.as_str());
            let kept = trim_chars(chars.as_slice());
            nonempty(Some(to_text(kept.as_slice())))
        },
        None => None,
    };
    DoctorReport {
        process_session_type: nonempty(inputs.process_session_type),
        wayland_display: nonempty(inputs.wayland_display),
        display: nonempty(inputs.display),
        session_bus_configured: nonempty(inputs.session_bus_address).is_some(),
        active_graphical_session: inputs.active_graphical_session,
        portal_available,
        portal_error,
        input_capture: probe_interface(
            portal_property(inputs.input_capture_version),
            portal_property(inputs.input_capture_capabilities),
        ),
        remote_desktop: probe_interface(
            portal_property(inputs.remote_desktop_version),
            portal_property(inputs.remote_desktop_capabilities),
        ),
        libei_version,
    }
}

/// What `parse_uint32` reads of a variant holding a number is that number.
pub proof fn law_variant_round_trip(n: u32)
    ensures
        uint32_denoted("(<uint32 "@ + crate::text::decimal(n as nat) + ">,)"@) == Some(n as nat),
{
    reveal_strlit("(<uint32 ");
    reveal_strlit("uint32 ");
    reveal_strlit(">,)");
    let digits = crate::text::decimal(n as nat);
    let s = "(<uint32 "@ + digits + ">,)"@;
    crate::text::lemma_decimal(n as nat);
    crate::text::lemma_unsigned_decimal(n as nat, u32::MAX as nat);
    assert(s.subrange(2, 9) =~= "uint32 "@);
    assert(stands_at(s, "uint32 "@, 2));
    assert(!stands_at(s, "uint32 "@, 0)) by {
        if stands_at(s, "uint32 "@, 0) {
            assert(s.subrange(0, 7)[0] == "uint32 "@[0]);
        }
    }
    assert(!stands_at(s, "uint32 "@, 1)) by {
        if stands_at(s, "uint32 "@, 1) {
            assert(s.subrange(1, 8)[0] == "uint32 "@[0]);
        }
    }
    assert(is_first(s, "uint32 "@, 2));
    let at = choose|at: int| is_first(s, "uint32 "@, at);
    assert(at == 2) by {
        if at < 2 {
            assert(!stands_at(s, "uint32 "@, at));
        } else if at > 2 {
            assert(!stands_at(s, "uint32 "@, 2));
        }
    }
    assert(s.skip(9) =~= digits + ">,)"@);
    lemma_leading_digits(digits, ">,)"@);
}

proof fn lemma_leading_digits(digits: Seq<char>, rest: Seq<char>)
    requires
        crate::text::all_digits(digits),
        rest.len() > 0,
        !crate::text::is_digit(rest[0]),
    ensures
        leading_digits(digits + rest) == digits,
    decreases digits.len(),
{
    if digits.len() == 0 {
        assert(digits + rest =~= rest);
        assert(leading_digits(rest) =~= digits);
    } else {
        assert(crate::text::is_digit(digits[0]));
        let tail = digits.skip(1);
        assert forall|i: int| 0 <= i < tail.len() implies crate::text::is_digit(
            #[trigger] tail[i],
        ) by {
            assert(crate::text::is_digit(digits[i + 1]));
        }
        lemma_leading_digits(tail, rest);
        assert((digits + rest).skip(1) =~= tail + rest);
        assert(seq![digits[0]] + tail =~= digits);
    }
}

/// The character that a one-letter JSON escape stands for.
pub open spec fn short_escape(c: char) -> Option<char> {
    if c == '"' || c == '\\' || c == '/' {
        Some(c)
    } else if c == 'n' {
        Some('\n')
    } else if c == 'r' {
        Some('\r')
    } else if c == 't' {
        Some('\t')
    } else {
        None
    }
}

/// What the inside of a JSON string stands for, as a reader of JSON takes it.
/// Quotes, backslashes and the control characters below the space may not stand
/// there unescaped.
pub open spec fn json_read(s: Seq<char>) -> Option<Seq<char>>
    decreases s.len(),
{
    if s.len() == 0 {
        Some(Seq::empty())
    } else if s[0] == '"' || (s[0] as u32) < 0x20 {
        None
    } else if s[0] != '\\' {
        match json_read(s.skip(1)) {
            Some(rest) => Some(seq![s[0]] + rest),
            None => None,
        }
    } else if s.len() < 2 {
        None
    } else if s[1] != 'u' {
        match (short_escape(s[1]), json_read(s.skip(2))) {
            (Some(c), Some(rest)) => Some(seq![c] + rest),
            _ => None,
        }
    } else if s.len() < 6 {
        None
    } else {
        match json_read(s.skip(6)) {
            Some(rest) => Some(
                seq![
                    (crate::text::hex_value(s[2]) * 4096 + crate::text::hex_value(s[3]) * 256
                        + crate::text::hex_value(s[4]) * 16 + crate::text::hex_value(
                        s[5],
                    )) as char,
                ] + rest,
            ),
            None => None,
        }
    }
}

proof fn lemma_escaped_front(c: char, rest: Seq<char>)
    ensures
        escaped_all(seq![c] + rest) == escaped(c) + escaped_all(rest),
    decreases rest.len(),
{
    let all = seq![c] + rest;
    if rest.len() == 0 {
        assert(all.drop_last() =~= rest);
        assert(all.last() == c);
        assert(escaped_all(rest).len() == 0);
        assert(escaped_all(all) =~= escaped(c) + escaped_all(rest));
    } else {
        lemma_escaped_front(c, rest.drop_last());
        assert(all.drop_last() =~= seq![c] + rest.drop_last());
        assert(all.last() == rest.last());
        assert(escaped_all(all) =~= escaped(c) + escaped_all(rest));
    }
}

proof fn lemma_read_escaped(c: char, rest: Seq<char>)
    requires
        json_read(rest) is Some,
    ensures
        json_read(escaped(c) + rest) == Some(seq![c] + json_read(rest)->0),
{
    let s = escaped(c) + rest;
    reveal_strlit("\\\"");
    reveal_strlit("\\\\");
    reveal_strlit("\\n");
    reveal_strlit("\\r");
    reveal_strlit("\\t");
    reveal_strlit("\\u");
    if c == '"' || c == '\\' || c == '\n' || c == '\r' || c == '\t' {
        assert(s.skip(2) =~= rest);
    } else if is_control(c) {
        let n = c as nat;
        assert(s.skip(6) =~= rest);
        assert(n < 256);
        assert(n / 4096 % 16 == 0 && n / 256 % 16 == 0);
        assert(s[2] == crate::text::hex_digit(0) && s[3] == crate::text::hex_digit(0));
        assert(s[4] == crate::text::hex_digit(n / 16 % 16));
        assert(s[5] == crate::text::hex_digit(n % 16));
        assert(n == (n / 16 % 16) * 16 + n % 16);
    } else {
        assert(s.skip(1) =~= rest);
    }
}

/// A text that was written as a JSON string is read back as it was, whatever
/// it holds.
pub proof fn law_json_strings_are_read_back(text: Seq<char>)
    ensures
        json_text(text).len() >= 2,
        json_text(text)[0] == '"',
        json_text(text).last() == '"',
        json_read(json_text(text).subrange(1, json_text(text).len() - 1)) == Some(text),
{
    reveal_strlit("\"");
    assert(json_text(text).subrange(1, json_text(text).len() - 1) =~= escaped_all(text));
    lemma_read_back(text);
}

proof fn lemma_read_back(text: Seq<char>)
    ensures
        json_read(escaped_all(text)) == Some(text),
    decreases text.len(),
{
    if text.len() == 0 {
        assert(escaped_all(text) =~= Seq::empty());
        assert(text =~= Seq::empty());
    } else {
        let rest = text.skip(1);
        lemma_read_back(rest);
        assert(text =~= seq![text[0]] + rest);
        lemma_escaped_front(text[0], rest);
        lemma_read_escaped(text[0], escaped_all(rest));
    }
}

/// A machine can take a role exactly if the portal is there, offers the role's
/// interface in version 2 or later with keyboard, pointer and touch screen, the
/// input library is there, and the process or the active session is on Wayland.
pub proof fn law_who_is_ready(report: DoctorReport, probe: InterfaceProbe)
    ensures
        interface_ready(probe) <==> (probe.version matches Some(version) && version >= 2) && (
        probe.capabilities matches Some(bits) && bits % 8 == 7),
        probe.shares_input() <==> (probe.capabilities matches Some(bits) && bits % 8 == 7),
        report.can_control() <==> report.portal_available && interface_ready(report.input_capture)
            && report.libei_version is Some && report.on_wayland(),
        report.can_follow() <==> report.portal_available && interface_ready(report.remote_desktop)
            && report.libei_version is Some && report.on_wayland(),
        report.on_wayland() <==> (report.process_session_type matches Some(name) && name@
            == "wayland"@) || (report.active_graphical_session matches Some(session)
            && session.session_type@ == "wayland"@),
{
    if let Some(bits) = probe.capabilities {
        assert((bits & 7 == 7) == (bits % 8 == 7)) by (bit_vector);
    }
}

/// A capability is offered exactly if its bit is set: 1 for the keyboard, 2 for
/// the pointer, 4 for the touch screen.
pub proof fn law_offered_capabilities(bits: u32)
    ensures
        has_bit(Some(bits), KEYBOARD) <==> bits % 2 == 1,
        has_bit(Some(bits), POINTER) <==> bits / 2 % 2 == 1,
        has_bit(Some(bits), TOUCHSCREEN) <==> bits / 4 % 2 == 1,
        !has_bit(None, KEYBOARD),
        !has_bit(None, POINTER),
        !has_bit(None, TOUCHSCREEN),
{
    assert((bits & 1 != 0) == (bits % 2 == 1) && (bits & 2 != 0) == (bits / 2 % 2 == 1) && (bits & 4
        != 0) == (bits / 4 % 2 == 1)) by (bit_vector);
}

/// The number in a reply is the one behind the first marker, as far as its
/// digits go. Without a marker, or without a digit behind it, there is none.
pub proof fn law_numbers_in_replies(before: Seq<char>, digits: Seq<char>, after: Seq<char>)
    requires
        forall|j: int|
            0 <= j < before.len() ==> !(#[trigger] stands_at(
                before + "uint32 "@ + digits + after,
                "uint32 "@,
                j,
            )),
        forall|i: int| 0 <= i < digits.len() ==> '0' <= #[trigger] digits[i] <= '9',
        after.len() > 0 ==> !('0' <= after[0] <= '9'),
    ensures
        uint32_denoted(before + "uint32 "@ + digits + after) == if digits.len() > 0
            && crate::text::number(digits) <= 4_294_967_295 {
            Some(crate::text::number(digits))
        } else {
            None
        },
{
    reveal_strlit("uint32 ");
    let s = before + "uint32 "@ + digits + after;
    let n = before.len() as int;
    assert(s.subrange(n, n + 7) =~= "uint32 "@);
    assert(stands_at(s, "uint32 "@, n));
    assert(is_first(s, "uint32 "@, n));
    let at = choose|at: int| is_first(s, "uint32 "@, at);
    assert(at == n) by {
        if at < n {
            assert(!stands_at(s, "uint32 "@, at));
        } else if at > n {
            assert(!stands_at(s, "uint32 "@, n));
        }
    }
    assert(s.skip(n + 7) =~= digits + after);
    assert forall|i: int| 0 <= i < digits.len() implies #[trigger] crate::text::is_digit(
        digits[i],
    ) by {
        assert('0' <= digits[i] <= '9');
    }
    lemma_digits_lead(digits, after);
    crate::text::law_unsigned_numbers(digits, 4_294_967_295);
}

proof fn lemma_digits_lead(digits: Seq<char>, rest: Seq<char>)
    requires
        crate::text::all_digits(digits),
        rest.len() > 0 ==> !crate::text::is_digit(rest[0]),
    ensures
        leading_digits(digits + rest) == digits,
    decreases digits.len(),
{
    let s = digits + rest;
    if digits.len() > 0 {
        let fewer = digits.skip(1);
        assert(crate::text::is_digit(digits[0]));
        assert(s[0] == digits[0]);
        assert(s.skip(1) =~= fewer + rest);
        assert forall|i: int| 0 <= i < fewer.len() implies #[trigger] crate::text::is_digit(
            fewer[i],
        ) by {
            assert(crate::text::is_digit(digits[i + 1]));
        }
        lemma_digits_lead(fewer, rest);
        assert(seq![digits[0]] + fewer =~= digits);
    } else {
        assert(s =~= rest);
        assert(leading_digits(s) =~= digits);
    }
}

/// Without the marker there is no number in a reply.
pub proof fn law_no_number_without_marker(s: Seq<char>)
    requires
        forall|j: int| !(#[trigger] stands_at(s, "uint32 "@, j)),
    ensures
        uint32_denoted(s) is None,
{
    assert forall|at: int| !(#[trigger] is_first(s, "uint32 "@, at)) by {
        assert(!stands_at(s, "uint32 "@, at));
    }
}

/// The words of a line are what stands between white space: the first word of a
/// line comes first, and white space in front adds none.
pub proof fn law_words_of_lines(white: Seq<char>, word: Seq<char>, rest: Seq<char>)
    requires
        forall|i: int| 0 <= i < white.len() ==> crate::text::is_white(#[trigger] white[i]),
        forall|i: int| 0 <= i < word.len() ==> !crate::text::is_white(#[trigger] word[i]),
        word.len() > 0,
        rest.len() > 0 ==> crate::text::is_white(rest[0]),
    ensures
        words(white) == Seq::<Seq<char>>::empty(),
        words(white + word + rest) == seq![word] + words(rest),
{
    lemma_white_run(white, Seq::empty());
    assert(white + Seq::<char>::empty() =~= white);
    let s = white + word + rest;
    lemma_white_run(white, word + rest);
    assert(s =~= white + (word + rest));
    assert(s.skip(white.len() as int) =~= word + rest);
    lemma_black_run(word, rest);
    assert((word + rest).take(word.len() as int) =~= word);
    assert((word + rest).skip(word.len() as int) =~= rest);
}

proof fn lemma_white_run(white: Seq<char>, rest: Seq<char>)
    requires
        forall|i: int| 0 <= i < white.len() ==> crate::text::is_white(#[trigger] white[i]),
        rest.len() > 0 ==> !crate::text::is_white(rest[0]),
    ensures
        leading_white(white + rest) == white.len(),
    decreases white.len(),
{
    let s = white + rest;
    if white.len() > 0 {
        let fewer = white.skip(1);
        assert(s[0] == white[0]);
        assert(s.skip(1) =~= fewer + rest);
        assert forall|i: int| 0 <= i < fewer.len() implies crate::text::is_white(
            #[trigger] fewer[i],
        ) by {
            assert(fewer[i] == white[i + 1]);
        }
        lemma_white_run(fewer, rest);
    } else {
        assert(s =~= rest);
    }
}

proof fn lemma_black_run(word: Seq<char>, rest: Seq<char>)
    requires
        forall|i: int| 0 <= i < word.len() ==> !crate::text::is_white(#[trigger] word[i]),
        rest.len() > 0 ==> crate::text::is_white(rest[0]),
    ensures
        leading_black(word + rest) == word.len(),
    decreases word.len(),
{
    let s = word + rest;
    if word.len() > 0 {
        let fewer = word.skip(1);
        assert(s[0] == word[0]);
        assert(s.skip(1) =~= fewer + rest);
        assert forall|i: int| 0 <= i < fewer.len() implies !crate::text::is_white(
            #[trigger] fewer[i],
        ) by {
            assert(fewer[i] == word[i + 1]);
        }
        lemma_black_run(fewer, rest);
    } else {
        assert(s =~= rest);
    }
}

/// A listing gives the sessions of a user in its order: each line whose second
/// word is the user adds its first word.
pub proof fn law_sessions_of_a_user(a: Seq<Seq<char>>, b: Seq<Seq<char>>, line: Seq<char>, uid: Seq<char>)
    ensures
        sessions_of(a + b, uid) == sessions_of(a, uid) + sessions_of(b, uid),
        sessions_of(seq![line], uid) == if words(line).len() >= 2 && words(line)[1] == uid {
            seq![words(line)[0]]
        } else {
            Seq::empty()
        },
    decreases b.len(),
{
    assert(seq![line].drop_last() =~= Seq::<Seq<char>>::empty());
    assert(sessions_of(Seq::empty(), uid) =~= Seq::<Seq<char>>::empty());
    assert(Seq::<Seq<char>>::empty().push(words(line)[0]) =~= seq![words(line)[0]]);
    if b.len() == 0 {
        assert(a + b =~= a);
        assert(sessions_of(a, uid) + sessions_of(b, uid) =~= sessions_of(a, uid));
    } else {
        assert((a + b).drop_last() =~= a + b.drop_last());
        assert((a + b).last() == b.last());
        law_sessions_of_a_user(a, b.drop_last(), line, uid);
        assert(sessions_of(a + b, uid) =~= sessions_of(a, uid) + sessions_of(b, uid));
    }
}

/// The value of a property stands behind its name and an equals sign on the first
/// line that begins with them.
pub proof fn law_properties_are_found(lines: Seq<Seq<char>>, name: Seq<char>, value: Seq<char>)
    ensures
        property_in(Seq::empty(), name) is None,
        property_in(seq![name + seq!['='] + value] + lines, name) == Some(value),
        lines.len() > 0 && (lines[0].len() <= name.len() || lines[0].take((name.len() + 1) as int)
            != name + seq!['=']) ==> property_in(lines, name) == property_in(lines.skip(1), name),
{
    let key = name.push('=');
    assert(key =~= name + seq!['=']);
    let line = name + seq!['='] + value;
    let all = seq![line] + lines;
    assert(all[0] == line);
    assert(line.take(key.len() as int) =~= key);
    assert(line.skip(key.len() as int) =~= value);
}

/// A session is the active graphical one exactly if it is local, on Wayland or
/// X11, and active or online.
pub proof fn law_which_session_is_active(kind: Seq<char>, state: Seq<char>, remote: Seq<char>)
    ensures
        session_suits(kind, state, remote) <==> remote == seq!['n', 'o'] && (kind == "wayland"@
            || kind == "x11"@) && (state == "active"@ || state == "online"@),
{
    reveal_strlit("no");
    assert("no"@ =~= seq!['n', 'o']);
}

/// Values that are empty count as not set; version texts are trimmed first.
pub proof fn law_empty_values_are_not_set(text: Seq<char>)
    ensures
        text.len() > 0 ==> kept_text(Some(text)) == Some(text),
        text.len() == 0 ==> kept_text(Some(text)) is None,
        kept_text(None) is None,
        crate::text::trimmed(text).len() > 0 ==> trimmed_text(Some(text)) == Some(
            crate::text::trimmed(text),
        ),
        crate::text::trimmed(text).len() == 0 ==> trimmed_text(Some(text)) is None,
        trimmed_text(None) is None,
{
}

/// An interface is there exactly if both of its numbers could be read; else the
/// first failure is told and no number is.
pub proof fn law_interfaces_are_probed(version: String, capabilities: String, probe: InterfaceProbe)
    requires
        probed(Ok(version), Ok(capabilities), probe),
    ensures
        ({
            let v = uint32_denoted(version@);
            let c = uint32_denoted(capabilities@);
            &&& probe.available <==> v is Some && c is Some
            &&& v is Some && c is Some ==> (probe.version matches Some(n) && n == v->0) && (
            probe.capabilities matches Some(n) && n == c->0) && probe.error is None
            &&& v is None || c is None ==> probe.version is None && probe.capabilities is None && (
            probe.error matches Some(why) && why@ == "unexpected gdbus reply: "@
                + crate::text::trimmed(
                if v is None {
                    version@
                } else {
                    capabilities@
                },
            ))
        }),
{
}

/// A query that failed is told as it failed.
pub proof fn law_failed_queries_are_told(
    why: String,
    other: Result<String, String>,
    probe: InterfaceProbe,
)
    requires
        probed(Err(why), other, probe),
    ensures
        !probe.available,
        probe.version is None,
        probe.capabilities is None,
        probe.error matches Some(text) && text@ == why@,
{
}

/// The report in words says of each value what it is, or that it is not known.
pub proof fn law_values_in_words(text: Seq<char>, value: Seq<char>, n: u32)
    ensures
        or_unset(Some(text)) == text,
        or_unset(None) == "not set"@,
        yes_or_no(true) == "yes"@,
        yes_or_no(false) == "no"@,
        error_note(Some(text)) == " ("@ + text + ")"@,
        error_note(None) == Seq::<char>::empty(),
        count_or_unknown(Some(n)) == crate::text::decimal(n as nat),
        count_or_unknown(None) == "unknown"@,
        json_count(Some(n)) == crate::text::decimal(n as nat),
        json_count(None) == "null"@,
        json_optional(Some(text)) == json_text(text),
        json_optional(None) == "null"@,
        json_line(text, value) == "  \""@ + text + "\": "@ + value + ",\n"@,
        inner_line(text, value) == "    \""@ + text + "\": "@ + value + ",\n"@,
{
}

/// Yes or no, as a report says it.
pub open spec fn truth(value: bool) -> Seq<char> {
    if value {
        "true"@
    } else {
        "false"@
    }
}

pub open spec fn known(text: Option<String>) -> Option<Seq<char>> {
    match text {
        Some(text) => Some(text@),
        None => None,
    }
}

/// What a report tells of an interface: whether it is there, its version and its
/// capabilities, one by one, and what went wrong.
pub proof fn law_reports_tell_of_interfaces(
    name: Seq<char>,
    capability: Seq<char>,
    probe: InterfaceProbe,
    bits: u32,
)
    requires
        probe.capabilities == Some(bits),
    ensures
        interface_json(name, probe) == "  \""@ + name + "\": {\n"@ + inner_line(
            "available"@,
            truth(probe.available),
        ) + inner_line("version"@, json_count(probe.version)) + inner_line(
            "capabilities"@,
            crate::text::decimal(bits as nat),
        ) + inner_line("keyboard"@, truth(bits % 2 == 1)) + inner_line(
            "pointer"@,
            truth(bits / 2 % 2 == 1),
        ) + inner_line("touchscreen"@, truth(bits / 4 % 2 == 1)) + "    \"error\": "@ + (
        match probe.error {
            Some(error) => json_text(error@),
            None => "null"@,
        }) + "\n  },\n"@,
        interface_line(name, probe, capability) == name + ": "@ + yes_or_no(probe.available)
            + " version="@ + count_or_unknown(probe.version) + " "@ + capability + "="@
            + crate::text::decimal(bits as nat) + " keyboard="@ + yes_or_no(bits % 2 == 1)
            + " pointer="@ + yes_or_no(bits / 2 % 2 == 1) + " touchscreen="@ + yes_or_no(
            bits / 4 % 2 == 1,
        ) + error_note(known(probe.error)) + "\n"@,
{
    law_offered_capabilities(bits);
}

/// What a report tells of the session, and that it tells everything, each value
/// under its own name.
pub proof fn law_reports_tell_everything(report: DoctorReport, session: GraphicalSession)
    ensures
        session_json(Some(session)) == "  \"active_graphical_session\": {\"id\": "@ + json_text(
            session.id@,
        ) + ", \"type\": "@ + json_text(session.session_type@) + ", \"state\": "@ + json_text(
            session.state@,
        ) + "},\n"@,
        session_json(None) == "  \"active_graphical_session\": null,\n"@,
        session_line(Some(session)) == "active graphical session: "@ + session.session_type@
            + " (id="@ + session.id@ + ", state="@ + session.state@ + ")\n"@,
        session_line(None) == "active graphical session: not detected\n"@,
        json_report(report) == "{\n"@ + json_line(
            "process_session_type"@,
            json_optional(known(report.process_session_type)),
        ) + json_line("wayland_display"@, json_optional(known(report.wayland_display))) + json_line(
            "display"@,
            json_optional(known(report.display)),
        ) + json_line("session_bus_configured"@, truth(report.session_bus_configured))
            + session_json(report.active_graphical_session) + json_line(
            "portal_available"@,
            truth(report.portal_available),
        ) + json_line("portal_error"@, json_optional(known(report.portal_error)))
            + interface_json("input_capture"@, report.input_capture) + interface_json(
            "remote_desktop"@,
            report.remote_desktop,
        ) + json_line("libei_version"@, json_optional(known(report.libei_version))) + json_line(
            "controller_ready"@,
            truth(report.can_control()),
        ) + json_line("follower_ready"@, truth(report.can_follow()))
            + "  \"probe_scope\": \"read-only; no portal sessions or consent prompts\"\n}"@,
        human_report(report) == "CachyBridge Wayland capability probe\nprocess session: "@
            + or_unset(known(report.process_session_type)) + " (WAYLAND_DISPLAY="@ + or_unset(
            known(report.wayland_display),
        ) + ", DISPLAY="@ + or_unset(known(report.display)) + ")\n"@ + session_line(
            report.active_graphical_session,
        ) + "session bus: "@ + (if report.session_bus_configured {
            "configured"@
        } else {
            "not configured"@
        }) + "\ndesktop portal: "@ + yes_or_no(report.portal_available) + error_note(
            known(report.portal_error),
        ) + "\n"@ + interface_line(
            "InputCapture"@,
            report.input_capture,
            "SupportedCapabilities"@,
        ) + interface_line("RemoteDesktop"@, report.remote_desktop, "AvailableDeviceTypes"@)
            + "libei: "@ + (match report.libei_version {
            Some(version) => version@,
            None => "not detected"@,
        }) + "\ncontroller role ready: "@ + yes_or_no(report.can_control())
            + "\nfollower role ready: "@ + yes_or_no(report.can_follow())
            + "\nscope: read-only capability check; portal consent, sessions, barriers, and EIS handshakes were not attempted\n"@,
{
}

} // verus!
