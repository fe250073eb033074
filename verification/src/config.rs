//! Versioned, user-owned pairing and topology configuration.
//!
//! The format is intentionally narrow. It is a stable line-oriented format
//! rather than a general config language, which makes validation deterministic
//! and avoids accidentally accepting unknown secret fields. The file contains
//! pre-shared keys and is always written with private permissions.
use vstd::prelude::*;

use crate::random::random_bytes;
use crate::endpoint::{parse_endpoint, push_endpoint, Endpoint};
use crate::text::{
    bool_str, char_is_hex_digit, char_range, eq_ignoring_case, find_char, has_char, hex_decode,
    hex_encode, parse_truth, parse_unsigned, push_decimal, quote, same_text, spells, split_lines,
    text_from_utf8, to_chars, to_text, trim_chars, utf8_bytes, utf8_len,
};
use crate::wire::to_array32;

verus! {

broadcast use vstd::array::group_array_axioms;

pub const CONFIG_VERSION: u32 = 4;

pub const MAX_RESTORE_TOKEN_BYTES: usize = 16384;

#[derive(Debug, Clone, Copy, PartialEq, Eq, Structural)]
pub enum RelativePlacement {
    Left,
    Right,
    Above,
    Below,
}

/// The word for a placement.
pub open spec fn placement_text(placement: RelativePlacement) -> Seq<char> {
    match placement {
        RelativePlacement::Left => "left"@,
        RelativePlacement::Right => "right"@,
        RelativePlacement::Above => "above"@,
        RelativePlacement::Below => "below"@,
    }
}

/// The name of a placement, as logs show it.
pub open spec fn placement_name(placement: RelativePlacement) -> Seq<char> {
    match placement {
        RelativePlacement::Left => "Left"@,
        RelativePlacement::Right => "Right"@,
        RelativePlacement::Above => "Above"@,
        RelativePlacement::Below => "Below"@,
    }
}

fn placement_label(placement: RelativePlacement) -> (name: &'static str)
    ensures
        name@ == placement_name(placement),
{
    match placement {
        RelativePlacement::Left => "Left",
        RelativePlacement::Right => "Right",
        RelativePlacement::Above => "Above",
        RelativePlacement::Below => "Below",
    }
}

/// The placement that a word names.
pub open spec fn placement_named(word: Seq<char>) -> Option<RelativePlacement> {
    if word == "left"@ {
        Some(RelativePlacement::Left)
    } else if word == "right"@ {
        Some(RelativePlacement::Right)
    } else if word == "above"@ {
        Some(RelativePlacement::Above)
    } else if word == "below"@ {
        Some(RelativePlacement::Below)
    } else {
        None
    }
}

pub proof fn lemma_placement_words(placement: RelativePlacement)
    ensures
        placement_named(placement_text(placement)) == Some(placement),
        4 <= placement_text(placement).len() <= 5,
        forall|i: int|
            0 <= i < placement_text(placement).len() ==> 'a' <= #[trigger] placement_text(
                placement,
            )[i] <= 'z',
{
    reveal_strlit("left");
    reveal_strlit("right");
    reveal_strlit("above");
    reveal_strlit("below");
    assert("left"@.len() == 4 && "right"@.len() == 5 && "above"@.len() == 5 && "below"@.len() == 5);
    assert("right"@[0] == 'r' && "above"@[0] == 'a' && "below"@[0] == 'b');
}

/// Reads the word for a placement.
pub fn placement_from(word: &[char]) -> (placement: Option<RelativePlacement>)
    ensures
        placement == placement_named(word@),
{
    if spells(word, "left") {
        Some(RelativePlacement::Left)
    } else if spells(word, "right") {
        Some(RelativePlacement::Right)
    } else if spells(word, "above") {
        Some(RelativePlacement::Above)
    } else if spells(word, "below") {
        Some(RelativePlacement::Below)
    } else {
        None
    }
}

impl RelativePlacement {
    pub fn as_str(self) -> (word: &'static str)
        ensures
            word@ == placement_text(self),
    {
        match self {
            RelativePlacement::Left => "left",
            RelativePlacement::Right => "right",
            RelativePlacement::Above => "above",
            RelativePlacement::Below => "below",
        }
    }

    pub fn parse(value: &str) -> (result: Result<RelativePlacement, ConfigError>)
        ensures
            match result {
                Ok(placement) => placement_named(value@) == Some(placement),
                Err(error) => placement_named(value@) is None && error@ == bad_placement(),
            },
    {
        match placement_from(to_chars(value).as_slice()) {
            Some(placement) => Ok(placement),
            None => Err(
                ConfigError::InvalidField {
                    field: "placement",
                    reason: "must be left, right, above, or below".to_owned(),
                },
            ),
        }
    }
}

#[derive(Debug, Clone, PartialEq, Eq)]
pub enum ConfigError {
    Io(String),
    UnsupportedVersion(u32),
    MissingField(&'static str),
    InvalidField { field: &'static str, reason: String },
    Parse { line: usize, reason: String },
    DuplicatePeerId(String),
    PeerNotFound(String),
    InsecurePermissions,
}

/// A configuration error with its texts.
pub enum FaultView {
    Io(Seq<char>),
    UnsupportedVersion(u32),
    MissingField(Seq<char>),
    InvalidField { field: Seq<char>, reason: Seq<char> },
    Parse { line: int, reason: Seq<char> },
    DuplicatePeerId(Seq<char>),
    PeerNotFound(Seq<char>),
    InsecurePermissions,
}

impl View for ConfigError {
    type V = FaultView;

    open spec fn view(&self) -> FaultView {
        match self {
            ConfigError::Io(text) => FaultView::Io(text@),
            ConfigError::UnsupportedVersion(version) => FaultView::UnsupportedVersion(*version),
            ConfigError::MissingField(field) => FaultView::MissingField(field@),
            ConfigError::InvalidField { field, reason } => FaultView::InvalidField {
                field: field@,
                reason: reason@,
            },
            ConfigError::Parse { line, reason } => FaultView::Parse {
                line: *line as int,
                reason: reason@,
            },
            ConfigError::DuplicatePeerId(id) => FaultView::DuplicatePeerId(id@),
            ConfigError::PeerNotFound(id) => FaultView::PeerNotFound(id@),
            ConfigError::InsecurePermissions => FaultView::InsecurePermissions,
        }
    }
}

/// What a user is told of an error.
pub open spec fn fault_message(fault: FaultView) -> Seq<char> {
    match fault {
        FaultView::Io(text) => "I/O error: "@ + text,
        FaultView::UnsupportedVersion(version) => "unsupported config schema version "@
            + crate::text::decimal(version as nat),
        FaultView::MissingField(field) => "missing required field "@ + field,
        FaultView::InvalidField { field, reason } => "invalid "@ + field + ": "@ + reason,
        FaultView::Parse { line, reason } => "invalid config at line "@ + crate::text::decimal(
            line as nat,
        ) + ": "@ + reason,
        FaultView::DuplicatePeerId(id) => "duplicate peer id "@ + id,
        FaultView::PeerNotFound(id) => "no configured peer with id "@ + id,
        FaultView::InsecurePermissions =>
        "config file permissions are too broad (expected 0600)"@,
    }
}

impl ConfigError {
    /// What a user is told of this error.
    pub fn message(&self) -> (text: String)
        ensures
            text@ == fault_message(self@),
    {
        let mut text = String::new();
        match self {
            ConfigError::Io(detail) => {
                text.push_str("I/O error: ");
                text.push_str(detail.as_str());
            },
            ConfigError::UnsupportedVersion(version) => {
                text.push_str("unsupported config schema version ");
                push_decimal(&mut text, *version as u64);
            },
            ConfigError::MissingField(field) => {
                text.push_str("missing required field ");
                text.push_str(field);
            },
            ConfigError::InvalidField { field, reason } => {
                text.push_str("invalid ");
                text.push_str(field);
                text.push_str(": ");
                text.push_str(reason.as_str());
            },
            ConfigError::Parse { line, reason } => {
                text.push_str("invalid config at line ");
                push_decimal(&mut text, *line as u64);
                text.push_str(": ");
                text.push_str(reason.as_str());
            },
            ConfigError::DuplicatePeerId(id) => {
                text.push_str("duplicate peer id ");
                text.push_str(id.as_str());
            },
            ConfigError::PeerNotFound(id) => {
                text.push_str("no configured peer with id ");
                text.push_str(id.as_str());
            },
            ConfigError::InsecurePermissions => {
                text.push_str("config file permissions are too broad (expected 0600)");
            },
        }
        assert(text@ =~= fault_message(self@));
        text
    }
}

// Rules.

pub open spec fn bad_placement() -> FaultView {
    FaultView::InvalidField {
        field: "placement"@,
        reason: "must be left, right, above, or below"@,
    }
}

pub open spec fn bad_psk() -> FaultView {
    FaultView::InvalidField { field: "psk"@, reason: "must be 64 hexadecimal characters"@ }
}

pub open spec fn bad_restore_token() -> FaultView {
    FaultView::InvalidField {
        field: "restore_token"@,
        reason: "must be non-empty, at most 16384 bytes, and contain no newline or NUL"@,
    }
}

/// Thirty-two hexadecimal digits.
pub open spec fn is_peer_id(id: Seq<char>) -> bool {
    id.len() == 32 && forall|i: int| 0 <= i < id.len() ==> #[trigger] crate::text::is_hex_digit(
        id[i],
    )
}

pub open spec fn is_name_char(c: char) -> bool {
    'a' <= c <= 'z' || 'A' <= c <= 'Z' || '0' <= c <= '9' || c == ' ' || c == '-' || c == '_' || c
        == '.'
}

/// One to eighty letters, digits, spaces and three punctuation marks.
pub open spec fn is_display_name(name: Seq<char>) -> bool {
    1 <= name.len() <= 80 && forall|i: int| 0 <= i < name.len() ==> #[trigger] is_name_char(name[i])
}

/// Not empty, of bounded size, without line breaks or NUL.
pub open spec fn is_restore_token(token: Seq<char>) -> bool {
    &&& token.len() > 0
    &&& crate::text::utf8(token).len() <= MAX_RESTORE_TOKEN_BYTES
    &&& !token.contains('\n')
    &&& !token.contains('\r')
    &&& !token.contains('\0')
}

pub open spec fn is_optional_token(token: Option<Seq<char>>) -> bool {
    token matches Some(t) ==> is_restore_token(t)
}

/// The contents of an optional text.
pub open spec fn optional(text: Option<String>) -> Option<Seq<char>> {
    match text {
        Some(t) => Some(t@),
        None => None,
    }
}

fn char_is_name(c: char) -> (ok: bool)
    ensures
        ok == is_name_char(c),
{
    let n: u32 = c as u32;
    (97 <= n && n <= 122) || (65 <= n && n <= 90) || (48 <= n && n <= 57) || c == ' ' || c == '-'
        || c == '_' || c == '.'
}

/// Checks a name that is shown to users.
pub fn validate_display_name(field: &'static str, value: &str) -> (result: Result<(), ConfigError>)
    ensures
        match result {
            Ok(_) => is_display_name(value@),
            Err(error) => !is_display_name(value@) && error@ == bad_name(field@),
        },
{
    let chars = to_chars(value);
    let mut ok: bool = 0 < chars.len() && chars.len() <= 80;
    let mut i: usize = 0;
    while ok && i < chars.len()
        invariant
            i <= chars.len(),
            chars@ == value@,
            ok ==> 1 <= chars.len() <= 80 && forall|j: int|
                0 <= j < i ==> #[trigger] is_name_char(chars@[j]),
            !ok ==> !is_display_name(value@),
        decreases chars.len() - i,
    {
        if !char_is_name(chars[i]) {
            assert(!is_name_char(value@[i as int]));
            ok = false;
        }
        i = i + 1;
    }
    if !ok {
        return Err(
            ConfigError::InvalidField {
                field,
                reason: "must be 1-80 ASCII letters, digits, spaces, '.', '_' or '-'".to_owned(),
            },
        );
    }
    Ok(())
}

pub open spec fn bad_name(field: Seq<char>) -> FaultView {
    FaultView::InvalidField {
        field,
        reason: "must be 1-80 ASCII letters, digits, spaces, '.', '_' or '-'"@,
    }
}

/// Checks an optional portal token.
pub fn validate_restore_token(token: Option<&str>) -> (result: Result<(), ConfigError>)
    ensures
        ({
            let ok = token matches Some(t) ==> is_restore_token(t@);
            match result {
                Ok(_) => ok,
                Err(error) => !ok && error@ == bad_restore_token(),
            }
        }),
{
    if let Some(token) = token {
        let chars = to_chars(token);
        if chars.len() == 0 || utf8_len(token) > MAX_RESTORE_TOKEN_BYTES || has_char(
            chars.as_slice(),
            '\n',
        ) || has_char(chars.as_slice(), '\r') || has_char(chars.as_slice(), '\0') {
            return Err(
                ConfigError::InvalidField {
                    field: "restore_token",
                    reason:
                        "must be non-empty, at most 16384 bytes, and contain no newline or NUL"
                        .to_owned(),
                },
            );
        }
    }
    Ok(())
}

fn str_of(text: &Option<String>) -> (s: Option<&str>)
    ensures
        match s {
            Some(t) => optional(*text) == Some(t@),
            None => text is None,
        },
{
    match text {
        Some(t) => Some(t.as_str()),
        None => None,
    }
}

// Peers.

/// One trusted peer.
#[derive(Clone, PartialEq, Eq)]
pub struct PeerConfig {
    pub id: String,
    pub name: String,
    /// Address used when this machine takes the host/input-owner role.
    pub host_endpoint: Endpoint,
    /// Address used when this machine takes the controlled/client role.
    pub client_endpoint: Endpoint,
    pub placement: RelativePlacement,
    /// User opt-in for persistent portal permissions for this specific peer.
    pub persistent_permissions: bool,
    psk: [u8; 32],
    capture_restore_token: Option<String>,
    remote_restore_token: Option<String>,
}

#[verifier::ext_equal]
pub struct PeerView {
    pub id: Seq<char>,
    pub name: Seq<char>,
    pub host_endpoint: Endpoint,
    pub client_endpoint: Endpoint,
    pub placement: RelativePlacement,
    pub persistent_permissions: bool,
    pub psk: Seq<u8>,
    pub capture: Option<Seq<char>>,
    pub remote: Option<Seq<char>>,
}

impl View for PeerConfig {
    type V = PeerView;

    closed spec fn view(&self) -> PeerView {
        PeerView {
            id: self.id@,
            name: self.name@,
            host_endpoint: self.host_endpoint,
            client_endpoint: self.client_endpoint,
            placement: self.placement,
            persistent_permissions: self.persistent_permissions,
            psk: self.psk@,
            capture: optional(self.capture_restore_token),
            remote: optional(self.remote_restore_token),
        }
    }
}

/// Why a peer record cannot be used.
pub open spec fn peer_fault(peer: PeerView) -> Option<FaultView> {
    if !is_peer_id(peer.id) {
        Some(FaultView::InvalidField { field: "id"@, reason: "must be 32 hexadecimal characters"@ })
    } else if !is_display_name(peer.name) {
        Some(bad_name("name"@))
    } else if peer.host_endpoint.address().unspecified() {
        Some(
            FaultView::InvalidField {
                field: "host_endpoint"@,
                reason: "must not use an unspecified address"@,
            },
        )
    } else if peer.client_endpoint.address().unspecified() {
        Some(
            FaultView::InvalidField {
                field: "client_endpoint"@,
                reason: "must not use an unspecified address"@,
            },
        )
    } else if !is_optional_token(peer.capture) || !is_optional_token(peer.remote) {
        Some(bad_restore_token())
    } else {
        None
    }
}

/// The log text of a peer: everything but the secrets, of which it says only
/// whether they are held.
pub open spec fn redacted_peer(
    id: Seq<char>,
    name: Seq<char>,
    host_endpoint: Endpoint,
    client_endpoint: Endpoint,
    placement: RelativePlacement,
    persistent: bool,
    has_capture: bool,
    has_remote: bool,
) -> Seq<char> {
    "PeerConfig { id: "@ + crate::text::quoted_text(id) + ", name: "@ + crate::text::quoted_text(
        name,
    ) + ", host_endpoint: "@ + crate::endpoint::endpoint_text(host_endpoint)
        + ", client_endpoint: "@ + crate::endpoint::endpoint_text(client_endpoint)
        + ", placement: "@ + placement_name(placement) + ", persistent_permissions: "@
        + crate::text::bool_text(persistent)
        + ", psk: \"<redacted>\", capture_restore_token: "@ + redacted_option(has_capture)
        + ", remote_restore_token: "@ + redacted_option(has_remote) + " }"@
}

pub open spec fn redacted_option(held: bool) -> Seq<char> {
    if held {
        "Some(\"<redacted>\")"@
    } else {
        "None"@
    }
}

fn redacted_str(held: bool) -> (text: &'static str)
    ensures
        text@ == redacted_option(held),
{
    if held {
        "Some(\"<redacted>\")"
    } else {
        "None"
    }
}

impl PeerConfig {
    pub fn new(
        id: String,
        name: String,
        host_endpoint: Endpoint,
        client_endpoint: Endpoint,
        placement: RelativePlacement,
        psk: [u8; 32],
    ) -> (result: Result<PeerConfig, ConfigError>)
        ensures
            ({
                let peer = PeerView {
                    id: id@,
                    name: name@,
                    host_endpoint,
                    client_endpoint,
                    placement,
                    persistent_permissions: false,
                    psk: psk@,
                    capture: None,
                    remote: None,
                };
                match result {
                    Ok(made) => made@ == peer && peer_fault(peer) is None,
                    Err(error) => peer_fault(peer) == Some(error@),
                }
            }),
    {
        let peer = PeerConfig {
            id,
            name,
            host_endpoint,
            client_endpoint,
            placement,
            persistent_permissions: false,
            psk,
            capture_restore_token: None,
            remote_restore_token: None,
        };
        match peer.validate() {
            Ok(_) => Ok(peer),
            Err(error) => Err(error),
        }
    }

    /// Provides the secret only to the transport composition layer.
    pub fn psk(&self) -> (psk: &[u8; 32])
        ensures
            psk@ == self@.psk,
    {
        &self.psk
    }

    /// Restore token used by the controller-side capture portal.
    pub fn capture_restore_token(&self) -> (token: Option<&str>)
        ensures
            match token {
                Some(t) => self@.capture == Some(t@),
                None => self@.capture is None,
            },
    {
        str_of(&self.capture_restore_token)
    }

    /// Restore token used by the controlled-side remote-control portal.
    pub fn remote_restore_token(&self) -> (token: Option<&str>)
        ensures
            match token {
                Some(t) => self@.remote == Some(t@),
                None => self@.remote is None,
            },
    {
        str_of(&self.remote_restore_token)
    }

    /// Replace the single-use controller portal token after a portal start.
    /// Passing `None` explicitly clears an old token.
    pub fn replace_capture_restore_token(&mut self, token: Option<String>) -> (result: Result<
        (),
        ConfigError,
    >)
        ensures
            match result {
                Ok(_) => is_optional_token(optional(token)) && final(self)@ == (PeerView {
                    capture: optional(token),
                    ..old(self)@
                }),
                Err(error) => !is_optional_token(optional(token)) && final(self)@ == old(self)@
                    && error@ == bad_restore_token(),
            },
    {
        match validate_restore_token(str_of(&token)) {
            Ok(_) => {
                self.capture_restore_token = token;
                Ok(())
            },
            Err(error) => Err(error),
        }
    }

    /// Replace the single-use controlled-side portal token after a portal
    /// start. Passing `None` explicitly clears an old token.
    pub fn replace_remote_restore_token(&mut self, token: Option<String>) -> (result: Result<
        (),
        ConfigError,
    >)
        ensures
            match result {
                Ok(_) => is_optional_token(optional(token)) && final(self)@ == (PeerView {
                    remote: optional(token),
                    ..old(self)@
                }),
                Err(error) => !is_optional_token(optional(token)) && final(self)@ == old(self)@
                    && error@ == bad_restore_token(),
            },
    {
        match validate_restore_token(str_of(&token)) {
            Ok(_) => {
                self.remote_restore_token = token;
                Ok(())
            },
            Err(error) => Err(error),
        }
    }

    pub fn validate(&self) -> (result: Result<(), ConfigError>)
        ensures
            match result {
                Ok(_) => peer_fault(self@) is None,
                Err(error) => peer_fault(self@) == Some(error@),
            },
    {
        if !id_is_valid(self.id.as_str()) {
            return Err(
                ConfigError::InvalidField {
                    field: "id",
                    reason: "must be 32 hexadecimal characters".to_owned(),
                },
            );
        }
        match validate_display_name("name", self.name.as_str()) {
            Ok(_) => {},
            Err(error) => {
                return Err(error);
            },
        }
        if self.host_endpoint.ip().is_unspecified() {
            return Err(
                ConfigError::InvalidField {
                    field: "host_endpoint",
                    reason: "must not use an unspecified address".to_owned(),
                },
            );
        }
        if self.client_endpoint.ip().is_unspecified() {
            return Err(
                ConfigError::InvalidField {
                    field: "client_endpoint",
                    reason: "must not use an unspecified address".to_owned(),
                },
            );
        }
        match validate_restore_token(str_of(&self.capture_restore_token)) {
            Ok(_) => {},
            Err(error) => {
                return Err(error);
            },
        }
        validate_restore_token(str_of(&self.remote_restore_token))
    }

    /// Text for logs, without any secret.
    pub fn redacted(&self) -> (text: String)
        ensures
            text@ == redacted_peer(
                self@.id,
                self@.name,
                self@.host_endpoint,
                self@.client_endpoint,
                self@.placement,
                self@.persistent_permissions,
                self@.capture is Some,
                self@.remote is Some,
            ),
    {
        let mut text = String::new();
        text.push_str("PeerConfig { id: ");
        text.push_str(quote(self.id.as_str()).as_str());
        text.push_str(", name: ");
        text.push_str(quote(self.name.as_str()).as_str());
        text.push_str(", host_endpoint: ");
        push_endpoint(&mut text, &self.host_endpoint);
        text.push_str(", client_endpoint: ");
        push_endpoint(&mut text, &self.client_endpoint);
        text.push_str(", placement: ");
        text.push_str(placement_label(self.placement));
        text.push_str(", persistent_permissions: ");
        text.push_str(bool_str(self.persistent_permissions));
        text.push_str(", psk: \"<redacted>\", capture_restore_token: ");
        text.push_str(redacted_str(self.capture_restore_token.is_some()));
        text.push_str(", remote_restore_token: ");
        text.push_str(redacted_str(self.remote_restore_token.is_some()));
        text.push_str(" }");
        assert(Seq::<char>::empty() + "PeerConfig { id: "@ =~= "PeerConfig { id: "@);
        text
    }
}

fn id_is_valid(id: &str) -> (valid: bool)
    ensures
        valid == is_peer_id(id@),
{
    let chars = to_chars(id);
    if chars.len() != 32 {
        return false;
    }
    let mut i: usize = 0;
    while i < chars.len()
        invariant
            i <= chars.len(),
            chars@ == id@,
            chars.len() == 32,
            forall|j: int| 0 <= j < i ==> #[trigger] crate::text::is_hex_digit(chars@[j]),
        decreases chars.len() - i,
    {
        if !char_is_hex_digit(chars[i]) {
            assert(!crate::text::is_hex_digit(id@[i as int]));
            return false;
        }
        i = i + 1;
    }
    true
}

// The whole configuration.

/// All of a machine's pairing state.
#[derive(Clone, PartialEq, Eq)]
pub struct BridgeConfig {
    pub schema_version: u32,
    /// Friendly name for this local machine, shown by setup/UI layers.
    pub local_name: String,
    pub peers: Vec<PeerConfig>,
}

#[verifier::ext_equal]
pub struct ConfigView {
    pub schema_version: u32,
    pub local_name: Seq<char>,
    pub peers: Seq<PeerView>,
}

/// The contents of a list of peers.
pub open spec fn peer_views(peers: Seq<PeerConfig>) -> Seq<PeerView> {
    peers.map_values(|peer: PeerConfig| peer@)
}

impl View for BridgeConfig {
    type V = ConfigView;

    open spec fn view(&self) -> ConfigView {
        ConfigView {
            schema_version: self.schema_version,
            local_name: self.local_name@,
            peers: peer_views(self.peers@),
        }
    }
}

/// The fault of the first faulty peer from `i` on.
pub open spec fn peer_fault_from(peers: Seq<PeerView>, i: int) -> Option<FaultView>
    decreases peers.len() - i,
{
    if i < 0 || i >= peers.len() {
        None
    } else if peer_fault(peers[i]) is Some {
        peer_fault(peers[i])
    } else {
        peer_fault_from(peers, i + 1)
    }
}

/// Whether a peer has the id, but for the case of its letters.
pub open spec fn id_taken(peers: Seq<PeerView>, id: Seq<char>) -> bool {
    exists|j: int|
        0 <= j < peers.len() && #[trigger] crate::text::same_ignoring_case(peers[j].id, id)
}

/// The first peer from `i` on whose id an earlier peer has.
pub open spec fn duplicate_from(peers: Seq<PeerView>, i: int) -> Option<FaultView>
    decreases peers.len() - i,
{
    if i < 0 || i >= peers.len() {
        None
    } else if id_taken(peers.take(i), peers[i].id) {
        Some(FaultView::DuplicatePeerId(peers[i].id))
    } else {
        duplicate_from(peers, i + 1)
    }
}

/// Why a configuration cannot be used.
pub open spec fn config_fault(config: ConfigView) -> Option<FaultView> {
    if config.schema_version != CONFIG_VERSION {
        Some(FaultView::UnsupportedVersion(config.schema_version))
    } else if !is_display_name(config.local_name) {
        Some(bad_name("local_name"@))
    } else if peer_fault_from(config.peers, 0) is Some {
        peer_fault_from(config.peers, 0)
    } else {
        duplicate_from(config.peers, 0)
    }
}

/// Index of the first peer with an id, or the number of peers.
pub open spec fn peer_index_from(peers: Seq<PeerView>, id: Seq<char>, i: int) -> int
    decreases peers.len() - i,
{
    if i < 0 || i >= peers.len() || crate::text::same_ignoring_case(peers[i].id, id) {
        i
    } else {
        peer_index_from(peers, id, i + 1)
    }
}

pub open spec fn peer_index(peers: Seq<PeerView>, id: Seq<char>) -> int {
    peer_index_from(peers, id, 0)
}

/// The peers that a new peer with the given client endpoint leaves in place.
pub open spec fn without_client(peers: Seq<PeerView>, client: Endpoint) -> Seq<PeerView>
    decreases peers.len(),
{
    if peers.len() == 0 {
        Seq::empty()
    } else if peers.last().client_endpoint == client {
        without_client(peers.drop_last(), client)
    } else {
        without_client(peers.drop_last(), client).push(peers.last())
    }
}

/// A portal session either leaves a stored token untouched or replaces it with
/// the returned token. `Replace(None)` explicitly clears a consumed token.
#[derive(Clone, PartialEq, Eq)]
pub enum RestoreTokenUpdate {
    Unchanged,
    Replace(Option<String>),
}

pub open spec fn redacted_update(update: RestoreTokenUpdate) -> Seq<char> {
    match update {
        RestoreTokenUpdate::Unchanged => "Unchanged"@,
        RestoreTokenUpdate::Replace(None) => "Replace(None)"@,
        RestoreTokenUpdate::Replace(Some(_)) => "Replace(Some(<redacted>))"@,
    }
}

impl RestoreTokenUpdate {
    /// Text for logs, without the token.
    pub fn redacted(&self) -> (text: &'static str)
        ensures
            text@ == redacted_update(*self),
    {
        match self {
            RestoreTokenUpdate::Unchanged => "Unchanged",
            RestoreTokenUpdate::Replace(None) => "Replace(None)",
            RestoreTokenUpdate::Replace(Some(_)) => "Replace(Some(<redacted>))",
        }
    }

    /// The token after the update.
    pub open spec fn applied(self, before: Option<Seq<char>>) -> Option<Seq<char>> {
        match self {
            RestoreTokenUpdate::Unchanged => before,
            RestoreTokenUpdate::Replace(token) => optional(token),
        }
    }

    /// Whether a token that the update brings is acceptable.
    pub open spec fn acceptable(self) -> bool {
        self matches RestoreTokenUpdate::Replace(token) ==> is_optional_token(optional(token))
    }
}

#[derive(Clone, PartialEq, Eq)]
pub struct RestoreTokenUpdates {
    pub capture: RestoreTokenUpdate,
    pub remote: RestoreTokenUpdate,
}

impl RestoreTokenUpdates {
    pub fn capture(token: Option<String>) -> (updates: RestoreTokenUpdates)
        ensures
            updates == (RestoreTokenUpdates {
                capture: RestoreTokenUpdate::Replace(token),
                remote: RestoreTokenUpdate::Unchanged,
            }),
    {
        RestoreTokenUpdates {
            capture: RestoreTokenUpdate::Replace(token),
            remote: RestoreTokenUpdate::Unchanged,
        }
    }

    pub fn remote(token: Option<String>) -> (updates: RestoreTokenUpdates)
        ensures
            updates == (RestoreTokenUpdates {
                capture: RestoreTokenUpdate::Unchanged,
                remote: RestoreTokenUpdate::Replace(token),
            }),
    {
        RestoreTokenUpdates {
            capture: RestoreTokenUpdate::Unchanged,
            remote: RestoreTokenUpdate::Replace(token),
        }
    }

    pub fn both(capture: Option<String>, remote: Option<String>) -> (updates: RestoreTokenUpdates)
        ensures
            updates == (RestoreTokenUpdates {
                capture: RestoreTokenUpdate::Replace(capture),
                remote: RestoreTokenUpdate::Replace(remote),
            }),
    {
        RestoreTokenUpdates {
            capture: RestoreTokenUpdate::Replace(capture),
            remote: RestoreTokenUpdate::Replace(remote),
        }
    }

    /// Text for logs, without any token.
    pub fn redacted(&self) -> (text: String)
        ensures
            text@ == "RestoreTokenUpdates { capture: "@ + redacted_update(self.capture)
                + ", remote: "@ + redacted_update(self.remote) + " }"@,
    {
        let mut text = "RestoreTokenUpdates { capture: ".to_owned();
        text.push_str(self.capture.redacted());
        text.push_str(", remote: ");
        text.push_str(self.remote.redacted());
        text.push_str(" }");
        text
    }
}

/// The peer after its tokens were updated. A rejected capture token stops
/// before the remote token; a rejected remote token leaves the new capture
/// token in place.
pub open spec fn updated_peer(peer: PeerView, updates: RestoreTokenUpdates) -> PeerView {
    if !updates.capture.acceptable() {
        peer
    } else if !updates.remote.acceptable() {
        PeerView { capture: updates.capture.applied(peer.capture), ..peer }
    } else {
        PeerView {
            capture: updates.capture.applied(peer.capture),
            remote: updates.remote.applied(peer.remote),
            ..peer
        }
    }
}

/// What a mutation of one peer reports: the fault of the configuration it leaves.
pub open spec fn outcome(result: Result<(), ConfigError>, fault: Option<FaultView>) -> bool {
    match result {
        Ok(_) => fault is None,
        Err(error) => fault == Some(error@),
    }
}

impl Default for BridgeConfig {
    fn default() -> (config: BridgeConfig)
        ensures
            config@ == (ConfigView {
                schema_version: CONFIG_VERSION,
                local_name: "This computer"@,
                peers: Seq::empty(),
            }),
    {
        let config = BridgeConfig {
            schema_version: CONFIG_VERSION,
            local_name: "This computer".to_owned(),
            peers: Vec::new(),
        };
        assert(config@.peers =~= Seq::<PeerView>::empty());
        config
    }
}

impl BridgeConfig {
    pub fn validate(&self) -> (result: Result<(), ConfigError>)
        ensures
            outcome(result, config_fault(self@)),
    {
        if self.schema_version != CONFIG_VERSION {
            return Err(ConfigError::UnsupportedVersion(self.schema_version));
        }
        match validate_display_name("local_name", self.local_name.as_str()) {
            Ok(_) => {},
            Err(error) => {
                return Err(error);
            },
        }
        let ghost peers = self@.peers;
        let mut i: usize = 0;
        while i < self.peers.len()
            invariant
                i <= self.peers.len(),
                peers == peer_views(self.peers@),
                config_fault(self@) == (if peer_fault_from(peers, i as int) is Some {
                    peer_fault_from(peers, i as int)
                } else {
                    duplicate_from(peers, 0)
                }),
            decreases self.peers.len() - i,
        {
            assert(peers[i as int] == self.peers@[i as int]@);
            match self.peers[i].validate() {
                Ok(_) => {},
                Err(error) => {
                    return Err(error);
                },
            }
            i = i + 1;
        }
        let mut i: usize = 0;
        while i < self.peers.len()
            invariant
                i <= self.peers.len(),
                peers == peer_views(self.peers@),
                config_fault(self@) == duplicate_from(peers, i as int),
            decreases self.peers.len() - i,
        {
            assert(peers[i as int] == self.peers@[i as int]@);
            if self.has_id(i, self.peers[i].id.as_str()) {
                return Err(ConfigError::DuplicatePeerId(self.peers[i].id.clone()));
            }
            i = i + 1;
        }
        Ok(())
    }

    /// Whether one of the first peers has an id.
    fn has_id(&self, upto: usize, id: &str) -> (taken: bool)
        requires
            upto <= self.peers.len(),
        ensures
            taken == id_taken(self@.peers.take(upto as int), id@),
    {
        let ghost front = self@.peers.take(upto as int);
        let mut j: usize = 0;
        while j < upto
            invariant
                j <= upto <= self.peers.len(),
                front == self@.peers.take(upto as int),
                forall|k: int|
                    0 <= k < j ==> !(#[trigger] crate::text::same_ignoring_case(front[k].id, id@)),
            decreases upto - j,
        {
            assert(front[j as int] == self.peers@[j as int]@);
            if eq_ignoring_case(self.peers[j].id.as_str(), id) {
                assert(crate::text::same_ignoring_case(front[j as int].id, id@));
                return true;
            }
            j = j + 1;
        }
        false
    }

    /// Adds a peer. Re-pairing the same controlled desktop supersedes its old
    /// record: pairing creates a fresh key by design, and the controlled
    /// endpoint is the stable identity.
    pub fn add_peer(&mut self, peer: PeerConfig) -> (result: Result<(), ConfigError>)
        ensures
            ({
                let before = old(self)@;
                let after = final(self)@;
                if peer_fault(peer@) is Some {
                    after == before && outcome(result, peer_fault(peer@))
                } else if id_taken(before.peers, peer@.id) {
                    after == before && outcome(
                        result,
                        Some(FaultView::DuplicatePeerId(peer@.id)),
                    )
                } else {
                    after == (ConfigView {
                        peers: without_client(before.peers, peer@.client_endpoint).push(peer@),
                        ..before
                    }) && outcome(result, config_fault(after))
                }
            }),
    {
        match peer.validate() {
            Ok(_) => {},
            Err(error) => {
                return Err(error);
            },
        }
        assert(self@.peers.take(self@.peers.len() as int) =~= self@.peers);
        if self.has_id(self.peers.len(), peer.id.as_str()) {
            return Err(ConfigError::DuplicatePeerId(peer.id));
        }
        let ghost before = self@.peers;
        let mut kept: Vec<PeerConfig> = Vec::new();
        let mut rest: Vec<PeerConfig> = Vec::new();
        std::mem::swap(&mut rest, &mut self.peers);
        assert(peer_views(rest@) == before);
        let ghost client = peer.client_endpoint;
        while rest.len() > 0
            invariant
                client == peer.client_endpoint,
                peer_views(rest@).len() <= before.len(),
                peer_views(rest@) == before.take(rest@.len() as int),
                without_client(before, client) == without_client(peer_views(rest@), client)
                    + peer_views(kept@),
            decreases rest.len(),
        {
            let ghost rest_before = peer_views(rest@);
            let ghost kept_before = peer_views(kept@);
            let existing = rest.pop().unwrap();
            assert(rest_before.drop_last() =~= peer_views(rest@));
            assert(rest_before.last() == existing@);
            assert(peer_views(rest@) =~= before.take(rest@.len() as int));
            if !existing.client_endpoint.same(&peer.client_endpoint) {
                kept.insert(0, existing);
                assert(peer_views(kept@) =~= seq![rest_before.last()] + kept_before);
                assert(without_client(peer_views(rest@), client) + peer_views(kept@)
                    =~= without_client(peer_views(rest@), client).push(rest_before.last())
                    + kept_before);
            }
        }
        assert(without_client(peer_views(rest@), client) =~= Seq::<PeerView>::empty());
        assert(peer_views(kept@) =~= without_client(before, client));
        let ghost added = peer@;
        kept.push(peer);
        assert(peer_views(kept@) =~= without_client(before, client).push(added));
        self.peers = kept;
        self.validate()
    }

    fn index_of(&self, id: &str) -> (index: usize)
        ensures
            index == peer_index(self@.peers, id@),
            index <= self.peers.len(),
            index < self.peers.len() <==> id_taken(self@.peers, id@),
    {
        let mut i: usize = 0;
        while i < self.peers.len()
            invariant
                i <= self.peers.len(),
                peer_index(self@.peers, id@) == peer_index_from(self@.peers, id@, i as int),
                forall|k: int|
                    0 <= k < i ==> !(#[trigger] crate::text::same_ignoring_case(
                        self@.peers[k].id,
                        id@,
                    )),
            decreases self.peers.len() - i,
        {
            assert(self@.peers[i as int] == self.peers@[i as int]@);
            if eq_ignoring_case(self.peers[i].id.as_str(), id) {
                assert(crate::text::same_ignoring_case(self@.peers[i as int].id, id@));
                return i;
            }
            i = i + 1;
        }
        i
    }

    pub fn peer(&self, id: &str) -> (result: Result<&PeerConfig, ConfigError>)
        ensures
            match result {
                Ok(peer) => id_taken(self@.peers, id@) && peer@ == self@.peers[peer_index(
                    self@.peers,
                    id@,
                )],
                Err(error) => !id_taken(self@.peers, id@) && error@ == FaultView::PeerNotFound(
                    id@,
                ),
            },
    {
        let index: usize = self.index_of(id);
        if index < self.peers.len() {
            Ok(&self.peers[index])
        } else {
            Err(ConfigError::PeerNotFound(id.to_owned()))
        }
    }

    /// Changes the stored position for an existing trusted peer.
    pub fn set_peer_placement(&mut self, id: &str, placement: RelativePlacement) -> (result: Result<
        (),
        ConfigError,
    >)
        ensures
            ({
                let before = old(self)@;
                let after = final(self)@;
                let index = peer_index(before.peers, id@);
                if id_taken(before.peers, id@) {
                    after == (ConfigView {
                        peers: before.peers.update(
                            index,
                            PeerView { placement, ..before.peers[index] },
                        ),
                        ..before
                    }) && outcome(result, config_fault(after))
                } else {
                    after == before && outcome(result, Some(FaultView::PeerNotFound(id@)))
                }
            }),
    {
        let index: usize = self.index_of(id);
        if index >= self.peers.len() {
            return Err(ConfigError::PeerNotFound(id.to_owned()));
        }
        let ghost before = self@.peers;
        self.peers[index].placement = placement;
        assert(self@.peers =~= before.update(
            index as int,
            PeerView { placement, ..before[index as int] },
        ));
        self.validate()
    }

    /// Applies returned single-use portal tokens in memory. The caller should
    /// save the config once after all portal sessions have started so their
    /// replacement is atomic at the config-file level.
    pub fn apply_restore_token_updates(
        &mut self,
        id: &str,
        updates: RestoreTokenUpdates,
    ) -> (result: Result<(), ConfigError>)
        ensures
            ({
                let before = old(self)@;
                let after = final(self)@;
                let index = peer_index(before.peers, id@);
                if id_taken(before.peers, id@) {
                    after == (ConfigView {
                        peers: before.peers.update(
                            index,
                            updated_peer(before.peers[index], updates),
                        ),
                        ..before
                    }) && outcome(
                        result,
                        if updates.capture.acceptable() && updates.remote.acceptable() {
                            config_fault(after)
                        } else {
                            Some(bad_restore_token())
                        },
                    )
                } else {
                    after == before && outcome(result, Some(FaultView::PeerNotFound(id@)))
                }
            }),
    {
        let index: usize = self.index_of(id);
        if index >= self.peers.len() {
            return Err(ConfigError::PeerNotFound(id.to_owned()));
        }
        let ghost before = self@.peers;
        let ghost given = updates;
        assert(before[index as int] == self.peers@[index as int]@);
        if let RestoreTokenUpdate::Replace(token) = updates.capture {
            match self.peers[index].replace_capture_restore_token(token) {
                Ok(_) => {},
                Err(error) => {
                    assert(self@.peers =~= before.update(
                        index as int,
                        updated_peer(before[index as int], given),
                    ));
                    return Err(error);
                },
            }
        }
        assert(self@.peers =~= before.update(
            index as int,
            PeerView {
                capture: given.capture.applied(before[index as int].capture),
                ..before[index as int]
            },
        ));
        if let RestoreTokenUpdate::Replace(token) = updates.remote {
            match self.peers[index].replace_remote_restore_token(token) {
                Ok(_) => {},
                Err(error) => {
                    assert(self@.peers =~= before.update(
                        index as int,
                        updated_peer(before[index as int], given),
                    ));
                    return Err(error);
                },
            }
        }
        assert(self@.peers =~= before.update(
            index as int,
            updated_peer(before[index as int], given),
        ));
        self.validate()
    }
}

// The file format.

/// A record under construction.
pub struct UnvalidatedPeer {
    id: Option<String>,
    name: Option<String>,
    host_endpoint: Option<Endpoint>,
    client_endpoint: Option<Endpoint>,
    placement: Option<RelativePlacement>,
    persistent_permissions: Option<bool>,
    psk: Option<[u8; 32]>,
    capture_restore_token: Option<String>,
    remote_restore_token: Option<String>,
}

#[verifier::ext_equal]
pub struct DraftView {
    pub id: Option<Seq<char>>,
    pub name: Option<Seq<char>>,
    pub host_endpoint: Option<Endpoint>,
    pub client_endpoint: Option<Endpoint>,
    pub placement: Option<RelativePlacement>,
    pub persistent_permissions: Option<bool>,
    pub psk: Option<Seq<u8>>,
    pub capture: Option<Seq<char>>,
    pub remote: Option<Seq<char>>,
}

impl View for UnvalidatedPeer {
    type V = DraftView;

    closed spec fn view(&self) -> DraftView {
        DraftView {
            id: optional(self.id),
            name: optional(self.name),
            host_endpoint: self.host_endpoint,
            client_endpoint: self.client_endpoint,
            placement: self.placement,
            persistent_permissions: self.persistent_permissions,
            psk: match self.psk {
                Some(psk) => Some(psk@),
                None => None,
            },
            capture: optional(self.capture_restore_token),
            remote: optional(self.remote_restore_token),
        }
    }
}

pub open spec fn empty_draft() -> DraftView {
    DraftView {
        id: None,
        name: None,
        host_endpoint: None,
        client_endpoint: None,
        placement: None,
        persistent_permissions: None,
        psk: None,
        capture: None,
        remote: None,
    }
}

/// The pre-shared key that sixty-four hexadecimal digits denote.
pub open spec fn psk_denoted(value: Seq<char>) -> Option<Seq<u8>> {
    if crate::text::is_hex_text(value) && value.len() == 64 {
        Some(crate::text::hex_bytes(value))
    } else {
        None
    }
}

/// The token written in a record: hexadecimal UTF-8 of an acceptable token.
pub open spec fn token_denoted(value: Seq<char>, line: int) -> Result<Seq<char>, FaultView> {
    let bytes = crate::text::hex_bytes(value);
    let token = vstd::utf8::decode_utf8(bytes);
    if !crate::text::is_hex_text(value) || !vstd::utf8::valid_utf8(bytes) {
        Err(FaultView::Parse { line, reason: "restore token must be hexadecimal UTF-8"@ })
    } else if !is_restore_token(token) {
        Err(FaultView::Parse { line, reason: fault_message(bad_restore_token()) })
    } else {
        Ok(token)
    }
}

pub open spec fn repeated(key: Seq<char>, line: int) -> FaultView {
    FaultView::Parse { line, reason: key + " appears more than once in a peer"@ }
}

/// The record after one `key=value` line.
pub open spec fn draft_set(
    draft: DraftView,
    key: Seq<char>,
    value: Seq<char>,
    line: int,
) -> Result<DraftView, FaultView> {
    if key == "id"@ {
        if draft.id is Some {
            Err(repeated(key, line))
        } else {
            Ok(DraftView { id: Some(value), ..draft })
        }
    } else if key == "name"@ {
        if draft.name is Some {
            Err(repeated(key, line))
        } else {
            Ok(DraftView { name: Some(value), ..draft })
        }
    } else if key == "host_endpoint"@ {
        if draft.host_endpoint is Some {
            Err(repeated(key, line))
        } else {
            match crate::endpoint::endpoint_denoted(value) {
                Some(endpoint) => Ok(DraftView { host_endpoint: Some(endpoint), ..draft }),
                None => Err(
                    FaultView::Parse {
                        line,
                        reason: "host_endpoint must be an IP address and port"@,
                    },
                ),
            }
        }
    } else if key == "client_endpoint"@ {
        if draft.client_endpoint is Some {
            Err(repeated(key, line))
        } else {
            match crate::endpoint::endpoint_denoted(value) {
                Some(endpoint) => Ok(DraftView { client_endpoint: Some(endpoint), ..draft }),
                None => Err(
                    FaultView::Parse {
                        line,
                        reason: "client_endpoint must be an IP address and port"@,
                    },
                ),
            }
        }
    } else if key == "placement"@ {
        if draft.placement is Some {
            Err(repeated(key, line))
        } else {
            match placement_named(value) {
                Some(placement) => Ok(DraftView { placement: Some(placement), ..draft }),
                None => Err(bad_placement()),
            }
        }
    } else if key == "persistent_permissions"@ {
        if draft.persistent_permissions is Some {
            Err(repeated(key, line))
        } else if value == "true"@ {
            Ok(DraftView { persistent_permissions: Some(true), ..draft })
        } else if value == "false"@ {
            Ok(DraftView { persistent_permissions: Some(false), ..draft })
        } else {
            Err(
                FaultView::Parse {
                    line,
                    reason: "persistent_permissions must be true or false"@,
                },
            )
        }
    } else if key == "psk"@ {
        if draft.psk is Some {
            Err(repeated(key, line))
        } else {
            match psk_denoted(value) {
                Some(psk) => Ok(DraftView { psk: Some(psk), ..draft }),
                None => Err(bad_psk()),
            }
        }
    } else if key == "capture_restore_token"@ {
        if draft.capture is Some {
            Err(repeated(key, line))
        } else {
            match token_denoted(value, line) {
                Ok(token) => Ok(DraftView { capture: Some(token), ..draft }),
                Err(fault) => Err(fault),
            }
        }
    } else if key == "remote_restore_token"@ {
        if draft.remote is Some {
            Err(repeated(key, line))
        } else {
            match token_denoted(value, line) {
                Ok(token) => Ok(DraftView { remote: Some(token), ..draft }),
                Err(fault) => Err(fault),
            }
        }
    } else {
        Err(FaultView::Parse { line, reason: "unknown peer field "@ + key })
    }
}

/// The peer that a complete record describes. Without a word on it,
/// permissions are not persistent.
pub open spec fn draft_peer(draft: DraftView) -> PeerView {
    PeerView {
        id: draft.id->0,
        name: draft.name->0,
        host_endpoint: draft.host_endpoint->0,
        client_endpoint: draft.client_endpoint->0,
        placement: draft.placement->0,
        persistent_permissions: match draft.persistent_permissions {
            Some(persistent) => persistent,
            None => false,
        },
        psk: draft.psk->0,
        capture: draft.capture,
        remote: draft.remote,
    }
}

/// What a record comes to at its end.
pub open spec fn draft_finished(draft: DraftView) -> Result<PeerView, FaultView> {
    if draft.id is None {
        Err(FaultView::MissingField("peer.id"@))
    } else if draft.name is None {
        Err(FaultView::MissingField("peer.name"@))
    } else if draft.host_endpoint is None {
        Err(FaultView::MissingField("peer.host_endpoint"@))
    } else if draft.client_endpoint is None {
        Err(FaultView::MissingField("peer.client_endpoint"@))
    } else if draft.placement is None {
        Err(FaultView::MissingField("peer.placement"@))
    } else if draft.psk is None {
        Err(FaultView::MissingField("peer.psk"@))
    } else {
        match peer_fault(draft_peer(draft)) {
            Some(fault) => Err(fault),
            None => Ok(draft_peer(draft)),
        }
    }
}

/// Reads a pre-shared key.
pub fn parse_psk(value: &str) -> (result: Result<[u8; 32], ConfigError>)
    ensures
        match result {
            Ok(psk) => psk_denoted(value@) == Some(psk@),
            Err(error) => psk_denoted(value@) is None && error@ == bad_psk(),
        },
{
    if let Some(bytes) = hex_decode(value) {
        if bytes.len() == 32 {
            return Ok(to_array32(bytes.as_slice()));
        }
    }
    Err(
        ConfigError::InvalidField {
            field: "psk",
            reason: "must be 64 hexadecimal characters".to_owned(),
        },
    )
}

/// Reads a token as it is written in a record.
pub fn parse_restore_token(value: &str, line: usize) -> (result: Result<String, ConfigError>)
    ensures
        match result {
            Ok(token) => token_denoted(value@, line as int) == Ok::<Seq<char>, FaultView>(token@),
            Err(error) => token_denoted(value@, line as int) == Err::<Seq<char>, FaultView>(error@),
        },
{
    let bytes = match hex_decode(value) {
        Some(bytes) => bytes,
        None => {
            return Err(
                ConfigError::Parse {
                    line,
                    reason: "restore token must be hexadecimal UTF-8".to_owned(),
                },
            );
        },
    };
    let token = match text_from_utf8(bytes) {
        Some(token) => token,
        None => {
            return Err(
                ConfigError::Parse {
                    line,
                    reason: "restore token must be hexadecimal UTF-8".to_owned(),
                },
            );
        },
    };
    match validate_restore_token(Some(token.as_str())) {
        Ok(_) => Ok(token),
        Err(error) => Err(ConfigError::Parse { line, reason: error.message() }),
    }
}

fn repeated_key(key: &str, line: usize) -> (error: ConfigError)
    ensures
        error@ == repeated(key@, line as int),
{
    let mut reason = String::new();
    reason.push_str(key);
    reason.push_str(" appears more than once in a peer");
    assert(reason@ =~= key@ + " appears more than once in a peer"@);
    ConfigError::Parse { line, reason }
}

impl UnvalidatedPeer {
    pub fn new() -> (draft: UnvalidatedPeer)
        ensures
            draft@ == empty_draft(),
    {
        UnvalidatedPeer {
            id: None,
            name: None,
            host_endpoint: None,
            client_endpoint: None,
            placement: None,
            persistent_permissions: None,
            psk: None,
            capture_restore_token: None,
            remote_restore_token: None,
        }
    }

    /// Takes over one `key=value` line.
    #[verifier::rlimit(40)]
    pub fn set(&mut self, key: &str, value: &str, line: usize) -> (result: Result<(), ConfigError>)
        ensures
            match result {
                Ok(_) => draft_set(old(self)@, key@, value@, line as int) == Ok::<
                    DraftView,
                    FaultView,
                >(final(self)@),
                Err(error) => draft_set(old(self)@, key@, value@, line as int) == Err::<
                    DraftView,
                    FaultView,
                >(error@) && *final(self) == *old(self),
            },
    {
        if same_text(key, "id") {
            if self.id.is_some() {
                return Err(repeated_key(key, line));
            }
            self.id = Some(value.to_owned());
        } else if same_text(key, "name") {
            if self.name.is_some() {
                return Err(repeated_key(key, line));
            }
            self.name = Some(value.to_owned());
        } else if same_text(key, "host_endpoint") {
            if self.host_endpoint.is_some() {
                return Err(repeated_key(key, line));
            }
            match parse_endpoint(to_chars(value).as_slice()) {
                Some(endpoint) => {
                    self.host_endpoint = Some(endpoint);
                },
                None => {
                    return Err(
                        ConfigError::Parse {
                            line,
                            reason: "host_endpoint must be an IP address and port".to_owned(),
                        },
                    );
                },
            }
        } else if same_text(key, "client_endpoint") {
            if self.client_endpoint.is_some() {
                return Err(repeated_key(key, line));
            }
            match parse_endpoint(to_chars(value).as_slice()) {
                Some(endpoint) => {
                    self.client_endpoint = Some(endpoint);
                },
                None => {
                    return Err(
                        ConfigError::Parse {
                            line,
                            reason: "client_endpoint must be an IP address and port".to_owned(),
                        },
                    );
                },
            }
        } else if same_text(key, "placement") {
            if self.placement.is_some() {
                return Err(repeated_key(key, line));
            }
            match RelativePlacement::parse(value) {
                Ok(placement) => {
                    self.placement = Some(placement);
                },
                Err(error) => {
                    return Err(error);
                },
            }
        } else if same_text(key, "persistent_permissions") {
            if self.persistent_permissions.is_some() {
                return Err(repeated_key(key, line));
            }
            match parse_truth(to_chars(value).as_slice()) {
                Some(persistent) => {
                    self.persistent_permissions = Some(persistent);
                },
                None => {
                    return Err(
                        ConfigError::Parse {
                            line,
                            reason: "persistent_permissions must be true or false".to_owned(),
                        },
                    );
                },
            }
        } else if same_text(key, "psk") {
            if self.psk.is_some() {
                return Err(repeated_key(key, line));
            }
            match parse_psk(value) {
                Ok(psk) => {
                    self.psk = Some(psk);
                },
                Err(error) => {
                    return Err(error);
                },
            }
        } else if same_text(key, "capture_restore_token") {
            if self.capture_restore_token.is_some() {
                return Err(repeated_key(key, line));
            }
            match parse_restore_token(value, line) {
                Ok(token) => {
                    self.capture_restore_token = Some(token);
                },
                Err(error) => {
                    return Err(error);
                },
            }
        } else if same_text(key, "remote_restore_token") {
            if self.remote_restore_token.is_some() {
                return Err(repeated_key(key, line));
            }
            match parse_restore_token(value, line) {
                Ok(token) => {
                    self.remote_restore_token = Some(token);
                },
                Err(error) => {
                    return Err(error);
                },
            }
        } else {
            let mut reason = String::new();
            reason.push_str("unknown peer field ");
            reason.push_str(key);
            assert(reason@ =~= "unknown peer field "@ + key@);
            return Err(ConfigError::Parse { line, reason });
        }
        Ok(())
    }

    /// Ends the record.
    pub fn finish(self) -> (result: Result<PeerConfig, ConfigError>)
        ensures
            match result {
                Ok(peer) => draft_finished(self@) == Ok::<PeerView, FaultView>(peer@),
                Err(error) => draft_finished(self@) == Err::<PeerView, FaultView>(error@),
            },
    {
        let id = match self.id {
            Some(id) => id,
            None => {
                return Err(ConfigError::MissingField("peer.id"));
            },
        };
        let name = match self.name {
            Some(name) => name,
            None => {
                return Err(ConfigError::MissingField("peer.name"));
            },
        };
        let host_endpoint = match self.host_endpoint {
            Some(endpoint) => endpoint,
            None => {
                return Err(ConfigError::MissingField("peer.host_endpoint"));
            },
        };
        let client_endpoint = match self.client_endpoint {
            Some(endpoint) => endpoint,
            None => {
                return Err(ConfigError::MissingField("peer.client_endpoint"));
            },
        };
        let placement = match self.placement {
            Some(placement) => placement,
            None => {
                return Err(ConfigError::MissingField("peer.placement"));
            },
        };
        let psk = match self.psk {
            Some(psk) => psk,
            None => {
                return Err(ConfigError::MissingField("peer.psk"));
            },
        };
        let mut peer = match PeerConfig::new(
            id,
            name,
            host_endpoint,
            client_endpoint,
            placement,
            psk,
        ) {
            Ok(peer) => peer,
            Err(error) => {
                return Err(error);
            },
        };
        peer.persistent_permissions =
        match self.persistent_permissions {
            Some(persistent) => persistent,
            None => false,
        };
        match peer.replace_capture_restore_token(self.capture_restore_token) {
            Ok(_) => {},
            Err(error) => {
                return Err(error);
            },
        }
        match peer.replace_remote_restore_token(self.remote_restore_token) {
            Ok(_) => {},
            Err(error) => {
                return Err(error);
            },
        }
        assert(peer@ =~= draft_peer(self@));
        Ok(peer)
    }
}

/// What has been read of a file so far.
struct Reading {
    schema_version: Option<u32>,
    local_name: Option<String>,
    peers: Vec<PeerConfig>,
    current: Option<UnvalidatedPeer>,
}

#[verifier::ext_equal]
pub struct ReadingView {
    pub schema_version: Option<u32>,
    pub local_name: Option<Seq<char>>,
    pub peers: Seq<PeerView>,
    pub current: Option<DraftView>,
}

impl View for Reading {
    type V = ReadingView;

    closed spec fn view(&self) -> ReadingView {
        ReadingView {
            schema_version: self.schema_version,
            local_name: optional(self.local_name),
            peers: peer_views(self.peers@),
            current: match self.current {
                Some(draft) => Some(draft@),
                None => None,
            },
        }
    }
}

/// A line before the first record.
pub open spec fn header_set(
    reading: ReadingView,
    key: Seq<char>,
    value: Seq<char>,
    line: int,
) -> Result<ReadingView, FaultView> {
    if key == "schema_version"@ {
        if reading.schema_version is Some {
            Err(FaultView::Parse { line, reason: "schema_version appears more than once"@ })
        } else {
            match crate::text::unsigned(value, u32::MAX as nat) {
                Some(version) => Ok(
                    ReadingView { schema_version: Some(version as u32), ..reading },
                ),
                None => Err(
                    FaultView::Parse {
                        line,
                        reason: "schema_version must be an unsigned integer"@,
                    },
                ),
            }
        }
    } else if key == "local_name"@ {
        if reading.local_name is Some {
            Err(FaultView::Parse { line, reason: "local_name appears more than once"@ })
        } else {
            Ok(ReadingView { local_name: Some(value), ..reading })
        }
    } else {
        Err(
            FaultView::Parse {
                line,
                reason: "only schema_version and local_name may appear before [[peer]]"@,
            },
        )
    }
}

/// The record in progress is complete and joins the peers.
pub open spec fn closed_record(reading: ReadingView) -> Result<ReadingView, FaultView> {
    match reading.current {
        None => Ok(reading),
        Some(draft) => match draft_finished(draft) {
            Ok(peer) => Ok(
                ReadingView { peers: reading.peers.push(peer), current: None, ..reading },
            ),
            Err(fault) => Err(fault),
        },
    }
}

/// One line: blank lines and comments are skipped, `[[peer]]` starts a record,
/// everything else is `key=value`.
pub open spec fn line_read(reading: ReadingView, raw: Seq<char>, number: int) -> Result<
    ReadingView,
    FaultView,
> {
    let line = crate::text::trimmed(raw);
    let at = crate::text::find(line, '=');
    if line.len() == 0 || line[0] == '#' {
        Ok(reading)
    } else if line == "[[peer]]"@ {
        match closed_record(reading) {
            Ok(next) => Ok(ReadingView { current: Some(empty_draft()), ..next }),
            Err(fault) => Err(fault),
        }
    } else if at >= line.len() {
        Err(FaultView::Parse { line: number, reason: "expected key=value"@ })
    } else {
        match reading.current {
            Some(draft) => match draft_set(draft, line.take(at), line.skip(at + 1), number) {
                Ok(next) => Ok(ReadingView { current: Some(next), ..reading }),
                Err(fault) => Err(fault),
            },
            None => header_set(reading, line.take(at), line.skip(at + 1), number),
        }
    }
}

/// All lines from index `i` on.
pub open spec fn lines_read(reading: ReadingView, lines: Seq<Seq<char>>, i: int) -> Result<
    ReadingView,
    FaultView,
>
    decreases lines.len() - i,
{
    if i < 0 || i >= lines.len() {
        Ok(reading)
    } else {
        match line_read(reading, lines[i], i + 1) {
            Ok(next) => lines_read(next, lines, i + 1),
            Err(fault) => Err(fault),
        }
    }
}

pub open spec fn nothing_read() -> ReadingView {
    ReadingView { schema_version: None, local_name: None, peers: Seq::empty(), current: None }
}

/// What the end of the file makes of what was read. Files without a local
/// name get a neutral one.
pub open spec fn reading_finished(reading: ReadingView) -> Result<ConfigView, FaultView> {
    match closed_record(reading) {
        Err(fault) => Err(fault),
        Ok(done) => match done.schema_version {
            None => Err(FaultView::MissingField("schema_version"@)),
            Some(version) => {
                let config = ConfigView {
                    schema_version: version,
                    local_name: match done.local_name {
                        Some(name) => name,
                        None => "This computer"@,
                    },
                    peers: done.peers,
                };
                match config_fault(config) {
                    Some(fault) => Err(fault),
                    None => Ok(config),
                }
            },
        },
    }
}

/// The configuration that a file holds.
pub open spec fn config_denoted(text: Seq<char>) -> Result<ConfigView, FaultView> {
    match lines_read(nothing_read(), crate::text::lines(text), 0) {
        Ok(reading) => reading_finished(reading),
        Err(fault) => Err(fault),
    }
}

impl Reading {
    fn header(&mut self, key: &str, value: &str, line: usize) -> (result: Result<(), ConfigError>)
        ensures
            match result {
                Ok(_) => header_set(old(self)@, key@, value@, line as int) == Ok::<
                    ReadingView,
                    FaultView,
                >(final(self)@),
                Err(error) => header_set(old(self)@, key@, value@, line as int) == Err::<
                    ReadingView,
                    FaultView,
                >(error@),
            },
    {
        if same_text(key, "schema_version") {
            if self.schema_version.is_some() {
                return Err(
                    ConfigError::Parse {
                        line,
                        reason: "schema_version appears more than once".to_owned(),
                    },
                );
            }
            match parse_unsigned(to_chars(value).as_slice(), 0xffff_ffff) {
                Some(version) => {
                    self.schema_version = Some(version as u32);
                },
                None => {
                    return Err(
                        ConfigError::Parse {
                            line,
                            reason: "schema_version must be an unsigned integer".to_owned(),
                        },
                    );
                },
            }
        } else if same_text(key, "local_name") {
            if self.local_name.is_some() {
                return Err(
                    ConfigError::Parse {
                        line,
                        reason: "local_name appears more than once".to_owned(),
                    },
                );
            }
            self.local_name = Some(value.to_owned());
        } else {
            return Err(
                ConfigError::Parse {
                    line,
                    reason: "only schema_version and local_name may appear before [[peer]]"
                        .to_owned(),
                },
            );
        }
        Ok(())
    }

    fn close_record(&mut self) -> (result: Result<(), ConfigError>)
        ensures
            match result {
                Ok(_) => closed_record(old(self)@) == Ok::<ReadingView, FaultView>(final(self)@),
                Err(error) => closed_record(old(self)@) == Err::<ReadingView, FaultView>(error@),
            },
    {
        match self.current.take() {
            None => Ok(()),
            Some(draft) => match draft.finish() {
                Ok(peer) => {
                    let ghost before = self@.peers;
                    let ghost added = peer@;
                    self.peers.push(peer);
                    assert(self@.peers =~= before.push(added));
                    Ok(())
                },
                Err(error) => Err(error),
            },
        }
    }

    fn line(&mut self, raw: &[char], number: usize) -> (result: Result<(), ConfigError>)
        ensures
            match result {
                Ok(_) => line_read(old(self)@, raw@, number as int) == Ok::<ReadingView, FaultView>(
                    final(self)@,
                ),
                Err(error) => line_read(old(self)@, raw@, number as int) == Err::<
                    ReadingView,
                    FaultView,
                >(error@),
            },
    {
        let line = trim_chars(raw);
        if line.len() == 0 || line[0] == '#' {
            return Ok(());
        }
        if spells(line.as_slice(), "[[peer]]") {
            match self.close_record() {
                Ok(_) => {},
                Err(error) => {
                    return Err(error);
                },
            }
            self.current = Some(UnvalidatedPeer::new());
            return Ok(());
        }
        let at: usize = find_char(line.as_slice(), '=');
        if at >= line.len() {
            return Err(
                ConfigError::Parse { line: number, reason: "expected key=value".to_owned() },
            );
        }
        let key = to_text(char_range(line.as_slice(), 0, at).as_slice());
        let value = to_text(char_range(line.as_slice(), at + 1, line.len()).as_slice());
        assert(key@ =~= line@.take(at as int));
        assert(value@ =~= line@.skip(at + 1));
        match self.current.take() {
            Some(mut draft) => match draft.set(key.as_str(), value.as_str(), number) {
                Ok(_) => {
                    self.current = Some(draft);
                    Ok(())
                },
                Err(error) => Err(error),
            },
            None => self.header(key.as_str(), value.as_str(), number),
        }
    }
}

impl BridgeConfig {
    /// Reads a configuration file.
    pub fn parse(text: &str) -> (result: Result<BridgeConfig, ConfigError>)
        ensures
            match result {
                Ok(config) => config_denoted(text@) == Ok::<ConfigView, FaultView>(config@),
                Err(error) => config_denoted(text@) == Err::<ConfigView, FaultView>(error@),
            },
    {
        let chars = to_chars(text);
        let all = split_lines(chars.as_slice());
        let ghost lines = crate::text::lines(text@);
        let mut reading = Reading {
            schema_version: None,
            local_name: None,
            peers: Vec::new(),
            current: None,
        };
        assert(reading@ =~= nothing_read());
        let mut i: usize = 0;
        while i < all.len()
            invariant
                i <= all.len(),
                lines == crate::text::texts(all@),
                lines == crate::text::lines(text@),
                lines_read(reading@, lines, i as int) == lines_read(nothing_read(), lines, 0),
            decreases all.len() - i,
        {
            assert(lines[i as int] == all@[i as int]@);
            match reading.line(all[i].as_slice(), i + 1) {
                Ok(_) => {},
                Err(error) => {
                    return Err(error);
                },
            }
            i = i + 1;
        }
        match reading.close_record() {
            Ok(_) => {},
            Err(error) => {
                return Err(error);
            },
        }
        let config = BridgeConfig {
            schema_version: match reading.schema_version {
                Some(version) => version,
                None => {
                    return Err(ConfigError::MissingField("schema_version"));
                },
            },
            local_name: match reading.local_name {
                Some(name) => name,
                None => "This computer".to_owned(),
            },
            peers: reading.peers,
        };
        match config.validate() {
            Ok(_) => Ok(config),
            Err(error) => Err(error),
        }
    }
}

// Writing.

pub open spec fn token_lines(key: Seq<char>, token: Option<Seq<char>>) -> Seq<Seq<char>> {
    match token {
        Some(t) => seq![crate::text::entry(key, crate::text::hex_text(crate::text::utf8(t)))],
        None => Seq::empty(),
    }
}

/// The lines of one peer, after an empty one.
pub open spec fn peer_lines(peer: PeerView) -> Seq<Seq<char>> {
    seq![
        Seq::empty(),
        "[[peer]]"@,
        crate::text::entry("id"@, peer.id),
        crate::text::entry("name"@, peer.name),
        crate::text::entry("host_endpoint"@, crate::endpoint::endpoint_text(peer.host_endpoint)),
        crate::text::entry("client_endpoint"@, crate::endpoint::endpoint_text(peer.client_endpoint)),
        crate::text::entry("placement"@, placement_text(peer.placement)),
        crate::text::entry("persistent_permissions"@, crate::text::bool_text(peer.persistent_permissions)),
        crate::text::entry("psk"@, crate::text::hex_text(peer.psk)),
    ] + token_lines("capture_restore_token"@, peer.capture) + token_lines(
        "remote_restore_token"@,
        peer.remote,
    )
}

pub open spec fn all_peer_lines(peers: Seq<PeerView>) -> Seq<Seq<char>>
    decreases peers.len(),
{
    if peers.len() == 0 {
        Seq::empty()
    } else {
        all_peer_lines(peers.drop_last()) + peer_lines(peers.last())
    }
}

/// The lines of a configuration file.
pub open spec fn config_lines(config: ConfigView) -> Seq<Seq<char>> {
    seq![
        crate::text::entry("schema_version"@, crate::text::decimal(config.schema_version as nat)),
        crate::text::entry("local_name"@, config.local_name),
    ] + all_peer_lines(config.peers)
}

/// The text of a configuration file.
pub open spec fn config_text(config: ConfigView) -> Seq<char> {
    crate::text::unlines(config_lines(config))
}

/// Appends one line to a text.
pub(crate) fn push_entry(out: &mut String, key: &str, value: &str, Ghost(lines): Ghost<Seq<Seq<char>>>)
    requires
        old(out)@ == crate::text::unlines(lines),
    ensures
        final(out)@ == crate::text::unlines(lines.push(crate::text::entry(key@, value@))),
{
    out.push_str(key);
    out.push('=');
    out.push_str(value);
    out.push('\n');
    proof {
        crate::text::lemma_unlines_push(lines, crate::text::entry(key@, value@));
    }
    assert(out@ =~= crate::text::unlines(lines) + crate::text::entry(key@, value@) + seq!['\n']);
}

fn push_token(
    out: &mut String,
    key: &str,
    token: Option<&str>,
    Ghost(lines): Ghost<Seq<Seq<char>>>,
)
    requires
        old(out)@ == crate::text::unlines(lines),
    ensures
        final(out)@ == crate::text::unlines(
            lines + token_lines(
                key@,
                match token {
                    Some(t) => Some(t@),
                    None => None,
                },
            ),
        ),
{
    match token {
        Some(t) => {
            let hex = hex_encode(utf8_bytes(t).as_slice());
            push_entry(out, key, hex.as_str(), Ghost(lines));
            assert(lines.push(crate::text::entry(key@, hex@)) =~= lines + token_lines(key@, Some(t@)));
        },
        None => {
            assert(lines + Seq::<Seq<char>>::empty() =~= lines);
        },
    }
}

#[verifier::rlimit(40)]
fn push_peer(out: &mut String, peer: &PeerConfig, Ghost(lines): Ghost<Seq<Seq<char>>>)
    requires
        old(out)@ == crate::text::unlines(lines),
    ensures
        final(out)@ == crate::text::unlines(lines + peer_lines(peer@)),
{
    out.push('\n');
    let ghost l0 = lines.push(Seq::empty());
    proof {
        crate::text::lemma_unlines_push(lines, Seq::empty());
        assert(out@ =~= crate::text::unlines(l0));
    }
    out.push_str("[[peer]]");
    out.push('\n');
    let ghost l1 = l0.push("[[peer]]"@);
    proof {
        crate::text::lemma_unlines_push(l0, "[[peer]]"@);
        assert(out@ =~= crate::text::unlines(l1));
    }
    push_entry(out, "id", peer.id.as_str(), Ghost(l1));
    let ghost l2 = l1.push(crate::text::entry("id"@, peer@.id));
    push_entry(out, "name", peer.name.as_str(), Ghost(l2));
    let ghost l3 = l2.push(crate::text::entry("name"@, peer@.name));
    let mut host = String::new();
    push_endpoint(&mut host, &peer.host_endpoint);
    assert(host@ =~= crate::endpoint::endpoint_text(peer@.host_endpoint));
    push_entry(out, "host_endpoint", host.as_str(), Ghost(l3));
    let ghost l4 = l3.push(crate::text::entry("host_endpoint"@, host@));
    let mut client = String::new();
    push_endpoint(&mut client, &peer.client_endpoint);
    assert(client@ =~= crate::endpoint::endpoint_text(peer@.client_endpoint));
    push_entry(out, "client_endpoint", client.as_str(), Ghost(l4));
    let ghost l5 = l4.push(crate::text::entry("client_endpoint"@, client@));
    push_entry(out, "placement", peer.placement.as_str(), Ghost(l5));
    let ghost l6 = l5.push(crate::text::entry("placement"@, placement_text(peer@.placement)));
    push_entry(
        out,
        "persistent_permissions",
        bool_str(peer.persistent_permissions),
        Ghost(l6),
    );
    let ghost l7 = l6.push(
        crate::text::entry(
            "persistent_permissions"@,
            crate::text::bool_text(peer@.persistent_permissions),
        ),
    );
    let psk = hex_encode(peer.psk.as_slice());
    push_entry(out, "psk", psk.as_str(), Ghost(l7));
    let ghost l8 = l7.push(crate::text::entry("psk"@, crate::text::hex_text(peer@.psk)));
    push_token(out, "capture_restore_token", peer.capture_restore_token(), Ghost(l8));
    let ghost l9 = l8 + token_lines("capture_restore_token"@, peer@.capture);
    push_token(out, "remote_restore_token", peer.remote_restore_token(), Ghost(l9));
    assert(l9 + token_lines("remote_restore_token"@, peer@.remote) =~= lines + peer_lines(peer@));
}

impl BridgeConfig {
    /// Writes a configuration file, if the configuration is valid.
    pub fn render(&self) -> (result: Result<String, ConfigError>)
        ensures
            match result {
                Ok(text) => config_fault(self@) is None && text@ == config_text(self@),
                Err(error) => config_fault(self@) == Some(error@),
            },
    {
        match self.validate() {
            Ok(_) => {},
            Err(error) => {
                return Err(error);
            },
        }
        let mut out = String::new();
        let ghost none = Seq::<Seq<char>>::empty();
        let version = crate::text::decimal_text(CONFIG_VERSION as u64);
        push_entry(&mut out, "schema_version", version.as_str(), Ghost(none));
        let ghost head = none.push(crate::text::entry("schema_version"@, version@));
        push_entry(&mut out, "local_name", self.local_name.as_str(), Ghost(head));
        let ghost head = head.push(crate::text::entry("local_name"@, self@.local_name));
        let ghost peers = self@.peers;
        let mut i: usize = 0;
        assert(head + all_peer_lines(peers.take(0)) =~= head);
        while i < self.peers.len()
            invariant
                i <= self.peers.len(),
                peers == peer_views(self.peers@),
                out@ == crate::text::unlines(head + all_peer_lines(peers.take(i as int))),
            decreases self.peers.len() - i,
        {
            let ghost before = head + all_peer_lines(peers.take(i as int));
            push_peer(&mut out, &self.peers[i], Ghost(before));
            assert(peers[i as int] == self.peers@[i as int]@);
            i = i + 1;
            assert(peers.take(i as int).drop_last() =~= peers.take(i - 1));
            assert(before + peer_lines(peers[i - 1]) =~= head + all_peer_lines(
                peers.take(i as int),
            ));
        }
        assert(peers.take(i as int) =~= peers);
        assert(head + all_peer_lines(peers) =~= config_lines(self@));
        Ok(out)
    }
}

// A written configuration is read back.

/// Lengths and first letters of the words of the format.
proof fn lemma_words()
    ensures
        "schema_version"@.len() == 14,
        "local_name"@.len() == 10,
        "[[peer]]"@.len() == 8,
        "[[peer]]"@[0] == '[',
        "[[peer]]"@[7] == ']',
        crate::text::plain("[[peer]]"@),
        "id"@.len() == 2,
        "name"@.len() == 4,
        "host_endpoint"@.len() == 13,
        "client_endpoint"@.len() == 15,
        "placement"@.len() == 9,
        "persistent_permissions"@.len() == 22,
        "psk"@.len() == 3,
        "capture_restore_token"@.len() == 21,
        "remote_restore_token"@.len() == 20,
        is_key("schema_version"@),
        is_key("local_name"@),
        is_key("id"@),
        is_key("name"@),
        is_key("host_endpoint"@),
        is_key("client_endpoint"@),
        is_key("placement"@),
        is_key("persistent_permissions"@),
        is_key("psk"@),
        is_key("capture_restore_token"@),
        is_key("remote_restore_token"@),
{
    reveal_strlit("schema_version");
    reveal_strlit("local_name");
    reveal_strlit("[[peer]]");
    reveal_strlit("id");
    reveal_strlit("name");
    reveal_strlit("host_endpoint");
    reveal_strlit("client_endpoint");
    reveal_strlit("placement");
    reveal_strlit("persistent_permissions");
    reveal_strlit("psk");
    reveal_strlit("capture_restore_token");
    reveal_strlit("remote_restore_token");
}

/// Lower-case letters and underscores.
spec fn is_key(key: Seq<char>) -> bool {
    key.len() > 0 && forall|i: int|
        0 <= i < key.len() ==> ('a' <= #[trigger] key[i] <= 'z' || key[i] == '_')
}

/// A value that survives trimming behind its key.
spec fn is_value(value: Seq<char>) -> bool {
    crate::text::plain(value) && (value.len() > 0 ==> value.last() != ' ')
}

proof fn lemma_entry(key: Seq<char>, value: Seq<char>)
    requires
        is_key(key),
        is_value(value),
    ensures
        crate::text::plain(crate::text::entry(key, value)),
        crate::text::trimmed(crate::text::entry(key, value)) == crate::text::entry(key, value),
        crate::text::find(crate::text::entry(key, value), '=') == key.len(),
        crate::text::entry(key, value).take(key.len() as int) == key,
        crate::text::entry(key, value).skip(key.len() as int + 1) == value,
        crate::text::entry(key, value).len() > key.len(),
        crate::text::entry(key, value)[0] != '#',
        crate::text::entry(key, value)[0] != '[',
{
    let line = crate::text::entry(key, value);
    assert forall|i: int| 0 <= i < line.len() implies crate::text::is_plain_char(
        #[trigger] line[i],
    ) by {
        if i < key.len() {
            assert(line[i] == key[i]);
        } else if i > key.len() {
            assert(line[i] == value[i - key.len() - 1]);
        }
    }
    crate::text::lemma_plain(line);
    assert(line[0] == key[0]);
    assert(line.last() == if value.len() > 0 {
        value.last()
    } else {
        '='
    });
    assert(!crate::text::is_white(line[0]));
    assert(!crate::text::is_white(line[line.len() - 1]));
    crate::text::lemma_trimmed_is_stable(line);
    assert forall|j: int| 0 <= j < key.len() implies line[j] != '=' by {
        assert(line[j] == key[j]);
    }
    crate::text::lemma_find_at(line, '=', key.len() as int);
    assert(line.take(key.len() as int) =~= key);
    assert(line.skip(key.len() as int + 1) =~= value);
}

/// Reading the entry of a record.
proof fn lemma_read_entry(
    reading: ReadingView,
    draft: DraftView,
    key: Seq<char>,
    value: Seq<char>,
    lines: Seq<Seq<char>>,
    i: int,
    next: DraftView,
)
    requires
        is_key(key),
        is_value(value),
        0 <= i < lines.len(),
        lines[i] == crate::text::entry(key, value),
        reading.current == Some(draft),
        draft_set(draft, key, value, i + 1) == Ok::<DraftView, FaultView>(next),
    ensures
        lines_read(reading, lines, i) == lines_read(
            ReadingView { current: Some(next), ..reading },
            lines,
            i + 1,
        ),
{
    lemma_entry(key, value);
    lemma_words();
}

/// The complete record of a peer.
spec fn draft_of(peer: PeerView) -> DraftView {
    DraftView {
        id: Some(peer.id),
        name: Some(peer.name),
        host_endpoint: Some(peer.host_endpoint),
        client_endpoint: Some(peer.client_endpoint),
        placement: Some(peer.placement),
        persistent_permissions: Some(peer.persistent_permissions),
        psk: Some(peer.psk),
        capture: peer.capture,
        remote: peer.remote,
    }
}

/// A peer whose record can be written and read back: valid, with a key of the
/// right size, a name that does not end in a space and endpoints without flow
/// information.
pub open spec fn is_writable(peer: PeerView) -> bool {
    &&& peer_fault(peer) is None
    &&& peer.psk.len() == 32
    &&& peer.name.last() != ' '
    &&& crate::endpoint::says_all(peer.host_endpoint)
    &&& crate::endpoint::says_all(peer.client_endpoint)
}

proof fn lemma_token_value(token: Seq<char>, line: int)
    requires
        is_restore_token(token),
    ensures
        is_value(crate::text::hex_text(crate::text::utf8(token))),
        token_denoted(crate::text::hex_text(crate::text::utf8(token)), line) == Ok::<
            Seq<char>,
            FaultView,
        >(token),
{
    let bytes = crate::text::utf8(token);
    crate::text::law_hex_round_trip(bytes);
    crate::text::lemma_utf8_round_trip(token);
    lemma_hex_value_text(bytes);
}

proof fn lemma_hex_value_text(bytes: Seq<u8>)
    ensures
        is_value(crate::text::hex_text(bytes)),
{
    crate::text::law_hex_round_trip(bytes);
    let s = crate::text::hex_text(bytes);
    assert forall|i: int| 0 <= i < s.len() implies crate::text::is_plain_char(
        #[trigger] s[i],
    ) by {
        assert(crate::text::is_hex_digit(s[i]));
    }
    if s.len() > 0 {
        assert(crate::text::is_hex_digit(s[s.len() - 1]));
    }
}

proof fn lemma_peer_values(peer: PeerView)
    requires
        is_writable(peer),
    ensures
        is_value(peer.id),
        is_value(peer.name),
        is_value(crate::endpoint::endpoint_text(peer.host_endpoint)),
        is_value(crate::endpoint::endpoint_text(peer.client_endpoint)),
        is_value(placement_text(peer.placement)),
        is_value(crate::text::bool_text(peer.persistent_permissions)),
        is_value(crate::text::hex_text(peer.psk)),
        psk_denoted(crate::text::hex_text(peer.psk)) == Some(peer.psk),
{
    assert(is_value(peer.id)) by {
        assert forall|i: int| 0 <= i < peer.id.len() implies crate::text::is_plain_char(
            #[trigger] peer.id[i],
        ) by {
            assert(crate::text::is_hex_digit(peer.id[i]));
        }
        assert(crate::text::is_hex_digit(peer.id[31]));
    }
    assert(is_value(peer.name)) by {
        assert forall|i: int| 0 <= i < peer.name.len() implies crate::text::is_plain_char(
            #[trigger] peer.name[i],
        ) by {
            assert(is_name_char(peer.name[i]));
        }
    }
    crate::endpoint::lemma_endpoint_text_plain(peer.host_endpoint);
    crate::endpoint::lemma_endpoint_text_plain(peer.client_endpoint);
    lemma_word_values(peer.placement, peer.persistent_permissions);
    lemma_hex_value_text(peer.psk);
    crate::text::law_hex_round_trip(peer.psk);
}

proof fn lemma_word_values(placement: RelativePlacement, persistent: bool)
    ensures
        is_value(placement_text(placement)),
        is_value(crate::text::bool_text(persistent)),
{
    lemma_placement_words(placement);
    let word = placement_text(placement);
    assert('a' <= word[word.len() - 1] <= 'z');
    reveal_strlit("true");
    reveal_strlit("false");
}

/// Reading an optional token line.
proof fn lemma_read_capture(
    reading: ReadingView,
    draft: DraftView,
    token: Option<Seq<char>>,
    lines: Seq<Seq<char>>,
    i: int,
)
    requires
        is_optional_token(token),
        reading.current == Some(draft),
        draft.capture is None,
        0 <= i,
        token is Some ==> i < lines.len() && lines[i] == token_lines(
            "capture_restore_token"@,
            token,
        )[0],
    ensures
        lines_read(reading, lines, i) == lines_read(
            ReadingView { current: Some(DraftView { capture: token, ..draft }), ..reading },
            lines,
            i + token_lines("capture_restore_token"@, token).len(),
        ),
{
    lemma_words();
    if let Some(t) = token {
        lemma_token_value(t, i + 1);
        lemma_read_entry(
            reading,
            draft,
            "capture_restore_token"@,
            crate::text::hex_text(crate::text::utf8(t)),
            lines,
            i,
            DraftView { capture: token, ..draft },
        );
    } else {
        assert(ReadingView { current: Some(DraftView { capture: token, ..draft }), ..reading }
            == reading);
    }
}

proof fn lemma_read_remote(
    reading: ReadingView,
    draft: DraftView,
    token: Option<Seq<char>>,
    lines: Seq<Seq<char>>,
    i: int,
)
    requires
        is_optional_token(token),
        reading.current == Some(draft),
        draft.remote is None,
        0 <= i,
        token is Some ==> i < lines.len() && lines[i] == token_lines(
            "remote_restore_token"@,
            token,
        )[0],
    ensures
        lines_read(reading, lines, i) == lines_read(
            ReadingView { current: Some(DraftView { remote: token, ..draft }), ..reading },
            lines,
            i + token_lines("remote_restore_token"@, token).len(),
        ),
{
    lemma_words();
    if let Some(t) = token {
        lemma_token_value(t, i + 1);
        lemma_read_entry(
            reading,
            draft,
            "remote_restore_token"@,
            crate::text::hex_text(crate::text::utf8(t)),
            lines,
            i,
            DraftView { remote: token, ..draft },
        );
    } else {
        assert(ReadingView { current: Some(DraftView { remote: token, ..draft }), ..reading }
            == reading);
    }
}

/// Reading the heading of a peer completes the record before it.
proof fn lemma_read_heading(reading: ReadingView, next: ReadingView, lines: Seq<Seq<char>>, i: int)
    requires
        closed_record(reading) == Ok::<ReadingView, FaultView>(next),
        0 <= i,
        i + 1 < lines.len(),
        lines[i] == Seq::<char>::empty(),
        lines[i + 1] == "[[peer]]"@,
    ensures
        lines_read(reading, lines, i) == lines_read(
            ReadingView { current: Some(empty_draft()), ..next },
            lines,
            i + 2,
        ),
{
    lemma_words();
    assert(crate::text::trimmed(Seq::<char>::empty()) =~= Seq::<char>::empty());
    assert(line_read(reading, lines[i], i + 1) == Ok::<ReadingView, FaultView>(reading));
    crate::text::lemma_trimmed_is_stable("[[peer]]"@);
    let r1 = ReadingView { current: Some(empty_draft()), ..next };
    assert(line_read(reading, lines[i + 1], i + 2) == Ok::<ReadingView, FaultView>(r1));
    assert(lines_read(reading, lines, i) == lines_read(reading, lines, i + 1));
    assert(lines_read(reading, lines, i + 1) == lines_read(r1, lines, i + 2));
}

/// The record of a peer up to its endpoints.
spec fn named_draft(peer: PeerView) -> DraftView {
    DraftView {
        id: Some(peer.id),
        name: Some(peer.name),
        host_endpoint: Some(peer.host_endpoint),
        client_endpoint: Some(peer.client_endpoint),
        ..empty_draft()
    }
}

proof fn lemma_read_names(
    reading: ReadingView,
    peer: PeerView,
    lines: Seq<Seq<char>>,
    i: int,
)
    requires
        is_writable(peer),
        reading.current == Some(empty_draft()),
        0 <= i,
        i + 3 < lines.len(),
        lines[i] == crate::text::entry("id"@, peer.id),
        lines[i + 1] == crate::text::entry("name"@, peer.name),
        lines[i + 2] == crate::text::entry(
            "host_endpoint"@,
            crate::endpoint::endpoint_text(peer.host_endpoint),
        ),
        lines[i + 3] == crate::text::entry(
            "client_endpoint"@,
            crate::endpoint::endpoint_text(peer.client_endpoint),
        ),
    ensures
        lines_read(reading, lines, i) == lines_read(
            ReadingView { current: Some(named_draft(peer)), ..reading },
            lines,
            i + 4,
        ),
{
    lemma_words();
    lemma_peer_values(peer);
    let d1 = DraftView { id: Some(peer.id), ..empty_draft() };
    lemma_read_entry(reading, empty_draft(), "id"@, peer.id, lines, i, d1);
    let r1 = ReadingView { current: Some(d1), ..reading };
    let d2 = DraftView { name: Some(peer.name), ..d1 };
    lemma_read_entry(r1, d1, "name"@, peer.name, lines, i + 1, d2);
    let r2 = ReadingView { current: Some(d2), ..reading };
    let host = crate::endpoint::endpoint_text(peer.host_endpoint);
    crate::endpoint::law_endpoint_text_round_trip(peer.host_endpoint);
    let d3 = DraftView { host_endpoint: Some(peer.host_endpoint), ..d2 };
    lemma_read_entry(r2, d2, "host_endpoint"@, host, lines, i + 2, d3);
    let r3 = ReadingView { current: Some(d3), ..reading };
    let client = crate::endpoint::endpoint_text(peer.client_endpoint);
    crate::endpoint::law_endpoint_text_round_trip(peer.client_endpoint);
    lemma_read_entry(r3, d3, "client_endpoint"@, client, lines, i + 3, named_draft(peer));
}

/// The record of a peer without its tokens.
spec fn keyed_draft(peer: PeerView) -> DraftView {
    DraftView {
        placement: Some(peer.placement),
        persistent_permissions: Some(peer.persistent_permissions),
        psk: Some(peer.psk),
        ..named_draft(peer)
    }
}

#[verifier::spinoff_prover]
#[verifier::rlimit(60)]
proof fn lemma_read_keys(reading: ReadingView, peer: PeerView, lines: Seq<Seq<char>>, i: int)
    requires
        is_writable(peer),
        reading.current == Some(named_draft(peer)),
        0 <= i,
        i + 2 < lines.len(),
        lines[i] == crate::text::entry("placement"@, placement_text(peer.placement)),
        lines[i + 1] == crate::text::entry(
            "persistent_permissions"@,
            crate::text::bool_text(peer.persistent_permissions),
        ),
        lines[i + 2] == crate::text::entry("psk"@, crate::text::hex_text(peer.psk)),
    ensures
        lines_read(reading, lines, i) == lines_read(
            ReadingView { current: Some(keyed_draft(peer)), ..reading },
            lines,
            i + 3,
        ),
{
    lemma_words();
    lemma_peer_values(peer);
    let d0 = named_draft(peer);
    lemma_placement_words(peer.placement);
    let d1 = DraftView { placement: Some(peer.placement), ..d0 };
    lemma_read_entry(reading, d0, "placement"@, placement_text(peer.placement), lines, i, d1);
    let r1 = ReadingView { current: Some(d1), ..reading };
    crate::text::lemma_bool_texts_differ();
    let d2 = DraftView { persistent_permissions: Some(peer.persistent_permissions), ..d1 };
    lemma_read_entry(
        r1,
        d1,
        "persistent_permissions"@,
        crate::text::bool_text(peer.persistent_permissions),
        lines,
        i + 1,
        d2,
    );
    let r2 = ReadingView { current: Some(d2), ..reading };
    lemma_read_entry(
        r2,
        d2,
        "psk"@,
        crate::text::hex_text(peer.psk),
        lines,
        i + 2,
        keyed_draft(peer),
    );
}

/// Reading the lines of a peer completes the record before it and leaves its own.
proof fn lemma_read_peer(
    reading: ReadingView,
    next: ReadingView,
    peer: PeerView,
    lines: Seq<Seq<char>>,
    i: int,
)
    requires
        is_writable(peer),
        closed_record(reading) == Ok::<ReadingView, FaultView>(next),
        0 <= i,
        i + peer_lines(peer).len() <= lines.len(),
        lines.subrange(i, i + peer_lines(peer).len()) == peer_lines(peer),
    ensures
        lines_read(reading, lines, i) == lines_read(
            ReadingView { current: Some(draft_of(peer)), ..next },
            lines,
            i + peer_lines(peer).len(),
        ),
{
    let p = peer_lines(peer);
    let captured = token_lines("capture_restore_token"@, peer.capture);
    assert forall|k: int| 0 <= k < p.len() implies lines[i + k] == #[trigger] p[k] by {
        assert(lines.subrange(i, i + p.len())[k] == lines[i + k]);
    }
    assert(p.len() >= 9);
    assert(lines[i] == p[0] && lines[i + 1] == p[1] && lines[i + 2] == p[2] && lines[i + 3] == p[3]
        && lines[i + 4] == p[4] && lines[i + 5] == p[5] && lines[i + 6] == p[6] && lines[i + 7]
        == p[7] && lines[i + 8] == p[8]);
    lemma_read_heading(reading, next, lines, i);
    lemma_read_names(ReadingView { current: Some(empty_draft()), ..next }, peer, lines, i + 2);
    lemma_read_keys(ReadingView { current: Some(named_draft(peer)), ..next }, peer, lines, i + 6);
    let d8 = keyed_draft(peer);
    let r8 = ReadingView { current: Some(d8), ..next };
    if peer.capture is Some {
        assert(p[9] == captured[0]);
        assert(lines[i + 9] == p[9]);
    }
    lemma_read_capture(r8, d8, peer.capture, lines, i + 9);
    let d9 = DraftView { capture: peer.capture, ..d8 };
    let r9 = ReadingView { current: Some(d9), ..next };
    let at = 9 + captured.len();
    if peer.remote is Some {
        assert(p[at as int] == token_lines("remote_restore_token"@, peer.remote)[0]);
        assert(lines[i + at] == p[at as int]);
    }
    lemma_read_remote(r9, d9, peer.remote, lines, i + at);
    assert(DraftView { remote: peer.remote, ..d9 } == draft_of(peer));
}

/// Lines of the first peers stand first.
proof fn lemma_peer_lines_prefix(peers: Seq<PeerView>, k: int)
    requires
        0 <= k <= peers.len(),
    ensures
        all_peer_lines(peers.take(k)).len() <= all_peer_lines(peers).len(),
        all_peer_lines(peers).take(all_peer_lines(peers.take(k)).len() as int) == all_peer_lines(
            peers.take(k),
        ),
    decreases peers.len(),
{
    if k == peers.len() {
        assert(peers.take(k) =~= peers);
        assert(all_peer_lines(peers).take(all_peer_lines(peers).len() as int) =~= all_peer_lines(
            peers,
        ));
    } else {
        let front = peers.drop_last();
        lemma_peer_lines_prefix(front, k);
        assert(front.take(k) =~= peers.take(k));
        let n = all_peer_lines(peers.take(k)).len() as int;
        assert(all_peer_lines(peers).take(n) =~= all_peer_lines(front).take(n));
    }
}

/// What has been read after the first `k` peers.
spec fn reading_after(config: ConfigView, k: int) -> ReadingView {
    ReadingView {
        schema_version: Some(config.schema_version),
        local_name: Some(config.local_name),
        peers: if k == 0 {
            Seq::empty()
        } else {
            config.peers.take(k - 1)
        },
        current: if k == 0 {
            None
        } else {
            Some(draft_of(config.peers[k - 1]))
        },
    }
}

proof fn lemma_closed_after(config: ConfigView, k: int)
    requires
        0 <= k <= config.peers.len(),
        forall|j: int| 0 <= j < config.peers.len() ==> is_writable(#[trigger] config.peers[j]),
    ensures
        closed_record(reading_after(config, k)) == Ok::<ReadingView, FaultView>(
            ReadingView {
                peers: config.peers.take(k),
                current: None,
                ..reading_after(config, k)
            },
        ),
{
    if k > 0 {
        let peer = config.peers[k - 1];
        assert(is_writable(peer));
        assert(draft_peer(draft_of(peer)) == peer);
        assert(config.peers.take(k - 1).push(peer) =~= config.peers.take(k));
    } else {
        assert(config.peers.take(0) =~= Seq::<PeerView>::empty());
    }
}

proof fn lemma_read_peers(config: ConfigView, k: int)
    requires
        0 <= k <= config.peers.len(),
        forall|j: int| 0 <= j < config.peers.len() ==> is_writable(#[trigger] config.peers[j]),
    ensures
        lines_read(reading_after(config, 0), config_lines(config), 2) == lines_read(
            reading_after(config, k),
            config_lines(config),
            2 + all_peer_lines(config.peers.take(k)).len() as int,
        ),
    decreases k,
{
    if k == 0 {
        assert(config.peers.take(0) =~= Seq::<PeerView>::empty());
    } else {
        lemma_read_peers(config, k - 1);
        lemma_closed_after(config, k - 1);
        let peers = config.peers;
        let peer = peers[k - 1];
        assert(is_writable(peer));
        lemma_peer_lines_prefix(peers, k);
        assert(peers.take(k).drop_last() =~= peers.take(k - 1));
        assert(peers.take(k).last() == peer);
        let lines = config_lines(config);
        let all = all_peer_lines(peers);
        let before = all_peer_lines(peers.take(k - 1)).len() as int;
        let n = peer_lines(peer).len() as int;
        assert(all_peer_lines(peers.take(k)) == all_peer_lines(peers.take(k - 1)) + peer_lines(
            peer,
        ));
        assert(lines.subrange(2 + before, 2 + before + n) =~= peer_lines(peer)) by {
            assert forall|j: int| 0 <= j < n implies lines[2 + before + j] == #[trigger] peer_lines(
                peer,
            )[j] by {
                assert(lines[2 + before + j] == all[before + j]);
                assert(all.take(before + n)[before + j] == all[before + j]);
            }
        }
        let next = ReadingView {
            peers: peers.take(k - 1),
            current: None,
            ..reading_after(config, k - 1)
        };
        lemma_read_peer(reading_after(config, k - 1), next, peer, lines, 2 + before);
        assert(ReadingView { current: Some(draft_of(peer)), ..next } == reading_after(config, k));
    }
}

proof fn lemma_peer_lines_plain(peers: Seq<PeerView>)
    requires
        forall|j: int| 0 <= j < peers.len() ==> is_writable(#[trigger] peers[j]),
    ensures
        forall|i: int|
            0 <= i < all_peer_lines(peers).len() ==> crate::text::plain(
                #[trigger] all_peer_lines(peers)[i],
            ),
    decreases peers.len(),
{
    if peers.len() > 0 {
        let front = peers.drop_last();
        let peer = peers.last();
        assert(is_writable(peers[peers.len() - 1]));
        assert forall|j: int| 0 <= j < front.len() implies is_writable(#[trigger] front[j]) by {
            assert(is_writable(peers[j]));
        }
        lemma_peer_lines_plain(front);
        lemma_words();
        lemma_peer_values(peer);
        lemma_entry("id"@, peer.id);
        lemma_entry("name"@, peer.name);
        lemma_entry("host_endpoint"@, crate::endpoint::endpoint_text(peer.host_endpoint));
        lemma_entry("client_endpoint"@, crate::endpoint::endpoint_text(peer.client_endpoint));
        lemma_entry("placement"@, placement_text(peer.placement));
        lemma_entry(
            "persistent_permissions"@,
            crate::text::bool_text(peer.persistent_permissions),
        );
        lemma_entry("psk"@, crate::text::hex_text(peer.psk));
        if let Some(t) = peer.capture {
            lemma_token_value(t, 0);
            lemma_entry(
                "capture_restore_token"@,
                crate::text::hex_text(crate::text::utf8(t)),
            );
        }
        if let Some(t) = peer.remote {
            lemma_token_value(t, 0);
            lemma_entry("remote_restore_token"@, crate::text::hex_text(crate::text::utf8(t)));
        }
        assert forall|i: int| 0 <= i < all_peer_lines(peers).len() implies crate::text::plain(
            #[trigger] all_peer_lines(peers)[i],
        ) by {
            let n = all_peer_lines(front).len();
            if i < n {
                assert(all_peer_lines(peers)[i] == all_peer_lines(front)[i]);
            } else {
                assert(all_peer_lines(peers)[i] == peer_lines(peer)[i - n]);
            }
        }
    }
}

proof fn lemma_valid_peers(peers: Seq<PeerView>, i: int)
    requires
        0 <= i,
        peer_fault_from(peers, i) is None,
    ensures
        forall|j: int| i <= j < peers.len() ==> peer_fault(#[trigger] peers[j]) is None,
    decreases peers.len() - i,
{
    if i < peers.len() {
        lemma_valid_peers(peers, i + 1);
    }
}

/// Reading a written configuration gives the configuration back, for every
/// valid configuration whose names do not end in a space and whose endpoints
/// carry no flow information: trailing spaces of a line are not kept, and flow
/// information is not written.
pub proof fn law_config_round_trip(config: ConfigView)
    requires
        config_fault(config) is None,
        config.local_name.last() != ' ',
        forall|j: int|
            0 <= j < config.peers.len() ==> (#[trigger] config.peers[j]).name.last() != ' '
                && config.peers[j].psk.len() == 32 && crate::endpoint::says_all(
                config.peers[j].host_endpoint,
            ) && crate::endpoint::says_all(config.peers[j].client_endpoint),
    ensures
        config_denoted(config_text(config)) == Ok::<ConfigView, FaultView>(config),
{
    let lines = config_lines(config);
    let peers = config.peers;
    lemma_valid_peers(peers, 0);
    assert forall|j: int| 0 <= j < peers.len() implies is_writable(#[trigger] peers[j]) by {}
    lemma_words();
    let version = crate::text::decimal(config.schema_version as nat);
    crate::text::lemma_decimal(config.schema_version as nat);
    assert(is_value(version)) by {
        assert forall|i: int| 0 <= i < version.len() implies crate::text::is_plain_char(
            #[trigger] version[i],
        ) by {
            assert(crate::text::is_digit(version[i]));
        }
        assert(crate::text::is_digit(version[version.len() - 1]));
    }
    assert(is_value(config.local_name)) by {
        assert forall|i: int| 0 <= i < config.local_name.len() implies crate::text::is_plain_char(
            #[trigger] config.local_name[i],
        ) by {
            assert(is_name_char(config.local_name[i]));
        }
    }
    lemma_entry("schema_version"@, version);
    lemma_entry("local_name"@, config.local_name);
    lemma_peer_lines_plain(peers);
    assert forall|i: int| 0 <= i < lines.len() implies crate::text::is_line(#[trigger] lines[i]) by {
        if i >= 2 {
            assert(lines[i] == all_peer_lines(peers)[i - 2]);
        }
        crate::text::lemma_plain(lines[i]);
        assert(lines[i].len() > 0 ==> lines[i].contains(lines[i].last()));
    }
    crate::text::lemma_lines_of_unlines(lines);
    crate::text::lemma_unsigned_decimal(config.schema_version as nat, u32::MAX as nat);
    let r0 = nothing_read();
    let r1 = ReadingView { schema_version: Some(config.schema_version), ..r0 };
    assert(lines[0] == crate::text::entry("schema_version"@, version));
    assert(lines[1] == crate::text::entry("local_name"@, config.local_name));
    assert(line_read(r0, lines[0], 1) == Ok::<ReadingView, FaultView>(r1));
    let r2 = ReadingView { local_name: Some(config.local_name), ..r1 };
    assert(line_read(r1, lines[1], 2) == Ok::<ReadingView, FaultView>(r2));
    assert(lines_read(r0, lines, 0) == lines_read(r1, lines, 1));
    assert(lines_read(r1, lines, 1) == lines_read(r2, lines, 2));
    assert(r2 == reading_after(config, 0));
    lemma_read_peers(config, peers.len() as int);
    assert(peers.take(peers.len() as int) =~= peers);
    lemma_closed_after(config, peers.len() as int);
    assert(lines.len() == 2 + all_peer_lines(peers).len());
}

// Uniqueness.

proof fn lemma_no_duplicates(peers: Seq<PeerView>, i: int)
    requires
        0 <= i,
        duplicate_from(peers, i) is None,
    ensures
        forall|j: int, k: int|
            0 <= j < k < peers.len() && i <= k ==> !(#[trigger] crate::text::same_ignoring_case(
                peers[j].id,
                peers[k].id,
            )),
    decreases peers.len() - i,
{
    if i < peers.len() {
        lemma_no_duplicates(peers, i + 1);
        assert forall|j: int, k: int|
            0 <= j < k < peers.len() && i <= k implies !(
        #[trigger] crate::text::same_ignoring_case(peers[j].id, peers[k].id)) by {
            if k == i {
                assert(peers.take(i)[j] == peers[j]);
            }
        }
    }
}

/// In a valid configuration no two peers share an id, whatever the case of its
/// letters, so looking a peer up by its id finds that peer.
pub proof fn law_valid_ids_are_unique(config: ConfigView, i: int)
    requires
        config_fault(config) is None,
        0 <= i < config.peers.len(),
    ensures
        forall|j: int|
            0 <= j < config.peers.len() && j != i ==> !(#[trigger] crate::text::same_ignoring_case(
                config.peers[j].id,
                config.peers[i].id,
            )),
        peer_index(config.peers, config.peers[i].id) == i,
{
    lemma_no_duplicates(config.peers, 0);
    assert forall|j: int| 0 <= j < config.peers.len() && j != i implies !(
    #[trigger] crate::text::same_ignoring_case(config.peers[j].id, config.peers[i].id)) by {
        if j > i {
            assert(crate::text::same_ignoring_case(config.peers[i].id, config.peers[j].id)
                == crate::text::same_ignoring_case(config.peers[j].id, config.peers[i].id));
        }
    }
    lemma_index_found(config.peers, config.peers[i].id, 0, i);
}

proof fn lemma_index_found(peers: Seq<PeerView>, id: Seq<char>, from: int, i: int)
    requires
        0 <= from <= i < peers.len(),
        crate::text::same_ignoring_case(peers[i].id, id),
        forall|j: int|
            from <= j < i ==> !(#[trigger] crate::text::same_ignoring_case(peers[j].id, id)),
    ensures
        peer_index_from(peers, id, from) == i,
    decreases i - from,
{
    if from < i {
        assert(!crate::text::same_ignoring_case(peers[from].id, id));
        lemma_index_found(peers, id, from + 1, i);
    }
}

/// The superseded peers are exactly those with the given client endpoint; the
/// others stay, in their order.
pub proof fn law_superseded_peers(peers: Seq<PeerView>, client: Endpoint)
    ensures
        without_client(peers, client).len() <= peers.len(),
        forall|i: int|
            0 <= i < without_client(peers, client).len() ==> (#[trigger] without_client(
                peers,
                client,
            )[i]).client_endpoint != client && peers.contains(without_client(peers, client)[i]),
        forall|i: int|
            0 <= i < peers.len() && (#[trigger] peers[i]).client_endpoint != client
                ==> without_client(peers, client).contains(peers[i]),
    decreases peers.len(),
{
    if peers.len() > 0 {
        let front = peers.drop_last();
        let kept = without_client(peers, client);
        let before = without_client(front, client);
        law_superseded_peers(front, client);
        assert forall|i: int| 0 <= i < kept.len() implies (#[trigger] kept[i]).client_endpoint
            != client && peers.contains(kept[i]) by {
            if i < before.len() {
                assert(kept[i] == before[i]);
                let j = choose|j: int| 0 <= j < front.len() && front[j] == before[i];
                assert(peers[j] == kept[i]);
            } else {
                assert(kept[i] == peers[peers.len() - 1]);
            }
        }
        assert forall|i: int|
            0 <= i < peers.len() && (#[trigger] peers[i]).client_endpoint
                != client implies kept.contains(peers[i]) by {
            if i < front.len() {
                assert(front[i] == peers[i]);
                let j = choose|j: int| 0 <= j < before.len() && before[j] == front[i];
                assert(kept[j] == peers[i]);
            } else {
                assert(kept[kept.len() - 1] == peers[i]);
            }
        }
    }
}

spec fn distinct_ids(peers: Seq<PeerView>) -> bool {
    forall|j: int, k: int|
        0 <= j < k < peers.len() ==> !(#[trigger] crate::text::same_ignoring_case(
            peers[j].id,
            peers[k].id,
        ))
}

proof fn lemma_kept_distinct(peers: Seq<PeerView>, client: Endpoint)
    requires
        distinct_ids(peers),
    ensures
        distinct_ids(without_client(peers, client)),
    decreases peers.len(),
{
    if peers.len() > 0 {
        let front = peers.drop_last();
        let kept = without_client(peers, client);
        let before = without_client(front, client);
        assert(distinct_ids(front)) by {
            assert forall|j: int, k: int| 0 <= j < k < front.len() implies !(
            #[trigger] crate::text::same_ignoring_case(front[j].id, front[k].id)) by {
                assert(!crate::text::same_ignoring_case(peers[j].id, peers[k].id));
            }
        }
        lemma_kept_distinct(front, client);
        law_superseded_peers(front, client);
        if peers.last().client_endpoint != client {
            assert forall|j: int, k: int| 0 <= j < k < kept.len() implies !(
            #[trigger] crate::text::same_ignoring_case(kept[j].id, kept[k].id)) by {
                assert(kept[j] == before[j]);
                if k < before.len() {
                    assert(kept[k] == before[k]);
                } else {
                    let i = choose|i: int| 0 <= i < front.len() && front[i] == before[j];
                    assert(!crate::text::same_ignoring_case(
                        peers[i].id,
                        peers[peers.len() - 1].id,
                    ));
                }
            }
        }
    }
}

proof fn lemma_distinct_has_no_duplicate(peers: Seq<PeerView>, i: int)
    requires
        0 <= i,
        distinct_ids(peers),
    ensures
        duplicate_from(peers, i) is None,
    decreases peers.len() - i,
{
    if i < peers.len() {
        assert forall|j: int| 0 <= j < i implies !(#[trigger] crate::text::same_ignoring_case(
            peers.take(i)[j].id,
            peers[i].id,
        )) by {
            assert(!crate::text::same_ignoring_case(peers[j].id, peers[i].id));
        }
        lemma_distinct_has_no_duplicate(peers, i + 1);
    }
}

proof fn lemma_all_valid(peers: Seq<PeerView>, i: int)
    requires
        0 <= i,
        forall|j: int| i <= j < peers.len() ==> peer_fault(#[trigger] peers[j]) is None,
    ensures
        peer_fault_from(peers, i) is None,
    decreases peers.len() - i,
{
    if i < peers.len() {
        lemma_all_valid(peers, i + 1);
    }
}

/// Adding a valid peer with a new id to a valid configuration leaves a valid
/// configuration, with the new peer as the only one at its client endpoint.
pub proof fn law_adding_keeps_valid(config: ConfigView, peer: PeerView)
    requires
        config_fault(config) is None,
        peer_fault(peer) is None,
        !id_taken(config.peers, peer.id),
    ensures
        ({
            let after = ConfigView {
                peers: without_client(config.peers, peer.client_endpoint).push(peer),
                ..config
            };
            &&& config_fault(after) is None
            &&& forall|i: int|
                0 <= i < after.peers.len() - 1 ==> (#[trigger] after.peers[i]).client_endpoint
                    != peer.client_endpoint
        }),
{
    let kept = without_client(config.peers, peer.client_endpoint);
    let after = kept.push(peer);
    law_superseded_peers(config.peers, peer.client_endpoint);
    lemma_no_duplicates(config.peers, 0);
    lemma_kept_distinct(config.peers, peer.client_endpoint);
    lemma_valid_peers(config.peers, 0);
    assert forall|j: int| 0 <= j < after.len() implies peer_fault(#[trigger] after[j]) is None by {
        if j < kept.len() {
            assert(config.peers.contains(kept[j]));
            let i = choose|i: int| 0 <= i < config.peers.len() && config.peers[i] == kept[j];
            assert(peer_fault(config.peers[i]) is None);
        }
    }
    lemma_all_valid(after, 0);
    assert forall|j: int, k: int| 0 <= j < k < after.len() implies !(
    #[trigger] crate::text::same_ignoring_case(after[j].id, after[k].id)) by {
        assert(after[j] == kept[j]);
        if k < kept.len() {
            assert(after[k] == kept[k]);
        } else {
            assert(config.peers.contains(kept[j]));
            let i = choose|i: int| 0 <= i < config.peers.len() && config.peers[i] == kept[j];
            assert(!crate::text::same_ignoring_case(config.peers[i].id, peer.id));
        }
    }
    lemma_distinct_has_no_duplicate(after, 0);
    assert forall|i: int| 0 <= i < after.len() - 1 implies (#[trigger] after[i]).client_endpoint
        != peer.client_endpoint by {
        assert(after[i] == kept[i]);
    }
}

// Files around the configuration.

/// A path with one more component.
pub open spec fn joined_path(root: Seq<u8>, name: Seq<char>) -> Seq<u8> {
    if root.len() == 0 || root.last() == 47 {
        root + crate::text::utf8(name)
    } else {
        root.push(47u8) + crate::text::utf8(name)
    }
}

fn join_path(root: &mut Vec<u8>, name: &str)
    ensures
        final(root)@ == joined_path(old(root)@, name@),
{
    if root.len() > 0 && root[root.len() - 1] != 47 {
        root.push(47);
    }
    crate::wire::put_bytes(root, name.as_bytes());
}

/// Where the configuration file stands: under the configuration home, or
/// under `.config` of the home directory.
pub fn default_config_path(xdg_config_home: Option<Vec<u8>>, home: Option<Vec<u8>>) -> (result:
    Result<Vec<u8>, ConfigError>)
    ensures
        ({
            let file = |root: Seq<u8>|
                joined_path(joined_path(root, "cachybridge"@), "config.v4"@);
            match (xdg_config_home, home, result) {
                (Some(root), _, Ok(path)) => path@ == file(root@),
                (None, Some(root), Ok(path)) => path@ == file(joined_path(root@, ".config"@)),
                (None, None, Err(error)) => error@ == FaultView::Io(
                    "XDG_CONFIG_HOME and HOME are both unset"@,
                ),
                _ => false,
            }
        }),
{
    let mut path: Vec<u8>;
    match xdg_config_home {
        Some(root) => {
            path = root;
        },
        None => match home {
            Some(root) => {
                path = root;
                join_path(&mut path, ".config");
            },
            None => {
                return Err(
                    ConfigError::Io("XDG_CONFIG_HOME and HOME are both unset".to_owned()),
                );
            },
        },
    }
    join_path(&mut path, "cachybridge");
    join_path(&mut path, "config.v4");
    Ok(path)
}

/// Whether a file mode gives group or others any access.
pub open spec fn is_private_mode(mode: u32) -> bool {
    mode & 0o077 == 0
}

pub fn ensure_private(mode: u32) -> (result: Result<(), ConfigError>)
    ensures
        outcome(
            result,
            if is_private_mode(mode) {
                None
            } else {
                Some(FaultView::InsecurePermissions)
            },
        ),
{
    if mode & 0o077 != 0 {
        Err(ConfigError::InsecurePermissions)
    } else {
        Ok(())
    }
}

/// What came of reading the configuration file.
#[derive(Clone)]
pub enum FileRead {
    Missing,
    Failed(String),
    Found { text: String, mode: u32 },
}

/// The configuration that a read file holds; the default one where there is
/// no file. A file that others can read is refused before it is parsed.
pub fn loaded_config(read: FileRead) -> (result: Result<BridgeConfig, ConfigError>)
    ensures
        match read {
            FileRead::Missing => result matches Ok(config) && config@ == (ConfigView {
                schema_version: CONFIG_VERSION,
                local_name: "This computer"@,
                peers: Seq::empty(),
            }),
            FileRead::Failed(text) => result matches Err(error) && error@ == FaultView::Io(text@),
            FileRead::Found { text, mode } => match result {
                Ok(config) => is_private_mode(mode) && config_denoted(text@) == Ok::<
                    ConfigView,
                    FaultView,
                >(config@),
                Err(error) => if is_private_mode(mode) {
                    config_denoted(text@) == Err::<ConfigView, FaultView>(error@)
                } else {
                    error@ == FaultView::InsecurePermissions
                },
            },
        },
{
    match read {
        FileRead::Missing => Ok(BridgeConfig::default()),
        FileRead::Failed(text) => Err(ConfigError::Io(text)),
        FileRead::Found { text, mode } => match ensure_private(mode) {
            Ok(_) => BridgeConfig::parse(text.as_str()),
            Err(error) => Err(error),
        },
    }
}

/// A fresh long-term key. Nothing is promised of its value.
pub fn generate_pairing_psk() -> (psk: [u8; 32]) {
    to_array32(random_bytes(32).as_slice())
}

/// The id written for sixteen bytes.
pub fn peer_id_of(bytes: &[u8]) -> (id: String)
    requires
        bytes.len() == 16,
    ensures
        id@ == crate::text::hex_text(bytes@),
        is_peer_id(id@),
{
    proof {
        crate::text::law_hex_round_trip(bytes@);
    }
    hex_encode(bytes)
}

/// A fresh peer id.
pub fn generate_peer_id() -> (id: String)
    ensures
        is_peer_id(id@),
{
    peer_id_of(random_bytes(16).as_slice())
}

/// Contents of a pairing token file.
pub fn pairing_token_text(psk: &[u8; 32]) -> (text: String)
    ensures
        text@ == crate::text::hex_text(psk@).push('\n'),
{
    let mut text = hex_encode(psk.as_slice());
    text.push('\n');
    text
}

/// The key in a pairing token file, which must be private.
pub fn pairing_token_psk(text: &str, mode: u32) -> (result: Result<[u8; 32], ConfigError>)
    ensures
        match result {
            Ok(psk) => is_private_mode(mode) && psk_denoted(crate::text::trimmed(text@)) == Some(
                psk@,
            ),
            Err(error) => if is_private_mode(mode) {
                psk_denoted(crate::text::trimmed(text@)) is None && error@ == bad_psk()
            } else {
                error@ == FaultView::InsecurePermissions
            },
        },
{
    match ensure_private(mode) {
        Ok(_) => {},
        Err(error) => {
            return Err(error);
        },
    }
    let value = to_text(trim_chars(to_chars(text).as_slice()).as_slice());
    parse_psk(value.as_str())
}

/// A written pairing token is read back.
pub proof fn law_pairing_token_round_trip(psk: Seq<u8>)
    requires
        psk.len() == 32,
    ensures
        psk_denoted(crate::text::trimmed(crate::text::hex_text(psk).push('\n'))) == Some(psk),
{
    let hex = crate::text::hex_text(psk);
    crate::text::law_hex_round_trip(psk);
    lemma_hex_value_text(psk);
    let s = hex.push('\n');
    assert(crate::text::is_hex_digit(hex[0]));
    assert(crate::text::is_hex_digit(hex[63]));
    assert(s[0] == hex[0]);
    assert(s.drop_last() =~= hex);
    assert(crate::text::trim_start(s) == s);
    assert(crate::text::trim_end(s) == crate::text::trim_end(hex));
    assert(hex.last() == hex[63]);
}

/// Placements are named by four words, and by no others.
pub proof fn law_placements_are_words(word: Seq<char>)
    ensures
        placement_named(word) == Some(RelativePlacement::Left) <==> word == seq!['l', 'e', 'f', 't'],
        placement_named(word) == Some(RelativePlacement::Right) <==> word == seq![
            'r',
            'i',
            'g',
            'h',
            't',
        ],
        placement_named(word) == Some(RelativePlacement::Above) <==> word == seq![
            'a',
            'b',
            'o',
            'v',
            'e',
        ],
        placement_named(word) == Some(RelativePlacement::Below) <==> word == seq![
            'b',
            'e',
            'l',
            'o',
            'w',
        ],
        placement_named(word) matches Some(placement) ==> placement_text(placement) == word,
{
    reveal_strlit("left");
    reveal_strlit("right");
    reveal_strlit("above");
    reveal_strlit("below");
    assert("left"@ =~= seq!['l', 'e', 'f', 't']);
    assert("right"@ =~= seq!['r', 'i', 'g', 'h', 't']);
    assert("above"@ =~= seq!['a', 'b', 'o', 'v', 'e']);
    assert("below"@ =~= seq!['b', 'e', 'l', 'o', 'w']);
    assert("left"@.len() == 4);
    assert("right"@.len() == 5 && "above"@.len() == 5 && "below"@.len() == 5);
    assert("right"@[0] == 'r' && "above"@[0] == 'a' && "below"@[0] == 'b');
}

/// A name that can be shown: one to eighty characters, each of them an ASCII
/// letter, a digit, a space, a dot, a dash or an underscore.
pub open spec fn can_be_shown(name: Seq<char>) -> bool {
    1 <= name.len() <= 80 && forall|i: int|
        0 <= i < name.len() ==> ('a' <= #[trigger] name[i] <= 'z' || 'A' <= name[i] <= 'Z' || '0'
            <= name[i] <= '9' || name[i] == ' ' || name[i] == '.' || name[i] == '-' || name[i]
            == '_')
}

/// A token that can be stored: not empty, of at most 16384 bytes, on one line and
/// without NUL.
pub open spec fn can_be_stored(token: Seq<char>) -> bool {
    token.len() > 0 && crate::text::utf8(token).len() <= 16384 && forall|i: int|
        0 <= i < token.len() ==> #[trigger] token[i] != '\n' && token[i] != '\r' && token[i] != '\0'
}

pub proof fn law_names_and_tokens(name: Seq<char>, token: Seq<char>)
    ensures
        is_display_name(name) <==> can_be_shown(name),
        is_restore_token(token) <==> can_be_stored(token),
{
    if is_display_name(name) {
        assert forall|i: int| 0 <= i < name.len() implies ('a' <= #[trigger] name[i] <= 'z' || 'A'
            <= name[i] <= 'Z' || '0' <= name[i] <= '9' || name[i] == ' ' || name[i] == '.'
            || name[i] == '-' || name[i] == '_') by {
            assert(is_name_char(name[i]));
        }
    }
    if can_be_shown(name) {
        assert forall|i: int| 0 <= i < name.len() implies #[trigger] is_name_char(name[i]) by {
            assert(name[i] == name[i]);
        }
    }
    if can_be_stored(token) {
        if token.contains('\n') {
            let i = choose|i: int| 0 <= i < token.len() && token[i] == '\n';
            assert(token[i] != '\n');
        }
        if token.contains('\r') {
            let i = choose|i: int| 0 <= i < token.len() && token[i] == '\r';
            assert(token[i] != '\n');
        }
        if token.contains('\0') {
            let i = choose|i: int| 0 <= i < token.len() && token[i] == '\0';
            assert(token[i] != '\n');
        }
    }
}

/// A peer is accepted exactly if its id is thirty-two hexadecimal digits, its
/// name can be shown, both of its endpoints have an address and its tokens, if it
/// has any, can be stored.
pub proof fn law_which_peers_are_accepted(peer: PeerView)
    ensures
        peer_fault(peer) is None <==> {
            &&& peer.id.len() == 32
            &&& forall|i: int|
                0 <= i < peer.id.len() ==> ('0' <= #[trigger] peer.id[i] <= '9' || 'a' <= peer.id[i]
                    <= 'f' || 'A' <= peer.id[i] <= 'F')
            &&& can_be_shown(peer.name)
            &&& !peer.host_endpoint.address().unspecified()
            &&& !peer.client_endpoint.address().unspecified()
            &&& peer.capture matches Some(token) ==> can_be_stored(token)
            &&& peer.remote matches Some(token) ==> can_be_stored(token)
        },
{
    law_names_and_tokens(peer.name, peer.capture->0);
    law_names_and_tokens(peer.name, peer.remote->0);
    if is_peer_id(peer.id) {
        assert forall|i: int| 0 <= i < peer.id.len() implies ('0' <= #[trigger] peer.id[i] <= '9'
            || 'a' <= peer.id[i] <= 'f' || 'A' <= peer.id[i] <= 'F') by {
            assert(crate::text::is_hex_digit(peer.id[i]));
        }
    }
    if peer.id.len() == 32 && forall|i: int|
        0 <= i < peer.id.len() ==> ('0' <= #[trigger] peer.id[i] <= '9' || 'a' <= peer.id[i] <= 'f'
            || 'A' <= peer.id[i] <= 'F') {
        assert forall|i: int| 0 <= i < peer.id.len() implies #[trigger] crate::text::is_hex_digit(
            peer.id[i],
        ) by {
            assert(peer.id[i] == peer.id[i]);
        }
    }
}

/// A configuration is accepted exactly if its version is 4, its name can be
/// shown, each of its peers is accepted and no two of them have the same id, the
/// case of letters aside.
pub proof fn law_which_configurations_are_accepted(config: ConfigView)
    ensures
        config_fault(config) is None <==> {
            &&& config.schema_version == 4
            &&& can_be_shown(config.local_name)
            &&& forall|i: int|
                0 <= i < config.peers.len() ==> peer_fault(#[trigger] config.peers[i]) is None
            &&& forall|i: int, j: int|
                0 <= i < j < config.peers.len() ==> !(#[trigger] crate::text::same_ignoring_case(
                    config.peers[i].id,
                    config.peers[j].id,
                ))
        },
{
    law_names_and_tokens(config.local_name, Seq::empty());
    if config_fault(config) is None {
        lemma_valid_peers(config.peers, 0);
        lemma_no_duplicates(config.peers, 0);
    }
    if forall|i: int| 0 <= i < config.peers.len() ==> peer_fault(#[trigger] config.peers[i]) is None {
        lemma_all_valid(config.peers, 0);
        if forall|i: int, j: int|
            0 <= i < j < config.peers.len() ==> !(#[trigger] crate::text::same_ignoring_case(
                config.peers[i].id,
                config.peers[j].id,
            )) {
            lemma_distinct_has_no_duplicate(config.peers, 0);
        }
    }
}

/// Looking up an id finds the first peer that has it, the case of letters
/// aside; an id is taken exactly if there is one.
pub proof fn law_lookup_finds_the_first(peers: Seq<PeerView>, id: Seq<char>)
    ensures
        0 <= peer_index(peers, id) <= peers.len(),
        peer_index(peers, id) < peers.len() ==> crate::text::same_ignoring_case(
            peers[peer_index(peers, id)].id,
            id,
        ),
        forall|i: int|
            0 <= i < peer_index(peers, id) ==> !(#[trigger] crate::text::same_ignoring_case(
                peers[i].id,
                id,
            )),
        id_taken(peers, id) <==> peer_index(peers, id) < peers.len(),
{
    lemma_index_is_first(peers, id, 0);
    if id_taken(peers, id) {
        let j = choose|j: int|
            0 <= j < peers.len() && #[trigger] crate::text::same_ignoring_case(peers[j].id, id);
        assert(crate::text::same_ignoring_case(peers[j].id, id));
    }
}

proof fn lemma_index_is_first(peers: Seq<PeerView>, id: Seq<char>, from: int)
    requires
        0 <= from <= peers.len(),
    ensures
        from <= peer_index_from(peers, id, from) <= peers.len(),
        peer_index_from(peers, id, from) < peers.len() ==> crate::text::same_ignoring_case(
            peers[peer_index_from(peers, id, from)].id,
            id,
        ),
        forall|i: int|
            from <= i < peer_index_from(peers, id, from) ==> !(
            #[trigger] crate::text::same_ignoring_case(peers[i].id, id)),
    decreases peers.len() - from,
{
    if from < peers.len() && !crate::text::same_ignoring_case(peers[from].id, id) {
        lemma_index_is_first(peers, id, from + 1);
    }
}

/// A session's tokens replace those of its peer, or leave them alone; a token
/// that cannot be stored is not taken. Nothing else of the peer changes.
pub proof fn law_tokens_are_replaced(
    peer: PeerView,
    capture: Option<String>,
    remote: Option<String>,
)
    ensures
        ({
            let fits = |token: Option<String>| token matches Some(t) ==> can_be_stored(t@);
            let text = |token: Option<String>| match token {
                Some(t) => Some(t@),
                None => None::<Seq<char>>,
            };
            let replace = |c: RestoreTokenUpdate, r: RestoreTokenUpdate|
                updated_peer(peer, RestoreTokenUpdates { capture: c, remote: r });
            let kept = RestoreTokenUpdate::Unchanged;
            &&& replace(kept, kept) == peer
            &&& fits(capture) ==> replace(RestoreTokenUpdate::Replace(capture), kept) == (PeerView {
                capture: text(capture),
                ..peer
            })
            &&& fits(remote) ==> replace(kept, RestoreTokenUpdate::Replace(remote)) == (PeerView {
                remote: text(remote),
                ..peer
            })
            &&& fits(capture) && fits(remote) ==> replace(
                RestoreTokenUpdate::Replace(capture),
                RestoreTokenUpdate::Replace(remote),
            ) == (PeerView { capture: text(capture), remote: text(remote), ..peer })
            &&& !fits(capture) ==> replace(
                RestoreTokenUpdate::Replace(capture),
                RestoreTokenUpdate::Replace(remote),
            ) == peer
            &&& !fits(remote) ==> replace(kept, RestoreTokenUpdate::Replace(remote)) == peer
        }),
{
    if let Some(t) = capture {
        law_names_and_tokens(Seq::empty(), t@);
    }
    if let Some(t) = remote {
        law_names_and_tokens(Seq::empty(), t@);
    }
}

/// A key is sixty-four hexadecimal digits, two for each of its bytes.
pub proof fn law_keys_are_hexadecimal(value: Seq<char>, i: int)
    requires
        0 <= i < 32,
    ensures
        psk_denoted(value) is Some <==> value.len() == 64 && forall|j: int|
            0 <= j < value.len() ==> ('0' <= #[trigger] value[j] <= '9' || 'a' <= value[j] <= 'f'
                || 'A' <= value[j] <= 'F'),
        psk_denoted(value) matches Some(key) ==> key.len() == 32 && key[i] == 16
            * crate::text::hex_value(value[2 * i]) + crate::text::hex_value(value[2 * i + 1]),
{
    if psk_denoted(value) is Some {
        crate::text::law_hex_text_denotes_bytes(value, i);
        assert forall|j: int| 0 <= j < value.len() implies ('0' <= #[trigger] value[j] <= '9' || 'a'
            <= value[j] <= 'f' || 'A' <= value[j] <= 'F') by {
            assert(crate::text::is_hex_digit(value[j]));
        }
    } else if value.len() == 64 && forall|j: int|
        0 <= j < value.len() ==> ('0' <= #[trigger] value[j] <= '9' || 'a' <= value[j] <= 'f' || 'A'
            <= value[j] <= 'F') {
        assert forall|j: int| 0 <= j < value.len() implies #[trigger] crate::text::is_hex_digit(
            value[j],
        ) by {
            assert(value[j] == value[j]);
        }
    }
}

/// A record is complete exactly if it has an id, a name, both endpoints, a
/// placement and a key that together make an acceptable peer. The peer has what
/// was written, and does not keep permissions unless that was written too.
pub proof fn law_records_make_peers(draft: DraftView)
    ensures
        draft_finished(draft) matches Ok(peer) ==> {
            &&& draft.id == Some(peer.id)
            &&& draft.name == Some(peer.name)
            &&& draft.host_endpoint == Some(peer.host_endpoint)
            &&& draft.client_endpoint == Some(peer.client_endpoint)
            &&& draft.placement == Some(peer.placement)
            &&& draft.psk == Some(peer.psk)
            &&& peer.persistent_permissions <==> draft.persistent_permissions == Some(true)
            &&& peer.capture == draft.capture
            &&& peer.remote == draft.remote
            &&& peer_fault(peer) is None
        },
        draft.id is Some && draft.name is Some && draft.host_endpoint is Some
            && draft.client_endpoint is Some && draft.placement is Some && draft.psk is Some ==> (
        draft_finished(draft) is Ok || exists|peer: PeerView|
            #[trigger] peer_fault(peer) is Some && draft.id == Some(peer.id) && draft.name == Some(
                peer.name,
            ) && draft.host_endpoint == Some(peer.host_endpoint) && draft.client_endpoint == Some(
                peer.client_endpoint,
            ) && peer.capture == draft.capture && peer.remote == draft.remote),
{
    let peer = draft_peer(draft);
    if peer_fault(peer) is Some {
        assert(peer_fault(peer) is Some);
    }
}

/// A field of a record is written once: the first time it is set, a second time
/// is an error, and no other field changes with it.
pub proof fn law_fields_are_set_once(draft: DraftView, value: Seq<char>, line: int)
    ensures
        draft.id is None ==> draft_set(draft, "id"@, value, line) == Ok::<DraftView, FaultView>(
            DraftView { id: Some(value), ..draft },
        ),
        draft.id is Some ==> draft_set(draft, "id"@, value, line) is Err,
        draft.name is None ==> draft_set(draft, "name"@, value, line) == Ok::<DraftView, FaultView>(
            DraftView { name: Some(value), ..draft },
        ),
        draft.name is Some ==> draft_set(draft, "name"@, value, line) is Err,
        draft.host_endpoint is Some ==> draft_set(draft, "host_endpoint"@, value, line) is Err,
        draft.client_endpoint is Some ==> draft_set(draft, "client_endpoint"@, value, line) is Err,
        draft.placement is Some ==> draft_set(draft, "placement"@, value, line) is Err,
        draft.persistent_permissions is Some ==> draft_set(
            draft,
            "persistent_permissions"@,
            value,
            line,
        ) is Err,
        draft.psk is Some ==> draft_set(draft, "psk"@, value, line) is Err,
        draft.capture is Some ==> draft_set(draft, "capture_restore_token"@, value, line) is Err,
        draft.remote is Some ==> draft_set(draft, "remote_restore_token"@, value, line) is Err,
        draft.host_endpoint is None ==> match crate::endpoint::endpoint_denoted(value) {
            Some(endpoint) => draft_set(draft, "host_endpoint"@, value, line) == Ok::<
                DraftView,
                FaultView,
            >(DraftView { host_endpoint: Some(endpoint), ..draft }),
            None => draft_set(draft, "host_endpoint"@, value, line) is Err,
        },
        draft.client_endpoint is None ==> match crate::endpoint::endpoint_denoted(value) {
            Some(endpoint) => draft_set(draft, "client_endpoint"@, value, line) == Ok::<
                DraftView,
                FaultView,
            >(DraftView { client_endpoint: Some(endpoint), ..draft }),
            None => draft_set(draft, "client_endpoint"@, value, line) is Err,
        },
        draft.placement is None ==> match placement_named(value) {
            Some(placement) => draft_set(draft, "placement"@, value, line) == Ok::<
                DraftView,
                FaultView,
            >(DraftView { placement: Some(placement), ..draft }),
            None => draft_set(draft, "placement"@, value, line) is Err,
        },
        draft.persistent_permissions is None && value == "true"@ ==> draft_set(
            draft,
            "persistent_permissions"@,
            value,
            line,
        ) == Ok::<DraftView, FaultView>(DraftView { persistent_permissions: Some(true), ..draft }),
        draft.persistent_permissions is None && value == "false"@ ==> draft_set(
            draft,
            "persistent_permissions"@,
            value,
            line,
        ) == Ok::<DraftView, FaultView>(DraftView { persistent_permissions: Some(false), ..draft }),
        draft.persistent_permissions is None && value != "true"@ && value != "false"@ ==> draft_set(
            draft,
            "persistent_permissions"@,
            value,
            line,
        ) is Err,
        draft.psk is None ==> match psk_denoted(value) {
            Some(key) => draft_set(draft, "psk"@, value, line) == Ok::<DraftView, FaultView>(
                DraftView { psk: Some(key), ..draft },
            ),
            None => draft_set(draft, "psk"@, value, line) is Err,
        },
{
    lemma_words();
    assert("host_endpoint"@.len() == 13 && "client_endpoint"@.len() == 15);
    crate::text::lemma_bool_texts_differ();
}

/// Lines that say nothing are passed over: empty ones, those of white space and
/// those that begin with a number sign.
pub proof fn law_comments_are_passed_over(reading: ReadingView, raw: Seq<char>, number: int)
    requires
        (forall|i: int| 0 <= i < raw.len() ==> crate::text::is_white(#[trigger] raw[i])) || (
        raw.len() > 0 && raw[0] == '#'),
    ensures
        line_read(reading, raw, number) == Ok::<ReadingView, FaultView>(reading),
{
    let ends = crate::text::law_trimming_takes_white_space_off(raw);
    let line = crate::text::trimmed(raw);
    if line.len() > 0 {
        if raw[0] == '#' {
            crate::text::law_white_space('#');
            assert(!crate::text::is_white(raw[0]));
            assert(ends.0 == 0);
            assert(line[0] == raw[0]);
        } else {
            assert(line[0] == raw[ends.0]);
        }
    }
}

/// A line before the first record sets the version or the name, once each.
pub proof fn law_headers_are_set_once(reading: ReadingView, value: Seq<char>, line: int)
    ensures
        reading.local_name is None ==> header_set(reading, "local_name"@, value, line) == Ok::<
            ReadingView,
            FaultView,
        >(ReadingView { local_name: Some(value), ..reading }),
        reading.local_name is Some ==> header_set(reading, "local_name"@, value, line) is Err,
        reading.schema_version is Some ==> header_set(
            reading,
            "schema_version"@,
            value,
            line,
        ) is Err,
        reading.schema_version is None ==> match crate::text::unsigned(value, 4294967295) {
            Some(version) => header_set(reading, "schema_version"@, value, line) == Ok::<
                ReadingView,
                FaultView,
            >(ReadingView { schema_version: Some(version as u32), ..reading }),
            None => header_set(reading, "schema_version"@, value, line) is Err,
        },
{
    lemma_words();
}

/// What a configuration file looks like: the version and the name, then for each
/// peer in order an empty line, the line that begins a record, and its fields.
pub proof fn law_configuration_files(config: ConfigView, i: int)
    requires
        0 <= i < config.peers.len(),
    ensures
        config_lines(config).len() >= 2,
        config_lines(config)[0] == "schema_version="@ + crate::text::decimal(
            config.schema_version as nat,
        ),
        config_lines(config)[1] == "local_name="@ + config.local_name,
        config_lines(config) == config_lines(config).take(2) + all_peer_lines(config.peers),
        all_peer_lines(config.peers.take(i + 1)) == all_peer_lines(config.peers.take(i))
            + peer_lines(config.peers[i]),
        ({
            let peer = config.peers[i];
            let lines = peer_lines(peer);
            &&& lines.len() == 9 + (if peer.capture is Some {
                1int
            } else {
                0
            }) + (if peer.remote is Some {
                1int
            } else {
                0
            })
            &&& lines[0] == Seq::<char>::empty()
            &&& lines[1] == "[[peer]]"@
            &&& lines[2] == "id="@ + peer.id
            &&& lines[3] == "name="@ + peer.name
            &&& lines[4] == "host_endpoint="@ + crate::endpoint::endpoint_text(peer.host_endpoint)
            &&& lines[5] == "client_endpoint="@ + crate::endpoint::endpoint_text(
                peer.client_endpoint,
            )
            &&& lines[6] == "placement="@ + placement_text(peer.placement)
            &&& lines[7] == "persistent_permissions="@ + crate::text::bool_text(
                peer.persistent_permissions,
            )
            &&& lines[8] == "psk="@ + crate::text::hex_text(peer.psk)
            &&& peer.capture matches Some(token) ==> lines[9] == "capture_restore_token="@
                + crate::text::hex_text(crate::text::utf8(token))
            &&& peer.remote matches Some(token) ==> lines.last() == "remote_restore_token="@
                + crate::text::hex_text(crate::text::utf8(token))
        }),
{
    reveal_strlit("schema_version");
    reveal_strlit("schema_version=");
    reveal_strlit("local_name");
    reveal_strlit("local_name=");
    assert("schema_version="@ =~= "schema_version"@ + seq!['=']);
    assert("local_name="@ =~= "local_name"@ + seq!['=']);
    lemma_record_keys();
    assert(config_lines(config) =~= config_lines(config).take(2) + all_peer_lines(config.peers));
    assert(config.peers.take(i + 1).drop_last() =~= config.peers.take(i));
}

proof fn lemma_record_keys()
    ensures
        "id="@ == "id"@ + seq!['='],
        "name="@ == "name"@ + seq!['='],
        "host_endpoint="@ == "host_endpoint"@ + seq!['='],
        "client_endpoint="@ == "client_endpoint"@ + seq!['='],
        "placement="@ == "placement"@ + seq!['='],
        "persistent_permissions="@ == "persistent_permissions"@ + seq!['='],
        "psk="@ == "psk"@ + seq!['='],
        "capture_restore_token="@ == "capture_restore_token"@ + seq!['='],
        "remote_restore_token="@ == "remote_restore_token"@ + seq!['='],
{
    reveal_strlit("id");
    reveal_strlit("id=");
    reveal_strlit("name");
    reveal_strlit("name=");
    reveal_strlit("host_endpoint");
    reveal_strlit("host_endpoint=");
    reveal_strlit("client_endpoint");
    reveal_strlit("client_endpoint=");
    reveal_strlit("placement");
    reveal_strlit("placement=");
    reveal_strlit("persistent_permissions");
    reveal_strlit("persistent_permissions=");
    reveal_strlit("psk");
    reveal_strlit("psk=");
    reveal_strlit("capture_restore_token");
    reveal_strlit("capture_restore_token=");
    reveal_strlit("remote_restore_token");
    reveal_strlit("remote_restore_token=");
}

/// A mutation that went well is one that leaves no fault, one that did not names
/// the fault.
pub proof fn law_outcomes_name_the_fault(error: ConfigError, fault: Option<FaultView>)
    ensures
        outcome(Ok(()), fault) <==> fault is None,
        outcome(Err(error), fault) <==> fault == Some(error@),
{
}

/// A mode is private exactly if its last six bits, those of the group and of
/// others, are all zero.
pub proof fn law_private_modes(mode: u32)
    ensures
        is_private_mode(mode) <==> mode % 64 == 0,
{
    assert((mode & 0o077 == 0) <==> mode % 64 == 0) by (bit_vector);
}

/// A name is joined to a path with one slash between them.
pub proof fn law_paths_are_joined_with_a_slash(root: Seq<u8>, name: Seq<char>)
    ensures
        root.len() > 0 && root.last() != 47 ==> joined_path(root, name) == root + seq![47u8]
            + crate::text::utf8(name),
        joined_path(root.push(47), name) == root + seq![47u8] + crate::text::utf8(name),
        joined_path(Seq::empty(), name) == crate::text::utf8(name),
{
    assert(root.push(47u8) =~= root + seq![47u8]);
    assert(Seq::<u8>::empty() + crate::text::utf8(name) =~= crate::text::utf8(name));
}

/// What is told of a fault says which it is, with the numbers and names it has.
pub proof fn law_faults_are_told(
    version: u32,
    line: int,
    a: Seq<char>,
    b: Seq<char>,
)
    requires
        line >= 0,
    ensures
        fault_message(FaultView::UnsupportedVersion(version))
            == "unsupported config schema version "@ + crate::text::decimal(version as nat),
        fault_message(FaultView::MissingField(a)) == "missing required field "@ + a,
        fault_message(FaultView::InvalidField { field: a, reason: b }) == "invalid "@ + a + ": "@
            + b,
        fault_message(FaultView::Parse { line, reason: a }) == "invalid config at line "@
            + crate::text::decimal(line as nat) + ": "@ + a,
        fault_message(FaultView::DuplicatePeerId(a)) == "duplicate peer id "@ + a,
        fault_message(FaultView::PeerNotFound(a)) == "no configured peer with id "@ + a,
        fault_message(FaultView::Io(a)) == "I/O error: "@ + a,
{
}

/// Logs show no secret: the texts of two peers that differ in their keys and
/// tokens alone are the same, as long as both hold a token or neither does. They
/// show everything else, each part under its name.
pub proof fn law_logs_show_no_secret(
    id: Seq<char>,
    name: Seq<char>,
    host: Endpoint,
    client: Endpoint,
    placement: RelativePlacement,
    persistent: bool,
    a: String,
    b: String,
)
    ensures
        redacted_update(RestoreTokenUpdate::Replace(Some(a))) == redacted_update(
            RestoreTokenUpdate::Replace(Some(b)),
        ),
        redacted_update(RestoreTokenUpdate::Unchanged) == "Unchanged"@,
        redacted_update(RestoreTokenUpdate::Replace(None)) == "Replace(None)"@,
        redacted_update(RestoreTokenUpdate::Replace(Some(a))) == "Replace(Some(<redacted>))"@,
        redacted_option(true) == "Some(\"<redacted>\")"@,
        redacted_option(false) == "None"@,
        forall|capture: bool, remote: bool| #[trigger]
            redacted_peer(id, name, host, client, placement, persistent, capture, remote)
                == "PeerConfig { id: "@ + crate::text::quoted_text(id) + ", name: "@
                + crate::text::quoted_text(name) + ", host_endpoint: "@
                + crate::endpoint::endpoint_text(host) + ", client_endpoint: "@
                + crate::endpoint::endpoint_text(client) + ", placement: "@ + (match placement {
                RelativePlacement::Left => "Left"@,
                RelativePlacement::Right => "Right"@,
                RelativePlacement::Above => "Above"@,
                RelativePlacement::Below => "Below"@,
            }) + ", persistent_permissions: "@ + (if persistent {
                "true"@
            } else {
                "false"@
            }) + ", psk: \"<redacted>\", capture_restore_token: "@ + redacted_option(capture)
                + ", remote_restore_token: "@ + redacted_option(remote) + " }"@,
{
}

/// The end of a file completes the last record. The file needs a version; without
/// a name of its own the computer has a neutral one. What comes out is what was
/// read, if that makes an acceptable configuration, and the fault if not.
pub proof fn law_reading_ends(reading: ReadingView)
    ensures
        nothing_read().current is None && nothing_read().peers.len() == 0
            && nothing_read().schema_version is None && nothing_read().local_name is None,
        reading.current is None ==> closed_record(reading) == Ok::<ReadingView, FaultView>(reading),
        reading.current matches Some(draft) ==> match draft_finished(draft) {
            Ok(peer) => closed_record(reading) matches Ok(next) && next.peers
                == reading.peers.push(peer) && next.current is None && next.schema_version
                == reading.schema_version && next.local_name == reading.local_name,
            Err(fault) => closed_record(reading) == Err::<ReadingView, FaultView>(fault)
                && reading_finished(reading) == Err::<ConfigView, FaultView>(fault),
        },
        closed_record(reading) is Ok && reading.schema_version is None ==> reading_finished(reading)
            == Err::<ConfigView, FaultView>(FaultView::MissingField("schema_version"@)),
        reading_finished(reading) matches Ok(config) ==> {
            &&& reading.schema_version == Some(config.schema_version)
            &&& reading.local_name is Some ==> reading.local_name == Some(config.local_name)
            &&& reading.local_name is None ==> config.local_name == "This computer"@
            &&& reading.current is None ==> config.peers == reading.peers
            &&& reading.current matches Some(draft) ==> config.peers == reading.peers.push(
                draft_finished(draft)->Ok_0,
            )
            &&& config_fault(config) is None
        },
        reading.current is None && reading.schema_version is Some && reading.local_name is Some ==> {
            let config = ConfigView {
                schema_version: reading.schema_version->0,
                local_name: reading.local_name->0,
                peers: reading.peers,
            };
            config_fault(config) is None ==> reading_finished(reading) == Ok::<
                ConfigView,
                FaultView,
            >(config)
        },
{
}

/// What a record lacks is named, in the order in which the fields are listed.
pub proof fn law_missing_fields_are_named(draft: DraftView)
    ensures
        draft.id is None ==> draft_finished(draft) == Err::<PeerView, FaultView>(
            FaultView::MissingField("peer.id"@),
        ),
        draft.id is Some && draft.name is None ==> draft_finished(draft) == Err::<
            PeerView,
            FaultView,
        >(FaultView::MissingField("peer.name"@)),
        draft.id is Some && draft.name is Some && draft.host_endpoint is None ==> draft_finished(
            draft,
        ) == Err::<PeerView, FaultView>(FaultView::MissingField("peer.host_endpoint"@)),
        draft.id is Some && draft.name is Some && draft.host_endpoint is Some
            && draft.client_endpoint is None ==> draft_finished(draft) == Err::<
            PeerView,
            FaultView,
        >(FaultView::MissingField("peer.client_endpoint"@)),
        draft.id is Some && draft.name is Some && draft.host_endpoint is Some
            && draft.client_endpoint is Some && draft.placement is None ==> draft_finished(draft)
            == Err::<PeerView, FaultView>(FaultView::MissingField("peer.placement"@)),
        draft.id is Some && draft.name is Some && draft.host_endpoint is Some
            && draft.client_endpoint is Some && draft.placement is Some && draft.psk is None
            ==> draft_finished(draft) == Err::<PeerView, FaultView>(
            FaultView::MissingField("peer.psk"@),
        ),
        empty_draft().id is None && empty_draft().name is None && empty_draft().host_endpoint
            is None && empty_draft().client_endpoint is None && empty_draft().placement is None
            && empty_draft().psk is None && empty_draft().persistent_permissions is None
            && empty_draft().capture is None && empty_draft().remote is None,
{
}

/// A token in a file is the hexadecimal form of its bytes: what stands there for
/// a token that can be stored denotes that token, and nothing that is no
/// hexadecimal text denotes one.
pub proof fn law_tokens_in_files(token: Seq<char>, value: Seq<char>, line: int)
    requires
        can_be_stored(token),
    ensures
        token_denoted(crate::text::hex_text(crate::text::utf8(token)), line) == Ok::<
            Seq<char>,
            FaultView,
        >(token),
        !crate::text::is_hex_text(value) ==> token_denoted(value, line) == Err::<
            Seq<char>,
            FaultView,
        >(FaultView::Parse { line, reason: "restore token must be hexadecimal UTF-8"@ }),
        token_denoted(value, line) matches Ok(t) ==> can_be_stored(t) && crate::text::utf8(t)
            == crate::text::hex_bytes(value),
        token_denoted(value, line) matches Err(fault) ==> fault is Parse && fault->line == line,
        repeated(value, line) == (FaultView::Parse {
            line,
            reason: value + " appears more than once in a peer"@,
        }),
{
    law_names_and_tokens(Seq::empty(), token);
    lemma_token_value(token, line);
    if let Ok(t) = token_denoted(value, line) {
        law_names_and_tokens(Seq::empty(), t);
        vstd::utf8::decode_utf8_encode_utf8(crate::text::hex_bytes(value));
    }
}

} // verus!
