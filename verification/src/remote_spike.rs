//! The consent-driven RemoteDesktop session of the controlled side.
//!
//! The application talks to the desktop portal. This module decides what to
//! ask for next and what a reply means, and keeps the session's input state.
use vstd::prelude::*;

use crate::backend::{BackendError, BackendErrorKind};
use crate::libei_inject::{InputState, Sender, SenderCall, SenderEffect, SenderEvent};
use crate::portal::{actionable, object_path, optional_restore_token, require_success, required, Field, PortalError};
use crate::portal_persistence::{PortalPersistence, RestoreToken};
use crate::text::push_decimal;

verus! {

/// Keyboard and pointer.
pub const REQUIRED_DEVICE_TYPES: u32 = 3;

pub type RemoteResult<T> = Result<T, PortalError>;

/// Whether keyboard and pointer are in a set of device types.
pub open spec fn has_devices(types: u32) -> bool {
    types & REQUIRED_DEVICE_TYPES == REQUIRED_DEVICE_TYPES
}

/// A session handle. The portal may write it as an object path or as a string
/// that has to be one.
#[derive(Debug, Clone, PartialEq, Eq)]
pub enum SessionHandle {
    Missing,
    ObjectPath(String),
    /// It is a string, which some portals send in place of a path.
    Text(String),
    /// It has another type; the text says how reading it failed.
    WrongType(String),
}

/// The entries of a reply that this module reads.
#[derive(Debug, Clone, PartialEq, Eq)]
pub struct RemoteResults {
    pub session_handle: SessionHandle,
    pub devices: Field<u32>,
    pub restore_token: Field<String>,
}

/// A reply to a request that the person at the desktop may decide on.
#[derive(Debug, Clone, PartialEq, Eq)]
pub struct RemoteResponse {
    pub code: u32,
    pub results: RemoteResults,
}

/// What a session handle denotes: a path, or why it denotes none.
pub open spec fn session_denoted(handle: SessionHandle) -> Result<Seq<char>, Seq<char>> {
    match handle {
        SessionHandle::Missing => Err("portal result omitted required `session_handle`"@),
        SessionHandle::ObjectPath(path) => Ok(path@),
        SessionHandle::Text(text) => if crate::portal::is_object_path(text@) {
            Ok(text@)
        } else {
            Err(
                "session_handle is not an object path: "@ + crate::portal::object_path_fault(
                    text@,
                ),
            )
        },
        SessionHandle::WrongType(why) => Err("session_handle has wrong type: "@ + why@),
    }
}

/// The session's path in a reply.
pub fn required_session_path(handle: SessionHandle) -> (result: RemoteResult<String>)
    ensures
        match session_denoted(handle) {
            Ok(path) => result matches Ok(session) && session@ == path,
            Err(message) => crate::portal::fails(result, message),
        },
{
    match handle {
        SessionHandle::Missing => Err(
            actionable("portal result omitted required `session_handle`"),
        ),
        SessionHandle::ObjectPath(path) => Ok(path),
        SessionHandle::Text(text) => match object_path(text) {
            Ok(path) => Ok(path),
            Err(error) => {
                let mut message = String::new();
                message.push_str("session_handle is not an object path: ");
                message.push_str(error.message.as_str());
                assert(message@ =~= "session_handle is not an object path: "@ + error.message@);
                Err(PortalError { message })
            },
        },
        SessionHandle::WrongType(why) => {
            let mut message = String::new();
            message.push_str("session_handle has wrong type: ");
            message.push_str(why.as_str());
            assert(message@ =~= "session_handle has wrong type: "@ + why@);
            Err(PortalError { message })
        },
    }
}

/// What the session is waiting for.
#[derive(Debug, Clone, Copy, PartialEq, Eq, Structural)]
pub enum RemoteStage {
    Properties,
    Creation,
    Selection,
    Consent,
    Connection,
}

/// The options of the `SelectDevices` call.
#[derive(Debug, Clone, PartialEq, Eq)]
pub struct SelectOptions {
    pub handle_token: String,
    pub types: u32,
    pub persist_mode: Option<u32>,
    pub restore_token: Option<String>,
}

/// What a [`RemoteSetup`] knows.
pub struct RemoteSetupView {
    pub persistence: crate::portal_persistence::PersistenceView,
    pub stage: RemoteStage,
    /// Device types that the person at the desktop agreed to.
    pub granted: u32,
    /// Replacement for the single-use token.
    pub token: Option<Seq<char>>,
}

impl RemoteSetupView {
    /// No event connection is opened without consent.
    pub open spec fn wf(self) -> bool {
        &&& self.stage == RemoteStage::Connection ==> has_devices(self.granted)
        &&& self.token is Some ==> self.persistence.enabled
    }

    pub open spec fn at(self, stage: RemoteStage) -> RemoteSetupView {
        RemoteSetupView { stage, ..self }
    }
}

pub open spec fn support_text(version: u32, available: u32) -> Seq<char> {
    "RemoteDesktop v2 with keyboard+pointer is required; found version="@ + crate::text::decimal(
        version as nat,
    ) + ", device_types="@ + crate::text::decimal(available as nat)
}

pub open spec fn consent_text(granted: u32) -> Seq<char> {
    "portal consent did not grant keyboard+pointer; granted device_types="@ + crate::text::decimal(
        granted as nat,
    )
}

/// Why a reply to `Start` ends the session.
pub open spec fn start_fault(setup: RemoteSetupView, response: RemoteResponse) -> Option<
    Seq<char>,
> {
    if response.code != 0 {
        Some(crate::portal::response_text("Start"@, response.code))
    } else {
        match response.results.devices {
            Field::Missing => Some(crate::portal::missing_text("devices"@)),
            Field::WrongType(why) => Some(crate::portal::wrong_type_text("devices"@, why@)),
            Field::Value(granted) => if !has_devices(granted) {
                Some(consent_text(granted))
            } else if !setup.persistence.enabled {
                None
            } else {
                match response.results.restore_token {
                    Field::Missing => None,
                    Field::WrongType(why) => Some(
                        crate::portal::wrong_type_text("restore_token"@, why@),
                    ),
                    Field::Value(value) => match crate::portal_persistence::token_fault(value@) {
                        Some(fault) => Some(crate::portal::persistence_text(fault)),
                        None => None,
                    },
                }
            },
        }
    }
}

/// The replacement token in a reply.
pub open spec fn replacement(setup: RemoteSetupView, response: RemoteResponse) -> Option<
    Seq<char>,
> {
    match response.results.restore_token {
        Field::Value(value) => if setup.persistence.enabled {
            Some(value@)
        } else {
            None
        },
        _ => None,
    }
}

/// A session on its way to an event connection. Each method takes the reply to
/// the call that the stage before it led to.
pub struct RemoteSetup {
    persistence: PortalPersistence,
    stage: RemoteStage,
    granted: u32,
    restore_token: Option<RestoreToken>,
}

impl View for RemoteSetup {
    type V = RemoteSetupView;

    closed spec fn view(&self) -> RemoteSetupView {
        RemoteSetupView {
            persistence: self.persistence@,
            stage: self.stage,
            granted: self.granted,
            token: match self.restore_token {
                Some(token) => Some(token@),
                None => None,
            },
        }
    }
}

impl RemoteSetup {
    pub fn begin(persistence: PortalPersistence) -> (setup: RemoteSetup)
        ensures
            setup@ == (RemoteSetupView {
                persistence: persistence@,
                stage: RemoteStage::Properties,
                granted: 0,
                token: None,
            }),
            setup@.wf(),
    {
        RemoteSetup {
            persistence,
            stage: RemoteStage::Properties,
            granted: 0,
            restore_token: None,
        }
    }

    pub fn stage(&self) -> (stage: RemoteStage)
        ensures
            stage == self@.stage,
    {
        self.stage
    }

    /// The portal must be recent and offer keyboard and pointer. The session
    /// is created next.
    pub fn properties(&mut self, version: u32, available: u32) -> (result: RemoteResult<()>)
        requires
            old(self)@.wf(),
            old(self)@.stage == RemoteStage::Properties,
        ensures
            final(self)@.wf(),
            if version >= 2 && has_devices(available) {
                result is Ok && final(self)@ == old(self)@.at(RemoteStage::Creation)
            } else {
                crate::portal::fails(result, support_text(version, available)) && final(self)@
                    == old(self)@
            },
    {
        if version < 2 || available & REQUIRED_DEVICE_TYPES != REQUIRED_DEVICE_TYPES {
            let mut message = String::new();
            message.push_str(
                "RemoteDesktop v2 with keyboard+pointer is required; found version=",
            );
            push_decimal(&mut message, version as u64);
            message.push_str(", device_types=");
            push_decimal(&mut message, available as u64);
            assert(message@ =~= support_text(version, available));
            return Err(PortalError { message });
        }
        self.stage = RemoteStage::Creation;
        Ok(())
    }

    /// The session exists; devices are selected next. Gives the session's path
    /// and the options to select with. Nothing is said about persistence
    /// unless it was opted into.
    pub fn created(&mut self, response: RemoteResponse, handle_token: String) -> (result:
        RemoteResult<(String, SelectOptions)>)
        requires
            old(self)@.wf(),
            old(self)@.stage == RemoteStage::Creation,
        ensures
            final(self)@.wf(),
            if response.code != 0 {
                crate::portal::fails(
                    result,
                    crate::portal::response_text("CreateSession"@, response.code),
                )
            } else {
                match session_denoted(response.results.session_handle) {
                    Err(message) => crate::portal::fails(result, message),
                    Ok(path) => {
                        &&& final(self)@ == old(self)@.at(RemoteStage::Selection)
                        &&& result matches Ok((session, options)) && session@ == path
                            && options.handle_token@ == handle_token@ && options.types
                            == REQUIRED_DEVICE_TYPES && options.persist_mode == (if old(
                            self,
                        )@.persistence.enabled {
                            Some(2u32)
                        } else {
                            None
                        }) && match options.restore_token {
                            Some(token) => old(self)@.persistence.enabled && old(
                                self,
                            )@.persistence.token == Some(token@),
                            None => !old(self)@.persistence.enabled || old(
                                self,
                            )@.persistence.token is None,
                        }
                    },
                }
            },
            result is Err ==> final(self)@ == old(self)@,
    {
        if let Err(error) = require_success("CreateSession", response.code) {
            return Err(error);
        }
        let session = match required_session_path(response.results.session_handle) {
            Ok(session) => session,
            Err(error) => {
                return Err(error);
            },
        };
        let mut persist_mode: Option<u32> = None;
        let mut restore_token: Option<String> = None;
        if self.persistence.is_enabled() {
            persist_mode = Some(self.persistence.persist_mode());
            if let Some(token) = self.persistence.restore_token() {
                restore_token = Some(token.expose_secret().to_string());
            }
        }
        self.stage = RemoteStage::Selection;
        let options = SelectOptions {
            handle_token,
            types: REQUIRED_DEVICE_TYPES,
            persist_mode,
            restore_token,
        };
        Ok((session, options))
    }

    /// The devices are selected; the person at the desktop is asked next.
    pub fn selected(&mut self, code: u32) -> (result: RemoteResult<()>)
        requires
            old(self)@.wf(),
            old(self)@.stage == RemoteStage::Selection,
        ensures
            final(self)@.wf(),
            if code == 0 {
                result is Ok && final(self)@ == old(self)@.at(RemoteStage::Consent)
            } else {
                crate::portal::fails(result, crate::portal::response_text("SelectDevices"@, code))
                    && final(self)@ == old(self)@
            },
    {
        if let Err(error) = require_success("SelectDevices", code) {
            return Err(error);
        }
        self.stage = RemoteStage::Consent;
        Ok(())
    }

    /// The person at the desktop has decided. Keyboard and pointer must both
    /// be granted. The event connection is opened next.
    pub fn started(&mut self, response: RemoteResponse) -> (result: RemoteResult<()>)
        requires
            old(self)@.wf(),
            old(self)@.stage == RemoteStage::Consent,
        ensures
            final(self)@.wf(),
            match start_fault(old(self)@, response) {
                Some(text) => crate::portal::fails(result, text) && final(self)@ == old(self)@,
                None => result is Ok && final(self)@ == (RemoteSetupView {
                    stage: RemoteStage::Connection,
                    granted: response.results.devices->Value_0,
                    token: replacement(old(self)@, response),
                    ..old(self)@
                }),
            },
    {
        if let Err(error) = require_success("Start", response.code) {
            return Err(error);
        }
        let granted: u32 = match required(response.results.devices, "devices") {
            Ok(granted) => granted,
            Err(error) => {
                return Err(error);
            },
        };
        if granted & REQUIRED_DEVICE_TYPES != REQUIRED_DEVICE_TYPES {
            let mut message = String::new();
            message.push_str(
                "portal consent did not grant keyboard+pointer; granted device_types=",
            );
            push_decimal(&mut message, granted as u64);
            assert(message@ =~= consent_text(granted));
            return Err(PortalError { message });
        }
        let mut restore_token: Option<RestoreToken> = None;
        if self.persistence.is_enabled() {
            restore_token =
            match optional_restore_token(response.results.restore_token) {
                Ok(token) => token,
                Err(error) => {
                    return Err(error);
                },
            };
        }
        self.granted = granted;
        self.restore_token = restore_token;
        self.stage = RemoteStage::Connection;
        Ok(())
    }

    /// The event connection has completed its opening exchange with `sender`.
    pub fn connected(self, sender: Sender) -> (session: RemoteDesktopSession)
        requires
            self@.wf(),
            self@.stage == RemoteStage::Connection,
            sender@.wf(),
        ensures
            has_devices(self@.granted),
            session@ == (RemoteView {
                sender: Some(sender@),
                closed: false,
                token: self@.token,
            }),
            session@.wf(),
    {
        RemoteDesktopSession {
            sender: Some(sender),
            closed: false,
            restore_token: self.restore_token,
        }
    }
}

/// What is known of a session.
pub struct RemoteView {
    /// Input state, until the session is closed.
    pub sender: Option<crate::libei_inject::SenderView>,
    pub closed: bool,
    pub token: Option<Seq<char>>,
}

impl RemoteView {
    pub open spec fn wf(self) -> bool {
        self.sender matches Some(sender) ==> sender.wf()
    }
}

/// A session without its connections.
pub struct RemoteDesktopSession {
    sender: Option<Sender>,
    closed: bool,
    restore_token: Option<RestoreToken>,
}

impl View for RemoteDesktopSession {
    type V = RemoteView;

    closed spec fn view(&self) -> RemoteView {
        RemoteView {
            sender: match self.sender {
                Some(sender) => Some(sender@),
                None => None,
            },
            closed: self.closed,
            token: match self.restore_token {
                Some(token) => Some(token@),
                None => None,
            },
        }
    }
}

/// The refusal of a session that is closed.
pub open spec fn sender_closed<A>(result: Result<A, BackendError>) -> bool {
    crate::libei_inject::refused(
        result,
        (BackendErrorKind::NotConnected, "EIS sender is closed"@),
    )
}

impl RemoteDesktopSession {
    pub fn start() -> (setup: RemoteSetup)
        ensures
            setup@ == (RemoteSetupView {
                persistence: crate::portal_spike::no_persistence(),
                stage: RemoteStage::Properties,
                granted: 0,
                token: None,
            }),
            setup@.wf(),
    {
        Self::start_with_persistence(PortalPersistence::disabled())
    }

    pub fn start_with_persistence(persistence: PortalPersistence) -> (setup: RemoteSetup)
        ensures
            setup@ == (RemoteSetupView {
                persistence: persistence@,
                stage: RemoteStage::Properties,
                granted: 0,
                token: None,
            }),
            setup@.wf(),
    {
        RemoteSetup::begin(persistence)
    }

    /// Replacement for the supplied single-use token, if persistence was
    /// granted.
    pub fn restore_token(&self) -> (token: Option<&RestoreToken>)
        ensures
            match token {
                Some(token) => self@.token == Some(token@),
                None => self@.token is None,
            },
    {
        self.restore_token.as_ref()
    }

    /// Hands the token over; there is none afterwards.
    pub fn take_restore_token(&mut self) -> (token: Option<RestoreToken>)
        ensures
            match token {
                Some(token) => old(self)@.token == Some(token@),
                None => old(self)@.token is None,
            },
            final(self)@ == (RemoteView { token: None, ..old(self)@ }),
    {
        self.restore_token.take()
    }

    /// Gives the sender's bookkeeping out for one operation.
    fn take_sender(&mut self) -> (result: Result<Sender, BackendError>)
        ensures
            match old(self)@.sender {
                Some(sender) => result matches Ok(taken) && taken@ == sender,
                None => sender_closed(result),
            },
            final(self)@ == (RemoteView { sender: None, ..old(self)@ }),
    {
        match self.sender.take() {
            Some(sender) => Ok(sender),
            None => Err(BackendError::new(BackendErrorKind::NotConnected, "EIS sender is closed")),
        }
    }

    /// A bounded relative motion frame; see [`Sender::inject_relative`].
    pub fn inject_relative(&mut self, dx: i32, dy: i32) -> (result: Result<
        Vec<SenderCall>,
        BackendError,
    >)
        requires
            old(self)@.wf(),
        ensures
            final(self)@.wf(),
            final(self)@.closed == old(self)@.closed,
            final(self)@.token == old(self)@.token,
            match old(self)@.sender {
                None => sender_closed(result) && final(self)@ == old(self)@,
                Some(sender) => {
                    &&& final(self)@.sender is Some
                    &&& match crate::libei_inject::relative_fault(sender, dx, dy) {
                        Some(fault) => crate::libei_inject::refused(result, fault) && final(self)@
                            == old(self)@,
                        None => result is Ok,
                    }
                    &&& result matches Ok(calls) ==> {
                        let device = sender.pointer->0;
                        &&& final(self)@.sender == Some(sender.emulated(device))
                        &&& calls@ == sender.start_calls(device) + seq![
                            SenderCall::Motion { device, dx, dy },
                            SenderCall::Frame { device },
                        ]
                    }
                },
            },
    {
        match self.take_sender() {
            Ok(mut sender) => {
                let result = sender.inject_relative(dx, dy);
                self.sender = Some(sender);
                result
            },
            Err(error) => Err(error),
        }
    }

    /// One key transition; see [`Sender::inject_key`].
    pub fn inject_key(&mut self, evdev: u16, state: InputState) -> (result: Result<
        Vec<SenderCall>,
        BackendError,
    >)
        requires
            old(self)@.wf(),
        ensures
            final(self)@.wf(),
            final(self)@.closed == old(self)@.closed,
            final(self)@.token == old(self)@.token,
            match old(self)@.sender {
                None => sender_closed(result) && final(self)@ == old(self)@,
                Some(sender) => {
                    &&& final(self)@.sender is Some
                    &&& match crate::libei_inject::key_fault(sender, evdev, state) {
                        Some(fault) => crate::libei_inject::refused(result, fault) && final(self)@
                            == old(self)@,
                        None => result is Ok,
                    }
                    &&& result matches Ok(calls) ==> {
                        let device = sender.keyboard->0;
                        &&& final(self)@.sender == Some(
                            crate::libei_inject::SenderView {
                                keys: crate::libei_inject::transitioned(sender.keys, evdev, state),
                                ..sender.emulated(device)
                            },
                        )
                        &&& calls@ == sender.start_calls(device) + seq![
                            SenderCall::Key { device, code: evdev, pressed: state.pressed() },
                            SenderCall::Frame { device },
                        ]
                    }
                },
            },
    {
        match self.take_sender() {
            Ok(mut sender) => {
                let result = sender.inject_key(evdev, state);
                self.sender = Some(sender);
                result
            },
            Err(error) => Err(error),
        }
    }

    /// One button transition; see [`Sender::inject_button`].
    pub fn inject_button(&mut self, evdev: u16, state: InputState) -> (result: Result<
        Vec<SenderCall>,
        BackendError,
    >)
        requires
            old(self)@.wf(),
        ensures
            final(self)@.wf(),
            final(self)@.closed == old(self)@.closed,
            final(self)@.token == old(self)@.token,
            match old(self)@.sender {
                None => sender_closed(result) && final(self)@ == old(self)@,
                Some(sender) => {
                    &&& final(self)@.sender is Some
                    &&& match crate::libei_inject::button_fault(sender, evdev, state) {
                        Some(fault) => crate::libei_inject::refused(result, fault) && final(self)@
                            == old(self)@,
                        None => result is Ok,
                    }
                    &&& result matches Ok(calls) ==> {
                        let device = sender.button->0;
                        &&& final(self)@.sender == Some(
                            crate::libei_inject::SenderView {
                                buttons: crate::libei_inject::transitioned(
                                    sender.buttons,
                                    evdev,
                                    state,
                                ),
                                ..sender.emulated(device)
                            },
                        )
                        &&& calls@ == sender.start_calls(device) + seq![
                            SenderCall::Button { device, code: evdev, pressed: state.pressed() },
                            SenderCall::Frame { device },
                        ]
                    }
                },
            },
    {
        match self.take_sender() {
            Ok(mut sender) => {
                let result = sender.inject_button(evdev, state);
                self.sender = Some(sender);
                result
            },
            Err(error) => Err(error),
        }
    }

    /// A bounded smooth-scroll frame; see [`Sender::inject_scroll`].
    pub fn inject_scroll(&mut self, horizontal: i32, vertical: i32, finish: bool) -> (result: Result<
        Vec<SenderCall>,
        BackendError,
    >)
        requires
            old(self)@.wf(),
        ensures
            final(self)@.wf(),
            final(self)@.closed == old(self)@.closed,
            final(self)@.token == old(self)@.token,
            match old(self)@.sender {
                None => sender_closed(result) && final(self)@ == old(self)@,
                Some(sender) => {
                    &&& final(self)@.sender is Some
                    &&& match crate::libei_inject::scroll_fault(sender, horizontal, vertical) {
                        Some(fault) => crate::libei_inject::refused(result, fault) && final(self)@
                            == old(self)@,
                        None => result is Ok,
                    }
                    &&& result matches Ok(calls) ==> {
                        let device = sender.scroll->0;
                        &&& final(self)@.sender == Some(sender.emulated(device))
                        &&& calls@ == sender.start_calls(device) + seq![
                            SenderCall::Scroll { device, horizontal, vertical },
                        ] + (if finish {
                            seq![
                                SenderCall::ScrollStop {
                                    device,
                                    horizontal: horizontal != 0,
                                    vertical: vertical != 0,
                                },
                            ]
                        } else {
                            Seq::empty()
                        }) + seq![SenderCall::Frame { device }]
                    }
                },
            },
    {
        match self.take_sender() {
            Ok(mut sender) => {
                let result = sender.inject_scroll(horizontal, vertical, finish);
                self.sender = Some(sender);
                result
            },
            Err(error) => Err(error),
        }
    }

    /// Two opposite frames; see [`Sender::bounded_pointer_test`].
    pub fn bounded_pointer_test(&mut self) -> (result: Result<Vec<SenderCall>, BackendError>)
        requires
            old(self)@.wf(),
        ensures
            final(self)@.wf(),
            final(self)@.closed == old(self)@.closed,
            final(self)@.token == old(self)@.token,
            match old(self)@.sender {
                None => sender_closed(result) && final(self)@ == old(self)@,
                Some(sender) => {
                    &&& final(self)@.sender is Some
                    &&& match crate::libei_inject::unready(
                        sender,
                        sender.pointer,
                        "relative-pointer"@,
                    ) {
                        Some(fault) => crate::libei_inject::refused(result, fault) && final(self)@
                            == old(self)@,
                        None => result is Ok,
                    }
                    &&& result matches Ok(calls) ==> {
                        let device = sender.pointer->0;
                        &&& final(self)@.sender == Some(sender.emulated(device))
                        &&& calls@ == sender.start_calls(device) + seq![
                            SenderCall::Motion {
                                device,
                                dx: crate::libei_inject::POINTER_TEST_DELTA,
                                dy: 0,
                            },
                            SenderCall::Frame { device },
                            SenderCall::Motion {
                                device,
                                dx: (-crate::libei_inject::POINTER_TEST_DELTA) as i32,
                                dy: 0,
                            },
                            SenderCall::Frame { device },
                        ]
                    }
                },
            },
    {
        match self.take_sender() {
            Ok(mut sender) => {
                let result = sender.bounded_pointer_test();
                self.sender = Some(sender);
                result
            },
            Err(error) => Err(error),
        }
    }

    /// Releases all held input without closing the consented session; see
    /// [`Sender::release_all`].
    pub fn release_all(&mut self) -> (result: Result<Vec<SenderCall>, BackendError>)
        requires
            old(self)@.wf(),
        ensures
            final(self)@.wf(),
            match old(self)@.sender {
                None => sender_closed(result) && final(self)@ == old(self)@,
                Some(sender) => {
                    &&& final(self)@ == (RemoteView {
                        sender: Some(sender.released()),
                        ..old(self)@
                    })
                    &&& result matches Ok(calls) && calls@ == crate::libei_inject::released_calls(sender)
                },
            },
    {
        match self.take_sender() {
            Ok(mut sender) => {
                let calls = sender.release_all();
                self.sender = Some(sender);
                Ok(calls)
            },
            Err(error) => Err(error),
        }
    }

    /// Takes in an event of the sender's connection; see
    /// [`Sender::process_event`].
    pub fn process_event(&mut self, name: String, event: SenderEvent) -> (result: Result<
        SenderEffect,
        BackendError,
    >)
        requires
            old(self)@.wf(),
        ensures
            final(self)@.wf(),
            match old(self)@.sender {
                None => sender_closed(result) && final(self)@ == old(self)@,
                Some(sender) => {
                    let named = crate::libei_inject::SenderView {
                        metadata: crate::libei_capture::MetadataView {
                            event_types: sender.metadata.event_types.push(name@),
                            ..sender.metadata
                        },
                        ..sender
                    };
                    &&& final(self)@ == (RemoteView {
                        sender: Some(named.after(event)),
                        ..old(self)@
                    })
                    &&& result == Ok::<SenderEffect, BackendError>(
                        crate::libei_inject::sender_effect(named, event),
                    )
                },
            },
    {
        match self.take_sender() {
            Ok(mut sender) => {
                sender.record_event_name(name);
                let effect = sender.process_event(event);
                self.sender = Some(sender);
                Ok(effect)
            },
            Err(error) => Err(error),
        }
    }

    /// Whether the pointer test went through, once its frames are flushed; see
    /// [`Sender::pointer_test_outcome`].
    pub fn pointer_test_outcome(&self) -> (result: Result<(), BackendError>)
        ensures
            match self@.sender {
                None => sender_closed(result),
                Some(sender) => if sender.metadata.disconnected {
                    crate::libei_inject::refused(
                        result,
                        (
                            BackendErrorKind::BrokenPipe,
                            "EIS server disconnected during pointer proof"@,
                        ),
                    )
                } else {
                    result is Ok
                },
            },
    {
        match &self.sender {
            Some(sender) => sender.pointer_test_outcome(),
            None => Err(BackendError::new(BackendErrorKind::NotConnected, "EIS sender is closed")),
        }
    }

    /// Starts closing: the sender goes first, with everything it holds
    /// released, since the event connection must end before the portal session
    /// that owns it. Gives the calls that release it and the devices whose
    /// references are to be dropped. True if the portal session has to be
    /// closed, which is so until it has succeeded once.
    pub fn close(&mut self) -> (result: (Vec<SenderCall>, Vec<u64>, bool))
        requires
            old(self)@.wf(),
        ensures
            final(self)@ == (RemoteView { sender: None, ..old(self)@ }),
            match old(self)@.sender {
                Some(sender) => result.0@ == crate::libei_inject::released_calls(sender)
                    && result.1@ == crate::libei_inject::held_handles(sender),
                None => result.0@.len() == 0 && result.1@.len() == 0,
            },
            result.2 == !old(self)@.closed,
    {
        match self.sender.take() {
            Some(mut sender) => {
                let calls = sender.release_all();
                let handles = sender.release_devices();
                (calls, handles, !self.closed)
            },
            None => (Vec::new(), Vec::new(), !self.closed),
        }
    }

    /// Notes that the portal session was closed.
    pub fn closed(&mut self)
        ensures
            final(self)@ == (RemoteView { closed: true, ..old(self)@ }),
    {
        self.closed = true;
    }
}

/// A session's path is what the portal wrote as one, or a text that is one.
pub proof fn law_session_paths(text: String)
    ensures
        session_denoted(SessionHandle::ObjectPath(text)) == Ok::<Seq<char>, Seq<char>>(text@),
        crate::portal::is_object_path(text@) ==> session_denoted(SessionHandle::Text(text)) == Ok::<
            Seq<char>,
            Seq<char>,
        >(text@),
        !crate::portal::is_object_path(text@) ==> session_denoted(
            SessionHandle::Text(text),
        ) is Err,
        session_denoted(SessionHandle::Missing) is Err,
        session_denoted(SessionHandle::WrongType(text)) is Err,
{
}

/// Control needs keyboard and pointer, the two lowest bits.
pub proof fn law_keyboard_and_pointer(types: u32)
    ensures
        has_devices(types) <==> types % 4 == 3,
{
    assert((types & 3 == 3) == (types % 4 == 3)) by (bit_vector);
}

/// The session starts exactly if the answer is yes, grants keyboard and pointer
/// and, where permission is to be kept, brings no token that cannot be one.
pub proof fn law_when_control_starts(setup: RemoteSetupView, response: RemoteResponse)
    ensures
        start_fault(setup, response) is None <==> {
            &&& response.code == 0
            &&& response.results.devices matches Field::Value(granted)
            &&& granted % 4 == 3
            &&& setup.persistence.enabled ==> match response.results.restore_token {
                Field::Missing => true,
                Field::WrongType(_) => false,
                Field::Value(value) => crate::portal_persistence::token_fault(value@) is None,
            }
        },
        !setup.persistence.enabled ==> replacement(setup, response) is None,
        setup.persistence.enabled ==> match response.results.restore_token {
            Field::Value(value) => replacement(setup, response) == Some(value@),
            _ => replacement(setup, response) is None,
        },
{
    if let Field::Value(granted) = response.results.devices {
        law_keyboard_and_pointer(granted);
    }
}

/// Taking a step changes nothing else, and there is no connection without
/// consent.
pub proof fn law_steps_of_control(setup: RemoteSetupView, stage: RemoteStage)
    ensures
        setup.at(stage).stage == stage,
        setup.at(stage).persistence == setup.persistence,
        setup.at(stage).granted == setup.granted,
        setup.at(stage).token == setup.token,
        setup.wf() && setup.stage == RemoteStage::Connection ==> setup.granted % 4 == 3,
        setup.wf() && setup.token is Some ==> setup.persistence.enabled,
{
    law_keyboard_and_pointer(setup.granted);
}

/// What is told when control cannot be had, or is over.
pub proof fn law_control_refusals_are_told(a: u32, b: u32, error: BackendError)
    ensures
        support_text(a, b) == "RemoteDesktop v2 with keyboard+pointer is required; found version="@
            + crate::text::decimal(a as nat) + ", device_types="@ + crate::text::decimal(b as nat),
        consent_text(b) == "portal consent did not grant keyboard+pointer; granted device_types="@
            + crate::text::decimal(b as nat),
        sender_closed::<()>(Err(error)) <==> error.kind == BackendErrorKind::NotConnected
            && error.message@ == "EIS sender is closed"@,
        !sender_closed::<()>(Ok(())),
{
}

} // verus!
