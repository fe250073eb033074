//! What every desktop portal exchange has in common: replies, tokens and
//! request paths.
use vstd::prelude::*;

use crate::portal_persistence::{PersistenceError, RestoreToken};
use crate::random::random_bytes;
use crate::text::{hex_encode, push_decimal, same_text, to_chars};

verus! {

/// What went wrong, worded for the person at the desktop.
#[derive(Debug, Clone, PartialEq, Eq)]
pub struct PortalError {
    pub message: String,
}

/// Whether a result is the failure with this text.
pub open spec fn fails<T>(result: Result<T, PortalError>, message: Seq<char>) -> bool {
    result matches Err(error) && error.message@ == message
}

pub fn actionable(message: &str) -> (error: PortalError)
    ensures
        error.message@ == message@,
{
    PortalError { message: message.to_string() }
}

/// One entry of a reply.
#[derive(Debug, Clone, PartialEq, Eq)]
pub enum Field<T> {
    Missing,
    /// It has another type; the text says how reading it failed.
    WrongType(String),
    Value(T),
}

pub open spec fn missing_text(key: Seq<char>) -> Seq<char> {
    "portal result omitted required `"@ + key + "`"@
}

pub open spec fn wrong_type_text(key: Seq<char>, why: Seq<char>) -> Seq<char> {
    "portal result `"@ + key + "` has wrong type: "@ + why
}

fn missing(key: &str) -> (error: PortalError)
    ensures
        error.message@ == missing_text(key@),
{
    let mut message = String::new();
    message.push_str("portal result omitted required `");
    message.push_str(key);
    message.push_str("`");
    assert(message@ =~= missing_text(key@));
    PortalError { message }
}

fn wrong_type(key: &str, why: &str) -> (error: PortalError)
    ensures
        error.message@ == wrong_type_text(key@, why@),
{
    let mut message = String::new();
    message.push_str("portal result `");
    message.push_str(key);
    message.push_str("` has wrong type: ");
    message.push_str(why);
    assert(message@ =~= wrong_type_text(key@, why@));
    PortalError { message }
}

/// The value of an entry that may be absent.
pub fn optional<T>(field: Field<T>, key: &str) -> (result: Result<Option<T>, PortalError>)
    ensures
        match field {
            Field::Missing => result == Ok::<Option<T>, PortalError>(None),
            Field::WrongType(why) => fails(result, wrong_type_text(key@, why@)),
            Field::Value(value) => result == Ok::<Option<T>, PortalError>(Some(value)),
        },
{
    match field {
        Field::Missing => Ok(None),
        Field::WrongType(why) => Err(wrong_type(key, why.as_str())),
        Field::Value(value) => Ok(Some(value)),
    }
}

/// The value of an entry that must be there.
pub fn required<T>(field: Field<T>, key: &str) -> (result: Result<T, PortalError>)
    ensures
        match field {
            Field::Missing => fails(result, missing_text(key@)),
            Field::WrongType(why) => fails(result, wrong_type_text(key@, why@)),
            Field::Value(value) => result == Ok::<T, PortalError>(value),
        },
{
    match field {
        Field::Missing => Err(missing(key)),
        Field::WrongType(why) => Err(wrong_type(key, why.as_str())),
        Field::Value(value) => Ok(value),
    }
}

pub open spec fn persistence_text(error: PersistenceError) -> Seq<char> {
    match error {
        PersistenceError::EmptyToken => "restore token is empty"@,
        PersistenceError::TokenTooLong(len) => "restore token is too long ("@ + crate::text::decimal(
            len as nat,
        ) + " bytes)"@,
        PersistenceError::EmbeddedNul => "restore token contains an embedded NUL"@,
    }
}

/// A token's fault in words.
pub fn persistence_message(error: &PersistenceError) -> (message: String)
    ensures
        message@ == persistence_text(*error),
{
    match error {
        PersistenceError::EmptyToken => "restore token is empty".to_string(),
        PersistenceError::TokenTooLong(len) => {
            let mut message = String::new();
            message.push_str("restore token is too long (");
            push_decimal(&mut message, *len as u64);
            message.push_str(" bytes)");
            assert(message@ =~= persistence_text(*error));
            message
        },
        PersistenceError::EmbeddedNul => "restore token contains an embedded NUL".to_string(),
    }
}

/// The replacement token in a reply. It must be a valid token.
pub fn optional_restore_token(field: Field<String>) -> (result: Result<
    Option<RestoreToken>,
    PortalError,
>)
    ensures
        match field {
            Field::Missing => result matches Ok(None),
            Field::WrongType(why) => fails(result, wrong_type_text("restore_token"@, why@)),
            Field::Value(value) => match crate::portal_persistence::token_fault(value@) {
                Some(fault) => fails(result, persistence_text(fault)),
                None => result matches Ok(Some(token)) && token@ == value@,
            },
        },
{
    match optional(field, "restore_token") {
        Err(error) => Err(error),
        Ok(None) => Ok(None),
        Ok(Some(value)) => match RestoreToken::new(value.as_str()) {
            Ok(token) => Ok(Some(token)),
            Err(error) => Err(PortalError { message: persistence_message(&error) }),
        },
    }
}

/// The words for a response code that is no success.
pub open spec fn response_text(stage: Seq<char>, response: u32) -> Seq<char> {
    if response == 1 {
        stage + " was cancelled by the user"@
    } else if response == 2 {
        stage + " was ended by the portal; inspect the desktop portal service logs"@
    } else {
        stage + " returned unknown response code "@ + crate::text::decimal(response as nat)
    }
}

/// Accepts response code zero only.
pub fn require_success(stage: &str, response: u32) -> (result: Result<(), PortalError>)
    ensures
        if response == 0 {
            result is Ok
        } else {
            fails(result, response_text(stage@, response))
        },
{
    if response == 0 {
        return Ok(());
    }
    let mut message = String::new();
    message.push_str(stage);
    if response == 1 {
        message.push_str(" was cancelled by the user");
    } else if response == 2 {
        message.push_str(
            " was ended by the portal; inspect the desktop portal service logs",
        );
    } else {
        message.push_str(" returned unknown response code ");
        push_decimal(&mut message, response as u64);
    }
    assert(message@ =~= response_text(stage@, response));
    Err(PortalError { message })
}

/// Whether a text is a token with this prefix: twelve random bytes in
/// hexadecimal digits.
pub open spec fn is_token(prefix: Seq<char>, token: Seq<char>) -> bool {
    exists|bytes: Seq<u8>|
        bytes.len() == 12 && token == prefix + "_"@ + #[trigger] crate::text::hex_text(bytes)
}

/// A fresh token.
pub fn new_token(prefix: &str) -> (token: String)
    ensures
        is_token(prefix@, token@),
{
    let bytes = random_bytes(12);
    let mut token = String::new();
    token.push_str(prefix);
    token.push_str("_");
    let digits = hex_encode(bytes.as_slice());
    token.push_str(digits.as_str());
    assert(token@ =~= prefix@ + "_"@ + crate::text::hex_text(bytes@));
    token
}

/// A bus name without its leading colons.
pub open spec fn without_colons(name: Seq<char>) -> Seq<char>
    decreases name.len(),
{
    if name.len() > 0 && name[0] == ':' {
        without_colons(name.skip(1))
    } else {
        name
    }
}

/// The part of a request path that stands for a caller.
pub open spec fn path_sender(unique: Seq<char>) -> Seq<char> {
    without_colons(unique).map_values(
        |c: char|
            if c == '.' {
                '_'
            } else {
                c
            },
    )
}

pub open spec fn request_path_of(unique: Seq<char>, token: Seq<char>) -> Seq<char> {
    "/org/freedesktop/portal/desktop/request/"@ + path_sender(unique) + "/"@ + token
}

pub open spec fn is_path_char(c: char) -> bool {
    ||| '0' <= c <= '9'
    ||| 'A' <= c <= 'Z'
    ||| 'a' <= c <= 'z'
    ||| c == '_'
    ||| c == '/'
}

/// Whether a text names an object on the bus: a slash, or elements of letters,
/// digits and underscores, each behind one slash.
pub open spec fn is_object_path(text: Seq<char>) -> bool {
    &&& text.len() > 0
    &&& text[0] == '/'
    &&& text.len() > 1 ==> text.last() != '/'
    &&& forall|i: int| 0 <= i < text.len() ==> is_path_char(#[trigger] text[i])
    &&& forall|i: int| 0 < i < text.len() ==> #[trigger] text[i] != '/' || text[i - 1] != '/'
}

/// What `ObjectPath::try_from` of zvariant says of a text that is no path.
pub uninterp spec fn object_path_fault(text: Seq<char>) -> Seq<char>;

/// `ObjectPath::try_from` of zvariant, which zbus hands on. It accepts the
/// object paths and nothing else; of any other text it says what is wrong.
#[verifier::external_body]
fn check_object_path(text: &str) -> (fault: Option<String>)
    ensures
        fault is None <==> is_object_path(text@),
        fault matches Some(why) ==> why@ == object_path_fault(text@),
{
    match zbus::zvariant::ObjectPath::try_from(text) {
        Ok(_) => None,
        Err(error) => Some(error.to_string()),
    }
}

/// A text, if it is an object path.
pub fn object_path(text: String) -> (result: Result<String, PortalError>)
    ensures
        if is_object_path(text@) {
            result matches Ok(path) && path@ == text@
        } else {
            fails(result, object_path_fault(text@))
        },
{
    match check_object_path(text.as_str()) {
        None => Ok(text),
        Some(message) => Err(PortalError { message }),
    }
}

/// The object path at which the portal answers a request that the caller with
/// the bus name `unique` makes with `token`.
pub fn request_path(unique: &str, token: &str) -> (result: Result<String, PortalError>)
    ensures
        if is_object_path(request_path_of(unique@, token@)) {
            result matches Ok(path) && path@ == request_path_of(unique@, token@)
        } else {
            fails(result, object_path_fault(request_path_of(unique@, token@)))
        },
{
    let chars = to_chars(unique);
    let mut path = String::new();
    path.push_str("/org/freedesktop/portal/desktop/request/");
    let mut i: usize = 0;
    assert(unique@.skip(0) =~= unique@);
    while i < chars.len() && chars[i] == ':'
        invariant
            i <= chars.len(),
            chars@ == unique@,
            without_colons(unique@.skip(i as int)) == without_colons(unique@),
        decreases chars.len() - i,
    {
        assert(unique@.skip(i as int).skip(1) =~= unique@.skip(i + 1));
        i = i + 1;
    }
    let ghost name = without_colons(unique@);
    let ghost start = i as int;
    assert(name == unique@.skip(start));
    let ghost head = path@;
    while i < chars.len()
        invariant
            start <= i <= chars.len(),
            0 <= start,
            chars@ == unique@,
            name == unique@.skip(start),
            name == without_colons(unique@),
            path@ == head + path_sender(unique@).take(i - start),
        decreases chars.len() - i,
    {
        let ghost before = path@;
        if chars[i] == '.' {
            path.push('_');
        } else {
            path.push(chars[i]);
        }
        proof {
            let all = path_sender(unique@);
            assert(name[i - start] == chars@[i as int]);
            assert(all.take(i + 1 - start) =~= all.take(i - start).push(all[i - start]));
            assert(path@ =~= head + all.take(i + 1 - start));
        }
        i = i + 1;
    }
    assert(path_sender(unique@).take(i - start) =~= path_sender(unique@));
    path.push_str("/");
    path.push_str(token);
    assert(path@ =~= request_path_of(unique@, token@));
    object_path(path)
}

pub open spec fn path_text(expected: Seq<char>, returned: Seq<char>) -> Seq<char> {
    "portal returned unexpected request path "@ + returned + "; expected "@ + expected
}

/// The portal must answer where it was asked to.
pub fn verify_request_path(expected: &str, returned: &str) -> (result: Result<(), PortalError>)
    ensures
        if expected@ == returned@ {
            result is Ok
        } else {
            fails(result, path_text(expected@, returned@))
        },
{
    if same_text(expected, returned) {
        return Ok(());
    }
    let mut message = String::new();
    message.push_str("portal returned unexpected request path ");
    message.push_str(returned);
    message.push_str("; expected ");
    message.push_str(expected);
    assert(message@ =~= path_text(expected@, returned@));
    Err(PortalError { message })
}

/// A failure is an error with just these words.
pub proof fn law_failures_have_their_words(error: PortalError, message: Seq<char>)
    ensures
        fails::<()>(Err(error), message) <==> error.message@ == message,
        !fails::<()>(Ok(()), message),
{
}

/// What is told of replies that cannot be used.
pub proof fn law_unusable_replies_are_told(
    key: Seq<char>,
    why: Seq<char>,
    stage: Seq<char>,
    code: u32,
    len: usize,
)
    ensures
        missing_text(key) == "portal result omitted required `"@ + key + "`"@,
        wrong_type_text(key, why) == "portal result `"@ + key + "` has wrong type: "@ + why,
        response_text(stage, 1) == stage + " was cancelled by the user"@,
        response_text(stage, 2) == stage
            + " was ended by the portal; inspect the desktop portal service logs"@,
        code > 2 ==> response_text(stage, code) == stage + " returned unknown response code "@
            + crate::text::decimal(code as nat),
        persistence_text(PersistenceError::EmptyToken) == "restore token is empty"@,
        persistence_text(PersistenceError::TokenTooLong(len)) == "restore token is too long ("@
            + crate::text::decimal(len as nat) + " bytes)"@,
        persistence_text(PersistenceError::EmbeddedNul)
            == "restore token contains an embedded NUL"@,
        path_text(key, why) == "portal returned unexpected request path "@ + why + "; expected "@
            + key,
{
}

/// A token is its prefix, an underscore and twenty-four hexadecimal digits.
pub proof fn law_tokens_have_a_form(prefix: Seq<char>, token: Seq<char>, i: int)
    requires
        is_token(prefix, token),
        0 <= i < 24,
    ensures
        token.len() == prefix.len() + 25,
        token.take(prefix.len() as int) == prefix,
        token[prefix.len() as int] == '_',
        crate::text::is_hex_digit(token[prefix.len() + 1 + i]),
{
    let bytes = choose|bytes: Seq<u8>|
        bytes.len() == 12 && token == prefix + "_"@ + #[trigger] crate::text::hex_text(bytes);
    let digits = crate::text::hex_text(bytes);
    reveal_strlit("_");
    crate::text::law_hex_round_trip(bytes);
    assert(token.take(prefix.len() as int) =~= prefix);
    assert(token[prefix.len() + 1 + i] == digits[i]);
    assert(crate::text::is_hex_digit(digits[i]));
}

/// A caller stands in a path by its bus name, without the colons in front and
/// with an underscore for each dot.
pub proof fn law_callers_stand_in_paths(name: Seq<char>, token: Seq<char>, i: int)
    requires
        0 <= i < name.len(),
        name[0] != ':',
    ensures
        path_sender(seq![':'] + name) == path_sender(name),
        path_sender(name).len() == name.len(),
        name[i] == '.' ==> path_sender(name)[i] == '_',
        name[i] != '.' ==> path_sender(name)[i] == name[i],
        request_path_of(name, token) == "/org/freedesktop/portal/desktop/request/"@ + path_sender(
            name,
        ) + "/"@ + token,
{
    assert((seq![':'] + name).skip(1) =~= name);
}

/// A text names an object exactly if it is a slash, or begins with one, does not
/// end with one, has no two in a row, and is made of ASCII letters, digits,
/// underscores and slashes.
pub proof fn law_object_paths(text: Seq<char>)
    ensures
        is_object_path(text) <==> text == seq!['/'] || (text.len() > 1 && text[0] == '/'
            && text.last() != '/' && (forall|i: int|
            0 <= i < text.len() ==> ('a' <= #[trigger] text[i] <= 'z' || 'A' <= text[i] <= 'Z'
                || '0' <= text[i] <= '9' || text[i] == '_' || text[i] == '/')) && (forall|i: int|
            1 <= i < text.len() ==> !(#[trigger] text[i] == '/' && text[i - 1] == '/'))),
{
    if is_object_path(text) {
        if text.len() == 1 {
            assert(text =~= seq!['/']);
        }
        assert forall|i: int| 0 <= i < text.len() implies ('a' <= #[trigger] text[i] <= 'z' || 'A'
            <= text[i] <= 'Z' || '0' <= text[i] <= '9' || text[i] == '_' || text[i] == '/') by {
            assert(is_path_char(text[i]));
        }
    }
    if text.len() > 1 && (forall|i: int|
        0 <= i < text.len() ==> ('a' <= #[trigger] text[i] <= 'z' || 'A' <= text[i] <= 'Z' || '0'
            <= text[i] <= '9' || text[i] == '_' || text[i] == '/')) {
        assert forall|i: int| 0 <= i < text.len() implies is_path_char(#[trigger] text[i]) by {}
    }
}

} // verus!
