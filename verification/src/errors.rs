//! The closed set of failures that a request can end in, and the rules that
//! sort a failed response or a transport failure into it.
use vstd::prelude::*;
use vstd::std_specs::convert::FromSpecImpl;
use vstd::string::StringExecFns;

use crate::text::{ends_with, same_text, starts_with};

verus! {

/// The body with which the server refuses to create an index that exists.
pub const INDEX_ALREADY_EXISTS_BODY: &'static str =
    "{\"message\":\"Impossible to create index; index already exists\"}";

/// The body with which the server refuses an index identifier.
pub const INVALID_INDEX_UID_BODY: &'static str =
    "{\"message\":\"Index must have a valid uid; Index uid can be of type integer or string only composed of alphanumeric characters, hyphens (-) and underscores (_).\"}";

/// The body with which the server reports that it found no primary key.
pub const NO_PRIMARY_KEY_BODY: &'static str = "{\"message\":\"Could not infer a primary key\"}";

/// How a body starts while the server is in maintenance.
pub const MAINTENANCE_PREFIX: &'static str =
    "{\"message\":\"Server is in maintenance, please try again later\"";

/// How a body starts when it speaks of an index.
pub const INDEX_PREFIX: &'static str = "{\"message\":\"Index ";

/// How a body ends when something was not found.
pub const NOT_FOUND_SUFFIX: &'static str = " not found\"}";

/// Trusted: `reqwest::Error`, the failure of a request as the HTTP client
/// reports it. Nothing inside it is visible to the proofs.
#[verifier::external_type_specification]
#[verifier::external_body]
pub struct ExTransportError(reqwest::Error);

/// The HTTP status code that a transport failure carries, if it came from a
/// response: what `reqwest::Error::status` returns, as a number.
pub uninterp spec fn transport_status(error: reqwest::Error) -> Option<u16>;

/// What the `{:?}` format writes for a string, that is what `str`'s
/// implementation of `std::fmt::Debug` writes: the string in double quotes,
/// with its escapes.
pub uninterp spec fn debug_form(text: Seq<char>) -> Seq<char>;

/// Every failure that a request can end in.
///
/// `Unknown` is unexpected: consider reporting it, after making sure that the
/// server is of a supported version.
#[derive(Debug)]
pub enum ClientError {
    /// No server answered at the given host.
    UnreachableServer,
    /// The index to create exists already.
    IndexAlreadyExist,
    /// The requested index does not exist.
    IndexNotFound,
    /// The identifier is not valid for an index: only alphanumeric
    /// characters, hyphens and underscores are.
    InvalidIndexUid,
    /// The server could not tell which field of the added documents is their
    /// primary key.
    CantInferPrimaryKey,
    /// The server is in maintenance.
    ServerInMaintenance,
    /// Anything that was not recognised, with the text that came with it.
    Unknown(String),
    /// The HTTP client failed after it had a status code.
    Http(reqwest::Error),
}

/// What a [`ClientError`] is, with its text as a sequence of characters.
pub enum ErrorView {
    UnreachableServer,
    IndexAlreadyExist,
    IndexNotFound,
    InvalidIndexUid,
    CantInferPrimaryKey,
    ServerInMaintenance,
    Unknown(Seq<char>),
    Http(reqwest::Error),
}

impl View for ClientError {
    type V = ErrorView;

    open spec fn view(&self) -> ErrorView {
        match self {
            ClientError::UnreachableServer => ErrorView::UnreachableServer,
            ClientError::IndexAlreadyExist => ErrorView::IndexAlreadyExist,
            ClientError::IndexNotFound => ErrorView::IndexNotFound,
            ClientError::InvalidIndexUid => ErrorView::InvalidIndexUid,
            ClientError::CantInferPrimaryKey => ErrorView::CantInferPrimaryKey,
            ClientError::ServerInMaintenance => ErrorView::ServerInMaintenance,
            ClientError::Unknown(message) => ErrorView::Unknown(message@),
            ClientError::Http(error) => ErrorView::Http(*error),
        }
    }
}

/// The body says that the index exists already.
pub open spec fn says_index_exists(body: Seq<char>) -> bool {
    body == INDEX_ALREADY_EXISTS_BODY@
}

/// The body says that the index identifier is not valid.
pub open spec fn says_invalid_uid(body: Seq<char>) -> bool {
    body == INVALID_INDEX_UID_BODY@
}

/// The body says that no primary key could be inferred.
pub open spec fn says_no_primary_key(body: Seq<char>) -> bool {
    body == NO_PRIMARY_KEY_BODY@
}

/// The body says that the server is in maintenance.
pub open spec fn says_maintenance(body: Seq<char>) -> bool {
    MAINTENANCE_PREFIX@.is_prefix_of(body)
}

/// The body says that an index was not found.
pub open spec fn says_index_not_found(body: Seq<char>) -> bool {
    INDEX_PREFIX@.is_prefix_of(body) && NOT_FOUND_SUFFIX@.is_suffix_of(body)
}

/// The failure that the body of a failed response stands for. The body is
/// compared as text, character by character: it is never parsed.
pub open spec fn classified(body: Seq<char>) -> ErrorView {
    if says_index_exists(body) {
        ErrorView::IndexAlreadyExist
    } else if says_invalid_uid(body) {
        ErrorView::InvalidIndexUid
    } else if says_no_primary_key(body) {
        ErrorView::CantInferPrimaryKey
    } else if says_maintenance(body) {
        ErrorView::ServerInMaintenance
    } else if says_index_not_found(body) {
        ErrorView::IndexNotFound
    } else {
        ErrorView::Unknown(body)
    }
}

/// The character at a place where the known shapes differ: the one after
/// the opening `{"message":"`, the one after that, and the third from the end.
proof fn lemma_shape_marks()
    ensures
        INDEX_ALREADY_EXISTS_BODY@.len() == 62,
        INDEX_ALREADY_EXISTS_BODY@[12] == 'I',
        INDEX_ALREADY_EXISTS_BODY@[13] == 'm',
        INVALID_INDEX_UID_BODY@.len() == 160,
        INVALID_INDEX_UID_BODY@[12] == 'I',
        INVALID_INDEX_UID_BODY@[13] == 'n',
        INVALID_INDEX_UID_BODY@[157] == '.',
        NO_PRIMARY_KEY_BODY@.len() == 43,
        NO_PRIMARY_KEY_BODY@[12] == 'C',
        MAINTENANCE_PREFIX@.len() == 61,
        MAINTENANCE_PREFIX@[12] == 'S',
        INDEX_PREFIX@.len() == 18,
        INDEX_PREFIX@[12] == 'I',
        INDEX_PREFIX@[13] == 'n',
        NOT_FOUND_SUFFIX@.len() == 12,
        NOT_FOUND_SUFFIX@[9] == 'd',
{
    reveal_strlit("{\"message\":\"Impossible to create index; index already exists\"}");
    reveal_strlit(
        "{\"message\":\"Index must have a valid uid; Index uid can be of type integer or string only composed of alphanumeric characters, hyphens (-) and underscores (_).\"}",
    );
    reveal_strlit("{\"message\":\"Could not infer a primary key\"}");
    reveal_strlit("{\"message\":\"Server is in maintenance, please try again later\"");
    reveal_strlit("{\"message\":\"Index ");
    reveal_strlit(" not found\"}");
}

/// No body has two of the five known shapes, so the order in which they
/// are tried decides nothing.
pub proof fn lemma_known_shapes_exclusive(body: Seq<char>)
    ensures
        !(says_index_exists(body) && says_invalid_uid(body)),
        !(says_index_exists(body) && says_no_primary_key(body)),
        !(says_index_exists(body) && says_maintenance(body)),
        !(says_index_exists(body) && says_index_not_found(body)),
        !(says_invalid_uid(body) && says_no_primary_key(body)),
        !(says_invalid_uid(body) && says_maintenance(body)),
        !(says_invalid_uid(body) && says_index_not_found(body)),
        !(says_no_primary_key(body) && says_maintenance(body)),
        !(says_no_primary_key(body) && says_index_not_found(body)),
        !(says_maintenance(body) && says_index_not_found(body)),
{
    lemma_shape_marks();
    if says_maintenance(body) {
        assert(body[12] == MAINTENANCE_PREFIX@[12]);
    }
    if says_index_not_found(body) {
        assert(body[12] == INDEX_PREFIX@[12]);
        assert(body[13] == INDEX_PREFIX@[13]);
        let tail = body.subrange(body.len() - 12, body.len() as int);
        assert(tail[9] == NOT_FOUND_SUFFIX@[9]);
        assert(body[body.len() - 3] == 'd');
    }
}

/// The failure that a transport failure stands for, given the status code
/// that it carries.
pub open spec fn transport_failure(status: Option<u16>, error: reqwest::Error) -> ClientError {
    match status {
        None => ClientError::UnreachableServer,
        Some(_) => ClientError::Http(error),
    }
}

/// Trusted: calls `reqwest::Error::status`, which returns the status code of
/// the response that the error was made from and nothing for any other error,
/// and `StatusCode::as_u16`, which gives that code as a number.
#[verifier::external_body]
fn status_code(error: &reqwest::Error) -> (status: Option<u16>)
    ensures
        status == transport_status(*error),
{
    match error.status() {
        Some(code) => Some(code.as_u16()),
        None => None,
    }
}

/// Trusted: formats a string with `{:?}`, which calls `str`'s
/// implementation of `std::fmt::Debug`. The result depends on the string
/// alone.
#[verifier::external_body]
fn debug_text(text: &str) -> (quoted: String)
    ensures
        quoted@ == debug_form(text@),
{
    format!("{:?}", text)
}

/// Trusted: formats a `reqwest::Error` with `{:?}`, which calls its
/// implementation of `std::fmt::Debug`. Nothing is claimed of the text.
#[verifier::external_body]
fn transport_detail(error: &reqwest::Error) -> (detail: String) {
    format!("{:?}", error)
}

/// How the description of a failure of the HTTP client starts.
pub const HTTP_DESCRIPTION: &'static str = "Error::Http: The http request failed: ";

/// How the description of an unrecognised failure starts.
pub const UNKNOWN_DESCRIPTION: &'static str =
    "Error::Unknown: An unknown error occured. Please open an issue (https://github.com/Mubelotix/meilisearch-sdk/issues). Message: ";

/// The description of a failure, for a reader. `detail` is what the HTTP
/// client has to say of its own failure; the other failures do not use it.
pub open spec fn description(failure: ErrorView, detail: Seq<char>) -> Seq<char> {
    match failure {
        ErrorView::UnreachableServer =>
            "Error::UnreachableServer: The MeiliSearch server can't be reached."@,
        ErrorView::IndexAlreadyExist =>
            "Error::IndexAlreadyExist: The creation of an index failed because it already exists."@,
        ErrorView::IndexNotFound => "Error::IndexNotFound: The requested index does not exist."@,
        ErrorView::InvalidIndexUid =>
            "Error::InvalidIndexUid: The requested UID is invalid. Index UID can only be composed of alphanumeric characters, hyphens (-), and underscores (_)."@,
        ErrorView::CantInferPrimaryKey =>
            "Error::CantInferPrimaryKey: MeiliSearch was unable to infer the primary key of added documents."@,
        ErrorView::ServerInMaintenance =>
            "Error::ServerInMaintenance: Server is in maintenance, please try again later."@,
        ErrorView::Unknown(message) => UNKNOWN_DESCRIPTION@ + debug_form(message),
        ErrorView::Http(_) => HTTP_DESCRIPTION@ + detail + "."@,
    }
}

/// The description of an unrecognised failure, given its message as the
/// `{:?}` format writes it.
pub fn describe_unknown(quoted: &str) -> (text: String)
    ensures
        text@ == UNKNOWN_DESCRIPTION@ + quoted@,
{
    let mut text = String::from_str(UNKNOWN_DESCRIPTION);
    text.append(quoted);
    text
}

/// The description of a failure of the HTTP client, given what the client
/// has to say of it.
pub fn describe_http(detail: &str) -> (text: String)
    ensures
        text@ == HTTP_DESCRIPTION@ + detail@ + "."@,
{
    let mut text = String::from_str(HTTP_DESCRIPTION);
    text.append(detail);
    text.append(".");
    text
}

impl ClientError {
    /// The description of this failure, for a reader. That of an `Http`
    /// holds the HTTP client's own account of the failure, of which nothing
    /// is known here; every other description is fixed.
    pub fn describe(&self) -> (text: String)
        ensures
            !(self is Http) ==> text@ == description(self@, Seq::empty()),
            self is Http ==> exists|detail: Seq<char>|
                text@ == #[trigger] description(self@, detail),
    {
        match self {
            ClientError::UnreachableServer => String::from_str(
                "Error::UnreachableServer: The MeiliSearch server can't be reached.",
            ),
            ClientError::IndexAlreadyExist => String::from_str(
                "Error::IndexAlreadyExist: The creation of an index failed because it already exists.",
            ),
            ClientError::IndexNotFound => String::from_str(
                "Error::IndexNotFound: The requested index does not exist.",
            ),
            ClientError::InvalidIndexUid => String::from_str(
                "Error::InvalidIndexUid: The requested UID is invalid. Index UID can only be composed of alphanumeric characters, hyphens (-), and underscores (_).",
            ),
            ClientError::CantInferPrimaryKey => String::from_str(
                "Error::CantInferPrimaryKey: MeiliSearch was unable to infer the primary key of added documents.",
            ),
            ClientError::ServerInMaintenance => String::from_str(
                "Error::ServerInMaintenance: Server is in maintenance, please try again later.",
            ),
            ClientError::Unknown(message) => {
                let quoted = debug_text(message.as_str());
                describe_unknown(quoted.as_str())
            },
            ClientError::Http(error) => {
                let detail = transport_detail(error);
                let text = describe_http(detail.as_str());
                assert(text@ == description(self@, detail@));
                text
            },
        }
    }

    /// Sorts a transport failure by the status code that it carries: without
    /// one the server was never reached, with one the failure is passed on.
    pub fn from_transport(status: Option<u16>, error: reqwest::Error) -> (failure: ClientError)
        ensures
            failure == transport_failure(status, error),
    {
        match status {
            None => ClientError::UnreachableServer,
            Some(_) => ClientError::Http(error),
        }
    }
}

impl FromSpecImpl<&str> for ClientError {
    /// Nothing is said through `from_spec`: the text of an `Unknown` is known
    /// by its characters only. See the contract of `from`.
    open spec fn obeys_from_spec() -> bool {
        false
    }

    open spec fn from_spec(message: &str) -> ClientError {
        ClientError::UnreachableServer
    }
}

impl From<&str> for ClientError {
    /// Classifies the body of a failed response. A body that is not
    /// recognised is kept whole in `Unknown`.
    fn from(message: &str) -> (failure: ClientError)
        ensures
            failure@ == classified(message@),
    {
        if same_text(message, INDEX_ALREADY_EXISTS_BODY) {
            ClientError::IndexAlreadyExist
        } else if same_text(message, INVALID_INDEX_UID_BODY) {
            ClientError::InvalidIndexUid
        } else if same_text(message, NO_PRIMARY_KEY_BODY) {
            ClientError::CantInferPrimaryKey
        } else if starts_with(message, MAINTENANCE_PREFIX) {
            ClientError::ServerInMaintenance
        } else if starts_with(message, INDEX_PREFIX) && ends_with(message, NOT_FOUND_SUFFIX) {
            ClientError::IndexNotFound
        } else {
            ClientError::Unknown(String::from_str(message))
        }
    }
}

impl FromSpecImpl<reqwest::Error> for ClientError {
    open spec fn obeys_from_spec() -> bool {
        true
    }

    open spec fn from_spec(error: reqwest::Error) -> ClientError {
        transport_failure(transport_status(error), error)
    }
}

impl From<reqwest::Error> for ClientError {
    /// Classifies a transport failure: `UnreachableServer` where it carries
    /// no status code, `Http` with the failure inside where it carries one.
    fn from(error: reqwest::Error) -> (failure: ClientError)
        ensures
            failure == transport_failure(transport_status(error), error),
    {
        let status = status_code(&error);
        ClientError::from_transport(status, error)
    }
}

} // verus!
