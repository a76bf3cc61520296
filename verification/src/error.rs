//! What can go wrong while an address is resolved.

use vstd::prelude::*;

use crate::port::PortError;

verus! {

/// The error of the `url` crate, carried along as it is.
#[verifier::external_type_specification]
#[verifier::external_body]
pub struct ExUrlParseError(url::ParseError);

/// The error of decoding text, carried along as it is.
#[verifier::external_type_specification]
#[verifier::external_body]
pub struct ExUtf8Error(core::str::Utf8Error);

/// Why an address, or one way to resolve it, failed. What the network or the system
/// reports is kept as its message.
#[derive(Debug)]
#[non_exhaustive]
pub enum Error {
    /// The dns resolver could not be set up.
    CreateResolver(String),
    /// The text looks like an IPv4 address but is none.
    InvalidIp4Address,
    /// The text looks like an IPv6 address but is none.
    InvalidIp6Address,
    /// The text has square brackets at the wrong places.
    InvalidIpAddress,
    /// The text cannot be a nickname.
    InvalidNickname,
    /// The text behind the colon is no port.
    InvalidPort(PortError),
    /// A server could not be contacted: its kind, and the message.
    Io(&'static str, String),
    /// The address of the nickname lookup could not be built.
    NicknameParseUrl(url::ParseError),
    /// The nickname lookup failed.
    NicknameResolve(String),
    /// The host name could not be resolved.
    ResolveHost(String),
    /// The SRV record could not be fetched.
    SrvLookup(String),
    /// The tsdns server answered with something else than an ip address.
    TsdnsAddressInvalidResponse(String),
    /// The tsdns server does not know the address.
    TsdnsAddressNotFound,
    /// The answer of the tsdns server is no text.
    TsdnsParseResponse(core::str::Utf8Error),
}

/// An error with its texts as sequences of characters.
pub enum ErrorView {
    CreateResolver(Seq<char>),
    InvalidIp4Address,
    InvalidIp6Address,
    InvalidIpAddress,
    InvalidNickname,
    InvalidPort(PortError),
    Io(Seq<char>, Seq<char>),
    NicknameParseUrl(url::ParseError),
    NicknameResolve(Seq<char>),
    ResolveHost(Seq<char>),
    SrvLookup(Seq<char>),
    TsdnsAddressInvalidResponse(Seq<char>),
    TsdnsAddressNotFound,
    TsdnsParseResponse(core::str::Utf8Error),
}

impl View for Error {
    type V = ErrorView;

    open spec fn view(&self) -> ErrorView {
        match self {
            Error::CreateResolver(m) => ErrorView::CreateResolver(m@),
            Error::InvalidIp4Address => ErrorView::InvalidIp4Address,
            Error::InvalidIp6Address => ErrorView::InvalidIp6Address,
            Error::InvalidIpAddress => ErrorView::InvalidIpAddress,
            Error::InvalidNickname => ErrorView::InvalidNickname,
            Error::InvalidPort(e) => ErrorView::InvalidPort(*e),
            Error::Io(kind, m) => ErrorView::Io(kind@, m@),
            Error::NicknameParseUrl(e) => ErrorView::NicknameParseUrl(*e),
            Error::NicknameResolve(m) => ErrorView::NicknameResolve(m@),
            Error::ResolveHost(m) => ErrorView::ResolveHost(m@),
            Error::SrvLookup(m) => ErrorView::SrvLookup(m@),
            Error::TsdnsAddressInvalidResponse(m) => ErrorView::TsdnsAddressInvalidResponse(m@),
            Error::TsdnsAddressNotFound => ErrorView::TsdnsAddressNotFound,
            Error::TsdnsParseResponse(e) => ErrorView::TsdnsParseResponse(*e),
        }
    }
}

/// An error keeps all that it holds when it is looked at.
pub proof fn law_error_views(
    m: String,
    p: PortError,
    u: url::ParseError,
    t: core::str::Utf8Error,
    kind: &'static str,
)
    ensures
        Error::CreateResolver(m)@ == ErrorView::CreateResolver(m@),
        Error::InvalidIp4Address@ == ErrorView::InvalidIp4Address,
        Error::InvalidIp6Address@ == ErrorView::InvalidIp6Address,
        Error::InvalidIpAddress@ == ErrorView::InvalidIpAddress,
        Error::InvalidNickname@ == ErrorView::InvalidNickname,
        Error::InvalidPort(p)@ == ErrorView::InvalidPort(p),
        Error::Io(kind, m)@ == ErrorView::Io(kind@, m@),
        Error::NicknameParseUrl(u)@ == ErrorView::NicknameParseUrl(u),
        Error::NicknameResolve(m)@ == ErrorView::NicknameResolve(m@),
        Error::ResolveHost(m)@ == ErrorView::ResolveHost(m@),
        Error::SrvLookup(m)@ == ErrorView::SrvLookup(m@),
        Error::TsdnsAddressInvalidResponse(m)@ == ErrorView::TsdnsAddressInvalidResponse(m@),
        Error::TsdnsAddressNotFound@ == ErrorView::TsdnsAddressNotFound,
        Error::TsdnsParseResponse(t)@ == ErrorView::TsdnsParseResponse(t),
{
}

} // verus!
