use vstd::prelude::*;

verus! {

/// Why a connection is closed: the number at the start of a close frame.
///
/// The last three variants carry their number. A value is well formed
/// ([`CloseCode::wf`]) where that number lies in the variant's range; every
/// value that [`TryFrom<u16>`] gives is.
#[derive(Clone, Copy, Debug, PartialEq, Eq, Structural)]
pub enum CloseCode {
    /// 1000: the purpose of the connection is fulfilled.
    Normal,
    /// 1001: an endpoint goes away.
    GoingAway,
    /// 1002: an endpoint broke the protocol.
    ProtocolError,
    /// 1003: an endpoint received a kind of data it cannot accept.
    UnsupportedData,
    /// 1005: stands for a close frame without a code; never sent.
    NoStatus,
    /// 1006: stands for a connection lost without a close frame; never sent.
    Abnormal,
    /// 1007: the data of a message does not fit its kind.
    InvalidPayload,
    /// 1008: a message violates the endpoint's policy.
    PolicyViolation,
    /// 1009: a message is too big to process.
    MessageTooBig,
    /// 1010: the server did not negotiate an extension that the client needs.
    MandatoryExtension,
    /// 1011: the server met an unexpected condition.
    InternalError,
    /// 1012: the service restarts.
    ServiceRestart,
    /// 1013: the service is overloaded.
    TryAgainLater,
    /// 1014: a gateway received an invalid response.
    BadGateway,
    /// 1015: stands for a failed TLS handshake; never sent.
    TlsHandshake,
    /// 1004 and 1016 to 2999: kept for later versions of the protocol.
    Reserved(u16),
    /// 3000 to 3999: registered by libraries and frameworks.
    Registered(u16),
    /// 4000 to 4999: for private use.
    Private(u16),
}

/// A number that is no close code: below 1000 or above 4999.
#[derive(Clone, Copy, Debug, PartialEq, Eq, Structural)]
pub struct InvalidCloseCode(pub u16);

impl CloseCode {
    /// The number of this code.
    pub open spec fn number(self) -> u16 {
        match self {
            CloseCode::Normal => 1000,
            CloseCode::GoingAway => 1001,
            CloseCode::ProtocolError => 1002,
            CloseCode::UnsupportedData => 1003,
            CloseCode::NoStatus => 1005,
            CloseCode::Abnormal => 1006,
            CloseCode::InvalidPayload => 1007,
            CloseCode::PolicyViolation => 1008,
            CloseCode::MessageTooBig => 1009,
            CloseCode::MandatoryExtension => 1010,
            CloseCode::InternalError => 1011,
            CloseCode::ServiceRestart => 1012,
            CloseCode::TryAgainLater => 1013,
            CloseCode::BadGateway => 1014,
            CloseCode::TlsHandshake => 1015,
            CloseCode::Reserved(n) => n,
            CloseCode::Registered(n) => n,
            CloseCode::Private(n) => n,
        }
    }

    /// A number carried by a variant lies in the range of that variant.
    pub open spec fn wf(self) -> bool {
        match self {
            CloseCode::Reserved(n) => n == 1004 || 1016 <= n <= 2999,
            CloseCode::Registered(n) => 3000 <= n <= 3999,
            CloseCode::Private(n) => 4000 <= n <= 4999,
            _ => true,
        }
    }

    /// The codes that no close frame may carry.
    pub open spec fn spec_is_reserved(self) -> bool {
        self is NoStatus || self is Abnormal || self is TlsHandshake || self is Reserved
    }

    /// The code with the given number, where there is one.
    pub open spec fn of(number: u16) -> Option<CloseCode> {
        if 1000 <= number <= 4999 {
            Some(
                match number {
                    1000 => CloseCode::Normal,
                    1001 => CloseCode::GoingAway,
                    1002 => CloseCode::ProtocolError,
                    1003 => CloseCode::UnsupportedData,
                    1005 => CloseCode::NoStatus,
                    1006 => CloseCode::Abnormal,
                    1007 => CloseCode::InvalidPayload,
                    1008 => CloseCode::PolicyViolation,
                    1009 => CloseCode::MessageTooBig,
                    1010 => CloseCode::MandatoryExtension,
                    1011 => CloseCode::InternalError,
                    1012 => CloseCode::ServiceRestart,
                    1013 => CloseCode::TryAgainLater,
                    1014 => CloseCode::BadGateway,
                    1015 => CloseCode::TlsHandshake,
                    _ => if number < 3000 {
                        CloseCode::Reserved(number)
                    } else if number < 4000 {
                        CloseCode::Registered(number)
                    } else {
                        CloseCode::Private(number)
                    },
                },
            )
        } else {
            None
        }
    }

    /// Whether this is a code that no close frame may carry.
    pub fn is_reserved(self) -> (reserved: bool)
        ensures
            reserved == self.spec_is_reserved(),
    {
        match self {
            CloseCode::NoStatus
            | CloseCode::Abnormal
            | CloseCode::TlsHandshake
            | CloseCode::Reserved(_) => true,
            _ => false,
        }
    }
}

impl vstd::std_specs::convert::FromSpecImpl<CloseCode> for u16 {
    open spec fn obeys_from_spec() -> bool {
        true
    }

    open spec fn from_spec(code: CloseCode) -> u16 {
        code.number()
    }
}

impl From<CloseCode> for u16 {
    /// The number of a close code.
    fn from(code: CloseCode) -> (number: u16) {
        match code {
            CloseCode::Normal => 1000,
            CloseCode::GoingAway => 1001,
            CloseCode::ProtocolError => 1002,
            CloseCode::UnsupportedData => 1003,
            CloseCode::NoStatus => 1005,
            CloseCode::Abnormal => 1006,
            CloseCode::InvalidPayload => 1007,
            CloseCode::PolicyViolation => 1008,
            CloseCode::MessageTooBig => 1009,
            CloseCode::MandatoryExtension => 1010,
            CloseCode::InternalError => 1011,
            CloseCode::ServiceRestart => 1012,
            CloseCode::TryAgainLater => 1013,
            CloseCode::BadGateway => 1014,
            CloseCode::TlsHandshake => 1015,
            CloseCode::Reserved(n) => n,
            CloseCode::Registered(n) => n,
            CloseCode::Private(n) => n,
        }
    }
}

impl vstd::std_specs::convert::TryFromSpecImpl<u16> for CloseCode {
    open spec fn obeys_try_from_spec() -> bool {
        true
    }

    open spec fn try_from_spec(number: u16) -> Result<CloseCode, InvalidCloseCode> {
        match CloseCode::of(number) {
            Some(code) => Ok(code),
            None => Err(InvalidCloseCode(number)),
        }
    }
}

impl TryFrom<u16> for CloseCode {
    type Error = InvalidCloseCode;

    /// The close code with the given number.
    fn try_from(number: u16) -> (code: Result<CloseCode, InvalidCloseCode>) {
        if number < 1000 || number > 4999 {
            return Err(InvalidCloseCode(number));
        }
        Ok(
            match number {
                1000 => CloseCode::Normal,
                1001 => CloseCode::GoingAway,
                1002 => CloseCode::ProtocolError,
                1003 => CloseCode::UnsupportedData,
                1005 => CloseCode::NoStatus,
                1006 => CloseCode::Abnormal,
                1007 => CloseCode::InvalidPayload,
                1008 => CloseCode::PolicyViolation,
                1009 => CloseCode::MessageTooBig,
                1010 => CloseCode::MandatoryExtension,
                1011 => CloseCode::InternalError,
                1012 => CloseCode::ServiceRestart,
                1013 => CloseCode::TryAgainLater,
                1014 => CloseCode::BadGateway,
                1015 => CloseCode::TlsHandshake,
                _ => if number < 3000 {
                    CloseCode::Reserved(number)
                } else if number < 4000 {
                    CloseCode::Registered(number)
                } else {
                    CloseCode::Private(number)
                },
            },
        )
    }
}

/// The code found for a number is well formed and has that number.
pub proof fn code_of_number_has_that_number(number: u16)
    ensures
        CloseCode::of(number) is Some <==> 1000 <= number <= 4999,
        CloseCode::of(number) matches Some(code) ==> code.wf() && code.number() == number,
{
}

/// A well-formed code is found again by its number.
pub proof fn code_is_found_by_its_number(code: CloseCode)
    requires
        code.wf(),
    ensures
        CloseCode::of(code.number()) == Some(code),
{
}

/// Which number belongs to which code: the numbers with a name of their own, the
/// ranges of the others, and those that no close frame may carry.
pub proof fn codes_have_their_numbers(code: CloseCode)
    requires
        code.wf(),
    ensures
        1000 <= code.number() <= 4999,
        code is Normal <==> code.number() == 1000,
        code is GoingAway <==> code.number() == 1001,
        code is ProtocolError <==> code.number() == 1002,
        code is UnsupportedData <==> code.number() == 1003,
        code is NoStatus <==> code.number() == 1005,
        code is Abnormal <==> code.number() == 1006,
        code is InvalidPayload <==> code.number() == 1007,
        code is PolicyViolation <==> code.number() == 1008,
        code is MessageTooBig <==> code.number() == 1009,
        code is MandatoryExtension <==> code.number() == 1010,
        code is InternalError <==> code.number() == 1011,
        code is ServiceRestart <==> code.number() == 1012,
        code is TryAgainLater <==> code.number() == 1013,
        code is BadGateway <==> code.number() == 1014,
        code is TlsHandshake <==> code.number() == 1015,
        code is Registered <==> 3000 <= code.number() <= 3999,
        code is Private <==> 4000 <= code.number() <= 4999,
        code.spec_is_reserved() <==> 1004 <= code.number() <= 1006 || 1015 <= code.number()
            <= 2999,
{
}

} // verus!
