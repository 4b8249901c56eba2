use vstd::prelude::*;

verus! {

/// The ways an operation of the client can fail.
#[derive(Debug, Clone, Copy, PartialEq, Eq, Structural)]
pub enum ClientErrors {
    /// The transport could not be established, or is gone.
    ConnectionError,
    /// A line could not be written.
    WriteError,
    /// Reading from the transport failed.
    ReadError,
    /// Flushing the transport failed.
    FlushError,
    /// Bytes that should hold text are not valid text.
    ConversionError,
    /// The peer sent a line longer than the framer accepts.
    OversizedLineError,
    /// The peer closed the connection.
    EndOfStream,
}

/// What each failure says to a person.
pub open spec fn error_text(e: ClientErrors) -> Seq<char> {
    match e {
        ClientErrors::ConnectionError => "Could not connect"@,
        ClientErrors::WriteError => "Could not write to stream"@,
        ClientErrors::ReadError => "Could not read from stream"@,
        ClientErrors::FlushError => "Could not flush stream"@,
        ClientErrors::ConversionError => "Could not convert message"@,
        ClientErrors::OversizedLineError => "Line too long"@,
        ClientErrors::EndOfStream => "Connection closed by peer"@,
    }
}

impl ClientErrors {
    /// A sentence that says what went wrong.
    pub fn message(&self) -> (r: &'static str)
        ensures
            r@ == error_text(*self),
    {
        match self {
            ClientErrors::ConnectionError => "Could not connect",
            ClientErrors::WriteError => "Could not write to stream",
            ClientErrors::ReadError => "Could not read from stream",
            ClientErrors::FlushError => "Could not flush stream",
            ClientErrors::ConversionError => "Could not convert message",
            ClientErrors::OversizedLineError => "Line too long",
            ClientErrors::EndOfStream => "Connection closed by peer",
        }
    }
}

} // verus!
