//! Error types for IMAP and SMTP operations.
use vstd::prelude::*;

verus! {

/// `std::io::Error`, carried through as an opaque value.
#[verifier::external_type_specification]
#[verifier::external_body]
pub struct ExIoError(std::io::Error);

/// Errors that can occur during IMAP operations
#[derive(Debug)]
pub enum ImapError {
    /// Connection failed
    ConnectionFailed(String),
    /// Authentication failed
    AuthenticationFailed(String),
    /// Server returned an error
    ServerError(String),
    /// Folder not found
    FolderNotFound(String),
    /// Message not found
    MessageNotFound(u32),
    /// Parse error
    ParseError(String),
    /// TLS error
    TlsError(String),
    /// IO error
    IoError(std::io::Error),
    /// Session is not connected
    NotConnected,
    /// Operation timed out
    Timeout,
}

/// Errors that can occur during SMTP operations
#[derive(Debug)]
pub enum SmtpError {
    /// Connection failed
    ConnectionFailed(String),
    /// Authentication failed
    AuthenticationFailed(String),
    /// Failed to send message
    SendFailed(String),
    /// Invalid email address
    InvalidAddress(String),
    /// Message building error
    MessageBuildError(String),
    /// TLS error
    TlsError(String),
}

} // verus!
