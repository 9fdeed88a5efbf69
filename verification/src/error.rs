//! Error values of the plugin host and of the network server.

use std::sync::mpsc::{RecvError, SendError};
use vstd::prelude::*;

verus! {

/// `std::sync::mpsc::RecvError`: the sending half of a channel is gone.
/// Nothing is known of a value but that it exists.
#[verifier::external_type_specification]
#[verifier::external_body]
pub struct ExRecvError(RecvError);

/// `std::sync::mpsc::SendError`: the receiving half of a channel is gone.
/// It holds the message that could not be sent; nothing is stated of it.
#[verifier::external_type_specification]
#[verifier::external_body]
#[verifier::reject_recursive_types(T)]
pub struct ExSendError<T>(SendError<T>);

/// `std::io::Error`, carried through as it is.
#[verifier::external_type_specification]
#[verifier::external_body]
pub struct ExIoError(std::io::Error);

/// `mlua::Error`, the error of the scripting engine, carried through as
/// it is.
#[verifier::external_type_specification]
#[verifier::external_body]
pub struct ExLuaError(mlua::Error);

/// `bincode::ErrorKind`, the decoding error of the wire format, carried
/// through as it is.
#[verifier::external_type_specification]
#[verifier::external_body]
pub struct ExBincodeErrorKind(bincode::ErrorKind);

/// What went wrong while loading or running a plugin.
#[derive(Debug, Clone, Copy, PartialEq, Eq, Structural)]
pub enum PackageErrorKind {
    /// The plugin directory holds no entry script.
    NotAPackage,
    /// The scripting engine raised an error, or script code met an answer
    /// it cannot use.
    Lua,
    /// Reading the plugin from disk failed.
    Io,
    /// A channel to or from the plugin thread is closed.
    Sync,
    /// Any other failure.
    Generic,
}

/// An error of the plugin host: its kind and a message for the log.
#[derive(Debug, PartialEq, Eq)]
pub struct PackageError {
    pub kind: PackageErrorKind,
    pub msg: String,
}

impl PackageError {
    /// The error for a directory without an entry script: kind
    /// `NotAPackage` and an empty message.
    pub fn not_a_package() -> (e: Self)
        ensures
            e.kind == PackageErrorKind::NotAPackage,
            e.msg@ == Seq::<char>::empty(),
    {
        Self { kind: PackageErrorKind::NotAPackage, msg: String::new() }
    }

    /// An error of kind `Lua` with the given message: what script code
    /// gets thrown.
    pub fn script(msg: &str) -> (e: Self)
        ensures
            e.kind == PackageErrorKind::Lua,
            e.msg@ == msg@,
    {
        Self { kind: PackageErrorKind::Lua, msg: msg.to_owned() }
    }

    /// An error of kind `Generic` with the given message.
    pub fn generic(msg: String) -> (e: Self)
        ensures
            e.kind == PackageErrorKind::Generic,
            e.msg@ == msg@,
    {
        Self { kind: PackageErrorKind::Generic, msg }
    }

    /// The error is what a failed send of a `T` becomes: its kind is
    /// `Sync`, and its message is the text that some `SendError<T>` prints.
    pub open spec fn is_send_failure<T>(self) -> bool {
        &&& self.kind == PackageErrorKind::Sync
        &&& exists|v: SendError<T>| #[trigger]
            vstd::string::to_string_from_display_ensures::<SendError<T>>(&v, self.msg)
    }

    /// The error is what a failed receive becomes: its kind is `Sync`, and
    /// its message is the text that some `RecvError` prints.
    pub open spec fn is_recv_failure(self) -> bool {
        &&& self.kind == PackageErrorKind::Sync
        &&& exists|v: RecvError| #[trigger]
            vstd::string::to_string_from_display_ensures::<RecvError>(&v, self.msg)
    }

    /// A failed receive becomes an error of kind `Sync`; the message is
    /// the text that the channel error prints.
    pub fn from_recv(value: RecvError) -> (e: Self)
        ensures
            e.kind == PackageErrorKind::Sync,
            vstd::string::to_string_from_display_ensures::<RecvError>(&value, e.msg),
            e.is_recv_failure(),
    {
        let e = Self { kind: PackageErrorKind::Sync, msg: value.to_string() };
        assert(vstd::string::to_string_from_display_ensures::<RecvError>(&value, e.msg));
        e
    }

    /// A failed send becomes an error of kind `Sync`; the message is the
    /// text that the channel error prints. The unsent message is dropped.
    pub fn from_send<T>(value: SendError<T>) -> (e: Self)
        ensures
            e.kind == PackageErrorKind::Sync,
            vstd::string::to_string_from_display_ensures::<SendError<T>>(&value, e.msg),
            e.is_send_failure::<T>(),
    {
        Self { kind: PackageErrorKind::Sync, msg: value.to_string() }
    }

    /// An I/O error becomes an error of kind `Io` with the text that the
    /// I/O error prints.
    pub fn from_io(value: std::io::Error) -> (e: Self)
        ensures
            e.kind == PackageErrorKind::Io,
            vstd::string::to_string_from_display_ensures::<std::io::Error>(&value, e.msg),
    {
        Self { kind: PackageErrorKind::Io, msg: value.to_string() }
    }

    /// An error of the scripting engine becomes an error of kind `Lua`
    /// with the text that the engine's error prints.
    pub fn from_lua(value: mlua::Error) -> (e: Self)
        ensures
            e.kind == PackageErrorKind::Lua,
            vstd::string::to_string_from_display_ensures::<mlua::Error>(&value, e.msg),
    {
        Self { kind: PackageErrorKind::Lua, msg: value.to_string() }
    }
}

/// An error of the network server: a message for the log.
#[derive(Debug, PartialEq, Eq)]
pub struct ServerError {
    msg: String,
}

impl ServerError {
    /// The message.
    pub closed spec fn message(&self) -> String {
        self.msg
    }

    /// An error with the given message.
    pub fn new(msg: String) -> (e: Self)
        ensures
            e.message() == msg,
    {
        ServerError { msg }
    }

    /// The message.
    pub fn msg(&self) -> (r: &String)
        ensures
            *r == self.message(),
    {
        &self.msg
    }

    /// An I/O error becomes an error with the text that it prints.
    pub fn from_io(value: std::io::Error) -> (e: Self)
        ensures
            vstd::string::to_string_from_display_ensures::<std::io::Error>(&value, e.message()),
    {
        ServerError { msg: value.to_string() }
    }

    /// A decoding error becomes an error with the text that it prints.
    pub fn from_bincode(value: bincode::Error) -> (e: Self)
        ensures
            vstd::string::to_string_from_display_ensures::<bincode::Error>(&value, e.message()),
    {
        ServerError { msg: value.to_string() }
    }
}

} // verus!
