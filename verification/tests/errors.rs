use std::sync::mpsc::channel;

use einkrad::error::{PackageError, PackageErrorKind, ServerError};

#[test]
fn not_a_package_has_kind_and_empty_message() {
    let e = PackageError::not_a_package();
    assert_eq!(e.kind, PackageErrorKind::NotAPackage);
    assert_eq!(e.msg, "");
}

#[test]
fn script_error_carries_its_message() {
    let e = PackageError::script("could not create scene");
    assert_eq!(e.kind, PackageErrorKind::Lua);
    assert_eq!(e.msg, "could not create scene");
}

#[test]
fn generic_error_carries_its_message() {
    let e = PackageError::generic(String::from("anything"));
    assert_eq!(e.kind, PackageErrorKind::Generic);
    assert_eq!(e.msg, "anything");
}

#[test]
fn receive_error_becomes_sync() {
    let (tx, rx) = channel::<u8>();
    drop(tx);
    let failure = rx.recv().unwrap_err();
    let text = failure.to_string();
    let e = PackageError::from_recv(failure);
    assert_eq!(e.kind, PackageErrorKind::Sync);
    assert_eq!(e.msg, text);
    assert!(!e.msg.is_empty());
}

#[test]
fn send_error_becomes_sync() {
    let (tx, rx) = channel::<u8>();
    drop(rx);
    let failure = tx.send(1).unwrap_err();
    let text = failure.to_string();
    let e = PackageError::from_send(failure);
    assert_eq!(e.kind, PackageErrorKind::Sync);
    assert_eq!(e.msg, text);
}

#[test]
fn io_error_becomes_io() {
    let failure = std::io::Error::new(std::io::ErrorKind::NotFound, "no such script");
    let e = PackageError::from_io(failure);
    assert_eq!(e.kind, PackageErrorKind::Io);
    assert_eq!(e.msg, "no such script");
}

#[test]
fn engine_error_becomes_lua() {
    let failure = mlua::Error::runtime("could not create scene");
    let text = failure.to_string();
    let e = PackageError::from_lua(failure);
    assert_eq!(e.kind, PackageErrorKind::Lua);
    assert_eq!(e.msg, text);
    assert!(e.msg.contains("could not create scene"));
}

#[test]
fn package_error_prints_as_its_debug_form() {
    let e = PackageError { kind: PackageErrorKind::Sync, msg: String::from("closed") };
    assert_eq!(format!("{:?}", e), "PackageError { kind: Sync, msg: \"closed\" }");
}

#[test]
fn server_error_keeps_its_message() {
    let e = ServerError::new(String::from("bad frame"));
    assert_eq!(e.msg(), "bad frame");
    assert_eq!(format!("{:?}", e), "ServerError { msg: \"bad frame\" }");
}

#[test]
fn server_error_from_io() {
    let failure = std::io::Error::new(std::io::ErrorKind::UnexpectedEof, "short read");
    let e = ServerError::from_io(failure);
    assert_eq!(e.msg(), "short read");
}

#[test]
fn server_error_from_decoding() {
    let failure: bincode::Error = Box::new(bincode::ErrorKind::SizeLimit);
    let text = failure.to_string();
    let e = ServerError::from_bincode(failure);
    assert_eq!(e.msg(), &text);
    assert!(!text.is_empty());
}
