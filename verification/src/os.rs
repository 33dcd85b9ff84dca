//! The error numbers and file types of Linux that decisions are made by.
//!
//! The values are those of `libc` on Linux (x86-64, AArch64 and the other
//! architectures that share the generic numbers).

use vstd::prelude::*;

verus! {

/// `libc::EPERM`: 1.
#[verifier::external_body]
pub(crate) fn eperm() -> (r: i32)
    ensures
        r == 1,
{
    libc::EPERM
}

/// `libc::ENOENT`: 2.
#[verifier::external_body]
pub(crate) fn enoent() -> (r: i32)
    ensures
        r == 2,
{
    libc::ENOENT
}

/// `libc::EACCES`: 13.
#[verifier::external_body]
pub(crate) fn eacces() -> (r: i32)
    ensures
        r == 13,
{
    libc::EACCES
}

/// `libc::ENOTDIR`: 20.
#[verifier::external_body]
pub(crate) fn enotdir() -> (r: i32)
    ensures
        r == 20,
{
    libc::ENOTDIR
}

/// `libc::ELOOP`: 40.
#[verifier::external_body]
pub(crate) fn eloop() -> (r: i32)
    ensures
        r == 40,
{
    libc::ELOOP
}

/// `libc::ESTALE`: 116.
#[verifier::external_body]
pub(crate) fn estale() -> (r: i32)
    ensures
        r == 116,
{
    libc::ESTALE
}

/// `libc::ENOSPC`: 28.
#[verifier::external_body]
pub(crate) fn enospc() -> (r: i32)
    ensures
        r == 28,
{
    libc::ENOSPC
}

/// `libc::EDQUOT`: 122.
#[verifier::external_body]
pub(crate) fn edquot() -> (r: i32)
    ensures
        r == 122,
{
    libc::EDQUOT
}

/// `libc::EIO`: 5.
#[verifier::external_body]
pub(crate) fn eio() -> (r: i32)
    ensures
        r == 5,
{
    libc::EIO
}

/// `libc::ECONNREFUSED`: 111.
#[verifier::external_body]
pub(crate) fn econnrefused() -> (r: i32)
    ensures
        r == 111,
{
    libc::ECONNREFUSED
}

/// `libc::EPROTOTYPE`: 91.
#[verifier::external_body]
pub(crate) fn eprototype() -> (r: i32)
    ensures
        r == 91,
{
    libc::EPROTOTYPE
}

/// `libc::EAGAIN`: 11.
#[verifier::external_body]
pub(crate) fn eagain() -> (r: i32)
    ensures
        r == 11,
{
    libc::EAGAIN
}

/// `libc::EINPROGRESS`: 115.
#[verifier::external_body]
pub(crate) fn einprogress() -> (r: i32)
    ensures
        r == 115,
{
    libc::EINPROGRESS
}

/// `libc::EEXIST`: 17.
#[verifier::external_body]
pub(crate) fn eexist() -> (r: i32)
    ensures
        r == 17,
{
    libc::EEXIST
}

/// `libc::EXDEV`: 18.
#[verifier::external_body]
pub(crate) fn exdev() -> (r: i32)
    ensures
        r == 18,
{
    libc::EXDEV
}

/// What `nix` calls the error numbered `errno`: its name and what it means.
pub uninterp spec fn error_name(errno: i32) -> Seq<char>;

/// `nix::errno::Errno::from_raw`, as it displays itself: a fixed text for each
/// number, which is only named here.
#[verifier::external_body]
pub(crate) fn name_error(errno: i32) -> (r: String)
    ensures
        r@ == error_name(errno),
{
    nix::errno::Errno::from_raw(errno).to_string()
}

/// `libc::S_IFMT`, the mask of a mode's file type: 0o170000.
#[verifier::external_body]
fn s_ifmt() -> (r: u32)
    ensures
        r == 0o170000,
{
    libc::S_IFMT
}

/// `libc::S_IFREG`: 0o100000.
#[verifier::external_body]
fn s_ifreg() -> (r: u32)
    ensures
        r == 0o100000,
{
    libc::S_IFREG
}

/// `libc::S_IFDIR`: 0o040000.
#[verifier::external_body]
fn s_ifdir() -> (r: u32)
    ensures
        r == 0o040000,
{
    libc::S_IFDIR
}

/// `libc::S_IFLNK`: 0o120000.
#[verifier::external_body]
fn s_iflnk() -> (r: u32)
    ensures
        r == 0o120000,
{
    libc::S_IFLNK
}

/// `libc::S_IFIFO`: 0o010000.
#[verifier::external_body]
fn s_ififo() -> (r: u32)
    ensures
        r == 0o010000,
{
    libc::S_IFIFO
}

/// `libc::S_IFSOCK`: 0o140000.
#[verifier::external_body]
fn s_ifsock() -> (r: u32)
    ensures
        r == 0o140000,
{
    libc::S_IFSOCK
}

/// `ENOENT` or `ENOTDIR`: there is nothing by that name.
pub open spec fn errno_absent(e: i32) -> bool {
    e == 2 || e == 20
}

/// `ENOENT`, `ENOTDIR` or `ELOOP`: no directory of ours is there any more.
pub open spec fn errno_gone(e: i32) -> bool {
    errno_absent(e) || e == 40
}

/// `EACCES` or `EPERM`: this daemon may not look.
pub open spec fn errno_denied(e: i32) -> bool {
    e == 13 || e == 1
}

pub fn absent(e: i32) -> (r: bool)
    ensures
        r == errno_absent(e),
{
    e == enoent() || e == enotdir()
}

pub fn gone(e: i32) -> (r: bool)
    ensures
        r == errno_gone(e),
{
    absent(e) || e == eloop()
}

pub fn denied(e: i32) -> (r: bool)
    ensures
        r == errno_denied(e),
{
    e == eacces() || e == eperm()
}

/// What a directory entry is.
#[derive(Debug, Clone, Copy, PartialEq, Eq, Structural)]
pub enum Type {
    File,
    Dir,
    Symlink,
    Fifo,
    Socket,
    Device,
}

/// The type a mode's file type bits say.
pub open spec fn type_of_mode(mode: u32) -> Type {
    let bits = mode & 0o170000;
    if bits == 0o100000 {
        Type::File
    } else if bits == 0o040000 {
        Type::Dir
    } else if bits == 0o120000 {
        Type::Symlink
    } else if bits == 0o010000 {
        Type::Fifo
    } else if bits == 0o140000 {
        Type::Socket
    } else {
        Type::Device
    }
}

/// Why it is never uploaded, for anything but a file or a directory.
pub open spec fn type_reason(t: Type) -> Option<Seq<char>> {
    match t {
        Type::File | Type::Dir => None,
        Type::Symlink => Some("symlink"@),
        Type::Fifo => Some("fifo"@),
        Type::Socket => Some("socket"@),
        Type::Device => Some("device"@),
    }
}

impl Type {
    /// The type `mode` says.
    pub fn of_mode(mode: u32) -> (r: Type)
        ensures
            r == type_of_mode(mode),
    {
        let bits: u32 = mode & s_ifmt();
        if bits == s_ifreg() {
            Type::File
        } else if bits == s_ifdir() {
            Type::Dir
        } else if bits == s_iflnk() {
            Type::Symlink
        } else if bits == s_ififo() {
            Type::Fifo
        } else if bits == s_ifsock() {
            Type::Socket
        } else {
            Type::Device
        }
    }

    /// Why it is never uploaded, for anything but a file or a directory.
    pub fn skip_reason(self) -> (r: Option<&'static str>)
        ensures
            match r {
                Some(reason) => type_reason(self) == Some(reason@),
                None => type_reason(self) is None,
            },
    {
        match self {
            Type::File | Type::Dir => None,
            Type::Symlink => Some("symlink"),
            Type::Fifo => Some("fifo"),
            Type::Socket => Some("socket"),
            Type::Device => Some("device"),
        }
    }
}

} // verus!
