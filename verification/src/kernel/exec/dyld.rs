//! What a program needs of other images.

use crate::kernel::arch::uart;
use crate::kernel::arch::uart::Console;
use crate::loader::image;
use crate::loader::image::{ImageView, UserImage};
use crate::loader::load_cmd::{DylibRef, DylibSpec};
use vstd::prelude::*;

verus! {

/// `log` with a line for a name.
pub open spec fn put_entry(log: Seq<u8>, label: Seq<char>, name: Seq<char>) -> Seq<u8> {
    uart::put_str(uart::put_str(uart::put_str(log, label), name), "\n"@)
}

/// `log` with a line for each of the first `n` dylibs.
pub open spec fn put_dylibs(log: Seq<u8>, label: Seq<char>, deps: Seq<DylibSpec>, n: int) -> Seq<u8>
    decreases n,
{
    if n <= 0 {
        log
    } else {
        put_entry(put_dylibs(log, label, deps, n - 1), label, deps[n - 1].name)
    }
}

/// `log` with a line for each of the first `n` search paths.
pub open spec fn put_paths(log: Seq<u8>, paths: Seq<Seq<char>>, n: int) -> Seq<u8>
    decreases n,
{
    if n <= 0 {
        log
    } else {
        put_entry(put_paths(log, paths, n - 1), "  RPATH  "@, paths[n - 1])
    }
}

/// `log` with each of the first `n` bytes as a number.
pub open spec fn put_bytes(log: Seq<u8>, b: Seq<u8>, n: int) -> Seq<u8>
    decreases n,
{
    if n <= 0 {
        log
    } else {
        uart::put_hex(put_bytes(log, b, n - 1), b[n - 1] as u64)
    }
}

/// `log` with the dylibs, search paths and UUID of an image.
pub open spec fn put_deps(log: Seq<u8>, i: ImageView, name: Seq<char>) -> Seq<u8> {
    let a = uart::put_str(
        uart::put_str(uart::put_str(log, "xnu-rs: deps for "@), name),
        ":\n"@,
    );
    let b = put_dylibs(a, "  LOAD   "@, i.dylib_deps, i.dylib_deps.len() as int);
    let c = put_dylibs(b, "  WEAK   "@, i.weak_dylib_deps, i.weak_dylib_deps.len() as int);
    let d = put_paths(c, i.rpaths, i.rpaths.len() as int);
    match i.uuid {
        Some(u) => uart::put_str(put_bytes(uart::put_str(d, "  UUID   "@), u, 16), "\n"@),
        None => d,
    }
}

/// Writes a line for each dylib.
fn log_dylibs(console: &mut Console, label: &str, deps: &Vec<DylibRef>)
    ensures
        final(console)@ == put_dylibs(
            old(console)@,
            label@,
            image::dylib_views(deps@),
            deps@.len() as int,
        ),
{
    let mut i: usize = 0;
    while i < deps.len()
        invariant
            i <= deps@.len(),
            console@ == put_dylibs(
                old(console)@,
                label@,
                image::dylib_views(deps@),
                i as int,
            ),
        decreases deps@.len() - i,
    {
        assert(image::dylib_views(deps@)[i as int] == deps@[i as int]@);
        uart::write_str(console, label);
        uart::write_str(console, deps[i].name);
        uart::write_str(console, "\n");
        i += 1;
    }
}

/// Writes a line for each search path.
fn log_paths(console: &mut Console, paths: &Vec<&str>)
    ensures
        final(console)@ == put_paths(
            old(console)@,
            image::str_views(paths@),
            paths@.len() as int,
        ),
{
    let mut i: usize = 0;
    while i < paths.len()
        invariant
            i <= paths@.len(),
            console@ == put_paths(old(console)@, image::str_views(paths@), i as int),
        decreases paths@.len() - i,
    {
        assert(image::str_views(paths@)[i as int] == paths@[i as int]@);
        uart::write_str(console, "  RPATH  ");
        uart::write_str(console, paths[i]);
        uart::write_str(console, "\n");
        i += 1;
    }
}

/// Writes each byte of a UUID as a number.
fn log_uuid(console: &mut Console, uuid: &[u8; 16])
    ensures
        final(console)@ == put_bytes(old(console)@, uuid@, 16),
{
    let mut i: usize = 0;
    while i < 16
        invariant
            i <= 16,
            console@ == put_bytes(old(console)@, uuid@, i as int),
        decreases 16 - i,
    {
        uart::write_hex_u64(console, uuid[i] as u64);
        i += 1;
    }
}

/// Tells the console which dylibs and search paths an image names.
pub fn log_deps(console: &mut Console, image: &UserImage, name: &str)
    ensures
        final(console)@ == put_deps(old(console)@, image@, name@),
{
    uart::write_str(console, "xnu-rs: deps for ");
    uart::write_str(console, name);
    uart::write_str(console, ":\n");
    log_dylibs(console, "  LOAD   ", &image.dylib_deps);
    log_dylibs(console, "  WEAK   ", &image.weak_dylib_deps);
    log_paths(console, &image.rpaths);
    if let Some(uuid) = image.uuid {
        uart::write_str(console, "  UUID   ");
        log_uuid(console, &uuid);
        uart::write_str(console, "\n");
    }
}

} // verus!
