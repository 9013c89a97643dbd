//! Choosing the newest build of the boot loader, and its start script.

use crate::bytes;
use vstd::prelude::*;
use vstd::utf8::*;

verus! {

/// A file in the build directory.
pub struct Artifact {
    /// Its name.
    pub file_name: String,
    /// When it was changed, in nanoseconds from a fixed moment; negative before
    /// it.
    pub modified: i128,
}

/// Whether `part` stands in `whole` at `at`.
pub open spec fn stands_at(whole: Seq<u8>, part: Seq<u8>, at: int) -> bool {
    &&& 0 <= at
    &&& at + part.len() <= whole.len()
    &&& forall|k: int| 0 <= k < part.len() ==> #[trigger] whole[at + k] == part[k]
}

/// Whether `part` stands somewhere in `whole`.
pub open spec fn stands_in(whole: Seq<u8>, part: Seq<u8>) -> bool {
    exists|at: int| #[trigger] stands_at(whole, part, at)
}

/// The ending of an executable of the firmware.
pub open spec fn efi_ending() -> Seq<u8> {
    seq![0x2eu8, 0x65u8, 0x66u8, 0x69u8]
}

/// Whether a file name, taken by its UTF-8 bytes, is that of a build of `name`:
/// it ends in `.efi`, with something before that, and starts with the name or has
/// the name and a dash in it.
pub open spec fn is_build(file: Seq<u8>, name: Seq<u8>) -> bool {
    &&& file.len() > 4
    &&& stands_at(file, efi_ending(), file.len() - 4)
    &&& stands_at(file, name, 0) || stands_in(file, name.push(0x2d))
}

/// The bytes of the name of a file.
pub open spec fn name_of(a: Artifact) -> Seq<u8> {
    encode_utf8(a.file_name@)
}

/// Whether file `i` is the build to take: none is newer, and none before it is as
/// new.
pub open spec fn is_newest(files: Seq<Artifact>, name: Seq<u8>, i: int) -> bool {
    &&& 0 <= i < files.len()
    &&& is_build(name_of(files[i]), name)
    &&& forall|k: int|
        #![trigger files[k]]
        0 <= k < files.len() && is_build(name_of(files[k]), name) ==> files[k].modified
            < files[i].modified || (files[k].modified == files[i].modified && i <= k)
}

/// Tests whether `part` stands in `whole` at `at`.
fn test_at(whole: &[u8], part: &[u8], at: usize) -> (r: bool)
    requires
        at <= whole@.len(),
    ensures
        r == stands_at(whole@, part@, at as int),
{
    assert(whole@.len() == whole.len());
    if whole.len() - at < part.len() {
        return false;
    }
    let mut k: usize = 0;
    while k < part.len()
        invariant
            k <= part@.len(),
            at + part@.len() <= whole@.len(),
            whole@.len() == whole.len(),
            forall|j: int| 0 <= j < k ==> #[trigger] whole@[at + j] == part@[j],
        decreases part@.len() - k,
    {
        if whole[at + k] != part[k] {
            assert(whole@[at + k as int] != part@[k as int]);
            return false;
        }
        k += 1;
    }
    true
}

/// Tests whether `part` stands somewhere in `whole`.
fn test_in(whole: &[u8], part: &[u8]) -> (r: bool)
    ensures
        r == stands_in(whole@, part@),
{
    let mut at: usize = 0;
    while at < whole.len()
        invariant
            at <= whole@.len(),
            forall|i: int| 0 <= i < at ==> !#[trigger] stands_at(whole@, part@, i),
        decreases whole@.len() - at,
    {
        if test_at(whole, part, at) {
            assert(stands_at(whole@, part@, at as int));
            return true;
        }
        at += 1;
    }
    test_at(whole, part, at)
}

/// Tests whether a file name is that of a build of `name`.
pub fn test_build(file: &str, name: &str) -> (r: bool)
    ensures
        r == is_build(encode_utf8(file@), encode_utf8(name@)),
{
    let f: &[u8] = file.as_bytes();
    let n: &[u8] = name.as_bytes();
    let ending: [u8; 4] = [0x2e, 0x65, 0x66, 0x69];
    assert(ending@ =~= efi_ending());
    if f.len() <= 4 || !test_at(f, ending.as_slice(), f.len() - 4) {
        return false;
    }
    if test_at(f, n, 0) {
        return true;
    }
    let mut dashed: Vec<u8> = Vec::new();
    bytes::push_bytes(&mut dashed, n);
    dashed.push(0x2d);
    assert(dashed@ =~= n@.push(0x2d));
    test_in(f, &dashed)
}

/// Finds the newest build of `name`.
pub fn choose_artifact(files: &Vec<Artifact>, name: &str) -> (r: Option<usize>)
    ensures
        match r {
            Some(i) => is_newest(files@, encode_utf8(name@), i as int),
            None => forall|k: int|
                #![trigger files@[k]]
                0 <= k < files@.len() ==> !is_build(name_of(files@[k]), encode_utf8(name@)),
        },
{
    let ghost n = encode_utf8(name@);
    let mut best: Option<usize> = None;
    let mut i: usize = 0;
    while i < files.len()
        invariant
            i <= files@.len(),
            n == encode_utf8(name@),
            match best {
                Some(b) => {
                    &&& b < i
                    &&& is_build(name_of(files@[b as int]), n)
                    &&& forall|k: int|
                        #![trigger files@[k]]
                        0 <= k < i && is_build(name_of(files@[k]), n) ==> files@[k].modified
                            < files@[b as int].modified || (files@[k].modified
                            == files@[b as int].modified && b <= k)
                },
                None => forall|k: int|
                    #![trigger files@[k]]
                    0 <= k < i ==> !is_build(name_of(files@[k]), n),
            },
        decreases files@.len() - i,
    {
        if test_build(files[i].file_name.as_str(), name) {
            let newer: bool = match best {
                Some(b) => files[i].modified > files[b].modified,
                None => true,
            };
            if newer {
                best = Some(i);
            }
        }
        i += 1;
    }
    best
}

/// ASCII text as little-endian UTF-16, behind a byte order mark.
pub open spec fn utf16(text: Seq<u8>) -> Seq<u8> {
    seq![0xffu8, 0xfeu8] + Seq::new(
        (2 * text.len()) as nat,
        |i: int|
            if i % 2 == 0 {
                text[i / 2]
            } else {
                0u8
            },
    )
}

/// The start script of the firmware: one line that names the boot loader.
pub fn startup_script() -> (r: Vec<u8>)
    ensures
        r@ == utf16(encode_utf8("\\EFI\\BOOT\\BOOTAA64.EFI\r\n"@)),
{
    let command = "\\EFI\\BOOT\\BOOTAA64.EFI\r\n";
    let text: &[u8] = command.as_bytes();
    let mut out: Vec<u8> = Vec::new();
    out.push(0xff);
    out.push(0xfe);
    let mut i: usize = 0;
    while i < text.len()
        invariant
            i <= text@.len(),
            out@ == utf16(text@.take(i as int)),
        decreases text@.len() - i,
    {
        out.push(text[i]);
        out.push(0);
        i += 1;
        assert(out@ =~= utf16(text@.take(i as int)));
    }
    assert(text@.take(i as int) =~= text@);
    out
}

} // verus!
