//! Which file is taken for a build.

use crate::xtask::artifact;
use crate::xtask::artifact::Artifact;
use vstd::prelude::*;

verus! {

/// The name of a file of an EFI program ends so.
pub open spec fn ending() -> Seq<u8> {
    seq![0x2eu8, 0x65, 0x66, 0x69]
}

/// A file whose name starts with that of the program and ends as that of an EFI
/// program does is a build of it. So is one with the name and a hyphen anywhere
/// before that ending.
pub proof fn law_builds_are_known(name: Seq<u8>, before: Seq<u8>, behind: Seq<u8>)
    ensures
        name.len() + behind.len() > 0 ==> artifact::is_build(name + behind + ending(), name),
        artifact::is_build(before + name + seq![0x2du8] + behind + ending(), name),
{
    if name.len() + behind.len() > 0 {
        let file = name + behind + ending();
        assert(artifact::efi_ending() =~= ending());
        assert(artifact::stands_at(file, artifact::efi_ending(), file.len() - 4));
        assert(artifact::stands_at(file, name, 0));
    }
    let file = before + name + seq![0x2du8] + behind + ending();
    assert(artifact::efi_ending() =~= ending());
    assert(artifact::stands_at(file, artifact::efi_ending(), file.len() - 4));
    assert(artifact::stands_at(file, name.push(0x2d), before.len() as int));
}

/// A file with another ending is no build, and neither is one whose name has the
/// program's neither at its start nor anywhere before a hyphen.
pub proof fn law_other_files_are_no_builds(file: Seq<u8>, name: Seq<u8>)
    ensures
        file.len() <= 4 || file.subrange(file.len() - 4, file.len() as int) != ending()
            ==> !artifact::is_build(file, name),
        !name.is_prefix_of(file) && (forall|at: int|
            0 <= at <= file.len() - name.len() - 1 ==> #[trigger] file.subrange(
                at,
                at + name.len() + 1,
            ) != name.push(0x2d)) ==> !artifact::is_build(file, name),
{
    if artifact::is_build(file, name) {
        assert(artifact::stands_at(file, artifact::efi_ending(), file.len() - 4));
        let last = file.subrange(file.len() - 4, file.len() as int);
        assert forall|k: int| 0 <= k < 4 implies last[k] == ending()[k] by {
            assert(file[file.len() - 4 + k] == artifact::efi_ending()[k]);
        }
        assert(last =~= ending());
        if artifact::stands_at(file, name, 0) {
            assert forall|k: int| 0 <= k < name.len() implies name[k] == file[k] by {
                assert(file[0 + k] == name[k]);
            }
            assert(name =~= file.subrange(0, name.len() as int));
            assert(name.is_prefix_of(file));
        } else {
            let part = name.push(0x2d);
            let at = choose|at: int| #[trigger] artifact::stands_at(file, part, at);
            let found = file.subrange(at, at + name.len() + 1);
            assert forall|k: int| 0 <= k < part.len() implies found[k] == part[k] by {
                assert(file[at + k] == part[k]);
            }
            assert(found =~= part);
        }
    }
}

/// Of the builds of a program the one that is chosen is the newest, and the first
/// of those that are as new.
pub proof fn law_newest_build_is_chosen(files: Seq<Artifact>, name: Seq<u8>, i: int, k: int)
    requires
        artifact::is_newest(files, name, i),
        0 <= k < files.len(),
        artifact::is_build(artifact::name_of(files[k]), name),
    ensures
        0 <= i < files.len(),
        artifact::is_build(artifact::name_of(files[i]), name),
        files[k].modified <= files[i].modified,
        files[k].modified == files[i].modified ==> i <= k,
{
}

/// A script is written with two bytes for each character, the lower first, behind
/// a mark that says so.
pub proof fn law_script_is_written_wide(text: Seq<u8>, i: int)
    requires
        0 <= i < text.len(),
    ensures
        ({
            let b = artifact::utf16(text);
            &&& b.len() == 2 + 2 * text.len()
            &&& b[0] == 0xff && b[1] == 0xfe
            &&& b[2 + 2 * i] == text[i]
            &&& b[3 + 2 * i] == 0
        }),
{
    let b = artifact::utf16(text);
    assert((2 * i) % 2 == 0 && (2 * i) / 2 == i && (2 * i + 1) % 2 == 1);
}

} // verus!
