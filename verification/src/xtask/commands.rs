//! The commands that the tasks run.

use vstd::prelude::*;

verus! {

/// Target of the kernel.
pub const TARGET: &'static str = "aarch64-unknown-none";

/// Target of the boot loader.
pub const UEFI_TARGET: &'static str = "aarch64-unknown-uefi";

/// Target of user programs.
pub const APPLE_TARGET: &'static str = "aarch64-apple-darwin";

/// The packages of the workspace, with their targets.
pub open spec fn packages() -> Seq<(Seq<char>, Option<Seq<char>>)> {
    seq![
        ("kernel"@, Some(TARGET@)),
        ("bootloader"@, Some(UEFI_TARGET@)),
        ("zs-alloc"@, Some(TARGET@)),
        ("loader"@, Some(TARGET@)),
        ("hello"@, Some(APPLE_TARGET@)),
        ("xtask"@, None),
    ]
}

/// The arguments that run `verb` on a package, with `extra` behind them.
pub open spec fn package_args(
    verb: Seq<char>,
    p: (Seq<char>, Option<Seq<char>>),
    extra: Seq<Seq<char>>,
) -> Seq<Seq<char>> {
    match p.1 {
        Some(t) => seq![verb, "-p"@, p.0, "--target"@, t] + extra,
        None => seq![verb, "-p"@, p.0] + extra,
    }
}

/// The views of arguments.
pub open spec fn texts(v: Seq<&str>) -> Seq<Seq<char>> {
    Seq::new(v.len(), |i: int| v[i]@)
}

/// The views of strings.
pub open spec fn string_texts(v: Seq<String>) -> Seq<Seq<char>> {
    Seq::new(v.len(), |i: int| v[i]@)
}

/// The arguments that run `verb` on each package, in order.
pub open spec fn all_args(verb: Seq<char>, extra: Seq<Seq<char>>) -> Seq<Seq<Seq<char>>> {
    Seq::new(6, |i: int| package_args(verb, packages()[i], extra))
}

/// The views of several argument lists.
pub open spec fn lists(v: Seq<Vec<&str>>) -> Seq<Seq<Seq<char>>> {
    Seq::new(v.len(), |i: int| texts(v[i]@))
}

/// The arguments that run `verb` on one package.
fn one<'a>(verb: &'a str, name: &'a str, target: Option<&'a str>) -> (r: Vec<&'a str>)
    ensures
        texts(r@) == package_args(
            verb@,
            (
                name@,
                match target {
                    Some(t) => Some(t@),
                    None => None,
                },
            ),
            Seq::empty(),
        ),
{
    let mut v: Vec<&'a str> = Vec::new();
    v.push(verb);
    v.push("-p");
    v.push(name);
    if let Some(t) = target {
        v.push("--target");
        v.push(t);
    }
    assert(texts(v@) =~= package_args(
        verb@,
        (
            name@,
            match target {
                Some(t) => Some(t@),
                None => None,
            },
        ),
        Seq::empty(),
    ));
    v
}

/// The arguments that run `verb` on each package.
fn each<'a>(verb: &'a str) -> (r: Vec<Vec<&'a str>>)
    ensures
        lists(r@) == all_args(verb@, Seq::empty()),
{
    let mut runs: Vec<Vec<&'a str>> = Vec::new();
    runs.push(one(verb, "kernel", Some(TARGET)));
    runs.push(one(verb, "bootloader", Some(UEFI_TARGET)));
    runs.push(one(verb, "zs-alloc", Some(TARGET)));
    runs.push(one(verb, "loader", Some(TARGET)));
    runs.push(one(verb, "hello", Some(APPLE_TARGET)));
    runs.push(one(verb, "xtask", None));
    assert(lists(runs@) =~= all_args(verb@, Seq::empty()));
    runs
}

/// Adds arguments.
fn append<'a>(v: &mut Vec<&'a str>, extra: &'a Vec<String>)
    ensures
        texts(final(v)@) == texts(old(v)@) + string_texts(extra@),
{
    let mut i: usize = 0;
    assert(texts(v@) =~= texts(old(v)@) + string_texts(extra@).take(0));
    while i < extra.len()
        invariant
            i <= extra@.len(),
            texts(v@) == texts(old(v)@) + string_texts(extra@).take(i as int),
        decreases extra@.len() - i,
    {
        let ghost before = texts(v@);
        v.push(extra[i].as_str());
        assert(texts(v@) =~= before.push(string_texts(extra@)[i as int]));
        assert(string_texts(extra@).take(i + 1) =~= string_texts(extra@).take(i as int).push(
            string_texts(extra@)[i as int],
        ));
        i += 1;
        assert(texts(v@) =~= texts(old(v)@) + string_texts(extra@).take(i as int));
    }
    assert(string_texts(extra@).take(i as int) =~= string_texts(extra@));
}

/// The runs of `cargo check`.
pub fn check() -> (r: Vec<Vec<&'static str>>)
    ensures
        lists(r@) == all_args("check"@, Seq::empty()),
{
    each("check")
}

/// The runs of `cargo clippy`, each with the arguments that were given.
pub fn clippy<'a>(extra_args: &'a Vec<String>) -> (r: Vec<Vec<&'a str>>)
    ensures
        lists(r@) == all_args("clippy"@, string_texts(extra_args@)),
{
    let mut runs: Vec<Vec<&'a str>> = each("clippy");
    let ghost plain = lists(runs@);
    let ghost extra = string_texts(extra_args@);
    let mut i: usize = 0;
    while i < runs.len()
        invariant
            i <= runs@.len(),
            runs@.len() == plain.len(),
            plain == all_args("clippy"@, Seq::empty()),
            extra == string_texts(extra_args@),
            lists(runs@) == Seq::new(
                plain.len(),
                |k: int|
                    if k < i {
                        plain[k] + extra
                    } else {
                        plain[k]
                    },
            ),
        decreases runs@.len() - i,
    {
        let ghost before = runs@;
        assert(lists(before)[i as int] == plain[i as int]);
        let run = &mut runs[i];
        append(run, extra_args);
        assert(texts(runs@[i as int]@) == plain[i as int] + extra);
        assert(runs@ =~= before.update(i as int, runs@[i as int]));
        assert(lists(runs@) =~= lists(before).update(i as int, plain[i as int] + extra));
        i += 1;
        assert(lists(runs@) =~= Seq::new(
            plain.len(),
            |k: int|
                if k < i {
                    plain[k] + extra
                } else {
                    plain[k]
                },
        ));
    }
    proof {
        assert forall|k: int| 0 <= k < 6 implies #[trigger] package_args(
            "clippy"@,
            packages()[k],
            Seq::empty(),
        ) + extra == package_args("clippy"@, packages()[k], extra) by {
            assert(package_args("clippy"@, packages()[k], Seq::empty()) + extra =~= package_args(
                "clippy"@,
                packages()[k],
                extra,
            ));
        }
        assert(lists(runs@) =~= all_args("clippy"@, extra));
    }
    runs
}

/// The arguments of the emulator. The root file system is given to it if there is
/// one.
pub open spec fn qemu_texts(firmware: Seq<char>, rootfs: bool) -> Seq<Seq<char>> {
    let head = seq![
        "-M"@,
        "virt,virtualization=on"@,
        "-accel"@,
        "tcg,thread=multi"@,
        "-cpu"@,
        "max"@,
        "-smp"@,
        "4"@,
        "-m"@,
        "2048M"@,
        "-nographic"@,
        "-serial"@,
        "mon:stdio"@,
        "-bios"@,
        firmware,
        "-drive"@,
        "if=virtio,format=raw,file=target/qemu/images/esp.img"@,
    ];
    if rootfs {
        head + seq![
            "-drive"@,
            "id=rootfs,if=none,format=raw,file=target/qemu/images/rootfs.img"@,
            "-device"@,
            "virtio-blk-device,drive=rootfs"@,
        ]
    } else {
        head
    }
}

/// The arguments of the emulator.
pub fn qemu_args<'a>(firmware: &'a str, rootfs: bool) -> (r: Vec<&'a str>)
    ensures
        texts(r@) == qemu_texts(firmware@, rootfs),
{
    let mut v: Vec<&'a str> = Vec::new();
    v.push("-M");
    v.push("virt,virtualization=on");
    v.push("-accel");
    v.push("tcg,thread=multi");
    v.push("-cpu");
    v.push("max");
    v.push("-smp");
    v.push("4");
    v.push("-m");
    v.push("2048M");
    v.push("-nographic");
    v.push("-serial");
    v.push("mon:stdio");
    v.push("-bios");
    v.push(firmware);
    v.push("-drive");
    v.push("if=virtio,format=raw,file=target/qemu/images/esp.img");
    if rootfs {
        v.push("-drive");
        v.push("id=rootfs,if=none,format=raw,file=target/qemu/images/rootfs.img");
        v.push("-device");
        v.push("virtio-blk-device,drive=rootfs");
    }
    assert(texts(v@) =~= qemu_texts(firmware@, rootfs));
    v
}

/// The exit code of a task: 1 if it failed, unless the failure is that of a
/// command and an editor is watching; `status` is none if the task could not be
/// carried out.
pub fn exit_code(status: Option<bool>, is_ide: bool) -> (r: u8)
    ensures
        r == match status {
            Some(true) => 0u8,
            Some(false) => if is_ide {
                0u8
            } else {
                1u8
            },
            None => 1u8,
        },
{
    match status {
        Some(true) => 0,
        Some(false) => if is_ide {
            0
        } else {
            1
        },
        None => 1,
    }
}

} // verus!
