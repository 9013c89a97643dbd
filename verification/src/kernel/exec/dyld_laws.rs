//! What the console says of the images that a program needs.

use crate::kernel::arch::uart;
use crate::kernel::exec::dyld;
use crate::loader::image::ImageView;
use crate::loader::load_cmd::DylibSpec;
use vstd::prelude::*;
use vstd::utf8::*;

verus! {

/// A line: a label, a name and a line end.
pub open spec fn line(label: Seq<char>, name: Seq<char>) -> Seq<u8> {
    encode_utf8(label) + encode_utf8(name) + encode_utf8("\n"@)
}

/// A line for each name, in order.
pub open spec fn lines(label: Seq<char>, names: Seq<Seq<char>>) -> Seq<u8>
    decreases names.len(),
{
    if names.len() == 0 {
        Seq::empty()
    } else {
        line(label, names[0]) + lines(label, names.drop_first())
    }
}

/// The names of dylibs.
pub open spec fn names_of(deps: Seq<DylibSpec>) -> Seq<Seq<char>> {
    Seq::new(deps.len(), |i: int| deps[i].name)
}

/// Bytes as numbers, one behind the other.
pub open spec fn numbers(b: Seq<u8>) -> Seq<u8>
    decreases b.len(),
{
    if b.len() == 0 {
        Seq::empty()
    } else {
        uart::put_hex(Seq::empty(), b[0] as u64) + numbers(b.drop_first())
    }
}

proof fn lemma_lines_push(label: Seq<char>, names: Seq<Seq<char>>, name: Seq<char>)
    ensures
        lines(label, names.push(name)) == lines(label, names) + line(label, name),
    decreases names.len(),
{
    let all = names.push(name);
    if names.len() == 0 {
        assert(all.drop_first() =~= Seq::<Seq<char>>::empty());
        assert(lines(label, all.drop_first()) =~= Seq::<u8>::empty());
        assert(lines(label, all) =~= lines(label, names) + line(label, name));
    } else {
        lemma_lines_push(label, names.drop_first(), name);
        assert(all.drop_first() =~= names.drop_first().push(name));
        assert(all[0] == names[0]);
        assert(lines(label, all) =~= lines(label, names) + line(label, name));
    }
}

proof fn lemma_dylibs(log: Seq<u8>, label: Seq<char>, deps: Seq<DylibSpec>, n: int)
    requires
        0 <= n <= deps.len(),
    ensures
        dyld::put_dylibs(log, label, deps, n) == log + lines(label, names_of(deps.take(n))),
    decreases n,
{
    if n > 0 {
        lemma_dylibs(log, label, deps, n - 1);
        assert(names_of(deps.take(n)) =~= names_of(deps.take(n - 1)).push(deps[n - 1].name));
        lemma_lines_push(label, names_of(deps.take(n - 1)), deps[n - 1].name);
        assert(dyld::put_dylibs(log, label, deps, n) =~= log + lines(
            label,
            names_of(deps.take(n)),
        ));
    } else {
        assert(names_of(deps.take(0)) =~= Seq::<Seq<char>>::empty());
        assert(log + Seq::<u8>::empty() =~= log);
    }
}

proof fn lemma_paths(log: Seq<u8>, paths: Seq<Seq<char>>, n: int)
    requires
        0 <= n <= paths.len(),
    ensures
        dyld::put_paths(log, paths, n) == log + lines("  RPATH  "@, paths.take(n)),
    decreases n,
{
    if n > 0 {
        lemma_paths(log, paths, n - 1);
        assert(paths.take(n) =~= paths.take(n - 1).push(paths[n - 1]));
        lemma_lines_push("  RPATH  "@, paths.take(n - 1), paths[n - 1]);
        assert(dyld::put_paths(log, paths, n) =~= log + lines("  RPATH  "@, paths.take(n)));
    } else {
        assert(paths.take(0) =~= Seq::<Seq<char>>::empty());
        assert(log + Seq::<u8>::empty() =~= log);
    }
}

proof fn lemma_numbers_push(b: Seq<u8>, x: u8)
    ensures
        numbers(b.push(x)) == numbers(b) + uart::put_hex(Seq::empty(), x as u64),
    decreases b.len(),
{
    let all = b.push(x);
    if b.len() == 0 {
        assert(all.drop_first() =~= Seq::<u8>::empty());
        assert(numbers(all.drop_first()) =~= Seq::<u8>::empty());
        assert(numbers(all) =~= numbers(b) + uart::put_hex(Seq::empty(), x as u64));
    } else {
        lemma_numbers_push(b.drop_first(), x);
        assert(all.drop_first() =~= b.drop_first().push(x));
        assert(all[0] == b[0]);
        assert(numbers(all) =~= numbers(b) + uart::put_hex(Seq::empty(), x as u64));
    }
}

proof fn lemma_bytes(log: Seq<u8>, b: Seq<u8>, n: int)
    requires
        0 <= n <= b.len(),
    ensures
        dyld::put_bytes(log, b, n) == log + numbers(b.take(n)),
    decreases n,
{
    if n > 0 {
        lemma_bytes(log, b, n - 1);
        assert(b.take(n) =~= b.take(n - 1).push(b[n - 1]));
        lemma_numbers_push(b.take(n - 1), b[n - 1]);
        assert(dyld::put_bytes(log, b, n) =~= log + numbers(b.take(n)));
    } else {
        assert(b.take(0) =~= Seq::<u8>::empty());
        assert(log + Seq::<u8>::empty() =~= log);
    }
}

/// The console is told of all that an image needs: a line for each dylib, for
/// each that need not be there and for each search path, in order, and the UUID
/// if there is one.
pub proof fn law_all_needs_are_told(log: Seq<u8>, i: ImageView, name: Seq<char>)
    requires
        i.uuid matches Some(u) ==> u.len() == 16,
    ensures
        dyld::put_deps(log, i, name) == log + encode_utf8("xnu-rs: deps for "@) + encode_utf8(name)
            + encode_utf8(":\n"@) + lines("  LOAD   "@, names_of(i.dylib_deps)) + lines(
            "  WEAK   "@,
            names_of(i.weak_dylib_deps),
        ) + lines("  RPATH  "@, i.rpaths) + (match i.uuid {
            Some(u) => encode_utf8("  UUID   "@) + numbers(u) + encode_utf8("\n"@),
            None => Seq::empty(),
        }),
{
    let a = uart::put_str(
        uart::put_str(uart::put_str(log, "xnu-rs: deps for "@), name),
        ":\n"@,
    );
    let nd = i.dylib_deps.len() as int;
    let nw = i.weak_dylib_deps.len() as int;
    lemma_dylibs(a, "  LOAD   "@, i.dylib_deps, nd);
    let b = dyld::put_dylibs(a, "  LOAD   "@, i.dylib_deps, nd);
    lemma_dylibs(b, "  WEAK   "@, i.weak_dylib_deps, nw);
    let c = dyld::put_dylibs(b, "  WEAK   "@, i.weak_dylib_deps, nw);
    lemma_paths(c, i.rpaths, i.rpaths.len() as int);
    let d = dyld::put_paths(c, i.rpaths, i.rpaths.len() as int);
    assert(i.dylib_deps.take(nd) =~= i.dylib_deps);
    assert(i.weak_dylib_deps.take(nw) =~= i.weak_dylib_deps);
    assert(i.rpaths.take(i.rpaths.len() as int) =~= i.rpaths);
    match i.uuid {
        Some(u) => {
            let e = uart::put_str(d, "  UUID   "@);
            lemma_bytes(e, u, 16);
            assert(u.take(16) =~= u);
            assert(e + numbers(u) + encode_utf8("\n"@) =~= d + (encode_utf8("  UUID   "@)
                + numbers(u) + encode_utf8("\n"@)));
        },
        None => {
            assert(d + Seq::<u8>::empty() =~= d);
        },
    }
}

} // verus!
