//! Text for the serial console.

use crate::bytes;
use vstd::prelude::*;
use vstd::utf8::*;

verus! {

/// Bytes on their way to the serial port.
pub struct Console {
    /// What was written, in order.
    pub out: Vec<u8>,
}

impl View for Console {
    type V = Seq<u8>;

    open spec fn view(&self) -> Seq<u8> {
        self.out@
    }
}

/// `log` with text behind it.
pub open spec fn put_str(log: Seq<u8>, s: Seq<char>) -> Seq<u8> {
    log + encode_utf8(s)
}

/// The hexadecimal digit for a number below 16.
pub open spec fn hex_digit(n: int) -> u8 {
    if n < 10 {
        (0x30 + n) as u8
    } else {
        (0x57 + n) as u8
    }
}

/// The sixteen hexadecimal digits of `v`.
pub open spec fn hex_digits(v: u64) -> Seq<u8> {
    Seq::new(16, |i: int| hex_digit(((v >> ((60 - 4 * i) as u32)) & 0xf) as int))
}

/// `log` with `v` behind it, as `0x` and sixteen hexadecimal digits.
pub open spec fn put_hex(log: Seq<u8>, v: u64) -> Seq<u8> {
    put_str(log, "0x"@) + hex_digits(v)
}

/// `log` with text, a number and a line end behind it.
pub open spec fn put_str_hex_nl(log: Seq<u8>, prefix: Seq<char>, v: u64) -> Seq<u8> {
    put_hex(put_str(log, prefix), v).push(0x0a)
}

/// `log` with several texts behind it.
pub open spec fn put_line(log: Seq<u8>, parts: Seq<&str>) -> Seq<u8>
    decreases parts.len(),
{
    if parts.len() == 0 {
        log
    } else {
        put_str(put_line(log, parts.drop_last()), parts.last()@)
    }
}

/// The two hexadecimal digits of a byte.
pub open spec fn hex_byte(b: u8) -> Seq<u8> {
    seq![hex_digit(b as int / 16), hex_digit(b as int % 16)]
}

/// `log` with the first `n` bytes of a UUID behind it: two digits each, a dash
/// before the fifth, seventh, ninth and eleventh byte.
pub open spec fn put_uuid(log: Seq<u8>, uuid: Seq<u8>, n: int) -> Seq<u8>
    decreases n,
{
    if n <= 0 {
        log
    } else {
        let before = put_uuid(log, uuid, n - 1);
        let dashed = if n - 1 == 4 || n - 1 == 6 || n - 1 == 8 || n - 1 == 10 {
            before.push(0x2d)
        } else {
            before
        };
        dashed + hex_byte(uuid[n - 1])
    }
}

impl Console {
    /// A console to which nothing was written.
    pub fn new() -> (r: Console)
        ensures
            r@ == Seq::<u8>::empty(),
    {
        Console { out: Vec::new() }
    }
}

/// Writes one byte.
pub fn write_byte(console: &mut Console, byte: u8)
    ensures
        final(console)@ == old(console)@.push(byte),
{
    console.out.push(byte);
}

/// Writes bytes.
pub fn write_bytes(console: &mut Console, part: &[u8])
    ensures
        final(console)@ == old(console)@ + part@,
{
    bytes::push_bytes(&mut console.out, part);
}

/// Writes text.
pub fn write_str(console: &mut Console, message: &str)
    ensures
        final(console)@ == put_str(old(console)@, message@),
{
    write_bytes(console, message.as_bytes());
}

/// Writes a digit.
fn write_nibble(console: &mut Console, n: u8)
    requires
        n < 16,
    ensures
        final(console)@ == old(console)@.push(hex_digit(n as int)),
{
    let byte: u8 = if n < 10 {
        0x30 + n
    } else {
        0x61 + (n - 10)
    };
    write_byte(console, byte);
}

/// Writes sixteen hexadecimal digits.
fn write_digits(console: &mut Console, value: u64)
    ensures
        final(console)@ == old(console)@ + hex_digits(value),
{
    let mut i: u32 = 0;
    while i < 16
        invariant
            i <= 16,
            console@ =~= old(console)@ + hex_digits(value).take(i as int),
        decreases 16 - i,
    {
        let shift: u32 = 60 - 4 * i;
        let nibble: u64 = (value >> shift) & 0xf;
        assert(nibble < 16) by (bit_vector)
            requires
                nibble == (value >> shift) & 0xf,
        ;
        write_nibble(console, nibble as u8);
        i = i + 1;
    }
    assert(hex_digits(value).take(16) =~= hex_digits(value));
}

/// Writes a number as `0x` and sixteen hexadecimal digits.
pub fn write_hex_u64(console: &mut Console, value: u64)
    ensures
        final(console)@ == put_hex(old(console)@, value),
{
    write_str(console, "0x");
    write_digits(console, value);
}

/// Writes a number as `0x` and sixteen hexadecimal digits.
pub fn write_hex_usize(console: &mut Console, value: usize)
    ensures
        final(console)@ == put_hex(old(console)@, value as u64),
{
    write_hex_u64(console, value as u64);
}

/// Writes a UUID in the usual grouped form.
pub fn write_uuid(console: &mut Console, uuid: &[u8; 16])
    ensures
        final(console)@ == put_uuid(old(console)@, uuid@, 16),
{
    let mut i: usize = 0;
    while i < 16
        invariant
            i <= 16,
            uuid@.len() == 16,
            console@ == put_uuid(old(console)@, uuid@, i as int),
        decreases 16 - i,
    {
        let ghost before = console@;
        if i == 4 || i == 6 || i == 8 || i == 10 {
            write_byte(console, 0x2d);
        }
        let ghost dashed = console@;
        let b: u8 = uuid[i];
        write_nibble(console, b / 16);
        write_nibble(console, b % 16);
        assert(console@ =~= dashed + hex_byte(b));
        i = i + 1;
    }
}

/// Writes text, a number and a line end.
pub fn write_str_hex_nl(console: &mut Console, prefix: &str, value: u64)
    ensures
        final(console)@ == put_str_hex_nl(old(console)@, prefix@, value),
{
    write_str(console, prefix);
    write_hex_u64(console, value);
    write_byte(console, 0x0a);
}

/// Writes several texts.
pub fn write_line(console: &mut Console, parts: &[&str])
    ensures
        final(console)@ == put_line(old(console)@, parts@),
{
    let mut i: usize = 0;
    while i < parts.len()
        invariant
            i <= parts@.len(),
            console@ == put_line(old(console)@, parts@.take(i as int)),
        decreases parts@.len() - i,
    {
        assert(parts@.take(i + 1).drop_last() =~= parts@.take(i as int));
        write_str(console, parts[i]);
        i = i + 1;
    }
    assert(parts@.take(i as int) =~= parts@);
}

} // verus!
