use vstd::prelude::*;

verus! {

/// `i` rounded up to a multiple of `b`.
pub open spec fn align_up(i: int, b: int) -> int {
    if i % b == 0 {
        i
    } else {
        i + (b - i % b)
    }
}

/// Round `i` up to the next multiple of `b`.
pub fn align(i: usize, b: usize) -> (r: usize)
    requires
        b > 0,
        align_up(i as int, b as int) <= usize::MAX,
    ensures
        r == align_up(i as int, b as int),
{
    let rem = i % b;
    if rem == 0 {
        i
    } else {
        i + (b - rem)
    }
}

/// Printable ASCII and the space stand for themselves; every other byte is a dot.
pub open spec fn shown(b: u8) -> u8 {
    if 0x20 <= b <= 0x7E {
        b
    } else {
        0x2E
    }
}

/// The character that stands for `b` in the text column of a dump.
pub fn hexdump_ascii(b: u8) -> (r: char)
    ensures
        r == shown(b) as char,
{
    if 0x20 <= b && b <= 0x7E {
        b as char
    } else {
        '.'
    }
}

/// The lowercase hexadecimal digit for `d`.
pub open spec fn hex_byte(d: int) -> u8 {
    if d < 10 {
        (0x30 + d) as u8
    } else {
        (0x61 + d - 10) as u8
    }
}

/// The lowest `n` hexadecimal digits of `v`, most significant first.
pub open spec fn hex_fixed(v: nat, n: nat) -> Seq<u8>
    decreases n,
{
    if n == 0 {
        seq![]
    } else {
        hex_fixed(v / 16, (n - 1) as nat).push(hex_byte((v % 16) as int))
    }
}

/// The number of hexadecimal digits of `v`.
pub open spec fn digit_count(v: nat) -> nat
    decreases v,
{
    if v < 16 {
        1
    } else {
        1 + digit_count(v / 16)
    }
}

/// `v` in lowercase hexadecimal, zero-padded to at least `width` digits.
pub open spec fn hex_padded(v: nat, width: nat) -> Seq<u8> {
    hex_fixed(v, if digit_count(v) > width { digit_count(v) } else { width })
}

pub open spec fn repeat(b: u8, n: nat) -> Seq<u8> {
    Seq::new(n, |_i: int| b)
}

/// Each byte as two hex digits and a space.
pub open spec fn hex_column(s: Seq<u8>) -> Seq<u8>
    decreases s.len(),
{
    if s.len() == 0 {
        seq![]
    } else {
        hex_column(s.drop_last()) + hex_fixed(s.last() as nat, 2) + seq![0x20u8]
    }
}

pub open spec fn text_column(s: Seq<u8>) -> Seq<u8> {
    s.map_values(|b: u8| shown(b))
}

/// Bytes shown on line `i`: up to sixteen, taken from index `i` onward.
pub open spec fn line_count_of(len: nat, i: nat) -> nat {
    let rest = len - 16 * i;
    if rest < 16 {
        rest as nat
    } else {
        16
    }
}

/// Line `i` of a dump: the address, the bytes in hex, and the bytes as text.
pub open spec fn dump_line(buf: Seq<u8>, offset: nat, i: nat) -> Seq<u8> {
    let c = line_count_of(buf.len(), i);
    let elems = buf.subrange(i as int, (i + c) as int);
    hex_padded(offset + 16 * i, 8) + seq![0x3Au8] + repeat(0x20, 2) + hex_column(elems) + repeat(
        0x20,
        3 * (16 - c) as nat,
    ) + repeat(0x20, 2) + text_column(elems) + repeat(0x20, (16 - c) as nat) + repeat(0x20, 2)
        + seq![0x0Au8]
}

/// The first `n` lines of a dump.
pub open spec fn dump_lines(buf: Seq<u8>, offset: nat, n: nat) -> Seq<u8>
    decreases n,
{
    if n == 0 {
        seq![]
    } else {
        dump_lines(buf, offset, (n - 1) as nat) + dump_line(buf, offset, (n - 1) as nat)
    }
}

/// The whole dump of `buf` as ASCII bytes: one line for every sixteen bytes.
pub open spec fn dump(buf: Seq<u8>, offset: nat) -> Seq<u8> {
    dump_lines(buf, offset, (align_up(buf.len() as int, 16) / 16) as nat)
}

pub open spec fn as_chars(s: Seq<u8>) -> Seq<char> {
    s.map_values(|b: u8| b as char)
}

/// Relies on `String::from_utf8`: ASCII bytes are valid UTF-8 and become
/// the same characters.
#[verifier::external_body]
fn ascii_to_string(bytes: Vec<u8>) -> (r: String)
    requires
        forall|i: int| 0 <= i < bytes@.len() ==> bytes@[i] < 0x80,
    ensures
        r@ == as_chars(bytes@),
{
    String::from_utf8(bytes).unwrap_or_default()
}

fn push_hex_fixed(out: &mut Vec<u8>, v: u64, n: usize)
    requires
        n <= 16,
    ensures
        final(out)@ == old(out)@ + hex_fixed(v as nat, n as nat),
    decreases n,
{
    if n == 0 {
        assert(hex_fixed(v as nat, 0) =~= Seq::<u8>::empty());
        assert(out@ =~= old(out)@ + Seq::<u8>::empty());
        return;
    }
    push_hex_fixed(out, v / 16, n - 1);
    let d = (v % 16) as u8;
    let c = if d < 10 {
        0x30 + d
    } else {
        0x61 + d - 10
    };
    out.push(c);
    assert(out@ =~= old(out)@ + hex_fixed(v as nat, n as nat));
}

fn count_digits(v: u64) -> (r: usize)
    ensures
        r == digit_count(v as nat),
        r <= 16,
{
    let mut n: usize = 1;
    let mut x: u64 = v;
    assert(pow16(1) == 16) by {
        reveal_with_fuel(pow16, 2);
    }
    while x >= 16
        invariant
            n - 1 + digit_count(x as nat) == digit_count(v as nat),
            1 <= n,
            x as nat * pow16(n as nat) <= v as nat * 16,
            n <= 16,
        decreases x,
    {
        proof {
            lemma_pow16_bound(x as nat, n as nat);
        }
        x = x / 16;
        n = n + 1;
    }
    n
}

pub open spec fn pow16(n: nat) -> nat
    decreases n,
{
    if n == 0 {
        1
    } else {
        16 * pow16((n - 1) as nat)
    }
}

proof fn lemma_pow16_bound(x: nat, n: nat)
    requires
        x >= 16,
        1 <= n,
        x * pow16(n) <= u64::MAX as nat * 16,
    ensures
        (x / 16) * pow16(n + 1) <= x * pow16(n),
        n < 16,
{
    assert(pow16(n + 1) == 16 * pow16(n));
    assert((x / 16) * 16 <= x) by (nonlinear_arith);
    assert((x / 16) * pow16(n + 1) == ((x / 16) * 16) * pow16(n)) by (nonlinear_arith)
        requires pow16(n + 1) == 16 * pow16(n);
    assert(((x / 16) * 16) * pow16(n) <= x * pow16(n)) by (nonlinear_arith)
        requires (x / 16) * 16 <= x;
    lemma_pow16_grows(n);
    assert(16 * pow16(n) <= x * pow16(n)) by (nonlinear_arith)
        requires x >= 16;
    if n >= 16 {
        lemma_pow16_mono(16, n);
        assert(pow16(16) == 0x1_0000_0000_0000_0000) by {
            reveal_with_fuel(pow16, 17);
        }
        assert(16 * pow16(n) * 16 > u64::MAX as nat * 16) by (nonlinear_arith)
            requires pow16(n) >= 0x1_0000_0000_0000_0000;
    }
}

proof fn lemma_pow16_grows(n: nat)
    ensures
        pow16(n) >= 1,
    decreases n,
{
    if n > 0 {
        lemma_pow16_grows((n - 1) as nat);
    }
}

proof fn lemma_pow16_mono(a: nat, b: nat)
    requires
        a <= b,
    ensures
        pow16(a) <= pow16(b),
    decreases b,
{
    if a < b {
        lemma_pow16_mono(a, (b - 1) as nat);
        lemma_pow16_grows((b - 1) as nat);
    }
}

fn push_repeat(out: &mut Vec<u8>, b: u8, n: usize)
    ensures
        final(out)@ == old(out)@ + repeat(b, n as nat),
{
    let mut k: usize = 0;
    while k < n
        invariant
            k <= n,
            out@ == old(out)@ + repeat(b, k as nat),
        decreases n - k,
    {
        out.push(b);
        assert(out@ =~= old(out)@ + repeat(b, (k + 1) as nat));
        k = k + 1;
    }
}

} // verus!

verus! {

pub open spec fn all_ascii(s: Seq<u8>) -> bool {
    forall|i: int| 0 <= i < s.len() ==> s[i] < 0x80
}

proof fn lemma_hex_ascii(v: nat, n: nat)
    ensures
        all_ascii(hex_fixed(v, n)),
    decreases n,
{
    if n > 0 {
        lemma_hex_ascii(v / 16, (n - 1) as nat);
    }
}

fn push_hex_column(out: &mut Vec<u8>, buf: &[u8], from: usize, to: usize)
    requires
        from <= to <= buf@.len(),
    ensures
        final(out)@ == old(out)@ + hex_column(buf@.subrange(from as int, to as int)),
{
    let mut k: usize = from;
    assert(buf@.subrange(from as int, from as int) =~= Seq::<u8>::empty());
    assert(out@ =~= old(out)@ + hex_column(buf@.subrange(from as int, from as int)));
    while k < to
        invariant
            from <= k <= to <= buf@.len(),
            out@ == old(out)@ + hex_column(buf@.subrange(from as int, k as int)),
        decreases to - k,
    {
        assert(buf@.subrange(from as int, k + 1).drop_last() =~= buf@.subrange(from as int, k as int));
        push_hex_fixed(out, buf[k] as u64, 2);
        out.push(0x20);
        k = k + 1;
        assert(out@ =~= old(out)@ + hex_column(buf@.subrange(from as int, k as int)));
    }
}

fn push_text_column(out: &mut Vec<u8>, buf: &[u8], from: usize, to: usize)
    requires
        from <= to <= buf@.len(),
    ensures
        final(out)@ == old(out)@ + text_column(buf@.subrange(from as int, to as int)),
{
    let mut k: usize = from;
    while k < to
        invariant
            from <= k <= to <= buf@.len(),
            out@ == old(out)@ + text_column(buf@.subrange(from as int, k as int)),
        decreases to - k,
    {
        let b = buf[k];
        let c = if 0x20 <= b && b <= 0x7E {
            b
        } else {
            0x2E
        };
        out.push(c);
        k = k + 1;
        assert(out@ =~= old(out)@ + text_column(buf@.subrange(from as int, k as int)));
    }
}

fn push_line(out: &mut Vec<u8>, buf: &[u8], offset: usize, i: usize)
    requires
        16 * i < buf@.len(),
        offset + 16 * i <= usize::MAX,
    ensures
        final(out)@ == old(out)@ + dump_line(buf@, offset as nat, i as nat),
{
    let rest = buf.len() - 16 * i;
    let c: usize = if rest < 16 {
        rest
    } else {
        16
    };
    let addr = (offset + 16 * i) as u64;
    let digits = count_digits(addr);
    push_hex_fixed(out, addr, if digits > 8 { digits } else { 8 });
    out.push(0x3A);
    push_repeat(out, 0x20, 2);
    push_hex_column(out, buf, i, i + c);
    push_repeat(out, 0x20, 3 * (16 - c));
    push_repeat(out, 0x20, 2);
    push_text_column(out, buf, i, i + c);
    push_repeat(out, 0x20, 16 - c);
    push_repeat(out, 0x20, 2);
    out.push(0x0A);
    assert(out@ =~= old(out)@ + dump_line(buf@, offset as nat, i as nat));
}

proof fn lemma_line_ascii(buf: Seq<u8>, offset: nat, i: nat)
    ensures
        all_ascii(dump_line(buf, offset, i)),
{
    let c = line_count_of(buf.len(), i);
    let elems = buf.subrange(i as int, (i + c) as int);
    let v = offset + 16 * i;
    lemma_hex_ascii(v, if digit_count(v) > 8 { digit_count(v) } else { 8 });
    lemma_hex_column_ascii(elems);
}

proof fn lemma_hex_column_ascii(s: Seq<u8>)
    ensures
        all_ascii(hex_column(s)),
    decreases s.len(),
{
    if s.len() > 0 {
        lemma_hex_column_ascii(s.drop_last());
        lemma_hex_ascii(s.last() as nat, 2);
    }
}

/// A hex dump of `buf` whose first line is labelled `offset`.
///
/// Each line holds the label in hex (at least eight digits), the bytes in
/// hex, and the bytes as text, padded to sixteen columns. Line `i` shows up
/// to sixteen bytes taken from index `i` of `buf`.
pub fn hexdump(buf: &[u8], offset: usize) -> (r: String)
    requires
        buf@.len() == 0 || offset + 16 * ((align_up(buf@.len() as int, 16) / 16) - 1) <= usize::MAX,
    ensures
        r@ == as_chars(dump(buf@, offset as nat)),
{
    let len = buf.len();
    let line_count: usize = len / 16 + if len % 16 == 0 { 0 } else { 1 };
    assert(line_count == align_up(len as int, 16) / 16);
    let mut out: Vec<u8> = Vec::new();
    let mut i: usize = 0;
    while i < line_count
        invariant
            len == buf@.len(),
            line_count == align_up(len as int, 16) / 16,
            len == 0 || offset + 16 * (line_count - 1) <= usize::MAX,
            i <= line_count,
            out@ == dump_lines(buf@, offset as nat, i as nat),
            all_ascii(out@),
        decreases line_count - i,
    {
        let ghost before = out@;
        push_line(&mut out, buf, offset, i);
        proof {
            lemma_line_ascii(buf@, offset as nat, i as nat);
            assert(all_ascii(out@)) by {
                assert forall|k: int| 0 <= k < out@.len() implies out@[k] < 0x80 by {
                    if k >= before.len() {
                        assert(out@[k] == dump_line(buf@, offset as nat, i as nat)[k - before.len()]);
                    }
                }
            }
        }
        i = i + 1;
    }
    ascii_to_string(out)
}

} // verus!
