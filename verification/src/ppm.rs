//! The plain-text pixel-grid image format: a `P3` header with the
//! dimensions and the maximum component value, then one `R G B` triple
//! per pixel, in scan order.  The serializer's output is specified to
//! the byte, and the parser provably inverts it.

use vstd::prelude::*;
use crate::render::Rgb;

verus! {

/// Whether a byte is an ASCII decimal digit.
pub open spec fn is_digit(c: u8) -> bool {
    48 <= c <= 57
}

/// The decimal digits of `n`, most significant first, without leading
/// zeros (a single zero for zero).
pub open spec fn dec_digits(n: nat) -> Seq<u8>
    decreases n,
{
    if n < 10 {
        seq![(48 + n) as u8]
    } else {
        dec_digits(n / 10).push((48 + n % 10) as u8)
    }
}

/// The value of a digit run folded left to right onto `acc`.
pub open spec fn digits_val(ds: Seq<u8>, acc: nat) -> nat
    decreases ds.len(),
{
    if ds.len() == 0 {
        acc
    } else {
        digits_val(ds.drop_first(), acc * 10 + (ds[0] - 48) as nat)
    }
}

/// Powers of ten.
pub open spec fn pow10(k: nat) -> nat
    decreases k,
{
    if k == 0 {
        1
    } else {
        10 * pow10((k - 1) as nat)
    }
}

/// The end of the digit run starting at `i`: the first index at or after
/// `i` holding no digit.
pub open spec fn digit_run_end(s: Seq<u8>, i: int) -> int
    decreases s.len() - i when 0 <= i <= s.len()
{
    if i < s.len() && is_digit(s[i]) {
        digit_run_end(s, i + 1)
    } else {
        i
    }
}

/// The value of the digit run starting at `i`.
pub open spec fn run_val(s: Seq<u8>, i: int) -> nat {
    digits_val(s.subrange(i, digit_run_end(s, i)), 0)
}

/// One serialized pixel line: `R G B` and a newline.
pub open spec fn spec_px_line(p: Rgb) -> Seq<u8> {
    dec_digits(p.r as nat) + seq![32u8] + dec_digits(p.g as nat) + seq![32u8] + dec_digits(
        p.b as nat,
    ) + seq![10u8]
}

/// The serialized pixel lines, in order.
pub open spec fn spec_pixels(ps: Seq<Rgb>) -> Seq<u8>
    decreases ps.len(),
{
    if ps.len() == 0 {
        Seq::empty()
    } else {
        spec_px_line(ps.first()) + spec_pixels(ps.drop_first())
    }
}

/// The header: `P3`, the dimensions, and the maximum component value
/// 255, newline separated.
pub open spec fn spec_header(w: u32, h: u32) -> Seq<u8> {
    seq![80u8, 51u8, 10u8] + dec_digits(w as nat) + seq![32u8] + dec_digits(h as nat) + seq![10u8]
        + dec_digits(255) + seq![10u8]
}

/// The whole serialized image.
pub open spec fn spec_ppm(w: u32, h: u32, ps: Seq<Rgb>) -> Seq<u8> {
    spec_header(w, h) + spec_pixels(ps)
}

/// Every byte of a decimal rendering is a digit.
proof fn lemma_dec_digits_are_digits(n: nat)
    ensures
        dec_digits(n).len() >= 1,
        forall|i: int| 0 <= i < dec_digits(n).len() ==> is_digit(#[trigger] dec_digits(n)[i]),
    decreases n,
{
    if n < 10 {
    } else {
        lemma_dec_digits_are_digits(n / 10);
        assert forall|i: int| 0 <= i < dec_digits(n).len() implies is_digit(
            #[trigger] dec_digits(n)[i],
        ) by {
            if i < dec_digits(n).len() - 1 {
                assert(dec_digits(n)[i] == dec_digits(n / 10)[i]);
            }
        }
    }
}

/// Appending a digit multiplies the run's value by ten and adds it.
proof fn lemma_digits_val_push(ds: Seq<u8>, d: u8, acc: nat)
    requires
        forall|i: int| 0 <= i < ds.len() ==> is_digit(#[trigger] ds[i]),
        is_digit(d),
    ensures
        digits_val(ds.push(d), acc) == digits_val(ds, acc) * 10 + (d - 48),
    decreases ds.len(),
{
    if ds.len() == 0 {
        assert(ds.push(d)[0] == d);
        assert(ds.push(d).drop_first() =~= Seq::<u8>::empty());
        assert(digits_val(Seq::<u8>::empty(), acc * 10 + (d - 48) as nat) == acc * 10 + (
        d - 48) as nat);
        assert(digits_val(ds.push(d), acc) == digits_val(
            ds.push(d).drop_first(),
            acc * 10 + (ds.push(d)[0] - 48) as nat,
        ));
        assert(digits_val(ds, acc) == acc);
    } else {
        assert(ds.push(d)[0] == ds[0]);
        assert(ds.push(d).drop_first() =~= ds.drop_first().push(d));
        lemma_digits_val_push(ds.drop_first(), d, acc * 10 + (ds[0] - 48) as nat);
        assert(digits_val(ds.push(d), acc) == digits_val(
            ds.drop_first().push(d),
            acc * 10 + (ds[0] - 48) as nat,
        ));
    }
}

/// Reading back the decimal rendering of `n` yields `n`.
proof fn lemma_digits_val_of_dec(n: nat)
    ensures
        digits_val(dec_digits(n), 0) == n,
    decreases n,
{
    if n < 10 {
        let s = dec_digits(n);
        assert(s == seq![(48 + n) as u8]);
        assert(s[0] == (48 + n) as u8);
        assert(s.drop_first() =~= Seq::<u8>::empty());
        assert(digits_val(s.drop_first(), 0 * 10 + (s[0] - 48) as nat) == (s[0] - 48) as nat);
        assert(digits_val(s, 0) == n);
    } else {
        lemma_digits_val_of_dec(n / 10);
        lemma_dec_digits_are_digits(n / 10);
        let d = (48 + n % 10) as u8;
        assert((d - 48) as nat == n % 10) by {
            vstd::arithmetic::div_mod::lemma_mod_bound(n as int, 10);
        }
        lemma_digits_val_push(dec_digits(n / 10), d, 0);
        assert(dec_digits(n) == dec_digits(n / 10).push(d));
        assert(digits_val(dec_digits(n), 0) == digits_val(dec_digits(n / 10), 0) * 10 + (d - 48));
        assert(digits_val(dec_digits(n), 0) == (n / 10) * 10 + n % 10);
        assert(n == (n / 10) * 10 + n % 10) by {
            vstd::arithmetic::div_mod::lemma_fundamental_div_mod(n as int, 10);
            assert((n as int) / 10 == (n / 10) as int);
            assert((n as int) % 10 == (n % 10) as int);
        }
    }
}

/// A number below `10^k` renders to at most `k` digits.
proof fn lemma_dec_digits_len(n: nat, k: nat)
    requires
        k >= 1,
        n < pow10(k),
    ensures
        dec_digits(n).len() <= k,
    decreases n,
{
    if n < 10 {
    } else {
        assert(pow10(k) == 10 * pow10((k - 1) as nat));
        assert(n / 10 < pow10((k - 1) as nat)) by {
            vstd::arithmetic::div_mod::lemma_fundamental_div_mod(n as int, 10);
            vstd::arithmetic::div_mod::lemma_mod_bound(n as int, 10);
        }
        assert((k - 1) as nat >= 1) by {
            if k == 1 {
                assert(pow10(0nat) == 1);
                assert(n < 10);
            }
        }
        lemma_dec_digits_len(n / 10, (k - 1) as nat);
    }
}

/// The digit run over a region known to hold digits up to `e` (with a
/// non-digit or the end at `e`) ends exactly at `e`.
proof fn lemma_run_end_segment(s: Seq<u8>, i: int, e: int)
    requires
        0 <= i <= e <= s.len(),
        forall|j: int| i <= j < e ==> is_digit(#[trigger] s[j]),
        e == s.len() || !is_digit(s[e]),
    ensures
        digit_run_end(s, i) == e,
    decreases e - i,
{
    if i < e {
        lemma_run_end_segment(s, i + 1, e);
    }
}

/// A buffer whose bytes from `i` start with the decimal rendering of
/// `n`, followed by a non-digit (or the end), scans back to exactly `n`.
proof fn lemma_read_of_dec(s: Seq<u8>, i: int, n: nat)
    requires
        0 <= i,
        i + dec_digits(n).len() <= s.len(),
        s.subrange(i, i + dec_digits(n).len()) == dec_digits(n),
        i + dec_digits(n).len() == s.len() || !is_digit(s[i + dec_digits(n).len()]),
    ensures
        digit_run_end(s, i) == i + dec_digits(n).len(),
        run_val(s, i) == n,
        is_digit(s[i]),
    decreases n,
{
    let k = dec_digits(n).len();
    lemma_dec_digits_are_digits(n);
    assert forall|j: int| i <= j < i + k implies is_digit(#[trigger] s[j]) by {
        assert(s[j] == s.subrange(i, i + k)[j - i]);
    }
    lemma_run_end_segment(s, i, i + k);
    lemma_digits_val_of_dec(n);
    assert(s[i] == s.subrange(i, i + k)[0]);
}

/// `pow10(10)`, spelled out for overflow bounds.
proof fn lemma_pow10_10()
    ensures
        pow10(10) == 10000000000,
{
    reveal_with_fuel(pow10, 11);
}

/// The digit run starting at `i` reaches at least past any region of
/// digits.
proof fn lemma_run_end_lower(s: Seq<u8>, i: int, e: int)
    requires
        0 <= i <= e <= s.len(),
        forall|j: int| i <= j < e ==> is_digit(#[trigger] s[j]),
    ensures
        digit_run_end(s, i) >= e,
    decreases e - i,
{
    if i < e {
        assert(is_digit(s[i]));
        lemma_run_end_lower(s, i + 1, e);
        assert(digit_run_end(s, i) == digit_run_end(s, i + 1));
    } else {
        lemma_run_end_bounds(s, i);
    }
}

/// The digit run's end lies between its start and the end of the buffer.
proof fn lemma_run_end_bounds(s: Seq<u8>, i: int)
    requires
        0 <= i <= s.len(),
    ensures
        i <= digit_run_end(s, i) <= s.len(),
    decreases s.len() - i,
{
    if i < s.len() && is_digit(s[i]) {
        lemma_run_end_bounds(s, i + 1);
    }
}

/// Splitting a pixel sequence splits its serialization.
proof fn lemma_pixels_append(a: Seq<Rgb>, b: Seq<Rgb>)
    ensures
        spec_pixels(a + b) == spec_pixels(a) + spec_pixels(b),
    decreases a.len(),
{
    if a.len() == 0 {
        assert(a + b =~= b);
        assert(spec_pixels(a) + spec_pixels(b) =~= spec_pixels(b));
    } else {
        assert((a + b).drop_first() =~= a.drop_first() + b);
        lemma_pixels_append(a.drop_first(), b);
        assert((a + b).first() == a.first());
        assert(spec_px_line(a.first()) + (spec_pixels(a.drop_first()) + spec_pixels(b)) =~= (
        spec_px_line(a.first()) + spec_pixels(a.drop_first())) + spec_pixels(b));
    }
}

/// Serializing one more pixel appends its line.
proof fn lemma_pixels_snoc(ps: Seq<Rgb>, i: int)
    requires
        0 <= i < ps.len(),
    ensures
        spec_pixels(ps.subrange(0, i + 1)) == spec_pixels(ps.subrange(0, i)) + spec_px_line(
            ps[i],
        ),
{
    assert(ps.subrange(0, i + 1) =~= ps.subrange(0, i) + seq![ps[i]]);
    lemma_pixels_append(ps.subrange(0, i), seq![ps[i]]);
    let single = seq![ps[i]];
    assert(single.drop_first() =~= Seq::<Rgb>::empty());
    assert(spec_pixels(single) == spec_px_line(ps[i]) + spec_pixels(Seq::<Rgb>::empty()));
    assert(spec_px_line(ps[i]) + Seq::<u8>::empty() =~= spec_px_line(ps[i]));
}

/// An empty serialization means there were no pixels.
proof fn lemma_pixels_empty(ps: Seq<Rgb>)
    requires
        spec_pixels(ps).len() == 0,
    ensures
        ps.len() == 0,
{
    if ps.len() > 0 {
        lemma_dec_digits_are_digits(ps.first().r as nat);
    }
}

/// Appends the decimal rendering of `n`.
fn push_number(out: &mut Vec<u8>, n: u32)
    ensures
        final(out)@ == old(out)@ + dec_digits(n as nat),
    decreases n,
{
    if n < 10 {
        out.push((48 + n) as u8);
        proof {
            assert(out@ =~= old(out)@ + dec_digits(n as nat));
        }
    } else {
        push_number(out, n / 10);
        out.push((48 + (n % 10)) as u8);
        proof {
            assert((n / 10) as nat == (n as nat) / 10);
            assert((n % 10) as nat == (n as nat) % 10);
            assert(out@ =~= old(out)@ + dec_digits(n as nat));
        }
    }
}

/// Serializes the image: the header, then one line per pixel in order,
/// exactly the bytes of `spec_ppm`.
pub fn serialize_ppm(w: u32, h: u32, pixels: &Vec<Rgb>) -> (out: Vec<u8>)
    ensures
        out@ == spec_ppm(w, h, pixels@),
{
    let mut out: Vec<u8> = Vec::new();
    out.push(80);
    out.push(51);
    out.push(10);
    push_number(&mut out, w);
    out.push(32);
    push_number(&mut out, h);
    out.push(10);
    push_number(&mut out, 255);
    out.push(10);
    proof {
        assert(out@ =~= spec_header(w, h));
        assert(spec_pixels(pixels@.subrange(0, 0)) =~= Seq::<u8>::empty());
        assert(out@ =~= spec_header(w, h) + spec_pixels(pixels@.subrange(0, 0)));
    }
    let mut i: usize = 0;
    while i < pixels.len()
        invariant
            i <= pixels@.len(),
            out@ == spec_header(w, h) + spec_pixels(pixels@.subrange(0, i as int)),
        decreases pixels@.len() - i,
    {
        let p = pixels[i];
        push_number(&mut out, p.r as u32);
        out.push(32);
        push_number(&mut out, p.g as u32);
        out.push(32);
        push_number(&mut out, p.b as u32);
        out.push(10);
        proof {
            lemma_pixels_snoc(pixels@, i as int);
            assert(out@ =~= spec_header(w, h) + spec_pixels(pixels@.subrange(0, i as int + 1)));
        }
        i = i + 1;
    }
    proof {
        assert(pixels@.subrange(0, pixels@.len() as int) =~= pixels@);
    }
    out
}

/// Reads the digit run starting at `pos`: its value and the index just
/// past it.  `None` when no digit starts there or the run is longer than
/// ten digits (so the value always fits in a `u64`).
fn read_number(bytes: &Vec<u8>, pos: usize) -> (r: Option<(u64, usize)>)
    requires
        pos <= bytes@.len(),
    ensures
        r is Some ==> (r->0).1 as int == digit_run_end(bytes@, pos as int) && (r->0).0 as nat
            == run_val(bytes@, pos as int) && pos < (r->0).1 <= bytes@.len(),
        (pos < bytes@.len() && is_digit(bytes@[pos as int]) && digit_run_end(bytes@, pos as int)
            - pos <= 10) ==> r is Some,
{
    let n = bytes.len();
    let mut j = pos;
    let mut acc: u64 = 0;
    proof {
        assert(bytes@.subrange(pos as int, pos as int) =~= Seq::<u8>::empty());
        lemma_pow10_10();
    }
    while j < n && j - pos < 10 && 48 <= bytes[j] && bytes[j] <= 57
        invariant
            pos <= j <= n,
            n == bytes@.len(),
            j - pos <= 10,
            forall|t: int| pos <= t < j ==> is_digit(#[trigger] bytes@[t]),
            acc == digits_val(bytes@.subrange(pos as int, j as int), 0),
            acc < pow10((j - pos) as nat),
            pow10(10) == 10000000000,
        decreases n - j,
    {
        let c = bytes[j];
        proof {
            assert(pow10(((j + 1 - pos)) as nat) == 10 * pow10((j - pos) as nat));
            assert(acc * 10 + 9 < 10 * pow10((j - pos) as nat)) by (nonlinear_arith)
                requires acc < pow10((j - pos) as nat);
            assert(pow10((j - pos) as nat) <= pow10(10)) by {
                lemma_pow10_mono((j - pos) as nat, 10);
            }
        }
        acc = acc * 10 + ((c - 48) as u64);
        j = j + 1;
        proof {
            let prev = bytes@.subrange(pos as int, j - 1 as int);
            assert(bytes@.subrange(pos as int, j as int) =~= prev.push(bytes@[j - 1]));
            lemma_digits_val_push(prev, bytes@[j - 1], 0);
            assert(digits_val(prev, 0) * 10 + (bytes@[j - 1] - 48) == acc);
        }
    }
    if j == pos {
        return None;
    }
    if j < n {
        let c = bytes[j];
        if 48 <= c && c <= 57 {
            proof {
                lemma_run_end_lower(bytes@, pos as int, j as int + 1);
            }
            return None;
        }
    }
    proof {
        lemma_run_end_segment(bytes@, pos as int, j as int);
    }
    Some((acc, j))
}

/// Whether `bytes` is the serialization of a `w` by `h` image with the
/// pixels `ps`.
pub open spec fn ppm_encodes(bytes: Seq<u8>, w: u32, h: u32, ps: Seq<Rgb>) -> bool {
    ps.len() == (w as nat) * (h as nat) && bytes == spec_ppm(w, h, ps)
}

/// What scanning finds in a serialized header: the magic bytes, the two
/// dimension runs, the maximum value 255, their separators, and the
/// pixel bytes after it.
proof fn lemma_header_parse(s: Seq<u8>, w: u32, h: u32, rest: Seq<u8>)
    requires
        s == spec_header(w, h) + rest,
    ensures
        ({
            let e1 = 3 + dec_digits(w as nat).len() as int;
            let e2 = e1 + 1 + dec_digits(h as nat).len() as int;
            let e3 = e2 + 1 + dec_digits(255nat).len() as int;
            &&& s.len() == e3 + 1 + rest.len()
            &&& spec_header(w, h).len() == e3 + 1
            &&& s[0] == 80
            &&& s[1] == 51
            &&& s[2] == 10
            &&& is_digit(s[3])
            &&& digit_run_end(s, 3) == e1
            &&& run_val(s, 3) == w as nat
            &&& e1 - 3 <= 10
            &&& s[e1] == 32
            &&& is_digit(s[e1 + 1])
            &&& digit_run_end(s, e1 + 1) == e2
            &&& run_val(s, e1 + 1) == h as nat
            &&& e2 - (e1 + 1) <= 10
            &&& s[e2] == 10
            &&& is_digit(s[e2 + 1])
            &&& digit_run_end(s, e2 + 1) == e3
            &&& run_val(s, e2 + 1) == 255
            &&& e3 - (e2 + 1) <= 10
            &&& s[e3] == 10
            &&& s.subrange(e3 + 1, s.len() as int) == rest
        }),
{
    let dw = dec_digits(w as nat);
    let dh = dec_digits(h as nat);
    let dm = dec_digits(255nat);
    let e1 = 3 + dw.len() as int;
    let e2 = e1 + 1 + dh.len() as int;
    let e3 = e2 + 1 + dm.len() as int;
    lemma_pow10_10();
    assert((w as nat) < pow10(10));
    assert((h as nat) < pow10(10));
    assert(255nat < pow10(10));
    lemma_dec_digits_len(w as nat, 10);
    lemma_dec_digits_len(h as nat, 10);
    lemma_dec_digits_len(255nat, 10);
    assert(spec_header(w, h).len() == 3 + dw.len() + 1 + dh.len() + 1 + dm.len() + 1);
    assert(s.len() == e3 + 1 + rest.len());
    assert(s.subrange(3, e1) =~= dw);
    assert(s.subrange(e1 + 1, e2) =~= dh);
    assert(s.subrange(e2 + 1, e3) =~= dm);
    lemma_read_of_dec(s, 3, w as nat);
    lemma_read_of_dec(s, e1 + 1, h as nat);
    lemma_read_of_dec(s, e2 + 1, 255nat);
    lemma_digits_val_of_dec(255nat);
    assert(s.subrange(e3 + 1, s.len() as int) =~= rest);
}

/// What scanning finds in one serialized pixel line starting at `pos`:
/// the three component runs and their separators, and the remaining
/// bytes after the newline.
#[verifier::rlimit(80)]
proof fn lemma_pixline_parse(s: Seq<u8>, pos: int, p: Rgb, rest: Seq<u8>)
    requires
        0 <= pos <= s.len(),
        s.subrange(pos, s.len() as int) == spec_px_line(p) + rest,
    ensures
        ({
            let e1 = pos + dec_digits(p.r as nat).len() as int;
            let e2 = e1 + 1 + dec_digits(p.g as nat).len() as int;
            let e3 = e2 + 1 + dec_digits(p.b as nat).len() as int;
            &&& s.len() == e3 + 1 + rest.len()
            &&& is_digit(s[pos])
            &&& digit_run_end(s, pos) == e1
            &&& run_val(s, pos) == p.r as nat
            &&& e1 - pos <= 10
            &&& s[e1] == 32
            &&& is_digit(s[e1 + 1])
            &&& digit_run_end(s, e1 + 1) == e2
            &&& run_val(s, e1 + 1) == p.g as nat
            &&& e2 - (e1 + 1) <= 10
            &&& s[e2] == 32
            &&& is_digit(s[e2 + 1])
            &&& digit_run_end(s, e2 + 1) == e3
            &&& run_val(s, e2 + 1) == p.b as nat
            &&& e3 - (e2 + 1) <= 10
            &&& s[e3] == 10
            &&& s.subrange(e3 + 1, s.len() as int) == rest
        }),
{
    let dr = dec_digits(p.r as nat);
    let dg = dec_digits(p.g as nat);
    let db = dec_digits(p.b as nat);
    let e1 = pos + dr.len() as int;
    let e2 = e1 + 1 + dg.len() as int;
    let e3 = e2 + 1 + db.len() as int;
    lemma_pow10_10();
    lemma_dec_digits_len(p.r as nat, 10);
    lemma_dec_digits_len(p.g as nat, 10);
    lemma_dec_digits_len(p.b as nat, 10);
    assert forall|j: int| pos <= j < s.len() implies s[j] == (spec_px_line(p) + rest)[j - pos] by {
        assert(s[j] == s.subrange(pos, s.len() as int)[j - pos]);
    }
    assert(spec_px_line(p).len() == dr.len() + 1 + dg.len() + 1 + db.len() + 1);
    assert(s.subrange(pos, s.len() as int).len() == s.len() - pos);
    assert((spec_px_line(p) + rest).len() == spec_px_line(p).len() + rest.len());
    assert(s.len() == e3 + 1 + rest.len());
    assert(s.subrange(pos, e1) =~= dr);
    assert(s.subrange(e1 + 1, e2) =~= dg);
    assert(s.subrange(e2 + 1, e3) =~= db);
    lemma_read_of_dec(s, pos, p.r as nat);
    lemma_read_of_dec(s, e1 + 1, p.g as nat);
    lemma_read_of_dec(s, e2 + 1, p.b as nat);
    assert(s.subrange(e3 + 1, s.len() as int) =~= rest);
}

/// Parses the header: the dimensions and the position of the first
/// pixel byte.  On the serialization of any image it succeeds with that
/// image's dimensions.
fn parse_header(bytes: &Vec<u8>) -> (r: Option<(u32, u32, usize)>)
    ensures
        r is Some ==> (r->0).2 <= bytes@.len(),
        forall|w: u32, h: u32, ps: Seq<Rgb>| #[trigger] ppm_encodes(bytes@, w, h, ps) ==> (r
            is Some && (r->0).0 == w && (r->0).1 == h && bytes@.subrange(
            (r->0).2 as int,
            bytes@.len() as int,
        ) == spec_pixels(ps)),
{
    let n = bytes.len();
    if n < 3 || bytes[0] != 80 || bytes[1] != 51 || bytes[2] != 10 {
        proof {
            assert forall|w: u32, h: u32, ps: Seq<Rgb>| !ppm_encodes(bytes@, w, h, ps) by {
                if ppm_encodes(bytes@, w, h, ps) {
                    lemma_header_parse(bytes@, w, h, spec_pixels(ps));
                    assert(false);
                }
            }
        }
        return None;
    }
    let (wv, p1) = match read_number(bytes, 3) {
        Some(x) => x,
        None => {
            proof {
                assert forall|w: u32, h: u32, ps: Seq<Rgb>| !ppm_encodes(bytes@, w, h, ps) by {
                    if ppm_encodes(bytes@, w, h, ps) {
                        lemma_header_parse(bytes@, w, h, spec_pixels(ps));
                        assert(false);
                    }
                }
            }
            return None;
        },
    };
    if wv > 0xffffffff || p1 >= n || bytes[p1] != 32 {
        proof {
            assert forall|w: u32, h: u32, ps: Seq<Rgb>| !ppm_encodes(bytes@, w, h, ps) by {
                if ppm_encodes(bytes@, w, h, ps) {
                    lemma_header_parse(bytes@, w, h, spec_pixels(ps));
                    assert(false);
                }
            }
        }
        return None;
    }
    let (hv, p2) = match read_number(bytes, p1 + 1) {
        Some(x) => x,
        None => {
            proof {
                assert forall|w: u32, h: u32, ps: Seq<Rgb>| !ppm_encodes(bytes@, w, h, ps) by {
                    if ppm_encodes(bytes@, w, h, ps) {
                        lemma_header_parse(bytes@, w, h, spec_pixels(ps));
                        assert(false);
                    }
                }
            }
            return None;
        },
    };
    if hv > 0xffffffff || p2 >= n || bytes[p2] != 10 {
        proof {
            assert forall|w: u32, h: u32, ps: Seq<Rgb>| !ppm_encodes(bytes@, w, h, ps) by {
                if ppm_encodes(bytes@, w, h, ps) {
                    lemma_header_parse(bytes@, w, h, spec_pixels(ps));
                    assert(false);
                }
            }
        }
        return None;
    }
    let (mv, p3) = match read_number(bytes, p2 + 1) {
        Some(x) => x,
        None => {
            proof {
                assert forall|w: u32, h: u32, ps: Seq<Rgb>| !ppm_encodes(bytes@, w, h, ps) by {
                    if ppm_encodes(bytes@, w, h, ps) {
                        lemma_header_parse(bytes@, w, h, spec_pixels(ps));
                        assert(false);
                    }
                }
            }
            return None;
        },
    };
    if mv != 255 || p3 >= n || bytes[p3] != 10 {
        proof {
            assert forall|w: u32, h: u32, ps: Seq<Rgb>| !ppm_encodes(bytes@, w, h, ps) by {
                if ppm_encodes(bytes@, w, h, ps) {
                    lemma_header_parse(bytes@, w, h, spec_pixels(ps));
                    assert(false);
                }
            }
        }
        return None;
    }
    let r = Some((wv as u32, hv as u32, p3 + 1));
    proof {
        assert forall|w: u32, h: u32, ps: Seq<Rgb>| #[trigger] ppm_encodes(bytes@, w, h, ps)
            implies (wv as u32 == w && hv as u32 == h && bytes@.subrange(
            p3 + 1 as int,
            bytes@.len() as int,
        ) == spec_pixels(ps)) by {
            lemma_header_parse(bytes@, w, h, spec_pixels(ps));
        }
    }
    r
}

/// Parses a serialized image back into its dimensions and pixels.  On
/// the serialization of any image whose pixel count matches its
/// dimensions, parsing succeeds and returns exactly that image: the
/// parser inverts the serializer.
pub fn parse_ppm(bytes: &Vec<u8>) -> (r: Option<(u32, u32, Vec<Rgb>)>)
    ensures
        forall|w: u32, h: u32, ps: Seq<Rgb>| #[trigger] ppm_encodes(bytes@, w, h, ps) ==> (r
            is Some && (r->0).0 == w && (r->0).1 == h && ((r->0).2)@ == ps),
{
    let n = bytes.len();
    let (wv, hv, start) = match parse_header(bytes) {
        Some(x) => x,
        None => {
            return None;
        },
    };
    let mut parsed: Vec<Rgb> = Vec::new();
    let mut pos: usize = start;
    proof {
        assert forall|w: u32, h: u32, ps: Seq<Rgb>| #[trigger] ppm_encodes(bytes@, w, h, ps)
            implies (wv == w && hv == h && parsed@.len() <= ps.len() && parsed@ == ps.subrange(
            0,
            parsed@.len() as int,
        ) && bytes@.subrange(pos as int, n as int) == spec_pixels(
            ps.subrange(parsed@.len() as int, ps.len() as int),
        )) by {
            assert(parsed@ =~= ps.subrange(0, 0));
            assert(ps.subrange(0, ps.len() as int) =~= ps);
        }
    }
    while pos < n
        invariant
            pos <= n,
            n == bytes@.len(),
            forall|w: u32, h: u32, ps: Seq<Rgb>| #[trigger] ppm_encodes(bytes@, w, h, ps) ==> (
            wv == w && hv == h && parsed@.len() <= ps.len() && parsed@ == ps.subrange(
                0,
                parsed@.len() as int,
            ) && bytes@.subrange(pos as int, n as int) == spec_pixels(
                ps.subrange(parsed@.len() as int, ps.len() as int),
            )),
        decreases n - pos,
    {
        let ghost prev_parsed = parsed@;
        let ghost prev_pos = pos as int;
        let (rv, q1) = match read_number(bytes, pos) {
            Some(x) => x,
            None => {
                proof {
                    assert forall|w: u32, h: u32, ps: Seq<Rgb>| !ppm_encodes(bytes@, w, h, ps) by {
                        if ppm_encodes(bytes@, w, h, ps) {
                            pixel_tail_facts(bytes@, prev_pos, ps, prev_parsed.len() as int);
                            assert(false);
                        }
                    }
                }
                return None;
            },
        };
        if rv > 255 || q1 >= n || bytes[q1] != 32 {
            proof {
                assert forall|w: u32, h: u32, ps: Seq<Rgb>| !ppm_encodes(bytes@, w, h, ps) by {
                    if ppm_encodes(bytes@, w, h, ps) {
                        pixel_tail_facts(bytes@, prev_pos, ps, prev_parsed.len() as int);
                        assert(false);
                    }
                }
            }
            return None;
        }
        let (gv, q2) = match read_number(bytes, q1 + 1) {
            Some(x) => x,
            None => {
                proof {
                    assert forall|w: u32, h: u32, ps: Seq<Rgb>| !ppm_encodes(bytes@, w, h, ps) by {
                        if ppm_encodes(bytes@, w, h, ps) {
                            pixel_tail_facts(bytes@, prev_pos, ps, prev_parsed.len() as int);
                            assert(false);
                        }
                    }
                }
                return None;
            },
        };
        if gv > 255 || q2 >= n || bytes[q2] != 32 {
            proof {
                assert forall|w: u32, h: u32, ps: Seq<Rgb>| !ppm_encodes(bytes@, w, h, ps) by {
                    if ppm_encodes(bytes@, w, h, ps) {
                        pixel_tail_facts(bytes@, prev_pos, ps, prev_parsed.len() as int);
                        assert(false);
                    }
                }
            }
            return None;
        }
        let (bv, q3) = match read_number(bytes, q2 + 1) {
            Some(x) => x,
            None => {
                proof {
                    assert forall|w: u32, h: u32, ps: Seq<Rgb>| !ppm_encodes(bytes@, w, h, ps) by {
                        if ppm_encodes(bytes@, w, h, ps) {
                            pixel_tail_facts(bytes@, prev_pos, ps, prev_parsed.len() as int);
                            assert(false);
                        }
                    }
                }
                return None;
            },
        };
        if bv > 255 || q3 >= n || bytes[q3] != 10 {
            proof {
                assert forall|w: u32, h: u32, ps: Seq<Rgb>| !ppm_encodes(bytes@, w, h, ps) by {
                    if ppm_encodes(bytes@, w, h, ps) {
                        pixel_tail_facts(bytes@, prev_pos, ps, prev_parsed.len() as int);
                        assert(false);
                    }
                }
            }
            return None;
        }
        let px = Rgb { r: rv as u8, g: gv as u8, b: bv as u8 };
        parsed.push(px);
        pos = q3 + 1;
        proof {
            assert forall|w: u32, h: u32, ps: Seq<Rgb>| #[trigger] ppm_encodes(bytes@, w, h, ps)
                implies (wv == w && hv == h && parsed@.len() <= ps.len() && parsed@
                == ps.subrange(0, parsed@.len() as int) && bytes@.subrange(pos as int, n as int)
                == spec_pixels(ps.subrange(parsed@.len() as int, ps.len() as int))) by {
                pixel_tail_facts(bytes@, prev_pos, ps, prev_parsed.len() as int);
                let k = prev_parsed.len() as int;
                let tail = ps.subrange(k, ps.len() as int);
                let p = tail.first();
                assert(px == p);
                assert(parsed@ =~= ps.subrange(0, k + 1));
                assert(tail.drop_first() =~= ps.subrange(k + 1, ps.len() as int));
            }
        }
    }
    proof {
        assert((wv as int) * (hv as int) <= 0xffffffff * 0xffffffff) by (nonlinear_arith)
            requires wv <= 0xffffffff, hv <= 0xffffffff;
    }
    if (parsed.len() as u64) != (wv as u64) * (hv as u64) {
        proof {
            assert forall|w: u32, h: u32, ps: Seq<Rgb>| !ppm_encodes(bytes@, w, h, ps) by {
                if ppm_encodes(bytes@, w, h, ps) {
                    assert(bytes@.subrange(pos as int, n as int).len() == 0);
                    lemma_pixels_empty(ps.subrange(parsed@.len() as int, ps.len() as int));
                    assert(parsed@ =~= ps);
                    assert(false);
                }
            }
        }
        return None;
    }
    let r = Some((wv, hv, parsed));
    proof {
        assert forall|w: u32, h: u32, ps: Seq<Rgb>| #[trigger] ppm_encodes(bytes@, w, h, ps)
            implies (wv == w && hv == h && parsed@ == ps) by {
            assert(bytes@.subrange(pos as int, n as int).len() == 0);
            lemma_pixels_empty(ps.subrange(parsed@.len() as int, ps.len() as int));
            assert(parsed@ =~= ps);
        }
    }
    r
}

/// From the loop invariant's tail equality, the facts of the next pixel
/// line: the tail is nonempty and scans as its first pixel.
proof fn pixel_tail_facts(s: Seq<u8>, pos: int, ps: Seq<Rgb>, k: int)
    requires
        0 <= k <= ps.len(),
        0 <= pos <= s.len(),
        pos < s.len(),
        s.subrange(pos, s.len() as int) == spec_pixels(ps.subrange(k, ps.len() as int)),
    ensures
        k < ps.len(),
        ({
            let p = ps.subrange(k, ps.len() as int).first();
            let e1 = pos + dec_digits(p.r as nat).len() as int;
            let e2 = e1 + 1 + dec_digits(p.g as nat).len() as int;
            let e3 = e2 + 1 + dec_digits(p.b as nat).len() as int;
            &&& p == ps[k]
            &&& is_digit(s[pos])
            &&& digit_run_end(s, pos) == e1
            &&& run_val(s, pos) == p.r as nat
            &&& e1 - pos <= 10
            &&& s[e1] == 32
            &&& is_digit(s[e1 + 1])
            &&& digit_run_end(s, e1 + 1) == e2
            &&& run_val(s, e1 + 1) == p.g as nat
            &&& e2 - (e1 + 1) <= 10
            &&& s[e2] == 32
            &&& is_digit(s[e2 + 1])
            &&& digit_run_end(s, e2 + 1) == e3
            &&& run_val(s, e2 + 1) == p.b as nat
            &&& e3 - (e2 + 1) <= 10
            &&& s[e3] == 10
            &&& e3 + 1 <= s.len()
            &&& s.subrange(e3 + 1, s.len() as int) == spec_pixels(
                ps.subrange(k, ps.len() as int).drop_first(),
            )
        }),
{
    let tail = ps.subrange(k, ps.len() as int);
    if tail.len() == 0 {
        assert(spec_pixels(tail).len() == 0);
        assert(s.subrange(pos, s.len() as int).len() > 0);
        assert(false);
    }
    assert(tail.first() == ps[k]);
    lemma_pixline_parse(s, pos, tail.first(), spec_pixels(tail.drop_first()));
}

/// `pow10` is monotone.
proof fn lemma_pow10_mono(a: nat, b: nat)
    requires
        a <= b,
    ensures
        pow10(a) <= pow10(b),
    decreases b,
{
    if a < b && b > 0 {
        lemma_pow10_mono(a, (b - 1) as nat);
        assert(pow10(((b - 1)) as nat) >= 1) by {
            lemma_pow10_pos((b - 1) as nat);
        }
    }
}

proof fn lemma_pow10_pos(k: nat)
    ensures
        pow10(k) >= 1,
    decreases k,
{
    if k > 0 {
        lemma_pow10_pos((k - 1) as nat);
    }
}

} // verus!
