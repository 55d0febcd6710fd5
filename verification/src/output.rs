use vstd::prelude::*;
use vstd::string::StringSliceAdditionalSpecFns;

verus! {

/// ASCII code of the digit `0`.
pub const ASCII_ZERO: u8 = 48;

/// Decimal representation of `n` in ASCII digits, most significant first,
/// without leading zeros.
pub open spec fn decimal(n: nat) -> Seq<u8>
    decreases n,
{
    if n < 10 {
        seq![(ASCII_ZERO + n) as u8]
    } else {
        decimal(n / 10).push((ASCII_ZERO + n % 10) as u8)
    }
}

/// The number that a string of ASCII digits denotes.
pub open spec fn digits_value(s: Seq<u8>) -> nat
    decreases s.len(),
{
    if s.len() == 0 {
        0
    } else {
        digits_value(s.drop_last()) * 10 + (s.last() - ASCII_ZERO) as nat
    }
}

/// Every byte is an ASCII digit.
pub open spec fn all_digits(s: Seq<u8>) -> bool {
    forall|i: int| 0 <= i < s.len() ==> ASCII_ZERO <= #[trigger] s[i] <= ASCII_ZERO + 9
}

/// A decimal representation is made of digits, starts with a nonzero digit
/// unless the number is zero, and denotes the number it was made from.
pub proof fn lemma_decimal_denotes(n: nat)
    ensures
        all_digits(decimal(n)),
        decimal(n).len() >= 1,
        n > 0 ==> decimal(n)[0] != ASCII_ZERO,
        digits_value(decimal(n)) == n,
    decreases n,
{
    if n >= 10 {
        lemma_decimal_denotes(n / 10);
        let p = decimal(n / 10);
        assert(decimal(n).drop_last() =~= p);
        assert(decimal(n)[0] == p[0]);
        assert(decimal(n).last() == (ASCII_ZERO + n % 10) as u8);
        vstd::arithmetic::div_mod::lemma_fundamental_div_mod(n as int, 10);
        assert(digits_value(decimal(n)) == digits_value(p) * 10 + n % 10);
    } else {
        assert(decimal(n).drop_last() =~= Seq::<u8>::empty());
        assert(digits_value(Seq::<u8>::empty()) == 0);
    }
}

/// Header of a binary PPM (P6) image of `width` x `height` pixels with 8-bit
/// samples: `P6`, newline, width, space, height, newline, `255`, newline.
pub open spec fn ppm_header_spec(width: nat, height: nat) -> Seq<u8> {
    seq![80u8, 54u8, 10u8] + decimal(width) + seq![32u8] + decimal(height) + seq![10u8, 50u8, 53u8, 53u8, 10u8]
}

/// Appends the decimal digits of `n` to `out`.
fn push_decimal(out: &mut Vec<u8>, n: usize)
    ensures
        final(out)@ == old(out)@ + decimal(n as nat),
    decreases n,
{
    if n >= 10 {
        push_decimal(out, n / 10);
    }
    out.push(ASCII_ZERO + (n % 10) as u8);
    proof {
        if n < 10 {
            assert(decimal(n as nat) =~= seq![(ASCII_ZERO + n) as u8]);
        }
    }
}

fn push_bytes(out: &mut Vec<u8>, bytes: &[u8])
    ensures
        final(out)@ == old(out)@ + bytes@,
{
    let ghost start = out@;
    let mut i: usize = 0;
    while i < bytes.len()
        invariant
            i <= bytes@.len(),
            out@ == start + bytes@.subrange(0, i as int),
        decreases bytes@.len() - i,
    {
        out.push(bytes[i]);
        i = i + 1;
        proof {
            assert(bytes@.subrange(0, i as int) =~= bytes@.subrange(0, i - 1).push(bytes@[i - 1]));
        }
    }
    proof {
        assert(bytes@.subrange(0, bytes@.len() as int) =~= bytes@);
    }
}

/// The header that opens a binary PPM file of the given size.
pub fn ppm_header(width: usize, height: usize) -> (r: Vec<u8>)
    ensures
        r@ == ppm_header_spec(width as nat, height as nat),
{
    let mut out: Vec<u8> = Vec::new();
    out.push(80);
    out.push(54);
    out.push(10);
    push_decimal(&mut out, width);
    out.push(32);
    push_decimal(&mut out, height);
    out.push(10);
    out.push(50);
    out.push(53);
    out.push(53);
    out.push(10);
    proof {
        assert(out@ =~= ppm_header_spec(width as nat, height as nat));
    }
    out
}

/// The bytes of a binary PPM file: the header, then the packed RGB samples
/// exactly as given.
pub fn encode_ppm(rgb: &[u8], width: usize, height: usize) -> (r: Vec<u8>)
    ensures
        r@ == ppm_header_spec(width as nat, height as nat) + rgb@,
{
    let mut out = ppm_header(width, height);
    push_bytes(&mut out, rgb);
    out
}

/// How the developed image is written, chosen by the output file's extension.
#[derive(Debug, Clone, Copy, PartialEq, Eq, Structural)]
pub enum OutputFormat {
    /// A PPM file at the path given.
    Ppm,
    /// A PNG file at the path given.
    Png,
    /// The extension is not supported: a PPM file at the path with its
    /// extension replaced by `ppm`.
    PpmFallback,
}

/// ASCII lower case of a byte; other bytes are unchanged.
pub open spec fn ascii_lower(c: u8) -> u8 {
    if 65 <= c <= 90 {
        (c + 32) as u8
    } else {
        c
    }
}

/// The two byte strings are equal up to ASCII case.
pub open spec fn eq_ignore_ascii_case(a: Seq<u8>, b: Seq<u8>) -> bool {
    &&& a.len() == b.len()
    &&& forall|i: int| 0 <= i < a.len() ==> ascii_lower(#[trigger] a[i]) == ascii_lower(b[i])
}

/// The format for an extension: none or `ppm` gives PPM, `png` gives PNG,
/// in any ASCII case; anything else falls back to PPM.
pub open spec fn output_format_spec(ext: Seq<u8>) -> OutputFormat {
    if ext.len() == 0 || eq_ignore_ascii_case(ext, seq![112u8, 112u8, 109u8]) {
        OutputFormat::Ppm
    } else if eq_ignore_ascii_case(ext, seq![112u8, 110u8, 103u8]) {
        OutputFormat::Png
    } else {
        OutputFormat::PpmFallback
    }
}

fn lower(c: u8) -> (r: u8)
    ensures
        r == ascii_lower(c),
{
    if 65 <= c && c <= 90 {
        c + 32
    } else {
        c
    }
}

/// Compares `a` with a lower-case three-letter word, ignoring ASCII case.
fn matches_word(a: &[u8], w0: u8, w1: u8, w2: u8) -> (r: bool)
    requires
        ascii_lower(w0) == w0 && ascii_lower(w1) == w1 && ascii_lower(w2) == w2,
    ensures
        r == eq_ignore_ascii_case(a@, seq![w0, w1, w2]),
{
    if a.len() != 3 {
        return false;
    }
    let r = lower(a[0]) == w0 && lower(a[1]) == w1 && lower(a[2]) == w2;
    proof {
        let w = seq![w0, w1, w2];
        if r {
            assert forall|i: int| 0 <= i < a@.len() implies ascii_lower(#[trigger] a@[i])
                == ascii_lower(w[i]) by {
                assert(i == 0 || i == 1 || i == 2);
            }
        } else {
            if eq_ignore_ascii_case(a@, w) {
                assert(ascii_lower(a@[0]) == ascii_lower(w[0]));
                assert(ascii_lower(a@[1]) == ascii_lower(w[1]));
                assert(ascii_lower(a@[2]) == ascii_lower(w[2]));
            }
        }
    }
    r
}

/// Chooses how to write the output from its file extension (`""` when the
/// path has none).
pub fn output_format(ext: &str) -> (r: OutputFormat)
    ensures
        r == output_format_spec(ext.spec_bytes()),
{
    let b = ext.as_bytes();
    if b.len() == 0 || matches_word(b, 112, 112, 109) {
        OutputFormat::Ppm
    } else if matches_word(b, 112, 110, 103) {
        OutputFormat::Png
    } else {
        OutputFormat::PpmFallback
    }
}

} // verus!
