//! SHA-1 digests in hexadecimal, through the `sha1_smol` crate, and the UTF-8 encoding of
//! text that goes into them.
use vstd::prelude::*;

verus! {

/// The SHA-1 digest of `data`, as lowercase hexadecimal.
pub uninterp spec fn sha1_hex(data: Seq<u8>) -> Seq<char>;

/// `sha1_smol::Sha1::from(data).digest()`, written out by the digest's `Display` impl. The
/// crate's source writes the five 32-bit words of the digest as `{:08x}`, so the text is 40
/// lowercase hexadecimal digits; which digits is the digest, named `sha1_hex`.
#[verifier::external_body]
pub(crate) fn sha1_hex_of(data: &Vec<u8>) -> (r: String)
    ensures
        r@ == sha1_hex(data@),
        r@.len() == 40,
        forall|i: int| 0 <= i < 40 ==> #[trigger] crate::fresh::is_hex_lower(r@[i]),
{
    sha1_smol::Sha1::from(data.as_slice()).digest().to_string()
}

/// The UTF-8 encoding of `c`.
pub open spec fn utf8_bytes(c: char) -> Seq<u8> {
    let n = c as int;
    if n < 0x80 {
        seq![n as u8]
    } else if n < 0x800 {
        seq![(0xC0 + n / 64) as u8, (0x80 + n % 64) as u8]
    } else if n < 0x10000 {
        seq![(0xE0 + n / 4096) as u8, (0x80 + (n / 64) % 64) as u8, (0x80 + n % 64) as u8]
    } else {
        seq![(0xF0 + n / 262144) as u8, (0x80 + (n / 4096) % 64) as u8, (0x80 + (n / 64) % 64) as u8, (0x80 + n % 64) as u8]
    }
}

/// The UTF-8 encoding of `s` (`str::as_bytes`).
pub open spec fn utf8_encode(s: Seq<char>) -> Seq<u8>
    decreases s.len(),
{
    if s.len() == 0 {
        Seq::empty()
    } else {
        utf8_encode(s.drop_last()) + utf8_bytes(s.last())
    }
}

/// Appends the UTF-8 encoding of `c`.
fn push_utf8(out: &mut Vec<u8>, c: char)
    ensures
        final(out)@ == old(out)@ + utf8_bytes(c),
{
    let n = c as u32;
    assert(n as int == c as int);
    assert(n <= 0x10FFFF);
    if n < 0x80 {
        out.push(n as u8);
    } else if n < 0x800 {
        out.push((0xC0 + n / 64) as u8);
        out.push((0x80 + n % 64) as u8);
    } else if n < 0x10000 {
        out.push((0xE0 + n / 4096) as u8);
        out.push((0x80 + (n / 64) % 64) as u8);
        out.push((0x80 + n % 64) as u8);
    } else {
        out.push((0xF0 + n / 262144) as u8);
        out.push((0x80 + (n / 4096) % 64) as u8);
        out.push((0x80 + (n / 64) % 64) as u8);
        out.push((0x80 + n % 64) as u8);
    }
    assert(final(out)@ =~= old(out)@ + utf8_bytes(c));
}

/// The UTF-8 encoding of `v`.
pub fn utf8_encode_exec(v: &Vec<char>) -> (r: Vec<u8>)
    ensures
        r@ == utf8_encode(v@),
{
    let mut out: Vec<u8> = Vec::new();
    let mut i: usize = 0;
    assert(v@.take(0) =~= Seq::<char>::empty());
    while i < v.len()
        invariant
            i <= v@.len(),
            out@ == utf8_encode(v@.take(i as int)),
        decreases v.len() - i,
    {
        assert(v@.take(i + 1).drop_last() =~= v@.take(i as int));
        assert(v@.take(i + 1).last() == v@[i as int]);
        push_utf8(&mut out, v[i]);
        i = i + 1;
    }
    assert(v@.take(v.len() as int) =~= v@);
    out
}

/// The SHA-1 digest of the UTF-8 encoding of `text`, as lowercase hexadecimal.
pub fn sha1_text(text: &Vec<char>) -> (r: String)
    ensures
        r@ == sha1_hex(utf8_encode(text@)),
        r@.len() == 40,
        forall|i: int| 0 <= i < 40 ==> #[trigger] crate::fresh::is_hex_lower(r@[i]),
{
    sha1_hex_of(&utf8_encode_exec(text))
}

} // verus!
