//! Digests of kernels and files.
use crate::text;
use vstd::prelude::*;

verus! {

#[verifier::external_type_specification]
#[verifier::external_body]
pub struct ExHasher(openssl::hash::Hasher);

#[verifier::external_type_specification]
#[verifier::external_body]
pub struct ExErrorStack(openssl::error::ErrorStack);

/// The bytes that an `openssl::hash::Hasher` has taken in since it was made or last finished.
pub uninterp spec fn absorbed(h: openssl::hash::Hasher) -> Seq<u8>;

/// Whether an `openssl::hash::Hasher` was made for SHA-256.
pub uninterp spec fn for_sha256(h: openssl::hash::Hasher) -> bool;

/// SHA-256, as `openssl` computes it.
pub uninterp spec fn sha256(data: Seq<u8>) -> Seq<u8>;

/// A hexadecimal digit, in lower case.
pub open spec fn hex_digit(n: int) -> char {
    if n < 10 {
        (48 + n) as char
    } else {
        (87 + n) as char
    }
}

/// Bytes written in hexadecimal, two lower-case digits each.
pub open spec fn hex_of(b: Seq<u8>) -> Seq<char> {
    Seq::new(
        2 * b.len(),
        |i: int|
            if i % 2 == 0 {
                hex_digit(b[i / 2] as int / 16)
            } else {
                hex_digit(b[i / 2] as int % 16)
            },
    )
}

/// `openssl::hash::Hasher::new` for SHA-256: a hasher that has taken in nothing. OpenSSL may fail to
/// make one; when is not said.
#[verifier::external_body]
fn sha256_hasher() -> (r: Result<openssl::hash::Hasher, openssl::error::ErrorStack>)
    ensures
        r matches Ok(h) ==> for_sha256(h) && absorbed(h) == Seq::<u8>::empty(),
{
    openssl::hash::Hasher::new(openssl::hash::MessageDigest::sha256())
}

/// `openssl::hash::Hasher::update`: takes the data in behind what it has, and stays a hasher of its
/// algorithm. OpenSSL may fail to take it in; when is not said, nor what the hasher holds then.
#[verifier::external_body]
fn hasher_update(h: &mut openssl::hash::Hasher, data: &[u8]) -> (r: Result<
    (),
    openssl::error::ErrorStack,
>)
    ensures
        for_sha256(*final(h)) == for_sha256(*old(h)),
        r is Ok ==> absorbed(*final(h)) == absorbed(*old(h)) + data@,
{
    h.update(data)
}

/// `openssl::hash::Hasher::finish` of a hasher for SHA-256: the 32 bytes of the digest of what it
/// took in, which it then forgets. OpenSSL may fail to; when is not said.
#[verifier::external_body]
fn hasher_finish(h: &mut openssl::hash::Hasher) -> (r: Result<Vec<u8>, openssl::error::ErrorStack>)
    requires
        for_sha256(*old(h)),
    ensures
        r matches Ok(d) ==> d@ == sha256(absorbed(*old(h))) && d@.len() == 32 && absorbed(*final(h))
            == Seq::<u8>::empty(),
{
    h.finish().map(|d| d.to_vec())
}

/// `hex::encode`.
#[verifier::external_body]
pub(crate) fn hex_encode(data: &[u8]) -> (r: String)
    ensures
        r@ == hex_of(data@),
{
    hex::encode(data)
}

/// Why there is no digest.
#[derive(Debug, Clone, Copy, PartialEq, Eq, Structural)]
pub enum DigestError {
    NoInitramfs,
    /// The digest could not be computed.
    Failed,
}

/// A digest in hexadecimal, if there is one.
pub fn digest_text(digest: Option<&[u8]>) -> (r: Option<String>)
    ensures
        text::opt_view(r) == match digest {
            Some(d) => Some(hex_of(d@)),
            None => None,
        },
{
    match digest {
        Some(d) => Some(hex_encode(d)),
        None => None,
    }
}

/// The SHA-256 digest of the parts in a row, in hexadecimal; nothing where OpenSSL fails.
pub fn sha256_hex(parts: &Vec<&[u8]>) -> (r: Option<String>)
    ensures
        r matches Some(s) ==> s@ == hex_of(sha256(concatenated(parts@))),
{
    match sha256_hasher() {
        Err(_) => digest_text(None),
        Ok(mut h) => {
            let mut i: usize = 0;
            assert(parts@.take(0) =~= Seq::<&[u8]>::empty());
            while i < parts.len()
                invariant
                    i <= parts@.len(),
                    for_sha256(h),
                    absorbed(h) == concatenated(parts@.take(i as int)),
                decreases parts@.len() - i,
            {
                match hasher_update(&mut h, parts[i]) {
                    Ok(_) => {},
                    Err(_) => {
                        return digest_text(None);
                    },
                }
                i += 1;
                assert(parts@.take(i as int).drop_last() =~= parts@.take(i - 1));
            }
            assert(parts@.take(i as int) =~= parts@);
            match hasher_finish(&mut h) {
                Ok(d) => digest_text(Some(d.as_slice())),
                Err(_) => digest_text(None),
            }
        },
    }
}

/// Byte strings in a row.
pub open spec fn concatenated(parts: Seq<&[u8]>) -> Seq<u8>
    decreases parts.len(),
{
    if parts.len() == 0 {
        Seq::empty()
    } else {
        concatenated(parts.drop_last()) + parts.last()@
    }
}

/// The digest of a kernel followed by its initial ramdisk, which must be there. Deployments with the
/// same digest share their kernel.
pub fn compute_boot_digest(vmlinuz: &[u8], initramfs: Option<&[u8]>) -> (r: Result<
    String,
    DigestError,
>)
    ensures
        match r {
            Ok(s) => initramfs matches Some(i) && s@ == hex_of(sha256(vmlinuz@ + i@)),
            Err(DigestError::NoInitramfs) => initramfs is None,
            Err(DigestError::Failed) => initramfs is Some,
        },
{
    match initramfs {
        None => Err(DigestError::NoInitramfs),
        Some(initrd) => {
            let parts: Vec<&[u8]> = vec![vmlinuz, initrd];
            assert(concatenated(parts@) =~= vmlinuz@ + initrd@) by {
                reveal_with_fuel(concatenated, 3);
                assert(parts@.drop_last() =~= seq![vmlinuz]);
                assert(parts@.drop_last().drop_last() =~= Seq::<&[u8]>::empty());
            }
            match sha256_hex(&parts) {
                Some(s) => Ok(s),
                None => Err(DigestError::Failed),
            }
        },
    }
}

/// Two byte strings are written the same only if they are the same.
pub proof fn law_hex_injective(a: Seq<u8>, b: Seq<u8>)
    ensures
        hex_of(a) == hex_of(b) ==> a == b,
{
    if hex_of(a) == hex_of(b) {
        assert(hex_of(a).len() == hex_of(b).len());
        assert forall|i: int| 0 <= i < a.len() implies a[i] == b[i] by {
            assert(hex_of(a)[2 * i] == hex_of(b)[2 * i]);
            assert(hex_of(a)[2 * i + 1] == hex_of(b)[2 * i + 1]);
            assert((2 * i) % 2 == 0 && (2 * i) / 2 == i);
            assert((2 * i + 1) % 2 == 1 && (2 * i + 1) / 2 == i);
            let x = a[i] as int;
            let y = b[i] as int;
            assert(hex_digit(x / 16) == hex_digit(y / 16));
            assert(hex_digit(x % 16) == hex_digit(y % 16));
        }
        assert(a =~= b);
    }
}

/// The value of a hexadecimal digit of either case.
pub open spec fn hex_value(c: char) -> Option<int> {
    if '0' <= c <= '9' {
        Some(c as int - 48)
    } else if 'a' <= c <= 'f' {
        Some(c as int - 87)
    } else if 'A' <= c <= 'F' {
        Some(c as int - 55)
    } else {
        None
    }
}

/// Whether a text is a row of `n` hexadecimal digits.
pub open spec fn is_hex(s: Seq<char>, n: int) -> bool {
    s.len() == n && forall|i: int| 0 <= i < s.len() ==> hex_value(#[trigger] s[i]) is Some
}

/// The bytes that hexadecimal digits write.
pub open spec fn unhex(s: Seq<char>) -> Seq<u8> {
    Seq::new(
        s.len() / 2,
        |i: int| (hex_value(s[2 * i]).unwrap() * 16 + hex_value(s[2 * i + 1]).unwrap()) as u8,
    )
}

/// `composefs::util::parse_sha256`: the 32 bytes that 64 hexadecimal digits of either case write,
/// nothing of any other text.
#[verifier::external_body]
fn parse_sha256(s: &str) -> (r: Option<[u8; 32]>)
    ensures
        match r {
            Some(d) => is_hex(s@, 64) && d@ == unhex(s@),
            None => !is_hex(s@, 64),
        },
{
    composefs::util::parse_sha256(s).ok()
}

/// The digest that an identifier writes, with or without `sha256:` before it.
pub open spec fn digest_digits(id: Seq<char>) -> Seq<char> {
    match text::without_prefix(id, "sha256:"@) {
        Some(d) => d,
        None => id,
    }
}

/// The digest that an identifier writes: 64 hexadecimal digits, with or without `sha256:` before
/// them.
pub fn str_to_sha256digest(id: &str) -> (r: Option<[u8; 32]>)
    ensures
        match r {
            Some(d) => is_hex(digest_digits(id@), 64) && d@ == unhex(digest_digits(id@)),
            None => !is_hex(digest_digits(id@), 64),
        },
{
    match text::strip_prefix(id, "sha256:") {
        Some(d) => parse_sha256(d),
        None => parse_sha256(id),
    }
}

/// What is written in hexadecimal reads back as the same bytes.
pub proof fn law_hex_round_trip(b: Seq<u8>)
    ensures
        is_hex(hex_of(b), 2 * b.len() as int),
        unhex(hex_of(b)) == b,
{
    let s = hex_of(b);
    assert forall|i: int| 0 <= i < s.len() implies hex_value(#[trigger] s[i]) is Some by {
        let x = b[i / 2] as int;
        assert(0 <= x / 16 < 16 && 0 <= x % 16 < 16);
    }
    assert forall|i: int| 0 <= i < b.len() implies unhex(s)[i] == b[i] by {
        assert((2 * i) % 2 == 0 && (2 * i) / 2 == i);
        assert((2 * i + 1) % 2 == 1 && (2 * i + 1) / 2 == i);
        let x = b[i] as int;
        assert(s[2 * i] == hex_digit(x / 16));
        assert(s[2 * i + 1] == hex_digit(x % 16));
        assert(hex_value(s[2 * i]) == Some(x / 16));
        assert(hex_value(s[2 * i + 1]) == Some(x % 16));
    }
    assert(unhex(s) =~= b);
}

/// The digits, in the order of their values.
pub proof fn law_digits(n: int)
    requires
        0 <= n < 16,
    ensures
        hex_digit(n) == "0123456789abcdef"@[n],
        hex_value("0123456789abcdef"@[n]) == Some(n),
        hex_value("0123456789ABCDEF"@[n]) == Some(n),
{
    reveal_strlit("0123456789abcdef");
    reveal_strlit("0123456789ABCDEF");
}

/// Nothing but the digits of either case is a digit.
pub proof fn law_no_digit(c: char)
    requires
        !"0123456789abcdef"@.contains(c),
        !"0123456789ABCDEF"@.contains(c),
    ensures
        hex_value(c) is None,
{
    if hex_value(c) is Some {
        let n = hex_value(c).unwrap();
        law_digits(n);
        reveal_strlit("0123456789abcdef");
        reveal_strlit("0123456789ABCDEF");
        assert("0123456789abcdef"@[n] == c || "0123456789ABCDEF"@[n] == c);
        assert(false);
    }
}

/// Each byte is written as its upper four bits and its lower four.
pub proof fn law_hex_byte(b: Seq<u8>, i: int)
    requires
        0 <= i < b.len(),
    ensures
        hex_of(b).len() == 2 * b.len(),
        hex_of(b)[2 * i] == "0123456789abcdef"@[b[i] as int / 16],
        hex_of(b)[2 * i + 1] == "0123456789abcdef"@[b[i] as int % 16],
{
    assert((2 * i) % 2 == 0 && (2 * i) / 2 == i);
    assert((2 * i + 1) % 2 == 1 && (2 * i + 1) / 2 == i);
    law_digits(b[i] as int / 16);
    law_digits(b[i] as int % 16);
}

/// Parts in a row are the bytes of the first ones followed by those of the others.
pub proof fn law_concatenated(a: Seq<&[u8]>, b: Seq<&[u8]>, x: &[u8])
    ensures
        concatenated(a + b) == concatenated(a) + concatenated(b),
        concatenated(seq![x]) == x@,
        concatenated(Seq::empty()).len() == 0,
    decreases b.len(),
{
    assert(seq![x].drop_last() =~= Seq::<&[u8]>::empty());
    assert(concatenated(seq![x]) =~= x@) by {
        reveal_with_fuel(concatenated, 2);
    }
    if b.len() == 0 {
        assert(a + b =~= a);
        assert(concatenated(a + b) =~= concatenated(a) + concatenated(b));
    } else {
        law_concatenated(a, b.drop_last(), x);
        assert((a + b).drop_last() =~= a + b.drop_last());
        assert((a + b).last() == b.last());
        assert(concatenated(a + b) =~= concatenated(a) + concatenated(b));
    }
}

/// A digest may have `sha256:` before it, once: it goes, and nothing else goes of an identifier.
pub proof fn law_digest_digits(d: Seq<char>)
    ensures
        digest_digits("sha256:"@ + d) == d,
        is_hex(d, 64) ==> digest_digits(d) == d,
{
    text::law_taken_off(d, "sha256:"@);
    if is_hex(d, 64) && "sha256:"@.is_prefix_of(d) {
        reveal_strlit("sha256:");
        assert("sha256:"@[0] == d.subrange(0, 7)[0]);
        assert(hex_value(d[0]) is Some);
        assert(false);
    }
}

} // verus!
