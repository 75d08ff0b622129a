//! Byte-level text helpers shared by both protocols: ASCII case folding,
//! decimal formatting and parsing, byte searching, and the one conversion
//! from wire bytes to `String`.

use vstd::prelude::*;

verus! {

use vstd::utf8::decode_utf8;
use vstd::utf8::valid_utf8;

/// ASCII upper-casing of a single byte.
pub open spec fn upper_byte(b: u8) -> u8 {
    if 97 <= b <= 122 {
        (b - 32) as u8
    } else {
        b
    }
}

/// ASCII upper-casing of a byte sequence.
pub open spec fn upper_bytes(s: Seq<u8>) -> Seq<u8> {
    s.map_values(|b: u8| upper_byte(b))
}

/// All bytes are ASCII decimal digits.
pub open spec fn all_digits(s: Seq<u8>) -> bool {
    forall|i: int| 0 <= i < s.len() ==> 48 <= #[trigger] s[i] <= 57
}

/// Value of an ASCII decimal digit string.
pub open spec fn dec_val(s: Seq<u8>) -> nat
    recommends
        all_digits(s),
    decreases s.len(),
{
    if s.len() == 0 {
        0
    } else {
        dec_val(s.drop_last()) * 10 + (s.last() - 48) as nat
    }
}

/// Shortest ASCII decimal digit string for a value: no leading zero
/// unless the value is zero.
pub open spec fn dec_digits(n: nat) -> Seq<u8>
    decreases n,
{
    if n < 10 {
        seq![(48 + n) as u8]
    } else {
        dec_digits(n / 10).push((48 + n % 10) as u8)
    }
}

/// A digit string is canonical when it is non-empty and carries no
/// superfluous leading zero.
pub open spec fn canonical_digits(s: Seq<u8>) -> bool {
    &&& s.len() > 0
    &&& all_digits(s)
    &&& (s.len() > 1 ==> s[0] != 48)
}

pub proof fn lemma_dec_digits_canonical(n: nat)
    ensures
        canonical_digits(dec_digits(n)),
        dec_val(dec_digits(n)) == n,
        n >= 1 ==> dec_digits(n)[0] != 48,
    decreases n,
{
    if n < 10 {
        let s = dec_digits(n);
        assert(s =~= seq![(48 + n) as u8]);
        assert(s[0] == (48 + n) as u8);
        assert forall|i: int| 0 <= i < s.len() implies 48 <= #[trigger] s[i] <= 57 by {
            assert(s[i] == s[0]);
        }
        assert(dec_val(s.drop_last()) == 0);
        assert(canonical_digits(s));
    } else {
        lemma_dec_digits_canonical(n / 10);
        let p = dec_digits(n / 10);
        let s = p.push((48 + n % 10) as u8);
        assert(dec_digits(n) == s);
        assert(s.drop_last() =~= p);
        assert(dec_val(s) == dec_val(p) * 10 + n % 10);
        assert((n / 10) * 10 + n % 10 == n) by (nonlinear_arith);
        assert forall|i: int| 0 <= i < s.len() implies 48 <= #[trigger] s[i] <= 57 by {
            if i < p.len() {
                assert(s[i] == p[i]);
            } else {
                assert(s[i] == (48 + n % 10) as u8);
            }
        }
        assert(s[0] == p[0]);
        assert(canonical_digits(s));
    }
}

/// A canonical digit string is the decimal form of its own value: printing
/// after parsing gives the string back.
pub proof fn lemma_canonical_digits_roundtrip(s: Seq<u8>)
    requires
        canonical_digits(s),
    ensures
        dec_digits(dec_val(s)) =~= s,
    decreases s.len(),
{
    if s.len() == 1 {
        assert(s.drop_last().len() == 0);
        assert(dec_val(s.drop_last()) == 0);
        assert(s.last() == s[0]);
        assert(dec_val(s) == (s[0] - 48) as nat);
        assert(dec_digits(dec_val(s)) =~= s);
    } else {
        let p = s.drop_last();
        assert(canonical_digits(p));
        lemma_canonical_digits_roundtrip(p);
        lemma_dec_val_positive(p);
        let v = dec_val(p);
        let d = (s.last() - 48) as nat;
        assert(dec_val(s) == v * 10 + d);
        assert(v * 10 + d >= 10) by (nonlinear_arith)
            requires
                v >= 1,
                d >= 0,
        ;
        assert((v * 10 + d) / 10 == v && (v * 10 + d) % 10 == d) by (nonlinear_arith)
            requires
                0 <= d < 10,
        ;
        assert(dec_digits(dec_val(s)) == dec_digits(v).push((48 + d) as u8));
        assert(s =~= p.push(s.last()));
    }
}

/// A non-empty digit string without a leading zero has value at least one.
pub proof fn lemma_dec_val_positive(s: Seq<u8>)
    requires
        all_digits(s),
        s.len() > 0,
        s[0] != 48,
    ensures
        dec_val(s) >= 1,
    decreases s.len(),
{
    if s.len() == 1 {
    } else {
        let p = s.drop_last();
        lemma_dec_val_positive(p);
        assert(dec_val(s) == dec_val(p) * 10 + (s.last() - 48) as nat);
        assert(dec_val(p) * 10 >= 10) by (nonlinear_arith)
            requires
                dec_val(p) >= 1,
        ;
    }
}

/// Extending a digit string on the right never lowers its value.
proof fn lemma_dec_val_prefix_le(s: Seq<u8>, i: int)
    requires
        all_digits(s),
        0 <= i <= s.len(),
    ensures
        dec_val(s.take(i)) <= dec_val(s),
    decreases s.len() - i,
{
    if i == s.len() {
        assert(s.take(i) =~= s);
    } else {
        lemma_dec_val_prefix_le(s, i + 1);
        let p = s.take(i + 1);
        assert(p.drop_last() =~= s.take(i));
        assert(dec_val(p) == dec_val(s.take(i)) * 10 + (s[i] - 48) as nat);
        assert(dec_val(s.take(i)) * 10 >= dec_val(s.take(i))) by (nonlinear_arith);
    }
}

/// ASCII upper-casing of one byte.
pub fn byte_upper(b: u8) -> (r: u8)
    ensures
        r == upper_byte(b),
{
    if 97 <= b && b <= 122 {
        b - 32
    } else {
        b
    }
}

/// Exact byte-sequence equality.
pub fn bytes_eq(a: &[u8], b: &[u8]) -> (r: bool)
    ensures
        r == (a@ == b@),
{
    if a.len() != b.len() {
        return false;
    }
    let n = a.len();
    let mut i: usize = 0;
    while i < n
        invariant
            n == a@.len() == b@.len(),
            0 <= i <= n,
            forall|j: int| 0 <= j < i ==> a@[j] == b@[j],
        decreases n - i,
    {
        if a[i] != b[i] {
            return false;
        }
        i += 1;
    }
    proof {
        assert(a@ =~= b@);
    }
    true
}

/// ASCII-case-insensitive byte-sequence equality.
pub fn bytes_ieq(a: &[u8], b: &[u8]) -> (r: bool)
    ensures
        r == (upper_bytes(a@) == upper_bytes(b@)),
{
    if a.len() != b.len() {
        proof {
            assert(upper_bytes(a@).len() != upper_bytes(b@).len());
        }
        return false;
    }
    let n = a.len();
    let mut i: usize = 0;
    while i < n
        invariant
            n == a@.len() == b@.len(),
            0 <= i <= n,
            forall|j: int| 0 <= j < i ==> upper_byte(a@[j]) == upper_byte(b@[j]),
        decreases n - i,
    {
        if byte_upper(a[i]) != byte_upper(b[i]) {
            proof {
                assert(upper_bytes(a@)[i as int] != upper_bytes(b@)[i as int]);
            }
            return false;
        }
        i += 1;
    }
    proof {
        assert(upper_bytes(a@) =~= upper_bytes(b@));
    }
    true
}

/// First occurrence of `b` in `s` at or after `from`.
pub fn find_byte(s: &[u8], b: u8, from: usize) -> (r: Option<usize>)
    requires
        from <= s@.len(),
    ensures
        match r {
            Some(i) => from <= i < s@.len() && s@[i as int] == b && forall|j: int|
                from <= j < i ==> s@[j] != b,
            None => forall|j: int| from <= j < s@.len() ==> s@[j] != b,
        },
{
    let mut i: usize = from;
    let n = s.len();
    while i < n
        invariant
            from <= i <= n,
            n == s@.len(),
            forall|j: int| from <= j < i ==> s@[j] != b,
        decreases n - i,
    {
        if s[i] == b {
            return Some(i);
        }
        i += 1;
    }
    None
}

/// Appends the shortest decimal form of `n`.
pub fn push_dec_u64(out: &mut Vec<u8>, n: u64)
    ensures
        final(out)@ == old(out)@ + dec_digits(n as nat),
    decreases n,
{
    if n < 10 {
        out.push(48 + n as u8);
        proof {
            assert(out@ =~= old(out)@ + dec_digits(n as nat));
        }
    } else {
        push_dec_u64(out, n / 10);
        out.push(48 + (n % 10) as u8);
        proof {
            assert(out@ =~= old(out)@ + dec_digits(n as nat));
        }
    }
}

/// Appends the shortest decimal form of `n`.
pub fn push_dec_u32(out: &mut Vec<u8>, n: u32)
    ensures
        final(out)@ == old(out)@ + dec_digits(n as nat),
{
    push_dec_u64(out, n as u64);
}

/// Parses an ASCII decimal number; `None` on empty input, a non-digit
/// byte, or overflow.
pub fn parse_u64(s: &[u8]) -> (r: Option<u64>)
    ensures
        r is Some <==> s@.len() > 0 && all_digits(s@) && dec_val(s@) <= u64::MAX,
        r is Some ==> r.unwrap() == dec_val(s@),
{
    if s.len() == 0 {
        return None;
    }
    let n = s.len();
    let mut acc: u64 = 0;
    let mut i: usize = 0;
    while i < n
        invariant
            0 <= i <= n,
            n == s@.len(),
            all_digits(s@.take(i as int)),
            acc == dec_val(s@.take(i as int)),
        decreases n - i,
    {
        let b = s[i];
        if b < 48 || b > 57 {
            return None;
        }
        let d = (b - 48) as u64;
        if acc > (u64::MAX - d) / 10 {
            proof {
                let p = s@.take(i as int + 1);
                assert(p.drop_last() =~= s@.take(i as int));
                assert(dec_val(p) == acc * 10 + d);
                assert(acc * 10 + d > u64::MAX) by (nonlinear_arith)
                    requires
                        acc > (u64::MAX - d) / 10,
                        0 <= d < 10,
                ;
                if all_digits(s@) {
                    lemma_dec_val_prefix_le(s@, i as int + 1);
                }
            }
            return None;
        }
        proof {
            let p = s@.take(i as int + 1);
            assert(p.drop_last() =~= s@.take(i as int));
            assert(acc * 10 + d <= u64::MAX) by (nonlinear_arith)
                requires
                    acc <= (u64::MAX - d) / 10,
                    0 <= d < 10,
            ;
        }
        acc = acc * 10 + d;
        i += 1;
    }
    proof {
        assert(s@.take(n as int) =~= s@);
    }
    Some(acc)
}

/// Parses an ASCII decimal number into 32 bits.
pub fn parse_u32(s: &[u8]) -> (r: Option<u32>)
    ensures
        r is Some <==> s@.len() > 0 && all_digits(s@) && dec_val(s@) <= u32::MAX,
        r is Some ==> r.unwrap() == dec_val(s@),
{
    match parse_u64(s) {
        Some(v) if v <= u32::MAX as u64 => Some(v as u32),
        _ => None,
    }
}

/// The needle `n` occurs in `h` at position `i`.
pub open spec fn seq_at(h: Seq<u8>, n: Seq<u8>, i: int) -> bool {
    0 <= i && i + n.len() <= h.len() && forall|j: int| 0 <= j < n.len() ==> h[i + j] == n[j]
}

/// The needle `n` occurs somewhere in `h`.
pub open spec fn contains_seq(h: Seq<u8>, n: Seq<u8>) -> bool {
    exists|i: int| seq_at(h, n, i)
}

/// `h` ends with `t`.
pub open spec fn ends_with(h: Seq<u8>, t: Seq<u8>) -> bool {
    seq_at(h, t, h.len() - t.len())
}

/// What does not occur in a sequence does not occur in its tail.
pub proof fn lemma_contains_seq_drop_first(h: Seq<u8>, n: Seq<u8>)
    requires
        !contains_seq(h, n),
        h.len() > 0,
    ensures
        !contains_seq(h.drop_first(), n),
{
    if contains_seq(h.drop_first(), n) {
        let i = choose|i: int| seq_at(h.drop_first(), n, i);
        assert(seq_at(h, n, i + 1)) by {
            assert(forall|j: int| 0 <= j < n.len() ==> #[trigger] h.drop_first()[i + j] == h[i + 1 + j]);
        }
    }
}

/// `b` occurs first at `i` in `s`, looking from `from` on.
pub open spec fn byte_first_at(s: Seq<u8>, b: u8, from: int, i: int) -> bool {
    from <= i < s.len() && s[i] == b && (forall|j: int| from <= j < i ==> s[j] != b)
}

/// The position of the first `b` in `s` at or after `from`, if any.
pub open spec fn first_byte(s: Seq<u8>, b: u8, from: int) -> Option<int> {
    if exists|i: int| byte_first_at(s, b, from, i) {
        Some(choose|i: int| byte_first_at(s, b, from, i))
    } else {
        None
    }
}

/// [`find_byte`] computes [`first_byte`].
pub proof fn lemma_first_byte(s: Seq<u8>, b: u8, from: int, r: Option<usize>)
    requires
        0 <= from <= s.len(),
        match r {
            Some(i) => from <= i < s.len() && s[i as int] == b && forall|j: int|
                from <= j < i ==> s[j] != b,
            None => forall|j: int| from <= j < s.len() ==> s[j] != b,
        },
    ensures
        match r {
            Some(i) => first_byte(s, b, from) == Some(i as int),
            None => first_byte(s, b, from) is None,
        },
{
    match r {
        Some(i) => {
            assert(byte_first_at(s, b, from, i as int));
            let w = choose|k: int| byte_first_at(s, b, from, k);
            assert(s[w] == b && s[i as int] == b);
            if w < i as int {
                assert(s[w] != b);
            }
            if (i as int) < w {
                assert(s[i as int] != b);
            }
        },
        None => {
            if exists|k: int| byte_first_at(s, b, from, k) {
                let k = choose|k: int| byte_first_at(s, b, from, k);
                assert(s[k] == b);
            }
        },
    }
}

/// `t` is one of the space-separated tokens of `s`.
pub open spec fn has_token(s: Seq<u8>, t: Seq<u8>) -> bool
    decreases s.len(),
{
    proof {
        lemma_first_byte_bounds(s, 32, 0);
    }
    match first_byte(s, 32, 0) {
        Some(i) => s.take(i) == t || has_token(s.subrange(i + 1, s.len() as int), t),
        None => s == t,
    }
}

/// Token membership, executable.
pub fn has_token_bytes(s: &[u8], t: &[u8]) -> (r: bool)
    ensures
        r == has_token(s@, t@),
    decreases s@.len(),
{
    let n = s.len();
    match find_byte(s, 32, 0) {
        Some(i) => {
            proof {
                lemma_first_byte(s@, 32, 0, Some(i));
                assert(s@.subrange(0, i as int) =~= s@.take(i as int));
            }
            if bytes_eq(vstd::slice::slice_subrange(s, 0, i), t) {
                true
            } else {
                has_token_bytes(vstd::slice::slice_subrange(s, i + 1, n), t)
            }
        },
        None => {
            proof {
                lemma_first_byte(s@, 32, 0, None);
            }
            bytes_eq(s, t)
        },
    }
}

/// A found first byte lies in range and is the first.
pub proof fn lemma_first_byte_bounds(s: Seq<u8>, b: u8, from: int)
    ensures
        first_byte(s, b, from) matches Some(i) ==> from <= i < s.len() && s[i] == b && (forall|
            j: int,
        | from <= j < i ==> s[j] != b),
{
    if exists|k: int| byte_first_at(s, b, from, k) {
        let k = choose|k: int| byte_first_at(s, b, from, k);
        assert(byte_first_at(s, b, from, k));
    }
}

/// What does not occur in a sequence does not occur in a prefix of it.
pub proof fn lemma_contains_seq_prefix(h: Seq<u8>, n: Seq<u8>, k: int)
    requires
        !contains_seq(h, n),
        0 <= k <= h.len(),
    ensures
        !contains_seq(h.take(k), n),
{
    if contains_seq(h.take(k), n) {
        let i = choose|i: int| seq_at(h.take(k), n, i);
        assert(seq_at(h, n, i)) by {
            assert(forall|j: int| 0 <= j < n.len() ==> #[trigger] h.take(k)[i + j] == h[i + j]);
        }
    }
}

/// `s` with every trailing ASCII whitespace byte (tab, LF, CR, space)
/// removed.
pub open spec fn trim_ws(s: Seq<u8>) -> Seq<u8>
    decreases s.len(),
{
    if s.len() > 0 && (s.last() == 9 || s.last() == 10 || s.last() == 13 || s.last() == 32) {
        trim_ws(s.drop_last())
    } else {
        s
    }
}

/// Removes the trailing ASCII whitespace run from a buffer, in place.
pub fn trim_ws_ending(buf: &mut Vec<u8>)
    ensures
        final(buf)@ == trim_ws(old(buf)@),
{
    loop
        invariant
            trim_ws(buf@) == trim_ws(old(buf)@),
        decreases buf@.len(),
    {
        let n = buf.len();
        if n == 0 {
            return ;
        }
        let b = buf[n - 1];
        if b == 9 || b == 10 || b == 13 || b == 32 {
            proof {
                assert(buf@.drop_last() =~= buf@.subrange(0, n - 1));
            }
            buf.truncate(n - 1);
        } else {
            return ;
        }
    }
}

/// Cutting valid UTF-8 at an ASCII byte leaves valid UTF-8 on both
/// sides, and the decoded text splits the same way.
pub proof fn lemma_utf8_ascii_cut(data: Seq<u8>, i: int)
    requires
        valid_utf8(data),
        0 <= i < data.len(),
        data[i] < 0x80,
    ensures
        valid_utf8(data.subrange(0, i)),
        valid_utf8(data.subrange(i + 1, data.len() as int)),
        decode_utf8(data) =~= decode_utf8(data.subrange(0, i)) + seq![data[i] as char]
            + decode_utf8(data.subrange(i + 1, data.len() as int)),
{
    vstd::utf8::is_char_boundary_iff_not_is_continuation_byte(data, i);
    vstd::utf8::valid_utf8_split(data, i);
    vstd::utf8::decode_utf8_split(data, i);
    let tail = data.subrange(i, data.len() as int);
    assert(tail.len() > 0);
    assert(tail[0] == data[i]);
    assert(vstd::utf8::is_leading_byte_width_1(tail[0]));
    assert(vstd::utf8::length_of_first_scalar(tail) == 1);
    assert(valid_utf8(tail));
    assert(vstd::utf8::pop_first_scalar(tail) =~= data.subrange(i + 1, data.len() as int));
    let c0 = vstd::utf8::decode_first_scalar(tail);
    let b0 = tail[0];
    assert(c0 == vstd::utf8::codepoint_width_1(b0));
    assert((b0 & 0x7f) == b0) by (bit_vector)
        requires
            b0 < 0x80,
    ;
    assert(c0 == data[i] as u32);
    assert(c0 as char == data[i] as char);
    assert(decode_utf8(tail) =~= seq![data[i] as char] + decode_utf8(
        data.subrange(i + 1, data.len() as int),
    ));
}

/// Relies on `core::str::from_utf8`: succeeds exactly on valid UTF-8 and
/// returns the decoded characters of the input bytes.
#[verifier::external_body]
pub fn utf8_to_string(bytes: &[u8]) -> (r: Option<String>)
    ensures
        r is Some <==> valid_utf8(bytes@),
        r is Some ==> r.unwrap()@ == decode_utf8(bytes@),
{
    core::str::from_utf8(bytes).ok().map(|s| s.to_owned())
}

/// Relies on `char::encode_utf8`: it writes exactly the UTF-8 encoding
/// of the character.
#[verifier::external_body]
pub fn push_char(out: &mut Vec<u8>, c: char)
    ensures
        final(out)@ == old(out)@ + vstd::utf8::encode_utf8(seq![c]),
{
    let mut buf = [0u8; 4];
    out.extend_from_slice(c.encode_utf8(&mut buf).as_bytes());
}

/// Appends the UTF-8 bytes of a string.
pub fn push_str_bytes(out: &mut Vec<u8>, s: &str)
    ensures
        final(out)@ == old(out)@ + vstd::utf8::encode_utf8(s@),
{
    let b = s.as_bytes();
    out.extend_from_slice(b);
}

} // verus!
