//! Little-endian integers and writes into byte buffers.
use vstd::arithmetic::power::pow;
use vstd::prelude::*;

verus! {

/// The number whose little-endian digits to base 256 are `s`.
pub open spec fn le_value(s: Seq<u8>) -> nat
    decreases s.len(),
{
    if s.len() == 0 {
        0
    } else {
        s[0] as nat + 256 * le_value(s.drop_first())
    }
}

/// The `n` low bytes of `v`, least significant first.
pub open spec fn le_bytes(v: nat, n: nat) -> Seq<u8>
    decreases n,
{
    if n == 0 {
        Seq::empty()
    } else {
        seq![(v % 256) as u8] + le_bytes(v / 256, (n - 1) as nat)
    }
}

/// `s` with `b` written over it from position `at` on.
pub open spec fn overwritten(s: Seq<u8>, at: int, b: Seq<u8>) -> Seq<u8> {
    Seq::new(s.len(), |i: int| if at <= i < at + b.len() { b[i - at] } else { s[i] })
}

/// There are as many bytes as were asked for.
pub broadcast proof fn lemma_le_bytes_len(v: nat, n: nat)
    ensures
        #[trigger] le_bytes(v, n).len() == n,
    decreases n,
{
    if n > 0 {
        lemma_le_bytes_len(v / 256, (n - 1) as nat);
    }
}

/// Reading back what was written gives the number, as far as it fits.
pub proof fn law_le_round_trip(v: nat, n: nat)
    ensures
        le_value(le_bytes(v, n)) == v as int % pow(256, n),
    decreases n,
{
    vstd::arithmetic::power::lemma_pow_positive(256, n);
    if n == 0 {
        reveal(pow);
        assert(v as int % 1 == 0);
    } else {
        let m: nat = (n - 1) as nat;
        law_le_round_trip(v / 256, m);
        let b = le_bytes(v, n);
        assert(b.drop_first() == le_bytes(v / 256, m));
        assert(b[0] == v % 256);
        reveal(pow);
        assert(pow(256, n) == 256 * pow(256, m));
        vstd::arithmetic::power::lemma_pow_positive(256, m);
        vstd::arithmetic::div_mod::lemma_mod_breakdown(v as int, 256, pow(256, m));
        assert(v as int % (256 * pow(256, m)) == 256 * ((v as int / 256) % pow(256, m)) + v as int
            % 256);
    }
}

/// The bytes of the number that `s` spells are `s` again.
pub proof fn law_le_bytes_of_value(s: Seq<u8>)
    ensures
        le_bytes(le_value(s), s.len()) == s,
    decreases s.len(),
{
    if s.len() > 0 {
        law_le_bytes_of_value(s.drop_first());
        let v: nat = le_value(s);
        assert(v % 256 == s[0]);
        assert(v / 256 == le_value(s.drop_first()));
        assert(seq![s[0]] + s.drop_first() == s);
    }
}

/// A number spelled with `s` fits in as many bytes.
pub proof fn law_le_value_bound(s: Seq<u8>)
    ensures
        le_value(s) < pow(256, s.len()),
    decreases s.len(),
{
    reveal(pow);
    if s.len() > 0 {
        law_le_value_bound(s.drop_first());
    }
}

/// Writes the bytes of `src` into `dst`, starting at `at`.
pub fn copy_into(dst: &mut [u8], at: usize, src: &[u8])
    requires
        at + src.len() <= old(dst).len(),
    ensures
        final(dst)@ == overwritten(old(dst)@, at as int, src@),
{
    let mut i: usize = 0;
    let total: usize = dst.len();
    let ghost before = dst@;
    while i < src.len()
        invariant
            i <= src.len(),
            at + src.len() <= total == before.len(),
            dst@.len() == before.len(),
            forall|j: int|
                0 <= j < before.len() ==> #[trigger] dst@[j] == (if at <= j < at + i {
                    src@[j - at]
                } else {
                    before[j]
                }),
        decreases src.len() - i,
    {
        dst[at + i] = src[i];
        i = i + 1;
    }
    assert(dst@ == overwritten(before, at as int, src@));
}

/// Writes the `n` low bytes of `v` into `dst`, least significant first.
pub fn put_le(dst: &mut [u8], at: usize, v: u64, n: usize)
    requires
        at + n <= old(dst).len(),
    ensures
        final(dst)@ == overwritten(old(dst)@, at as int, le_bytes(v as nat, n as nat)),
    decreases n,
{
    let ghost before = dst@;
    proof {
        lemma_le_bytes_len(v as nat, n as nat);
    }
    if n == 0 {
        assert(dst@ == overwritten(before, at as int, le_bytes(v as nat, n as nat)));
        return;
    }
    dst[at] = (v % 256) as u8;
    let ghost mid = dst@;
    put_le(dst, at + 1, v / 256, n - 1);
    proof {
        let rest = le_bytes(v as nat / 256, (n - 1) as nat);
        lemma_le_bytes_len(v as nat / 256, (n - 1) as nat);
        let all = le_bytes(v as nat, n as nat);
        assert(all == seq![(v as nat % 256) as u8] + rest);
        assert forall|j: int| 0 <= j < before.len() implies dst@[j] == overwritten(
            before,
            at as int,
            all,
        )[j] by {
            if at + 1 <= j < at + n {
                assert(all[j - at] == rest[j - (at + 1)]);
            }
        }
        assert(dst@ == overwritten(before, at as int, all));
    }
}

/// The 16-bit little-endian number at `at`.
pub fn get_le16(s: &[u8], at: usize) -> (r: u16)
    requires
        at + 2 <= s.len(),
    ensures
        r == le_value(s@.subrange(at as int, at + 2)),
{
    proof {
        let t = s@.subrange(at as int, at + 2);
        reveal_with_fuel(le_value, 3);
        assert(t.drop_first().drop_first().len() == 0);
    }
    s[at] as u16 + s[at + 1] as u16 * 0x100
}

/// The 32-bit little-endian number made of four bytes.
pub fn le32(b0: u8, b1: u8, b2: u8, b3: u8) -> (r: u32)
    ensures
        r == le_value(seq![b0, b1, b2, b3]),
{
    proof {
        let t = seq![b0, b1, b2, b3];
        reveal_with_fuel(le_value, 5);
        assert(t.drop_first()[0] == b1);
        assert(t.drop_first().drop_first()[0] == b2);
        assert(t.drop_first().drop_first().drop_first()[0] == b3);
        assert(t.drop_first().drop_first().drop_first().drop_first().len() == 0);
    }
    b0 as u32 + b1 as u32 * 0x100 + b2 as u32 * 0x1_0000 + b3 as u32 * 0x100_0000
}

/// A write puts each byte at its place and changes no other byte.
pub proof fn law_overwritten_bytes(s: Seq<u8>, at: int, b: Seq<u8>, i: int)
    requires
        0 <= i < s.len(),
    ensures
        overwritten(s, at, b).len() == s.len(),
        at <= i < at + b.len() ==> overwritten(s, at, b)[i] == b[i - at],
        !(at <= i < at + b.len()) ==> overwritten(s, at, b)[i] == s[i],
{
}

/// The first byte of a number in memory counts ones, the next counts 256s.
pub proof fn law_low_byte_comes_first(v: nat, n: nat)
    requires
        n >= 2,
    ensures
        le_bytes(v, n).len() == n,
        le_bytes(v, n)[0] == v % 256,
        le_bytes(v, n)[1] == (v / 256) % 256,
{
    lemma_le_bytes_len(v, n);
    reveal_with_fuel(le_bytes, 3);
}

} // verus!
