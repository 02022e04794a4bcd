//! Base-128 varints, the integer encoding of the wire format, read and
//! written by `prost`.

use vstd::prelude::*;

verus! {

/// The shortest base-128 varint of `v`: seven bits per byte, low group first,
/// the high bit set on every byte but the last.
pub open spec fn varint_bytes(v: u64) -> Seq<u8>
    decreases v,
{
    if v < 128 {
        seq![v as u8]
    } else {
        seq![(v % 128 + 128) as u8] + varint_bytes(v / 128)
    }
}

/// The number that the low seven bits of the bytes of `p` spell, low group
/// first.
pub open spec fn base128_value(p: Seq<u8>) -> int
    decreases p.len(),
{
    if p.len() == 0 {
        0
    } else {
        (p[0] % 128) as int + 128 * base128_value(p.drop_first())
    }
}

/// Whether `p` is one varint, possibly padded, of value `v`.
pub open spec fn is_varint(p: Seq<u8>, v: u64) -> bool {
    &&& p.len() >= 1
    &&& forall|i: int| 0 <= i < p.len() - 1 ==> #[trigger] p[i] >= 128
    &&& p.last() < 128
    &&& base128_value(p) == v as int
}

/// Whether `s` begins with `p`.
pub open spec fn starts_with(s: Seq<u8>, p: Seq<u8>) -> bool {
    p.len() <= s.len() && s.subrange(0, p.len() as int) == p
}

/// What `s` tells of its parts when it is `f` followed by `tail`.
pub proof fn lemma_split_at(s: Seq<u8>, f: Seq<u8>, tail: Seq<u8>)
    requires
        s == f + tail,
    ensures
        starts_with(s, f),
        s.subrange(f.len() as int, s.len() as int) == tail,
        f.len() > 0 ==> s.len() > 0 && s[0] == f[0],
        f.len() == 0 && tail.len() > 0 ==> s.len() > 0 && s[0] == tail[0],
{
    assert(s.subrange(0, f.len() as int) =~= f);
    assert(s.subrange(f.len() as int, s.len() as int) =~= tail);
}

/// A byte string that starts with `key` and then `p + q` goes on, after
/// its first byte, with `p`.
pub proof fn lemma_starts_with_after_key(s: Seq<u8>, key: u8, p: Seq<u8>, q: Seq<u8>)
    requires
        starts_with(s, seq![key] + p + q),
    ensures
        starts_with(s.subrange(1, s.len() as int), p),
{
    let f = seq![key] + p + q;
    assert(s.subrange(1, s.len() as int).subrange(0, p.len() as int) =~= s.subrange(
        0,
        f.len() as int,
    ).subrange(1, 1 + p.len() as int));
    assert(f.subrange(1, 1 + p.len() as int) =~= p);
}

/// A byte string starts with the shortest varint of at most one value.
pub proof fn lemma_varint_prefix_unique(s: Seq<u8>, a: u64, b: u64)
    requires
        starts_with(s, varint_bytes(a)),
        starts_with(s, varint_bytes(b)),
    ensures
        a == b,
    decreases a,
{
    let va = varint_bytes(a);
    let vb = varint_bytes(b);
    assert(s[0] == va[0] && s[0] == vb[0]) by {
        assert(s.subrange(0, va.len() as int)[0] == s[0]);
        assert(s.subrange(0, vb.len() as int)[0] == s[0]);
    }
    if a >= 128 && b >= 128 {
        let rest = s.subrange(1, s.len() as int);
        lemma_varint_ends_well(a / 128);
        lemma_varint_ends_well(b / 128);
        assert(rest.subrange(0, varint_bytes(a / 128).len() as int) =~= va.subrange(1, va.len() as int));
        assert(va.subrange(1, va.len() as int) =~= varint_bytes(a / 128));
        assert(rest.subrange(0, varint_bytes(b / 128).len() as int) =~= vb.subrange(1, vb.len() as int));
        assert(vb.subrange(1, vb.len() as int) =~= varint_bytes(b / 128));
        lemma_varint_prefix_unique(rest, a / 128, b / 128);
        assert(a % 128 == b % 128);
    }
}

/// Relies on `prost::encoding::encode_varint`: appends the shortest varint of
/// `v`.
#[verifier::external_body]
pub(crate) fn put_varint(buf: &mut Vec<u8>, v: u64)
    ensures
        final(buf)@ == old(buf)@ + varint_bytes(v),
{
    prost::encoding::encode_varint(v, buf)
}

/// Relies on `prost::encoding::decode_varint`: reads one varint at the start
/// of `input` and returns its value with the number of bytes left after it.
/// It takes any varint of at most ten bytes whose value fits in a `u64`, so
/// it takes the shortest one of every `u64`.
#[verifier::external_body]
fn read_varint(input: &[u8]) -> (r: Option<(u64, usize)>)
    ensures
        r matches Some((v, left)) ==> left < input@.len() && is_varint(
            input@.subrange(0, input@.len() - left),
            v,
        ),
        forall|v: u64|
            #[trigger] starts_with(input@, varint_bytes(v)) ==> r == Some::<(u64, usize)>(
                (v, (input@.len() - varint_bytes(v).len()) as usize),
            ),
{
    let mut rest = input;
    match prost::encoding::decode_varint(&mut rest) {
        Ok(v) => Some((v, rest.len())),
        Err(_) => None,
    }
}

proof fn lemma_base128_zero(p: Seq<u8>)
    requires
        base128_value(p) == 0,
    ensures
        forall|i: int| 0 <= i < p.len() ==> #[trigger] p[i] % 128 == 0,
    decreases p.len(),
{
    if p.len() > 0 {
        lemma_base128_nonneg(p.drop_first());
        lemma_base128_zero(p.drop_first());
        assert forall|i: int| 0 <= i < p.len() implies #[trigger] p[i] % 128 == 0 by {
            if i > 0 {
                assert(p[i] == p.drop_first()[i - 1]);
            }
        }
    }
}

proof fn lemma_base128_nonneg(p: Seq<u8>)
    ensures
        base128_value(p) >= 0,
    decreases p.len(),
{
    if p.len() > 0 {
        lemma_base128_nonneg(p.drop_first());
    }
}

/// A varint whose last byte is not zero, or which is one byte long, is the
/// shortest one of its value.
proof fn lemma_varint_canonical(p: Seq<u8>, v: u64)
    requires
        is_varint(p, v),
        p.len() == 1 || p.last() != 0,
    ensures
        p == varint_bytes(v),
    decreases p.len(),
{
    if p.len() == 1 {
        assert(p.drop_first().len() == 0);
        assert(base128_value(p.drop_first()) == 0);
        assert(base128_value(p) == (p[0] % 128) as int);
        assert(p =~= seq![v as u8]);
    } else {
        let rest = p.drop_first();
        lemma_base128_nonneg(rest);
        let w = base128_value(rest);
        assert(p[0] >= 128);
        assert(w < 0x1_0000_0000_0000_0000) by (nonlinear_arith)
            requires
                v as int == (p[0] % 128) as int + 128 * w,
                w >= 0,
                v <= u64::MAX,
        ;
        assert(rest.last() == p.last());
        assert forall|i: int| 0 <= i < rest.len() - 1 implies #[trigger] rest[i] >= 128 by {
            assert(rest[i] == p[i + 1]);
        }
        assert(is_varint(rest, w as u64));
        if w == 0 {
            lemma_base128_zero(rest);
            assert(rest[rest.len() - 1] % 128 == 0);
        }
        assert(w >= 1);
        assert(v >= 128);
        assert(v % 128 == p[0] % 128 && v / 128 == w) by (nonlinear_arith)
            requires
                v as int == (p[0] % 128) as int + 128 * w,
                w >= 0,
                0 <= p[0] % 128 < 128,
        ;
        lemma_varint_canonical(rest, w as u64);
        assert(p[0] == (v % 128 + 128) as u8);
        assert(p =~= seq![(v % 128 + 128) as u8] + varint_bytes(v / 128));
    }
}

/// The shortest varint of a value ends in a byte other than zero, unless it
/// is the one byte of zero.
proof fn lemma_varint_ends_well(v: u64)
    ensures
        varint_bytes(v).len() >= 1,
        varint_bytes(v).len() == 1 || varint_bytes(v).last() != 0,
    decreases v,
{
    if v >= 128 {
        lemma_varint_ends_well(v / 128);
        let tail = varint_bytes(v / 128);
        assert(varint_bytes(v).last() == tail.last());
        if v / 128 < 128 {
            assert(tail[0] == (v / 128) as u8);
        } else {
            lemma_varint_ends_well(v / 128 / 128);
        }
    }
}

/// Reads the shortest varint that starts at `pos` in `buf`, and returns its
/// value with the position after it. Padded varints are refused.
pub(crate) fn read_varint_at(buf: &[u8], pos: usize) -> (r: Option<(u64, usize)>)
    requires
        pos <= buf@.len(),
    ensures
        r matches Some((v, end)) ==> pos < end <= buf@.len() && buf@.subrange(pos as int, end as int)
            == varint_bytes(v),
        forall|v: u64|
            #[trigger] starts_with(buf@.subrange(pos as int, buf@.len() as int), varint_bytes(v))
                ==> r == Some::<(u64, usize)>((v, (pos + varint_bytes(v).len()) as usize)),
{
    let input = &buf[pos..buf.len()];
    match read_varint(input) {
        None => None,
        Some((v, left)) => {
            let end = buf.len() - left;
            proof {
                assert(input@.subrange(0, input@.len() - left) =~= buf@.subrange(
                    pos as int,
                    end as int,
                ));
                lemma_varint_ends_well(v);
            }
            if end - pos == 1 || buf[end - 1] != 0 {
                proof {
                    lemma_varint_canonical(buf@.subrange(pos as int, end as int), v);
                }
                Some((v, end))
            } else {
                proof {
                    assert forall|w: u64|
                        #[trigger] starts_with(
                            buf@.subrange(pos as int, buf@.len() as int),
                            varint_bytes(w),
                        ) implies false by {
                        assert(starts_with(input@, varint_bytes(w)));
                        lemma_varint_ends_well(w);
                        assert(varint_bytes(w) =~= buf@.subrange(pos as int, end as int));
                    }
                }
                None
            }
        },
    }
}

} // verus!
