//! The wire grammar's building blocks: big-endian integers, byte runs and
//! counted sequences, each as a parser over absolute positions in a byte
//! sequence and as a serializer, with the facts that tie the two together.
use vstd::prelude::*;
use crate::common::ErrorKind;

verus! {

/// What a parser yields at a position: the value read and the position just
/// after it, or the reason it failed.
pub type PRes<T> = Result<(T, int), ErrorKind>;

/// The two bytes of `v`, most significant first.
pub open spec fn be16(v: u16) -> Seq<u8> {
    seq![(v / 0x100) as u8, (v % 0x100) as u8]
}

/// The four bytes of `v`, most significant first.
pub open spec fn be32(v: u32) -> Seq<u8> {
    seq![
        (v / 0x100_0000) as u8,
        ((v / 0x1_0000) % 0x100) as u8,
        ((v / 0x100) % 0x100) as u8,
        (v % 0x100) as u8,
    ]
}

/// The eight bytes of `v`, most significant first.
pub open spec fn be64(v: u64) -> Seq<u8> {
    be32((v / 0x1_0000_0000) as u32) + be32((v % 0x1_0000_0000) as u32)
}

/// The number that two bytes spell, most significant first.
pub open spec fn u16_of(b0: u8, b1: u8) -> u16 {
    (b0 as int * 0x100 + b1 as int) as u16
}

/// The number that the first four bytes of `b` spell, most significant first.
pub open spec fn u32_of(b: Seq<u8>) -> u32 {
    (b[0] as int * 0x100_0000 + b[1] as int * 0x1_0000 + b[2] as int * 0x100 + b[3] as int) as u32
}

/// The number that the first eight bytes of `b` spell, most significant first.
pub open spec fn u64_of(b: Seq<u8>) -> u64 {
    (u32_of(b) as int * 0x1_0000_0000 + u32_of(b.subrange(4, 8)) as int) as u64
}

/// `n` bytes at `p`.
pub open spec fn p_bytes(d: Seq<u8>, p: int, n: int) -> PRes<Seq<u8>> {
    if 0 <= p && 0 <= n && p + n <= d.len() {
        Ok((d.subrange(p, p + n), p + n))
    } else {
        Err(ErrorKind::TruncatedInput)
    }
}

/// One byte at `p`.
pub open spec fn p_u8(d: Seq<u8>, p: int) -> PRes<u8> {
    if 0 <= p && p + 1 <= d.len() {
        Ok((d[p], p + 1))
    } else {
        Err(ErrorKind::TruncatedInput)
    }
}

/// A big-endian `u16` at `p`.
pub open spec fn p_u16(d: Seq<u8>, p: int) -> PRes<u16> {
    if 0 <= p && p + 2 <= d.len() {
        Ok((u16_of(d[p], d[p + 1]), p + 2))
    } else {
        Err(ErrorKind::TruncatedInput)
    }
}

/// A big-endian `u32` at `p`.
pub open spec fn p_u32(d: Seq<u8>, p: int) -> PRes<u32> {
    if 0 <= p && p + 4 <= d.len() {
        Ok((u32_of(d.subrange(p, p + 4)), p + 4))
    } else {
        Err(ErrorKind::TruncatedInput)
    }
}

/// A big-endian `u64` at `p`.
pub open spec fn p_u64(d: Seq<u8>, p: int) -> PRes<u64> {
    if 0 <= p && p + 8 <= d.len() {
        Ok((u64_of(d.subrange(p, p + 8)), p + 8))
    } else {
        Err(ErrorKind::TruncatedInput)
    }
}

/// `n` items read one after the other from `p` by `f`; the first failure
/// ends the run.
pub open spec fn p_many<T>(d: Seq<u8>, p: int, n: nat, f: spec_fn(Seq<u8>, int) -> PRes<T>) -> PRes<
    Seq<T>,
>
    decreases n,
{
    if n == 0 {
        Ok((Seq::empty(), p))
    } else {
        match p_many(d, p, (n - 1) as nat, f) {
            Ok((items, q)) => match f(d, q) {
                Ok((x, r)) => Ok((items.push(x), r)),
                Err(e) => Err(e),
            },
            Err(e) => Err(e),
        }
    }
}

/// The items' encodings by `g`, one after the other.
pub open spec fn ser_many<T>(items: Seq<T>, g: spec_fn(T) -> Seq<u8>) -> Seq<u8>
    decreases items.len(),
{
    if items.len() == 0 {
        Seq::empty()
    } else {
        ser_many(items.drop_last(), g) + g(items.last())
    }
}

/// Whatever `f` reads successfully is exactly the encoding `g` gives it.
pub open spec fn inverts<T>(f: spec_fn(Seq<u8>, int) -> PRes<T>, g: spec_fn(T) -> Seq<u8>) -> bool {
    forall|d: Seq<u8>, p: int|
        #![trigger f(d, p)]
        f(d, p) is Ok ==> {
            let (x, q) = f(d, p)->Ok_0;
            &&& 0 <= p <= q <= d.len()
            &&& d.subrange(p, q) == g(x)
        }
}

/// Cutting the input short leaves a successful read of `f` as it was when the
/// cut lies at or after its end, and makes it fail as truncated otherwise.
pub open spec fn truncates<T>(f: spec_fn(Seq<u8>, int) -> PRes<T>) -> bool {
    forall|d: Seq<u8>, p: int, k: int|
        #![trigger f(d.take(k), p)]
        f(d, p) is Ok && 0 <= k <= d.len() ==> f(d.take(k), p) == if f(d, p)->Ok_0.1 <= k {
            f(d, p)
        } else {
            Err(ErrorKind::TruncatedInput)
        }
}

pub proof fn lemma_be16_of(b0: u8, b1: u8)
    ensures
        be16(u16_of(b0, b1)) == seq![b0, b1],
{
    let v = b0 as int * 0x100 + b1 as int;
    assert(v / 0x100 == b0 as int && v % 0x100 == b1 as int) by (nonlinear_arith)
        requires
            v == b0 as int * 0x100 + b1 as int,
            0 <= b0 < 0x100,
            0 <= b1 < 0x100,
    ;
    assert(be16(u16_of(b0, b1)) =~= seq![b0, b1]);
}

pub proof fn lemma_be32_of(b: Seq<u8>)
    requires
        b.len() == 4,
    ensures
        be32(u32_of(b)) == b,
{
    let (b0, b1, b2, b3) = (b[0] as int, b[1] as int, b[2] as int, b[3] as int);
    let v = b0 * 0x100_0000 + b1 * 0x1_0000 + b2 * 0x100 + b3;
    assert(v / 0x100_0000 == b0 && (v / 0x1_0000) % 0x100 == b1 && (v / 0x100) % 0x100 == b2 && v
        % 0x100 == b3) by (nonlinear_arith)
        requires
            v == b0 * 0x100_0000 + b1 * 0x1_0000 + b2 * 0x100 + b3,
            0 <= b0 < 0x100,
            0 <= b1 < 0x100,
            0 <= b2 < 0x100,
            0 <= b3 < 0x100,
    ;
    assert(be32(u32_of(b)) =~= b);
}

pub proof fn lemma_be64_of(b: Seq<u8>)
    requires
        b.len() == 8,
    ensures
        be64(u64_of(b)) == b,
{
    let hi = u32_of(b) as int;
    let lo = u32_of(b.subrange(4, 8)) as int;
    let v = hi * 0x1_0000_0000 + lo;
    assert(v / 0x1_0000_0000 == hi && v % 0x1_0000_0000 == lo) by (nonlinear_arith)
        requires
            v == hi * 0x1_0000_0000 + lo,
            0 <= hi < 0x1_0000_0000,
            0 <= lo < 0x1_0000_0000,
    ;
    lemma_be32_of(b.subrange(0, 4));
    lemma_be32_of(b.subrange(4, 8));
    assert(u32_of(b) == u32_of(b.subrange(0, 4)));
    assert(be64(u64_of(b)) =~= b);
}

/// Once a counted read fails, reading more items fails the same way.
pub proof fn lemma_many_err<T>(d: Seq<u8>, p: int, i: nat, n: nat, f: spec_fn(Seq<u8>, int) -> PRes<T>)
    requires
        i <= n,
        p_many(d, p, i, f) is Err,
    ensures
        p_many(d, p, n, f) == p_many(d, p, i, f),
    decreases n,
{
    if n > i {
        lemma_many_err(d, p, i, (n - 1) as nat, f);
    }
}

/// A counted read by an inverting parser reads exactly the serialized items.
pub proof fn lemma_many_inverts<T>(
    d: Seq<u8>,
    p: int,
    n: nat,
    f: spec_fn(Seq<u8>, int) -> PRes<T>,
    g: spec_fn(T) -> Seq<u8>,
)
    requires
        inverts(f, g),
        0 <= p <= d.len(),
    ensures
        p_many(d, p, n, f) is Ok ==> {
            let (xs, q) = p_many(d, p, n, f)->Ok_0;
            &&& xs.len() == n
            &&& p <= q <= d.len()
            &&& d.subrange(p, q) == ser_many(xs, g)
        },
    decreases n,
{
    if n > 0 {
        lemma_many_inverts(d, p, (n - 1) as nat, f, g);
        if p_many(d, p, n, f) is Ok {
            let (xs, q) = p_many(d, p, (n - 1) as nat, f)->Ok_0;
            let (x, r) = f(d, q)->Ok_0;
            let ys = xs.push(x);
            assert(ys.drop_last() =~= xs);
            assert(d.subrange(p, r) =~= d.subrange(p, q) + d.subrange(q, r));
        }
    }
}

/// A counted read by a well-behaved parser is cut short as a single read is.
pub proof fn lemma_many_truncates<T>(
    d: Seq<u8>,
    p: int,
    n: nat,
    k: int,
    f: spec_fn(Seq<u8>, int) -> PRes<T>,
    g: spec_fn(T) -> Seq<u8>,
)
    requires
        inverts(f, g),
        truncates(f),
        0 <= p <= d.len(),
        0 <= k <= d.len(),
        p <= k,
        p_many(d, p, n, f) is Ok,
    ensures
        p_many(d.take(k), p, n, f) == if p_many(d, p, n, f)->Ok_0.1 <= k {
            p_many(d, p, n, f)
        } else {
            Err(ErrorKind::TruncatedInput)
        },
    decreases n,
{
    if n > 0 {
        let m = (n - 1) as nat;
        assert(p_many(d, p, m, f) is Ok);
        lemma_many_truncates(d, p, m, k, f, g);
        lemma_many_inverts(d, p, m, f, g);
        let (xs, q) = p_many(d, p, m, f)->Ok_0;
        let fq = f(d, q);
        let fk = f(d.take(k), q);
        assert(fq is Ok);
        let r = fq->Ok_0.1;
        assert(q <= r);
        if q <= k {
            assert(p_many(d.take(k), p, m, f) == p_many(d, p, m, f));
            assert(fk == if r <= k {
                fq
            } else {
                Err(ErrorKind::TruncatedInput)
            });
        } else {
            assert(p_many(d.take(k), p, m, f) == Err::<(Seq<T>, int), ErrorKind>(
                ErrorKind::TruncatedInput,
            ));
        }
    }
}


/// Reading from a prefix of the input: a fixed-width read that ends within the
/// prefix reads the same, and one that does not fails as truncated.
pub proof fn lemma_take_reads(d: Seq<u8>, k: int)
    requires
        0 <= k <= d.len(),
    ensures
        forall|p: int|
            #![trigger p_u8(d.take(k), p)]
            p_u8(d.take(k), p) == if p + 1 <= k {
                p_u8(d, p)
            } else {
                Err(ErrorKind::TruncatedInput)
            },
        forall|p: int|
            #![trigger p_u16(d.take(k), p)]
            p_u16(d.take(k), p) == if p + 2 <= k {
                p_u16(d, p)
            } else {
                Err(ErrorKind::TruncatedInput)
            },
        forall|p: int|
            #![trigger p_u32(d.take(k), p)]
            p_u32(d.take(k), p) == if p + 4 <= k {
                p_u32(d, p)
            } else {
                Err(ErrorKind::TruncatedInput)
            },
        forall|p: int|
            #![trigger p_u64(d.take(k), p)]
            p_u64(d.take(k), p) == if p + 8 <= k {
                p_u64(d, p)
            } else {
                Err(ErrorKind::TruncatedInput)
            },
        forall|p: int, n: int|
            #![trigger p_bytes(d.take(k), p, n)]
            p_bytes(d.take(k), p, n) == if p + n <= k || n < 0 {
                p_bytes(d, p, n)
            } else {
                Err(ErrorKind::TruncatedInput)
            },
{
    let t = d.take(k);
    assert forall|p: int| 0 <= p && p + 4 <= k implies #[trigger] t.subrange(p, p + 4) == d.subrange(
        p,
        p + 4,
    ) by {
        assert(t.subrange(p, p + 4) =~= d.subrange(p, p + 4));
    }
    assert forall|p: int| 0 <= p && p + 8 <= k implies #[trigger] t.subrange(p, p + 8) == d.subrange(
        p,
        p + 8,
    ) by {
        assert(t.subrange(p, p + 8) =~= d.subrange(p, p + 8));
    }
    assert forall|p: int, n: int| 0 <= p && 0 <= n && p + n <= k implies #[trigger] t.subrange(
        p,
        p + n,
    ) == d.subrange(p, p + n) by {
        assert(t.subrange(p, p + n) =~= d.subrange(p, p + n));
    }
    assert forall|p: int|
        #![trigger p_u32(t, p)]
        p_u32(t, p) == if p + 4 <= k {
            p_u32(d, p)
        } else {
            Err(ErrorKind::TruncatedInput)
        } by {
        if 0 <= p && p + 4 <= k {
            assert(t.subrange(p, p + 4) == d.subrange(p, p + 4));
        }
    }
    assert forall|p: int|
        #![trigger p_u64(t, p)]
        p_u64(t, p) == if p + 8 <= k {
            p_u64(d, p)
        } else {
            Err(ErrorKind::TruncatedInput)
        } by {
        if 0 <= p && p + 8 <= k {
            assert(t.subrange(p, p + 8) == d.subrange(p, p + 8));
        }
    }
    assert forall|p: int, n: int|
        #![trigger p_bytes(t, p, n)]
        p_bytes(t, p, n) == if p + n <= k || n < 0 {
            p_bytes(d, p, n)
        } else {
            Err(ErrorKind::TruncatedInput)
        } by {
        if 0 <= p && 0 <= n && p + n <= k {
            assert(t.subrange(p, p + n) == d.subrange(p, p + n));
        }
    }
}


/// A `u16` count, then that many items read by `f`.
pub open spec fn p_counted<T>(d: Seq<u8>, p: int, f: spec_fn(Seq<u8>, int) -> PRes<T>) -> PRes<Seq<T>> {
    match p_u16(d, p) {
        Ok((n, q)) => p_many(d, q, n as nat, f),
        Err(e) => Err(e),
    }
}

/// The items' count as a `u16`, then their encodings by `g`.
pub open spec fn ser_counted<T>(items: Seq<T>, g: spec_fn(T) -> Seq<u8>) -> Seq<u8> {
    be16(items.len() as u16) + ser_many(items, g)
}

/// A counted read by an inverting parser reads exactly the count and the
/// serialized items.
pub proof fn lemma_counted_inverts<T>(
    d: Seq<u8>,
    p: int,
    f: spec_fn(Seq<u8>, int) -> PRes<T>,
    g: spec_fn(T) -> Seq<u8>,
)
    requires
        inverts(f, g),
    ensures
        p_counted(d, p, f) is Ok ==> {
            let (xs, q) = p_counted(d, p, f)->Ok_0;
            &&& xs.len() <= 0xFFFF
            &&& 0 <= p <= q <= d.len()
            &&& d.subrange(p, q) == ser_counted(xs, g)
        },
{
    if p_counted(d, p, f) is Ok {
        let (n, q) = p_u16(d, p)->Ok_0;
        lemma_many_inverts(d, q, n as nat, f, g);
        let (xs, r) = p_counted(d, p, f)->Ok_0;
        lemma_be16_of(d[p], d[p + 1]);
        assert(d.subrange(p, r) =~= d.subrange(p, q) + d.subrange(q, r));
        assert(d.subrange(p, q) =~= seq![d[p], d[p + 1]]);
    }
}

/// A counted read is cut short as a single read is.
pub proof fn lemma_counted_truncates<T>(
    d: Seq<u8>,
    p: int,
    k: int,
    f: spec_fn(Seq<u8>, int) -> PRes<T>,
    g: spec_fn(T) -> Seq<u8>,
)
    requires
        inverts(f, g),
        truncates(f),
        0 <= k <= d.len(),
        p_counted(d, p, f) is Ok,
    ensures
        p_counted(d.take(k), p, f) == if p_counted(d, p, f)->Ok_0.1 <= k {
            p_counted(d, p, f)
        } else {
            Err(ErrorKind::TruncatedInput)
        },
{
    lemma_take_reads(d, k);
    let (n, q) = p_u16(d, p)->Ok_0;
    lemma_many_inverts(d, q, n as nat, f, g);
    if q <= k {
        lemma_many_truncates(d, q, n as nat, k, f, g);
    }
}


/// The sum of `f` over the items.
pub open spec fn sum_many<T>(items: Seq<T>, f: spec_fn(T) -> int) -> int
    decreases items.len(),
{
    if items.len() == 0 {
        0
    } else {
        sum_many(items.drop_last(), f) + f(items.last())
    }
}

/// A sum of non-negative sizes over a prefix is at most the whole sum.
pub proof fn lemma_sum_prefix<T>(items: Seq<T>, f: spec_fn(T) -> int, i: int)
    requires
        0 <= i <= items.len(),
        forall|x: T| #[trigger] f(x) >= 0,
    ensures
        0 <= sum_many(items.take(i), f) <= sum_many(items, f),
    decreases items.len(),
{
    if items.len() > 0 {
        if i == items.len() {
            assert(items.take(i) =~= items);
            lemma_sum_prefix(items.drop_last(), f, i - 1);
            assert(items.drop_last().take(i - 1) =~= items.drop_last());
        } else {
            lemma_sum_prefix(items.drop_last(), f, i);
            assert(items.drop_last().take(i) =~= items.take(i));
        }
    }
}

/// Taking one more item adds its size to the sum of a prefix.
pub proof fn lemma_sum_step<T>(items: Seq<T>, f: spec_fn(T) -> int, i: int)
    requires
        0 <= i < items.len(),
    ensures
        sum_many(items.take(i + 1), f) == sum_many(items.take(i), f) + f(items[i]),
{
    assert(items.take(i + 1).drop_last() =~= items.take(i));
}

/// Taking one more item appends its encoding to those of a prefix.
pub proof fn lemma_ser_step<T>(items: Seq<T>, g: spec_fn(T) -> Seq<u8>, i: int)
    requires
        0 <= i < items.len(),
    ensures
        ser_many(items.take(i + 1), g) == ser_many(items.take(i), g) + g(items[i]),
{
    assert(items.take(i + 1).drop_last() =~= items.take(i));
}

/// The items' encodings are as long as the sum of their sizes.
pub proof fn lemma_ser_len<T>(items: Seq<T>, g: spec_fn(T) -> Seq<u8>, f: spec_fn(T) -> int)
    requires
        forall|x: T| #[trigger] g(x).len() == f(x),
    ensures
        ser_many(items, g).len() == sum_many(items, f),
    decreases items.len(),
{
    if items.len() > 0 {
        lemma_ser_len(items.drop_last(), g, f);
    }
}


/// Every item of a counted read meets `pred` when every single read does.
pub proof fn lemma_many_all<T>(
    d: Seq<u8>,
    p: int,
    n: nat,
    f: spec_fn(Seq<u8>, int) -> PRes<T>,
    pred: spec_fn(T) -> bool,
)
    requires
        forall|d: Seq<u8>, p: int| #[trigger] f(d, p) is Ok ==> pred(f(d, p)->Ok_0.0),
    ensures
        p_many(d, p, n, f) is Ok ==> {
            let xs = p_many(d, p, n, f)->Ok_0.0;
            &&& xs.len() == n
            &&& forall|i: int| 0 <= i < xs.len() ==> #[trigger] pred(xs[i])
        },
    decreases n,
{
    if n > 0 {
        lemma_many_all(d, p, (n - 1) as nat, f, pred);
        if p_many(d, p, n, f) is Ok {
            let (xs, q) = p_many(d, p, (n - 1) as nat, f)->Ok_0;
            assert(f(d, q) is Ok);
            let ys = xs.push(f(d, q)->Ok_0.0);
            assert forall|i: int| 0 <= i < ys.len() implies #[trigger] pred(ys[i]) by {
                if i < xs.len() {
                    assert(ys[i] == xs[i]);
                }
            }
        }
    }
}


/// A counted read that succeeds yields as many items as it was asked for.
pub proof fn lemma_many_len<T>(d: Seq<u8>, p: int, n: nat, f: spec_fn(Seq<u8>, int) -> PRes<T>)
    ensures
        p_many(d, p, n, f) is Ok ==> p_many(d, p, n, f)->Ok_0.0.len() == n,
    decreases n,
{
    if n > 0 {
        lemma_many_len(d, p, (n - 1) as nat, f);
    }
}

} // verus!
