//! A fast scan that collects the byte ranges of the data constants (numbers
//! and text) and of the payloads of every method's "Code" attributes.
use vstd::prelude::*;
use crate::common::{ErrorKind, MessageError, Result};
use crate::constant_pool::{
    CONSTANT_DOUBLE, CONSTANT_FLOAT, CONSTANT_INTEGER, CONSTANT_LONG, CONSTANT_UTF8,
};
use crate::util::class_attr_check::{
    AttrSpan, DataRange, const_start, first_named, lemma_first_named_prefix, lemma_s_constants_err, get_u16_from_data, handle_field_or_method,
    is_named, method_matches, s_constants, s_members, s_methods, s_skip, s_u16,
    skip_bytes, skip_constant, bytes_equal, spans_view,
};

verus! {

/// The bytes of the name "Code".
pub open spec fn code_name() -> Seq<u8> {
    seq![0x43u8, 0x6f, 0x64, 0x65]
}

/// The tag of a constant that holds data: a number or text.
pub open spec fn is_data_tag(tag: u8) -> bool {
    tag == CONSTANT_INTEGER || tag == CONSTANT_FLOAT || tag == CONSTANT_LONG || tag
        == CONSTANT_DOUBLE || tag == CONSTANT_UTF8
}

/// The payload ranges of the data constants among the first `m` constants.
pub open spec fn data_ranges(d: Seq<u8>, p: int, ends: Seq<int>, m: nat) -> Seq<DataRange>
    decreases m,
{
    if m == 0 {
        Seq::empty()
    } else {
        let prev = data_ranges(d, p, ends, (m - 1) as nat);
        let s = const_start(p, ends, m - 1);
        if is_data_tag(d[s]) {
            prev.push(DataRange { start: (s + 1) as usize, end: ends[m - 1] as usize })
        } else {
            prev
        }
    }
}

/// For each pool index below `cnt`, the position of its data constant among
/// the data ranges, or 0 for one that holds no data.
pub open spec fn data_index(d: Seq<u8>, p: int, ends: Seq<int>, cnt: nat) -> Seq<usize> {
    Seq::new(
        cnt,
        |i: int|
            if i >= 1 && is_data_tag(d[const_start(p, ends, i - 1)]) {
                data_ranges(d, p, ends, (i - 1) as nat).len() as usize
            } else {
                0
            },
    )
}

/// The payload ranges of the matched attributes, method by method.
pub open spec fn payload_ranges(all: Seq<Seq<AttrSpan>>) -> Seq<DataRange>
    decreases all.len(),
{
    if all.len() == 0 {
        Seq::empty()
    } else {
        payload_ranges(all.drop_last()) + all.last().map_values(
            |s: AttrSpan| DataRange { start: s.1, end: s.2 },
        )
    }
}

/// What the scan finds: the data-constant ranges, the index from pool index to
/// data range, and the payload ranges of the methods' "Code" attributes; it
/// fails when no constant holds the text "Code".
#[verifier::opaque]
pub open spec fn const_code_scan(d: Seq<u8>) -> core::result::Result<
    (Seq<DataRange>, Seq<usize>, Seq<DataRange>),
    ErrorKind,
> {
    match s_u16(d, 8) {
        Ok((cnt, p)) => {
            let n: nat = if cnt == 0 {
                0
            } else {
                (cnt - 1) as nat
            };
            match s_constants(d, p, n) {
                Ok(ends) => {
                    let key = first_named(d, p, ends, code_name(), n);
                    if key == 0 {
                        Err(ErrorKind::Other)
                    } else {
                        match s_skip(d, const_start(p, ends, n as int), 6) {
                            Ok(i1) => match s_u16(d, i1) {
                                Ok((ni, i2)) => match s_skip(d, i2, 2 * ni) {
                                    Ok(fs) => match s_members(d, fs) {
                                        Ok(ms) => match s_u16(d, ms) {
                                            Ok((m, q)) => match s_methods(d, q, m as nat, key) {
                                                Ok((all, _)) => Ok(
                                                    (
                                                        data_ranges(d, p, ends, n),
                                                        data_index(d, p, ends, cnt as nat),
                                                        payload_ranges(all),
                                                    ),
                                                ),
                                                Err(e) => Err(e),
                                            },
                                            Err(e) => Err(e),
                                        },
                                        Err(e) => Err(e),
                                    },
                                    Err(e) => Err(e),
                                },
                                Err(e) => Err(e),
                            },
                            Err(e) => Err(e),
                        }
                    }
                },
                Err(e) => Err(e),
            }
        },
        Err(e) => Err(e),
    }
}

/// The data constants' payload ranges, each data constant's position among
/// them by pool index, and the payload ranges of the "Code" attributes of all
/// methods, in order.
#[derive(Debug)]
pub struct ConstCodeInfo {
    pub constants: Vec<DataRange>,
    pub constants_index: Vec<usize>,
    pub codes: Vec<DataRange>,
}

/// Scans the constants from `*index`: the first "Code" text's pool index,
/// the data-constant ranges and the index from pool index to range.
fn scan_data_constants(data: &[u8], index: &mut usize, cnt: u16, name: &[u8]) -> (r: Result<
    (u16, Vec<DataRange>, Vec<usize>),
>)
    requires
        name@ == code_name(),
    ensures
        ({
            let n: nat = if cnt == 0 {
                0
            } else {
                (cnt - 1) as nat
            };
            let p = *old(index) as int;
            match s_constants(data@, p, n) {
                Ok(ends) => r is Ok && *final(index) == const_start(p, ends, n as int) && r->Ok_0.0
                    == first_named(data@, p, ends, code_name(), n) && r->Ok_0.1@ == data_ranges(
                    data@,
                    p,
                    ends,
                    n,
                ) && r->Ok_0.2@ == data_index(data@, p, ends, cnt as nat),
                Err(e) => r is Err && r->Err_0.kind == e,
            }
        }),
{
    let n: u16 = if cnt == 0 {
        0
    } else {
        cnt - 1
    };
    let ghost d = data@;
    let ghost p = *index as int;
    let ghost mut ends: Seq<int> = Seq::empty();
    let mut key: u16 = 0;
    let mut ranges: Vec<DataRange> = Vec::new();
    let mut idx: Vec<usize> = Vec::new();
    if cnt > 0 {
        idx.push(0);
    }
    let mut i: u16 = 0;
    while i < n
        invariant
            d == data@,
            p == *old(index) as int,
            name@ == code_name(),
            n == if cnt == 0 {
                0
            } else {
                cnt - 1
            },
            i <= n,
            s_constants(d, p, i as nat) == Ok::<Seq<int>, ErrorKind>(ends),
            ends.len() == i,
            *index as int == const_start(p, ends, i as int),
            key == first_named(d, p, ends, code_name(), i as nat),
            key <= i,
            ranges@ == data_ranges(d, p, ends, i as nat),
            ranges@.len() <= i,
            idx@ == data_index(d, p, ends, if cnt == 0 {
                0nat
            } else {
                (i + 1) as nat
            }),
        decreases n - i,
    {
        let start = *index;
        let tag = match skip_constant(data, index) {
            Ok(t) => t,
            Err(e) => {
                proof {
                    lemma_s_constants_err(d, p, (i + 1) as nat, n as nat);
                }
                return Err(e);
            },
        };
        let ghost prev = ends;
        proof {
            ends = ends.push(*index as int);
            assert(ends.drop_last() =~= prev);
            assert(const_start(p, ends, i as int) == start as int);
            lemma_prefix_facts(d, p, prev, ends, i as nat);
        }
        let ghost named = is_named(d, start as int, *index as int, code_name());
        if key == 0 && tag == CONSTANT_UTF8 && *index - start >= 3 && *index - start - 3
            == name.len() && bytes_equal(data, start + 3, name) {
            key = i + 1;
        }
        let is_data = tag == CONSTANT_INTEGER || tag == CONSTANT_FLOAT || tag == CONSTANT_LONG
            || tag == CONSTANT_DOUBLE || tag == CONSTANT_UTF8;
        if is_data {
            idx.push(ranges.len());
            ranges.push(DataRange { start: start + 1, end: *index });
        } else {
            idx.push(0);
        }
        proof {
            assert(first_named(d, p, ends, code_name(), (i + 1) as nat) == if first_named(
                d,
                p,
                ends,
                code_name(),
                i as nat,
            ) != 0 {
                first_named(d, p, ends, code_name(), i as nat)
            } else if named {
                i + 1
            } else {
                0
            });
            assert(idx@ =~= data_index(d, p, ends, (i + 2) as nat));
        }
        i = i + 1;
    }
    proof {
        if cnt == 0 {
            assert(idx@ =~= data_index(d, p, ends, 0));
        }
    }
    Ok((key, ranges, idx))
}

proof fn lemma_prefix_facts(d: Seq<u8>, p: int, a: Seq<int>, b: Seq<int>, m: nat)
    requires
        m == a.len(),
        b.len() == m + 1,
        forall|j: int| 0 <= j < a.len() ==> a[j] == b[j],
    ensures
        first_named(d, p, a, code_name(), m) == first_named(d, p, b, code_name(), m),
        data_ranges(d, p, a, m) == data_ranges(d, p, b, m),
        forall|k: nat| k <= m ==> data_ranges(d, p, a, k) == data_ranges(d, p, b, k),
        forall|k: int| 0 <= k < m ==> const_start(p, a, k) == const_start(p, b, k),
{
    lemma_ranges_prefix(d, p, a, b, m);
    lemma_first_named_prefix(d, p, a, b, code_name(), m);
    assert forall|k: nat| k <= m implies data_ranges(d, p, a, k) == data_ranges(d, p, b, k) by {
        lemma_ranges_prefix(d, p, a, b, k);
    }
}

proof fn lemma_ranges_prefix(d: Seq<u8>, p: int, a: Seq<int>, b: Seq<int>, m: nat)
    requires
        m <= a.len() <= b.len(),
        forall|j: int| 0 <= j < a.len() ==> a[j] == b[j],
    ensures
        data_ranges(d, p, a, m) == data_ranges(d, p, b, m),
    decreases m,
{
    if m > 0 {
        lemma_ranges_prefix(d, p, a, b, (m - 1) as nat);
    }
}

/// The payload ranges of the matched attributes, method by method.
fn collect_payloads(all: &Vec<Vec<AttrSpan>>) -> (r: Vec<DataRange>)
    ensures
        r@ == payload_ranges(spans_view(all@)),
{
    let ghost s = spans_view(all@);
    let mut out: Vec<DataRange> = Vec::new();
    let mut i: usize = 0;
    while i < all.len()
        invariant
            s == spans_view(all@),
            i <= all@.len(),
            out@ == payload_ranges(s.take(i as int)),
        decreases all@.len() - i,
    {
        let spans = &all[i];
        let ghost before = out@;
        let mut j: usize = 0;
        while j < spans.len()
            invariant
                j <= spans@.len(),
                out@ == before + spans@.take(j as int).map_values(
                    |x: AttrSpan| DataRange { start: x.1, end: x.2 },
                ),
            decreases spans@.len() - j,
        {
            let (_, a, b) = spans[j];
            out.push(DataRange { start: a, end: b });
            j = j + 1;
            assert(out@ =~= before + spans@.take(j as int).map_values(
                |x: AttrSpan| DataRange { start: x.1, end: x.2 },
            ));
        }
        proof {
            assert(spans@.take(spans@.len() as int) =~= spans@);
            assert(s.take(i + 1).drop_last() =~= s.take(i as int));
            assert(s[i as int] == spans@);
        }
        i = i + 1;
    }
    assert(s.take(s.len() as int) =~= s);
    out
}

/// Scans a class file in one pass for the ranges of its data constants and
/// of the payloads of its methods' "Code" attributes. Fails when no constant
/// holds the text "Code"; every read is bounds-checked.
pub fn class_const_code_parse(data: &[u8]) -> (r: Result<ConstCodeInfo>)
    ensures
        match const_code_scan(data@) {
            Ok((constants, index, codes)) => r is Ok && r->Ok_0.constants@ == constants
                && r->Ok_0.constants_index@ == index && r->Ok_0.codes@ == codes,
            Err(e) => r is Err && r->Err_0.kind == e,
        },
{
    proof {
        reveal(const_code_scan);
    }
    let name: Vec<u8> = vec![0x43u8, 0x6f, 0x64, 0x65];
    assert(name@ =~= code_name());
    let mut index: usize = 8;
    let cnt = get_u16_from_data(data, &mut index)?;
    let (key, constants, constants_index) = scan_data_constants(
        data,
        &mut index,
        cnt,
        name.as_slice(),
    )?;
    if key == 0 {
        return Err(MessageError::with_kind(ErrorKind::Other, "no Code text among the constants"));
    }
    skip_bytes(data, &mut index, 6)?;
    let ni = get_u16_from_data(data, &mut index)?;
    skip_bytes(data, &mut index, 2 * ni as usize)?;
    handle_field_or_method(data, &mut index)?;
    let all = method_matches(data, &mut index, key)?;
    let codes = collect_payloads(&all);
    Ok(ConstCodeInfo { constants, constants_index, codes })
}

/// When every step of the scan succeeds, so does the scan, unless no constant
/// holds the text "Code"; its code ranges are then the payload ranges of the
/// method scan that follows the fields.
pub proof fn lemma_code_scan_steps(
    d: Seq<u8>,
    cnt: u16,
    p: int,
    n: nat,
    ends: Seq<int>,
    q3: int,
    i2: int,
    ni: u16,
    q4: int,
    q5: int,
    m2: int,
    nm: u16,
    key: int,
)
    requires
        s_u16(d, 8) == Ok::<(u16, int), ErrorKind>((cnt, p)),
        n == if cnt == 0 {
            0
        } else {
            (cnt - 1) as nat
        },
        s_constants(d, p, n) == Ok::<Seq<int>, ErrorKind>(ends),
        const_start(p, ends, n as int) == q3,
        q3 + 6 <= d.len(),
        0 <= q3,
        s_u16(d, q3 + 6) == Ok::<(u16, int), ErrorKind>((ni, i2)),
        q4 == i2 + 2 * ni,
        q4 <= d.len(),
        0 <= i2,
        s_members(d, q4) == Ok::<int, ErrorKind>(q5),
        s_u16(d, q5) == Ok::<(u16, int), ErrorKind>((nm, m2)),
        key == first_named(d, p, ends, code_name(), n),
        s_methods(d, m2, nm as nat, key) is Ok,
    ensures
        key == 0 ==> const_code_scan(d) == Err::<
            (Seq<DataRange>, Seq<usize>, Seq<DataRange>),
            ErrorKind,
        >(ErrorKind::Other),
        key != 0 ==> const_code_scan(d) is Ok && const_code_scan(d)->Ok_0.2 == payload_ranges(
            s_methods(d, m2, nm as nat, key)->Ok_0.0,
        ),
{
    reveal(const_code_scan);
    assert(s_skip(d, const_start(p, ends, n as int), 6) == Ok::<int, ErrorKind>(q3 + 6));
    assert(s_skip(d, i2, 2 * ni) == Ok::<int, ErrorKind>(q4));
}

} // verus!
