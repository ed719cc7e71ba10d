//! Why the fast scanner and the full decoder agree: on a buffer that decodes,
//! every skip lands where the corresponding read ends, the first "Code" text
//! the scanner finds is the first decoded "Code" constant, and the range the
//! scanner records for a method is that of its decoded "Code" attribute.
use vstd::prelude::*;
use vstd::utf8::encode_utf8;
use crate::attribute_info::{AttributeModel, attribute_parser, lemma_attribute_parser, p_attribute};
use crate::common::ErrorKind;
use crate::constant_pool::{
    ConstantModel, ConstantShape, constant_parser, lemma_constant_inverts, p_constant, shape_of,
};
use crate::field_info::{member_parser, p_member};
use crate::util::class_attr_check::{
    AttrSpan, SRes, const_start, first_named, is_named, s_attribute_fn, s_constant,
    s_constants, s_find, s_many, s_matches, s_member_fn, s_methods, s_u16,
};
use crate::util::class_data_parser::{code_name, const_code_scan, payload_ranges};
use crate::jclass_info::{decode, index_parser, p_class, p_class_tail};
use crate::util::class_scan::{last_spans, scan_class_codes, scanned_codes};
use crate::wire::{PRes, p_many};

verus! {

/// The constant is the text "Code".
pub open spec fn is_code_text(c: ConstantModel) -> bool {
    match c {
        ConstantModel::Utf8(t) => encode_utf8(t) == code_name(),
        _ => false,
    }
}

/// The 1-based index of the first "Code" text among the first `m` constants,
/// or 0 when there is none.
pub open spec fn first_code(cs: Seq<ConstantModel>, m: nat) -> int
    decreases m,
{
    if m == 0 {
        0
    } else {
        let f = first_code(cs, (m - 1) as nat);
        if f != 0 {
            f
        } else if is_code_text(cs[m - 1]) {
            m as int
        } else {
            0
        }
    }
}

/// Skipping a constant that decodes ends where decoding it ends, and the
/// scanner sees the text "Code" exactly where the decoder does.
pub proof fn lemma_constant_scan(d: Seq<u8>, i: int)
    requires
        p_constant(d, i) is Ok,
    ensures
        s_constant(d, i) == Ok::<int, ErrorKind>(p_constant(d, i)->Ok_0.1),
        is_named(d, i, p_constant(d, i)->Ok_0.1, code_name()) == is_code_text(
            p_constant(d, i)->Ok_0.0,
        ),
{
    lemma_constant_inverts(d, i);
    let (c, e) = p_constant(d, i)->Ok_0;
    let tag = d[i];
    if shape_of(tag) == Some(ConstantShape::Text) {
        let t = c->Utf8_0;
        let enc = encode_utf8(t);
        assert(d.subrange(i, e) == c.bytes());
        assert(c.bytes() == seq![tag] + (crate::wire::be16(enc.len() as u16) + enc));
        assert(d.subrange(i + 3, e) =~= d.subrange(i, e).subrange(3, e - i));
        assert(d.subrange(i + 3, e) =~= enc);
    } else {
        assert(d.subrange(i, e)[0] == c.bytes()[0]);
        assert(!(c is Utf8));
    }
}


proof fn lemma_code_prefix(a: Seq<ConstantModel>, b: Seq<ConstantModel>, m: nat)
    requires
        m <= a.len() <= b.len(),
        forall|j: int| 0 <= j < a.len() ==> a[j] == b[j],
    ensures
        first_code(a, m) == first_code(b, m),
    decreases m,
{
    if m > 0 {
        lemma_code_prefix(a, b, (m - 1) as nat);
    }
}

/// Scanning constants that decode ends where decoding them ends, and finds
/// the same first "Code" text.
pub proof fn lemma_constants_scan(d: Seq<u8>, p: int, n: nat)
    requires
        p_many(d, p, n, constant_parser()) is Ok,
    ensures
        ({
            let (cs, q) = p_many(d, p, n, constant_parser())->Ok_0;
            &&& s_constants(d, p, n) is Ok
            &&& s_constants(d, p, n)->Ok_0.len() == n
            &&& const_start(p, s_constants(d, p, n)->Ok_0, n as int) == q
            &&& first_named(d, p, s_constants(d, p, n)->Ok_0, code_name(), n) == first_code(cs, n)
        }),
    decreases n,
{
    if n > 0 {
        let m = (n - 1) as nat;
        lemma_constants_scan(d, p, m);
        crate::wire::lemma_many_len(d, p, m, constant_parser());
        let (cs0, q0) = p_many(d, p, m, constant_parser())->Ok_0;
        let ends0 = s_constants(d, p, m)->Ok_0;
        assert(p_constant(d, q0) is Ok);
        lemma_constant_scan(d, q0);
        let (c, e) = p_constant(d, q0)->Ok_0;
        let ends = ends0.push(e);
        let cs = cs0.push(c);
        assert(s_constants(d, p, n) == Ok::<Seq<int>, ErrorKind>(ends));
        assert(p_many(d, p, n, constant_parser())->Ok_0.0 == cs);
        crate::util::class_attr_check::lemma_first_named_prefix(d, p, ends0, ends, code_name(), m);
        lemma_code_prefix(cs0, cs, m);
        assert(const_start(p, ends, m as int) == q0);
        assert(ends[m as int] == e);
        assert(cs[m as int] == c);
    }
}

/// A counted run of scan steps ends where the counted run of reads ends, when
/// each step ends where its read does.
pub proof fn lemma_skip_many<T>(
    d: Seq<u8>,
    p: int,
    n: nat,
    f: spec_fn(Seq<u8>, int) -> PRes<T>,
    g: spec_fn(Seq<u8>, int) -> SRes,
)
    requires
        forall|d: Seq<u8>, p: int| #[trigger] f(d, p) is Ok ==> g(d, p) == Ok::<int, ErrorKind>(f(d, p)->Ok_0.1),
    ensures
        p_many(d, p, n, f) is Ok ==> s_many(d, p, n, g) == Ok::<int, ErrorKind>(p_many(d, p, n, f)->Ok_0.1),
    decreases n,
{
    if n > 0 {
        lemma_skip_many(d, p, (n - 1) as nat, f, g);
    }
}

/// Skipping an attribute that decodes ends where decoding it ends.
pub proof fn lemma_attribute_scan()
    ensures
        forall|d: Seq<u8>, p: int| #[trigger] attribute_parser()(d, p) is Ok ==> s_attribute_fn()(d, p)
            == Ok::<int, ErrorKind>(attribute_parser()(d, p)->Ok_0.1),
{
}

/// Skipping a field or method that decodes ends where decoding it ends.
pub proof fn lemma_member_scan()
    ensures
        forall|d: Seq<u8>, p: int| #[trigger] member_parser()(d, p) is Ok ==> s_member_fn()(d, p)
            == Ok::<int, ErrorKind>(member_parser()(d, p)->Ok_0.1),
{
    assert forall|d: Seq<u8>, p: int| #[trigger] member_parser()(d, p) is Ok implies s_member_fn()(d, p)
        == Ok::<int, ErrorKind>(member_parser()(d, p)->Ok_0.1) by {
        lemma_attribute_scan();
        lemma_attribute_parser();
        let (n, q) = crate::wire::p_u16(d, p + 6)->Ok_0;
        crate::wire::lemma_many_inverts(d, q, n as nat, attribute_parser(), crate::attribute_info::attribute_bytes());
        lemma_skip_many(d, q, n as nat, attribute_parser(), s_attribute_fn());
    }
}


/// Where attribute `j` of a run read from `k` starts.
pub open spec fn attr_start(d: Seq<u8>, k: int, j: nat) -> int {
    p_many(d, k, j, attribute_parser())->Ok_0.1
}

/// Where record `i` of a run of fields or methods read from `q` starts.
pub open spec fn member_start(d: Seq<u8>, q: int, i: nat) -> int {
    p_many(d, q, i, member_parser())->Ok_0.1
}

/// For the attributes among the first `n` read from `k` whose name index is
/// `key`, in order: where each starts, where its payload starts, and where it
/// ends, as decoding reads them.
pub open spec fn decoded_spans(d: Seq<u8>, k: int, n: nat, key: int) -> Seq<AttrSpan>
    decreases n,
{
    if n == 0 {
        Seq::empty()
    } else {
        let prev = decoded_spans(d, k, (n - 1) as nat, key);
        let a0 = attr_start(d, k, (n - 1) as nat);
        let (a, e) = p_attribute(d, a0)->Ok_0;
        if a.name as int == key {
            prev.push((a0 as usize, (a0 + 6) as usize, e as usize))
        } else {
            prev
        }
    }
}

/// For each of the first `m` method records read from `q`, the decoded spans
/// of its attributes named by `key` (they start 8 bytes into the record).
pub open spec fn decoded_method_spans(d: Seq<u8>, q: int, m: nat, key: int) -> Seq<Seq<AttrSpan>>
    decreases m,
{
    if m == 0 {
        Seq::empty()
    } else {
        let j = member_start(d, q, (m - 1) as nat);
        decoded_method_spans(d, q, (m - 1) as nat, key).push(
            decoded_spans(d, j + 8, crate::wire::p_u16(d, j + 6)->Ok_0.0 as nat, key),
        )
    }
}

/// The index of the last attribute whose name index is `key`, or -1.
pub open spec fn last_named_attr(s: Seq<AttributeModel>, key: int) -> int
    decreases s.len(),
{
    if s.len() == 0 {
        -1
    } else if s.last().name as int == key {
        s.len() - 1
    } else {
        last_named_attr(s.drop_last(), key)
    }
}

/// The range `c` the scanner records for a method whose attributes are read
/// from `k` agrees with decoding: it is (0, 0) when no attribute is named by
/// `key`, and else runs from where decoding read the last attribute so named
/// to where it ended, its last bytes being that attribute's data.
pub open spec fn code_range_at(
    d: Seq<u8>,
    c: (usize, usize),
    attrs: Seq<AttributeModel>,
    key: int,
    k: int,
) -> bool {
    let j = last_named_attr(attrs, key);
    &&& -1 <= j < attrs.len()
    &&& (j == -1 ==> c == (0usize, 0usize))
    &&& (j != -1 ==> {
        &&& c.0 == attr_start(d, k, j as nat)
        &&& c.1 == c.0 + 6 + attrs[j].data.len()
        &&& d.subrange(c.0 + 6, c.1 as int) == attrs[j].data
    })
}

proof fn lemma_last_named_range(s: Seq<AttributeModel>, key: int)
    ensures
        -1 <= last_named_attr(s, key) < s.len(),
        last_named_attr(s, key) >= 0 ==> s[last_named_attr(s, key)].name as int == key,
    decreases s.len(),
{
    if s.len() > 0 {
        lemma_last_named_range(s.drop_last(), key);
    }
}

/// Scanning attributes that decode for those named by `key` ends where
/// decoding them ends and finds exactly the decoded spans.
pub proof fn lemma_matches_scan(d: Seq<u8>, k: int, n: nat, key: int)
    requires
        p_many(d, k, n, attribute_parser()) is Ok,
    ensures
        s_matches(d, k, n, key) == Ok::<(Seq<AttrSpan>, int), ErrorKind>(
            (decoded_spans(d, k, n, key), p_many(d, k, n, attribute_parser())->Ok_0.1),
        ),
    decreases n,
{
    if n > 0 {
        lemma_matches_scan(d, k, (n - 1) as nat, key);
        let q0 = attr_start(d, k, (n - 1) as nat);
        assert(p_attribute(d, q0) is Ok);
    }
}

/// The last decoded span of a run of attributes is that of its last attribute
/// named by `key`, when there is one.
pub proof fn lemma_last_span(d: Seq<u8>, k: int, n: nat, key: int)
    requires
        p_many(d, k, n, attribute_parser()) is Ok,
        d.len() <= usize::MAX,
    ensures
        ({
            let attrs = p_many(d, k, n, attribute_parser())->Ok_0.0;
            let sp = decoded_spans(d, k, n, key);
            let c = if sp.len() == 0 {
                (0usize, 0usize)
            } else {
                (sp.last().0, sp.last().2)
            };
            code_range_at(d, c, attrs, key, k)
        }),
    decreases n,
{
    crate::wire::lemma_many_len(d, k, n, attribute_parser());
    let attrs = p_many(d, k, n, attribute_parser())->Ok_0.0;
    lemma_last_named_range(attrs, key);
    if n > 0 {
        let m = (n - 1) as nat;
        lemma_last_span(d, k, m, key);
        crate::wire::lemma_many_len(d, k, m, attribute_parser());
        let attrs0 = p_many(d, k, m, attribute_parser())->Ok_0.0;
        let q0 = attr_start(d, k, m);
        assert(p_attribute(d, q0) is Ok);
        let (a, e) = p_attribute(d, q0)->Ok_0;
        assert(attrs == attrs0.push(a));
        assert(attrs.drop_last() =~= attrs0);
        lemma_attribute_parser();
        assert(attribute_parser()(d, q0) is Ok);
        if a.name as int != key {
            let j = last_named_attr(attrs0, key);
            if j != -1 {
                assert(attrs[j] == attrs0[j]);
            }
        }
    }
}

/// Scanning method records that decode ends where decoding them ends and
/// finds exactly the decoded spans of each.
pub proof fn lemma_methods_scan(d: Seq<u8>, q: int, m: nat, key: int)
    requires
        p_many(d, q, m, member_parser()) is Ok,
    ensures
        s_methods(d, q, m, key) == Ok::<(Seq<Seq<AttrSpan>>, int), ErrorKind>(
            (decoded_method_spans(d, q, m, key), p_many(d, q, m, member_parser())->Ok_0.1),
        ),
    decreases m,
{
    if m > 0 {
        let m0 = (m - 1) as nat;
        lemma_methods_scan(d, q, m0, key);
        let j = member_start(d, q, m0);
        assert(p_member(d, j) is Ok);
        let (na, j7) = crate::wire::p_u16(d, j + 6)->Ok_0;
        lemma_matches_scan(d, j7, na as nat, key);
    }
}

/// Scanning attributes that decode for the first named by `key` succeeds; when
/// it finds none it stops where decoding them stops.
proof fn lemma_find_scan(d: Seq<u8>, k: int, n: nat, key: int)
    requires
        p_many(d, k, n, attribute_parser()) is Ok,
    ensures
        s_find(d, k, n, key) is Ok,
        s_find(d, k, n, key)->Ok_0.0 is None ==> s_find(d, k, n, key)->Ok_0.1 == p_many(
            d,
            k,
            n,
            attribute_parser(),
        )->Ok_0.1,
    decreases n,
{
    if n > 0 {
        lemma_find_scan(d, k, (n - 1) as nat, key);
        let q0 = attr_start(d, k, (n - 1) as nat);
        assert(p_attribute(d, q0) is Ok);
    }
}

/// Interface indices that decode end two bytes apiece after they start.
proof fn lemma_indices_end(d: Seq<u8>, p: int, n: nat)
    requires
        p_many(d, p, n, index_parser()) is Ok,
        0 <= p <= d.len(),
    ensures
        p_many(d, p, n, index_parser())->Ok_0.1 == p + 2 * n,
        p + 2 * n <= d.len(),
    decreases n,
{
    if n > 0 {
        lemma_indices_end(d, p, (n - 1) as nat);
    }
}

/// Where the method records of a buffer start, as decoding reads it: after
/// the header, the pool, the flags and class indices, the interfaces, the
/// fields and the method count.
pub open spec fn methods_offset(d: Seq<u8>) -> int {
    let (cnt, p) = crate::wire::p_u16(d, 8)->Ok_0;
    let n: nat = if cnt == 0 {
        0
    } else {
        (cnt - 1) as nat
    };
    let q3 = p_many(d, p, n, constant_parser())->Ok_0.1;
    let (ni, i2) = crate::wire::p_u16(d, q3 + 6)->Ok_0;
    let q4 = p_many(d, i2, ni as nat, index_parser())->Ok_0.1;
    let (nf, f2) = crate::wire::p_u16(d, q4)->Ok_0;
    let q5 = p_many(d, f2, nf as nat, member_parser())->Ok_0.1;
    crate::wire::p_u16(d, q5)->Ok_0.1
}

/// Where the parts of a buffer that decodes lie: the pool's constants, the
/// interface indices, the fields, the methods and the class attributes, each
/// read from where the one before ends.
proof fn lemma_class_layout(d: Seq<u8>)
    requires
        decode(d) is Ok,
    ensures
        ({
            let (cnt, p) = crate::wire::p_u16(d, 8)->Ok_0;
            let n: nat = if cnt == 0 {
                0
            } else {
                (cnt - 1) as nat
            };
            let (cs, q3) = p_many(d, p, n, constant_parser())->Ok_0;
            let (ni, i2) = crate::wire::p_u16(d, q3 + 6)->Ok_0;
            let (_, q4) = p_many(d, i2, ni as nat, index_parser())->Ok_0;
            let (nf, f2) = crate::wire::p_u16(d, q4)->Ok_0;
            let (_, q5) = p_many(d, f2, nf as nat, member_parser())->Ok_0;
            let (nm, m2) = crate::wire::p_u16(d, q5)->Ok_0;
            let (_, q6) = p_many(d, m2, nm as nat, member_parser())->Ok_0;
            let (na, i3) = crate::wire::p_u16(d, q6)->Ok_0;
            &&& crate::wire::p_u16(d, 8) is Ok
            &&& p_many(d, p, n, constant_parser()) is Ok
            &&& decode(d)->Ok_0.constants == cs
            &&& 0 <= q3
            &&& q3 + 6 <= d.len()
            &&& crate::wire::p_u16(d, q3 + 6) is Ok
            &&& 0 <= i2 <= d.len()
            &&& p_many(d, i2, ni as nat, index_parser()) is Ok
            &&& crate::wire::p_u16(d, q4) is Ok
            &&& p_many(d, f2, nf as nat, member_parser()) is Ok
            &&& crate::wire::p_u16(d, q5) is Ok
            &&& p_many(d, m2, nm as nat, member_parser()) is Ok
            &&& decode(d)->Ok_0.methods == p_many(d, m2, nm as nat, member_parser())->Ok_0.0
            &&& crate::wire::p_u16(d, q6) is Ok
            &&& p_many(d, i3, na as nat, attribute_parser()) is Ok
        }),
{
    reveal(p_class_tail);
    let (magic, _) = crate::wire::p_u32(d, 0)->Ok_0;
    let (minor, _) = crate::wire::p_u16(d, 4)->Ok_0;
    let (major, _) = crate::wire::p_u16(d, 6)->Ok_0;
    let (cnt, p) = crate::wire::p_u16(d, 8)->Ok_0;
    let n: nat = if cnt == 0 {
        0
    } else {
        (cnt - 1) as nat
    };
    let (cs, q3) = p_many(d, p, n, constant_parser())->Ok_0;
    assert(p_class(d, 0) == p_class_tail(d, q3, magic, minor, major, cs));
}

proof fn lemma_members_end(d: Seq<u8>, q4: int, nf: u16, f2: int)
    requires
        crate::wire::p_u16(d, q4) == Ok::<(u16, int), ErrorKind>((nf, f2)),
        p_many(d, f2, nf as nat, member_parser()) is Ok,
    ensures
        crate::util::class_attr_check::s_members(d, q4) == Ok::<int, ErrorKind>(
            p_many(d, f2, nf as nat, member_parser())->Ok_0.1,
        ),
{
    lemma_member_scan();
    lemma_skip_many(d, f2, nf as nat, member_parser(), s_member_fn());
}

/// The scanner's steps over a buffer that decodes, as the decoder's positions
/// give them: the constant scan finds the first decoded "Code" text, the
/// skips land where the reads end, and the method scan finds the decoded
/// spans.
proof fn lemma_scan_layout(d: Seq<u8>)
    requires
        decode(d) is Ok,
    ensures
        ({
            let m = decode(d)->Ok_0;
            let (cnt, p) = crate::wire::p_u16(d, 8)->Ok_0;
            let n: nat = if cnt == 0 {
                0
            } else {
                (cnt - 1) as nat
            };
            let q3 = p_many(d, p, n, constant_parser())->Ok_0.1;
            let ends = s_constants(d, p, n)->Ok_0;
            let key = first_named(d, p, ends, code_name(), n);
            let (ni, i2) = crate::wire::p_u16(d, q3 + 6)->Ok_0;
            let q4 = i2 + 2 * ni;
            let (nf, f2) = crate::wire::p_u16(d, q4)->Ok_0;
            let q5 = p_many(d, f2, nf as nat, member_parser())->Ok_0.1;
            let (nm, m2) = crate::wire::p_u16(d, q5)->Ok_0;
            &&& s_u16(d, 8) == Ok::<(u16, int), ErrorKind>((cnt, p))
            &&& s_constants(d, p, n) is Ok
            &&& const_start(p, ends, n as int) == q3
            &&& q3 + 6 <= d.len()
            &&& 0 <= q3
            &&& s_u16(d, q3 + 6) == Ok::<(u16, int), ErrorKind>((ni, i2))
            &&& q4 <= d.len()
            &&& 0 <= i2
            &&& crate::util::class_attr_check::s_members(d, q4) == Ok::<int, ErrorKind>(q5)
            &&& s_u16(d, q5) == Ok::<(u16, int), ErrorKind>((nm, m2))
            &&& m2 == methods_offset(d)
            &&& key == first_code(m.constants, m.constants.len() as nat)
            &&& m.methods.len() == nm
            &&& s_methods(d, m2, nm as nat, key) == Ok::<(Seq<Seq<AttrSpan>>, int), ErrorKind>(
                (
                    decoded_method_spans(d, m2, nm as nat, key),
                    p_many(d, m2, nm as nat, member_parser())->Ok_0.1,
                ),
            )
        }),
{
    lemma_class_layout(d);
    let (cnt, p) = crate::wire::p_u16(d, 8)->Ok_0;
    let n: nat = if cnt == 0 {
        0
    } else {
        (cnt - 1) as nat
    };
    lemma_constants_scan(d, p, n);
    crate::wire::lemma_many_len(d, p, n, constant_parser());
    let q3 = p_many(d, p, n, constant_parser())->Ok_0.1;
    let (ni, i2) = crate::wire::p_u16(d, q3 + 6)->Ok_0;
    lemma_indices_end(d, i2, ni as nat);
    let q4 = i2 + 2 * ni;
    let (nf, f2) = crate::wire::p_u16(d, q4)->Ok_0;
    lemma_members_end(d, q4, nf, f2);
    let q5 = p_many(d, f2, nf as nat, member_parser())->Ok_0.1;
    let (nm, m2) = crate::wire::p_u16(d, q5)->Ok_0;
    let ends = s_constants(d, p, n)->Ok_0;
    let key = first_named(d, p, ends, code_name(), n);
    lemma_methods_scan(d, m2, nm as nat, key);
    crate::wire::lemma_many_len(d, m2, nm as nat, member_parser());
}

/// Fast-scan agreement: on a buffer that decodes, the fast scan succeeds, and
/// finds what it looks for whenever it is not asked to look for a name. It
/// then records one range per decoded method: (0, 0) for a method with no
/// attribute named by the first "Code" text of the pool, and else the range
/// of the method's last attribute so named, starting where decoding read
/// that attribute and ending after its data.
pub proof fn lemma_scan_agrees_with_decode(d: Seq<u8>, name: Seq<u8>, not_check: bool)
    requires
        decode(d) is Ok,
        d.len() <= usize::MAX,
    ensures
        scan_class_codes(d, name, not_check) is Ok,
        not_check ==> scan_class_codes(d, name, not_check)->Ok_0 is Some,
        scan_class_codes(d, name, not_check)->Ok_0 is Some ==> {
            let m = decode(d)->Ok_0;
            let codes = scanned_codes(d, name, not_check);
            let key = first_code(m.constants, m.constants.len() as nat);
            &&& codes.len() == m.methods.len()
            &&& forall|i: int|
                0 <= i < codes.len() ==> code_range_at(
                    d,
                    #[trigger] codes[i],
                    m.methods[i].attributes,
                    key,
                    member_start(d, methods_offset(d), i as nat) + 8,
                )
        },
{
    lemma_scan_layout(d);
    lemma_class_layout(d);
    let m = decode(d)->Ok_0;
    let (cnt, p) = crate::wire::p_u16(d, 8)->Ok_0;
    let n: nat = if cnt == 0 {
        0
    } else {
        (cnt - 1) as nat
    };
    let q3 = p_many(d, p, n, constant_parser())->Ok_0.1;
    let ends = s_constants(d, p, n)->Ok_0;
    let key = first_named(d, p, ends, code_name(), n);
    let (ni, i2) = crate::wire::p_u16(d, q3 + 6)->Ok_0;
    let q4 = i2 + 2 * ni;
    let (nf, f2) = crate::wire::p_u16(d, q4)->Ok_0;
    let q5 = p_many(d, f2, nf as nat, member_parser())->Ok_0.1;
    let (nm, m2) = crate::wire::p_u16(d, q5)->Ok_0;
    let q6 = p_many(d, m2, nm as nat, member_parser())->Ok_0.1;
    let (na, i3) = crate::wire::p_u16(d, q6)->Ok_0;
    let kn = if not_check {
        0
    } else {
        first_named(d, p, ends, name, n)
    };
    lemma_find_scan(d, i3, na as nat, kn);
    crate::util::class_scan::lemma_scan_steps(
        d,
        name,
        not_check,
        cnt,
        p,
        n,
        ends,
        q3,
        i2,
        ni,
        q4,
        q5,
        m2,
        nm,
        key,
    );
    if scan_class_codes(d, name, not_check)->Ok_0 is Some {
        let codes = scanned_codes(d, name, not_check);
        let all = decoded_method_spans(d, m2, nm as nat, key);
        lemma_method_codes(d, m2, nm as nat, key);
        assert(codes == crate::util::class_scan::last_spans(all));
        assert forall|i: int| 0 <= i < codes.len() implies code_range_at(
            d,
            #[trigger] codes[i],
            m.methods[i].attributes,
            key,
            member_start(d, methods_offset(d), i as nat) + 8,
        ) by {
            assert(codes[i] == (if all[i].len() == 0 {
                (0usize, 0usize)
            } else {
                (all[i].last().0, all[i].last().2)
            }));
        }
    }
}

/// Each method's decoded spans, reduced to the last one, agree with its
/// decoded attributes.
proof fn lemma_method_codes(d: Seq<u8>, q: int, m: nat, key: int)
    requires
        p_many(d, q, m, member_parser()) is Ok,
        d.len() <= usize::MAX,
    ensures
        decoded_method_spans(d, q, m, key).len() == m,
        forall|i: int|
            0 <= i < m ==> {
                let sp = #[trigger] decoded_method_spans(d, q, m, key)[i];
                code_range_at(
                    d,
                    if sp.len() == 0 {
                        (0usize, 0usize)
                    } else {
                        (sp.last().0, sp.last().2)
                    },
                    p_many(d, q, m, member_parser())->Ok_0.0[i].attributes,
                    key,
                    member_start(d, q, i as nat) + 8,
                )
            },
    decreases m,
{
    crate::wire::lemma_many_len(d, q, m, member_parser());
    if m > 0 {
        let m0 = (m - 1) as nat;
        lemma_method_codes(d, q, m0, key);
        let j = member_start(d, q, m0);
        assert(p_member(d, j) is Ok);
        let (na, j7) = crate::wire::p_u16(d, j + 6)->Ok_0;
        lemma_last_span(d, j7, na as nat, key);
        let ms0 = p_many(d, q, m0, member_parser())->Ok_0.0;
        let ms = p_many(d, q, m, member_parser())->Ok_0.0;
        assert(ms == ms0.push(p_member(d, j)->Ok_0.0));
        let all = decoded_method_spans(d, q, m, key);
        let all0 = decoded_method_spans(d, q, m0, key);
        assert forall|i: int| 0 <= i < m implies {
            let sp = #[trigger] decoded_method_spans(d, q, m, key)[i];
            code_range_at(
                d,
                if sp.len() == 0 {
                    (0usize, 0usize)
                } else {
                    (sp.last().0, sp.last().2)
                },
                p_many(d, q, m, member_parser())->Ok_0.0[i].attributes,
                key,
                member_start(d, q, i as nat) + 8,
            )
        } by {
            if i < m0 {
                assert(all[i] == all0[i]);
                assert(ms[i] == ms0[i]);
            }
        }
    }
}

/// Code-scan agreement: on a buffer that decodes, the scan for code ranges
/// fails exactly when no constant of the pool is the text "Code"; otherwise
/// it succeeds, and its code ranges are, method by method and attribute by
/// attribute, the payloads of the attributes named by the first such text,
/// where decoding read them.
pub proof fn lemma_code_parse_agrees_with_decode(d: Seq<u8>)
    requires
        decode(d) is Ok,
    ensures
        ({
            let m = decode(d)->Ok_0;
            let key = first_code(m.constants, m.constants.len() as nat);
            &&& key == 0 ==> const_code_scan(d) == Err::<
                (Seq<crate::util::class_attr_check::DataRange>, Seq<usize>, Seq<crate::util::class_attr_check::DataRange>),
                ErrorKind,
            >(ErrorKind::Other)
            &&& key != 0 ==> const_code_scan(d) is Ok && const_code_scan(d)->Ok_0.2 == payload_ranges(
                decoded_method_spans(d, methods_offset(d), m.methods.len() as nat, key),
            )
        }),
{
    lemma_scan_layout(d);
    let (cnt, p) = crate::wire::p_u16(d, 8)->Ok_0;
    let n: nat = if cnt == 0 {
        0
    } else {
        (cnt - 1) as nat
    };
    let q3 = p_many(d, p, n, constant_parser())->Ok_0.1;
    let ends = s_constants(d, p, n)->Ok_0;
    let key = first_named(d, p, ends, code_name(), n);
    let (ni, i2) = crate::wire::p_u16(d, q3 + 6)->Ok_0;
    let q4 = i2 + 2 * ni;
    let (nf, f2) = crate::wire::p_u16(d, q4)->Ok_0;
    let q5 = p_many(d, f2, nf as nat, member_parser())->Ok_0.1;
    let (nm, m2) = crate::wire::p_u16(d, q5)->Ok_0;
    crate::util::class_data_parser::lemma_code_scan_steps(
        d,
        cnt,
        p,
        n,
        ends,
        q3,
        i2,
        ni,
        q4,
        q5,
        m2,
        nm,
        key,
    );
}

} // verus!
