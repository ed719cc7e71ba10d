//! The fast scan that also records where every constant ends and where each
//! method's "Code" attribute lies.
use vstd::prelude::*;
use crate::common::{ErrorKind, Result};
use crate::constant_pool::CONSTANT_UTF8;
use crate::util::class_attr_check::{
    AttrSpan, const_start, find_attribute, first_named, lemma_first_named_prefix,
    lemma_s_constants_err, get_u16_from_data, is_named,
    method_matches, s_constants, s_find, s_members, s_methods, s_skip, s_u16, skip_bytes,
    skip_constant, bytes_equal, spans_view,
};
use crate::util::class_data_parser::code_name;

pub use crate::util::class_attr_check::DataRange;

verus! {

/// Where each constant ends (the first entry is where the first constant
/// starts), where the fields, methods and attributes start, each method's
/// "Code" attribute as a range from its name index to its end ((0, 0) when it
/// has none), and the range of the class attribute looked for.
#[derive(Debug)]
pub struct SimpleClassInfo {
    pub consts: Vec<usize>,
    pub fields_start: usize,
    pub methods_start: usize,
    pub method_codes: Vec<(usize, usize)>,
    pub attributes_start: usize,
    pub specify_attribute: Option<DataRange>,
}

/// The start of the first constant, then the end of each.
pub open spec fn const_bounds(p: int, ends: Seq<int>) -> Seq<usize> {
    seq![p as usize] + ends.map_values(|e: int| e as usize)
}

/// For each method, the whole range of its last attribute named by the key,
/// or (0, 0).
pub open spec fn last_spans(all: Seq<Seq<AttrSpan>>) -> Seq<(usize, usize)> {
    all.map_values(
        |ms: Seq<AttrSpan>|
            if ms.len() == 0 {
                (0usize, 0usize)
            } else {
                (ms.last().0, ms.last().2)
            },
    )
}

/// What the scan finds: the constant bounds, the section starts, each
/// method's "Code" range, and the class attribute named `name`; nothing when
/// `name` is looked for and no constant holds it.
#[verifier::opaque]
pub open spec fn scan_class_codes(d: Seq<u8>, name: Seq<u8>, not_check: bool) -> core::result::Result<
    Option<(Seq<usize>, int, int, Seq<(usize, usize)>, int, Option<(int, int)>)>,
    ErrorKind,
> {
    match s_u16(d, 8) {
        Ok((cnt, p)) => {
            let n: nat = if cnt == 0 {
                0
            } else {
                (cnt - 1) as nat
            };
            match s_constants(d, p, n) {
                Ok(ends) => {
                    let cend = const_start(p, ends, n as int);
                    let key = if not_check {
                        0
                    } else {
                        first_named(d, p, ends, name, n)
                    };
                    let code = first_named(d, p, ends, code_name(), n);
                    if !not_check && key == 0 {
                        Ok(None)
                    } else {
                        match s_skip(d, cend, 6) {
                            Ok(i1) => match s_u16(d, i1) {
                                Ok((ni, i2)) => match s_skip(d, i2, 2 * ni) {
                                    Ok(fs) => match s_members(d, fs) {
                                        Ok(ms) => match s_u16(d, ms) {
                                            Ok((m, q)) => match s_methods(d, q, m as nat, code) {
                                                Ok((all, ats)) => match s_u16(d, ats) {
                                                    Ok((na, i3)) => match s_find(
                                                        d,
                                                        i3,
                                                        na as nat,
                                                        key,
                                                    ) {
                                                        Ok((found, _)) => Ok(
                                                            Some(
                                                                (
                                                                    const_bounds(p, ends),
                                                                    fs,
                                                                    ms,
                                                                    last_spans(all),
                                                                    ats,
                                                                    found,
                                                                ),
                                                            ),
                                                        ),
                                                        Err(e) => Err(e),
                                                    },
                                                    Err(e) => Err(e),
                                                },
                                                Err(e) => Err(e),
                                            },
                                            Err(e) => Err(e),
                                        },
                                        Err(e) => Err(e),
                                    },
                                    Err(e) => Err(e),
                                },
                                Err(e) => Err(e),
                            },
                            Err(e) => Err(e),
                        }
                    }
                },
                Err(e) => Err(e),
            }
        },
        Err(e) => Err(e),
    }
}

/// The per-method "Code" ranges a successful scan records.
pub open spec fn scanned_codes(d: Seq<u8>, name: Seq<u8>, not_check: bool) -> Seq<(usize, usize)> {
    scan_class_codes(d, name, not_check)->Ok_0->Some_0.3
}

/// Moves `*index` past a counted list of fields or methods.
pub fn handle_field_or_method(data: &[u8], index: &mut usize) -> (r: Result<()>)
    ensures
        match s_members(data@, *old(index) as int) {
            Ok(j) => r is Ok && *final(index) == j,
            Err(e) => r is Err && r->Err_0.kind == e,
        },
{
    crate::util::class_attr_check::handle_field_or_method(data, index)
}

/// Scans the constants from `*index`: their bounds, and the pool indices of
/// the first text `name` (0 unless `check`) and of the first text "Code".
fn scan_constants_two(data: &[u8], index: &mut usize, n: u16, name: &[u8], check: bool, code: &[u8]) -> (r: Result<(Vec<usize>, u16, u16)>)
    requires
        code@ == code_name(),
    ensures
        ({
            let p = *old(index) as int;
            match s_constants(data@, p, n as nat) {
                Ok(ends) => r is Ok && *final(index) == const_start(p, ends, n as int) && r->Ok_0.0@
                    == const_bounds(p, ends) && r->Ok_0.1 == (if check {
                    first_named(data@, p, ends, name@, n as nat)
                } else {
                    0
                }) && r->Ok_0.2 == first_named(data@, p, ends, code_name(), n as nat),
                Err(e) => r is Err && r->Err_0.kind == e,
            }
        }),
{
    let ghost d = data@;
    let ghost p = *index as int;
    let ghost mut ends: Seq<int> = Seq::empty();
    let mut key: u16 = 0;
    let mut code_key: u16 = 0;
    let mut bounds: Vec<usize> = Vec::new();
    bounds.push(*index);
    assert(bounds@ =~= const_bounds(p, ends));
    let mut i: u16 = 0;
    while i < n
        invariant
            d == data@,
            p == *old(index) as int,
            code@ == code_name(),
            i <= n,
            s_constants(d, p, i as nat) == Ok::<Seq<int>, ErrorKind>(ends),
            ends.len() == i,
            *index as int == const_start(p, ends, i as int),
            key == if check {
                first_named(d, p, ends, name@, i as nat)
            } else {
                0
            },
            code_key == first_named(d, p, ends, code_name(), i as nat),
            key <= i,
            code_key <= i,
            bounds@ == const_bounds(p, ends),
        decreases n - i,
    {
        let start = *index;
        let tag = match skip_constant(data, index) {
            Ok(t) => t,
            Err(e) => {
                proof {
                    lemma_s_constants_err(d, p, (i + 1) as nat, n as nat);
                }
                return Err(e);
            },
        };
        let ghost prev = ends;
        proof {
            ends = ends.push(*index as int);
            assert(ends.drop_last() =~= prev);
            assert(const_start(p, ends, i as int) == start as int);
            lemma_first_named_prefix(d, p, prev, ends, name@, i as nat);
            lemma_first_named_prefix(d, p, prev, ends, code_name(), i as nat);
        }
        let ghost named = is_named(d, start as int, *index as int, name@);
        let ghost coded = is_named(d, start as int, *index as int, code_name());
        let text = tag == CONSTANT_UTF8 && *index - start >= 3;
        if check && key == 0 && text && *index - start - 3 == name.len() && bytes_equal(
            data,
            start + 3,
            name,
        ) {
            key = i + 1;
        }
        if code_key == 0 && text && *index - start - 3 == code.len() && bytes_equal(
            data,
            start + 3,
            code,
        ) {
            code_key = i + 1;
        }
        bounds.push(*index);
        proof {
            assert(bounds@ =~= const_bounds(p, ends));
            assert(first_named(d, p, ends, name@, (i + 1) as nat) == if first_named(
                d,
                p,
                ends,
                name@,
                i as nat,
            ) != 0 {
                first_named(d, p, ends, name@, i as nat)
            } else if named {
                i + 1
            } else {
                0
            });
            assert(first_named(d, p, ends, code_name(), (i + 1) as nat) == if first_named(
                d,
                p,
                ends,
                code_name(),
                i as nat,
            ) != 0 {
                first_named(d, p, ends, code_name(), i as nat)
            } else if coded {
                i + 1
            } else {
                0
            });
        }
        i = i + 1;
    }
    Ok((bounds, key, code_key))
}

/// Each method's last matched attribute as a range from its start to its end,
/// or (0, 0).
fn last_ranges(all: &Vec<Vec<AttrSpan>>) -> (r: Vec<(usize, usize)>)
    ensures
        r@ == last_spans(spans_view(all@)),
{
    let mut out: Vec<(usize, usize)> = Vec::with_capacity(all.len());
    let mut i: usize = 0;
    while i < all.len()
        invariant
            i <= all@.len(),
            out@ == last_spans(spans_view(all@)).take(i as int),
        decreases all@.len() - i,
    {
        let spans = &all[i];
        if spans.len() == 0 {
            out.push((0, 0));
        } else {
            let (a, _, b) = spans[spans.len() - 1];
            out.push((a, b));
        }
        proof {
            assert(spans_view(all@)[i as int] == spans@);
        }
        i = i + 1;
        assert(out@ =~= last_spans(spans_view(all@)).take(i as int));
    }
    assert(last_spans(spans_view(all@)).take(all@.len() as int) =~= last_spans(spans_view(all@)));
    out
}

/// The fast scan of a whole class file that also records every constant's
/// bounds and each method's "Code" attribute range, besides the class
/// attribute named `attribute_name` (not looked for with `not_check_attr`).
/// Every read is bounds-checked: one past the end fails as `IndexOutOfRange`.
pub fn fast_scan_class(data: &[u8], attribute_name: &[u8], not_check_attr: bool) -> (r: Result<
    Option<SimpleClassInfo>,
>)
    ensures
        match scan_class_codes(data@, attribute_name@, not_check_attr) {
            Ok(None) => r is Ok && r->Ok_0 is None,
            Ok(Some((consts, fs, ms, codes, ats, found))) => r is Ok && r->Ok_0 is Some && {
                let info = r->Ok_0->Some_0;
                &&& info.consts@ == consts
                &&& info.fields_start == fs
                &&& info.methods_start == ms
                &&& info.method_codes@ == codes
                &&& info.attributes_start == ats
                &&& match found {
                    Some((a, b)) => info.specify_attribute == Some(
                        DataRange { start: a as usize, end: b as usize },
                    ),
                    None => info.specify_attribute is None,
                }
            },
            Err(e) => r is Err && r->Err_0.kind == e,
        },
{
    proof {
        reveal(scan_class_codes);
    }
    let code: Vec<u8> = vec![0x43u8, 0x6f, 0x64, 0x65];
    assert(code@ =~= code_name());
    let mut index: usize = 8;
    let cnt = get_u16_from_data(data, &mut index)?;
    let n: u16 = if cnt == 0 {
        0
    } else {
        cnt - 1
    };
    let (consts, key, code_key) = scan_constants_two(
        data,
        &mut index,
        n,
        attribute_name,
        !not_check_attr,
        code.as_slice(),
    )?;
    if !not_check_attr && key == 0 {
        return Ok(None);
    }
    skip_bytes(data, &mut index, 6)?;
    let ni = get_u16_from_data(data, &mut index)?;
    skip_bytes(data, &mut index, 2 * ni as usize)?;
    let fields_start = index;
    handle_field_or_method(data, &mut index)?;
    let methods_start = index;
    let all = method_matches(data, &mut index, code_key)?;
    let method_codes = last_ranges(&all);
    let attributes_start = index;
    let na = get_u16_from_data(data, &mut index)?;
    let specify_attribute = find_attribute(data, &mut index, na, key)?;
    Ok(
        Some(
            SimpleClassInfo {
                consts,
                fields_start,
                methods_start,
                method_codes,
                attributes_start,
                specify_attribute,
            },
        ),
    )
}

/// When every step of the scan succeeds, so does the scan; it finds something
/// whenever the name is not looked for, and then records for each method the
/// last span of the method scan that follows the fields.
pub proof fn lemma_scan_steps(
    d: Seq<u8>,
    name: Seq<u8>,
    not_check: bool,
    cnt: u16,
    p: int,
    n: nat,
    ends: Seq<int>,
    q3: int,
    i2: int,
    ni: u16,
    q4: int,
    q5: int,
    m2: int,
    nm: u16,
    key: int,
)
    requires
        s_u16(d, 8) == Ok::<(u16, int), ErrorKind>((cnt, p)),
        n == if cnt == 0 {
            0
        } else {
            (cnt - 1) as nat
        },
        s_constants(d, p, n) == Ok::<Seq<int>, ErrorKind>(ends),
        const_start(p, ends, n as int) == q3,
        q3 + 6 <= d.len(),
        0 <= q3,
        s_u16(d, q3 + 6) == Ok::<(u16, int), ErrorKind>((ni, i2)),
        q4 == i2 + 2 * ni,
        q4 <= d.len(),
        0 <= i2,
        s_members(d, q4) == Ok::<int, ErrorKind>(q5),
        s_u16(d, q5) == Ok::<(u16, int), ErrorKind>((nm, m2)),
        key == first_named(d, p, ends, code_name(), n),
        s_methods(d, m2, nm as nat, key) is Ok,
        s_u16(d, s_methods(d, m2, nm as nat, key)->Ok_0.1) is Ok,
        s_find(
            d,
            s_u16(d, s_methods(d, m2, nm as nat, key)->Ok_0.1)->Ok_0.1,
            s_u16(d, s_methods(d, m2, nm as nat, key)->Ok_0.1)->Ok_0.0 as nat,
            if not_check {
                0
            } else {
                first_named(d, p, ends, name, n)
            },
        ) is Ok,
    ensures
        scan_class_codes(d, name, not_check) is Ok,
        not_check ==> scan_class_codes(d, name, not_check)->Ok_0 is Some,
        scan_class_codes(d, name, not_check)->Ok_0 is Some ==> scanned_codes(d, name, not_check)
            == last_spans(s_methods(d, m2, nm as nat, key)->Ok_0.0),
{
    reveal(scan_class_codes);
    assert(s_skip(d, const_start(p, ends, n as int), 6) == Ok::<int, ErrorKind>(q3 + 6));
    assert(s_skip(d, i2, 2 * ni) == Ok::<int, ErrorKind>(q4));
}

} // verus!
