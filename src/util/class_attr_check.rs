//! The fast scanner's walk over a class file: one forward pass that skips
//! constants, fields, methods and attributes by their sizes alone, without
//! building any of them, and finds the constant-pool index of a named UTF-8
//! constant and the byte range of the class attribute with that name.
use vstd::prelude::*;
use crate::common::{ErrorKind, MessageError, Result};
use crate::constant_pool::{CONSTANT_UTF8, ConstantShape, constant_shape, shape_of};
use crate::wire::{p_u16, p_u32, p_u8};

verus! {

/// A half-open range of byte positions in a buffer.
#[derive(Debug, Clone, Copy, PartialEq, Eq, Structural)]
pub struct DataRange {
    pub start: usize,
    pub end: usize,
}

/// Where the sections of a class file start, and the range of the attribute
/// that was looked for, if it was found.
#[derive(Debug)]
pub struct SimpleClassInfo {
    pub constants_end: usize,
    pub fields_start: usize,
    pub methods_start: usize,
    pub attributes_start: usize,
    pub specify_attribute: Option<DataRange>,
}

/// A scan step: the position it stops at, or why it failed.
pub type SRes = core::result::Result<int, ErrorKind>;

/// A big-endian `u16` at `i`, or a read past the end.
pub open spec fn s_u16(d: Seq<u8>, i: int) -> core::result::Result<(u16, int), ErrorKind> {
    match p_u16(d, i) {
        Ok(x) => Ok(x),
        Err(_) => Err(ErrorKind::IndexOutOfRange),
    }
}

/// A big-endian `u32` at `i`, or a read past the end.
pub open spec fn s_u32(d: Seq<u8>, i: int) -> core::result::Result<(u32, int), ErrorKind> {
    match p_u32(d, i) {
        Ok(x) => Ok(x),
        Err(_) => Err(ErrorKind::IndexOutOfRange),
    }
}

/// Skipping `n` bytes from `i`, which must stay within the buffer.
pub open spec fn s_skip(d: Seq<u8>, i: int, n: int) -> SRes {
    if 0 <= i && 0 <= n && i + n <= d.len() {
        Ok(i + n)
    } else {
        Err(ErrorKind::IndexOutOfRange)
    }
}

/// The fixed number of payload bytes of a shape (text has none fixed).
pub open spec fn fixed_width(shape: ConstantShape) -> int {
    match shape {
        ConstantShape::OneIndex => 2,
        ConstantShape::TwoIndices => 4,
        ConstantShape::KindAndIndex => 3,
        ConstantShape::Four => 4,
        ConstantShape::Eight => 8,
        ConstantShape::Text => 0,
    }
}

/// Skipping one constant at `i`: its tag, then the payload its shape calls
/// for; a tag of no known shape stops the scan.
pub open spec fn s_constant(d: Seq<u8>, i: int) -> SRes {
    match p_u8(d, i) {
        Ok((tag, j)) => match shape_of(tag) {
            None => Err(ErrorKind::UnknownConstantTag(tag)),
            Some(ConstantShape::Text) => match s_u16(d, j) {
                Ok((n, k)) => s_skip(d, k, n as int),
                Err(e) => Err(e),
            },
            Some(shape) => s_skip(d, j, fixed_width(shape)),
        },
        Err(_) => Err(ErrorKind::IndexOutOfRange),
    }
}

/// `n` steps of `f` one after the other from `i`; the first failure ends the
/// run.
pub open spec fn s_many(d: Seq<u8>, i: int, n: nat, f: spec_fn(Seq<u8>, int) -> SRes) -> SRes
    decreases n,
{
    if n == 0 {
        Ok(i)
    } else {
        match s_many(d, i, (n - 1) as nat, f) {
            Ok(j) => f(d, j),
            Err(e) => Err(e),
        }
    }
}

/// A `u16` count, then that many steps of `f`.
pub open spec fn s_counted(d: Seq<u8>, i: int, f: spec_fn(Seq<u8>, int) -> SRes) -> SRes {
    match s_u16(d, i) {
        Ok((n, j)) => s_many(d, j, n as nat, f),
        Err(e) => Err(e),
    }
}

/// Skipping one attribute: the name index, then the `u32` length and that
/// many bytes.
pub open spec fn s_attribute(d: Seq<u8>, i: int) -> SRes {
    match s_skip(d, i, 2) {
        Ok(j) => match s_u32(d, j) {
            Ok((n, k)) => s_skip(d, k, n as int),
            Err(e) => Err(e),
        },
        Err(e) => Err(e),
    }
}

pub open spec fn s_attribute_fn() -> spec_fn(Seq<u8>, int) -> SRes {
    |d: Seq<u8>, i: int| s_attribute(d, i)
}

/// Skipping a field or method: six bytes of flags and indices, then its
/// counted attributes.
pub open spec fn s_member(d: Seq<u8>, i: int) -> SRes {
    match s_skip(d, i, 6) {
        Ok(j) => s_counted(d, j, s_attribute_fn()),
        Err(e) => Err(e),
    }
}

pub open spec fn s_member_fn() -> spec_fn(Seq<u8>, int) -> SRes {
    |d: Seq<u8>, i: int| s_member(d, i)
}

/// Skipping a counted list of fields or methods.
pub open spec fn s_members(d: Seq<u8>, i: int) -> SRes {
    s_counted(d, i, s_member_fn())
}

/// Fails as a read past the end, naming what was being read.
fn past_end<T>(name: &str) -> (r: Result<T>)
    ensures
        r is Err && r->Err_0.kind == ErrorKind::IndexOutOfRange,
{
    Err(MessageError::with_kind(ErrorKind::IndexOutOfRange, name))
}

/// A big-endian `u16` at `*index`, moving past it.
pub fn get_u16_from_data(data: &[u8], index: &mut usize) -> (r: Result<u16>)
    ensures
        match s_u16(data@, *old(index) as int) {
            Ok((v, j)) => r is Ok && r->Ok_0 == v && *final(index) == j,
            Err(e) => r is Err && r->Err_0.kind == e,
        },
{
    let i = *index;
    if i > data.len() || data.len() - i < 2 {
        return past_end("u16");
    }
    *index = i + 2;
    Ok(data[i] as u16 * 0x100 + data[i + 1] as u16)
}

/// A big-endian `u32` at `*index`, moving past it.
pub fn get_u32_from_data(data: &[u8], index: &mut usize) -> (r: Result<u32>)
    ensures
        match s_u32(data@, *old(index) as int) {
            Ok((v, j)) => r is Ok && r->Ok_0 == v && *final(index) == j,
            Err(e) => r is Err && r->Err_0.kind == e,
        },
{
    let i = *index;
    if i > data.len() || data.len() - i < 4 {
        return past_end("u32");
    }
    *index = i + 4;
    Ok(
        data[i] as u32 * 0x100_0000 + data[i + 1] as u32 * 0x1_0000 + data[i + 2] as u32 * 0x100
            + data[i + 3] as u32,
    )
}

/// Moves `*index` past `n` bytes, which must lie within the buffer.
pub fn skip_bytes(data: &[u8], index: &mut usize, n: usize) -> (r: Result<()>)
    ensures
        match s_skip(data@, *old(index) as int, n as int) {
            Ok(j) => r is Ok && *final(index) == j,
            Err(e) => r is Err && r->Err_0.kind == e,
        },
{
    let i = *index;
    if i > data.len() || data.len() - i < n {
        return past_end("skipped bytes");
    }
    *index = i + n;
    Ok(())
}

/// The payload width of a shape with a fixed width.
fn shape_width(shape: ConstantShape) -> (r: usize)
    ensures
        r == fixed_width(shape),
{
    match shape {
        ConstantShape::OneIndex => 2,
        ConstantShape::TwoIndices => 4,
        ConstantShape::KindAndIndex => 3,
        ConstantShape::Four => 4,
        ConstantShape::Eight => 8,
        ConstantShape::Text => 0,
    }
}

/// Moves `*index` past one constant, returning its tag.
pub fn skip_constant(data: &[u8], index: &mut usize) -> (r: Result<u8>)
    ensures
        match s_constant(data@, *old(index) as int) {
            Ok(j) => r is Ok && *final(index) == j && r->Ok_0 == data@[*old(index) as int],
            Err(e) => r is Err && r->Err_0.kind == e,
        },
{
    let i = *index;
    if i >= data.len() {
        return past_end("constant tag");
    }
    let tag = data[i];
    *index = i + 1;
    match constant_shape(tag) {
        None => Err(MessageError::with_kind(ErrorKind::UnknownConstantTag(tag), "constant tag")),
        Some(ConstantShape::Text) => {
            let n = get_u16_from_data(data, index)?;
            skip_bytes(data, index, n as usize)?;
            Ok(tag)
        },
        Some(shape) => {
            skip_bytes(data, index, shape_width(shape))?;
            Ok(tag)
        },
    }
}

/// Moves `*index` past one attribute.
fn skip_attribute(data: &[u8], index: &mut usize) -> (r: Result<()>)
    ensures
        match s_attribute(data@, *old(index) as int) {
            Ok(j) => r is Ok && *final(index) == j,
            Err(e) => r is Err && r->Err_0.kind == e,
        },
{
    skip_bytes(data, index, 2)?;
    let n = get_u32_from_data(data, index)?;
    skip_bytes(data, index, n as usize)
}

/// Moves `*index` past a counted list of attributes.
pub fn handle_attributes(data: &[u8], index: &mut usize) -> (r: Result<()>)
    ensures
        match s_counted(data@, *old(index) as int, s_attribute_fn()) {
            Ok(j) => r is Ok && *final(index) == j,
            Err(e) => r is Err && r->Err_0.kind == e,
        },
{
    let n = get_u16_from_data(data, index)?;
    let ghost start = *index as int;
    let mut i: u16 = 0;
    while i < n
        invariant
            i <= n,
            s_counted(data@, *old(index) as int, s_attribute_fn()) == s_many(data@, start, n as nat, s_attribute_fn()),
            s_many(data@, start, i as nat, s_attribute_fn()) == Ok::<int, ErrorKind>(*index as int),
        decreases n - i,
    {
        match skip_attribute(data, index) {
            Ok(()) => {},
            Err(e) => {
                proof {
                    lemma_s_many_err(data@, start, (i + 1) as nat, n as nat, s_attribute_fn());
                }
                return Err(e);
            },
        }
        i = i + 1;
    }
    Ok(())
}

/// Moves `*index` past a counted list of fields or methods.
pub fn handle_field_or_method(data: &[u8], index: &mut usize) -> (r: Result<()>)
    ensures
        match s_members(data@, *old(index) as int) {
            Ok(j) => r is Ok && *final(index) == j,
            Err(e) => r is Err && r->Err_0.kind == e,
        },
{
    let n = get_u16_from_data(data, index)?;
    let ghost start = *index as int;
    let mut i: u16 = 0;
    while i < n
        invariant
            i <= n,
            s_members(data@, *old(index) as int) == s_many(data@, start, n as nat, s_member_fn()),
            s_many(data@, start, i as nat, s_member_fn()) == Ok::<int, ErrorKind>(*index as int),
        decreases n - i,
    {
        let step = match skip_bytes(data, index, 6) {
            Ok(()) => handle_attributes(data, index),
            Err(e) => Err(e),
        };
        match step {
            Ok(()) => {},
            Err(e) => {
                proof {
                    lemma_s_many_err(data@, start, (i + 1) as nat, n as nat, s_member_fn());
                }
                return Err(e);
            },
        }
        i = i + 1;
    }
    Ok(())
}

/// Once a run of scan steps fails, running more fails the same way.
pub proof fn lemma_s_many_err(d: Seq<u8>, i: int, m: nat, n: nat, f: spec_fn(Seq<u8>, int) -> SRes)
    requires
        m <= n,
        s_many(d, i, m, f) is Err,
    ensures
        s_many(d, i, n, f) == s_many(d, i, m, f),
    decreases n,
{
    if n > m {
        lemma_s_many_err(d, i, m, (n - 1) as nat, f);
    }
}


/// Where the constant at 0-based position `i` starts, given the end positions
/// of those before it and where the first one starts.
pub open spec fn const_start(p: int, ends: Seq<int>, i: int) -> int {
    if i == 0 {
        p
    } else {
        ends[i - 1]
    }
}

/// Scanning `n` constants from `p`: the end position of each.
pub open spec fn s_constants(d: Seq<u8>, p: int, n: nat) -> core::result::Result<Seq<int>, ErrorKind>
    decreases n,
{
    if n == 0 {
        Ok(Seq::empty())
    } else {
        match s_constants(d, p, (n - 1) as nat) {
            Ok(ends) => match s_constant(d, const_start(p, ends, n - 1)) {
                Ok(e) => Ok(ends.push(e)),
                Err(x) => Err(x),
            },
            Err(x) => Err(x),
        }
    }
}

/// The constant spanning `s..e` is UTF-8 text whose bytes are `name`.
pub open spec fn is_named(d: Seq<u8>, s: int, e: int, name: Seq<u8>) -> bool {
    &&& d[s] == CONSTANT_UTF8
    &&& e - s - 3 == name.len()
    &&& d.subrange(s + 3, e) == name
}

/// The 1-based index of the first of the first `m` constants that is the
/// text `name`, or 0 when none is.
pub open spec fn first_named(d: Seq<u8>, p: int, ends: Seq<int>, name: Seq<u8>, m: nat) -> int
    decreases m,
{
    if m == 0 {
        0
    } else {
        let f = first_named(d, p, ends, name, (m - 1) as nat);
        if f != 0 {
            f
        } else if is_named(d, const_start(p, ends, m - 1), ends[m - 1], name) {
            m as int
        } else {
            0
        }
    }
}

/// Scanning `n` attributes from `i` for the first whose name index is `key`:
/// its payload range, if found, and where the scan stopped (right after it).
pub open spec fn s_find(d: Seq<u8>, i: int, n: nat, key: int) -> core::result::Result<
    (Option<(int, int)>, int),
    ErrorKind,
>
    decreases n,
{
    if n == 0 {
        Ok((None, i))
    } else {
        match s_find(d, i, (n - 1) as nat, key) {
            Ok((Some(r), j)) => Ok((Some(r), j)),
            Ok((None, j)) => match s_u16(d, j) {
                Ok((name, j1)) => match s_u32(d, j1) {
                    Ok((len, j2)) => match s_skip(d, j2, len as int) {
                        Ok(j3) => Ok((
                            if name as int == key {
                                Some((j2, j3))
                            } else {
                                None
                            },
                            j3,
                        )),
                        Err(e) => Err(e),
                    },
                    Err(e) => Err(e),
                },
                Err(e) => Err(e),
            },
            Err(e) => Err(e),
        }
    }
}

/// What a fast scan of a whole class file finds: where the constants end,
/// where the fields, methods and attributes start, and the range of the class
/// attribute named `name`; nothing when `name` is looked for and no constant
/// holds it. With `not_check` the name is not looked for and the attribute
/// sought is the one with name index 0.
pub open spec fn scan_class(d: Seq<u8>, name: Seq<u8>, not_check: bool) -> core::result::Result<
    Option<(int, int, int, int, Option<(int, int)>)>,
    ErrorKind,
> {
    match s_u16(d, 8) {
        Ok((cnt, p)) => {
            let n: nat = if cnt == 0 {
                0
            } else {
                (cnt - 1) as nat
            };
            match s_constants(d, p, n) {
                Ok(ends) => {
                    let cend = const_start(p, ends, n as int);
                    let key = if not_check {
                        0
                    } else {
                        first_named(d, p, ends, name, n)
                    };
                    if !not_check && key == 0 {
                        Ok(None)
                    } else {
                        match s_skip(d, cend, 6) {
                            Ok(i1) => match s_u16(d, i1) {
                                Ok((ni, i2)) => match s_skip(d, i2, 2 * ni) {
                                    Ok(fs) => match s_members(d, fs) {
                                        Ok(ms) => match s_members(d, ms) {
                                            Ok(ats) => match s_u16(d, ats) {
                                                Ok((na, i3)) => match s_find(d, i3, na as nat, key) {
                                                    Ok((found, _)) => Ok(
                                                        Some((cend, fs, ms, ats, found)),
                                                    ),
                                                    Err(e) => Err(e),
                                                },
                                                Err(e) => Err(e),
                                            },
                                            Err(e) => Err(e),
                                        },
                                        Err(e) => Err(e),
                                    },
                                    Err(e) => Err(e),
                                },
                                Err(e) => Err(e),
                            },
                            Err(e) => Err(e),
                        }
                    }
                },
                Err(e) => Err(e),
            }
        },
        Err(e) => Err(e),
    }
}

/// Whether the bytes of `data` from `at` are those of `name`.
pub fn bytes_equal(data: &[u8], at: usize, name: &[u8]) -> (r: bool)
    requires
        at + name@.len() <= data@.len(),
    ensures
        r == (data@.subrange(at as int, at + name@.len()) == name@),
{
    let mut i: usize = 0;
    while i < name.len()
        invariant
            at + name@.len() <= data.len(),
            i <= name@.len(),
            data@.subrange(at as int, at + i) == name@.subrange(0, i as int),
        decreases name@.len() - i,
    {
        if data[at + i] != name[i] {
            assert(data@.subrange(at as int, at + name@.len())[i as int] != name@[i as int]);
            return false;
        }
        i = i + 1;
        assert(data@.subrange(at as int, at + i) =~= name@.subrange(0, i as int));
    }
    assert(name@.subrange(0, name@.len() as int) =~= name@);
    true
}

/// Scans the constants of a class file from `*index`, moving past them, and
/// returns the 1-based index of the first that is the text `name` (0 when none
/// is, or when `check` is off).
pub fn scan_constants(data: &[u8], index: &mut usize, count: u16, name: &[u8], check: bool) -> (r: Result<u16>)
    ensures
        match s_constants(data@, *old(index) as int, count as nat) {
            Ok(ends) => r is Ok && *final(index) == const_start(*old(index) as int, ends, count as int)
                && r->Ok_0 == if check {
                first_named(data@, *old(index) as int, ends, name@, count as nat)
            } else {
                0
            },
            Err(e) => r is Err && r->Err_0.kind == e,
        },
{
    let ghost d = data@;
    let ghost p = *index as int;
    let ghost mut ends: Seq<int> = Seq::empty();
    let mut key: u16 = 0;
    let mut i: u16 = 0;
    while i < count
        invariant
            d == data@,
            p == *old(index) as int,
            i <= count,
            s_constants(d, p, i as nat) == Ok::<Seq<int>, ErrorKind>(ends),
            ends.len() == i,
            *index as int == const_start(p, ends, i as int),
            key == if check {
                first_named(d, p, ends, name@, i as nat)
            } else {
                0
            },
            key <= i,
        decreases count - i,
    {
        let start = *index;
        let tag = match skip_constant(data, index) {
            Ok(t) => t,
            Err(e) => {
                proof {
                    lemma_s_constants_err(d, p, (i + 1) as nat, count as nat);
                }
                return Err(e);
            },
        };
        let ghost prev = ends;
        proof {
            ends = ends.push(*index as int);
            assert(ends.drop_last() =~= prev);
            assert(ends[i as int] == *index as int);
            assert(const_start(p, ends, i as int) == start as int);
        }
        let ghost named = is_named(d, start as int, *index as int, name@);
        if check && key == 0 && tag == CONSTANT_UTF8 && *index - start >= 3 && *index - start - 3
            == name.len() && bytes_equal(data, start + 3, name) {
            key = i + 1;
        }
        proof {
            assert(first_named(d, p, ends, name@, i as nat) == first_named(d, p, prev, name@, i as nat)) by {
                lemma_first_named_prefix(d, p, prev, ends, name@, i as nat);
            }
            assert(first_named(d, p, ends, name@, (i + 1) as nat) == if first_named(d, p, ends, name@, i as nat) != 0 {
                first_named(d, p, ends, name@, i as nat)
            } else if named {
                i + 1
            } else {
                0
            });
        }
        i = i + 1;
    }
    Ok(key)
}

/// Naming in a prefix of the constants does not depend on those after it.
pub proof fn lemma_first_named_prefix(d: Seq<u8>, p: int, a: Seq<int>, b: Seq<int>, name: Seq<u8>, m: nat)
    requires
        m <= a.len() <= b.len(),
        forall|j: int| 0 <= j < a.len() ==> a[j] == b[j],
    ensures
        first_named(d, p, a, name, m) == first_named(d, p, b, name, m),
    decreases m,
{
    if m > 0 {
        lemma_first_named_prefix(d, p, a, b, name, (m - 1) as nat);
    }
}

/// Once scanning constants fails, scanning more fails the same way.
pub proof fn lemma_s_constants_err(d: Seq<u8>, p: int, m: nat, n: nat)
    requires
        m <= n,
        s_constants(d, p, m) is Err,
    ensures
        s_constants(d, p, n) == s_constants(d, p, m),
    decreases n,
{
    if n > m {
        lemma_s_constants_err(d, p, m, (n - 1) as nat);
    }
}


/// Scans `n` attributes from `*index` for the first whose name index is `key`,
/// stopping right after it; returns its payload range.
pub fn find_attribute(data: &[u8], index: &mut usize, n: u16, key: u16) -> (r: Result<Option<DataRange>>)
    ensures
        match s_find(data@, *old(index) as int, n as nat, key as int) {
            Ok((found, j)) => r is Ok && *final(index) == j && match found {
                Some((a, b)) => r->Ok_0 == Some(DataRange { start: a as usize, end: b as usize }),
                None => r->Ok_0 is None,
            },
            Err(e) => r is Err && r->Err_0.kind == e,
        },
{
    let ghost d = data@;
    let ghost p = *index as int;
    let mut i: u16 = 0;
    while i < n
        invariant
            d == data@,
            p == *old(index) as int,
            i <= n,
            s_find(d, p, i as nat, key as int) == Ok::<(Option<(int, int)>, int), ErrorKind>((None, *index as int)),
        decreases n - i,
    {
        let name = match get_u16_from_data(data, index) {
            Ok(v) => v,
            Err(e) => {
                proof {
                    lemma_s_find_err(d, p, (i + 1) as nat, n as nat, key as int);
                }
                return Err(e);
            },
        };
        let len = match get_u32_from_data(data, index) {
            Ok(v) => v,
            Err(e) => {
                proof {
                    lemma_s_find_err(d, p, (i + 1) as nat, n as nat, key as int);
                }
                return Err(e);
            },
        };
        let start = *index;
        match skip_bytes(data, index, len as usize) {
            Ok(()) => {},
            Err(e) => {
                proof {
                    lemma_s_find_err(d, p, (i + 1) as nat, n as nat, key as int);
                }
                return Err(e);
            },
        }
        if name == key {
            proof {
                lemma_s_find_found(d, p, (i + 1) as nat, n as nat, key as int);
            }
            return Ok(Some(DataRange { start, end: *index }));
        }
        i = i + 1;
    }
    Ok(None)
}

proof fn lemma_s_find_err(d: Seq<u8>, p: int, m: nat, n: nat, key: int)
    requires
        m <= n,
        s_find(d, p, m, key) is Err,
    ensures
        s_find(d, p, n, key) == s_find(d, p, m, key),
    decreases n,
{
    if n > m {
        lemma_s_find_err(d, p, m, (n - 1) as nat, key);
    }
}

proof fn lemma_s_find_found(d: Seq<u8>, p: int, m: nat, n: nat, key: int)
    requires
        m <= n,
        s_find(d, p, m, key) is Ok,
        s_find(d, p, m, key)->Ok_0.0 is Some,
    ensures
        s_find(d, p, n, key) == s_find(d, p, m, key),
    decreases n,
{
    if n > m {
        lemma_s_find_found(d, p, m, (n - 1) as nat, key);
    }
}

/// The fast scan of a whole class file: skips the header, scans the constants
/// for the text `attribute_name` (unless `not_check_attr`), then skips the
/// interfaces, fields and methods and looks for the class attribute with that
/// name. Nothing is found when the name is looked for and no constant holds
/// it. Every read is bounds-checked: one past the end fails as
/// `IndexOutOfRange`.
pub fn fast_scan_class(data: &[u8], attribute_name: &[u8], not_check_attr: bool) -> (r: Result<
    Option<SimpleClassInfo>,
>)
    ensures
        match scan_class(data@, attribute_name@, not_check_attr) {
            Ok(None) => r is Ok && r->Ok_0 is None,
            Ok(Some((cend, fs, ms, ats, found))) => r is Ok && r->Ok_0 is Some && {
                let info = r->Ok_0->Some_0;
                &&& info.constants_end == cend
                &&& info.fields_start == fs
                &&& info.methods_start == ms
                &&& info.attributes_start == ats
                &&& match found {
                    Some((a, b)) => info.specify_attribute == Some(
                        DataRange { start: a as usize, end: b as usize },
                    ),
                    None => info.specify_attribute is None,
                }
            },
            Err(e) => r is Err && r->Err_0.kind == e,
        },
{
    let mut index: usize = 8;
    let cnt = get_u16_from_data(data, &mut index)?;
    let n: u16 = if cnt == 0 {
        0
    } else {
        cnt - 1
    };
    let key = scan_constants(data, &mut index, n, attribute_name, !not_check_attr)?;
    if !not_check_attr && key == 0 {
        return Ok(None);
    }
    let constants_end = index;
    skip_bytes(data, &mut index, 6)?;
    let ni = get_u16_from_data(data, &mut index)?;
    skip_bytes(data, &mut index, 2 * ni as usize)?;
    let fields_start = index;
    handle_field_or_method(data, &mut index)?;
    let methods_start = index;
    handle_field_or_method(data, &mut index)?;
    let attributes_start = index;
    let na = get_u16_from_data(data, &mut index)?;
    let specify_attribute = find_attribute(data, &mut index, na, key)?;
    Ok(
        Some(
            SimpleClassInfo {
                constants_end,
                fields_start,
                methods_start,
                attributes_start,
                specify_attribute,
            },
        ),
    )
}


/// A matched attribute: where it starts, where its payload starts, and where
/// it ends.
pub type AttrSpan = (usize, usize, usize);

/// Scanning `n` attributes from `i`: the spans of those whose name index is
/// `key`, in order, and where the scan stopped.
pub open spec fn s_matches(d: Seq<u8>, i: int, n: nat, key: int) -> core::result::Result<
    (Seq<AttrSpan>, int),
    ErrorKind,
>
    decreases n,
{
    if n == 0 {
        Ok((Seq::empty(), i))
    } else {
        match s_matches(d, i, (n - 1) as nat, key) {
            Ok((ms, j)) => match s_u16(d, j) {
                Ok((name, j1)) => match s_u32(d, j1) {
                    Ok((len, j2)) => match s_skip(d, j2, len as int) {
                        Ok(j3) => Ok((
                            if name as int == key {
                                ms.push((j as usize, j2 as usize, j3 as usize))
                            } else {
                                ms
                            },
                            j3,
                        )),
                        Err(e) => Err(e),
                    },
                    Err(e) => Err(e),
                },
                Err(e) => Err(e),
            },
            Err(e) => Err(e),
        }
    }
}

/// Scanning one method record from `i`: the spans of its attributes named by
/// `key`, and where the record ends.
pub open spec fn s_method(d: Seq<u8>, i: int, key: int) -> core::result::Result<
    (Seq<AttrSpan>, int),
    ErrorKind,
> {
    match s_skip(d, i, 6) {
        Ok(j) => match s_u16(d, j) {
            Ok((n, k)) => s_matches(d, k, n as nat, key),
            Err(e) => Err(e),
        },
        Err(e) => Err(e),
    }
}

/// Scanning `m` method records from `i`: for each, the spans of its
/// attributes named by `key`; and where the last record ends.
pub open spec fn s_methods(d: Seq<u8>, i: int, m: nat, key: int) -> core::result::Result<
    (Seq<Seq<AttrSpan>>, int),
    ErrorKind,
>
    decreases m,
{
    if m == 0 {
        Ok((Seq::empty(), i))
    } else {
        match s_methods(d, i, (m - 1) as nat, key) {
            Ok((all, j)) => match s_method(d, j, key) {
                Ok((ms, k)) => Ok((all.push(ms), k)),
                Err(e) => Err(e),
            },
            Err(e) => Err(e),
        }
    }
}

/// The per-method span lists, as sequences.
pub open spec fn spans_view(v: Seq<Vec<AttrSpan>>) -> Seq<Seq<AttrSpan>> {
    v.map_values(|x: Vec<AttrSpan>| x@)
}

/// Scans `n` attributes from `*index`, moving past them, and returns the spans
/// of those whose name index is `key`.
pub fn attribute_matches(data: &[u8], index: &mut usize, n: u16, key: u16) -> (r: Result<Vec<AttrSpan>>)
    ensures
        match s_matches(data@, *old(index) as int, n as nat, key as int) {
            Ok((ms, j)) => r is Ok && r->Ok_0@ == ms && *final(index) == j,
            Err(e) => r is Err && r->Err_0.kind == e,
        },
{
    let ghost d = data@;
    let ghost p = *index as int;
    let mut out: Vec<AttrSpan> = Vec::new();
    let mut i: u16 = 0;
    while i < n
        invariant
            d == data@,
            p == *old(index) as int,
            i <= n,
            s_matches(d, p, i as nat, key as int) == Ok::<(Seq<AttrSpan>, int), ErrorKind>((out@, *index as int)),
        decreases n - i,
    {
        let start = *index;
        let step = match get_u16_from_data(data, index) {
            Ok(name) => match get_u32_from_data(data, index) {
                Ok(len) => {
                    let payload = *index;
                    match skip_bytes(data, index, len as usize) {
                        Ok(()) => Ok((name, payload)),
                        Err(e) => Err(e),
                    }
                },
                Err(e) => Err(e),
            },
            Err(e) => Err(e),
        };
        match step {
            Ok((name, payload)) => {
                if name == key {
                    out.push((start, payload, *index));
                }
            },
            Err(e) => {
                proof {
                    lemma_s_matches_err(d, p, (i + 1) as nat, n as nat, key as int);
                }
                return Err(e);
            },
        }
        i = i + 1;
    }
    Ok(out)
}

proof fn lemma_s_matches_err(d: Seq<u8>, p: int, m: nat, n: nat, key: int)
    requires
        m <= n,
        s_matches(d, p, m, key) is Err,
    ensures
        s_matches(d, p, n, key) == s_matches(d, p, m, key),
    decreases n,
{
    if n > m {
        lemma_s_matches_err(d, p, m, (n - 1) as nat, key);
    }
}

proof fn lemma_s_methods_err(d: Seq<u8>, p: int, m: nat, n: nat, key: int)
    requires
        m <= n,
        s_methods(d, p, m, key) is Err,
    ensures
        s_methods(d, p, n, key) == s_methods(d, p, m, key),
    decreases n,
{
    if n > m {
        lemma_s_methods_err(d, p, m, (n - 1) as nat, key);
    }
}

/// Scans a counted list of method records from `*index`, moving past it, and
/// returns for each method the spans of its attributes whose name index is
/// `key`.
pub fn method_matches(data: &[u8], index: &mut usize, key: u16) -> (r: Result<Vec<Vec<AttrSpan>>>)
    ensures
        match s_u16(data@, *old(index) as int) {
            Ok((m, q)) => match s_methods(data@, q, m as nat, key as int) {
                Ok((all, j)) => r is Ok && spans_view(r->Ok_0@) == all && *final(index) == j,
                Err(e) => r is Err && r->Err_0.kind == e,
            },
            Err(e) => r is Err && r->Err_0.kind == e,
        },
{
    let m = get_u16_from_data(data, index)?;
    let ghost d = data@;
    let ghost p = *index as int;
    let mut out: Vec<Vec<AttrSpan>> = Vec::with_capacity(m as usize);
    assert(spans_view(out@) =~= Seq::<Seq<AttrSpan>>::empty());
    let mut i: u16 = 0;
    while i < m
        invariant
            d == data@,
            s_u16(d, *old(index) as int) == Ok::<(u16, int), ErrorKind>((m, p)),
            i <= m,
            s_methods(d, p, i as nat, key as int) == Ok::<(Seq<Seq<AttrSpan>>, int), ErrorKind>((spans_view(out@), *index as int)),
        decreases m - i,
    {
        let step = match skip_bytes(data, index, 6) {
            Ok(()) => match get_u16_from_data(data, index) {
                Ok(n) => attribute_matches(data, index, n, key),
                Err(e) => Err(e),
            },
            Err(e) => Err(e),
        };
        match step {
            Ok(ms) => {
                let ghost prev = out@;
                out.push(ms);
                assert(spans_view(out@) =~= spans_view(prev).push(ms@));
            },
            Err(e) => {
                proof {
                    lemma_s_methods_err(d, p, (i + 1) as nat, m as nat, key as int);
                }
                return Err(e);
            },
        }
        i = i + 1;
    }
    Ok(out)
}

} // verus!
