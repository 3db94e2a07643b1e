//! A bounds-checked view of font bytes, a cursor over it, and offset resolution.
use crate::scalar::Scalar;
use vstd::prelude::*;
use std::marker::PhantomData;
use std::ops::Range;
use vstd::slice::slice_subrange;

verus! {

/// Why a read failed.
#[derive(Debug, Clone, Copy, PartialEq, Eq, Structural)]
pub enum ReadError {
    OutOfBounds,
    InvalidFormat(u16),
    InvalidArrayLen,
    ValidationError,
    NullOffset,
}

/// An immutable view of font bytes, with its position in the whole font
/// (kept for diagnostics).
#[derive(Debug, Clone, Copy)]
pub struct FontData<'a> {
    total_pos: u32,
    bytes: &'a [u8],
}

impl<'a> View for FontData<'a> {
    type V = Seq<u8>;

    closed spec fn view(&self) -> Seq<u8> {
        self.bytes@
    }
}

/// `start + pos`, saturating at `u32::MAX`.
pub open spec fn saturating_pos(start: u32, pos: int) -> u32 {
    if start + pos > u32::MAX {
        u32::MAX
    } else {
        (start + pos) as u32
    }
}

/// What reading a `T` at `offset` of `data` gives.
pub open spec fn spec_read_at<T: Scalar>(data: Seq<u8>, offset: int) -> Result<T, ReadError> {
    if 0 <= offset && offset + T::spec_width() <= data.len() {
        Ok(T::spec_decode(data.subrange(offset, offset + T::spec_width())))
    } else {
        Err(ReadError::OutOfBounds)
    }
}

/// A run of big-endian `T`s, read in place.
pub struct BeArray<'a, T> {
    bytes: &'a [u8],
    marker: PhantomData<T>,
}

impl<'a, T: Scalar> BeArray<'a, T> {
    /// The encoded bytes.
    pub closed spec fn bytes(&self) -> Seq<u8> {
        self.bytes@
    }

    /// The number of elements.
    pub fn len(&self) -> (n: usize)
        ensures
            n == self@.len(),
    {
        self.bytes.len() / T::width()
    }

    /// Another handle on the same bytes.
    pub fn reborrow(&self) -> (r: BeArray<'a, T>)
        ensures
            r@ == self@,
            r.bytes() == self.bytes(),
    {
        BeArray { bytes: self.bytes, marker: PhantomData }
    }

    /// An empty array over the same bytes.
    pub fn empty_like(&self) -> (r: BeArray<'a, T>)
        ensures
            r@ == Seq::<T>::empty(),
    {
        // the width is positive, so no byte makes no element
        let _width = T::width();
        let bytes = slice_subrange(self.bytes, 0, 0);
        assert(decode_array::<T>(bytes@) =~= Seq::<T>::empty());
        BeArray { bytes, marker: PhantomData }
    }

    /// The element at `i`, or `None` past the end.
    pub fn get(&self, i: usize) -> (r: Option<T>)
        ensures
            i < self@.len() ==> r == Some(self@[i as int]),
            i >= self@.len() ==> r is None,
    {
        let w = T::width();
        let len = self.bytes.len();
        if i < len / w {
            proof {
                lemma_elem_in_bounds(i as int, w as int, len as int);
            }
            let start = i * w;
            T::read(slice_subrange(self.bytes, start, start + w))
        } else {
            None
        }
    }
}

proof fn lemma_elem_in_bounds(i: int, w: int, len: int)
    requires
        0 <= i < len / w,
        w > 0,
        len >= 0,
    ensures
        0 <= i * w,
        i * w + w <= len,
{
    vstd::arithmetic::div_mod::lemma_fundamental_div_mod(len, w);
    let q = len / w;
    assert(i * w + w <= q * w) by (nonlinear_arith)
        requires
            i + 1 <= q,
            w > 0,
    ;
    assert(0 <= i * w) by (nonlinear_arith)
        requires
            i >= 0,
            w > 0,
    ;
    assert(q * w == w * q) by (nonlinear_arith);
}

impl<'a, T: Scalar> View for BeArray<'a, T> {
    type V = Seq<T>;

    open spec fn view(&self) -> Seq<T> {
        decode_array::<T>(self.bytes())
    }
}

/// The `T`s that `bytes` encode one after another (a trailing partial
/// element is left out).
pub open spec fn decode_array<T: Scalar>(bytes: Seq<u8>) -> Seq<T> {
    let w = T::spec_width() as int;
    Seq::new(
        (bytes.len() as int / w) as nat,
        |i: int| T::spec_decode(bytes.subrange(i * w, i * w + w)),
    )
}

/// Reading a scalar from a region shorter than its width fails with
/// `OutOfBounds`, whatever the offset: no byte outside the region is read.
pub proof fn short_region_reads_out_of_bounds<T: Scalar>(data: Seq<u8>, offset: int)
    requires
        data.len() < T::spec_width(),
    ensures
        spec_read_at::<T>(data, offset) == Err::<T, ReadError>(ReadError::OutOfBounds),
{
}

impl<'a> FontData<'a> {
    /// Position of the first byte of this view in the whole font.
    pub closed spec fn start(&self) -> u32 {
        self.total_pos
    }

    /// A view's length fits in `usize`.
    pub proof fn lemma_len_fits(&self)
        ensures
            self@.len() <= usize::MAX,
    {
        broadcast use vstd::slice::group_slice_axioms;

        assert(vstd::slice::spec_slice_len(self.bytes) == self.bytes@.len());
    }

    /// A view of `bytes`, starting at position 0.
    pub fn new(bytes: &'a [u8]) -> (r: FontData<'a>)
        ensures
            r@ == bytes@,
            r.start() == 0,
    {
        FontData { total_pos: 0, bytes }
    }

    pub fn len(&self) -> (n: usize)
        ensures
            n == self@.len(),
    {
        self.bytes.len()
    }

    pub fn is_empty(&self) -> (b: bool)
        ensures
            b <==> self@.len() == 0,
    {
        self.bytes.len() == 0
    }

    pub fn as_bytes(&self) -> (r: &'a [u8])
        ensures
            r@ == self@,
    {
        self.bytes
    }

    /// The view of the bytes from `pos` on; `None` where `pos` is past the end.
    pub fn split_off(&self, pos: usize) -> (r: Option<FontData<'a>>)
        ensures
            r is Some <==> pos <= self@.len(),
            r matches Some(d) ==> d@ == self@.subrange(pos as int, self@.len() as int)
                && d.start() == saturating_pos(self.start(), pos as int),
    {
        self.slice(pos, self.bytes.len())
    }

    /// The view of the bytes from `start` to `end`; `None` where that range
    /// does not lie in this view.
    pub fn slice(&self, start: usize, end: usize) -> (r: Option<FontData<'a>>)
        ensures
            r is Some <==> start <= end <= self@.len(),
            r matches Some(d) ==> d@ == self@.subrange(start as int, end as int) && d.start()
                == saturating_pos(self.start(), start as int),
    {
        if start <= end && end <= self.bytes.len() {
            let total_pos = if start > (u32::MAX - self.total_pos) as usize {
                u32::MAX
            } else {
                self.total_pos + start as u32
            };
            Some(FontData { total_pos, bytes: slice_subrange(self.bytes, start, end) })
        } else {
            None
        }
    }

    /// The big-endian `T` at `offset`, or `OutOfBounds`.
    pub fn read_at<T: Scalar>(&self, offset: usize) -> (r: Result<T, ReadError>)
        ensures
            r == spec_read_at::<T>(self@, offset as int),
    {
        let width = T::width();
        if offset <= self.bytes.len() && width <= self.bytes.len() - offset {
            let sub = slice_subrange(self.bytes, offset, offset + width);
            match T::read(sub) {
                Some(v) => Ok(v),
                None => Err(ReadError::OutOfBounds),
            }
        } else {
            Err(ReadError::OutOfBounds)
        }
    }

    /// `Ok` when the first `offset` bytes lie in this view.
    pub fn check_in_bounds(&self, offset: usize) -> (r: Result<(), ReadError>)
        ensures
            r is Ok <==> offset <= self@.len(),
            r is Err ==> r == Err::<(), ReadError>(ReadError::OutOfBounds),
    {
        if offset <= self.bytes.len() {
            Ok(())
        } else {
            Err(ReadError::OutOfBounds)
        }
    }

    /// Hands the bytes from `offset` on to `f`; `OutOfBounds` where `offset`
    /// is past the end.
    pub fn read_at_with<T, F>(&self, offset: usize, f: F) -> (r: Result<T, ReadError>)
        where
            F: FnOnce(&'a [u8]) -> Result<T, ReadError>,
        requires
            forall|s: &'a [u8]|
                s@ == self@.subrange(offset as int, self@.len() as int) ==> f.requires((s,)),
        ensures
            offset > self@.len() ==> r == Err::<T, ReadError>(ReadError::OutOfBounds),
            offset <= self@.len() ==> exists|s: &'a [u8]|
                s@ == self@.subrange(offset as int, self@.len() as int) && f.ensures((s,), r),
    {
        if offset <= self.bytes.len() {
            let sub = slice_subrange(self.bytes, offset, self.bytes.len());
            f(sub)
        } else {
            Err(ReadError::OutOfBounds)
        }
    }

    /// The bytes of `range` as an array of `T`: `OutOfBounds` where the range
    /// does not lie in this view, `InvalidArrayLen` where its length is not a
    /// multiple of the width of `T`.
    pub fn read_array<T: Scalar>(&self, range: Range<usize>) -> (r: Result<BeArray<'a, T>, ReadError>)
        ensures
            !(range.start <= range.end <= self@.len()) ==> r == Err::<BeArray<'a, T>, ReadError>(
                ReadError::OutOfBounds,
            ),
            range.start <= range.end <= self@.len() && (range.end - range.start)
                % (T::spec_width() as int) != 0 ==> r == Err::<BeArray<'a, T>, ReadError>(
                ReadError::InvalidArrayLen,
            ),
            r matches Ok(a) ==> range.start <= range.end <= self@.len() && a.bytes()
                == self@.subrange(range.start as int, range.end as int),
            range.start <= range.end <= self@.len() && (range.end - range.start)
                % (T::spec_width() as int) == 0 ==> r is Ok,
    {
        if range.start <= range.end && range.end <= self.bytes.len() {
            let width = T::width();
            if (range.end - range.start) % width != 0 {
                Err(ReadError::InvalidArrayLen)
            } else {
                let bytes = slice_subrange(self.bytes, range.start, range.end);
                Ok(BeArray { bytes, marker: PhantomData })
            }
        } else {
            Err(ReadError::OutOfBounds)
        }
    }

    /// A cursor at the start of this view.
    pub fn cursor(&self) -> (c: Cursor<'a>)
        ensures
            c.pos() == 0,
            c.data() == *self,
    {
        Cursor { pos: 0, data: *self }
    }
}

/// The result `r` of an exec read, seen through the views of its value.
pub open spec fn view_result<T: View>(r: Result<T, ReadError>) -> Result<T::V, ReadError> {
    match r {
        Ok(v) => Ok(v@),
        Err(e) => Err(e),
    }
}

/// A type that can be parsed from font bytes.
pub trait FontRead<'a>: Sized + View {
    /// What parsing `data` gives, seen through the view of the result.
    spec fn spec_read(data: Seq<u8>) -> Result<Self::V, ReadError>;

    fn read(data: FontData<'a>) -> (r: Result<Self, ReadError>)
        ensures
            view_result(r) == Self::spec_read(data@),
    ;
}

/// What resolving an offset of value `offset` against `base` gives: 0 is
/// `NullOffset`, an offset past the end `OutOfBounds`, else what parsing the
/// bytes from the offset on gives.
pub open spec fn spec_resolve<'a, T: FontRead<'a>>(offset: nat, base: Seq<u8>) -> Result<
    T::V,
    ReadError,
> {
    if offset == 0 {
        Err(ReadError::NullOffset)
    } else if offset > base.len() {
        Err(ReadError::OutOfBounds)
    } else {
        T::spec_read(base.subrange(offset as int, base.len() as int))
    }
}

/// An offset field: resolved against the view of the table that holds it.
pub trait ResolveOffset {
    /// The offset's value; 0 means that nothing is there.
    spec fn spec_value(&self) -> nat;

    fn resolve<'a, T: FontRead<'a>>(&self, data: &FontData<'a>) -> (r: Result<T, ReadError>)
        ensures
            view_result(r) == spec_resolve::<T>(self.spec_value(), data@),
    ;

    /// As `resolve`, with `None` for the offset 0.
    fn resolve_nullable<'a, T: FontRead<'a>>(&self, data: &FontData<'a>) -> (r: Option<
        Result<T, ReadError>,
    >)
        ensures
            r is None <==> self.spec_value() == 0,
            r matches Some(x) ==> view_result(x) == spec_resolve::<T>(self.spec_value(), data@),
    ;
}

/// Parses a `T` from the bytes of `data` from `offset` on.
fn read_from<'a, T: FontRead<'a>>(offset: usize, data: &FontData<'a>) -> (r: Result<T, ReadError>)
    requires
        offset > 0,
    ensures
        view_result(r) == spec_resolve::<T>(offset as nat, data@),
{
    match data.split_off(offset) {
        Some(sub) => T::read(sub),
        None => Err(ReadError::OutOfBounds),
    }
}

/// A 16-bit offset.
#[derive(Debug, Clone, Copy, PartialEq, Eq, Structural)]
pub struct Offset16(pub u16);

/// A 32-bit offset.
#[derive(Debug, Clone, Copy, PartialEq, Eq, Structural)]
pub struct Offset32(pub u32);

impl ResolveOffset for Offset16 {
    open spec fn spec_value(&self) -> nat {
        self.0 as nat
    }

    fn resolve<'a, T: FontRead<'a>>(&self, data: &FontData<'a>) -> (r: Result<T, ReadError>) {
        match self.resolve_nullable(data) {
            Some(x) => x,
            None => Err(ReadError::NullOffset),
        }
    }

    fn resolve_nullable<'a, T: FontRead<'a>>(&self, data: &FontData<'a>) -> (r: Option<
        Result<T, ReadError>,
    >) {
        if self.0 == 0 {
            None
        } else {
            Some(read_from(self.0 as usize, data))
        }
    }
}

impl ResolveOffset for Offset32 {
    open spec fn spec_value(&self) -> nat {
        self.0 as nat
    }

    fn resolve<'a, T: FontRead<'a>>(&self, data: &FontData<'a>) -> (r: Result<T, ReadError>) {
        match self.resolve_nullable(data) {
            Some(x) => x,
            None => Err(ReadError::NullOffset),
        }
    }

    fn resolve_nullable<'a, T: FontRead<'a>>(&self, data: &FontData<'a>) -> (r: Option<
        Result<T, ReadError>,
    >) {
        if self.0 == 0 {
            None
        } else if self.0 as u64 > usize::MAX as u64 {
            Some(Err(ReadError::OutOfBounds))
        } else {
            Some(read_from(self.0 as usize, data))
        }
    }
}

impl<'a, T> TableRef<'a, T> {
    /// Resolves `offset` against this table's bytes.
    pub fn resolve_offset<O: ResolveOffset, R: FontRead<'a>>(&self, offset: O) -> (r: Result<
        R,
        ReadError,
    >)
        ensures
            view_result(r) == spec_resolve::<R>(offset.spec_value(), self.data@),
    {
        offset.resolve(&self.data)
    }
}

/// A read position in a view, for parsing one record or table.
///
/// Reads advance the position even when they fail; `finish` checks that the
/// position ended in bounds.
pub struct Cursor<'a> {
    pos: usize,
    data: FontData<'a>,
}

/// A parsed table: its shape (the values read while parsing) and its bytes,
/// which the table's offsets are resolved against.
pub struct TableRef<'a, T> {
    pub shape: T,
    pub data: FontData<'a>,
}

/// `a + b`, saturating at `usize::MAX`.
pub open spec fn saturating_usize(a: int, b: int) -> usize {
    if a + b > usize::MAX {
        usize::MAX
    } else {
        (a + b) as usize
    }
}

fn add_saturating(a: usize, b: usize) -> (r: usize)
    ensures
        r == saturating_usize(a as int, b as int),
{
    if b > usize::MAX - a {
        usize::MAX
    } else {
        a + b
    }
}

impl<'a> Cursor<'a> {
    /// The cursor's bytes fit in `usize`.
    pub proof fn lemma_len_fits(&self)
        ensures
            self.data()@.len() <= usize::MAX,
    {
        self.data.lemma_len_fits();
    }

    pub closed spec fn pos(&self) -> usize {
        self.pos
    }

    pub closed spec fn data(&self) -> FontData<'a> {
        self.data
    }

    /// Steps over one `T`.
    pub fn advance<T: Scalar>(&mut self)
        ensures
            final(self).pos() == saturating_usize(old(self).pos() as int, T::spec_width() as int),
            final(self).data() == old(self).data(),
    {
        self.pos = add_saturating(self.pos, T::width());
    }

    /// Steps over `n_bytes` bytes.
    pub fn advance_by(&mut self, n_bytes: usize)
        ensures
            final(self).pos() == saturating_usize(old(self).pos() as int, n_bytes as int),
            final(self).data() == old(self).data(),
    {
        self.pos = add_saturating(self.pos, n_bytes);
    }

    /// Reads a `T` at the position and steps over it.
    pub fn read<T: Scalar>(&mut self) -> (r: Result<T, ReadError>)
        ensures
            r == spec_read_at::<T>(old(self).data()@, old(self).pos() as int),
            final(self).pos() == saturating_usize(old(self).pos() as int, T::spec_width() as int),
            final(self).data() == old(self).data(),
    {
        let r = self.data.read_at(self.pos);
        self.pos = add_saturating(self.pos, T::width());
        r
    }

    /// Reads a `T` as `read` does, then fails with `ValidationError` where
    /// `f` rejects it.
    pub fn read_validate<T: Scalar, F: FnOnce(&T) -> bool>(&mut self, f: F) -> (r: Result<T, ReadError>)
        requires
            forall|v: T| f.requires((&v,)),
        ensures
            spec_read_at::<T>(old(self).data()@, old(self).pos() as int) is Err ==> r
                == spec_read_at::<T>(old(self).data()@, old(self).pos() as int),
            spec_read_at::<T>(old(self).data()@, old(self).pos() as int) matches Ok(v) ==> (r
                == Ok::<T, ReadError>(v) && f.ensures((&v,), true)) || (r == Err::<T, ReadError>(
                ReadError::ValidationError,
            ) && f.ensures((&v,), false)),
            final(self).pos() == saturating_usize(old(self).pos() as int, T::spec_width() as int),
            final(self).data() == old(self).data(),
    {
        let temp = self.read::<T>();
        match temp {
            Ok(v) => {
                if f(&v) {
                    Ok(v)
                } else {
                    Err(ReadError::ValidationError)
                }
            },
            Err(e) => Err(e),
        }
    }

    /// The position, or `OutOfBounds` where it is past the end.
    pub fn position(&self) -> (r: Result<usize, ReadError>)
        ensures
            self.pos() <= self.data()@.len() ==> r == Ok::<usize, ReadError>(self.pos()),
            self.pos() > self.data()@.len() ==> r == Err::<usize, ReadError>(ReadError::OutOfBounds),
    {
        match self.data.check_in_bounds(self.pos) {
            Ok(()) => Ok(self.pos),
            Err(e) => Err(e),
        }
    }

    /// Ends parsing: where the position is in bounds, the table made of
    /// `shape` and the cursor's bytes; else `OutOfBounds`.
    pub fn finish<T>(self, shape: T) -> (r: Result<TableRef<'a, T>, ReadError>)
        ensures
            self.pos() <= self.data()@.len() <==> r is Ok,
            r matches Ok(t) ==> t.shape == shape && t.data == self.data(),
            r matches Err(e) ==> e == ReadError::OutOfBounds,
    {
        let data = self.data;
        match data.check_in_bounds(self.pos) {
            Ok(()) => Ok(TableRef { data, shape }),
            Err(e) => Err(e),
        }
    }
}

} // verus!
