use vstd::prelude::*;

use crate::window_manager::{Buffer, WindowError};

verus! {

/// The pixel rows of a shared-memory buffer: the whole pool it lives in and
/// where the buffer lies inside it.
pub struct ShmContents {
    pub pool: Vec<u8>,
    pub offset: i32,
    pub stride: i32,
    pub width: i32,
    pub height: i32,
}

/// The buffer state of a surface.
pub enum AttachedBuffer {
    /// No buffer was ever attached.
    Unset,
    /// The client removed the buffer: the window shows nothing.
    Removed,
    /// A buffer is attached; `None` where it is not a shared-memory buffer.
    Attached(Option<ShmContents>),
}

/// Every row lies inside the pool, and the copy's size fits the address space.
pub open spec fn geometry_fits(pool_len: int, offset: int, stride: int, width: int, height: int) -> bool {
    &&& 0 <= offset
    &&& 0 <= stride
    &&& 0 <= width
    &&& 0 <= height
    &&& width * height * 4 <= usize::MAX
    &&& height == 0 || offset + (height - 1) * stride + width * 4 <= pool_len
}

/// Each of the `height` rows, `width * 4` bytes long and `stride` bytes
/// after the one before, the first at `offset`, lies inside a pool of
/// `pool_len` bytes; all four numbers are non-negative and the packed copy's
/// size fits the address space.
pub open spec fn every_row_inside(pool_len: int, offset: int, stride: int, width: int, height: int) -> bool {
    &&& 0 <= offset
    &&& 0 <= stride
    &&& 0 <= width
    &&& 0 <= height
    &&& width * height * 4 <= usize::MAX
    &&& forall|i: int| 0 <= i < height ==> #[trigger] (offset + i * stride) + width * 4 <= pool_len
}

/// A buffer fits its pool exactly when every one of its rows lies inside
/// the pool: it is enough that the last row does, and it is needed that
/// every row does.
pub proof fn lemma_fits_iff_every_row_inside(pool_len: int, offset: int, stride: int, width: int, height: int)
    ensures
        geometry_fits(pool_len, offset, stride, width, height) <==> every_row_inside(pool_len, offset, stride, width, height),
{
    if geometry_fits(pool_len, offset, stride, width, height) {
        assert forall|i: int| 0 <= i < height implies #[trigger] (offset + i * stride) + width * 4 <= pool_len by {
            assert(i * stride <= (height - 1) * stride) by (nonlinear_arith)
                requires 0 <= i, i <= height - 1, stride >= 0;
        }
    }
    if every_row_inside(pool_len, offset, stride, width, height) && height > 0 {
        assert((offset + (height - 1) * stride) + width * 4 <= pool_len);
    }
}

impl ShmContents {
    pub open spec fn fits(&self) -> bool {
        geometry_fits(self.pool@.len() as int, self.offset as int, self.stride as int, self.width as int, self.height as int)
    }

    /// Whether every row of the buffer lies inside its pool (and the copy's
    /// size fits the address space), so that its rows can be copied.
    pub fn geometry_ok(&self) -> (ok: bool)
        ensures
            ok == self.fits(),
            ok == every_row_inside(self.pool@.len() as int, self.offset as int, self.stride as int, self.width as int, self.height as int),
    {
        proof {
            lemma_fits_iff_every_row_inside(self.pool@.len() as int, self.offset as int, self.stride as int, self.width as int, self.height as int);
        }
        if self.offset < 0 || self.stride < 0 || self.width < 0 || self.height < 0 {
            return false;
        }
        let offset = self.offset as u64;
        let stride = self.stride as u64;
        let width = self.width as u64;
        let height = self.height as u64;
        assert(width * height <= 0x7fff_ffff * 0x7fff_ffff) by (nonlinear_arith)
            requires width <= 0x7fff_ffff, height <= 0x7fff_ffff;
        let size = width * height * 4;
        if size > usize::MAX as u64 {
            return false;
        }
        if height == 0 {
            return true;
        }
        assert((height - 1) * stride <= 0x7fff_ffff * 0x7fff_ffff) by (nonlinear_arith)
            requires height - 1 <= 0x7fff_ffff, stride <= 0x7fff_ffff, height >= 1;
        let last_end = offset + (height - 1) * stride + width * 4;
        last_end <= self.pool.len() as u64
    }
}

/// The bytes of the first `height` rows, each `width * 4` bytes long and
/// starting `stride` bytes after the previous one, the first at `offset`.
pub open spec fn rows(pool: Seq<u8>, offset: int, stride: int, width: int, height: nat) -> Seq<u8>
    decreases height,
{
    if height == 0 {
        Seq::empty()
    } else {
        let start = offset + (height - 1) * stride;
        rows(pool, offset, stride, width, (height - 1) as nat) + pool.subrange(start, start + width * 4)
    }
}

proof fn lemma_rows_len(pool: Seq<u8>, offset: int, stride: int, width: int, height: nat)
    requires
        0 <= offset,
        0 <= stride,
        0 <= width,
        height == 0 || offset + (height - 1) * stride + width * 4 <= pool.len(),
    ensures
        rows(pool, offset, stride, width, height).len() == width * height * 4,
    decreases height,
{
    if height > 0 {
        let h1 = (height - 1) as nat;
        if h1 > 0 {
            assert(offset + (h1 - 1) * stride <= offset + (height - 1) * stride) by (nonlinear_arith)
                requires stride >= 0, h1 >= 1, height == h1 + 1;
        }
        lemma_rows_len(pool, offset, stride, width, h1);
        assert(0 <= offset + (height - 1) * stride) by (nonlinear_arith)
            requires offset >= 0, stride >= 0, height >= 1;
        assert(width * height * 4 == width * h1 * 4 + width * 4) by (nonlinear_arith)
            requires height == h1 + 1;
    }
}

/// Copies the visible rows of a shared-memory buffer into one packed block of
/// `width * 4` bytes per row, dropping the padding that `stride` leaves
/// between rows.
pub fn copy_rows(contents: &ShmContents) -> (data: Vec<u8>)
    requires
        contents.fits(),
    ensures
        data@ == rows(contents.pool@, contents.offset as int, contents.stride as int, contents.width as int, contents.height as nat),
        data@.len() == contents.width * contents.height * 4,
{
    let offset = contents.offset as usize;
    let stride = contents.stride as usize;
    let width = contents.width as usize;
    let height = contents.height as usize;
    let ghost pool = contents.pool@;
    let pool_len = contents.pool.len();
    assert(width * height <= width * height * 4) by (nonlinear_arith)
        requires width * height >= 0;
    let mut new_vec: Vec<u8> = Vec::with_capacity(width * height * 4);
    let mut i: usize = 0;
    while i < height
        invariant
            i <= height,
            pool == contents.pool@,
            pool_len == pool.len(),
            offset == contents.offset,
            stride == contents.stride,
            width == contents.width,
            height == contents.height,
            contents.fits(),
            new_vec@ == rows(pool, offset as int, stride as int, width as int, i as nat),
        decreases height - i,
    {
        assert(0 <= i * stride && offset + i * stride + width * 4 <= pool.len()) by (nonlinear_arith)
            requires
                i < height,
                stride >= 0,
                offset >= 0,
                width >= 0,
                offset + (height - 1) * stride + width * 4 <= pool.len();
        let start = offset + i * stride;
        let end = start + width * 4;
        let mut k: usize = start;
        let ghost before = new_vec@;
        while k < end
            invariant
                start <= k <= end,
                end <= pool.len(),
                pool == contents.pool@,
                new_vec@ == before + pool.subrange(start as int, k as int),
            decreases end - k,
        {
            new_vec.push(contents.pool[k]);
            assert(pool.subrange(start as int, k + 1) == pool.subrange(start as int, k as int).push(pool[k as int]));
            k = k + 1;
        }
        i = i + 1;
        assert(start == offset + (i - 1) * stride);
    }
    proof {
        lemma_rows_len(pool, offset as int, stride as int, width as int, height as nat);
    }
    new_vec
}

/// The buffer to release once a window's frame has been read: the buffer
/// attached to its surface, where one is attached (`Some(Some(_))`); none
/// where no buffer was ever attached or the client removed it.
pub fn buffer_to_release<B>(attached: &Option<Option<B>>) -> (to_release: Option<&B>)
    ensures
        match (*attached, to_release) {
            (Some(Some(b)), Some(r)) => *r == b,
            (Some(Some(_)), None) => false,
            (_, None) => true,
            (_, Some(_)) => false,
        },
{
    match attached {
        Some(Some(b)) => Some(b),
        _ => None,
    }
}

/// What the window shows, read from the buffer state of its surface.
pub open spec fn buffer_outcome_kind(attached: AttachedBuffer) -> Result<bool, WindowError> {
    match attached {
        AttachedBuffer::Unset => Err(WindowError::NoSuchBuffer),
        AttachedBuffer::Removed => Ok(false),
        AttachedBuffer::Attached(None) => Err(WindowError::NotShmBuffer),
        AttachedBuffer::Attached(Some(_)) => Ok(true),
    }
}

/// Reads the contents that a surface shows: a copy of the rows of its
/// shared-memory buffer with the buffer's size, `Erase` where the client
/// removed its buffer, and an error where there is no buffer or it is not in
/// shared memory.
pub fn get_buffer(attached: &AttachedBuffer) -> (result: Result<Buffer, WindowError>)
    requires
        attached matches AttachedBuffer::Attached(Some(c)) ==> c.fits(),
    ensures
        match (*attached, result) {
            (AttachedBuffer::Unset, Err(e)) => e == WindowError::NoSuchBuffer,
            (AttachedBuffer::Removed, Ok(Buffer::Erase)) => true,
            (AttachedBuffer::Attached(None), Err(e)) => e == WindowError::NotShmBuffer,
            (AttachedBuffer::Attached(Some(c)), Ok(Buffer::Update { data, size })) => {
                &&& data@ == rows(c.pool@, c.offset as int, c.stride as int, c.width as int, c.height as nat)
                &&& size == (c.width as u32, c.height as u32)
            },
            _ => false,
        },
{
    match attached {
        AttachedBuffer::Unset => Err(WindowError::NoSuchBuffer),
        AttachedBuffer::Removed => Ok(Buffer::Erase),
        AttachedBuffer::Attached(None) => Err(WindowError::NotShmBuffer),
        AttachedBuffer::Attached(Some(c)) => {
            let data = copy_rows(c);
            Ok(Buffer::Update { data, size: (c.width as u32, c.height as u32) })
        },
    }
}

/// A buffer whose rows follow each other without padding (the stride is
/// the row length) is copied as one contiguous stretch of the pool.
pub proof fn lemma_packed_rows(pool: Seq<u8>, offset: int, width: int, height: nat)
    requires
        0 <= offset,
        0 <= width,
        offset + width * 4 * height <= pool.len(),
    ensures
        rows(pool, offset, width * 4, width, height) == pool.subrange(offset, offset + width * 4 * height),
    decreases height,
{
    if height > 0 {
        let h1 = (height - 1) as nat;
        assert(width * 4 * h1 <= width * 4 * height) by (nonlinear_arith)
            requires width >= 0, height == h1 + 1;
        lemma_packed_rows(pool, offset, width, h1);
        assert((height - 1) * (width * 4) == width * 4 * h1) by (nonlinear_arith)
            requires height == h1 + 1;
        assert(width * 4 * height == width * 4 * h1 + width * 4) by (nonlinear_arith)
            requires height == h1 + 1;
        assert(rows(pool, offset, width * 4, width, height) == rows(pool, offset, width * 4, width, h1)
            + pool.subrange(offset + width * 4 * h1, offset + width * 4 * h1 + width * 4));
        assert(pool.subrange(offset, offset + width * 4 * h1) + pool.subrange(offset + width * 4 * h1, offset + width * 4 * height)
            =~= pool.subrange(offset, offset + width * 4 * height));
    } else {
        assert(width * 4 * height == 0) by (nonlinear_arith)
            requires height == 0;
        assert(pool.subrange(offset, offset) =~= Seq::<u8>::empty());
    }
}

/// The packed copy holds the buffer's rows in order: for a buffer whose rows
/// all lie in its pool, bytes `4 * width * i` to `4 * width * (i + 1)` of the
/// copy are the `i`-th row of the buffer, the `width * 4` bytes at
/// `offset + i * stride` of the pool.
pub proof fn lemma_rows_hold_each_row(pool: Seq<u8>, offset: int, stride: int, width: int, height: nat, i: int)
    requires
        every_row_inside(pool.len() as int, offset, stride, width, height as int),
        0 <= i < height,
    ensures
        rows(pool, offset, stride, width, height).subrange(width * 4 * i, width * 4 * (i + 1))
            == pool.subrange(offset + i * stride, offset + i * stride + width * 4),
    decreases height,
{
    lemma_fits_iff_every_row_inside(pool.len() as int, offset, stride, width, height as int);
    let h1 = (height - 1) as nat;
    let all = rows(pool, offset, stride, width, height);
    let prefix = rows(pool, offset, stride, width, h1);
    let start = offset + (height - 1) * stride;
    let last = pool.subrange(start, start + width * 4);
    assert(all == prefix + last);
    assert(0 <= start) by (nonlinear_arith)
        requires offset >= 0, stride >= 0, height >= 1, start == offset + (height - 1) * stride;
    assert((start) + width * 4 <= pool.len());
    if h1 > 0 {
        assert(offset + (h1 - 1) * stride <= offset + (height - 1) * stride) by (nonlinear_arith)
            requires stride >= 0, h1 >= 1, height == h1 + 1;
    }
    lemma_rows_len(pool, offset, stride, width, h1);
    assert(width * h1 * 4 == width * 4 * h1) by (nonlinear_arith);
    assert(width * 4 * (i + 1) == width * 4 * i + width * 4) by (nonlinear_arith);
    if i < h1 {
        assert(every_row_inside(pool.len() as int, offset, stride, width, h1 as int)) by {
            assert(width * h1 * 4 <= width * height * 4) by (nonlinear_arith)
                requires width >= 0, h1 <= height;
            assert forall|j: int| 0 <= j < h1 implies #[trigger] (offset + j * stride) + width * 4 <= pool.len() by {
                assert((offset + j * stride) + width * 4 <= pool.len());
            }
        }
        lemma_rows_hold_each_row(pool, offset, stride, width, h1, i);
        assert(width * 4 * (i + 1) <= width * 4 * h1) by (nonlinear_arith)
            requires i + 1 <= h1, width >= 0;
        assert(0 <= width * 4 * i) by (nonlinear_arith)
            requires i >= 0, width >= 0;
        assert(all.subrange(width * 4 * i, width * 4 * (i + 1)) =~= prefix.subrange(width * 4 * i, width * 4 * (i + 1)));
    } else {
        assert(i == h1);
        assert(all.subrange(width * 4 * i, width * 4 * (i + 1)) =~= last);
    }
}

} // verus!
