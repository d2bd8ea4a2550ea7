use vstd::arithmetic::div_mod::{
    lemma_basic_div, lemma_div_plus_one, lemma_mod_multiples_vanish, lemma_small_mod,
};
use vstd::prelude::*;
use vstd::slice::slice_subrange;

verus! {

/// Bytes that one row of `width` pixels takes, padded to whole bytes.
pub open spec fn row_bytes(width: nat) -> nat {
    (width + 7) / 8
}

/// Whether pixel `k` of a row is filled: the most significant bit of each byte is the
/// leftmost of its eight pixels.
pub open spec fn pixel(data: Seq<u8>, k: int) -> bool {
    data[k / 8] & (0x80u8 >> ((k % 8) as u8)) != 0
}

/// Pixels `from` up to, not including, `to` of a row.
pub open spec fn pixels(data: Seq<u8>, from: int, to: int) -> Seq<bool> {
    Seq::new((to - from) as nat, |j: int| pixel(data, from + j))
}

/// Iterator over the pixels of one row of a glyph, from either end.
///
/// Yields whether each pixel is filled. Only the first `width` bits of the row are
/// pixels: the padding after them is never yielded.
#[derive(Clone, Copy)]
pub struct ColumnIter<'a> {
    data: &'a [u8],
    bit: usize,
    width: usize,
}

impl View for ColumnIter<'_> {
    type V = Seq<bool>;

    /// The pixels not yet yielded from either end.
    closed spec fn view(&self) -> Seq<bool> {
        pixels(self.data@, self.bit as int, self.width as int)
    }
}

impl<'a> ColumnIter<'a> {
    /// The front cursor never passes the back one, and every pixel lies in the data.
    #[verifier::type_invariant]
    spec fn well_formed(&self) -> bool {
        self.bit <= self.width && self.width <= 8 * self.data@.len()
    }

    /// The bytes of the row.
    pub closed spec fn bytes(&self) -> Seq<u8> {
        self.data@
    }

    /// An iterator over the first `width` pixels of `data`.
    pub fn new(data: &'a [u8], width: usize) -> (r: ColumnIter<'a>)
        requires
            width <= 8 * data@.len(),
        ensures
            r@ == pixels(data@, 0, width as int),
            r.bytes() == data@,
    {
        ColumnIter { data, bit: 0, width }
    }

    /// A bitfield of the filled pixels of this row: the most significant bit is the
    /// leftmost pixel, and only the first `width` bits are meaningful.
    pub fn data(&self) -> (r: &'a [u8])
        ensures
            r@ == self.bytes(),
    {
        self.data
    }

    /// The number of pixels not yet yielded.
    pub fn len(&self) -> (r: usize)
        ensures
            r == self@.len(),
    {
        proof {
            use_type_invariant(self);
        }
        self.width - self.bit
    }

    /// Whether the pixel at position `k` of the row is filled.
    fn pixel_at(&self, k: usize) -> (r: bool)
        requires
            k < self.width,
        ensures
            r == pixel(self.data@, k as int),
    {
        proof {
            use_type_invariant(self);
        }
        let byte = self.data[k / 8];
        byte & (0x80u8 >> ((k % 8) as u8)) != 0
    }

    /// Takes the leftmost pixel not yet yielded.
    pub fn next(&mut self) -> (r: Option<bool>)
        ensures
            old(self)@.len() == 0 ==> r is None && final(self)@ == old(self)@,
            old(self)@.len() > 0 ==> r == Some(old(self)@[0]) && final(self)@ == old(self)@.drop_first(),
            final(self).bytes() == old(self).bytes(),
    {
        proof {
            use_type_invariant(&*self);
        }
        if self.bit >= self.width {
            return None;
        }
        let result = self.pixel_at(self.bit);
        self.bit = self.bit + 1;
        proof {
            assert(self@ =~= old(self)@.drop_first());
        }
        Some(result)
    }

    /// Takes the rightmost pixel not yet yielded.
    pub fn next_back(&mut self) -> (r: Option<bool>)
        ensures
            old(self)@.len() == 0 ==> r is None && final(self)@ == old(self)@,
            old(self)@.len() > 0 ==> r == Some(old(self)@.last()) && final(self)@ == old(self)@.drop_last(),
            final(self).bytes() == old(self).bytes(),
    {
        proof {
            use_type_invariant(&*self);
        }
        if self.bit >= self.width {
            return None;
        }
        let last = self.width - 1;
        let result = self.pixel_at(last);
        self.width = last;
        proof {
            assert(self@ =~= old(self)@.drop_last());
        }
        Some(result)
    }
}

/// The first row of glyph data `v` (its bytes and its width in pixels).
pub open spec fn front_row(v: (Seq<u8>, nat)) -> Seq<u8> {
    v.0.subrange(0, row_bytes(v.1) as int)
}

/// Glyph data `v` without its first row.
pub open spec fn after_front(v: (Seq<u8>, nat)) -> (Seq<u8>, nat) {
    (v.0.subrange(row_bytes(v.1) as int, v.0.len() as int), v.1)
}

/// The last row of glyph data `v`.
pub open spec fn back_row(v: (Seq<u8>, nat)) -> Seq<u8> {
    v.0.subrange(v.0.len() - row_bytes(v.1), v.0.len() as int)
}

/// Glyph data `v` without its last row.
pub open spec fn before_back(v: (Seq<u8>, nat)) -> (Seq<u8>, nat) {
    (v.0.subrange(0, v.0.len() - row_bytes(v.1)), v.1)
}

/// Whether glyph data `v` still holds a whole row.
pub open spec fn has_row(v: (Seq<u8>, nat)) -> bool {
    v.1 > 0 && v.0.len() >= row_bytes(v.1)
}

/// The pixels of each row that taking rows from the front yields, in order.
pub open spec fn rows_forward(v: (Seq<u8>, nat)) -> Seq<Seq<bool>>
    decreases v.0.len(),
{
    if has_row(v) {
        seq![pixels(front_row(v), 0, v.1 as int)] + rows_forward(after_front(v))
    } else {
        seq![]
    }
}

/// All pixels in the order that taking rows from the front, and pixels from the
/// left of each row, yields them.
pub open spec fn pixels_forward(v: (Seq<u8>, nat)) -> Seq<bool>
    decreases v.0.len(),
{
    if has_row(v) {
        pixels(front_row(v), 0, v.1 as int) + pixels_forward(after_front(v))
    } else {
        seq![]
    }
}

/// All pixels in the order that taking rows from the back, and pixels from the right
/// of each row, yields them.
pub open spec fn pixels_backward(v: (Seq<u8>, nat)) -> Seq<bool>
    decreases v.0.len(),
{
    if has_row(v) {
        pixels(back_row(v), 0, v.1 as int).reverse() + pixels_backward(before_back(v))
    } else {
        seq![]
    }
}

/// Taking rows from the front yields as many rows as the data holds whole rows, which
/// is what `RowIter::len` reports before any row is taken, and each row yields `width`
/// pixels.
pub proof fn lemma_row_count(v: (Seq<u8>, nat))
    requires
        v.1 > 0,
    ensures
        rows_forward(v).len() == v.0.len() / row_bytes(v.1),
        forall|j: int| 0 <= j < rows_forward(v).len() ==> #[trigger] rows_forward(v)[j].len() == v.1,
    decreases v.0.len(),
{
    let rb = row_bytes(v.1) as int;
    if has_row(v) {
        let rest = after_front(v);
        lemma_row_count(rest);
        lemma_div_plus_one(v.0.len() - rb, rb);
        assert forall|j: int| 0 <= j < rows_forward(v).len() implies #[trigger] rows_forward(
            v,
        )[j].len() == v.1 by {
            if j > 0 {
                assert(rows_forward(v)[j] == rows_forward(rest)[j - 1]);
            }
        }
    } else {
        lemma_basic_div(v.0.len() as int, rb);
    }
}

/// With whole rows only, taking the last row off after taking pixels from the front
/// leaves the pixels of the other rows followed by those of the last row.
proof fn lemma_forward_split(v: (Seq<u8>, nat))
    requires
        v.1 > 0,
        v.0.len() % row_bytes(v.1) == 0,
        has_row(v),
    ensures
        pixels_forward(v) == pixels_forward(before_back(v)) + pixels(back_row(v), 0, v.1 as int),
    decreases v.0.len(),
{
    let rb = row_bytes(v.1) as int;
    let w = v.1 as int;
    let d = v.0;
    if d.len() == rb {
        assert(front_row(v) =~= back_row(v));
        assert(!has_row(after_front(v)));
        assert(!has_row(before_back(v)));
        assert(pixels_forward(after_front(v)) == Seq::<bool>::empty());
        assert(pixels_forward(before_back(v)) == Seq::<bool>::empty());
        assert(pixels_forward(v) =~= pixels(front_row(v), 0, w));
        assert(pixels_forward(before_back(v)) + pixels(back_row(v), 0, w) =~= pixels(
            back_row(v),
            0,
            w,
        ));
    } else {
        let u = after_front(v);
        let b = before_back(v);
        lemma_mod_multiples_vanish(1, d.len() - rb, rb);
        if d.len() < 2 * rb {
            lemma_small_mod((d.len() - rb) as nat, rb as nat);
        }
        assert(u.0.len() % (rb as nat) == 0);
        lemma_forward_split(u);
        assert(back_row(u) =~= back_row(v));
        assert(before_back(u).0 =~= after_front(b).0);
        assert(before_back(u) == after_front(b));
        assert(front_row(b) =~= front_row(v));
        assert(has_row(b));
        assert(pixels_forward(b) == pixels(front_row(b), 0, w) + pixels_forward(after_front(b)));
        assert(pixels_forward(v) =~= pixels_forward(b) + pixels(back_row(v), 0, w));
    }
}

/// With whole rows only, taking rows from the back and pixels from the right of each
/// row yields every pixel in exactly the reverse of the order in which taking rows from
/// the front and pixels from the left yields them.
pub proof fn lemma_backward_is_reverse(v: (Seq<u8>, nat))
    requires
        v.1 > 0,
        v.0.len() % row_bytes(v.1) == 0,
    ensures
        pixels_backward(v) == pixels_forward(v).reverse(),
    decreases v.0.len(),
{
    let rb = row_bytes(v.1) as int;
    let w = v.1 as int;
    if has_row(v) {
        let b = before_back(v);
        lemma_forward_split(v);
        lemma_mod_multiples_vanish(1, v.0.len() - rb, rb);
        if v.0.len() < 2 * rb {
            lemma_small_mod((v.0.len() - rb) as nat, rb as nat);
        }
        assert(b.0.len() % (rb as nat) == 0);
        lemma_backward_is_reverse(b);
        assert(pixels_backward(v) =~= pixels_forward(v).reverse());
    } else {
        if v.0.len() > 0 {
            lemma_small_mod(v.0.len(), rb as nat);
        }
        assert(pixels_backward(v) =~= pixels_forward(v).reverse());
    }
}

/// Iterator over the rows of a glyph bitmap, from either end.
///
/// Each row takes `(width + 7) / 8` bytes; the iterator ends when fewer bytes remain.
#[derive(Clone, Copy)]
pub struct RowIter<'a> {
    data: &'a [u8],
    width: usize,
}

impl View for RowIter<'_> {
    /// The bytes not yet taken, and the width of a row in pixels.
    type V = (Seq<u8>, nat);

    closed spec fn view(&self) -> (Seq<u8>, nat) {
        (self.data@, self.width as nat)
    }
}

impl<'a> RowIter<'a> {
    /// An iterator over the rows of `data`, each `width` pixels wide.
    pub fn new(data: &'a [u8], width: usize) -> (r: RowIter<'a>)
        ensures
            r@ == (data@, width as nat),
    {
        RowIter { data, width }
    }

    /// The bytes of the glyph not yet taken: rows of `width` bits, each padded to whole bytes.
    pub fn data(&self) -> (r: &'a [u8])
        ensures
            r@ == self@.0,
    {
        self.data
    }

    fn row_size(&self) -> (r: usize)
        ensures
            r == row_bytes(self@.1),
    {
        self.width / 8 + if self.width % 8 != 0 {
            1
        } else {
            0
        }
    }

    /// The number of whole rows left.
    pub fn len(&self) -> (r: usize)
        requires
            self@.1 > 0,
        ensures
            r == self@.0.len() / row_bytes(self@.1),
    {
        self.data.len() / self.row_size()
    }

    /// Takes the first row left.
    pub fn next(&mut self) -> (r: Option<ColumnIter<'a>>)
        ensures
            old(self)@.0.len() < row_bytes(old(self)@.1) ==> r is None && final(self)@ == old(
                self,
            )@,
            old(self)@.0.len() >= row_bytes(old(self)@.1) ==> r is Some && r->0@ == pixels(
                front_row(old(self)@),
                0,
                old(self)@.1 as int,
            ) && r->0.bytes() == front_row(old(self)@) && final(self)@ == after_front(old(self)@),
    {
        let size = self.row_size();
        if self.data.len() < size {
            return None;
        }
        let row = slice_subrange(self.data, 0, size);
        self.data = slice_subrange(self.data, size, self.data.len());
        Some(ColumnIter::new(row, self.width))
    }

    /// Takes the last row left.
    pub fn next_back(&mut self) -> (r: Option<ColumnIter<'a>>)
        ensures
            old(self)@.0.len() < row_bytes(old(self)@.1) ==> r is None && final(self)@ == old(
                self,
            )@,
            old(self)@.0.len() >= row_bytes(old(self)@.1) ==> r is Some && r->0@ == pixels(
                back_row(old(self)@),
                0,
                old(self)@.1 as int,
            ) && r->0.bytes() == back_row(old(self)@) && final(self)@ == before_back(old(self)@),
    {
        let size = self.row_size();
        let len = self.data.len();
        if len < size {
            return None;
        }
        let row = slice_subrange(self.data, len - size, len);
        self.data = slice_subrange(self.data, 0, len - size);
        Some(ColumnIter::new(row, self.width))
    }
}

} // verus!
