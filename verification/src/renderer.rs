use vstd::prelude::*;
use crate::frame::{lemma_offset_in_range, lemma_plot_keeps_shape, Fragment, Frame, Rgb, DEPTH_FAR};
use crate::order::{is_less, less};

verus! {

/// A render target: a colour buffer and a depth buffer of one size, with the
/// depth test that guards them.
///
/// The colour buffer holds three bytes for each pixel, red, green and blue,
/// row after row from the top left corner. The depth buffer holds one depth
/// for each pixel, as a single-precision bit pattern; a smaller depth is
/// nearer, and a fragment is drawn only where its depth is strictly below
/// the depth that its pixel holds. Both buffers keep
/// the size they were made with: every operation asks for, and keeps,
/// `self@.wf()`.
pub struct Renderer {
    width: usize,
    height: usize,
    clear_color: Rgb,
    color_buffer: Vec<u8>,
    depth_buffer: Vec<u32>,
}

impl View for Renderer {
    type V = Frame;

    closed spec fn view(&self) -> Frame {
        Frame {
            width: self.width as nat,
            height: self.height as nat,
            clear_color: self.clear_color,
            colors: self.color_buffer@,
            depths: self.depth_buffer@,
        }
    }
}

impl Renderer {
    /// A render target of `w` columns and `h` rows: black all over, with
    /// every depth at infinity. The depth buffer takes four bytes for each
    /// pixel, and no buffer can be larger than `isize::MAX` bytes.
    pub fn new(w: usize, h: usize) -> (r: Renderer)
        requires
            w * h * 4 <= isize::MAX,
        ensures
            r@ == Frame::blank(w as nat, h as nat),
            r@.wf(),
    {
        assert(0 <= w * h) by (nonlinear_arith)
            requires
                0 <= w,
                0 <= h,
        ;
        let n: usize = w * h;
        let color_buffer = vec![0u8; n * 3];
        let depth_buffer = vec![DEPTH_FAR; n];
        assert(color_buffer@ =~= Seq::new(3 * (w as nat * h as nat), |k: int| 0u8));
        assert(depth_buffer@ =~= Seq::new(w as nat * h as nat, |k: int| DEPTH_FAR));
        Renderer {
            width: w,
            height: h,
            clear_color: Rgb { r: 0, g: 0, b: 0 },
            color_buffer,
            depth_buffer,
        }
    }

    /// The number of columns.
    pub fn width(&self) -> (w: usize)
        ensures
            w == self@.width,
    {
        self.width
    }

    /// The number of rows.
    pub fn height(&self) -> (h: usize)
        ensures
            h == self@.height,
    {
        self.height
    }

    /// Whether the target has a pixel in column `x` of row `y`.
    pub fn contains(&self, x: usize, y: usize) -> (r: bool)
        ensures
            r == self@.contains(x as int, y as int),
    {
        x < self.width && y < self.height
    }

    /// Sets the colour that `clear` fills the colour buffer with.
    pub fn clear_color(&mut self, r: u8, g: u8, b: u8)
        requires
            old(self)@.wf(),
        ensures
            final(self)@ == old(self)@.with_clear_color((Rgb { r, g, b })),
            final(self)@.wf(),
    {
        self.clear_color = Rgb { r, g, b };
    }

    /// The colour buffer: three bytes for each pixel, row after row.
    pub fn get_color_buffer(&self) -> (buf: &[u8])
        ensures
            buf@ == self@.colors,
    {
        self.color_buffer.as_slice()
    }

    /// Sets every pixel to the clear colour and to the far depth.
    pub fn clear(&mut self)
        requires
            old(self)@.wf(),
        ensures
            final(self)@ == old(self)@.cleared(),
            final(self)@.wf(),
    {
        let n: usize = self.color_buffer.len();
        let mut i: usize = 0;
        while i < n
            invariant
                i <= n,
                n == self.color_buffer@.len(),
                self.width == old(self).width,
                self.height == old(self).height,
                self.clear_color == old(self).clear_color,
                self.depth_buffer == old(self).depth_buffer,
                old(self)@.wf(),
                forall|k: int|
                    0 <= k < i ==> self.color_buffer@[k] == self.clear_color.channel(k % 3),
            decreases n - i,
        {
            let c: u8 = if i % 3 == 0 {
                self.clear_color.r
            } else if i % 3 == 1 {
                self.clear_color.g
            } else {
                self.clear_color.b
            };
            self.color_buffer.set(i, c);
            i = i + 1;
        }
        let m: usize = self.depth_buffer.len();
        let mut j: usize = 0;
        while j < m
            invariant
                j <= m,
                m == self.depth_buffer@.len(),
                m == old(self).depth_buffer@.len(),
                self.width == old(self).width,
                self.height == old(self).height,
                self.clear_color == old(self).clear_color,
                old(self)@.wf(),
                self.color_buffer@ =~= old(self)@.cleared().colors,
                forall|k: int| 0 <= k < j ==> self.depth_buffer@[k] == DEPTH_FAR,
            decreases m - j,
        {
            self.depth_buffer.set(j, DEPTH_FAR);
            j = j + 1;
        }
        assert(self.depth_buffer@ =~= old(self)@.cleared().depths);
    }

    /// The depth test. Where `depth` is strictly below the depth the pixel
    /// holds, the pixel takes it and the test is passed; otherwise the
    /// pixel keeps its depth. Both are single-precision bit patterns, and a
    /// depth that is not a number never passes.
    pub fn set_depth(&mut self, x: usize, y: usize, depth: u32) -> (passed: bool)
        requires
            old(self)@.wf(),
            old(self)@.contains(x as int, y as int),
        ensures
            passed == less(depth, old(self)@.depth_at(x as int, y as int)),
            passed ==> final(self)@ == old(self)@.with_depth(x as int, y as int, depth),
            !passed ==> final(self)@ == old(self)@,
            final(self)@.wf(),
    {
        proof {
            lemma_offset_in_range(self@, x as int, y as int);
            assert(self.width * y == y * self.width) by (nonlinear_arith);
            assert(self.depth_buffer@.len() == self.depth_buffer.len());
        }
        let pos: usize = self.width * y + x;
        if is_less(depth, self.depth_buffer[pos]) {
            self.depth_buffer.set(pos, depth);
            return true;
        }
        false
    }

    /// Writes the colour of one pixel.
    pub fn set_color(&mut self, x: usize, y: usize, color: Rgb)
        requires
            old(self)@.wf(),
            old(self)@.contains(x as int, y as int),
        ensures
            final(self)@ == old(self)@.with_color(x as int, y as int, color),
            final(self)@.wf(),
    {
        proof {
            lemma_offset_in_range(self@, x as int, y as int);
            assert(self.width * y == y * self.width) by (nonlinear_arith);
            assert(self.color_buffer@.len() == self.color_buffer.len());
        }
        let pos: usize = (self.width * y + x) * 3;
        self.color_buffer.set(pos, color.r);
        self.color_buffer.set(pos + 1, color.g);
        self.color_buffer.set(pos + 2, color.b);
    }

    /// Draws one fragment: its pixel takes the fragment's depth and colour
    /// if the fragment passes the depth test, and nothing changes if it
    /// does not.
    pub fn draw_fragment(&mut self, f: &Fragment) -> (drawn: bool)
        requires
            old(self)@.wf(),
            old(self)@.contains(f.x as int, f.y as int),
        ensures
            drawn == old(self)@.passes(*f),
            final(self)@ == old(self)@.plot(*f),
            final(self)@.wf(),
    {
        if self.set_depth(f.x, f.y, f.depth) {
            self.set_color(f.x, f.y, f.color);
            true
        } else {
            false
        }
    }

    /// Draws a run of fragments in order, each against what the ones before
    /// it have left.
    pub fn draw_fragments(&mut self, fragments: &Vec<Fragment>)
        requires
            old(self)@.wf(),
            old(self)@.contains_all(fragments@),
        ensures
            final(self)@ == old(self)@.plot_all(fragments@),
            final(self)@.wf(),
    {
        let mut i: usize = 0;
        while i < fragments.len()
            invariant
                i <= fragments.len(),
                old(self)@.wf(),
                old(self)@.contains_all(fragments@),
                self@.wf(),
                self@.width == old(self)@.width,
                self@.height == old(self)@.height,
                self@ == old(self)@.plot_all(fragments@.take(i as int)),
            decreases fragments.len() - i,
        {
            proof {
                let done = fragments@.take(i as int);
                let more = fragments@.take(i + 1);
                assert(more.drop_last() =~= done);
                assert(more.last() == fragments@[i as int]);
                lemma_plot_keeps_shape(self@, fragments@[i as int]);
            }
            self.draw_fragment(&fragments[i]);
            i = i + 1;
        }
        assert(fragments@.take(i as int) =~= fragments@);
    }
}

} // verus!
