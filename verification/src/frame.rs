use vstd::prelude::*;
use crate::order::{lemma_less_is_a_strict_order, less, INFINITY_BITS};

verus! {

/// The depth of a pixel onto which nothing has been drawn: positive
/// infinity, as a single-precision bit pattern. No fragment lies beyond it,
/// and a fragment at this depth is never drawn.
pub const DEPTH_FAR: u32 = INFINITY_BITS;

/// A colour of three bytes.
#[derive(Clone, Copy, Debug, PartialEq, Eq, Structural)]
pub struct Rgb {
    pub r: u8,
    pub g: u8,
    pub b: u8,
}

impl Rgb {
    /// The byte of the colour that stands at position `k` of a pixel: red,
    /// green, blue.
    pub open spec fn channel(self, k: int) -> u8 {
        if k == 0 {
            self.r
        } else if k == 1 {
            self.g
        } else {
            self.b
        }
    }
}

/// What the rasterizer has found for one pixel: the pixel's column and row,
/// counted from the top left corner, the depth of the surface there, as a
/// single-precision bit pattern, and its colour. A smaller depth is nearer
/// to the eye.
#[derive(Clone, Copy, Debug, PartialEq, Eq, Structural)]
pub struct Fragment {
    pub x: usize,
    pub y: usize,
    pub depth: u32,
    pub color: Rgb,
}

/// The state of a render target: its size, the colour it is cleared to, and
/// what its two buffers hold.
///
/// `colors` holds three bytes for each pixel, red, green and blue, row after
/// row from the top; `depths` holds one depth for each pixel in the same
/// order, as a single-precision bit pattern.
pub struct Frame {
    pub width: nat,
    pub height: nat,
    pub clear_color: Rgb,
    pub colors: Seq<u8>,
    pub depths: Seq<u32>,
}

impl Frame {
    /// Whether the buffers have the lengths that the size asks for.
    pub open spec fn wf(self) -> bool {
        &&& self.colors.len() == 3 * (self.width * self.height)
        &&& self.depths.len() == self.width * self.height
    }

    /// Whether the frame has a pixel in column `x` of row `y`.
    pub open spec fn contains(self, x: int, y: int) -> bool {
        0 <= x < self.width && 0 <= y < self.height
    }

    /// The place of a pixel in the depth buffer.
    pub open spec fn offset(self, x: int, y: int) -> int {
        y * self.width + x
    }

    /// The colour of a pixel.
    pub open spec fn color_at(self, x: int, y: int) -> Rgb {
        let i = 3 * self.offset(x, y);
        Rgb { r: self.colors[i], g: self.colors[i + 1], b: self.colors[i + 2] }
    }

    /// The depth of a pixel.
    pub open spec fn depth_at(self, x: int, y: int) -> u32 {
        self.depths[self.offset(x, y)]
    }

    /// The frame of a new render target of `w` columns and `h` rows: black
    /// all over, nothing drawn, and black as the clear colour.
    pub open spec fn blank(w: nat, h: nat) -> Frame {
        Frame {
            width: w,
            height: h,
            clear_color: Rgb { r: 0, g: 0, b: 0 },
            colors: Seq::new(3 * (w * h), |k: int| 0u8),
            depths: Seq::new(w * h, |k: int| DEPTH_FAR),
        }
    }

    /// The frame with every pixel set to the clear colour and the far depth.
    pub open spec fn cleared(self) -> Frame {
        Frame {
            colors: Seq::new(
                3 * (self.width * self.height),
                |k: int| self.clear_color.channel(k % 3),
            ),
            depths: Seq::new(self.width * self.height, |k: int| DEPTH_FAR),
            ..self
        }
    }

    /// The frame with another clear colour.
    pub open spec fn with_clear_color(self, color: Rgb) -> Frame {
        Frame { clear_color: color, ..self }
    }

    /// The frame with the depth of one pixel replaced.
    pub open spec fn with_depth(self, x: int, y: int, depth: u32) -> Frame {
        Frame { depths: self.depths.update(self.offset(x, y), depth), ..self }
    }

    /// The frame with the colour of one pixel replaced.
    pub open spec fn with_color(self, x: int, y: int, color: Rgb) -> Frame {
        let i = 3 * self.offset(x, y);
        Frame {
            colors: self.colors.update(i, color.r).update(i + 1, color.g).update(i + 2, color.b),
            ..self
        }
    }

    /// The depth test: a fragment is drawn only if its depth is strictly
    /// below the depth that its pixel holds. A depth that is not a number is
    /// below nothing.
    pub open spec fn passes(self, f: Fragment) -> bool {
        less(f.depth, self.depth_at(f.x as int, f.y as int))
    }

    /// The frame after one fragment: where the fragment passes the depth
    /// test, its pixel takes the fragment's depth and colour; otherwise
    /// nothing changes.
    pub open spec fn plot(self, f: Fragment) -> Frame {
        if self.passes(f) {
            self.with_depth(f.x as int, f.y as int, f.depth).with_color(
                f.x as int,
                f.y as int,
                f.color,
            )
        } else {
            self
        }
    }

    /// The frame after a run of fragments, taken in order.
    pub open spec fn plot_all(self, fs: Seq<Fragment>) -> Frame
        decreases fs.len(),
    {
        if fs.len() == 0 {
            self
        } else {
            self.plot_all(fs.drop_last()).plot(fs.last())
        }
    }

    /// Whether every fragment of a run names a pixel of the frame.
    pub open spec fn contains_all(self, fs: Seq<Fragment>) -> bool {
        forall|k: int| 0 <= k < fs.len() ==> self.contains(#[trigger] fs[k].x as int, fs[k].y as int)
    }
}

/// A pixel of the frame has its place within the buffers.
pub proof fn lemma_offset_in_range(m: Frame, x: int, y: int)
    requires
        m.contains(x, y),
    ensures
        0 <= m.offset(x, y) < m.width * m.height,
        0 <= 3 * m.offset(x, y),
        3 * m.offset(x, y) + 2 < 3 * (m.width * m.height),
{
    let w = m.width as int;
    let h = m.height as int;
    assert(y * w + x < h * w) by (nonlinear_arith)
        requires
            0 <= x < w,
            0 <= y < h,
    ;
    assert(0 <= y * w) by (nonlinear_arith)
        requires
            0 <= y,
            0 <= w,
    ;
    assert(h * w == w * h) by (nonlinear_arith);
}

/// Two pixels of the frame that differ have different places in the
/// buffers.
pub proof fn lemma_offset_is_one_to_one(m: Frame, x1: int, y1: int, x2: int, y2: int)
    requires
        m.contains(x1, y1),
        m.contains(x2, y2),
        m.offset(x1, y1) == m.offset(x2, y2),
    ensures
        x1 == x2,
        y1 == y2,
{
    let w = m.width as int;
    if y1 < y2 {
        assert(y2 * w >= (y1 + 1) * w) by (nonlinear_arith)
            requires
                y1 < y2,
                0 <= w,
        ;
        assert((y1 + 1) * w == y1 * w + w) by (nonlinear_arith);
    } else if y2 < y1 {
        assert(y1 * w >= (y2 + 1) * w) by (nonlinear_arith)
            requires
                y2 < y1,
                0 <= w,
        ;
        assert((y2 + 1) * w == y2 * w + w) by (nonlinear_arith);
    }
}

/// Drawing a fragment changes neither the size of the frame, nor its clear
/// colour, nor the lengths of its buffers.
pub proof fn lemma_plot_keeps_shape(m: Frame, f: Fragment)
    requires
        m.wf(),
        m.contains(f.x as int, f.y as int),
    ensures
        m.plot(f).wf(),
        m.plot(f).width == m.width,
        m.plot(f).height == m.height,
        m.plot(f).clear_color == m.clear_color,
{
    lemma_offset_in_range(m, f.x as int, f.y as int);
}

/// Drawing a run of fragments changes neither the size of the frame, nor
/// its clear colour, nor the lengths of its buffers.
pub proof fn lemma_plot_all_keeps_shape(m: Frame, fs: Seq<Fragment>)
    requires
        m.wf(),
        m.contains_all(fs),
    ensures
        m.plot_all(fs).wf(),
        m.plot_all(fs).width == m.width,
        m.plot_all(fs).height == m.height,
        m.plot_all(fs).clear_color == m.clear_color,
    decreases fs.len(),
{
    if fs.len() > 0 {
        lemma_plot_all_keeps_shape(m, fs.drop_last());
        lemma_plot_keeps_shape(m.plot_all(fs.drop_last()), fs.last());
    }
}

/// A pixel at which a fragment is drawn takes the fragment's depth and
/// colour if that depth is below its own, and keeps both if not; every other
/// pixel keeps its depth and its colour.
pub proof fn lemma_plot_pixels(m: Frame, f: Fragment, x: int, y: int)
    requires
        m.wf(),
        m.contains(f.x as int, f.y as int),
        m.contains(x, y),
    ensures
        (x != f.x || y != f.y) ==> m.plot(f).depth_at(x, y) == m.depth_at(x, y) && m.plot(
            f,
        ).color_at(x, y) == m.color_at(x, y),
        (x == f.x && y == f.y) ==> m.plot(f).depth_at(x, y) == (if less(f.depth, m.depth_at(x, y)) {
            f.depth
        } else {
            m.depth_at(x, y)
        }) && m.plot(f).color_at(x, y) == (if less(f.depth, m.depth_at(x, y)) {
            f.color
        } else {
            m.color_at(x, y)
        }),
{
    lemma_offset_in_range(m, f.x as int, f.y as int);
    lemma_offset_in_range(m, x, y);
    if x != f.x || y != f.y {
        if m.offset(x, y) == m.offset(f.x as int, f.y as int) {
            lemma_offset_is_one_to_one(m, x, y, f.x as int, f.y as int);
        }
    }
}

/// The depth invariant. After a run of fragments a pixel holds the least
/// among the depth it had before and the depths of the fragments drawn at
/// it: no fragment drawn at it lies below what it holds, and what it holds
/// is the depth it had, or lies below that and is the depth of one of the
/// fragments.
pub proof fn lemma_depth_is_least(m: Frame, fs: Seq<Fragment>, x: int, y: int)
    requires
        m.wf(),
        m.contains_all(fs),
        m.contains(x, y),
    ensures
        forall|k: int|
            0 <= k < fs.len() && (#[trigger] fs[k]).x == x && fs[k].y == y ==> !less(
                fs[k].depth,
                m.plot_all(fs).depth_at(x, y),
            ),
        m.plot_all(fs).depth_at(x, y) == m.depth_at(x, y) || (less(
            m.plot_all(fs).depth_at(x, y),
            m.depth_at(x, y),
        ) && exists|k: int|
            0 <= k < fs.len() && (#[trigger] fs[k]).x == x && fs[k].y == y && m.plot_all(
                fs,
            ).depth_at(x, y) == fs[k].depth),
    decreases fs.len(),
{
    if fs.len() > 0 {
        let head = fs.drop_last();
        let f = fs.last();
        let before = m.plot_all(head);
        lemma_depth_is_least(m, head, x, y);
        lemma_plot_all_keeps_shape(m, head);
        lemma_plot_pixels(before, f, x, y);
        let held = before.depth_at(x, y);
        let after = before.plot(f).depth_at(x, y);
        assert forall|k: int| 0 <= k < fs.len() && (#[trigger] fs[k]).x == x && fs[k].y
            == y implies !less(fs[k].depth, after) by {
            lemma_less_is_a_strict_order(fs[k].depth, after, held);
            if k < head.len() {
                assert(head[k] == fs[k]);
            }
        }
        if after == held {
            if held != m.depth_at(x, y) {
                let k = choose|k: int|
                    0 <= k < head.len() && (#[trigger] head[k]).x == x && head[k].y == y && held
                        == head[k].depth;
                assert(fs[k] == head[k]);
            }
        } else {
            lemma_less_is_a_strict_order(after, held, m.depth_at(x, y));
            assert(fs[fs.len() - 1] == f);
        }
    }
}

/// A pixel at which no fragment of a run is drawn keeps its depth and its
/// colour.
pub proof fn lemma_untouched_pixel(m: Frame, fs: Seq<Fragment>, x: int, y: int)
    requires
        m.wf(),
        m.contains_all(fs),
        m.contains(x, y),
        forall|k: int| 0 <= k < fs.len() ==> (#[trigger] fs[k]).x != x || fs[k].y != y,
    ensures
        m.plot_all(fs).depth_at(x, y) == m.depth_at(x, y),
        m.plot_all(fs).color_at(x, y) == m.color_at(x, y),
    decreases fs.len(),
{
    if fs.len() > 0 {
        let head = fs.drop_last();
        assert forall|k: int| 0 <= k < head.len() implies (#[trigger] head[k]).x != x || head[k].y
            != y by {
            assert(head[k] == fs[k]);
        }
        lemma_untouched_pixel(m, head, x, y);
        lemma_plot_all_keeps_shape(m, head);
        lemma_plot_pixels(m.plot_all(head), fs.last(), x, y);
    }
}

/// A run of fragments of which none is nearer than what its pixel holds
/// leaves the frame as it is.
pub proof fn lemma_hidden_fragments(m: Frame, fs: Seq<Fragment>)
    requires
        forall|k: int| 0 <= k < fs.len() ==> !m.passes(#[trigger] fs[k]),
    ensures
        m.plot_all(fs) == m,
    decreases fs.len(),
{
    if fs.len() > 0 {
        let head = fs.drop_last();
        assert forall|k: int| 0 <= k < head.len() implies !m.passes(#[trigger] head[k]) by {
            assert(head[k] == fs[k]);
        }
        lemma_hidden_fragments(m, head);
    }
}

/// Drawing two runs of fragments one after the other is drawing the one
/// run that joins them.
pub proof fn lemma_plot_all_joined(m: Frame, a: Seq<Fragment>, b: Seq<Fragment>)
    ensures
        m.plot_all(a + b) == m.plot_all(a).plot_all(b),
    decreases b.len(),
{
    if b.len() == 0 {
        assert(a + b =~= a);
    } else {
        assert((a + b).drop_last() =~= a + b.drop_last());
        assert((a + b).last() == b.last());
        lemma_plot_all_joined(m, a, b.drop_last());
    }
}

/// Drawing is idempotent. When a run of fragments is drawn a second time,
/// with nothing drawn or cleared in between, every fragment fails the depth
/// test and the frame, colours and depths, stays as the first drawing left
/// it.
pub proof fn lemma_redraw_changes_nothing(m: Frame, fs: Seq<Fragment>)
    requires
        m.wf(),
        m.contains_all(fs),
    ensures
        forall|k: int| 0 <= k < fs.len() ==> !m.plot_all(fs).passes(#[trigger] fs[k]),
        m.plot_all(fs).plot_all(fs) == m.plot_all(fs),
        m.plot_all(fs + fs) == m.plot_all(fs),
{
    let drawn = m.plot_all(fs);
    assert forall|k: int| 0 <= k < fs.len() implies !drawn.passes(#[trigger] fs[k]) by {
        lemma_depth_is_least(m, fs, fs[k].x as int, fs[k].y as int);
    }
    lemma_hidden_fragments(drawn, fs);
    lemma_plot_all_joined(m, fs, fs);
}

/// In a cleared frame every pixel has the clear colour and the far depth.
pub proof fn lemma_cleared_pixels(m: Frame, x: int, y: int)
    requires
        m.contains(x, y),
    ensures
        m.cleared().wf(),
        m.cleared().color_at(x, y) == m.clear_color,
        m.cleared().depth_at(x, y) == DEPTH_FAR,
{
    lemma_offset_in_range(m, x, y);
    let i = 3 * m.offset(x, y);
    assert(i % 3 == 0 && (i + 1) % 3 == 1 && (i + 2) % 3 == 2);
}

} // verus!
