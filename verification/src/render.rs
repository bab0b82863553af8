//! The renderer and backend interfaces over a pixel format `P`.
use vstd::prelude::*;
use crate::icon::Icon;
use crate::input::InputEvent;
use crate::pixel::PixelFormat;

verus! {

/// Sum of `f` over the elements of `s`.
pub open spec fn sum_of<A>(s: Seq<A>, f: spec_fn(A) -> nat) -> int
    decreases s.len(),
{
    if s.len() == 0 {
        0
    } else {
        sum_of(s.drop_last(), f) + f(s.last())
    }
}

pub proof fn lemma_sum_of_nonneg<A>(s: Seq<A>, f: spec_fn(A) -> nat)
    ensures
        sum_of(s, f) >= 0,
    decreases s.len(),
{
    if s.len() > 0 {
        lemma_sum_of_nonneg(s.drop_last(), f);
    }
}

pub proof fn lemma_sum_of_prefix_le<A>(s: Seq<A>, f: spec_fn(A) -> nat, k: int)
    requires
        0 <= k <= s.len(),
    ensures
        0 <= sum_of(s.take(k), f) <= sum_of(s, f),
    decreases s.len() - k,
{
    if k < s.len() {
        lemma_sum_of_prefix_le(s, f, k + 1);
        assert(s.take(k + 1).drop_last() =~= s.take(k));
        lemma_sum_of_nonneg(s.take(k), f);
    } else {
        assert(s.take(k) =~= s);
        lemma_sum_of_nonneg(s, f);
    }
}

/// A glyph atlas that draws text into a flat row-major buffer of `P` pixels.
pub trait Renderer<P: PixelFormat> {
    /// Height of one glyph row in pixels.
    spec fn spec_cell_height(&self) -> nat;

    /// Advance width of `c` in pixels.
    spec fn spec_char_width(&self, c: char) -> nat;

    /// Blitting `text` at `(x, y)` into a buffer of `len` pixels with `stride`
    /// pixels per row neither overflows nor writes past the buffer.
    spec fn can_blit(&self, len: nat, stride: nat, x: nat, y: nat, text: Seq<char>) -> bool;

    /// The buffer after blitting `text` at `(x, y)`, and the x coordinate just
    /// past the last glyph drawn.
    spec fn spec_blit(&self, fb: Seq<P>, stride: nat, x: nat, y: nat, text: Seq<char>) -> (Seq<P>, nat);

    /// Blitting the character `c` at `(x, y)` stays inside `usize`.
    spec fn can_blit_char(&self, len: nat, stride: nat, x: nat, y: nat, c: char) -> bool;

    /// The buffer after blitting `c` at `(x, y)`, and the x coordinate past it.
    spec fn spec_blit_char(&self, fb: Seq<P>, stride: nat, x: nat, y: nat, c: char) -> (Seq<P>, nat);

    /// Draws `text` into `fb` and returns the x coordinate just past the last
    /// drawn pixel.
    fn blit(&self, fb: &mut [P], stride: usize, x: usize, y: usize, text: &str) -> (end: usize)
        requires
            self.can_blit(old(fb)@.len(), stride as nat, x as nat, y as nat, text@),
        ensures
            (final(fb)@, end as nat) == self.spec_blit(old(fb)@, stride as nat, x as nat, y as nat, text@),
    ;

    /// Draws a single character and returns the x coordinate past it.
    fn blit_char(&self, fb: &mut [P], stride: usize, x: usize, y: usize, ch: char) -> (end: usize)
        requires
            self.can_blit_char(old(fb)@.len(), stride as nat, x as nat, y as nat, ch),
        ensures
            (final(fb)@, end as nat) == self.spec_blit_char(old(fb)@, stride as nat, x as nat, y as nat, ch),
    ;

    fn cell_height(&self) -> (h: usize)
        ensures
            h == self.spec_cell_height(),
    ;

    fn char_width(&self, c: char) -> (w: usize)
        ensures
            w == self.spec_char_width(c),
    ;

    /// What an atlas that measures text its own way needs, beyond the sum of
    /// the character widths fitting in `usize`, to measure `text`.
    open spec fn text_width_ok(&self, text: Seq<char>) -> bool {
        true
    }

    /// Width of a rendered string: by default the sum of the advance widths of its characters.
    fn text_width(&self, text: &str) -> (w: usize)
        requires
            sum_of(text@, |c: char| self.spec_char_width(c)) <= usize::MAX,
            self.text_width_ok(text@),
        default_ensures
            w == sum_of(text@, |c: char| self.spec_char_width(c)),
    {
        let n = text.unicode_len();
        let mut acc: usize = 0;
        let mut i: usize = 0;
        while i < n
            invariant
                i <= n == text@.len(),
                sum_of(text@, |c: char| self.spec_char_width(c)) <= usize::MAX,
                acc == sum_of(text@.take(i as int), |c: char| self.spec_char_width(c)),
            decreases n - i,
        {
            let c = text.get_char(i);
            proof {
                assert(text@.take(i + 1).drop_last() =~= text@.take(i as int));
                lemma_sum_of_prefix_le(text@, |c: char| self.spec_char_width(c), i + 1);
            }
            acc = acc + self.char_width(c);
            i = i + 1;
        }
        assert(text@.take(n as int) =~= text@);
        acc
    }
}

/// The summed advance width of the characters of `s`.
pub open spec fn chars_width<P: PixelFormat, R: ?Sized + Renderer<P>>(atlas: &R, s: Seq<char>) -> int
    decreases s.len(),
{
    if s.len() == 0 {
        0
    } else {
        chars_width(atlas, s.drop_last()) + atlas.spec_char_width(s.last())
    }
}

/// The summed advance width of the first `k` characters of `text`.
pub open spec fn prefix_width<P: PixelFormat, R: ?Sized + Renderer<P>>(atlas: &R, text: Seq<char>, k: int) -> int {
    chars_width(atlas, text.take(k))
}

/// The number of leading characters of `text` (from `i` on) that fit between
/// `x` and `max_x`: characters are taken while the text drawn so far still
/// ends at or before `max_x`.
pub open spec fn fit_len<P: PixelFormat, R: ?Sized + Renderer<P>>(
    atlas: &R,
    text: Seq<char>,
    x: int,
    max_x: int,
    i: int,
) -> int
    decreases text.len() - i,
{
    if i < 0 || i >= text.len() {
        text.len() as int
    } else if x + prefix_width(atlas, text, i + 1) > max_x {
        i
    } else {
        fit_len(atlas, text, x, max_x, i + 1)
    }
}

/// Counting the characters of `text` that fit after `x` does not overflow:
/// the first character that does not fit still ends inside `usize`.
pub open spec fn fit_ok<P: PixelFormat, R: ?Sized + Renderer<P>>(atlas: &R, text: Seq<char>, x: int, max_x: int) -> bool {
    let k = fit_len(atlas, text, x, max_x, 0);
    k < text.len() ==> x + prefix_width(atlas, text, k + 1) <= usize::MAX
}

/// The number of leading characters of `text` that fit between `x` and `max_x`.
pub fn fit_count<P: PixelFormat, R: ?Sized + Renderer<P>>(atlas: &R, text: &str, x: usize, max_x: usize) -> (k: usize)
    requires
        fit_ok(atlas, text@, x as int, max_x as int),
    ensures
        k == fit_len(atlas, text@, x as int, max_x as int, 0),
{
    let ghost k = fit_len(atlas, text@, x as int, max_x as int, 0);
    let n = text.unicode_len();
    let mut w: usize = 0;
    let mut end: usize = 0;
    proof {
        lemma_fit_len_ge(atlas, text@, x as int, max_x as int, 0);
        assert(text@.take(0) =~= Seq::<char>::empty());
    }
    while end < n
        invariant
            end <= k <= n == text@.len(),
            k == fit_len(atlas, text@, x as int, max_x as int, 0),
            k == fit_len(atlas, text@, x as int, max_x as int, end as int),
            w == prefix_width(atlas, text@, end as int),
            k < text@.len() ==> x + prefix_width(atlas, text@, k + 1) <= usize::MAX,
        ensures
            end == k,
        decreases n - end,
    {
        let c = text.get_char(end);
        proof {
            assert(text@.take(end + 1).drop_last() =~= text@.take(end as int));
            lemma_fit_len_ge(atlas, text@, x as int, max_x as int, end + 1);
        }
        let cw = atlas.char_width(c);
        proof {
            assert(text@.take(end + 1).last() == c);
            assert(prefix_width(atlas, text@, end + 1) == w + cw);
        }
        if x + w + cw > max_x {
            break;
        }
        w = w + cw;
        end = end + 1;
    }
    end
}

/// A display surface for pixels of format `P`, drawn on by atlases of type `A`
/// (any renderer, `dyn Renderer<P>`, by default).
pub trait Backend<P: PixelFormat, A: ?Sized + Renderer<P> = dyn Renderer<P>> {
    /// `fill_rect(x, y, w, h)` neither overflows nor writes past the surface;
    /// a backend that does not say otherwise clips every rectangle itself.
    open spec fn fill_ok(&self, x: nat, y: nat, w: nat, h: nat) -> bool {
        true
    }

    /// Blitting `text` with `atlas` at `(x, y)` neither overflows nor writes
    /// past the surface; a backend that does not say otherwise takes any text.
    open spec fn blit_ok(&self, atlas: &A, x: nat, y: nat, text: Seq<char>) -> bool {
        true
    }

    /// `end` is what blitting `text` at `(x, y)` returns; a backend that does
    /// not say otherwise promises nothing.
    open spec fn blit_returns(&self, atlas: &A, x: nat, y: nat, text: Seq<char>, end: nat) -> bool {
        true
    }

    /// Blitting the character `c` at `(x, y)` neither overflows nor writes past
    /// the surface; a backend that does not say otherwise takes any character.
    open spec fn blit_char_ok(&self, atlas: &A, x: nat, y: nat, c: char) -> bool {
        true
    }

    /// Blending `icon` in neither overflows nor writes past the surface; a
    /// backend that does not say otherwise takes any icon.
    open spec fn alpha_ok(&self, icon: Icon) -> bool {
        true
    }

    /// The pixels of the surface, row by row, as far as the backend shows
    /// them; the hooks below speak of it.
    open spec fn surface(&self) -> Seq<P> {
        Seq::empty()
    }

    /// `after` is the surface that clearing with `color` leaves; a backend
    /// that does not say otherwise promises nothing.
    open spec fn clears(&self, color: P, after: Seq<P>) -> bool {
        true
    }

    /// `after` is the surface that filling the rectangle leaves; a backend
    /// that does not say otherwise promises nothing.
    open spec fn fills(&self, x: nat, y: nat, w: nat, h: nat, color: P, after: Seq<P>) -> bool {
        true
    }

    /// `after` and `end` are the surface and the pen that blitting `text` at
    /// `(x, y)` leaves; a backend that does not say otherwise promises nothing.
    open spec fn blits(&self, atlas: &A, x: nat, y: nat, text: Seq<char>, after: Seq<P>, end: nat) -> bool {
        true
    }

    /// `after` and `end` are the surface and the pen that blitting `c` at
    /// `(x, y)` leaves; a backend that does not say otherwise promises nothing.
    open spec fn blits_char(&self, atlas: &A, x: nat, y: nat, c: char, after: Seq<P>, end: nat) -> bool {
        true
    }

    /// `after` is the surface that blending `icon` in leaves; a backend that
    /// does not say otherwise promises nothing.
    open spec fn blends(&self, icon: Icon, fg: P, bg: P, after: Seq<P>) -> bool {
        true
    }

    /// The backend has no input: polling it never reports an event.
    open spec fn quiet(&self) -> bool {
        false
    }

    /// Fills the whole surface with `color`.
    fn clear(&mut self, color: P)
        ensures
            old(self).clears(color, final(self).surface()),
    ;

    /// Fills an axis-aligned rectangle with `color`.
    fn fill_rect(&mut self, x: usize, y: usize, w: usize, h: usize, color: P)
        requires
            old(self).fill_ok(x as nat, y as nat, w as nat, h as nat),
        ensures
            old(self).fills(x as nat, y as nat, w as nat, h as nat, color, final(self).surface()),
    ;

    /// Draws `text` with `atlas` at `(x, y)`; returns the x past the last glyph.
    fn blit(&mut self, atlas: &A, x: usize, y: usize, text: &str) -> (end: usize)
        requires
            old(self).blit_ok(atlas, x as nat, y as nat, text@),
        ensures
            old(self).blit_returns(atlas, x as nat, y as nat, text@, end as nat),
            old(self).blits(atlas, x as nat, y as nat, text@, final(self).surface(), end as nat),
    ;

    /// Draws one character with `atlas` at `(x, y)`; returns the x past it.
    fn blit_char(&mut self, atlas: &A, x: usize, y: usize, ch: char) -> (end: usize)
        requires
            old(self).blit_char_ok(atlas, x as nat, y as nat, ch),
        ensures
            old(self).blits_char(atlas, x as nat, y as nat, ch, final(self).surface(), end as nat),
    ;

    /// Blends an alpha-mask icon between `fg` and `bg`.
    fn blit_alpha(&mut self, icon: &Icon, fg: P, bg: P)
        requires
            old(self).alpha_ok(*icon),
        ensures
            old(self).blends(*icon, fg, bg, final(self).surface()),
    ;

    /// Draws the longest leading part of `text` that ends at or before `max_x`
    /// (characters are taken while they fit); returns what `blit` returns for it.
    fn blit_clipped(
        &mut self,
        atlas: &A,
        x: usize,
        y: usize,
        text: &str,
        max_x: usize,
    ) -> (end: usize)
        requires
            fit_ok(atlas, text@, x as int, max_x as int),
            old(self).blit_ok(atlas, x as nat, y as nat, text@.take(fit_len(atlas, text@, x as int, max_x as int, 0))),
        ensures
            old(self).blit_returns(
                atlas,
                x as nat,
                y as nat,
                text@.take(fit_len(atlas, text@, x as int, max_x as int, 0)),
                end as nat,
            ),
            old(self).blits(
                atlas,
                x as nat,
                y as nat,
                text@.take(fit_len(atlas, text@, x as int, max_x as int, 0)),
                final(self).surface(),
                end as nat,
            ),
    {
        let end = fit_count(atlas, text, x, max_x);
        proof {
            lemma_fit_len_ge(atlas, text@, x as int, max_x as int, 0);
        }
        let prefix = text.substring_char(0, end);
        assert(prefix@ =~= text@.take(end as int));
        assert(end as int == fit_len(atlas, text@, x as int, max_x as int, 0));
        assert(prefix@ == text@.take(fit_len(atlas, text@, x as int, max_x as int, 0)));
        self.blit(atlas, x, y, prefix)
    }

    /// Drains pending input events and returns them; none by default.
    fn poll_events(&mut self) -> (events: &[InputEvent])
        ensures
            old(self).quiet() ==> events@.len() == 0,
        default_ensures
            events@.len() == 0,
    {
        &[]
    }

    /// Presents the completed frame; does nothing by default.
    fn flush(&mut self) {
    }
}

pub proof fn lemma_chars_width_nonneg<P: PixelFormat, R: ?Sized + Renderer<P>>(atlas: &R, s: Seq<char>)
    ensures
        chars_width(atlas, s) >= 0,
    decreases s.len(),
{
    if s.len() > 0 {
        lemma_chars_width_nonneg(atlas, s.drop_last());
    }
}

pub proof fn lemma_fit_len_ge<P: PixelFormat, R: ?Sized + Renderer<P>>(
    atlas: &R,
    text: Seq<char>,
    x: int,
    max_x: int,
    i: int,
)
    requires
        0 <= i <= text.len(),
    ensures
        i <= fit_len(atlas, text, x, max_x, i) <= text.len(),
    decreases text.len() - i,
{
    if i < text.len() && x + prefix_width(atlas, text, i + 1) <= max_x {
        lemma_fit_len_ge(atlas, text, x, max_x, i + 1);
    }
}


/// A boxed backend draws through the backend it holds.
impl<P: PixelFormat> Backend<P> for Box<dyn Backend<P>> {
    open spec fn fill_ok(&self, x: nat, y: nat, w: nat, h: nat) -> bool {
        (**self).fill_ok(x, y, w, h)
    }

    open spec fn blit_ok(&self, atlas: &(dyn Renderer<P> + 'static), x: nat, y: nat, text: Seq<char>) -> bool {
        (**self).blit_ok(atlas, x, y, text)
    }

    open spec fn blit_returns(&self, atlas: &(dyn Renderer<P> + 'static), x: nat, y: nat, text: Seq<char>, end: nat) -> bool {
        (**self).blit_returns(atlas, x, y, text, end)
    }

    open spec fn blit_char_ok(&self, atlas: &(dyn Renderer<P> + 'static), x: nat, y: nat, c: char) -> bool {
        (**self).blit_char_ok(atlas, x, y, c)
    }

    open spec fn alpha_ok(&self, icon: Icon) -> bool {
        (**self).alpha_ok(icon)
    }

    open spec fn surface(&self) -> Seq<P> {
        (**self).surface()
    }

    open spec fn clears(&self, color: P, after: Seq<P>) -> bool {
        (**self).clears(color, after)
    }

    open spec fn fills(&self, x: nat, y: nat, w: nat, h: nat, color: P, after: Seq<P>) -> bool {
        (**self).fills(x, y, w, h, color, after)
    }

    open spec fn blits(
        &self,
        atlas: &(dyn Renderer<P> + 'static),
        x: nat,
        y: nat,
        text: Seq<char>,
        after: Seq<P>,
        end: nat,
    ) -> bool {
        (**self).blits(atlas, x, y, text, after, end)
    }

    open spec fn blits_char(
        &self,
        atlas: &(dyn Renderer<P> + 'static),
        x: nat,
        y: nat,
        c: char,
        after: Seq<P>,
        end: nat,
    ) -> bool {
        (**self).blits_char(atlas, x, y, c, after, end)
    }

    open spec fn blends(&self, icon: Icon, fg: P, bg: P, after: Seq<P>) -> bool {
        (**self).blends(icon, fg, bg, after)
    }

    open spec fn quiet(&self) -> bool {
        (**self).quiet()
    }

    fn clear(&mut self, color: P) {
        (**self).clear(color)
    }

    fn fill_rect(&mut self, x: usize, y: usize, w: usize, h: usize, color: P) {
        (**self).fill_rect(x, y, w, h, color)
    }

    fn blit(&mut self, atlas: &(dyn Renderer<P> + 'static), x: usize, y: usize, text: &str) -> (end: usize) {
        (**self).blit(atlas, x, y, text)
    }

    fn blit_char(&mut self, atlas: &(dyn Renderer<P> + 'static), x: usize, y: usize, ch: char) -> (end: usize) {
        (**self).blit_char(atlas, x, y, ch)
    }

    fn blit_alpha(&mut self, icon: &Icon, fg: P, bg: P) {
        (**self).blit_alpha(icon, fg, bg)
    }

    fn poll_events(&mut self) -> (events: &[InputEvent]) {
        (**self).poll_events()
    }

    fn flush(&mut self) {
        (**self).flush()
    }
}
} // verus!
