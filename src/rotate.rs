use vstd::prelude::*;
use vstd::arithmetic::div_mod::{lemma_fundamental_div_mod, lemma_fundamental_div_mod_converse};

verus! {

/// Source coordinates `(xt, yt)` read for the target cursor `(x, y)` of a
/// view whose height is `h`: a quarter turn of the image.
pub open spec fn source_of(h: int, x: int, y: int) -> (int, int) {
    (h - 1 - y, x)
}

/// Flat buffer index of the source sample read at cursor `(x, y)`.
pub open spec fn source_index(w: int, h: int, x: int, y: int) -> int {
    source_of(h, x, y).1 * w + source_of(h, x, y).0
}

/// Whether the cursor `(x, y)` still reads a sample: it lies on the target
/// grid (`x < h`, and `y < h` so that the source column is not negative)
/// and its flat source index falls inside a buffer of `len` samples.
pub open spec fn reads_sample(len: int, w: int, h: int, x: int, y: int) -> bool {
    0 <= x < h && 0 <= y < h && source_index(w, h, x, y) < len
}

/// Cursor after one yielded sample: `x` moves along the row, and when it
/// reaches `h` it resets to 0 and `y` moves to the next row.
pub open spec fn advance(h: int, x: int, y: int) -> (int, int) {
    if x + 1 >= h {
        (0, y + 1)
    } else {
        (x + 1, y)
    }
}

/// The samples a view over `buf` yields from cursor `(x, y)` on, in order.
pub open spec fn remaining<T>(buf: Seq<T>, w: int, h: int, x: int, y: int) -> Seq<T>
    decreases (h - y) as nat, (h - x) as nat,
{
    if reads_sample(buf.len() as int, w, h, x, y) {
        let next = advance(h, x, y);
        seq![buf[source_index(w, h, x, y)]].add(remaining(buf, w, h, next.0, next.1))
    } else {
        Seq::empty()
    }
}

/// Everything a fresh view of `buf` as an `n × n` image yields.
pub open spec fn rotated<T>(buf: Seq<T>, n: nat) -> Seq<T> {
    remaining(buf, n as int, n as int, 0, 0)
}

/// Source index of the `k`-th sample a square view of side `n` yields:
/// target row `k / n`, column `k % n`.
pub open spec fn rotated_index(n: int, k: int) -> int {
    (k % n) * n + (n - 1 - k / n)
}

proof fn lemma_rotated_index(n: int, a: int, b: int)
    requires
        0 <= a < n,
        0 <= b < n,
    ensures
        rotated_index(n, a * n + b) == b * n + (n - 1 - a),
        0 <= b * n + (n - 1 - a) < n * n,
        0 <= a * n + b < n * n,
{
    lemma_fundamental_div_mod_converse(a * n + b, n, a, b);
    assert(0 <= b * n + (n - 1 - a) < n * n) by (nonlinear_arith)
        requires
            0 <= a < n,
            0 <= b < n,
    ;
    assert(0 <= a * n + b < n * n) by (nonlinear_arith)
        requires
            0 <= a < n,
            0 <= b < n,
    ;
}

proof fn lemma_square_remaining<T>(buf: Seq<T>, n: int, x: int, y: int)
    requires
        n >= 1,
        buf.len() == n * n,
        0 <= x < n,
        0 <= y <= n,
        y == n ==> x == 0,
    ensures
        remaining(buf, n, n, x, y).len() == n * n - (y * n + x),
        forall|i: int|
            0 <= i < remaining(buf, n, n, x, y).len() ==> remaining(buf, n, n, x, y)[i]
                == buf[rotated_index(n, y * n + x + i)],
    decreases (n - y) as nat, (n - x) as nat,
{
    let r = remaining(buf, n, n, x, y);
    if y == n {
        assert(y * n == n * n) by (nonlinear_arith)
            requires
                y == n,
        ;
    } else {
        lemma_rotated_index(n, y, x);
        let next = advance(n, x, y);
        assert(next.1 * n + next.0 == y * n + x + 1) by (nonlinear_arith)
            requires
                next == (if x + 1 >= n { (0int, y + 1) } else { (x + 1, y) }),
                x + 1 <= n,
        ;
        lemma_square_remaining(buf, n, next.0, next.1);
        let tail = remaining(buf, n, n, next.0, next.1);
        assert(r == seq![buf[x * n + (n - 1 - y)]].add(tail));
        assert forall|i: int| 0 <= i < r.len() implies r[i] == buf[rotated_index(n, y * n + x + i)] by {
            if i > 0 {
                assert(r[i] == tail[i - 1]);
                assert(next.1 * n + next.0 + (i - 1) == y * n + x + i);
            }
        }
    }
}

/// A fresh view of a square `n × n` buffer yields exactly `n * n` samples,
/// the `k`-th being the one at target row `k / n`, column `k % n`, read from
/// source column `n - 1 - k / n` of source row `k % n`.
pub proof fn square_view_len<T>(buf: Seq<T>, n: nat)
    requires
        buf.len() == n * n,
    ensures
        rotated(buf, n).len() == n * n,
        forall|k: int|
            0 <= k < n * n ==> #[trigger] rotated(buf, n)[k] == buf[rotated_index(n as int, k)],
{
    if n >= 1 {
        lemma_square_remaining(buf, n as int, 0, 0);
    }
}

proof fn lemma_rotated_index_in_range(n: int, k: int)
    requires
        n >= 1,
        0 <= k < n * n,
    ensures
        0 <= rotated_index(n, k) < n * n,
        rotated_index(n, rotated_index(n, rotated_index(n, rotated_index(n, k)))) == k,
{
    let a = k / n;
    let b = k % n;
    lemma_fundamental_div_mod(k, n);
    assert(0 <= a < n && k == a * n + b) by (nonlinear_arith)
        requires
            k == n * a + b,
            0 <= b < n,
            0 <= k < n * n,
    ;
    lemma_rotated_index(n, a, b);
    lemma_rotated_index(n, b, n - 1 - a);
    lemma_rotated_index(n, n - 1 - a, n - 1 - b);
    lemma_rotated_index(n, n - 1 - b, a);
}

/// Rotating a square image four times gives it back: each rotation yields
/// all `n * n` samples, and the fourth puts every one where it started.
pub proof fn rotation_four_times<T>(buf: Seq<T>, n: nat)
    requires
        buf.len() == n * n,
    ensures
        rotated(rotated(rotated(rotated(buf, n), n), n), n) == buf,
{
    let r1 = rotated(buf, n);
    square_view_len(buf, n);
    let r2 = rotated(r1, n);
    square_view_len(r1, n);
    let r3 = rotated(r2, n);
    square_view_len(r2, n);
    let r4 = rotated(r3, n);
    square_view_len(r3, n);
    assert forall|k: int| 0 <= k < buf.len() implies r4[k] == buf[k] by {
        let m = n as int;
        lemma_rotated_index_in_range(m, k);
        let k1 = rotated_index(m, k);
        lemma_rotated_index_in_range(m, k1);
        let k2 = rotated_index(m, k1);
        lemma_rotated_index_in_range(m, k2);
        let k3 = rotated_index(m, k2);
        lemma_rotated_index_in_range(m, k3);
        assert(r4[k] == r3[k1]);
        assert(r3[k1] == r2[k2]);
        assert(r2[k2] == r1[k3]);
        assert(r1[k3] == buf[rotated_index(m, k3)]);
    }
    assert(r4 =~= buf);
}

/// A lazy, single-pass view of a `w × h` sample buffer in rotated order.
pub struct Rot90<T: Copy> {
    orig: Vec<T>,
    w: usize,
    h: usize,
    x: usize,
    y: usize,
}

/// A buffer whose length is not `width * height`.
#[derive(Debug, Clone, Copy, PartialEq, Eq, Structural)]
pub struct SizeMismatch {
    pub len: usize,
    pub width: usize,
    pub height: usize,
}

impl<T: Copy> Rot90<T> {
    /// The buffer the view reads.
    pub closed spec fn buffer(&self) -> Seq<T> {
        self.orig@
    }

    pub closed spec fn width(&self) -> int {
        self.w as int
    }

    pub closed spec fn height(&self) -> int {
        self.h as int
    }

    /// The target-space cursor `(x, y)`.
    pub closed spec fn cursor(&self) -> (int, int) {
        (self.x as int, self.y as int)
    }

    pub closed spec fn wf(&self) -> bool {
        &&& self.orig@.len() == self.w * self.h
        &&& self.x < self.h || self.x == 0
        &&& self.y <= self.h
    }

    /// Whether the cursor reads a sample.
    pub open spec fn has_next(&self) -> bool {
        reads_sample(
            self.buffer().len() as int,
            self.width(),
            self.height(),
            self.cursor().0,
            self.cursor().1,
        )
    }

    /// The sample under the cursor (meaningful when `has_next()`).
    pub open spec fn current(&self) -> T {
        self.buffer()[source_index(self.width(), self.height(), self.cursor().0, self.cursor().1)]
    }

    /// The samples still to come, in order.
    pub open spec fn rest(&self) -> Seq<T> {
        remaining(self.buffer(), self.width(), self.height(), self.cursor().0, self.cursor().1)
    }

    /// Builds a view of `orig` as an image of `dims = (width, height)`,
    /// cursor at `(0, 0)`.
    pub fn new(orig: Vec<T>, dims: (usize, usize)) -> (r: Self)
        requires
            orig@.len() == dims.0 * dims.1,
        ensures
            r.wf(),
            r.buffer() == orig@,
            r.width() == dims.0,
            r.height() == dims.1,
            r.cursor() == (0int, 0int),
    {
        let (w, h) = dims;
        Rot90 { orig, w, h, x: 0, y: 0 }
    }

    /// Builds a view, or fails when the buffer length is not
    /// `width * height`.
    pub fn try_new(orig: Vec<T>, dims: (usize, usize)) -> (r: Result<Self, SizeMismatch>)
        ensures
            r is Err <==> orig@.len() != dims.0 * dims.1,
            r matches Ok(v) ==> {
                &&& v.wf()
                &&& v.buffer() == orig@
                &&& v.width() == dims.0
                &&& v.height() == dims.1
                &&& v.cursor() == (0int, 0int)
            },
            r matches Err(e) ==> e.len == orig@.len() && e.width == dims.0 && e.height == dims.1,
    {
        let (w, h) = dims;
        match w.checked_mul(h) {
            Some(n) if n == orig.len() => Ok(Self::new(orig, dims)),
            _ => Err(SizeMismatch { len: orig.len(), width: w, height: h }),
        }
    }

    /// The sample at source coordinates `(xt, yt)`, or `None` when the flat
    /// index `yt * width + xt` is outside the buffer.
    pub fn at_pre(&self, xt: usize, yt: usize) -> (r: Option<T>)
        ensures
            r == (if yt * self.width() + xt < self.buffer().len() {
                Some(self.buffer()[yt * self.width() + xt])
            } else {
                None
            }),
    {
        let len = self.orig.len();
        match yt.checked_mul(self.w) {
            Some(row) => match row.checked_add(xt) {
                Some(index) => {
                    if index < len {
                        Some(self.orig[index])
                    } else {
                        None
                    }
                },
                None => None,
            },
            None => None,
        }
    }

    /// The sample under the cursor, without moving it.
    pub fn internal_peek(&self) -> (r: Option<T>)
        requires
            self.wf(),
        ensures
            r == (if self.has_next() { Some(self.current()) } else { None }),
    {
        if self.y >= self.h {
            return None;
        }
        let xt = self.h - 1 - self.y;
        let yt = self.x;
        self.at_pre(xt, yt)
    }

    /// Yields the sample under the cursor and advances, or yields `None`
    /// (and stays put) once the view is exhausted.
    pub fn next(&mut self) -> (r: Option<T>)
        requires
            old(self).wf(),
        ensures
            final(self).wf(),
            final(self).buffer() == old(self).buffer(),
            final(self).width() == old(self).width(),
            final(self).height() == old(self).height(),
            r == (if old(self).has_next() { Some(old(self).current()) } else { None }),
            final(self).cursor() == (if old(self).has_next() {
                advance(old(self).height(), old(self).cursor().0, old(self).cursor().1)
            } else {
                old(self).cursor()
            }),
            final(self).rest() == (if old(self).has_next() {
                old(self).rest().drop_first()
            } else {
                old(self).rest()
            }),
    {
        let ret = self.internal_peek();
        if ret.is_some() {
            self.x = self.x + 1;
            if self.x >= self.h {
                self.x = 0;
                self.y = self.y + 1;
            }
        }
        proof {
            let o = old(self);
            if o.has_next() {
                let nx = advance(o.height(), o.cursor().0, o.cursor().1);
                assert(o.rest() == seq![o.current()].add(
                    remaining(o.buffer(), o.width(), o.height(), nx.0, nx.1),
                ));
                assert(o.rest().drop_first() =~= self.rest());
            }
        }
        ret
    }

    /// Drains the view, returning every sample it still yields, in order.
    pub fn into_samples(self) -> (r: Vec<T>)
        requires
            self.wf(),
        ensures
            r@ == self.rest(),
    {
        let mut view = self;
        let mut out: Vec<T> = Vec::new();
        loop
            invariant
                view.wf(),
                out@ + view.rest() == self.rest(),
            decreases view.rest().len(),
        {
            let ghost before = view.rest();
            match view.next() {
                Some(s) => {
                    out.push(s);
                    proof {
                        assert(before == seq![s] + view.rest());
                        assert(out@ + view.rest() =~= self.rest());
                    }
                },
                None => {
                    proof {
                        assert(out@ =~= out@ + view.rest());
                    }
                    return out;
                },
            }
        }
    }
}

} // verus!
