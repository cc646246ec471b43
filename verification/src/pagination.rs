//! Pagination cursor: maps the next post number the caller needs to the
//! aligned sequence of fetch windows, each covering 30 consecutive posts.

use vstd::prelude::*;

verus! {

/// Number of posts one fetch window covers; fixed by the board.
pub const WINDOW_SIZE: i32 = 30;

/// Start offset of the aligned window containing post number `res_no`
/// (`res_no >= 1`): window index `k` covers posts `[k*30+1, (k+1)*30]`.
pub open spec fn window_offset_for(res_no: int) -> int {
    ((res_no - 1) / 30) * 30
}

/// Cursor over fetch windows. `offset` is the number of posts that lie
/// before the current window, so the window covers posts
/// `[offset + 1, offset + 30]`.
#[derive(Clone, Copy, Debug, PartialEq, Eq, Structural)]
pub struct Offset {
    pub offset: i32,
}

impl Offset {
    /// Cursor positioned on the aligned window that contains `res_no`.
    pub fn from_res_no(res_no: i32) -> (o: Offset)
        requires
            1 <= res_no,
        ensures
            o.offset == window_offset_for(res_no as int),
            0 <= o.offset <= res_no - 1,
    {
        proof {
            lemma_window_offset_bounds(res_no as int);
        }
        Offset { offset: (res_no - 1) / 30 * 30 }
    }

    /// First post number of the current window.
    pub fn first_res_no(&self) -> (n: i32)
        requires
            0 <= self.offset < i32::MAX,
        ensures
            n == self.offset + 1,
    {
        self.offset + 1
    }

    /// Returns the current window and advances the cursor to the next
    /// one, 30 posts further on; the window sequence has no gaps and no
    /// overlaps.
    pub fn next(&mut self) -> (o: Offset)
        requires
            old(self).offset + 30 <= i32::MAX,
        ensures
            o == *old(self),
            final (self).offset == old(self).offset + 30,
    {
        let o = *self;
        self.offset = self.offset + 30;
        o
    }
}

proof fn lemma_window_offset_bounds(res_no: int)
    requires
        1 <= res_no,
    ensures
        0 <= window_offset_for(res_no) <= res_no - 1,
        window_offset_for(res_no) % 30 == 0,
{
    let q = (res_no - 1) / 30;
    assert(q * 30 <= res_no - 1 && 0 <= q * 30 && (q * 30) % 30 == 0) by (nonlinear_arith)
        requires
            q == (res_no - 1) / 30 && 1 <= res_no,
    ;
}

/// The first window for needed post number `n` starts exactly at
/// `floor((n - 1)/30)*30 + 1` and contains `n`.
pub proof fn lemma_first_window(n: int)
    requires
        1 <= n,
    ensures
        window_offset_for(n) + 1 <= n <= window_offset_for(n) + 30,
        window_offset_for(n) % 30 == 0,
{
    lemma_window_offset_bounds(n);
    let q = (n - 1) / 30;
    assert(n - 1 < (q + 1) * 30) by (nonlinear_arith)
        requires
            q == (n - 1) / 30 && 1 <= n,
    ;
}

/// The window with index `k` of the sequence that starts at offset
/// `off` covers post number `p`.
pub open spec fn window_covers(off: int, k: int, p: int) -> bool {
    off + 30 * k < p <= off + 30 * k + 30
}

/// Successive windows increase by exactly 30 with no gaps and no
/// overlaps: every post number `p` past the first window's start is
/// covered by exactly one window of the sequence that starts at
/// `window_offset_for(n)`.
pub proof fn lemma_window_tiling(n: int, p: int)
    requires
        1 <= n,
        window_offset_for(n) < p,
    ensures
        exists|k: int| 0 <= k && #[trigger] window_covers(window_offset_for(n), k, p),
        forall|k1: int, k2: int|
            (0 <= k1 && #[trigger] window_covers(window_offset_for(n), k1, p) && 0 <= k2
                && #[trigger] window_covers(window_offset_for(n), k2, p)) ==> k1 == k2,
{
    let off = window_offset_for(n);
    let x = p - 1 - off;
    let k = x / 30;
    assert(0 <= k && 30 * k <= x < 30 * k + 30) by (nonlinear_arith)
        requires
            k == x / 30 && 0 <= x,
    ;
    assert(window_covers(off, k, p));
    assert forall|k1: int, k2: int|
        (0 <= k1 && #[trigger] window_covers(off, k1, p) && 0 <= k2 && #[trigger] window_covers(
            off,
            k2,
            p,
        )) implies k1 == k2 by {
        assert(30 * k1 < 30 * k2 + 30 && 30 * k2 < 30 * k1 + 30);
        assert(k1 == k2) by (nonlinear_arith)
            requires
                30 * k1 < 30 * k2 + 30 && 30 * k2 < 30 * k1 + 30,
        ;
    }
}

/// The window sequence for needed post `n` is unbounded and advances
/// with stride exactly 30: its `k`-th window covers precisely the 30
/// post numbers from `window_offset_for(n) + 30k + 1` through
/// `window_offset_for(n) + 30k + 30`, and the next window begins with
/// the very next post number.
pub proof fn lemma_window_stride(n: int, k: int)
    requires
        1 <= n,
        0 <= k,
    ensures
        window_covers(window_offset_for(n), k, window_offset_for(n) + 30 * k + 1),
        window_covers(window_offset_for(n), k, window_offset_for(n) + 30 * k + 30),
        !window_covers(window_offset_for(n), k, window_offset_for(n) + 30 * k),
        !window_covers(window_offset_for(n), k, window_offset_for(n) + 30 * k + 31),
        window_covers(window_offset_for(n), k + 1, window_offset_for(n) + 30 * k + 31),
{
    assert(30 * (k + 1) == 30 * k + 30) by (nonlinear_arith);
}

} // verus!
