//! The bubbles of the running aquarium: three looks, always drawn in cyan.
use vstd::prelude::*;

use rand::rngs::ThreadRng;

use crate::chance::random_range_u16;

verus! {

/// The looks a bubble goes through, one per frame: small, middling, big.
pub const BUBBLE_FRAMES: [&'static str; 3] = [".", "o", "0"];

/// A bubble rising through the water; `frame` picks its current look.
#[derive(Clone, Copy)]
pub struct Bubble {
    pub x: u16,
    pub y: u16,
    /// Which look the bubble shows: ".", "o" or "0".
    pub frame: usize,
    pub z_index: u8,
}

/// The bubble after one frame: one row higher, or, from the top row, back at row `max_y`
/// and column `respawn_x`; its look advances to the next frame.
pub open spec fn risen(b: Bubble, max_y: u16, respawn_x: u16) -> Bubble {
    Bubble {
        x: if b.y > 0 { b.x } else { respawn_x },
        y: if b.y > 0 { (b.y - 1) as u16 } else { max_y },
        frame: ((b.frame + 1) % 3) as usize,
        z_index: b.z_index,
    }
}

/// Each look of a bubble is a single character.
pub proof fn lemma_bubble_frames_single_chars()
    ensures
        BUBBLE_FRAMES@.len() == 3,
        forall|k: int| 0 <= k < BUBBLE_FRAMES@.len() ==> #[trigger] BUBBLE_FRAMES@[k]@.len() == 1,
        BUBBLE_FRAMES@[0]@[0] == '.',
        BUBBLE_FRAMES@[1]@[0] == 'o',
        BUBBLE_FRAMES@[2]@[0] == '0',
{
    reveal_strlit(".");
    reveal_strlit("o");
    reveal_strlit("0");
    assert(BUBBLE_FRAMES@[0]@.len() == 1);
    assert(BUBBLE_FRAMES@[1]@.len() == 1);
    assert(BUBBLE_FRAMES@[2]@.len() == 1);
}

/// The bubble after `n` frames, reappearing at `respawn_x` whenever it leaves the top.
pub open spec fn risen_times(b: Bubble, max_y: u16, respawn_x: u16, n: nat) -> Bubble
    decreases n,
{
    if n == 0 {
        b
    } else {
        risen(risen_times(b, max_y, respawn_x, (n - 1) as nat), max_y, respawn_x)
    }
}

/// Over `n` frames a bubble's look advances `n` places round its three looks; it climbs one
/// row a frame, and the frame after it leaves the top row it is back at row `max_y`.
pub proof fn lemma_bubble_rises(b: Bubble, max_y: u16, respawn_x: u16, n: nat)
    requires
        b.frame < 3,
    ensures
        risen_times(b, max_y, respawn_x, n).frame == (b.frame + n) % 3,
        risen_times(b, max_y, respawn_x, n).z_index == b.z_index,
        n <= b.y ==> risen_times(b, max_y, respawn_x, n).y == b.y - n
            && risen_times(b, max_y, respawn_x, n).x == b.x,
        n == b.y + 1 ==> risen_times(b, max_y, respawn_x, n).y == max_y
            && risen_times(b, max_y, respawn_x, n).x == respawn_x,
    decreases n,
{
    if n > 0 {
        lemma_bubble_rises(b, max_y, respawn_x, (n - 1) as nat);
        assert((((b.frame + n - 1) % 3) + 1) % 3 == (b.frame + n) % 3) by (nonlinear_arith);
    }
}

/// `b2` is what one `update(max_y, max_x, ..)` can make of bubble `b`: it rises a row, or,
/// from the top row, comes back at row `max_y` in a column in `1..max_x`.
pub open spec fn updated(b: Bubble, b2: Bubble, max_y: u16, max_x: u16) -> bool {
    &&& b.y > 0 ==> b2 == risen(b, max_y, b.x)
    &&& b.y == 0 ==> exists|x: u16| 1 <= x < max_x && b2 == risen(b, max_y, x)
}

/// A bubble updated again and again, `trail[i]` after `i` updates: each update moves its
/// look one place on round the three looks, so three updates bring it back, and keeps its
/// layer; for its first `y` updates it climbs a row at a time in its column, and the
/// update after that brings it back at row `max_y`, in a column in `1..max_x`.
pub proof fn lemma_bubble_trail(trail: Seq<Bubble>, max_y: u16, max_x: u16)
    requires
        trail.len() >= 1,
        trail[0].frame < 3,
        forall|i: int| 0 <= i < trail.len() - 1 ==> updated(#[trigger] trail[i], trail[i + 1], max_y, max_x),
    ensures
        forall|i: int|
            0 <= i < trail.len() ==> (#[trigger] trail[i]).frame == (trail[0].frame + i) % 3
                && trail[i].z_index == trail[0].z_index,
        forall|i: int|
            0 <= i < trail.len() && i <= trail[0].y ==> (#[trigger] trail[i]).y == trail[0].y - i
                && trail[i].x == trail[0].x,
        trail[0].y + 1 < trail.len() ==> trail[trail[0].y + 1].y == max_y && 1 <= trail[trail[0].y + 1].x
            < max_x,
    decreases trail.len(),
{
    if trail.len() > 1 {
        let p = trail.drop_last();
        assert forall|i: int| 0 <= i < p.len() - 1 implies updated(#[trigger] p[i], p[i + 1], max_y, max_x) by {
            assert(p[i] == trail[i] && p[i + 1] == trail[i + 1]);
        }
        lemma_bubble_trail(p, max_y, max_x);
        let k = trail.len() - 1;
        let prev = trail[k - 1];
        assert(prev == p[k - 1]);
        assert(updated(trail[k - 1], trail[k], max_y, max_x));
        assert(trail[k].frame == (prev.frame + 1) % 3);
        assert((((trail[0].frame + k - 1) % 3) + 1) % 3 == (trail[0].frame + k) % 3) by (nonlinear_arith);
        assert forall|i: int| 0 <= i < trail.len() implies (#[trigger] trail[i]).frame == (trail[0].frame + i)
            % 3 && trail[i].z_index == trail[0].z_index by {
            if i < k {
                assert(trail[i] == p[i]);
            }
        }
        assert forall|i: int| 0 <= i < trail.len() && i <= trail[0].y implies (#[trigger] trail[i]).y
            == trail[0].y - i && trail[i].x == trail[0].x by {
            if i < k {
                assert(trail[i] == p[i]);
            } else {
                assert(prev.y == trail[0].y - (k - 1));
            }
        }
        if trail[0].y + 1 < trail.len() {
            let j = trail[0].y + 1;
            if j < k {
                assert(trail[j] == p[j]);
            } else {
                assert(prev.y == 0);
            }
        }
    }
}

impl Bubble {
    /// A bubble at (`x`, `y`) showing its first look.
    pub fn new(x: u16, y: u16, z_index: u8) -> (b: Bubble)
        ensures
            b == (Bubble { x, y, frame: 0, z_index }),
    {
        Self { x, y, frame: 0, z_index }
    }

    /// One frame of rising, where a bubble leaving the top reappears at `respawn_x`.
    pub fn rise(&mut self, max_y: u16, respawn_x: u16)
        requires
            old(self).frame < usize::MAX,
        ensures
            *final(self) == risen(*old(self), max_y, respawn_x),
    {
        if self.y > 0 {
            self.y -= 1;
        } else {
            self.y = max_y;
            self.x = respawn_x;
        }
        self.frame = (self.frame + 1) % BUBBLE_FRAMES.len();
    }

    /// One frame of rising; a bubble leaving the top reappears at row `max_y`, in a column
    /// drawn from `1..max_x`.
    pub fn update(&mut self, max_y: u16, max_x: u16, rng: &mut ThreadRng)
        requires
            old(self).y == 0 ==> 1 < max_x,
            old(self).frame < usize::MAX,
        ensures
            updated(*old(self), *final(self), max_y, max_x),
    {
        let respawn_x = if self.y > 0 {
            self.x
        } else {
            random_range_u16(rng, 1, max_x)
        };
        self.rise(max_y, respawn_x);
    }

    /// The bubble's current look.
    pub fn current_symbol(&self) -> (s: &'static str)
        requires
            self.frame < BUBBLE_FRAMES@.len(),
        ensures
            s@ == BUBBLE_FRAMES@[self.frame as int]@,
    {
        BUBBLE_FRAMES[self.frame]
    }
}

} // verus!
