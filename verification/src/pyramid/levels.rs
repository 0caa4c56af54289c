//! The levels of a pyramid.

use vstd::prelude::*;

verus! {

/// Minimum dimension for the thumbnail level.
pub const MIN_THUMBNAIL_SIZE: u32 = 256;

/// Two to the power of `n`.
pub open spec fn pow2(n: nat) -> nat
    decreases n,
{
    if n == 0 {
        1
    } else {
        2 * pow2((n - 1) as nat)
    }
}

/// The larger of two dimensions.
pub open spec fn larger(a: u32, b: u32) -> u32 {
    if a >= b {
        a
    } else {
        b
    }
}

/// Whether `levels` is the number of levels of an image whose larger dimension
/// is `max_dim`: the last level fits the thumbnail size and the one before it,
/// if there is one, does not.
pub open spec fn is_level_count(max_dim: nat, levels: nat) -> bool {
    &&& levels >= 1
    &&& max_dim <= MIN_THUMBNAIL_SIZE * pow2((levels - 1) as nat)
    &&& levels > 1 ==> max_dim > MIN_THUMBNAIL_SIZE * pow2((levels - 2) as nat)
}

proof fn lemma_pow2_monotonic(a: nat, b: nat)
    requires
        a <= b,
    ensures
        0 < pow2(a) <= pow2(b),
    decreases b,
{
    if a < b {
        lemma_pow2_monotonic(a, (b - 1) as nat);
    } else if a > 0 {
        lemma_pow2_monotonic((a - 1) as nat, (a - 1) as nat);
    }
}

/// An image has only one number of levels.
pub proof fn lemma_level_count_unique(max_dim: nat, a: nat, b: nat)
    requires
        is_level_count(max_dim, a),
        is_level_count(max_dim, b),
    ensures
        a == b,
{
    if a < b {
        lemma_pow2_monotonic((a - 1) as nat, (b - 2) as nat);
    } else if b < a {
        lemma_pow2_monotonic((b - 1) as nat, (a - 2) as nat);
    }
}

/// Calculate the number of pyramid levels for an image: each level halves the
/// dimensions, until both fit the thumbnail size.
pub fn calculate_num_levels(width: u32, height: u32) -> (levels: u32)
    ensures
        is_level_count(larger(width, height) as nat, levels as nat),
        levels <= 25,
{
    let max_dim: u32 = if width >= height {
        width
    } else {
        height
    };
    let mut reach: u64 = 256;
    let mut levels: u32 = 1;
    proof {
        reveal_with_fuel(pow2, 25);
    }
    while reach < max_dim as u64
        invariant
            1 <= levels <= 25,
            reach == 256 * pow2((levels - 1) as nat),
            levels > 1 ==> max_dim > 256 * pow2((levels - 2) as nat),
            pow2(24) == 0x100_0000,
        decreases 26 - levels,
    {
        proof {
            if levels == 25 {
                assert(reach == 256 * pow2(24));
            }
        }
        reach = reach * 2;
        levels = levels + 1;
    }
    levels
}

/// Half a dimension, rounded up.
pub open spec fn half(n: nat) -> nat {
    (n + 1) / 2
}

/// A dimension halved `n` times, each time rounded up.
pub open spec fn halved(dim: nat, n: nat) -> nat
    decreases n,
{
    if n == 0 {
        dim
    } else {
        half(halved(dim, (n - 1) as nat))
    }
}

/// A dimension fits a size after some halvings exactly when it fits that many
/// doublings of the size.
pub proof fn lemma_halved_fits(dim: nat, n: nat, size: nat)
    ensures
        halved(dim, n) <= size <==> dim <= size * pow2(n),
    decreases n,
{
    if n > 0 {
        lemma_halved_fits(dim, (n - 1) as nat, 2 * size);
        assert((2 * size) * pow2((n - 1) as nat) == size * pow2(n)) by (nonlinear_arith)
            requires
                pow2(n) == 2 * pow2((n - 1) as nat),
        ;
    } else {
        assert(size * pow2(0) == size) by (nonlinear_arith)
            requires
                pow2(0) == 1,
        ;
    }
}

/// The size of the level below one of this size, unless it is the last.
pub open spec fn next_size(width: u32, height: u32) -> Option<(u32, u32)> {
    if width <= MIN_THUMBNAIL_SIZE && height <= MIN_THUMBNAIL_SIZE {
        None
    } else {
        Some((half(width as nat) as u32, half(height as nat) as u32))
    }
}

/// The size of the level below one of this size, unless it is the last.
pub fn next_level_size(width: u32, height: u32) -> (r: Option<(u32, u32)>)
    ensures
        r == next_size(width, height),
{
    if width <= MIN_THUMBNAIL_SIZE && height <= MIN_THUMBNAIL_SIZE {
        None
    } else {
        Some((half_up(width), half_up(height)))
    }
}

fn half_up(n: u32) -> (r: u32)
    ensures
        r == half(n as nat),
{
    n / 2 + n % 2
}

/// A level as a client is told of it.
#[derive(Clone, Copy, Debug, PartialEq, Eq, Structural)]
pub struct LevelSize {
    /// Level index (0 = full resolution).
    pub level: u32,
    /// Width at this level.
    pub width: u32,
    /// Height at this level.
    pub height: u32,
}

/// The size of one level of an image.
pub open spec fn level_size(width: u32, height: u32, level: nat) -> LevelSize {
    LevelSize {
        level: level as u32,
        width: halved(width as nat, level) as u32,
        height: halved(height as nat, level) as u32,
    }
}

/// Calculate pyramid levels for an image.
pub fn calculate_pyramid_levels(width: u32, height: u32) -> (levels: Vec<LevelSize>)
    ensures
        is_level_count(larger(width, height) as nat, levels@.len()),
        forall|i: int|
            0 <= i < levels@.len() ==> #[trigger] levels@[i] == level_size(width, height, i as nat),
{
    let mut levels: Vec<LevelSize> = Vec::new();
    let mut w: u32 = width;
    let mut h: u32 = height;
    let mut level: u32 = 0;
    levels.push(LevelSize { level, width: w, height: h });
    assert(levels@[0] == level_size(width, height, 0));
    while w > 256 || h > 256
        invariant
            levels@.len() == level + 1,
            w == halved(width as nat, level as nat),
            h == halved(height as nat, level as nat),
            level > 0 ==> (halved(width as nat, (level - 1) as nat) > 256 || halved(
                height as nat,
                (level - 1) as nat,
            ) > 256),
            forall|i: int|
                0 <= i < levels@.len() ==> #[trigger] levels@[i] == level_size(
                    width,
                    height,
                    i as nat,
                ),
        decreases w + h,
    {
        proof {
            lemma_halved_fits(width as nat, level as nat, 256);
            lemma_halved_fits(height as nat, level as nat, 256);
            lemma_pow2_monotonic(0, level as nat);
            if level >= 24 {
                lemma_pow2_monotonic(24, level as nat);
                reveal_with_fuel(pow2, 25);
                assert(pow2(24) == 0x100_0000);
            }
        }
        w = half_up(w);
        h = half_up(h);
        level = level + 1;
        levels.push(LevelSize { level, width: w, height: h });
    }
    proof {
        lemma_halved_fits(width as nat, level as nat, 256);
        lemma_halved_fits(height as nat, level as nat, 256);
        if level > 0 {
            lemma_halved_fits(width as nat, (level - 1) as nat, 256);
            lemma_halved_fits(height as nat, (level - 1) as nat, 256);
        }
    }
    levels
}

/// The levels that an image's pyramid has are as many as are calculated for it:
/// the first is the full resolution, each next is half the one before, and only
/// the last fits the thumbnail size.
pub proof fn lemma_pyramid_levels(width: u32, height: u32, count: nat)
    requires
        is_level_count(larger(width, height) as nat, count),
    ensures
        level_size(width, height, 0) == (LevelSize { level: 0, width, height }),
        forall|i: nat|
            i + 1 < count ==> next_size(
                (#[trigger] level_size(width, height, i)).width,
                level_size(width, height, i).height,
            ) == Some(
                (
                    level_size(width, height, i + 1).width,
                    level_size(width, height, i + 1).height,
                ),
            ),
        next_size(
            level_size(width, height, (count - 1) as nat).width,
            level_size(width, height, (count - 1) as nat).height,
        ) is None,
{
    assert forall|i: nat| i + 1 < count implies next_size(
        (#[trigger] level_size(width, height, i)).width,
        level_size(width, height, i).height,
    ) == Some(
        (level_size(width, height, i + 1).width, level_size(width, height, i + 1).height),
    ) by {
        lemma_halved_bound(width as nat, i);
        lemma_halved_bound(height as nat, i);
        lemma_halved_bound(width as nat, i + 1);
        lemma_halved_bound(height as nat, i + 1);
        lemma_halved_fits(width as nat, i, 256);
        lemma_halved_fits(height as nat, i, 256);
        lemma_pow2_monotonic(i, (count - 2) as nat);
    }
    lemma_halved_bound(width as nat, (count - 1) as nat);
    lemma_halved_bound(height as nat, (count - 1) as nat);
    lemma_halved_fits(width as nat, (count - 1) as nat, 256);
    lemma_halved_fits(height as nat, (count - 1) as nat, 256);
}

proof fn lemma_halved_bound(dim: nat, n: nat)
    ensures
        halved(dim, n) <= dim,
    decreases n,
{
    if n > 0 {
        lemma_halved_bound(dim, (n - 1) as nat);
    }
}

/// The size of a dimension on a level when an image is scaled directly: the
/// dimension itself on level 0, and otherwise its part by a power of two, but
/// at least one.
pub open spec fn scaled(dim: u32, level: u32) -> nat {
    if level == 0 {
        dim as nat
    } else if dim as nat / pow2(level as nat) == 0 {
        1
    } else {
        dim as nat / pow2(level as nat)
    }
}

fn scale_dimension(dim: u32, scale: u64) -> (r: u32)
    requires
        scale > 0,
    ensures
        r == (if dim as nat / scale as nat == 0 {
            1
        } else {
            dim as nat / scale as nat
        }),
{
    let part: u64 = dim as u64 / scale;
    assert(part <= dim) by (nonlinear_arith)
        requires
            part == dim as u64 / scale,
            scale > 0,
    ;
    if part == 0 {
        1
    } else {
        part as u32
    }
}

/// From level 32 on every dimension is one.
pub proof fn lemma_scaled_to_one(dim: u32, level: u32)
    requires
        level >= 32,
    ensures
        scaled(dim, level) == 1,
{
    reveal_with_fuel(pow2, 33);
    lemma_pow2_monotonic(32, level as nat);
    let p = pow2(level as nat);
    assert(dim as nat / p == 0) by (nonlinear_arith)
        requires
            dim < p,
    ;
}

/// Calculate dimensions for a specific pyramid level.
///
/// Level 0 = full resolution, each higher level halves dimensions.
pub fn calculate_level_size(full_width: u32, full_height: u32, level: u32) -> (r: (u32, u32))
    ensures
        r.0 == scaled(full_width, level),
        r.1 == scaled(full_height, level),
{
    if level == 0 {
        return (full_width, full_height);
    }
    if level >= 32 {
        proof {
            lemma_scaled_to_one(full_width, level);
            lemma_scaled_to_one(full_height, level);
        }
        return (1, 1);
    }
    let mut scale: u64 = 1;
    let mut i: u32 = 0;
    proof {
        reveal_with_fuel(pow2, 32);
    }
    while i < level
        invariant
            i <= level < 32,
            scale == pow2(i as nat),
            scale <= pow2(31),
            pow2(31) == 0x8000_0000,
        decreases level - i,
    {
        proof {
            lemma_pow2_monotonic((i + 1) as nat, 31);
        }
        scale = scale * 2;
        i = i + 1;
    }
    proof {
        lemma_pow2_monotonic(0, level as nat);
    }
    (scale_dimension(full_width, scale), scale_dimension(full_height, scale))
}

/// Calculate dimensions for a specific pyramid level.
///
/// Level 0 = full resolution, level 1 = half resolution, level 2 = quarter
/// resolution, etc.
pub fn calculate_level_dimensions(full_width: u32, full_height: u32, level: u32) -> (r: (u32, u32))
    ensures
        r.0 == scaled(full_width, level),
        r.1 == scaled(full_height, level),
{
    calculate_level_size(full_width, full_height, level)
}

/// From one level to the next every dimension halves, rounding down, but never
/// below one.
pub proof fn lemma_scaled_halves(dim: u32, level: u32)
    requires
        level < u32::MAX,
    ensures
        scaled(dim, 0) == dim,
        scaled(dim, (level + 1) as u32) == (if scaled(dim, level) < 2 {
            1
        } else {
            scaled(dim, level) / 2
        }),
        dim >= 1 ==> 1 <= scaled(dim, level) <= dim,
{
    let p = pow2(level as nat);
    lemma_pow2_monotonic(0, level as nat);
    assert(pow2((level + 1) as nat) == 2 * p);
    assert(pow2(0) == 1);
    assert(dim as nat / (2 * p) == (dim as nat / p) / 2) by (nonlinear_arith)
        requires
            p > 0,
    ;
    assert(dim as nat / p <= dim as nat) by (nonlinear_arith)
        requires
            p > 0,
    ;
    if level == 0 {
        assert(dim as nat / p == dim) by (nonlinear_arith)
            requires
                p == 1,
        ;
    }
}

/// An image has as many levels as it takes until its larger dimension, halved from one to
/// the next, is at most 256; an image that is no larger has one.
pub proof fn lemma_last_level_is_a_thumbnail(max_dim: nat, levels: nat)
    requires
        is_level_count(max_dim, levels),
    ensures
        levels >= 1,
        halved(max_dim, (levels - 1) as nat) <= 256,
        levels > 1 ==> halved(max_dim, (levels - 2) as nat) > 256,
        levels == 1 <==> max_dim <= 256,
{
    lemma_halved_fits(max_dim, (levels - 1) as nat, 256);
    if levels > 1 {
        lemma_halved_fits(max_dim, (levels - 2) as nat, 256);
        lemma_pow2_monotonic(0, (levels - 2) as nat);
        assert(256 * pow2((levels - 2) as nat) >= 256) by (nonlinear_arith)
            requires
                pow2((levels - 2) as nat) >= 1,
        ;
    } else {
        assert(pow2(0) == 1);
    }
}

/// A dimension that is halved is rounded up, so that twice the half covers it and loses
/// at most one.
pub proof fn lemma_halves_round_up(n: nat)
    ensures
        n <= 2 * half(n) <= n + 1,
        n > 0 ==> half(n) > 0,
{
}

/// The level below one of a size has half its size in both dimensions, and there is one
/// exactly where either is over 256.
pub proof fn lemma_next_sizes(width: u32, height: u32)
    ensures
        next_size(width, height) is Some <==> width > 256 || height > 256,
        next_size(width, height) matches Some(size) ==> width <= 2 * size.0 <= width + 1 && height
            <= 2 * size.1 <= height + 1,
{
}

} // verus!
