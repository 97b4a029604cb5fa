use vstd::prelude::*;
use crate::canvas::Canvas;
use crate::canvas::PixelsIterator;
use crate::canvas::screen_key;
use crate::canvas::valid_coord;
use crate::fixed::lemma_abs_mul_bound;
use crate::fixed::lemma_fx_square_nonneg;
use crate::fixed::lemma_tdiv_quotient_bound;
use vstd::arithmetic::div_mod::lemma_div_multiples_vanish;
use crate::fixed::tdiv;
use crate::fixed::tdiv_i128;
use crate::scene::Color;
use crate::scene::GEOM_LIMIT;
use crate::scene::Scene;
use crate::scene::T_LIMIT;
use crate::trace::trace_s;
use crate::trace::trace_ray;
use crate::vec3::Vec3;
use crate::vec3::dot_s;
use crate::vec3::in_range;
use vstd::arithmetic::div_mod::lemma_fundamental_div_mod;
use vstd::arithmetic::div_mod::lemma_fundamental_div_mod_converse;
use vstd::arithmetic::mul::lemma_mul_inequality;
use vstd::arithmetic::mul::lemma_mul_nonnegative;

verus! {

/// Viewport width: 1.78 in fixed point, a widescreen aspect.
pub const VW_FX: i128 = 116654;

/// Viewport height: one in fixed point.
pub const VH_FX: i128 = 65536;

/// Distance from the camera to the projection plane: one in fixed point.
pub const PROJECTION_PLANE_D_FX: i128 = 65536;

/// The ray direction through a canvas coordinate: the coordinate scaled
/// onto the viewport rectangle, at the fixed projection-plane distance.
/// No normalization happens here.
pub open spec fn viewport_dir_s(w: int, h: int, x: int, y: int) -> Vec3 {
    Vec3 { x: tdiv(x * 116654, w) as i128, y: tdiv(y * 65536, h) as i128, z: 65536 }
}

/// A viewport direction from a coordinate inside the canvas is bounded and
/// never degenerate: its z component alone makes the squared length one.
pub proof fn lemma_viewport_dir_in_range(w: int, h: int, x: int, y: int)
    requires
        1 <= w <= 0x4000_0000,
        1 <= h <= 0x4000_0000,
        -w <= x <= w,
        -h <= y <= h,
    ensures
        in_range(viewport_dir_s(w, h, x, y), GEOM_LIMIT as int),
        1 <= dot_s(viewport_dir_s(w, h, x, y), viewport_dir_s(w, h, x, y)),
{
    lemma_abs_mul_bound(x, 116654, w, 116654);
    lemma_abs_mul_bound(y, 65536, h, 65536);
    assert(w * 116654 == 116654 * w) by (nonlinear_arith);
    assert(h * 65536 == 65536 * h) by (nonlinear_arith);
    lemma_tdiv_quotient_bound(x * 116654, w, 116654);
    lemma_tdiv_quotient_bound(y * 65536, h, 65536);
    let d = viewport_dir_s(w, h, x, y);
    lemma_fx_square_nonneg(d.x as int);
    lemma_fx_square_nonneg(d.y as int);
    lemma_div_multiples_vanish(65536, 65536);
    assert(tdiv((65536 * 65536) as int, 65536) == 65536);
}

/// The canvas coordinate the pixel enumeration yields at position `k`.
pub open spec fn coord_at(hw: int, hh: int, k: int) -> (int, int) {
    (-hw + k % (2 * hw), 1 - hh + k / (2 * hw))
}

/// The position at which the pixel enumeration yields a coordinate.
pub open spec fn coord_index(hw: int, hh: int, x: int, y: int) -> int {
    (y + hh - 1) * (2 * hw) + (x + hw)
}

/// Every valid canvas coordinate appears in the enumeration: its position
/// lies below `width * height`, and the enumeration yields it back there.
pub proof fn lemma_coords_cover(hw: int, hh: int, x: int, y: int)
    requires
        1 <= hw,
        1 <= hh,
        -hw <= x < hw,
        1 - hh <= y <= hh,
    ensures
        0 <= coord_index(hw, hh, x, y) < 4 * hw * hh,
        coord_at(hw, hh, coord_index(hw, hh, x, y)) == (x, y),
{
    let row = y + hh - 1;
    let col = x + hw;
    let k = coord_index(hw, hh, x, y);
    lemma_mul_nonnegative(row, 2 * hw);
    lemma_mul_inequality(row, 2 * hh - 1, 2 * hw);
    assert((2 * hh - 1) * (2 * hw) == 4 * hw * hh - 2 * hw) by (nonlinear_arith);
    lemma_fundamental_div_mod_converse(k, 2 * hw, row, col);
}

/// Two different positions in the enumeration yield different coordinates:
/// the sweep never writes the same pixel twice.
pub proof fn lemma_coords_distinct(hw: int, hh: int, k1: int, k2: int)
    requires
        1 <= hw,
        0 <= k1,
        0 <= k2,
        k1 != k2,
    ensures
        coord_at(hw, hh, k1) != coord_at(hw, hh, k2),
{
    lemma_fundamental_div_mod(k1, 2 * hw);
    lemma_fundamental_div_mod(k2, 2 * hw);
}

/// The color and channels the renderer stores at a canvas coordinate.
pub open spec fn rendered_pixel_s(
    scene: Scene,
    cam: Vec3,
    t_min: int,
    t_max: int,
    w: int,
    h: int,
    x: int,
    y: int,
) -> (u8, u8, u8) {
    let c = trace_s(scene, cam, viewport_dir_s(w, h, x, y), t_min, t_max);
    (c.r, c.g, c.b)
}

impl Canvas {
    /// The ray direction from the camera through a canvas coordinate.
    pub fn viewport_direction_at(&self, x: i32, y: i32) -> (r: Vec3)
        requires
            self.width >= 1,
            self.height >= 1,
        ensures
            r == viewport_dir_s(self.width as int, self.height as int, x as int, y as int),
    {
        let dx: i128 = tdiv_i128((x as i128) * VW_FX, self.width as i128);
        let dy: i128 = tdiv_i128((y as i128) * VH_FX, self.height as i128);
        Vec3 { x: dx, y: dy, z: PROJECTION_PLANE_D_FX }
    }
}

/// Renders the scene onto the canvas: sweeps every canvas coordinate once,
/// traces the ray through it and stores the resulting color. Pixels whose
/// screen position an odd dimension leaves unreachable keep their old
/// value.
pub fn render(scene: &Scene, camera_position: &Vec3, t_min: i128, t_max: i128, canvas: &mut Canvas)
    requires
        scene.wf(),
        in_range(*camera_position, GEOM_LIMIT as int),
        -T_LIMIT <= t_min <= T_LIMIT,
        -T_LIMIT <= t_max <= T_LIMIT,
        old(canvas).wf(),
    ensures
        final(canvas).wf(),
        final(canvas).width == old(canvas).width,
        final(canvas).height == old(canvas).height,
        forall|x: int, y: int|
            valid_coord(old(canvas).width as int, old(canvas).height as int, x, y)
                ==> final(canvas).pixels()[#[trigger] screen_key(
                old(canvas).width as int,
                old(canvas).height as int,
                x,
                y,
            )] == rendered_pixel_s(
                *scene,
                *camera_position,
                t_min as int,
                t_max as int,
                old(canvas).width as int,
                old(canvas).height as int,
                x,
                y,
            ),
        forall|k: (int, int)|
            old(canvas).pixels().dom().contains(k) && (k.0 >= 2 * (old(canvas).width as int / 2)
                || k.1 >= 2 * (old(canvas).height as int / 2)) ==> final(canvas).pixels()[k] == old(
                canvas,
            ).pixels()[k],
{
    let ghost w = old(canvas).width as int;
    let ghost h = old(canvas).height as int;
    let ghost hw = w / 2;
    let ghost hh = h / 2;
    let mut it: PixelsIterator = canvas.iter_pixels();
    while it.half_w > 0 && it.y <= it.half_h
        invariant
            scene.wf(),
            in_range(*camera_position, GEOM_LIMIT as int),
            -T_LIMIT <= t_min <= T_LIMIT,
            -T_LIMIT <= t_max <= T_LIMIT,
            canvas.wf(),
            canvas.width as int == w,
            canvas.height as int == h,
            hw == w / 2,
            hh == h / 2,
            it.wf(),
            it.half_w as int == hw,
            it.half_h as int == hh,
            0 <= it.index() <= 4 * hw * hh,
            forall|x: int, y: int|
                valid_coord(w, h, x, y) && coord_index(hw, hh, x, y) < it.index()
                    ==> canvas.pixels()[#[trigger] screen_key(w, h, x, y)] == rendered_pixel_s(
                    *scene,
                    *camera_position,
                    t_min as int,
                    t_max as int,
                    w,
                    h,
                    x,
                    y,
                ),
            forall|x: int, y: int|
                valid_coord(w, h, x, y) && coord_index(hw, hh, x, y) >= it.index()
                    ==> canvas.pixels()[#[trigger] screen_key(w, h, x, y)] == old(
                    canvas,
                ).pixels()[screen_key(w, h, x, y)],
            forall|k: (int, int)|
                old(canvas).pixels().dom().contains(k) && (k.0 >= 2 * hw || k.1 >= 2 * hh)
                    ==> canvas.pixels()[k] == old(canvas).pixels()[k],
        decreases 4 * hw * hh - it.index(),
    {
        let ghost it0 = it;
        let nxt: Option<(i32, i32)> = it.next();
        let xy: (i32, i32) = match nxt {
            Option::Some(p) => p,
            Option::None => {
                proof {
                    assert(false);
                }
                (0, 0)
            },
        };
        let x: i32 = xy.0;
        let y: i32 = xy.1;
        proof {
            assert(coord_index(hw, hh, x as int, y as int) == it0.index());
            assert(valid_coord(w, h, x as int, y as int));
        }
        let direction: Vec3 = canvas.viewport_direction_at(x, y);
        proof {
            lemma_viewport_dir_in_range(w, h, x as int, y as int);
        }
        let color: Color = trace_ray(scene, camera_position, direction, t_min, t_max);
        let ghost before = canvas.pixels();
        canvas.put_pixel(x, y, color);
        proof {
            assert forall|xq: int, yq: int|
                valid_coord(w, h, xq, yq) && coord_index(hw, hh, xq, yq) < it.index() implies
                canvas.pixels()[#[trigger] screen_key(w, h, xq, yq)] == rendered_pixel_s(
                *scene,
                *camera_position,
                t_min as int,
                t_max as int,
                w,
                h,
                xq,
                yq,
            ) by {
                if xq == x as int && yq == y as int {
                } else {
                    if coord_index(hw, hh, xq, yq) == it0.index() {
                        lemma_coords_cover(hw, hh, xq, yq);
                        lemma_coords_cover(hw, hh, x as int, y as int);
                        assert(false);
                    }
                    assert(screen_key(w, h, xq, yq) != screen_key(w, h, x as int, y as int));
                }
            }
            assert forall|xq: int, yq: int|
                valid_coord(w, h, xq, yq) && coord_index(hw, hh, xq, yq) >= it.index() implies
                canvas.pixels()[#[trigger] screen_key(w, h, xq, yq)] == old(
                canvas,
            ).pixels()[screen_key(w, h, xq, yq)] by {
                assert(coord_index(hw, hh, xq, yq) != it0.index());
                assert((xq, yq) != (x as int, y as int));
                assert(screen_key(w, h, xq, yq) != screen_key(w, h, x as int, y as int));
            }
        }
    }
    proof {
        if hw > 0 {
            assert(it.y > it.half_h);
            assert(it.y == hh + 1 && it.x == -hw);
            assert((hh + 1 + hh - 1) * (2 * hw) == 4 * hw * hh) by (nonlinear_arith);
            assert(it.index() == 4 * hw * hh);
        }
        assert forall|x: int, y: int| valid_coord(w, h, x, y) implies canvas.pixels()[
            #[trigger] screen_key(w, h, x, y)
        ] == rendered_pixel_s(
            *scene,
            *camera_position,
            t_min as int,
            t_max as int,
            w,
            h,
            x,
            y,
        ) by {
            lemma_coords_cover(hw, hh, x, y);
        }
    }
}

/// Rendering is deterministic: two canvases with the same even dimensions,
/// both rendered from the same scene, camera and range, hold pixel for
/// pixel the same raster.
pub proof fn lemma_render_deterministic(
    c1: Canvas,
    c2: Canvas,
    scene: Scene,
    cam: Vec3,
    t_min: int,
    t_max: int,
)
    requires
        c1.wf(),
        c2.wf(),
        c1.width == c2.width,
        c1.height == c2.height,
        c1.width % 2 == 0,
        c1.height % 2 == 0,
        forall|x: int, y: int|
            valid_coord(c1.width as int, c1.height as int, x, y) ==> c1.pixels()[
                #[trigger] screen_key(c1.width as int, c1.height as int, x, y)
            ] == rendered_pixel_s(
                scene,
                cam,
                t_min,
                t_max,
                c1.width as int,
                c1.height as int,
                x,
                y,
            ),
        forall|x: int, y: int|
            valid_coord(c2.width as int, c2.height as int, x, y) ==> c2.pixels()[
                #[trigger] screen_key(c2.width as int, c2.height as int, x, y)
            ] == rendered_pixel_s(
                scene,
                cam,
                t_min,
                t_max,
                c2.width as int,
                c2.height as int,
                x,
                y,
            ),
    ensures
        c1.pixels() =~= c2.pixels(),
{
    let w = c1.width as int;
    let h = c1.height as int;
    assert forall|k: (int, int)| c1.pixels().dom().contains(k) implies c1.pixels()[k]
        == c2.pixels()[k] by {
        let x = k.0 - w / 2;
        let y = h / 2 - k.1;
        assert(valid_coord(w, h, x, y));
        assert(screen_key(w, h, x, y) == k);
    }
    assert(c1.pixels().dom() =~= c2.pixels().dom());
}

} // verus!
