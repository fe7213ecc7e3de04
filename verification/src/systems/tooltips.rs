use vstd::prelude::*;
use crate::camera::Camera;
use crate::geometry::Point;
use vstd::string::StringExecFns;

verus! {

/// Division by four, rounding toward zero as Rust's `/` on `i32` does.
pub open spec fn quarter(v: int) -> int {
    if v >= 0 { v / 4 } else { -((-v) / 4) }
}

/// The map cell under the mouse: the mouse's console position divided by
/// four (the tooltip console is four times finer than the map's), plus the
/// view's top-left corner.
pub open spec fn cell_under(mouse: Point, c: Camera) -> Point {
    Point { x: (quarter(mouse.x as int) + c.left_x) as i32, y: (quarter(mouse.y as int) + c.top_y) as i32 }
}

fn quarter_of(v: i32) -> (r: i32)
    ensures
        r == quarter(v as int),
{
    let w = v as i64;
    let q = if w >= 0 { w / 4 } else { -((-w) / 4) };
    q as i32
}

/// The cell under the mouse fits in `i32`.
pub open spec fn cell_fits(mouse: Point, c: Camera) -> bool {
    &&& i32::MIN <= quarter(mouse.x as int) + c.left_x <= i32::MAX
    &&& i32::MIN <= quarter(mouse.y as int) + c.top_y <= i32::MAX
}

/// The map cell under the mouse.
pub fn tooltip_cell(mouse_pos: Point, camera: &Camera) -> (p: Point)
    requires
        cell_fits(mouse_pos, *camera),
    ensures
        p == cell_under(mouse_pos, *camera),
{
    Point::new(quarter_of(mouse_pos.x) + camera.left_x, quarter_of(mouse_pos.y) + camera.top_y)
}

/// The tooltip system: the named entities that stand on the cell under the
/// mouse and that the player sees. Returns their indices, in order.
pub fn tooltips(mouse_pos: Point, camera: &Camera, positions: &Vec<Point>, visible: &Vec<Point>) -> (shown: Vec<usize>)
    requires
        cell_fits(mouse_pos, *camera),
    ensures
        forall|k: int| 0 <= k < shown@.len() ==> (#[trigger] shown@[k]) < positions@.len(),
        forall|k: int| 0 <= k < shown@.len() ==> positions@[#[trigger] shown@[k] as int] == cell_under(mouse_pos, *camera)
            && visible@.contains(positions@[shown@[k] as int]),
        forall|i: int| 0 <= i < positions@.len() && positions@[i] == cell_under(mouse_pos, *camera)
            && visible@.contains(positions@[i]) ==> shown@.contains(i as usize),
        forall|a: int, b: int| 0 <= a < b < shown@.len() ==> (#[trigger] shown@[a]) < (#[trigger] shown@[b]),
{
    let map_pos = tooltip_cell(mouse_pos, camera);
    let mut shown: Vec<usize> = Vec::new();
    let mut i: usize = 0;
    while i < positions.len()
        invariant
            i <= positions@.len(),
            map_pos == cell_under(mouse_pos, *camera),
            forall|k: int| 0 <= k < shown@.len() ==> (#[trigger] shown@[k]) < i,
            forall|k: int| 0 <= k < shown@.len() ==> positions@[#[trigger] shown@[k] as int] == map_pos
                && visible@.contains(positions@[shown@[k] as int]),
            forall|j: int| 0 <= j < i && positions@[j] == map_pos && visible@.contains(positions@[j]) ==> shown@.contains(j as usize),
            forall|a: int, b: int| 0 <= a < b < shown@.len() ==> (#[trigger] shown@[a]) < (#[trigger] shown@[b]),
        decreases positions@.len() - i,
    {
        let p = positions[i];
        if p == map_pos {
            let mut seen = false;
            let mut j: usize = 0;
            while j < visible.len()
                invariant
                    j <= visible@.len(),
                    seen == exists|k: int| 0 <= k < j && visible@[k] == p,
                decreases visible@.len() - j,
            {
                if visible[j] == p {
                    seen = true;
                }
                j = j + 1;
            }
            if seen {
                let ghost before = shown@;
                shown.push(i);
                proof {
                    assert(shown@[shown@.len() - 1] == i);
                    assert forall|jj: int| 0 <= jj < i + 1 && positions@[jj] == map_pos && visible@.contains(positions@[jj])
                        implies shown@.contains(jj as usize) by {
                        if jj < i {
                            let w = choose|w: int| 0 <= w < before.len() && before[w] == jj as usize;
                            assert(shown@[w] == jj as usize);
                        } else {
                            assert(shown@[shown@.len() - 1] == jj as usize);
                        }
                    }
                }
            }
        }
        i = i + 1;
    }
    shown
}

/// The character of a decimal digit `d` in `0..10`.
pub open spec fn digit_char(d: int) -> char {
    (48 + d) as char
}

/// The decimal digits of `n`, most significant first, with no leading zero.
pub open spec fn digits(n: nat) -> Seq<char>
    decreases n,
{
    if n < 10 {
        seq![digit_char(n as int)]
    } else {
        digits(n / 10).push(digit_char((n % 10) as int))
    }
}

/// The decimal text of `v`: its digits, after a `-` where it is negative.
pub open spec fn decimal(v: int) -> Seq<char> {
    if v < 0 {
        seq!['-'] + digits((-v) as nat)
    } else {
        digits(v as nat)
    }
}

/// Calls `i32::to_string`, which writes `v` through its `Display`: in
/// decimal, with a leading `-` where it is negative.
#[verifier::external_body]
fn int_text(v: i32) -> (s: String)
    ensures
        s@ == decimal(v as int),
{
    v.to_string()
}

/// The text of a tooltip: the entity's name, followed by its current
/// health as `": <n> hp"` where it has health.
pub fn tooltip_text(name: &String, health: Option<i32>) -> (s: String)
    ensures
        s@ == match health {
            Some(h) => name@ + ": "@ + decimal(h as int) + " hp"@,
            None => name@,
        },
{
    let mut s = name.clone();
    match health {
        Some(h) => {
            s.append(": ");
            let n = int_text(h);
            s.append(n.as_str());
            s.append(" hp");
        },
        None => {},
    }
    s
}

} // verus!
