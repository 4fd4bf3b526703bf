use vstd::prelude::*;

use rand::Rng;

use crate::coords::{Coords, CoordsDelta, Dimensions, Grid, at, dir_left, dir_right, four_directions};
use crate::tile::{Ground, Obj, Path, Tile, turns};

verus! {

/// Width and height of a chunk, in tiles.
pub const CHUNK_SIDE: i32 = 10;

/// How many tiles a chunk has.
pub const CHUNK_AREA: i32 = 100;

/// How many path tiles a chunk may hold, at the least and at the most (excluded).
pub const MIN_PATH_LEN: i32 = 14;
pub const MAX_PATH_LEN: i32 = 30;

/// How many times the path must step left.
pub const MIN_WESTWARD_STEPS: i32 = 2;

/// How many candidate paths are carved before generation gives up.
pub const MAX_ATTEMPTS: u32 = 1000000;

/// Relies on `rand::thread_rng().gen_range(low..high)`: a value drawn uniformly
/// in `[low, high)`; it panics on an empty range, which `requires` leaves out.
#[verifier::external_body]
pub fn rand_range(low: u32, high: u32) -> (r: u32)
    requires
        low < high,
    ensures
        low <= r < high,
{
    rand::thread_rng().gen_range(low..high)
}

/// A piece of world that can be generated independently.
pub struct Chunk {
    /// A 10x10 grid.
    pub grid: Grid<Tile>,
}

/// `b` is one step `d` away from `a`.
pub open spec fn steps_to(a: Coords, d: CoordsDelta, b: Coords) -> bool {
    b.x == a.x + d.dx && b.y == a.y + d.dy
}

/// Each of the four directions, reversed, is one of them.
pub proof fn lemma_reverse_direction(d: CoordsDelta)
    requires
        four_directions().contains(d),
    ensures
        four_directions().contains(CoordsDelta { dx: (-d.dx) as i32, dy: (-d.dy) as i32 }),
{
    let i = choose|i: int| 0 <= i < 4 && four_directions()[i] == d;
    let r = CoordsDelta { dx: (-d.dx) as i32, dy: (-d.dy) as i32 };
    if i == 0 {
        assert(four_directions()[2] == r);
    } else if i == 1 {
        assert(four_directions()[3] == r);
    } else if i == 2 {
        assert(four_directions()[0] == r);
    } else {
        assert(four_directions()[1] == r);
    }
}

/// `p` lists the path tiles of `g` in walking order, `recs[i]` being the
/// record of `p[i]`: the first one is at `(0, row)` and comes from the left,
/// each one's `forward` leads to the next and the next's `backward` leads
/// back, distances go up by one from `d0`, no tile comes twice, and every
/// path tile of `g` is listed.
pub open spec fn walk_ok(g: Grid<Tile>, p: Seq<Coords>, recs: Seq<Path>, row: int, d0: int) -> bool {
    &&& p.len() == recs.len()
    &&& p.len() >= 1 ==> p[0] == at(0, row) && recs[0].backward == dir_left()
    &&& forall|i: int|
        #![trigger p[i]]
        0 <= i < p.len() ==> g.dims.has(p[i]) && g.cell(p[i]).ground == Ground::Path(recs[i])
            && recs[i].distance == d0 + i
    &&& forall|i: int|
        #![trigger p[i + 1]]
        0 <= i < p.len() - 1 ==> steps_to(p[i], recs[i].forward, p[i + 1]) && steps_to(
            p[i + 1],
            recs[i + 1].backward,
            p[i],
        )
    &&& forall|i: int|
        0 <= i < recs.len() ==> four_directions().contains(#[trigger] recs[i].forward)
            && four_directions().contains(recs[i].backward) && recs[i].forward != recs[i].backward
    &&& forall|i: int, j: int| 0 <= i < j < p.len() ==> p[i] != p[j]
    &&& forall|c: Coords| g.dims.has(c) && (#[trigger] g.cell(c)).ground is Path ==> p.contains(c)
}

/// A complete path: it also leaves the grid through its right edge.
pub open spec fn is_chunk_path(g: Grid<Tile>, p: Seq<Coords>, recs: Seq<Path>, row: int, d0: int) -> bool {
    &&& walk_ok(g, p, recs, row, d0)
    &&& p.len() >= 1
    &&& recs.last().forward == dir_right()
    &&& p.last().x == g.dims.w - 1
}

/// How many path tiles lead left.
pub open spec fn westward_count(recs: Seq<Path>) -> nat
    decreases recs.len(),
{
    if recs.len() == 0 {
        0
    } else {
        westward_count(recs.drop_last()) + if recs.last().forward == dir_left() {
            1nat
        } else {
            0nat
        }
    }
}

/// How many times two turning tiles follow each other.
pub open spec fn u_turn_count(recs: Seq<Path>) -> nat
    decreases recs.len(),
{
    if recs.len() < 2 {
        0
    } else {
        u_turn_count(recs.drop_last()) + if turns(recs[recs.len() - 2]) && turns(recs.last()) {
            1nat
        } else {
            0nat
        }
    }
}

/// The acceptance criteria of a carved path.
pub open spec fn accepted(recs: Seq<Path>) -> bool {
    &&& MIN_PATH_LEN <= recs.len() < MAX_PATH_LEN
    &&& westward_count(recs) >= MIN_WESTWARD_STEPS
    &&& u_turn_count(recs) < 2
}

/// Where the path of a chunk enters, and the distance of its first tile.
pub open spec fn entry_of(join: Option<(i32, i32)>, row: int) -> (int, int) {
    match join {
        Some((y, d)) => (y as int, d + 1),
        None => (row, 0),
    }
}

/// What every generated chunk satisfies: a 10×10 grid with one accepted
/// path, that continues the join (row and distance + 1) when there is one,
/// and that starts with distance 0 on some row otherwise.
pub open spec fn valid_chunk(g: Grid<Tile>, join: Option<(i32, i32)>) -> bool {
    &&& g.wf()
    &&& g.dims == (Dimensions { w: CHUNK_SIDE, h: CHUNK_SIDE })
    &&& exists|row: int, p: Seq<Coords>, recs: Seq<Path>|
        0 <= row < CHUNK_SIDE && #[trigger] is_chunk_path(
            g,
            p,
            recs,
            entry_of(join, row).0,
            entry_of(join, row).1,
        ) && accepted(recs)
    &&& decor_ok(g)
}

/// The grass look is one of the four drawn ones.
pub open spec fn grass_look_ok(g: Ground) -> bool {
    match g {
        Ground::Grass { visual_variant } => visual_variant < 4,
        _ => true,
    }
}

/// What may stand on grass in a fresh chunk: nothing, a tree, a crystal, or a
/// rock of one of the three looks.
pub open spec fn grass_obj_ok(o: Option<Obj>) -> bool {
    match o {
        None => true,
        Some(Obj::Tree) => true,
        Some(Obj::Crystal) => true,
        Some(Obj::Rock { visual_variant }) => visual_variant < 3,
        _ => false,
    }
}

/// What a tile of a fresh chunk holds: an enemy of 8 hit points, with no
/// action and no fire, or nothing on the path; nothing on water; on grass,
/// a drawn look and a tree, a crystal or a rock, if anything.
pub open spec fn tile_decor_ok(t: Tile) -> bool {
    match t.ground {
        Ground::Path(_) => t.obj is None || t.obj == Some(
            Obj::Enemy { actions: 0, hp: 8, fire: 0, variant: crate::tile::Enemy::Basic },
        ),
        Ground::Water => t.obj is None,
        Ground::Grass { visual_variant } => visual_variant < 4 && grass_obj_ok(t.obj),
    }
}

/// Every tile of `g` is as `tile_decor_ok` says.
pub open spec fn decor_ok(g: Grid<Tile>) -> bool {
    forall|c: Coords| g.dims.has(c) ==> tile_decor_ok(#[trigger] g.cell(c))
}

proof fn lemma_decor_set(g1: Grid<Tile>, g2: Grid<Tile>, c: Coords)
    requires
        decor_ok(g1),
        g2.dims == g1.dims,
        forall|c2: Coords| g2.dims.has(c2) && c2 != c ==> #[trigger] g2.cell(c2) == g1.cell(c2),
        tile_decor_ok(g2.cell(c)),
    ensures
        decor_ok(g2),
{
    assert forall|c2: Coords| g2.dims.has(c2) implies tile_decor_ok(#[trigger] g2.cell(c2)) by {
        if c2 != c {
            assert(g2.cell(c2) == g1.cell(c2));
        }
    }
}

/// `g2` has the path tiles of `g1`, unchanged, and no other.
pub open spec fn keeps_path(g1: Grid<Tile>, g2: Grid<Tile>) -> bool {
    &&& g1.wf()
    &&& g2.wf()
    &&& g1.dims == g2.dims
    &&& forall|c: Coords|
        g1.dims.has(c) && ((#[trigger] g1.cell(c)).ground is Path || g2.cell(c).ground is Path)
            ==> g1.cell(c).ground == g2.cell(c).ground
}

proof fn lemma_keeps_path_refl(g: Grid<Tile>)
    requires
        g.wf(),
    ensures
        keeps_path(g, g),
{
}

proof fn lemma_keeps_path_trans(a: Grid<Tile>, b: Grid<Tile>, c: Grid<Tile>)
    requires
        keeps_path(a, b),
        keeps_path(b, c),
    ensures
        keeps_path(a, c),
{
    assert forall|x: Coords|
        a.dims.has(x) && ((#[trigger] a.cell(x)).ground is Path || c.cell(x).ground is Path) implies a.cell(
        x,
    ).ground == c.cell(x).ground by {
        assert(b.cell(x) == b.cell(x));
    }
}

proof fn lemma_walk_kept(g1: Grid<Tile>, g2: Grid<Tile>, p: Seq<Coords>, recs: Seq<Path>, row: int, d0: int)
    requires
        walk_ok(g1, p, recs, row, d0),
        keeps_path(g1, g2),
    ensures
        walk_ok(g2, p, recs, row, d0),
{
    assert forall|i: int| #![trigger p[i]] 0 <= i < p.len() implies g2.dims.has(p[i]) && g2.cell(
        p[i],
    ).ground == Ground::Path(recs[i]) && recs[i].distance == d0 + i by {
        assert(g1.cell(p[i]) == g1.cell(p[i]));
    }
    assert forall|c: Coords| g2.dims.has(c) && (#[trigger] g2.cell(c)).ground is Path implies p.contains(
        c,
    ) by {
        assert(g1.cell(c).ground == g2.cell(c).ground);
        assert(g1.cell(c).ground is Path);
    }
}

/// Replaces the object of an in-bounds tile.
fn set_obj(grid: &mut Grid<Tile>, c: Coords, obj: Option<Obj>)
    requires
        old(grid).wf(),
        old(grid).dims.has(c),
    ensures
        keeps_path(*old(grid), *final(grid)),
        final(grid).cell(c) == (Tile { ground: old(grid).cell(c).ground, obj }),
        forall|c2: Coords| final(grid).dims.has(c2) && c2 != c ==> #[trigger] final(grid).cell(c2) == old(grid).cell(c2),
{
    let t = *grid.get(c).unwrap();
    grid.set(c, Tile { ground: t.ground, obj });
}

/// Draws whether an event of probability `num / den` happens.
pub(crate) fn chance(num: u32, den: u32) -> bool
    requires
        den > 0,
{
    rand_range(0, den) < num
}

/// The coordinates of the `k`-th tile of a chunk, in row-major order.
fn chunk_coords(k: i32) -> (c: Coords)
    requires
        0 <= k < CHUNK_AREA,
    ensures
        (Dimensions { w: CHUNK_SIDE, h: CHUNK_SIDE }).has(c),
        c.y * CHUNK_SIDE + c.x == k,
{
    Coords { x: k % CHUNK_SIDE, y: k / CHUNK_SIDE }
}

/// Plain grass, with nothing on it.
fn plain_grass(_c: Coords) -> (t: Tile)
    ensures
        t.ground is Grass,
        t.obj.is_none(),
{
    Tile { ground: Ground::Grass { visual_variant: 0 }, obj: None }
}

/// Gives every grass tile a random look: most often the plain one.
fn vary_grass(grid: &mut Grid<Tile>)
    requires
        old(grid).wf(),
        old(grid).dims == (Dimensions { w: CHUNK_SIDE, h: CHUNK_SIDE }),
        forall|c: Coords|
            old(grid).dims.has(c) ==> (#[trigger] old(grid).cell(c)).obj is None && !(old(
                grid,
            ).cell(c).ground is Water),
    ensures
        keeps_path(*old(grid), *final(grid)),
        decor_ok(*final(grid)),
{
    let ghost g_start = *grid;
    let mut k: i32 = 0;
    proof {
        lemma_keeps_path_refl(*grid);
    }
    while k < CHUNK_AREA
        invariant
            0 <= k <= CHUNK_AREA,
            keeps_path(g_start, *grid),
            grid.dims == (Dimensions { w: CHUNK_SIDE, h: CHUNK_SIDE }),
            forall|c: Coords|
                grid.dims.has(c) ==> (#[trigger] grid.cell(c)).obj is None && !(grid.cell(
                    c,
                ).ground is Water) && (c.y * CHUNK_SIDE + c.x < k ==> grass_look_ok(
                    grid.cell(c).ground,
                )),
        decreases CHUNK_AREA - k,
    {
        let c = chunk_coords(k);
        let tile = *grid.get(c).unwrap();
        if tile.ground.is_grass() {
            let visual_variant = if rand_range(0, 4) == 0 {
                rand_range(1, 4)
            } else {
                0
            };
            let ghost g0 = *grid;
            grid.set(c, Tile { ground: Ground::Grass { visual_variant }, obj: tile.obj });
            proof {
                assert forall|c2: Coords|
                    g0.dims.has(c2) && ((#[trigger] g0.cell(c2)).ground is Path || grid.cell(c2).ground is Path)
                        implies g0.cell(c2).ground == grid.cell(c2).ground by {
                    if c2 == c {
                    }
                }
                lemma_keeps_path_trans(g_start, g0, *grid);
            }
        }
        proof {
            assert forall|c2: Coords|
                grid.dims.has(c2) implies (#[trigger] grid.cell(c2)).obj is None && !(grid.cell(
                c2,
            ).ground is Water) && (c2.y * CHUNK_SIDE + c2.x < k + 1 ==> grass_look_ok(
                grid.cell(c2).ground,
            )) by {
                if c2 != c {
                    crate::coords::lemma_index_injective(grid.dims, c2, c);
                }
            }
        }
        k = k + 1;
    }
    proof {
        assert forall|c: Coords| grid.dims.has(c) implies tile_decor_ok(#[trigger] grid.cell(c)) by {
            assert(c.y * CHUNK_SIDE + c.x < CHUNK_AREA);
            assert(grass_look_ok(grid.cell(c).ground));
        }
    }
}

/// The tile one step `d` away from `cur` is free (on the map, not on the
/// path, with nothing on it), or lies just past the right edge.
pub open spec fn step_open(g: Grid<Tile>, cur: Coords, d: CoordsDelta) -> bool {
    let n = at(cur.x + d.dx, cur.y + d.dy);
    (g.dims.has(n) && !(g.cell(n).ground is Path) && g.cell(n).obj is None) || n.x == g.dims.w
}

/// The open directions among the first `k` of the four, in scan order.
pub open spec fn open_upto(g: Grid<Tile>, cur: Coords, k: int) -> Seq<CoordsDelta>
    decreases k,
{
    if k <= 0 {
        Seq::empty()
    } else {
        open_upto(g, cur, k - 1) + if step_open(g, cur, four_directions()[k - 1]) {
            seq![four_directions()[k - 1]]
        } else {
            Seq::empty()
        }
    }
}

/// The directions in which the path may go on from `cur`, in the order up,
/// right, down, left.
pub fn open_directions(grid: &Grid<Tile>, cur: Coords) -> (r: Vec<CoordsDelta>)
    requires
        grid.wf(),
        grid.dims.has(cur),
    ensures
        r@ == open_upto(*grid, cur, 4),
        r@.len() <= 4,
        forall|d: CoordsDelta|
            #[trigger] r@.contains(d) ==> four_directions().contains(d) && step_open(*grid, cur, d),
{
    let dirs = CoordsDelta::iter_4_directions();
    let mut possible: Vec<CoordsDelta> = Vec::new();
    let mut k: usize = 0;
    while k < 4
        invariant
            k <= 4,
            possible@.len() <= k,
            dirs@ == four_directions(),
            grid.wf(),
            grid.dims.has(cur),
            possible@ == open_upto(*grid, cur, k as int),
            forall|d: CoordsDelta|
                #[trigger] possible@.contains(d) ==> four_directions().contains(d) && step_open(
                    *grid,
                    cur,
                    d,
                ),
        decreases 4 - k,
    {
        let d = dirs[k];
        assert(four_directions()[k as int] == d);
        let n = cur.shifted(d);
        assert(n == at(cur.x + d.dx, cur.y + d.dy));
        let ok = match grid.get(n) {
            Some(t) => !t.has_path() && t.obj.is_none(),
            None => false,
        } || n.x == grid.dims.w;
        let ghost before = possible@;
        if ok {
            possible.push(d);
            proof {
                assert forall|d2: CoordsDelta| #[trigger] possible@.contains(d2) implies four_directions().contains(
                    d2,
                ) && step_open(*grid, cur, d2) by {
                    if d2 != d {
                        let i = choose|i: int| 0 <= i < possible@.len() && possible@[i] == d2;
                        assert(before[i] == d2);
                        assert(before.contains(d2));
                    }
                }
            }
        } else {
            assert(before + Seq::<CoordsDelta>::empty() =~= before);
        }
        k = k + 1;
    }
    possible
}

/// The direction the path takes among `options`, from two draws: it keeps
/// `last` when that is open and `keep_roll` (in hundredths) is below 5, and
/// else takes the option that `index_roll` points at.
pub fn pick_direction_from(
    options: &Vec<CoordsDelta>,
    last: CoordsDelta,
    keep_roll: u32,
    index_roll: u32,
) -> (d: CoordsDelta)
    requires
        0 < options@.len() <= 4,
    ensures
        d == if options@.contains(last) && keep_roll < 5 {
            last
        } else {
            options@[(index_roll as int) % (options@.len() as int)]
        },
{
    let mut has_last = false;
    let mut k: usize = 0;
    while k < options.len()
        invariant
            k <= options@.len(),
            has_last == exists|j: int| 0 <= j < k && options@[j] == last,
        decreases options@.len() - k,
    {
        if options[k] == last {
            has_last = true;
        }
        k = k + 1;
    }
    proof {
        if options@.contains(last) {
            let j = choose|j: int| 0 <= j < options@.len() && options@[j] == last;
            assert(0 <= j < k && options@[j] == last);
        }
    }
    if has_last && keep_roll < 5 {
        last
    } else {
        options[(index_roll as usize) % options.len()]
    }
}

proof fn lemma_counts_push(recs: Seq<Path>, rec: Path)
    ensures
        westward_count(recs.push(rec)) == westward_count(recs) + if rec.forward == dir_left() {
            1nat
        } else {
            0nat
        },
        recs.len() >= 1 ==> u_turn_count(recs.push(rec)) == u_turn_count(recs) + if turns(
            recs.last(),
        ) && turns(rec) {
            1nat
        } else {
            0nat
        },
        recs.len() == 0 ==> u_turn_count(recs.push(rec)) == 0,
{
    assert(recs.push(rec).drop_last() =~= recs);
}

/// Carves one candidate path from `(0, row)` on a fresh grass grid, turning it
/// down (`None`) when it gets stuck or breaks the acceptance criteria.
fn carve_path(row: i32, d0: i32) -> (r: Option<(Grid<Tile>, Ghost<Seq<Coords>>, Ghost<Seq<Path>>)>)
    requires
        0 <= row < CHUNK_SIDE,
        d0 <= i32::MAX - MAX_PATH_LEN,
    ensures
        r matches Some((g, p, recs)) ==> {
            &&& g.wf()
            &&& g.dims == (Dimensions { w: CHUNK_SIDE, h: CHUNK_SIDE })
            &&& is_chunk_path(g, p@, recs@, row as int, d0 as int)
            &&& accepted(recs@)
            &&& forall|c: Coords| g.dims.has(c) ==> !((#[trigger] g.cell(c)).ground is Water)
        },
{
    let dims = Dimensions { w: CHUNK_SIDE, h: CHUNK_SIDE };
    let mut grid = Grid::new(dims, plain_grass);
    let ghost mut p: Seq<Coords> = Seq::empty();
    let ghost mut recs: Seq<Path> = Seq::empty();
    let mut prev_head = Coords { x: -1, y: row };
    let mut cur_head = Coords { x: 0, y: row };
    let mut last_direction = CoordsDelta::right();
    let mut westward: i32 = 0;
    let mut distance_in_chunk: i32 = 0;
    let mut it_turned_last_tile = false;
    let mut u_turns: i32 = 0;
    let dirs = CoordsDelta::iter_4_directions();
    assert(grid.cell(cur_head).ground is Grass);
    loop
        invariant_except_break
            dims.has(cur_head),
            !(grid.cell(cur_head).ground is Path),
        invariant
            0 <= row < CHUNK_SIDE,
            d0 <= i32::MAX - MAX_PATH_LEN,
            grid.wf(),
            grid.dims == dims,
            dims == (Dimensions { w: CHUNK_SIDE, h: CHUNK_SIDE }),
            dirs@ == four_directions(),
            walk_ok(grid, p, recs, row as int, d0 as int),
            forall|c: Coords| grid.dims.has(c) ==> !((#[trigger] grid.cell(c)).ground is Water),
            0 <= distance_in_chunk <= MAX_PATH_LEN,
            p.len() == distance_in_chunk,
            p.len() == 0 ==> cur_head == at(0, row as int) && prev_head == at(-1, row as int),
            p.len() > 0 ==> prev_head == p.last() && steps_to(
                p.last(),
                recs.last().forward,
                cur_head,
            ) && last_direction == recs.last().forward,
            westward == westward_count(recs),
            u_turns == u_turn_count(recs),
            westward <= distance_in_chunk,
            u_turns <= distance_in_chunk,
            it_turned_last_tile == (p.len() > 0 && turns(recs.last())),
        ensures
            grid.wf(),
            grid.dims == dims,
            is_chunk_path(grid, p, recs, row as int, d0 as int),
            forall|c: Coords| grid.dims.has(c) ==> !((#[trigger] grid.cell(c)).ground is Water),
            westward == westward_count(recs),
            u_turns == u_turn_count(recs),
            distance_in_chunk == p.len(),
        decreases MAX_PATH_LEN - distance_in_chunk,
    {
        if distance_in_chunk >= MAX_PATH_LEN {
            return None;
        }
        // The directions that lead to a free tile, or out through the right edge.
        let possible = open_directions(&grid, cur_head);
        if possible.len() == 0 {
            return None;
        }
        let keep_roll = rand_range(0, 100);
        let index_roll = rand_range(0, possible.len() as u32);
        let direction = pick_direction_from(&possible, last_direction, keep_roll, index_roll);
        proof {
            if !(possible@.contains(last_direction) && keep_roll < 5) {
                let len = possible@.len() as int;
                let ir = index_roll as int;
                assert(ir % len == ir) by (nonlinear_arith)
                    requires
                        0 <= ir < len,
                ;
                assert(direction == possible@[index_roll as int]);
                assert(possible@.contains(possible@[index_roll as int]));
            }
            assert(possible@.contains(direction));
            assert(four_directions().contains(direction) && step_open(grid, cur_head, direction));
        }
        let backward = prev_head.delta_from(cur_head);
        let rec = Path { forward: direction, backward, distance: d0 + distance_in_chunk };
        let old_tile = *grid.get(cur_head).unwrap();
        let ghost g_before = grid;
        grid.set(cur_head, Tile { ground: Ground::Path(rec), obj: old_tile.obj });
        proof {
            let p2 = p.push(cur_head);
            let r2 = recs.push(rec);
            assert forall|i: int| #![trigger p2[i]] 0 <= i < p2.len() implies grid.dims.has(p2[i])
                && grid.cell(p2[i]).ground == Ground::Path(r2[i]) && r2[i].distance == d0 + i by {
                if i < p.len() {
                    assert(p.contains(p[i]) ==> p[i] != cur_head);
                    assert(p2[i] == p[i]);
                }
            }
            assert forall|i: int| #![trigger p2[i + 1]] 0 <= i < p2.len() - 1 implies steps_to(
                p2[i],
                r2[i].forward,
                p2[i + 1],
            ) && steps_to(p2[i + 1], r2[i + 1].backward, p2[i]) by {
                if i < p.len() - 1 {
                    assert(p2[i] == p[i] && p2[i + 1] == p[i + 1]);
                }
            }
            assert forall|i: int, j: int| 0 <= i < j < p2.len() implies p2[i] != p2[j] by {
                if j == p.len() {
                    if p2[i] == cur_head {
                        assert(g_before.cell(p[i]).ground is Path);
                    }
                }
            }
            assert forall|c: Coords| grid.dims.has(c) && (#[trigger] grid.cell(c)).ground is Path implies p2.contains(
                c,
            ) by {
                if c == cur_head {
                    assert(p2[p.len() as int] == c);
                } else {
                    assert(g_before.cell(c) == grid.cell(c));
                    let i = choose|i: int| 0 <= i < p.len() && p[i] == c;
                    assert(p2[i] == c);
                }
            }
            if p.len() == 0 {
                assert(rec.backward == dir_left());
                assert(four_directions()[3] == rec.backward);
            } else {
                lemma_reverse_direction(recs.last().forward);
                assert(rec.backward == CoordsDelta {
                    dx: (-recs.last().forward.dx) as i32,
                    dy: (-recs.last().forward.dy) as i32,
                });
                assert(g_before.cell(p.last()).ground is Path);
            }
            assert(four_directions().contains(rec.backward));
            assert(rec.forward != rec.backward);
            assert forall|i: int| 0 <= i < r2.len() implies four_directions().contains(
                #[trigger] r2[i].forward,
            ) && four_directions().contains(r2[i].backward) && r2[i].forward != r2[i].backward by {
                if i < recs.len() {
                    assert(r2[i] == recs[i]);
                }
            }
            lemma_counts_push(recs, rec);
            p = p2;
            recs = r2;
            assert(walk_ok(grid, p, recs, row as int, d0 as int));
            let n = at(cur_head.x + direction.dx, cur_head.y + direction.dy);
            assert(n != cur_head);
            if dims.has(n) && !(g_before.cell(n).ground is Path) {
                assert(grid.cell(n) == g_before.cell(n));
            }
        }
        let it_turns_now = !((backward.dx == 0 && direction.dx == 0) || (backward.dy == 0
            && direction.dy == 0));
        if it_turned_last_tile && it_turns_now {
            u_turns = u_turns + 1;
            if u_turns >= 2 {
                return None;
            }
        }
        if it_turned_last_tile {
            // Plant some trees in the corner of turns to prevent boring U-turns.
            let mut j: usize = 0;
            while j < 4
                invariant
                    j <= 4,
                    dirs@ == four_directions(),
                    grid.wf(),
                    grid.dims == dims,
                    dims == (Dimensions { w: CHUNK_SIDE, h: CHUNK_SIDE }),
                    dims.has(cur_head),
                    walk_ok(grid, p, recs, row as int, d0 as int),
                    forall|c: Coords| grid.dims.has(c) ==> !((#[trigger] grid.cell(c)).ground is Water),
            forall|c: Coords| grid.dims.has(c) ==> !((#[trigger] grid.cell(c)).ground is Water),
                    four_directions().contains(direction),
                    ({
                        let n = at(cur_head.x + direction.dx, cur_head.y + direction.dy);
                        ||| (dims.has(n) && !(grid.cell(n).ground is Path))
                        ||| n.x == dims.w
                    }),
                decreases 4 - j,
            {
                let other = dirs[j];
                if other != direction && chance(95, 100) {
                    let other_coords = cur_head.shifted(other);
                    if dims.contains(other_coords) {
                        let t = *grid.get(other_coords).unwrap();
                        if t.is_empty_grass() {
                            let ghost g0 = grid;
                            set_obj(&mut grid, other_coords, Some(Obj::Tree));
                            proof {
                                lemma_walk_kept(g0, grid, p, recs, row as int, d0 as int);
                                let n = at(cur_head.x + direction.dx, cur_head.y + direction.dy);
                                if dims.has(n) {
                                    assert(g0.cell(n) == g0.cell(n));
                                }
                            }
                        }
                    }
                }
                j = j + 1;
            }
        }
        it_turned_last_tile = it_turns_now;
        distance_in_chunk = distance_in_chunk + 1;
        if direction == CoordsDelta::left() {
            westward = westward + 1;
        }
        last_direction = direction;
        prev_head = cur_head;
        cur_head = cur_head.shifted(direction);
        if cur_head.x == dims.w {
            assert(direction == dir_right());
            break ;
        }
        assert(dims.has(cur_head) && !(grid.cell(cur_head).ground is Path));
        let force_turn: bool = if cur_head.y == 0 || cur_head.y == dims.h - 1 {
            chance(3, 10)
        } else {
            chance(1, 10)
        };
        if force_turn {
            // A tree right ahead makes the path turn.
            let ahead = cur_head.shifted(direction);
            if dims.contains(ahead) {
                let t = *grid.get(ahead).unwrap();
                if t.is_empty_grass() {
                    let ghost g0 = grid;
                    set_obj(&mut grid, ahead, Some(Obj::Tree));
                    proof {
                        lemma_walk_kept(g0, grid, p, recs, row as int, d0 as int);
                        assert(g0.cell(cur_head) == g0.cell(cur_head));
                    }
                }
            }
        }
    }
    if westward < MIN_WESTWARD_STEPS || distance_in_chunk < MIN_PATH_LEN || distance_in_chunk
        >= MAX_PATH_LEN || u_turns >= 2 {
        return None;
    }
    Some((grid, Ghost(p), Ghost(recs)))
}


/// Removes the object of every tile. Ground is left as it is.
fn clear_objs(grid: &mut Grid<Tile>)
    requires
        old(grid).wf(),
        old(grid).dims == (Dimensions { w: CHUNK_SIDE, h: CHUNK_SIDE }),
    ensures
        keeps_path(*old(grid), *final(grid)),
        forall|c: Coords| final(grid).dims.has(c) ==> (#[trigger] final(grid).cell(c)).obj.is_none(),
        forall|c: Coords|
            final(grid).dims.has(c) ==> (#[trigger] final(grid).cell(c)).ground == old(grid).cell(
                c,
            ).ground,
{
    let ghost g_start = *grid;
    let mut k: i32 = 0;
    while k < CHUNK_AREA
        invariant
            0 <= k <= CHUNK_AREA,
            keeps_path(g_start, *grid),
            grid.dims == (Dimensions { w: CHUNK_SIDE, h: CHUNK_SIDE }),
            forall|c: Coords|
                grid.dims.has(c) && c.y * CHUNK_SIDE + c.x < k ==> (#[trigger] grid.cell(c)).obj.is_none(),
            forall|c: Coords| grid.dims.has(c) ==> (#[trigger] grid.cell(c)).ground == g_start.cell(c).ground,
        decreases CHUNK_AREA - k,
    {
        let c = chunk_coords(k);
        let ghost g0 = *grid;
        set_obj(grid, c, None);
        proof {
            lemma_keeps_path_trans(g_start, g0, *grid);
        }
        k = k + 1;
    }
}

/// Floods some non-path tiles with water, by short random walks.
fn grow_water(grid: &mut Grid<Tile>)
    requires
        old(grid).wf(),
        decor_ok(*old(grid)),
        old(grid).dims == (Dimensions { w: CHUNK_SIDE, h: CHUNK_SIDE }),
    ensures
        decor_ok(*final(grid)),
        keeps_path(*old(grid), *final(grid)),
{
    let ghost g_start = *grid;
    let dims = grid.dims;
    let dirs = CoordsDelta::iter_4_directions();
    let mut seeds: u32 = 0;
    proof {
        lemma_keeps_path_refl(*grid);
    }
    while seeds < 100
        invariant
            keeps_path(g_start, *grid),
            decor_ok(*grid),
            dims == grid.dims,
            dims == (Dimensions { w: CHUNK_SIDE, h: CHUNK_SIDE }),
            dirs@ == four_directions(),
        decreases 100 - seeds,
    {
        seeds = seeds + 1;
        if !chance(4, 10) {
            break ;
        }
        let mut coords = Coords {
            x: rand_range(0, CHUNK_SIDE as u32) as i32,
            y: rand_range(0, CHUNK_SIDE as u32) as i32,
        };
        let mut steps: u32 = 0;
        while steps < 100
            invariant
                keeps_path(g_start, *grid),
                decor_ok(*grid),
            decor_ok(*grid),
                dims == grid.dims,
                dims == (Dimensions { w: CHUNK_SIDE, h: CHUNK_SIDE }),
                dirs@ == four_directions(),
                dims.has(coords),
            decreases 100 - steps,
        {
            steps = steps + 1;
            let tile = *grid.get(coords).unwrap();
            if tile.has_path() || tile.has_water() || rand_range(0, 3) == 0 {
                break ;
            }
            let ghost g0 = *grid;
            grid.set(coords, Tile { ground: Ground::Water, obj: None });
            proof {
                assert forall|c: Coords|
                    g0.dims.has(c) && ((#[trigger] g0.cell(c)).ground is Path || grid.cell(c).ground is Path)
                        implies g0.cell(c).ground == grid.cell(c).ground by {
                    if c == coords {
                    }
                }
                lemma_keeps_path_trans(g_start, g0, *grid);
                lemma_decor_set(g0, *grid, coords);
            }
            let d = dirs[rand_range(0, 4) as usize];
            assert(four_directions().contains(d)) by {
                let i = choose|i: int| 0 <= i < 4 && dirs@[i] == d;
            }
            let next = coords.shifted(d);
            match grid.get(next) {
                Some(t) => {
                    if !t.has_path() {
                        coords = next;
                    }
                },
                None => {},
            }
        }
    }
}

/// Probability, in thousandths, that an empty grass tile receives a given kind of object.
fn object_odds(kind: u32, y: i32) -> (r: u32)
    ensures
        r <= 1000,
{
    let border = y == 0 || y == CHUNK_SIDE - 1;
    let near_border = y == 1 || y == CHUNK_SIDE - 2;
    if kind == 0 {
        if border { 300 } else { 50 }
    } else if kind == 1 {
        50
    } else if near_border {
        30
    } else {
        6
    }
}

/// Puts trees (`kind` 0), rocks (1) or crystals (2) on empty grass tiles at
/// random, and tells how many were put.
fn scatter(grid: &mut Grid<Tile>, kind: u32) -> (placed: u32)
    requires
        old(grid).wf(),
        decor_ok(*old(grid)),
        old(grid).dims == (Dimensions { w: CHUNK_SIDE, h: CHUNK_SIDE }),
    ensures
        decor_ok(*final(grid)),
        keeps_path(*old(grid), *final(grid)),
        placed <= CHUNK_AREA,
{
    let ghost g_start = *grid;
    let mut placed: u32 = 0;
    let mut k: i32 = 0;
    proof {
        lemma_keeps_path_refl(*grid);
    }
    while k < CHUNK_AREA
        invariant
            0 <= k <= CHUNK_AREA,
            placed <= k,
            keeps_path(g_start, *grid),
            decor_ok(*grid),
            grid.dims == (Dimensions { w: CHUNK_SIDE, h: CHUNK_SIDE }),
        decreases CHUNK_AREA - k,
    {
        let c = chunk_coords(k);
        let tile = *grid.get(c).unwrap();
        if tile.is_empty_grass() && chance(object_odds(kind, c.y), 1000) {
            let obj = if kind == 0 {
                Obj::Tree
            } else if kind == 1 {
                Obj::Rock { visual_variant: rand_range(0, 3) }
            } else {
                Obj::Crystal
            };
            let ghost g0 = *grid;
            set_obj(grid, c, Some(obj));
            proof {
                lemma_keeps_path_trans(g_start, g0, *grid);
                lemma_decor_set(g0, *grid, c);
            }
            placed = placed + 1;
        }
        k = k + 1;
    }
    placed
}

/// Puts enemies on path tiles at random.
fn seed_enemies(grid: &mut Grid<Tile>)
    requires
        old(grid).wf(),
        decor_ok(*old(grid)),
        old(grid).dims == (Dimensions { w: CHUNK_SIDE, h: CHUNK_SIDE }),
    ensures
        decor_ok(*final(grid)),
        keeps_path(*old(grid), *final(grid)),
{
    let ghost g_start = *grid;
    let mut k: i32 = 0;
    proof {
        lemma_keeps_path_refl(*grid);
    }
    while k < CHUNK_AREA
        invariant
            0 <= k <= CHUNK_AREA,
            keeps_path(g_start, *grid),
            decor_ok(*grid),
            grid.dims == (Dimensions { w: CHUNK_SIDE, h: CHUNK_SIDE }),
        decreases CHUNK_AREA - k,
    {
        let c = chunk_coords(k);
        let tile = *grid.get(c).unwrap();
        if tile.has_path() && chance(4, 10) {
            let ghost g0 = *grid;
            set_obj(grid, c, Some(Obj::new_enemy(8)));
            proof {
                lemma_keeps_path_trans(g_start, g0, *grid);
                lemma_decor_set(g0, *grid, c);
            }
        }
        k = k + 1;
    }
}

impl Chunk {
    /// Generates a new random chunk of world. The path continues from where it
    /// stopped on the right side of the previous chunk (`last_path_y_and_dist`:
    /// its row and distance), or starts on a random row with distance 0.
    /// `None` only when no acceptable path came out of `MAX_ATTEMPTS` tries.
    pub fn generate(last_path_y_and_dist: Option<(i32, i32)>) -> (r: Option<Chunk>)
        requires
            last_path_y_and_dist matches Some((y, d)) ==> 0 <= y < CHUNK_SIDE && d + 1 <= i32::MAX
                - MAX_PATH_LEN,
        ensures
            r matches Some(chunk) ==> valid_chunk(chunk.grid, last_path_y_and_dist),
    {
        let (path_y, d0) = match last_path_y_and_dist {
            Some((y, d)) => (y, d + 1),
            None => (rand_range(0, CHUNK_SIDE as u32) as i32, 0),
        };
        let mut attempt: u32 = 0;
        let mut carved: Option<(Grid<Tile>, Ghost<Seq<Coords>>, Ghost<Seq<Path>>)> = None;
        while attempt < MAX_ATTEMPTS && carved.is_none()
            invariant
                0 <= path_y < CHUNK_SIDE,
                d0 <= i32::MAX - MAX_PATH_LEN,
                carved matches Some((g, p, recs)) ==> {
                    &&& g.wf()
                    &&& g.dims == (Dimensions { w: CHUNK_SIDE, h: CHUNK_SIDE })
                    &&& is_chunk_path(g, p@, recs@, path_y as int, d0 as int)
                    &&& accepted(recs@)
                    &&& forall|c: Coords| g.dims.has(c) ==> !((#[trigger] g.cell(c)).ground is Water)
                },
            decreases MAX_ATTEMPTS - attempt,
        {
            attempt = attempt + 1;
            carved = carve_path(path_y, d0);
        }
        match carved {
            None => None,
            Some((grid0, p, recs)) => {
                let mut grid = grid0;
                // Clean up the trees planted just to help with path generation.
                clear_objs(&mut grid);
                let ghost g0 = grid;
                vary_grass(&mut grid);
                let ghost g1 = grid;
                grow_water(&mut grid);
                let ghost g2 = grid;
                scatter(&mut grid, 0);
                let ghost g3 = grid;
                scatter(&mut grid, 1);
                let ghost g4 = grid;
                let mut crystals: u32 = 0;
                let mut sweeps: u32 = 0;
                proof {
                    lemma_keeps_path_trans(grid0, g0, g1);
                    lemma_keeps_path_trans(grid0, g1, g2);
                    lemma_keeps_path_trans(grid0, g2, g3);
                    lemma_keeps_path_trans(grid0, g3, g4);
                }
                while sweeps < 30 && crystals == 0
                    invariant
                        keeps_path(grid0, grid),
                        decor_ok(grid),
                        grid.dims == (Dimensions { w: CHUNK_SIDE, h: CHUNK_SIDE }),
                    decreases 30 - sweeps,
                {
                    let ghost g5 = grid;
                    crystals = scatter(&mut grid, 2);
                    proof {
                        lemma_keeps_path_trans(grid0, g5, grid);
                    }
                    sweeps = sweeps + 1;
                }
                let ghost g6 = grid;
                seed_enemies(&mut grid);
                proof {
                    lemma_keeps_path_trans(grid0, g6, grid);
                    lemma_walk_kept(grid0, grid, p@, recs@, path_y as int, d0 as int);
                    let row = path_y as int;
                    assert(entry_of(last_path_y_and_dist, row) == (path_y as int, d0 as int));
                    assert(is_chunk_path(
                        grid,
                        p@,
                        recs@,
                        entry_of(last_path_y_and_dist, row).0,
                        entry_of(last_path_y_and_dist, row).1,
                    ));
                }
                Some(Chunk { grid })
            },
        }
    }
}

} // verus!
