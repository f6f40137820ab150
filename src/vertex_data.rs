use vstd::prelude::*;

verus! {

/// Largest grid side accepted, so that the vertex count fits in `u32`.
pub const MAX_GRID: u32 = 32_000;

/// Detail level of the terrain: 0 ultra-low, 1 low, 2 medium, 3 high, 4 ultra.
pub const QUALITY: u32 = 2;

/// Render distance: 0 half, 1 default, 2 double, 3 quadruple, 4 eightfold.
pub const RENDER_DISTANCE: u32 = 2;

/// Micro-units in half the side of the terrain at the default render distance.
pub const HALF_EXTENT: i64 = 2_500_000;

/// A vertex of the flat terrain in grid coordinates; its height is zero.
#[derive(PartialEq, Eq, Structural, Clone, Copy, Debug)]
pub struct GridPoint {
    pub x: u32,
    pub z: u32,
}

pub open spec fn gp(x: int, z: int) -> GridPoint {
    GridPoint { x: x as u32, z: z as u32 }
}

/// The first `c` column pairs of row `nz`: for each column its vertex on
/// the row's near edge, then on its far edge.
pub open spec fn strip(nz: int, c: nat) -> Seq<GridPoint>
    decreases c,
{
    if c == 0 {
        seq![]
    } else {
        strip(nz, (c - 1) as nat) + seq![gp(c - 1, nz), gp(c - 1, nz + 1)]
    }
}

/// Row `nz` of a grid of side `n`, with the two degenerate vertices that
/// lead the strip back to the start of the next row.
pub open spec fn row(n: nat, nz: int) -> Seq<GridPoint> {
    strip(nz, n + 1) + if nz + 1 < n {
        seq![gp(n as int, nz + 1), gp(0, nz + 1)]
    } else {
        seq![]
    }
}

/// The first `k` rows.
pub open spec fn rows(n: nat, k: nat) -> Seq<GridPoint>
    decreases k,
{
    if k == 0 {
        seq![]
    } else {
        rows(n, (k - 1) as nat) + row(n, k - 1)
    }
}

/// The triangle strip covering an `n` by `n` grid of quads.
pub open spec fn plane_spec(n: nat) -> Seq<GridPoint> {
    rows(n, n)
}

/// Number of vertices of the strip.
pub open spec fn plane_len(n: nat) -> int {
    if n == 0 {
        0
    } else {
        n * (2 * n + 4) - 2
    }
}

pub proof fn lemma_strip_len(nz: int, c: nat)
    ensures
        strip(nz, c).len() == 2 * c,
    decreases c,
{
    if c > 0 {
        lemma_strip_len(nz, (c - 1) as nat);
    }
}

pub proof fn lemma_rows_len(n: nat, k: nat)
    requires
        k < n,
    ensures
        rows(n, k).len() == k * (2 * n + 4),
    decreases k,
{
    if k > 0 {
        lemma_rows_len(n, (k - 1) as nat);
        lemma_strip_len(k - 1, n + 1);
        assert(row(n, k - 1).len() == 2 * n + 4);
        assert((k - 1) * (2 * n + 4) + (2 * n + 4) == k * (2 * n + 4)) by (nonlinear_arith);
        assert(rows(n, k).len() == rows(n, (k - 1) as nat).len() + row(n, k - 1).len());
    } else {
        assert(0 * (2 * n + 4) == 0) by (nonlinear_arith);
    }
}

/// The strip has `n * (2n + 4) - 2` vertices.
pub proof fn lemma_plane_len(n: nat)
    ensures
        plane_spec(n).len() == plane_len(n),
{
    if n > 0 {
        lemma_rows_len(n, (n - 1) as nat);
        lemma_strip_len(n - 1, n + 1);
        assert(row(n, n - 1).len() == 2 * n + 2);
        assert((n - 1) * (2 * n + 4) + (2 * n + 2) == n * (2 * n + 4) - 2) by (nonlinear_arith);
    }
}

/// Builds the triangle strip of an `n` by `n` grid of unit quads, row by
/// row, in grid coordinates.
pub fn plane_vertices(n: u32) -> (r: Vec<GridPoint>)
    requires
        n <= MAX_GRID,
    ensures
        r@ == plane_spec(n as nat),
        r@.len() == plane_len(n as nat),
{
    let mut v: Vec<GridPoint> = Vec::new();
    let mut nz: u32 = 0;
    while nz < n
        invariant
            nz <= n <= MAX_GRID,
            v@ == rows(n as nat, nz as nat),
        decreases n - nz,
    {
        let mut nx: u32 = 0;
        while nx <= n
            invariant
                nz < n <= MAX_GRID,
                nx <= n + 1,
                v@ == rows(n as nat, nz as nat) + strip(nz as int, nx as nat),
            decreases n + 1 - nx,
        {
            v.push(GridPoint { x: nx, z: nz });
            v.push(GridPoint { x: nx, z: nz + 1 });
            assert(v@ =~= rows(n as nat, nz as nat) + strip(nz as int, (nx + 1) as nat));
            nx += 1;
        }
        if nz + 1 < n {
            v.push(GridPoint { x: n, z: nz + 1 });
            v.push(GridPoint { x: 0, z: nz + 1 });
        }
        assert(v@ =~= rows(n as nat, (nz + 1) as nat));
        nz += 1;
    }
    proof {
        lemma_plane_len(n as nat);
    }
    v
}

/// Render distance multiplier, in halves, of a render-distance level.
pub open spec fn dist_halves(level: u32) -> Option<u32> {
    if level == 0 {
        Some(1)
    } else if level == 1 {
        Some(2)
    } else if level == 2 {
        Some(4)
    } else if level == 3 {
        Some(8)
    } else if level == 4 {
        Some(16)
    } else {
        None
    }
}

/// Grid side at the default render distance, and quads per unit, of a
/// quality level.
pub open spec fn quality_table(quality: u32) -> Option<(u32, u32)> {
    if quality == 0 {
        Some((125, 25))
    } else if quality == 1 {
        Some((250, 50))
    } else if quality == 2 {
        Some((500, 100))
    } else if quality == 3 {
        Some((1000, 200))
    } else if quality == 4 {
        Some((2000, 400))
    } else {
        None
    }
}

/// The render distance multiplier in halves (`1` is half the default
/// distance, `16` eight times it); `None` for an unknown level.
pub fn render_dist_mul(level: u32) -> (r: Option<u32>)
    ensures
        r == dist_halves(level),
{
    match level {
        0 => Some(1),
        1 => Some(2),
        2 => Some(4),
        3 => Some(8),
        4 => Some(16),
        _ => None,
    }
}

/// Half the side of the terrain, in micro-units, at a render-distance
/// level; `None` for an unknown level.
pub fn half_extent(level: u32) -> (r: Option<i64>)
    ensures
        r.is_some() == dist_halves(level).is_some(),
        r.is_some() ==> r.unwrap() == HALF_EXTENT * dist_halves(level).unwrap() / 2,
{
    match render_dist_mul(level) {
        Some(h) => Some(HALF_EXTENT / 2 * h as i64),
        None => None,
    }
}

/// The flat terrain mesh: a triangle strip over a square grid.
pub struct VertexData {
    /// Number of vertices.
    pub length: u32,
    /// The vertices, in grid coordinates.
    pub positions: Vec<GridPoint>,
    /// Grid side, in quads.
    pub grid: u32,
    /// Quads per unit of length: a vertex at grid `x` stands at `x / quads_per_unit`.
    pub quads_per_unit: u32,
}

/// The grid side and quads per unit for a quality and a render distance.
pub open spec fn settings(quality: u32, level: u32) -> Option<(u32, u32)> {
    match (quality_table(quality), dist_halves(level)) {
        (Some((base, per_unit)), Some(h)) => Some(((base * h / 2) as u32, per_unit)),
        _ => None,
    }
}

impl VertexData {
    pub open spec fn wf(&self) -> bool {
        &&& self.positions@ == plane_spec(self.grid as nat)
        &&& self.length == self.positions@.len()
    }

    /// The mesh for a quality and a render-distance level; `None` when
    /// either level is unknown.
    pub fn with_settings(quality: u32, level: u32) -> (r: Option<VertexData>)
        ensures
            r.is_some() == settings(quality, level).is_some(),
            r.is_some() ==> ({
                let v = r.unwrap();
                let (g, q) = settings(quality, level).unwrap();
                &&& v.wf()
                &&& v.grid == g
                &&& v.quads_per_unit == q
                &&& v.length == plane_len(g as nat)
            }),
    {
        let (base, per_unit) = match quality {
            0 => (125u32, 25u32),
            1 => (250, 50),
            2 => (500, 100),
            3 => (1000, 200),
            4 => (2000, 400),
            _ => {
                return None;
            },
        };
        let h = match render_dist_mul(level) {
            Some(h) => h,
            None => {
                return None;
            },
        };
        let grid = base * h / 2;
        let positions = plane_vertices(grid);
        proof {
            lemma_plane_len(grid as nat);
            assert(plane_len(grid as nat) <= 16000 * (2 * 16000 + 4)) by (nonlinear_arith)
                requires grid <= 16000, plane_len(grid as nat) == if grid == 0 { 0 } else { grid * (2 * grid + 4) - 2 };
        }
        let length = positions.len() as u32;
        Some(VertexData { length, positions, grid, quads_per_unit: per_unit })
    }

    /// The mesh at the configured quality and render distance.
    pub fn new() -> (r: VertexData)
        ensures
            r.wf(),
            r.grid == 1000,
            r.quads_per_unit == 100,
            r.length == plane_len(1000),
    {
        match VertexData::with_settings(QUALITY, RENDER_DISTANCE) {
            Some(v) => v,
            None => {
                proof {
                    assert(false);
                }
                VertexData { length: 0, positions: Vec::new(), grid: 0, quads_per_unit: 1 }
            },
        }
    }
}

} // verus!
