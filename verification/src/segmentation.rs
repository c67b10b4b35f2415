//! Pixel graph of the graph-cut segmentation: one node per pixel plus a
//! source and a sink, neighbour edges weighted by colour difference.

use vstd::prelude::*;
use crate::grid::lemma_index_in_bounds;
use rs_graph::maxflow::dinic;
use rs_graph::traits::Indexable;
use rs_graph::vecgraph::{Node, VecGraphBuilder};
use rs_graph::Builder;

verus! {

/// Capacity class of an edge of the pixel graph.
#[derive(Debug, Clone, Copy, PartialEq, Eq)]
pub enum Capacity {
    /// Between neighbouring pixels; carries the sum over the four RGBA
    /// channels of the squared (8-bit, wrapping) channel differences.
    Neighbour(u32),
    /// From a terminal to a seed pixel: effectively unbounded.
    Seed,
    /// The companion edge added with every seed edge: capacity zero.
    Empty,
}

/// A directed edge of the pixel graph.
#[derive(Debug, Clone, Copy, PartialEq, Eq)]
pub struct GraphEdge {
    pub from: usize,
    pub to: usize,
    pub capacity: Capacity,
}

/// Squared difference of two 8-bit channel values, the difference wrapping
/// around modulo 256.
pub open spec fn channel_term(a: u8, b: u8) -> int {
    let d = if a >= b {
        a - b
    } else {
        a - b + 256
    };
    d * d
}

/// Sum of the channel terms of pixels `p` and `n` of an RGBA buffer.
pub open spec fn colour_distance(data: Seq<u8>, p: int, n: int) -> int {
    channel_term(data[4 * p], data[4 * n]) + channel_term(data[4 * p + 1], data[4 * n + 1])
        + channel_term(data[4 * p + 2], data[4 * n + 2]) + channel_term(data[4 * p + 3], data[4 * n + 3])
}

/// The neighbour weight sees every channel: two pixels get weight zero
/// exactly when they agree in all four RGBA channels.
pub proof fn lemma_colour_distance_zero_iff_equal(data: Seq<u8>, p: int, n: int)
    ensures
        (colour_distance(data, p, n) == 0) <==> (forall|ch: int|
            0 <= ch < 4 ==> #[trigger] data[4 * p + ch] == data[4 * n + ch]),
        colour_distance(data, p, n) >= 0,
{
    lemma_channel_term_zero_iff(data[4 * p], data[4 * n]);
    lemma_channel_term_zero_iff(data[4 * p + 1], data[4 * n + 1]);
    lemma_channel_term_zero_iff(data[4 * p + 2], data[4 * n + 2]);
    lemma_channel_term_zero_iff(data[4 * p + 3], data[4 * n + 3]);
    if colour_distance(data, p, n) == 0 {
        assert forall|ch: int| 0 <= ch < 4 implies #[trigger] data[4 * p + ch] == data[4 * n + ch] by {
            if ch == 0 {
            } else if ch == 1 {
            } else if ch == 2 {
            } else {
            }
        }
    }
    if forall|ch: int| 0 <= ch < 4 ==> #[trigger] data[4 * p + ch] == data[4 * n + ch] {
        assert(data[4 * p + 0] == data[4 * n + 0]);
        assert(data[4 * p + 1] == data[4 * n + 1]);
        assert(data[4 * p + 2] == data[4 * n + 2]);
        assert(data[4 * p + 3] == data[4 * n + 3]);
    }
}

/// Two pixels that differ in a single channel, holding `a` and `b` there,
/// get the weight `(a - b)^2`, the 8-bit difference `a - b` wrapping round
/// to `a - b + 256` when `a < b`, whichever channel it is.
pub proof fn lemma_colour_distance_one_channel(data: Seq<u8>, p: int, n: int, ch: int)
    requires
        0 <= ch < 4,
        forall|other: int|
            0 <= other < 4 && other != ch ==> #[trigger] data[4 * p + other] == data[4 * n + other],
    ensures
        data[4 * p + ch] >= data[4 * n + ch] ==> colour_distance(data, p, n) == (data[4 * p + ch]
            - data[4 * n + ch]) * (data[4 * p + ch] - data[4 * n + ch]),
        data[4 * p + ch] < data[4 * n + ch] ==> colour_distance(data, p, n) == (data[4 * p + ch]
            - data[4 * n + ch] + 256) * (data[4 * p + ch] - data[4 * n + ch] + 256),
{
    lemma_channel_term_zero_iff(data[4 * p], data[4 * n]);
    lemma_channel_term_zero_iff(data[4 * p + 1], data[4 * n + 1]);
    lemma_channel_term_zero_iff(data[4 * p + 2], data[4 * n + 2]);
    lemma_channel_term_zero_iff(data[4 * p + 3], data[4 * n + 3]);
    if ch == 0 {
        assert(data[4 * p + 1] == data[4 * n + 1]);
        assert(data[4 * p + 2] == data[4 * n + 2]);
        assert(data[4 * p + 3] == data[4 * n + 3]);
    } else if ch == 1 {
        assert(data[4 * p + 0] == data[4 * n + 0]);
        assert(data[4 * p + 2] == data[4 * n + 2]);
        assert(data[4 * p + 3] == data[4 * n + 3]);
    } else if ch == 2 {
        assert(data[4 * p + 0] == data[4 * n + 0]);
        assert(data[4 * p + 1] == data[4 * n + 1]);
        assert(data[4 * p + 3] == data[4 * n + 3]);
    } else {
        assert(data[4 * p + 0] == data[4 * n + 0]);
        assert(data[4 * p + 1] == data[4 * n + 1]);
        assert(data[4 * p + 2] == data[4 * n + 2]);
    }
}

proof fn lemma_channel_term_zero_iff(a: u8, b: u8)
    ensures
        channel_term(a, b) >= 0,
        (channel_term(a, b) == 0) <==> (a == b),
{
    let d: int = if a >= b {
        a - b
    } else {
        a - b + 256
    };
    assert(d * d >= 0) by (nonlinear_arith);
    assert(d * d == 0 <==> d == 0) by (nonlinear_arith);
}

/// Edges added for pixel (`y`, `x`): to and from its right neighbour, then to
/// and from its lower neighbour, where those exist.
pub open spec fn pixel_edges(data: Seq<u8>, width: int, height: int, y: int, x: int) -> Seq<GraphEdge> {
    let c = y * width + x;
    let right = if x < width - 1 {
        let w = Capacity::Neighbour(colour_distance(data, c, c + 1) as u32);
        seq![
            GraphEdge { from: c as usize, to: (c + 1) as usize, capacity: w },
            GraphEdge { from: (c + 1) as usize, to: c as usize, capacity: w },
        ]
    } else {
        Seq::empty()
    };
    let down = if y < height - 1 {
        let w = Capacity::Neighbour(colour_distance(data, c, c + width) as u32);
        seq![
            GraphEdge { from: c as usize, to: (c + width) as usize, capacity: w },
            GraphEdge { from: (c + width) as usize, to: c as usize, capacity: w },
        ]
    } else {
        Seq::empty()
    };
    right + down
}

/// Edges of the pixels of row `y` left of column `n`.
pub open spec fn row_edges(data: Seq<u8>, width: int, height: int, y: int, n: int) -> Seq<GraphEdge>
    decreases n,
{
    if n <= 0 {
        Seq::empty()
    } else {
        row_edges(data, width, height, y, n - 1) + pixel_edges(data, width, height, y, n - 1)
    }
}

/// Neighbour edges of the first `m` rows.
pub open spec fn neighbour_edges(data: Seq<u8>, width: int, height: int, m: int) -> Seq<GraphEdge>
    decreases m,
{
    if m <= 0 {
        Seq::empty()
    } else {
        neighbour_edges(data, width, height, m - 1) + row_edges(data, width, height, m - 1, width)
    }
}

/// Seed edges of the first `n` (row, column) pairs of `points`: for each, an
/// edge from `terminal` to the pixel and an empty edge from the source to
/// `terminal`.
pub open spec fn seed_edges(points: Seq<u32>, width: int, terminal: int, source: int, n: int) -> Seq<
    GraphEdge,
>
    decreases n,
{
    if n <= 0 {
        Seq::empty()
    } else {
        let pixel = points[2 * (n - 1)] * width + points[2 * (n - 1) + 1];
        seed_edges(points, width, terminal, source, n - 1) + seq![
            GraphEdge { from: terminal as usize, to: pixel as usize, capacity: Capacity::Seed },
            GraphEdge { from: source as usize, to: terminal as usize, capacity: Capacity::Empty },
        ]
    }
}

/// Every (row, column) pair of `points` names a pixel of the image.
pub open spec fn valid_seeds(points: Seq<u32>, width: int, height: int) -> bool {
    &&& points.len() % 2 == 0
    &&& forall|i: int|
        0 <= i < points.len() / 2 ==> #[trigger] points[2 * i] * width + points[2 * i + 1] < width
            * height
}

/// Every edge joins two nodes of the graph: pixel nodes below
/// `width * height`, then the source and the sink.
pub open spec fn edges_in_range(edges: Seq<GraphEdge>, nodes: int) -> bool {
    forall|i: int| 0 <= i < edges.len() ==> #[trigger] edges[i].from < nodes && edges[i].to < nodes
}

proof fn lemma_concat_in_range(a: Seq<GraphEdge>, b: Seq<GraphEdge>, nodes: int)
    requires
        edges_in_range(a, nodes),
        edges_in_range(b, nodes),
    ensures
        edges_in_range(a + b, nodes),
{
    assert forall|i: int| 0 <= i < (a + b).len() implies #[trigger] (a + b)[i].from < nodes && (a
        + b)[i].to < nodes by {
        if i >= a.len() {
            assert((a + b)[i] == b[i - a.len()]);
            assert(b[i - a.len()].from < nodes && b[i - a.len()].to < nodes);
        } else {
            assert((a + b)[i] == a[i]);
            assert(a[i].from < nodes && a[i].to < nodes);
        }
    }
}

proof fn lemma_row_edges_in_range(data: Seq<u8>, width: int, height: int, y: int, n: int)
    requires
        0 <= y < height,
        n <= width,
        width * height <= usize::MAX,
    ensures
        edges_in_range(row_edges(data, width, height, y, n), width * height),
    decreases n,
{
    if n > 0 {
        lemma_row_edges_in_range(data, width, height, y, n - 1);
        let x = n - 1;
        lemma_index_in_bounds(y, x, height, width);
        if x < width - 1 {
            lemma_index_in_bounds(y, x + 1, height, width);
        }
        if y < height - 1 {
            lemma_index_in_bounds(y + 1, x, height, width);
            assert((y + 1) * width + x == y * width + x + width) by (nonlinear_arith);
        }
        assert(width * height == height * width) by (nonlinear_arith);
        let pe = pixel_edges(data, width, height, y, x);
        assert(edges_in_range(pe, width * height));
        lemma_concat_in_range(row_edges(data, width, height, y, n - 1), pe, width * height);
    }
}

proof fn lemma_neighbour_edges_in_range(data: Seq<u8>, width: int, height: int, m: int)
    requires
        m <= height,
        0 <= width,
        width * height <= usize::MAX,
    ensures
        edges_in_range(neighbour_edges(data, width, height, m), width * height),
    decreases m,
{
    if m > 0 {
        lemma_neighbour_edges_in_range(data, width, height, m - 1);
        lemma_row_edges_in_range(data, width, height, m - 1, width);
        lemma_concat_in_range(
            neighbour_edges(data, width, height, m - 1),
            row_edges(data, width, height, m - 1, width),
            width * height,
        );
    }
}

proof fn lemma_seed_edges_in_range(points: Seq<u32>, width: int, height: int, terminal: int, source: int, n: int)
    requires
        valid_seeds(points, width, height),
        0 <= width,
        0 <= n <= points.len() / 2,
        0 <= terminal < width * height + 2,
        0 <= source < width * height + 2,
        width * height + 2 <= usize::MAX,
    ensures
        edges_in_range(seed_edges(points, width, terminal, source, n), width * height + 2),
    decreases n,
{
    if n > 0 {
        lemma_seed_edges_in_range(points, width, height, terminal, source, n - 1);
        let k = n - 1;
        assert(points[2 * k] * width + points[2 * k + 1] < width * height);
        assert(0 <= points[2 * k] * width) by (nonlinear_arith)
            requires
                0 <= points[2 * k],
                0 <= width,
        ;
        let pixel = points[2 * (n - 1)] * width + points[2 * (n - 1) + 1];
        let tail = seq![
            GraphEdge { from: terminal as usize, to: pixel as usize, capacity: Capacity::Seed },
            GraphEdge { from: source as usize, to: terminal as usize, capacity: Capacity::Empty },
        ];
        assert(edges_in_range(tail, width * height + 2));
        lemma_concat_in_range(seed_edges(points, width, terminal, source, n - 1), tail, width * height + 2);
    }
}

/// The graph only mentions its `width * height + 2` nodes: every edge of
/// the graph-cut graph starts and ends at a pixel node, the source or the
/// sink.
pub proof fn lemma_graph_edges_in_range(
    data: Seq<u8>,
    width: int,
    height: int,
    front: Seq<u32>,
    background: Seq<u32>,
)
    requires
        0 <= width,
        0 <= height,
        width * height + 2 <= usize::MAX,
        valid_seeds(front, width, height),
        valid_seeds(background, width, height),
    ensures
        edges_in_range(
            neighbour_edges(data, width, height, height) + seed_edges(
                front,
                width,
                width * height,
                width * height,
                ((front.len() / 2) as int) as int,
            ) + seed_edges(background, width, width * height + 1, width * height, (background.len() / 2) as int),
            width * height + 2,
        ),
{
    let nodes = width * height + 2;
    lemma_neighbour_edges_in_range(data, width, height, height);
    let ne = neighbour_edges(data, width, height, height);
    assert forall|i: int| 0 <= i < ne.len() implies #[trigger] ne[i].from < nodes && ne[i].to < nodes by {
        assert(ne[i].from < width * height);
    }
    lemma_seed_edges_in_range(front, width, height, width * height, width * height, (front.len() / 2) as int);
    lemma_seed_edges_in_range(
        background,
        width,
        height,
        width * height + 1,
        width * height,
        ((background.len() / 2) as int) as int,
    );
    let fe = seed_edges(front, width, width * height, width * height, (front.len() / 2) as int);
    let be = seed_edges(background, width, width * height + 1, width * height, (background.len() / 2) as int);
    lemma_concat_in_range(ne, fe, nodes);
    lemma_concat_in_range(ne + fe, be, nodes);
}

/// The edges come in pairs: each edge at an even position is followed by
/// its reverse, with the same capacity.
pub open spec fn paired(edges: Seq<GraphEdge>) -> bool {
    &&& edges.len() % 2 == 0
    &&& forall|k: int|
        0 <= k < edges.len() / 2 ==> #[trigger] edges[2 * k + 1] == (GraphEdge {
            from: edges[2 * k].to,
            to: edges[2 * k].from,
            capacity: edges[2 * k].capacity,
        })
}

proof fn lemma_concat_paired(a: Seq<GraphEdge>, b: Seq<GraphEdge>)
    requires
        paired(a),
        paired(b),
    ensures
        paired(a + b),
{
    let m = a.len() / 2;
    assert forall|k: int| 0 <= k < (a + b).len() / 2 implies #[trigger] (a + b)[2 * k + 1] == (
    GraphEdge {
        from: (a + b)[2 * k].to,
        to: (a + b)[2 * k].from,
        capacity: (a + b)[2 * k].capacity,
    }) by {
        if k < m {
            assert((a + b)[2 * k] == a[2 * k]);
            assert((a + b)[2 * k + 1] == a[2 * k + 1]);
        } else {
            let j = k - m;
            assert((a + b)[2 * k] == b[2 * j]);
            assert((a + b)[2 * k + 1] == b[2 * j + 1]);
        }
    }
}

proof fn lemma_row_edges_paired(data: Seq<u8>, width: int, height: int, y: int, n: int)
    ensures
        paired(row_edges(data, width, height, y, n)),
    decreases n,
{
    if n > 0 {
        lemma_row_edges_paired(data, width, height, y, n - 1);
        let x = n - 1;
        let c = y * width + x;
        let right = if x < width - 1 {
            let w = Capacity::Neighbour(colour_distance(data, c, c + 1) as u32);
            seq![
                GraphEdge { from: c as usize, to: (c + 1) as usize, capacity: w },
                GraphEdge { from: (c + 1) as usize, to: c as usize, capacity: w },
            ]
        } else {
            Seq::empty()
        };
        let down = if y < height - 1 {
            let w = Capacity::Neighbour(colour_distance(data, c, c + width) as u32);
            seq![
                GraphEdge { from: c as usize, to: (c + width) as usize, capacity: w },
                GraphEdge { from: (c + width) as usize, to: c as usize, capacity: w },
            ]
        } else {
            Seq::empty()
        };
        assert(paired(right)) by {
            if x < width - 1 {
                assert forall|k: int| 0 <= k < right.len() / 2 implies #[trigger] right[2 * k + 1]
                    == (GraphEdge {
                    from: right[2 * k].to,
                    to: right[2 * k].from,
                    capacity: right[2 * k].capacity,
                }) by {
                    assert(k == 0);
                }
            }
        }
        assert(paired(down)) by {
            if y < height - 1 {
                assert forall|k: int| 0 <= k < down.len() / 2 implies #[trigger] down[2 * k + 1]
                    == (GraphEdge {
                    from: down[2 * k].to,
                    to: down[2 * k].from,
                    capacity: down[2 * k].capacity,
                }) by {
                    assert(k == 0);
                }
            }
        }
        lemma_concat_paired(right, down);
        assert(pixel_edges(data, width, height, y, x) == right + down);
        lemma_concat_paired(row_edges(data, width, height, y, n - 1), right + down);
    }
}

proof fn lemma_neighbour_edges_paired(data: Seq<u8>, width: int, height: int, m: int)
    ensures
        paired(neighbour_edges(data, width, height, m)),
    decreases m,
{
    if m > 0 {
        lemma_neighbour_edges_paired(data, width, height, m - 1);
        lemma_row_edges_paired(data, width, height, m - 1, width);
        lemma_concat_paired(
            neighbour_edges(data, width, height, m - 1),
            row_edges(data, width, height, m - 1, width),
        );
    }
}

/// The pixel part of the graph is undirected: its neighbour edges come in
/// pairs, each edge followed by the edge in the opposite direction with the
/// same capacity.
pub proof fn lemma_neighbour_edges_symmetric(data: Seq<u8>, width: int, height: int)
    ensures
        paired(neighbour_edges(data, width, height, height)),
{
    lemma_neighbour_edges_paired(data, width, height, height);
}

/// Edges of the graph-cut graph of an RGBA image, in the order they are
/// added: neighbour edges row by row, then the seed edges of the foreground
/// points (from the source, node `width * height`), then those of the
/// background points (from the sink, node `width * height + 1`).
pub fn graph_cut_edges(
    data: &Vec<u8>,
    width: usize,
    height: usize,
    front: &Vec<u32>,
    background: &Vec<u32>,
) -> (edges: Vec<GraphEdge>)
    requires
        data@.len() == height * width * 4,
        valid_seeds(front@, width as int, height as int),
        valid_seeds(background@, width as int, height as int),
    ensures
        edges@ == neighbour_edges(data@, width as int, height as int, height as int) + seed_edges(
            front@,
            width as int,
            (width * height) as int,
            (width * height) as int,
            (front@.len() / 2) as int,
        ) + seed_edges(
            background@,
            width as int,
            (width * height + 1) as int,
            (width * height) as int,
            (background@.len() / 2) as int,
        ),
{
    let total = data.len();
    proof {
        assert(height * width * 4 == (height * width) * 4) by (nonlinear_arith);
        assert(width * height == height * width) by (nonlinear_arith);
    }
    let pixels = width * height;
    let source = pixels;
    let sink = pixels + 1;
    let mut edges: Vec<GraphEdge> = Vec::new();
    let mut y: usize = 0;
    while y < height
        invariant
            data@.len() == height * width * 4,
            pixels == width * height,
            pixels == height * width,
            total == data@.len(),
            y <= height,
            edges@ == neighbour_edges(data@, width as int, height as int, y as int),
        decreases height - y,
    {
        let ghost before = edges@;
        let mut x: usize = 0;
        while x < width
            invariant
                data@.len() == height * width * 4,
                pixels == width * height,
                pixels == height * width,
                total == data@.len(),
                y < height,
                x <= width,
                edges@ == before + row_edges(data@, width as int, height as int, y as int, x as int),
            decreases width - x,
        {
            let ghost row_before = edges@;
            push_pixel_edges(&mut edges, data, width, height, y, x, pixels);
            x = x + 1;
            proof {
                assert(edges@ =~= before + row_edges(data@, width as int, height as int, y as int, x as int));
            }
        }
        y = y + 1;
        proof {
            assert(edges@ =~= neighbour_edges(data@, width as int, height as int, y as int));
        }
    }
    let ghost neighbours = edges@;
    add_seed_edges(&mut edges, front, width, height, source, source);
    let ghost with_front = edges@;
    add_seed_edges(&mut edges, background, width, height, sink, source);
    proof {
        assert(edges@ =~= neighbours + seed_edges(
            front@,
            width as int,
            (width * height) as int,
            (width * height) as int,
            (front@.len() / 2) as int,
        ) + seed_edges(
            background@,
            width as int,
            (width * height + 1) as int,
            (width * height) as int,
            (background@.len() / 2) as int,
        ));
    }
    edges
}

/// Appends the neighbour edges of pixel (`y`, `x`).
fn push_pixel_edges(
    edges: &mut Vec<GraphEdge>,
    data: &Vec<u8>,
    width: usize,
    height: usize,
    y: usize,
    x: usize,
    pixels: usize,
)
    requires
        data@.len() == height * width * 4,
        pixels == width * height,
        pixels == height * width,
        y < height,
        x < width,
    ensures
        final(edges)@ == old(edges)@ + pixel_edges(data@, width as int, height as int, y as int, x as int),
{
    let ghost start = edges@;
    proof {
        lemma_index_in_bounds(y as int, x as int, height as int, width as int);
    }
    let current = y * width + x;
    let ghost c = current as int;
    if x < width - 1 {
        proof {
            lemma_index_in_bounds(y as int, x as int + 1, height as int, width as int);
        }
        let weight = colour_distance_exec(data, current, current + 1, pixels);
        edges.push(GraphEdge { from: current, to: current + 1, capacity: Capacity::Neighbour(weight) });
        edges.push(GraphEdge { from: current + 1, to: current, capacity: Capacity::Neighbour(weight) });
    }
    let ghost mid = edges@;
    if y < height - 1 {
        proof {
            lemma_index_in_bounds(y as int + 1, x as int, height as int, width as int);
            assert((y + 1) * width + x == y * width + x + width) by (nonlinear_arith);
        }
        let next = current + width;
        let weight = colour_distance_exec(data, current, next, pixels);
        edges.push(GraphEdge { from: current, to: next, capacity: Capacity::Neighbour(weight) });
        edges.push(GraphEdge { from: next, to: current, capacity: Capacity::Neighbour(weight) });
    }
    proof {
        assert(edges@ =~= start + pixel_edges(data@, width as int, height as int, y as int, x as int));
    }
}

/// Appends the seed edges of `points` for `terminal`.
fn add_seed_edges(
    edges: &mut Vec<GraphEdge>,
    points: &Vec<u32>,
    width: usize,
    height: usize,
    terminal: usize,
    source: usize,
)
    requires
        valid_seeds(points@, width as int, height as int),
        width * height <= usize::MAX,
    ensures
        final(edges)@ == old(edges)@ + seed_edges(
            points@,
            width as int,
            terminal as int,
            source as int,
            (points@.len() / 2) as int,
        ),
{
    let len = points.len();
    let n = len / 2;
    let ghost start = edges@;
    let mut i: usize = 0;
    while i < n
        invariant
            valid_seeds(points@, width as int, height as int),
            width * height <= usize::MAX,
            len == points@.len(),
            n == points@.len() / 2,
            i <= n,
            edges@ == start + seed_edges(points@, width as int, terminal as int, source as int, i as int),
        decreases n - i,
    {
        let y = points[2 * i];
        let x = points[2 * i + 1];
        proof {
            assert(points@[2 * i as int] * width + points@[2 * i as int + 1] < width * height);
            assert(0 <= (y as int) * (width as int)) by (nonlinear_arith);
            assert((y as int) * (width as int) < width * height);
        }
        let pixel = (y as usize) * width + (x as usize);
        edges.push(GraphEdge { from: terminal, to: pixel, capacity: Capacity::Seed });
        edges.push(GraphEdge { from: source, to: terminal, capacity: Capacity::Empty });
        i = i + 1;
        proof {
            assert(edges@ =~= start + seed_edges(points@, width as int, terminal as int, source as int, i as int));
        }
    }
}

/// Colour distance between pixels `p` and `n`.
fn colour_distance_exec(data: &Vec<u8>, p: usize, n: usize, pixels: usize) -> (d: u32)
    requires
        p < pixels,
        n < pixels,
        data@.len() == pixels * 4,
    ensures
        d as int == colour_distance(data@, p as int, n as int),
{
    let len = data.len();
    let mut sum: u32 = 0;
    let mut ch: usize = 0;
    while ch < 4
        invariant
            len == data@.len(),
            p < pixels,
            n < pixels,
            data@.len() == pixels * 4,
            ch <= 4,
            sum as int == partial_distance(data@, p as int, n as int, ch as int),
            sum <= ch * 65025,
        decreases 4 - ch,
    {
        let a = data[4 * p + ch];
        let b = data[4 * n + ch];
        let d: u32 = if a >= b {
            (a - b) as u32
        } else {
            a as u32 + 256 - b as u32
        };
        proof {
            assert(d * d <= 65025) by (nonlinear_arith)
                requires
                    d <= 255,
            ;
        }
        sum = sum + d * d;
        ch = ch + 1;
    }
    proof {
        reveal_with_fuel(partial_distance, 5);
    }
    sum
}

/// Sum of the first `k` channel terms of pixels `p` and `n`.
pub open spec fn partial_distance(data: Seq<u8>, p: int, n: int, k: int) -> int
    decreases k,
{
    if k <= 0 {
        0
    } else {
        partial_distance(data, p, n, k - 1) + channel_term(data[4 * p + k - 1], data[4 * n + k - 1])
    }
}

/// End points of the edges, in order.
pub open spec fn edge_ends(edges: Seq<GraphEdge>) -> Seq<(usize, usize)> {
    Seq::new(edges.len(), |i: int| (edges[i].from, edges[i].to))
}

/// Sum of the capacities of those among the first `n` edges that leave
/// `side`: they start in it and end outside it.
pub open spec fn cut_capacity(ends: Seq<(usize, usize)>, caps: Seq<u32>, side: Set<int>, n: int) -> int
    decreases n,
{
    if n <= 0 {
        0
    } else {
        cut_capacity(ends, caps, side, n - 1) + if side.contains(ends[n - 1].0 as int) && !side.contains(
            ends[n - 1].1 as int,
        ) {
            caps[n - 1] as int
        } else {
            0
        }
    }
}

/// Sum of the capacities of those among the first `n` edges that enter
/// `sink` from another node.
pub open spec fn capacity_into(ends: Seq<(usize, usize)>, caps: Seq<u32>, sink: int, n: int) -> int
    decreases n,
{
    if n <= 0 {
        0
    } else {
        capacity_into(ends, caps, sink, n - 1) + if ends[n - 1].1 == sink && ends[n - 1].0 != sink {
            caps[n - 1] as int
        } else {
            0
        }
    }
}

/// `value` is the value of a maximum flow from `source` to `sink` through
/// the edges `ends` with capacities `caps`: by the max-flow min-cut theorem,
/// the least capacity of a cut that keeps `source` on its side and `sink` off
/// it.
pub open spec fn is_max_flow_value(ends: Seq<(usize, usize)>, caps: Seq<u32>, source: int, sink: int, value: int) -> bool {
    &&& forall|side: Set<int>|
        side.contains(source) && !side.contains(sink) ==> value <= #[trigger] cut_capacity(
            ends,
            caps,
            side,
            ends.len() as int,
        )
    &&& exists|side: Set<int>|
        side.contains(source) && !side.contains(sink) && value == #[trigger] cut_capacity(
            ends,
            caps,
            side,
            ends.len() as int,
        )
}

proof fn lemma_cut_all_but_sink(ends: Seq<(usize, usize)>, caps: Seq<u32>, sink: int, n: int)
    ensures
        cut_capacity(ends, caps, Set::new(|i: int| i != sink), n) == capacity_into(ends, caps, sink, n),
    decreases n,
{
    if n > 0 {
        lemma_cut_all_but_sink(ends, caps, sink, n - 1);
    }
}

/// A flow can never carry more than the edges into the sink can take: the
/// maximum flow value is at most the total capacity of the edges entering
/// the sink from other nodes.
pub proof fn lemma_flow_bounded_by_sink_capacity(
    ends: Seq<(usize, usize)>,
    caps: Seq<u32>,
    source: int,
    sink: int,
    value: int,
)
    requires
        source != sink,
        is_max_flow_value(ends, caps, source, sink, value),
    ensures
        value <= capacity_into(ends, caps, sink, ends.len() as int),
{
    let side = Set::new(|i: int| i != sink);
    assert(side.contains(source) && !side.contains(sink));
    lemma_cut_all_but_sink(ends, caps, sink, ends.len() as int);
    assert(value <= cut_capacity(ends, caps, side, ends.len() as int));
}

/// What `rs_graph`'s maximum-flow routine needs of its input: a graph of
/// `nodes` nodes with edge `i` from `ends[i].0` to `ends[i].1`, within the
/// limits of 32-bit node and edge identifiers, a capacity for each edge,
/// distinct terminals, and some source-sink cut whose capacity fits the 32-bit
/// flow value (so that the maximum flow, and every flow on the way to it,
/// fits).
pub open spec fn flow_network(nodes: int, ends: Seq<(usize, usize)>, caps: Seq<u32>, source: int, sink: int) -> bool {
    &&& nodes < u32::MAX
    &&& 2 * ends.len() < u32::MAX
    &&& caps.len() == ends.len()
    &&& forall|i: int| 0 <= i < ends.len() ==> #[trigger] ends[i].0 < nodes && ends[i].1 < nodes
    &&& 0 <= source < nodes
    &&& 0 <= sink < nodes
    &&& source != sink
    &&& exists|side: Set<int>|
        side.contains(source) && !side.contains(sink) && #[trigger] cut_capacity(
            ends,
            caps,
            side,
            ends.len() as int,
        ) <= u32::MAX
}

/// Calls `rs_graph::maxflow::dinic` on the graph built with
/// `rs_graph::vecgraph::VecGraphBuilder` from `nodes` and `ends`, edge `i`
/// having capacity `caps[i]`, and returns the flow value it computes. The
/// contract claims what the crate documents (the value of a maximum flow),
/// stated as the least capacity of a source-sink cut. The requirements keep
/// out the inputs on which the builder's assertions or the indexing fail and
/// on which the flow value could overflow `u32` (a maximum flow beyond
/// `u32::MAX`). The recursion depth of the search, which grows with the
/// graph, is left unsaid.
#[verifier::external_body]
fn dinic_flow_value(nodes: usize, ends: &Vec<(usize, usize)>, caps: &Vec<u32>, source: usize, sink: usize) -> (value: u32)
    requires
        flow_network(nodes as int, ends@, caps@, source as int, sink as int),
    ensures
        is_max_flow_value(ends@, caps@, source as int, sink as int, value as int),
{
    let mut builder: VecGraphBuilder<u32> = Builder::with_capacities(nodes, ends.len());
    let ids: Vec<Node<u32>> = (0..nodes).map(|_| builder.add_node()).collect();
    for &(u, v) in ends.iter() {
        builder.add_edge(ids[u], ids[v]);
    }
    let g = builder.into_graph();
    let (value, _, _) = dinic(&g, ids[source], ids[sink], |e| caps[e.index()]);
    value
}

/// Value of a maximum flow from `source` to `sink` in the graph on `nodes`
/// nodes whose edges are `edges`, edge `i` with capacity `caps[i]` (the
/// capacity classes of `edges` are not read: `caps` gives the numbers).
pub fn max_flow(nodes: usize, edges: &Vec<GraphEdge>, caps: &Vec<u32>, source: usize, sink: usize) -> (value: u32)
    requires
        flow_network(nodes as int, edge_ends(edges@), caps@, source as int, sink as int),
    ensures
        is_max_flow_value(edge_ends(edges@), caps@, source as int, sink as int, value as int),
{
    let mut ends: Vec<(usize, usize)> = Vec::new();
    let mut i: usize = 0;
    while i < edges.len()
        invariant
            i <= edges@.len(),
            ends@ == edge_ends(edges@).take(i as int),
        decreases edges@.len() - i,
    {
        ends.push((edges[i].from, edges[i].to));
        i = i + 1;
        proof {
            assert(ends@ =~= edge_ends(edges@).take(i as int));
        }
    }
    proof {
        assert(ends@ =~= edge_ends(edges@));
    }
    dinic_flow_value(nodes, &ends, caps, source, sink)
}

} // verus!
