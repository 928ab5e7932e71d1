//! The Barnes-Hut quadtree: recursive subdivision of a rectangle, with the
//! mass and the centre of mass of every cell.
//!
//! A tree is filled with `insert`, closed once with `finalize`, and then
//! asked for forces with `compute_force`.  While it is being filled the
//! field `center_of_mass` holds the sum of mass times position; `finalize`
//! divides it by the mass.
use vstd::prelude::*;
use crate::fixed::{
    div_toward_zero, divide_toward_zero, floor_sqrt, in_range, integer_sqrt,
    lemma_div_toward_zero_bound, lemma_floor_sqrt_below, magnitude, LIMIT, SCALE,
};
use crate::forces::{
    attraction, compute_attraction, lemma_attraction_bounded, GRAVIT_CONST, MASS_CAPACITY,
};
use crate::particle::Particle;

verus! {

/// The four children of an internal cell, named by compass direction.
/// West and south are the sides of the smaller coordinates.
#[derive(Debug)]
pub struct Quadrants {
    pub south_west: QuadTree,
    pub south_east: QuadTree,
    pub north_west: QuadTree,
    pub north_east: QuadTree,
}

/// One cell of the tree.  `boundary` is `[x_min, y_min, x_max, y_max]`.
#[derive(Debug)]
pub struct QuadTree {
    pub boundary: [i64; 4],
    pub mass: i64,
    pub center_of_mass: [i128; 2],
    pub particle: Option<Particle>,
    pub children: Option<Box<Quadrants>>,
}

/// A boundary is valid when its corners are in range and in order.
pub open spec fn valid_boundary(b: [i64; 4]) -> bool {
    &&& in_range(b[0] as int)
    &&& in_range(b[1] as int)
    &&& in_range(b[2] as int)
    &&& in_range(b[3] as int)
    &&& b[0] <= b[2]
    &&& b[1] <= b[3]
}

/// The position lies in the rectangle, borders included.
pub open spec fn covers(b: [i64; 4], pos: [i64; 2]) -> bool {
    b[0] <= pos[0] <= b[2] && b[1] <= pos[1] <= b[3]
}

/// The two positions are the same point.
pub open spec fn same_place(a: [i64; 2], b: [i64; 2]) -> bool {
    a[0] == b[0] && a[1] == b[1]
}

/// The first coordinate that belongs to the eastern half: the midpoint of
/// the horizontal side, rounded up.
pub open spec fn split_x(b: [i64; 4]) -> int {
    b[0] + (b[2] - b[0] + 1) / 2
}

/// The first coordinate that belongs to the northern half: the midpoint of
/// the vertical side, rounded up.
pub open spec fn split_y(b: [i64; 4]) -> int {
    b[1] + (b[3] - b[1] + 1) / 2
}

/// The one quadrant that a position is assigned to: 0 south-west, 1
/// south-east, 2 north-west, 3 north-east.  A position on a dividing line
/// goes to the side of the larger coordinate.
pub open spec fn quadrant_of(b: [i64; 4], pos: [i64; 2]) -> int {
    (if pos[0] >= split_x(b) {
        1int
    } else {
        0int
    }) + (if pos[1] >= split_y(b) {
        2int
    } else {
        0int
    })
}

/// The boundary of quadrant `k`.  Neighbouring quadrants share their
/// dividing line.
pub open spec fn quadrant_boundary(b: [i64; 4], k: int) -> [i64; 4] {
    let mx = split_x(b) as i64;
    let my = split_y(b) as i64;
    if k == 0 {
        [b[0], b[1], mx, my]
    } else if k == 1 {
        [mx, b[1], b[2], my]
    } else if k == 2 {
        [b[0], my, mx, b[3]]
    } else {
        [mx, my, b[2], b[3]]
    }
}

/// Width plus height of a rectangle.
pub open spec fn extent(b: [i64; 4]) -> int {
    (b[2] - b[0]) + (b[3] - b[1])
}

/// Mass times position of a particle along one axis.
pub open spec fn moment_of(p: Particle, axis: int) -> int {
    p.mass * p.position[axis]
}

/// The cell over `b` that holds nothing.
pub open spec fn empty_tree(b: [i64; 4]) -> QuadTree {
    QuadTree { boundary: b, mass: 0, center_of_mass: [0, 0], particle: None, children: None }
}

/// The cell over `b` that holds the single particle `p`.
pub open spec fn leaf(b: [i64; 4], p: Particle) -> QuadTree {
    QuadTree {
        boundary: b,
        mass: p.mass,
        center_of_mass: [moment_of(p, 0) as i128, moment_of(p, 1) as i128],
        particle: Some(p),
        children: None,
    }
}

/// Four empty children over the quadrants of `b`.
pub open spec fn empty_quadrants(b: [i64; 4]) -> Quadrants {
    Quadrants {
        south_west: empty_tree(quadrant_boundary(b, 0)),
        south_east: empty_tree(quadrant_boundary(b, 1)),
        north_west: empty_tree(quadrant_boundary(b, 2)),
        north_east: empty_tree(quadrant_boundary(b, 3)),
    }
}

impl Quadrants {
    /// The child for quadrant `k`.
    pub open spec fn child(self, k: int) -> QuadTree {
        if k == 0 {
            self.south_west
        } else if k == 1 {
            self.south_east
        } else if k == 2 {
            self.north_west
        } else {
            self.north_east
        }
    }

    /// These children with the one for quadrant `k` replaced.
    pub open spec fn with_child(self, k: int, t: QuadTree) -> Quadrants {
        if k == 0 {
            Quadrants { south_west: t, ..self }
        } else if k == 1 {
            Quadrants { south_east: t, ..self }
        } else if k == 2 {
            Quadrants { north_west: t, ..self }
        } else {
            Quadrants { north_east: t, ..self }
        }
    }
}

/// Two distinct positions that fall in the same quadrant of a rectangle
/// lie in a strictly smaller rectangle, which covers both.
pub proof fn lemma_quadrant_shrinks(b: [i64; 4], p: [i64; 2], q: [i64; 2])
    requires
        valid_boundary(b),
        covers(b, p),
        covers(b, q),
        !same_place(p, q),
        quadrant_of(b, p) == quadrant_of(b, q),
    ensures
        extent(quadrant_boundary(b, quadrant_of(b, p))) < extent(b),
{
}

/// The quadrant that a covered position is assigned to covers it, and is a
/// valid rectangle no larger than the whole.
pub proof fn lemma_quadrant_covers(b: [i64; 4], p: [i64; 2])
    requires
        valid_boundary(b),
        covers(b, p),
    ensures
        0 <= quadrant_of(b, p) < 4,
        covers(quadrant_boundary(b, quadrant_of(b, p)), p),
        forall|k: int| 0 <= k < 4 ==> valid_boundary(#[trigger] quadrant_boundary(b, k)),
        forall|k: int| 0 <= k < 4 ==> extent(#[trigger] quadrant_boundary(b, k)) <= extent(b),
{
}

/// The tree over `b` that holds exactly the two particles `q` and `p`,
/// which lie at different places inside `b`: the rectangle is divided until
/// the two fall in different quadrants.
pub open spec fn pair_tree(b: [i64; 4], q: Particle, p: Particle) -> QuadTree
    decreases extent(b),
    when valid_boundary(b) && covers(b, q.position) && covers(b, p.position) && !same_place(
        q.position,
        p.position,
    )
{
    let kq = quadrant_of(b, q.position);
    let kp = quadrant_of(b, p.position);
    let children = if kq == kp {
        proof {
            lemma_quadrant_shrinks(b, q.position, p.position);
            lemma_quadrant_covers(b, q.position);
            lemma_quadrant_covers(b, p.position);
        }
        empty_quadrants(b).with_child(kq, pair_tree(quadrant_boundary(b, kq), q, p))
    } else {
        empty_quadrants(b).with_child(kq, leaf(quadrant_boundary(b, kq), q)).with_child(
            kp,
            leaf(quadrant_boundary(b, kp), p),
        )
    };
    QuadTree {
        boundary: b,
        mass: (q.mass + p.mass) as i64,
        center_of_mass: [
            (moment_of(q, 0) + moment_of(p, 0)) as i128,
            (moment_of(q, 1) + moment_of(p, 1)) as i128,
        ],
        particle: None,
        children: Some(Box::new(children)),
    }
}

impl QuadTree {
    /// Number of levels below this cell.
    pub open spec fn height(self) -> nat
        decreases self,
    {
        match self.children {
            Some(c) => {
                let a = c.south_west.height();
                let b = c.south_east.height();
                let d = c.north_west.height();
                let e = c.north_east.height();
                let ab = if a < b {
                    b
                } else {
                    a
                };
                let de = if d < e {
                    e
                } else {
                    d
                };
                1 + if ab < de {
                    de
                } else {
                    ab
                }
            },
            None => 0,
        }
    }

    /// The tree is being filled: every cell is empty, or holds one particle
    /// and no children, or has four children over its quadrants and no
    /// particle of its own; the mass of a cell is the mass of what it holds,
    /// and `center_of_mass` is the sum of mass times position.
    pub open spec fn is_open(self) -> bool
        decreases self,
    {
        &&& valid_boundary(self.boundary)
        &&& 0 <= self.mass <= MASS_CAPACITY
        &&& magnitude(self.center_of_mass[0] as int) <= self.mass * LIMIT
        &&& magnitude(self.center_of_mass[1] as int) <= self.mass * LIMIT
        &&& match self.children {
            Some(c) => {
                &&& self.particle.is_none()
                &&& c.south_west.is_open()
                &&& c.south_east.is_open()
                &&& c.north_west.is_open()
                &&& c.north_east.is_open()
                &&& c.south_west.boundary == quadrant_boundary(self.boundary, 0)
                &&& c.south_east.boundary == quadrant_boundary(self.boundary, 1)
                &&& c.north_west.boundary == quadrant_boundary(self.boundary, 2)
                &&& c.north_east.boundary == quadrant_boundary(self.boundary, 3)
                &&& self.mass == c.south_west.mass + c.south_east.mass + c.north_west.mass
                    + c.north_east.mass
                &&& self.center_of_mass[0] == c.south_west.center_of_mass[0]
                    + c.south_east.center_of_mass[0] + c.north_west.center_of_mass[0]
                    + c.north_east.center_of_mass[0]
                &&& self.center_of_mass[1] == c.south_west.center_of_mass[1]
                    + c.south_east.center_of_mass[1] + c.north_west.center_of_mass[1]
                    + c.north_east.center_of_mass[1]
            },
            None => match self.particle {
                Some(q) => {
                    &&& q.valid()
                    &&& covers(self.boundary, q.position)
                    &&& self.mass == q.mass
                    &&& self.center_of_mass[0] == moment_of(q, 0)
                    &&& self.center_of_mass[1] == moment_of(q, 1)
                },
                None => self.mass == 0 && self.center_of_mass[0] == 0 && self.center_of_mass[1]
                    == 0,
            },
        }
    }

    /// Some particle of the tree sits at `pos`, on the path that `pos` is
    /// assigned to.
    pub open spec fn occupied(self, pos: [i64; 2]) -> bool
        decreases self,
    {
        match self.children {
            Some(c) => c.child(quadrant_of(self.boundary, pos)).occupied(pos),
            None => match self.particle {
                Some(q) => same_place(q.position, pos),
                None => false,
            },
        }
    }

    /// The tree takes the particle: it lies inside the boundary, the tree
    /// can carry its mass, and no particle of the tree sits at its place.
    pub open spec fn accepts(self, p: Particle) -> bool {
        &&& covers(self.boundary, p.position)
        &&& self.mass + p.mass <= MASS_CAPACITY
        &&& !self.occupied(p.position)
    }

    /// The tree after it has been closed: in every cell that carries mass
    /// the sum of mass times position is divided by the mass, which makes it
    /// the centre of mass.
    pub open spec fn finalized(self) -> QuadTree
        decreases self,
    {
        QuadTree {
            boundary: self.boundary,
            mass: self.mass,
            center_of_mass: if self.mass != 0 {
                [
                    div_toward_zero(self.center_of_mass[0] as int, self.mass as int) as i128,
                    div_toward_zero(self.center_of_mass[1] as int, self.mass as int) as i128,
                ]
            } else {
                self.center_of_mass
            },
            particle: self.particle,
            children: match self.children {
                Some(c) => Some(
                    Box::new(
                        Quadrants {
                            south_west: c.south_west.finalized(),
                            south_east: c.south_east.finalized(),
                            north_west: c.north_west.finalized(),
                            north_east: c.north_east.finalized(),
                        },
                    ),
                ),
                None => None,
            },
        }
    }

    /// The tree is what `finalize` makes of some tree that was being filled.
    pub open spec fn is_finalized(self) -> bool {
        exists|t: QuadTree| t.is_open() && self == #[trigger] t.finalized()
    }

    /// Every centre of mass is a position in range, and the mass of a cell
    /// with children is the sum of theirs.  This holds of every tree that
    /// has been finalized.
    pub open spec fn is_closed(self) -> bool
        decreases self,
    {
        &&& valid_boundary(self.boundary)
        &&& 0 <= self.mass <= MASS_CAPACITY
        &&& in_range(self.center_of_mass[0] as int)
        &&& in_range(self.center_of_mass[1] as int)
        &&& match self.children {
            Some(c) => {
                &&& c.south_west.is_closed()
                &&& c.south_east.is_closed()
                &&& c.north_west.is_closed()
                &&& c.north_east.is_closed()
                &&& self.mass == c.south_west.mass + c.south_east.mass + c.north_west.mass
                    + c.north_east.mass
            },
            None => true,
        }
    }

    /// The centre of mass as a position.
    pub open spec fn center(self) -> [i64; 2] {
        [self.center_of_mass[0] as i64, self.center_of_mass[1] as i64]
    }

    /// The opening criterion: the centre of mass is not at `pos`, and the
    /// width of the cell divided by the distance to it is less than `theta`.
    pub open spec fn far_enough(self, pos: [i64; 2], theta: int) -> bool {
        let dx = self.center_of_mass[0] - pos[0];
        let dy = self.center_of_mass[1] - pos[1];
        let dist = floor_sqrt(dx * dx + dy * dy);
        dist > 0 && (self.boundary[2] - self.boundary[0]) * SCALE < theta * dist
    }

    /// Component `axis` of the force that the tree exerts on `p` under the
    /// opening angle `theta`: nothing from a cell without mass; the pull of
    /// one point at the centre of mass from a cell that is far enough; and
    /// otherwise the sum over the children, which is nothing for a cell
    /// without children.
    pub open spec fn force_on(self, p: Particle, theta: int, axis: int) -> int
        decreases self,
    {
        if self.mass == 0 {
            0
        } else if self.far_enough(p.position, theta) {
            attraction(p.position, p.mass as int, self.center(), self.mass as int, axis)
        } else {
            match self.children {
                Some(c) => c.south_west.force_on(p, theta, axis) + c.south_east.force_on(
                    p,
                    theta,
                    axis,
                ) + c.north_west.force_on(p, theta, axis) + c.north_east.force_on(p, theta, axis),
                None => 0,
            }
        }
    }

    /// The tree can take in all of `other`, a tree over the same boundary:
    /// the two masses together can be carried, and wherever a single
    /// particle of one meets the other tree, that tree accepts it.
    pub open spec fn can_absorb(self, other: QuadTree) -> bool
        decreases other,
    {
        match other.children {
            Some(cb) => match self.children {
                Some(ca) => {
                    &&& self.mass + other.mass <= MASS_CAPACITY
                    &&& ca.south_west.can_absorb(cb.south_west)
                    &&& ca.south_east.can_absorb(cb.south_east)
                    &&& ca.north_west.can_absorb(cb.north_west)
                    &&& ca.north_east.can_absorb(cb.north_east)
                },
                None => match self.particle {
                    Some(q) => other.accepts(q),
                    None => true,
                },
            },
            None => match other.particle {
                Some(p) => self.accepts(p),
                None => true,
            },
        }
    }

    /// The tree that holds what both trees hold: where both have children,
    /// masses and moments are summed and the children merged pairwise; a
    /// single particle on either side is added to the other tree.
    pub open spec fn merged(self, other: QuadTree) -> QuadTree
        decreases other,
    {
        match other.children {
            Some(cb) => match self.children {
                Some(ca) => QuadTree {
                    boundary: self.boundary,
                    mass: (self.mass + other.mass) as i64,
                    center_of_mass: [
                        (self.center_of_mass[0] + other.center_of_mass[0]) as i128,
                        (self.center_of_mass[1] + other.center_of_mass[1]) as i128,
                    ],
                    particle: None,
                    children: Some(
                        Box::new(
                            Quadrants {
                                south_west: ca.south_west.merged(cb.south_west),
                                south_east: ca.south_east.merged(cb.south_east),
                                north_west: ca.north_west.merged(cb.north_west),
                                north_east: ca.north_east.merged(cb.north_east),
                            },
                        ),
                    ),
                },
                None => match self.particle {
                    Some(q) => other.inserted(q),
                    None => other,
                },
            },
            None => match other.particle {
                Some(p) => self.inserted(p),
                None => self,
            },
        }
    }

    /// The tree after the particle has been added: mass and moment grow
    /// along the path to the quadrant that the position is assigned to, an
    /// empty cell becomes a leaf, and a leaf is divided until its particle
    /// and the new one part.
    pub open spec fn inserted(self, p: Particle) -> QuadTree
        decreases self,
    {
        match self.children {
            Some(c) => {
                let k = quadrant_of(self.boundary, p.position);
                QuadTree {
                    boundary: self.boundary,
                    mass: (self.mass + p.mass) as i64,
                    center_of_mass: [
                        (self.center_of_mass[0] + moment_of(p, 0)) as i128,
                        (self.center_of_mass[1] + moment_of(p, 1)) as i128,
                    ],
                    particle: None,
                    children: Some(Box::new(c.with_child(k, c.child(k).inserted(p)))),
                }
            },
            None => match self.particle {
                Some(q) => pair_tree(self.boundary, q, p),
                None => leaf(self.boundary, p),
            },
        }
    }
}

/// Mass times position of a valid particle is bounded by its mass.
pub proof fn lemma_moment_bounded(p: Particle, axis: int)
    requires
        p.valid(),
        axis == 0 || axis == 1,
    ensures
        magnitude(moment_of(p, axis)) <= p.mass * LIMIT,
        p.mass * LIMIT <= MASS_CAPACITY * LIMIT,
{
    let m = p.mass as int;
    let x = p.position[axis] as int;
    assert(magnitude(m * x) <= m * LIMIT) by (nonlinear_arith)
        requires
            0 < m,
            -LIMIT <= x <= LIMIT,
    ;
    assert(m * LIMIT <= MASS_CAPACITY * LIMIT) by (nonlinear_arith)
        requires
            0 < m <= MASS_CAPACITY,
    ;
}

/// Adding a particle that the tree accepts adds its mass and its moment to
/// the root and keeps the boundary.
pub proof fn lemma_inserted_totals(t: QuadTree, p: Particle)
    requires
        t.is_open(),
        p.valid(),
        t.accepts(p),
    ensures
        t.inserted(p).boundary == t.boundary,
        t.inserted(p).mass == t.mass + p.mass,
        t.inserted(p).center_of_mass[0] == t.center_of_mass[0] + moment_of(p, 0),
        t.inserted(p).center_of_mass[1] == t.center_of_mass[1] + moment_of(p, 1),
{
    lemma_moment_bounded(p, 0);
    lemma_moment_bounded(p, 1);
    let m = t.mass as int;
    assert(m * LIMIT <= MASS_CAPACITY * LIMIT) by (nonlinear_arith)
        requires
            0 <= m <= MASS_CAPACITY,
    ;
}

/// Computes the quadrant that a position is assigned to.
pub fn quadrant(boundary: &[i64; 4], pos: &[i64; 2]) -> (k: usize)
    requires
        valid_boundary(*boundary),
    ensures
        k == quadrant_of(*boundary, *pos),
        k < 4,
{
    let mid_x: i64 = boundary[0] + (boundary[2] - boundary[0] + 1) / 2;
    let mid_y: i64 = boundary[1] + (boundary[3] - boundary[1] + 1) / 2;
    let east: usize = if pos[0] >= mid_x {
        1
    } else {
        0
    };
    let north: usize = if pos[1] >= mid_y {
        2
    } else {
        0
    };
    east + north
}

/// Computes the boundary of quadrant `k`.
pub fn quadrant_bounds(boundary: &[i64; 4], k: usize) -> (b: [i64; 4])
    requires
        valid_boundary(*boundary),
        k < 4,
    ensures
        b == quadrant_boundary(*boundary, k as int),
        valid_boundary(b),
{
    let mid_x: i64 = boundary[0] + (boundary[2] - boundary[0] + 1) / 2;
    let mid_y: i64 = boundary[1] + (boundary[3] - boundary[1] + 1) / 2;
    let b: [i64; 4] = if k == 0 {
        [boundary[0], boundary[1], mid_x, mid_y]
    } else if k == 1 {
        [mid_x, boundary[1], boundary[2], mid_y]
    } else if k == 2 {
        [boundary[0], mid_y, mid_x, boundary[3]]
    } else {
        [mid_x, mid_y, boundary[2], boundary[3]]
    };
    assert(b =~= quadrant_boundary(*boundary, k as int));
    b
}

impl Quadrants {
    /// Puts `t` in the place of the child for quadrant `k`.
    fn set_child(&mut self, k: usize, t: QuadTree)
        requires
            k < 4,
        ensures
            *final(self) == old(self).with_child(k as int, t),
    {
        if k == 0 {
            self.south_west = t;
        } else if k == 1 {
            self.south_east = t;
        } else if k == 2 {
            self.north_west = t;
        } else {
            self.north_east = t;
        }
    }
}

impl QuadTree {
    /// Makes the empty tree over `boundary`.
    pub fn new(boundary: [i64; 4]) -> (tree: Self)
        ensures
            tree == empty_tree(boundary),
            valid_boundary(boundary) ==> tree.is_open(),
    {
        let tree = QuadTree {
            boundary,
            mass: 0,
            center_of_mass: [0, 0],
            particle: None,
            children: None,
        };
        assert(tree.center_of_mass =~= empty_tree(boundary).center_of_mass);
        assert(0 * LIMIT == 0);
        tree
    }

    /// Makes the cell over `boundary` that holds the single particle `p`.
    fn new_leaf(boundary: [i64; 4], p: Particle) -> (tree: Self)
        requires
            valid_boundary(boundary),
            p.valid(),
            covers(boundary, p.position),
        ensures
            tree == leaf(boundary, p),
            tree.is_open(),
    {
        proof {
            lemma_moment_bounded(p, 0);
            lemma_moment_bounded(p, 1);
        }
        let mx: i128 = p.mass as i128 * p.position[0] as i128;
        let my: i128 = p.mass as i128 * p.position[1] as i128;
        let tree = QuadTree {
            boundary,
            mass: p.mass,
            center_of_mass: [mx, my],
            particle: Some(p),
            children: None,
        };
        assert(tree.center_of_mass =~= leaf(boundary, p).center_of_mass);
        tree
    }

    /// Tells whether the particle lies inside the boundary, borders
    /// included.
    pub fn contains(&self, particle: &Particle) -> (inside: bool)
        ensures
            inside == covers(self.boundary, particle.position),
    {
        (particle.position[0] >= self.boundary[0]) && (particle.position[0] <= self.boundary[2])
            && (particle.position[1] >= self.boundary[1]) && (particle.position[1]
            <= self.boundary[3])
    }

    /// Makes four empty children over the quadrants of a boundary.
    fn subdivide(boundary: &[i64; 4]) -> (children: Quadrants)
        requires
            valid_boundary(*boundary),
        ensures
            children == empty_quadrants(*boundary),
            forall|k: int| 0 <= k < 4 ==> (#[trigger] children.child(k)).is_open(),
    {
        Quadrants {
            south_west: QuadTree::new(quadrant_bounds(boundary, 0)),
            south_east: QuadTree::new(quadrant_bounds(boundary, 1)),
            north_west: QuadTree::new(quadrant_bounds(boundary, 2)),
            north_east: QuadTree::new(quadrant_bounds(boundary, 3)),
        }
    }

    /// Adds the particle's mass and moment to the cell.
    fn add_mass(&mut self, particle: Particle)
        requires
            particle.valid(),
            0 <= old(self).mass,
            old(self).mass + particle.mass <= MASS_CAPACITY,
            magnitude(old(self).center_of_mass[0] as int) <= old(self).mass * LIMIT,
            magnitude(old(self).center_of_mass[1] as int) <= old(self).mass * LIMIT,
        ensures
            final(self).mass == old(self).mass + particle.mass,
            final(self).center_of_mass[0] == old(self).center_of_mass[0] + moment_of(particle, 0),
            final(self).center_of_mass[1] == old(self).center_of_mass[1] + moment_of(particle, 1),
            magnitude(final(self).center_of_mass[0] as int) <= final(self).mass * LIMIT,
            magnitude(final(self).center_of_mass[1] as int) <= final(self).mass * LIMIT,
            final(self).boundary == old(self).boundary,
            final(self).particle == old(self).particle,
            final(self).children == old(self).children,
    {
        proof {
            lemma_moment_bounded(particle, 0);
            lemma_moment_bounded(particle, 1);
            let m = self.mass as int;
            let a = particle.mass as int;
            assert((m + a) * LIMIT == m * LIMIT + a * LIMIT) by (nonlinear_arith);
            assert((m + a) * LIMIT <= MASS_CAPACITY * LIMIT) by (nonlinear_arith)
                requires
                    0 <= m + a <= MASS_CAPACITY,
            ;
        }
        let mx: i128 = particle.mass as i128 * particle.position[0] as i128;
        let my: i128 = particle.mass as i128 * particle.position[1] as i128;
        self.center_of_mass = [self.center_of_mass[0] + mx, self.center_of_mass[1] + my];
        self.mass = self.mass + particle.mass;
    }

    /// Builds the tree over `boundary` that holds the two particles, which
    /// lie at different places.
    fn separate(boundary: [i64; 4], q: Particle, p: Particle) -> (tree: QuadTree)
        requires
            valid_boundary(boundary),
            q.valid(),
            p.valid(),
            covers(boundary, q.position),
            covers(boundary, p.position),
            !same_place(q.position, p.position),
            q.mass + p.mass <= MASS_CAPACITY,
        ensures
            tree == pair_tree(boundary, q, p),
            tree.is_open(),
        decreases extent(boundary),
    {
        let kq = quadrant(&boundary, &q.position);
        let kp = quadrant(&boundary, &p.position);
        proof {
            lemma_quadrant_covers(boundary, q.position);
            lemma_quadrant_covers(boundary, p.position);
        }
        let mut children = QuadTree::subdivide(&boundary);
        let ghost empties = children;
        assert(empties.child(0).is_open() && empties.child(1).is_open() && empties.child(
            2,
        ).is_open() && empties.child(3).is_open());
        if kq == kp {
            proof {
                lemma_quadrant_shrinks(boundary, q.position, p.position);
            }
            let below = QuadTree::separate(quadrant_bounds(&boundary, kq), q, p);
            children.set_child(kq, below);
        } else {
            children.set_child(kq, QuadTree::new_leaf(quadrant_bounds(&boundary, kq), q));
            children.set_child(kp, QuadTree::new_leaf(quadrant_bounds(&boundary, kp), p));
        }
        let mut tree = QuadTree::new(boundary);
        tree.add_mass(q);
        tree.add_mass(p);
        tree.children = Some(Box::new(children));
        assert(tree.center_of_mass =~= pair_tree(boundary, q, p).center_of_mass);
        tree
    }

    /// Hands the particle to the child whose quadrant it is assigned to.
    fn insert_child(&mut self, particle: Particle)
        requires
            old(self).is_open(),
            old(self).children.is_some(),
            particle.valid(),
            covers(old(self).boundary, particle.position),
            !old(self).occupied(particle.position),
            old(self).mass + particle.mass <= MASS_CAPACITY,
        ensures
            final(self).boundary == old(self).boundary,
            final(self).mass == old(self).mass,
            final(self).center_of_mass == old(self).center_of_mass,
            final(self).particle == old(self).particle,
            final(self).children == Some(
                Box::new(
                    old(self).children.unwrap().with_child(
                        quadrant_of(old(self).boundary, particle.position),
                        old(self).children.unwrap().child(
                            quadrant_of(old(self).boundary, particle.position),
                        ).inserted(particle),
                    ),
                ),
            ),
            final(self).children.unwrap().child(
                quadrant_of(old(self).boundary, particle.position),
            ).is_open(),
        decreases old(self).height(), 0int,
    {
        let k = quadrant(&self.boundary, &particle.position);
        proof {
            reveal_with_fuel(QuadTree::is_open, 2);
            lemma_quadrant_covers(self.boundary, particle.position);
        }
        match &mut self.children {
            Some(c) => {
                if k == 0 {
                    c.south_west.place(particle);
                } else if k == 1 {
                    c.south_east.place(particle);
                } else if k == 2 {
                    c.north_west.place(particle);
                } else {
                    c.north_east.place(particle);
                }
            },
            None => {},
        }
    }

    /// Adds a particle that the tree accepts.
    fn place(&mut self, particle: Particle)
        requires
            old(self).is_open(),
            particle.valid(),
            old(self).accepts(particle),
        ensures
            *final(self) == old(self).inserted(particle),
            final(self).is_open(),
            final(self).mass == old(self).mass + particle.mass,
        decreases old(self).height(), 1int,
    {
        proof {
            lemma_inserted_totals(*old(self), particle);
        }
        if self.children.is_some() {
            proof {
                let c = self.children.unwrap();
                let k = quadrant_of(self.boundary, particle.position);
                reveal_with_fuel(QuadTree::is_open, 2);
                lemma_quadrant_covers(self.boundary, particle.position);
                lemma_inserted_totals(c.child(k), particle);
            }
            self.insert_child(particle);
            self.add_mass(particle);
            assert(self.center_of_mass =~= old(self).inserted(particle).center_of_mass);
        } else {
            match self.particle {
                Some(q) => {
                    *self = QuadTree::separate(self.boundary, q, particle);
                },
                None => {
                    *self = QuadTree::new_leaf(self.boundary, particle);
                },
            }
        }
    }

    /// Tells whether some particle of the tree sits at `pos`.
    pub fn is_occupied(&self, pos: &[i64; 2]) -> (taken: bool)
        requires
            self.is_open(),
        ensures
            taken == self.occupied(*pos),
        decreases self,
    {
        match &self.children {
            Some(c) => {
                let k = quadrant(&self.boundary, pos);
                if k == 0 {
                    c.south_west.is_occupied(pos)
                } else if k == 1 {
                    c.south_east.is_occupied(pos)
                } else if k == 2 {
                    c.north_west.is_occupied(pos)
                } else {
                    c.north_east.is_occupied(pos)
                }
            },
            None => match &self.particle {
                Some(q) => q.position[0] == pos[0] && q.position[1] == pos[1],
                None => false,
            },
        }
    }

    /// Adds a particle to the tree.
    ///
    /// The particle is taken, and `true` returned, when it lies inside the
    /// boundary, the tree can carry its mass, and no particle of the tree
    /// sits at the same place.  Otherwise the tree stays as it is.
    pub fn insert(&mut self, particle: Particle) -> (accepted: bool)
        requires
            old(self).is_open(),
            particle.valid(),
        ensures
            accepted == old(self).accepts(particle),
            accepted ==> *final(self) == old(self).inserted(particle),
            accepted ==> final(self).mass == old(self).mass + particle.mass,
            !accepted ==> *final(self) == *old(self),
            final(self).is_open(),
    {
        if !self.contains(&particle) {
            return false;
        }
        if self.mass > MASS_CAPACITY - particle.mass {
            return false;
        }
        if self.is_occupied(&particle.position) {
            return false;
        }
        self.place(particle);
        true
    }

    /// Tells whether the tree can take in all of `other`.
    pub fn is_mergeable(&self, other: &QuadTree) -> (fits: bool)
        requires
            self.is_open(),
            other.is_open(),
            self.boundary == other.boundary,
        ensures
            fits == self.can_absorb(*other),
        decreases other,
    {
        proof {
            reveal_with_fuel(QuadTree::is_open, 2);
        }
        match &other.children {
            Some(cb) => match &self.children {
                Some(ca) => {
                    self.mass <= MASS_CAPACITY - other.mass && ca.south_west.is_mergeable(
                        &cb.south_west,
                    ) && ca.south_east.is_mergeable(&cb.south_east) && ca.north_west.is_mergeable(
                        &cb.north_west,
                    ) && ca.north_east.is_mergeable(&cb.north_east)
                },
                None => match &self.particle {
                    Some(q) => other.contains(q) && other.mass <= MASS_CAPACITY - q.mass
                        && !other.is_occupied(&q.position),
                    None => true,
                },
            },
            None => match &other.particle {
                Some(p) => self.contains(p) && self.mass <= MASS_CAPACITY - p.mass
                    && !self.is_occupied(&p.position),
                None => true,
            },
        }
    }

    /// Takes in all of `other`, which the tree can absorb.
    fn absorb(&mut self, other: QuadTree)
        requires
            old(self).is_open(),
            other.is_open(),
            old(self).boundary == other.boundary,
            old(self).can_absorb(other),
        ensures
            *final(self) == old(self).merged(other),
            final(self).is_open(),
            final(self).boundary == old(self).boundary,
            final(self).mass == old(self).mass + other.mass,
            final(self).center_of_mass[0] == old(self).center_of_mass[0] + other.center_of_mass[0],
            final(self).center_of_mass[1] == old(self).center_of_mass[1] + other.center_of_mass[1],
        decreases other,
    {
        proof {
            reveal_with_fuel(QuadTree::is_open, 2);
        }
        if other.children.is_none() {
            match other.particle {
                Some(p) => {
                    proof {
                        lemma_inserted_totals(*self, p);
                    }
                    self.place(p);
                },
                None => {},
            }
            return ;
        }
        if self.children.is_none() {
            let kept = self.particle;
            *self = other;
            match kept {
                Some(q) => {
                    proof {
                        lemma_inserted_totals(other, q);
                    }
                    self.place(q);
                },
                None => {},
            }
            return ;
        }
        proof {
            let m = (self.mass + other.mass) as int;
            let a = self.mass as int;
            let b = other.mass as int;
            assert(a * LIMIT + b * LIMIT == m * LIMIT) by (nonlinear_arith)
                requires
                    m == a + b,
            ;
            assert(m * LIMIT <= MASS_CAPACITY * LIMIT) by (nonlinear_arith)
                requires
                    0 <= m <= MASS_CAPACITY,
            ;
        }
        self.mass = self.mass + other.mass;
        self.center_of_mass = [
            self.center_of_mass[0] + other.center_of_mass[0],
            self.center_of_mass[1] + other.center_of_mass[1],
        ];
        assert(self.center_of_mass =~= old(self).merged(other).center_of_mass);
        match (&mut self.children, other.children) {
            (Some(ca), Some(cb)) => {
                let theirs: Quadrants = *cb;
                ca.south_west.absorb(theirs.south_west);
                ca.south_east.absorb(theirs.south_east);
                ca.north_west.absorb(theirs.north_west);
                ca.north_east.absorb(theirs.north_east);
            },
            _ => {},
        }
    }

    /// Merges `other`, a tree over the same boundary, into this tree.
    ///
    /// Where both trees have children, masses and moments are summed and the
    /// children merged pairwise.  When the merge can be done the tree ends up
    /// holding what both held, `other` is left empty, and `true` is returned.
    /// When it cannot (the two masses together cannot be carried, or two
    /// particles sit at the same place) both trees stay as they are.
    pub fn merge(&mut self, other: &mut QuadTree) -> (done: bool)
        requires
            old(self).is_open(),
            old(other).is_open(),
            old(self).boundary == old(other).boundary,
        ensures
            done == old(self).can_absorb(*old(other)),
            done ==> *final(self) == old(self).merged(*old(other)) && *final(other) == empty_tree(
                old(other).boundary,
            ),
            done ==> final(self).mass == old(self).mass + old(other).mass,
            done ==> final(self).center_of_mass[0] == old(self).center_of_mass[0] + old(
                other,
            ).center_of_mass[0],
            done ==> final(self).center_of_mass[1] == old(self).center_of_mass[1] + old(
                other,
            ).center_of_mass[1],
            !done ==> *final(self) == *old(self) && *final(other) == *old(other),
            final(self).is_open(),
            final(other).is_open(),
    {
        if !self.is_mergeable(other) {
            return false;
        }
        let mut taken = QuadTree::new(other.boundary);
        core::mem::swap(other, &mut taken);
        self.absorb(taken);
        true
    }

    /// Closes the tree: turns, in every cell that carries mass, the sum of
    /// mass times position into the centre of mass.  To be called once,
    /// after the last insertion and before the first force query.
    pub fn finalize(&mut self)
        requires
            old(self).is_open(),
        ensures
            *final(self) == old(self).finalized(),
            final(self).is_finalized(),
            final(self).mass == old(self).mass,
        decreases old(self).height(),
    {
        if self.mass != 0 {
            proof {
                lemma_centre_in_range(*old(self));
            }
            let x: i128 = divide_toward_zero(self.center_of_mass[0], self.mass as i128);
            let y: i128 = divide_toward_zero(self.center_of_mass[1], self.mass as i128);
            self.center_of_mass = [x, y];
        }
        assert(self.center_of_mass =~= old(self).finalized().center_of_mass);
        match &mut self.children {
            Some(c) => {
                c.south_west.finalize();
                c.south_east.finalize();
                c.north_west.finalize();
                c.north_east.finalize();
            },
            None => {},
        }
    }

    /// Computes the force that the tree exerts on `particle` under the
    /// opening angle `theta`.
    pub fn compute_force(&self, particle: &Particle, theta: i64) -> (force: [i128; 2])
        requires
            self.is_finalized(),
            particle.valid(),
            in_range(theta as int),
        ensures
            force[0] == self.force_on(*particle, theta as int, 0),
            force[1] == self.force_on(*particle, theta as int, 1),
        decreases self,
    {
        proof {
            lemma_finalized_parts(*self);
        }
        if self.mass == 0 {
            return [0, 0];
        }
        let dx: i128 = self.center_of_mass[0] - particle.position[0] as i128;
        let dy: i128 = self.center_of_mass[1] - particle.position[1] as i128;
        assert(0 <= dx * dx <= 0x1_0000_0000 * 0x1_0000_0000) by (nonlinear_arith)
            requires
                -0x1_0000_0000 <= dx <= 0x1_0000_0000,
        ;
        assert(0 <= dy * dy <= 0x1_0000_0000 * 0x1_0000_0000) by (nonlinear_arith)
            requires
                -0x1_0000_0000 <= dy <= 0x1_0000_0000,
        ;
        let dist: i128 = integer_sqrt((dx * dx + dy * dy) as u128) as i128;
        proof {
            lemma_floor_sqrt_below(dx * dx + dy * dy, 0x100_0000_0000);
        }
        let width: i128 = self.boundary[2] as i128 - self.boundary[0] as i128;
        assert(-(0x8000_0000 * 0x100_0000_0000) <= theta * dist <= 0x8000_0000 * 0x100_0000_0000)
            by (nonlinear_arith)
            requires
                -0x8000_0000 <= theta <= 0x8000_0000,
                0 <= dist <= 0x100_0000_0000,
        ;
        assert(0 <= width * SCALE <= 0x1_0000_0000 * 1024) by (nonlinear_arith)
            requires
                0 <= width <= 0x1_0000_0000,
                SCALE == 1024,
        ;
        if dist > 0 && width * (SCALE as i128) < (theta as i128) * dist {
            let center: [i64; 2] = [self.center_of_mass[0] as i64, self.center_of_mass[1] as i64];
            assert(center =~= self.center());
            return compute_attraction(
                &particle.position,
                particle.mass as i128,
                &center,
                self.mass as i128,
            );
        }
        match &self.children {
            Some(c) => {
                proof {
                    lemma_force_bounded(c.south_west, *particle, theta as int, 0);
                    lemma_force_bounded(c.south_west, *particle, theta as int, 1);
                    lemma_force_bounded(c.south_east, *particle, theta as int, 0);
                    lemma_force_bounded(c.south_east, *particle, theta as int, 1);
                    lemma_force_bounded(c.north_west, *particle, theta as int, 0);
                    lemma_force_bounded(c.north_west, *particle, theta as int, 1);
                    lemma_force_bounded(c.north_east, *particle, theta as int, 0);
                    lemma_force_bounded(c.north_east, *particle, theta as int, 1);
                }
                let a = c.south_west.compute_force(particle, theta);
                let b = c.south_east.compute_force(particle, theta);
                let d = c.north_west.compute_force(particle, theta);
                let e = c.north_east.compute_force(particle, theta);
                [a[0] + b[0] + d[0] + e[0], a[1] + b[1] + d[1] + e[1]]
            },
            None => [0, 0],
        }
    }
}

/// In a cell that is being filled and carries mass, the sum of mass times
/// position divided by the mass is a position in range.
pub proof fn lemma_centre_in_range(t: QuadTree)
    requires
        t.is_open(),
        t.mass != 0,
    ensures
        in_range(div_toward_zero(t.center_of_mass[0] as int, t.mass as int)),
        in_range(div_toward_zero(t.center_of_mass[1] as int, t.mass as int)),
{
    let m = t.mass as int;
    assert(m * LIMIT == LIMIT * m) by (nonlinear_arith);
    assert(m * LIMIT <= MASS_CAPACITY * LIMIT) by (nonlinear_arith)
        requires
            0 <= m <= MASS_CAPACITY,
    ;
    lemma_div_toward_zero_bound(t.center_of_mass[0] as int, m, LIMIT as int);
    lemma_div_toward_zero_bound(t.center_of_mass[1] as int, m, LIMIT as int);
}

/// What `finalize` makes of a tree that was being filled is closed.
pub proof fn lemma_finalized_is_closed(t: QuadTree)
    requires
        t.is_open(),
    ensures
        t.finalized().is_closed(),
    decreases t,
{
    if t.mass != 0 {
        lemma_centre_in_range(t);
    }
    match t.children {
        Some(c) => {
            lemma_finalized_is_closed(c.south_west);
            lemma_finalized_is_closed(c.south_east);
            lemma_finalized_is_closed(c.north_west);
            lemma_finalized_is_closed(c.north_east);
        },
        None => {},
    }
}

/// A finalized tree is closed, and so are its children, which are finalized
/// trees themselves.
pub proof fn lemma_finalized_parts(t: QuadTree)
    requires
        t.is_finalized(),
    ensures
        t.is_closed(),
        t.children.is_some() ==> {
            &&& t.children.unwrap().south_west.is_finalized()
            &&& t.children.unwrap().south_east.is_finalized()
            &&& t.children.unwrap().north_west.is_finalized()
            &&& t.children.unwrap().north_east.is_finalized()
        },
{
    let u = choose|u: QuadTree| u.is_open() && t == #[trigger] u.finalized();
    lemma_finalized_is_closed(u);
    match u.children {
        Some(c) => {
            assert(c.south_west.is_open() && t.children.unwrap().south_west
                == c.south_west.finalized());
            assert(c.south_east.is_open() && t.children.unwrap().south_east
                == c.south_east.finalized());
            assert(c.north_west.is_open() && t.children.unwrap().north_west
                == c.north_west.finalized());
            assert(c.north_east.is_open() && t.children.unwrap().north_east
                == c.north_east.finalized());
        },
        None => {},
    }
}

/// Largest magnitude of one component of the force of a tree on a particle.
pub const TREE_FORCE_LIMIT: i128 = 11652001186309098962944;

/// The force of a closed tree on a valid particle is bounded by the product
/// of the two masses: `|force| * SCALE^2 <= G * mass * tree mass`.
pub proof fn lemma_force_bounded(t: QuadTree, p: Particle, theta: int, axis: int)
    requires
        t.is_closed(),
        p.valid(),
        axis == 0 || axis == 1,
    ensures
        magnitude(t.force_on(p, theta, axis)) * (SCALE * SCALE) <= GRAVIT_CONST * p.mass * t.mass,
        magnitude(t.force_on(p, theta, axis)) <= TREE_FORCE_LIMIT,
    decreases t,
{
    let m = p.mass as int;
    let big = t.mass as int;
    let f = t.force_on(p, theta, axis);
    if t.mass == 0 {
        assert(GRAVIT_CONST * m * big == 0) by (nonlinear_arith)
            requires
                big == 0,
        ;
    } else if t.far_enough(p.position, theta) {
        lemma_attraction_bounded(p.position, m, t.center(), big, axis);
    } else {
        match t.children {
            Some(c) => {
                lemma_force_bounded(c.south_west, p, theta, axis);
                lemma_force_bounded(c.south_east, p, theta, axis);
                lemma_force_bounded(c.north_west, p, theta, axis);
                lemma_force_bounded(c.north_east, p, theta, axis);
                let fa = c.south_west.force_on(p, theta, axis);
                let fb = c.south_east.force_on(p, theta, axis);
                let fd = c.north_west.force_on(p, theta, axis);
                let fe = c.north_east.force_on(p, theta, axis);
                let ma = c.south_west.mass as int;
                let mb = c.south_east.mass as int;
                let md = c.north_west.mass as int;
                let me = c.north_east.mass as int;
                let s = SCALE * SCALE;
                let g = GRAVIT_CONST * m;
                assert(GRAVIT_CONST * m * ma == g * ma && GRAVIT_CONST * m * mb == g * mb
                    && GRAVIT_CONST * m * md == g * md && GRAVIT_CONST * m * me == g * me
                    && GRAVIT_CONST * m * big == g * big);
                assert(g * big == g * ma + g * mb + g * md + g * me) by (nonlinear_arith)
                    requires
                        big == ma + mb + md + me,
                ;
                assert(magnitude(f) <= magnitude(fa) + magnitude(fb) + magnitude(fd) + magnitude(
                    fe,
                ));
                assert((magnitude(fa) + magnitude(fb) + magnitude(fd) + magnitude(fe)) * s
                    == magnitude(fa) * s + magnitude(fb) * s + magnitude(fd) * s + magnitude(fe)
                    * s) by (nonlinear_arith);
                assert(magnitude(f) * s <= (magnitude(fa) + magnitude(fb) + magnitude(fd)
                    + magnitude(fe)) * s) by (nonlinear_arith)
                    requires
                        magnitude(f) <= magnitude(fa) + magnitude(fb) + magnitude(fd) + magnitude(
                            fe,
                        ),
                        s > 0,
                ;
            },
            None => {
                assert(GRAVIT_CONST * m * big >= 0) by (nonlinear_arith)
                    requires
                        m >= 0,
                        big >= 0,
                        GRAVIT_CONST >= 0,
                ;
            },
        }
    }
    assert(GRAVIT_CONST * m * big <= GRAVIT_CONST * LIMIT * MASS_CAPACITY) by (nonlinear_arith)
        requires
            0 < m <= LIMIT,
            0 <= big <= MASS_CAPACITY,
            GRAVIT_CONST > 0,
    ;
    assert(magnitude(f) <= magnitude(f) * (SCALE * SCALE)) by (nonlinear_arith)
        requires
            magnitude(f) >= 0,
            SCALE * SCALE >= 1,
    ;
}

} // verus!
