use particle_sim::forces::{compute_gravity, MASS_CAPACITY};
use particle_sim::particle::Particle;
use particle_sim::quadtree::{quadrant, quadrant_bounds, QuadTree};

fn at(x: i64, y: i64, mass: i64) -> Particle {
    Particle::new([x, y], [0, 0], mass)
}

fn sample() -> Vec<Particle> {
    vec![
        at(100, 100, 10),
        at(900, 100, 20),
        at(512, 512, 30),
        at(511, 512, 40),
        at(512, 511, 50),
        at(100, 101, 60),
    ]
}

fn filled() -> QuadTree {
    let mut tree = QuadTree::new([0, 0, 1024, 1024]);
    for p in sample() {
        assert!(tree.insert(p));
    }
    tree
}

#[test]
fn new_tree_is_empty() {
    let tree = QuadTree::new([0, 0, 1024, 1024]);
    assert_eq!(tree.boundary, [0, 0, 1024, 1024]);
    assert_eq!(tree.mass, 0);
    assert_eq!(tree.center_of_mass, [0, 0]);
    assert!(tree.particle.is_none());
    assert!(tree.children.is_none());
}

#[test]
fn first_particle_is_stored_in_the_root() {
    let mut tree = QuadTree::new([0, 0, 1024, 1024]);
    assert!(tree.insert(at(100, 200, 7)));
    assert_eq!(tree.mass, 7);
    assert_eq!(tree.center_of_mass, [700, 1400]);
    assert_eq!(tree.particle.unwrap().position, [100, 200]);
    assert!(tree.children.is_none());
}

#[test]
fn second_particle_divides_the_cell() {
    let mut tree = QuadTree::new([0, 0, 1024, 1024]);
    assert!(tree.insert(at(100, 100, 10)));
    assert!(tree.insert(at(900, 100, 20)));
    assert!(tree.particle.is_none());
    assert_eq!(tree.mass, 30);
    assert_eq!(tree.center_of_mass, [19000, 3000]);
    let c = tree.children.as_ref().unwrap();
    assert_eq!(c.south_west.boundary, [0, 0, 512, 512]);
    assert_eq!(c.south_east.boundary, [512, 0, 1024, 512]);
    assert_eq!(c.north_west.boundary, [0, 512, 512, 1024]);
    assert_eq!(c.north_east.boundary, [512, 512, 1024, 1024]);
    assert_eq!(c.south_west.particle.unwrap().position, [100, 100]);
    assert_eq!(c.south_east.particle.unwrap().position, [900, 100]);
    assert_eq!(c.south_west.mass, 10);
    assert_eq!(c.south_east.mass, 20);
    assert_eq!(c.north_west.mass, 0);
    assert_eq!(c.north_east.mass, 0);
}

#[test]
fn particle_on_a_dividing_line_goes_to_one_child() {
    let tree = filled();
    let c = tree.children.as_ref().unwrap();
    assert_eq!(c.north_east.particle.unwrap().position, [512, 512]);
    assert_eq!(c.north_east.mass, 30);
    assert_eq!(c.north_west.particle.unwrap().position, [511, 512]);
    assert_eq!(c.north_west.mass, 40);
    assert_eq!(c.south_east.mass, 70);
    assert_eq!(c.south_west.mass, 70);
    assert_eq!(c.south_west.mass + c.south_east.mass + c.north_west.mass + c.north_east.mass, 210);
    assert_eq!(quadrant(&[0, 0, 1024, 1024], &[512, 512]), 3);
    assert_eq!(quadrant(&[0, 0, 1024, 1024], &[512, 0]), 1);
    assert_eq!(quadrant(&[0, 0, 1024, 1024], &[0, 512]), 2);
    assert_eq!(quadrant(&[0, 0, 1024, 1024], &[511, 511]), 0);
    assert_eq!(quadrant(&[0, 0, 1024, 1024], &[1024, 1024]), 3);
}

#[test]
fn odd_sides_divide_at_the_midpoint_rounded_up() {
    assert_eq!(quadrant_bounds(&[0, 0, 5, 3], 0), [0, 0, 3, 2]);
    assert_eq!(quadrant_bounds(&[0, 0, 5, 3], 1), [3, 0, 5, 2]);
    assert_eq!(quadrant_bounds(&[0, 0, 5, 3], 2), [0, 2, 3, 3]);
    assert_eq!(quadrant_bounds(&[0, 0, 5, 3], 3), [3, 2, 5, 3]);
    assert_eq!(quadrant(&[0, 0, 5, 3], &[2, 1]), 0);
    assert_eq!(quadrant(&[0, 0, 5, 3], &[3, 2]), 3);
    assert_eq!(quadrant_bounds(&[-5, -3, 0, 0], 0), [-5, -3, -2, -1]);
}

#[test]
fn neighbouring_places_are_told_apart() {
    let tree = filled();
    let mut cell = &tree;
    let mut depth = 0;
    while let Some(c) = cell.children.as_ref() {
        if c.south_west.mass == 70 {
            cell = &c.south_west;
        } else if c.north_east.mass == 70 {
            cell = &c.north_east;
        } else {
            assert_eq!(c.south_west.particle.unwrap().position, [100, 100]);
            assert_eq!(c.north_west.particle.unwrap().position, [100, 101]);
            assert_eq!(cell.boundary, [100, 100, 102, 102]);
            break;
        }
        depth += 1;
    }
    assert_eq!(depth, 9);
}

#[test]
fn root_mass_is_the_sum_of_the_inserted_masses() {
    let mut tree = filled();
    assert_eq!(tree.mass, 210);
    assert_eq!(tree.center_of_mass, [86400, 70450]);
    tree.finalize();
    assert_eq!(tree.mass, 210);
    let mut reversed = QuadTree::new([0, 0, 1024, 1024]);
    for p in sample().into_iter().rev() {
        assert!(reversed.insert(p));
    }
    reversed.finalize();
    assert_eq!(reversed.mass, 210);
    assert_eq!(reversed.center_of_mass, tree.center_of_mass);
}

#[test]
fn rejected_particles_leave_the_tree_alone() {
    let mut tree = filled();
    assert!(!tree.insert(Particle::new([100, 100], [5, 5], 1)));
    assert!(!tree.insert(at(2000, 5, 1)));
    assert!(!tree.insert(at(-1, 5, 1)));
    assert_eq!(tree.mass, 210);
    assert_eq!(tree.center_of_mass, [86400, 70450]);
    assert!(tree.is_occupied(&[100, 101]));
    assert!(!tree.is_occupied(&[101, 100]));
    assert!(tree.insert(at(1024, 1024, 1)));
    assert_eq!(tree.mass, 211);
}

#[test]
fn tree_carries_no_more_than_its_capacity() {
    let mut tree = QuadTree::new([0, 0, 1 << 20, 1 << 20]);
    let heavy: i64 = 1 << 31;
    let mut k: i64 = 0;
    while k < (1 << 16) {
        assert!(tree.insert(at(k, k, heavy)));
        k += 1;
    }
    assert_eq!(tree.mass, MASS_CAPACITY);
    assert!(!tree.insert(at(k, k, 1)));
    assert_eq!(tree.mass, MASS_CAPACITY);
}

#[test]
fn finalize_turns_moments_into_centres() {
    let mut tree = filled();
    tree.finalize();
    assert_eq!(tree.center_of_mass, [411, 335]);
    let c = tree.children.as_ref().unwrap();
    assert_eq!(c.south_west.center_of_mass, [100, 100]);
    assert_eq!(c.south_east.center_of_mass, [622, 393]);
    assert_eq!(c.north_west.center_of_mass, [511, 512]);
    assert_eq!(c.north_east.center_of_mass, [512, 512]);
    let mut empty = QuadTree::new([0, 0, 8, 8]);
    empty.finalize();
    assert_eq!(empty.center_of_mass, [0, 0]);
}

#[test]
fn force_of_the_tree_on_a_distant_particle() {
    let mut tree = filled();
    tree.finalize();
    let q = at(2000, 3000, 77);
    assert_eq!(tree.compute_force(&q, 512), [-34, -58]);
    assert_eq!(tree.compute_force(&q, 1024), [-34, -58]);
    assert_eq!(tree.compute_force(&q, 100000), [-34, -58]);
}

#[test]
fn force_of_the_tree_on_one_of_its_particles() {
    let mut tree = filled();
    tree.finalize();
    let q = at(100, 100, 10);
    assert_eq!(tree.compute_force(&q, 512), [13, 7]);
    assert_eq!(tree.compute_force(&q, 1024), [23, 17]);
    assert_eq!(tree.compute_force(&q, 2048), [23, 17]);
    assert_eq!(tree.compute_force(&q, 100000), [24, 18]);
}

#[test]
fn zero_opening_angle_opens_every_cell() {
    let mut tree = filled();
    tree.finalize();
    assert_eq!(tree.compute_force(&at(2000, 3000, 77), 0), [0, 0]);
    assert_eq!(tree.compute_force(&at(100, 100, 10), 0), [0, 0]);
    assert_eq!(tree.compute_force(&at(100, 100, 10), -5), [0, 0]);
}

#[test]
fn single_distant_particle_exerts_its_pairwise_force() {
    let mut tree = QuadTree::new([0, 0, 1024, 1024]);
    let source = at(300, 700, 5000);
    assert!(tree.insert(source));
    tree.finalize();
    assert_eq!(tree.center_of_mass, [300, 700]);
    let q = at(3000, -2000, 77);
    assert_eq!(tree.compute_force(&q, 1024), compute_gravity(&q, &source));
    assert_ne!(tree.compute_force(&q, 1024), [0, 0]);
    assert_eq!(tree.compute_force(&q, 1), [0, 0]);
}

#[test]
fn empty_tree_exerts_no_force() {
    let mut tree = QuadTree::new([0, 0, 1024, 1024]);
    tree.finalize();
    assert_eq!(tree.compute_force(&at(5, 5, 5), 1024), [0, 0]);
}

#[test]
fn merge_of_two_halves_is_the_whole() {
    let all = sample();
    let mut left = QuadTree::new([0, 0, 1024, 1024]);
    let mut right = QuadTree::new([0, 0, 1024, 1024]);
    for (k, p) in all.iter().enumerate() {
        if k % 2 == 0 {
            assert!(left.insert(*p));
        } else {
            assert!(right.insert(*p));
        }
    }
    assert!(left.is_mergeable(&right));
    assert!(left.merge(&mut right));
    assert_eq!(right.mass, 0);
    assert!(right.children.is_none());
    assert!(right.particle.is_none());
    assert_eq!(left.mass, 210);
    assert_eq!(left.center_of_mass, [86400, 70450]);
    let whole = filled();
    let a = left.children.as_ref().unwrap();
    let b = whole.children.as_ref().unwrap();
    assert_eq!(a.south_west.mass, b.south_west.mass);
    assert_eq!(a.south_east.mass, b.south_east.mass);
    assert_eq!(a.north_west.particle.unwrap().position, b.north_west.particle.unwrap().position);
    assert_eq!(a.north_east.particle.unwrap().position, b.north_east.particle.unwrap().position);
    left.finalize();
    assert_eq!(left.compute_force(&at(100, 100, 10), 1024), [23, 17]);
}

#[test]
fn merge_with_an_empty_tree_changes_nothing() {
    let mut tree = filled();
    let mut empty = QuadTree::new([0, 0, 1024, 1024]);
    assert!(tree.merge(&mut empty));
    assert_eq!(tree.mass, 210);
    assert!(tree.children.is_some());
    let mut other = QuadTree::new([0, 0, 1024, 1024]);
    let mut full = filled();
    assert!(other.merge(&mut full));
    assert_eq!(other.mass, 210);
    assert_eq!(full.mass, 0);
}

#[test]
fn merge_of_a_single_particle_into_a_divided_tree() {
    let mut leaf = QuadTree::new([0, 0, 1024, 1024]);
    assert!(leaf.insert(at(700, 700, 5)));
    let mut tree = filled();
    assert!(leaf.merge(&mut tree));
    assert_eq!(leaf.mass, 215);
    assert!(leaf.particle.is_none());
    assert!(leaf.is_occupied(&[700, 700]));
    assert!(leaf.is_occupied(&[100, 101]));
}

#[test]
fn merge_is_refused_when_the_mass_cannot_be_carried() {
    let heavy: i64 = 1 << 31;
    let mut tree = QuadTree::new([0, 0, 1 << 20, 1 << 20]);
    let mut other = QuadTree::new([0, 0, 1 << 20, 1 << 20]);
    let mut k: i64 = 0;
    while k < (1 << 15) {
        assert!(tree.insert(at(2 * k, k, heavy)));
        assert!(other.insert(at(2 * k + 1, k, heavy)));
        k += 1;
    }
    assert!(tree.is_mergeable(&other));
    assert!(other.insert(at(1 << 20, 1 << 20, 1)));
    assert!(!tree.is_mergeable(&other));
    assert!(!tree.merge(&mut other));
    assert_eq!(tree.mass, 1 << 46);
    assert_eq!(other.mass, (1 << 46) + 1);
    assert_eq!(MASS_CAPACITY, 1 << 47);
}

#[test]
fn merge_is_refused_when_two_particles_share_a_place() {
    let mut tree = filled();
    let mut other = QuadTree::new([0, 0, 1024, 1024]);
    assert!(other.insert(at(3, 3, 1)));
    assert!(other.insert(at(900, 100, 2)));
    assert!(!tree.is_mergeable(&other));
    assert!(!tree.merge(&mut other));
    assert_eq!(tree.mass, 210);
    assert_eq!(other.mass, 3);
    assert!(other.is_occupied(&[3, 3]));
}
