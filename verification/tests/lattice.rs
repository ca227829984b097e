use rand::rngs::StdRng;
use rand::SeedableRng;
use raytracer::perlin::{Perlin, POINT_COUNT};
use raytracer::scalar::Scalar;
use raytracer::vec3::Vec3;

fn s(x: f32) -> Scalar {
    Scalar::from_bits(x.to_bits())
}

fn vectors() -> Vec<Vec3> {
    (0..256).map(|i| Vec3::new(Some(s(i as f32)), Some(s(-(i as f32))), Some(s(0.5)))).collect()
}

fn is_permutation(p: &Vec<i32>) -> bool {
    let mut sorted = p.clone();
    sorted.sort();
    sorted == (0..256).collect::<Vec<i32>>()
}

#[test]
fn there_are_256_lattice_points() {
    assert_eq!(POINT_COUNT, 256);
}

#[test]
fn generated_permutation_holds_every_number_once() {
    for seed in 0..20 {
        let mut rng = StdRng::seed_from_u64(seed);
        let p = Perlin::perlin_generate_perm(&mut rng);
        assert!(is_permutation(&p));
    }
}

#[test]
fn generated_permutation_is_shuffled() {
    let mut rng = StdRng::seed_from_u64(42);
    let p = Perlin::perlin_generate_perm(&mut rng);
    assert_ne!(p, (0..256).collect::<Vec<i32>>());
    assert_eq!(p[255], 255);
}

#[test]
fn generated_permutation_repeats_with_the_seed() {
    let mut a = StdRng::seed_from_u64(42);
    let mut b = StdRng::seed_from_u64(42);
    assert_eq!(Perlin::perlin_generate_perm(&mut a), Perlin::perlin_generate_perm(&mut b));
}

#[test]
fn permute_keeps_the_numbers_and_the_tail() {
    let mut rng = StdRng::seed_from_u64(3);
    let mut p: Vec<i32> = vec![10, 20, 30, 40, 50, 60, 70, 80];
    Perlin::permute(&mut p, 5, &mut rng);
    assert_eq!(&p[4..], &[50, 60, 70, 80]);
    let mut front = p[..4].to_vec();
    front.sort();
    assert_eq!(front, vec![10, 20, 30, 40]);
}

#[test]
fn permute_of_fewer_than_three_changes_nothing() {
    let mut rng = StdRng::seed_from_u64(3);
    let mut p: Vec<i32> = vec![10, 20, 30];
    Perlin::permute(&mut p, 2, &mut rng);
    assert_eq!(p, vec![10, 20, 30]);
    Perlin::permute(&mut p, 0, &mut rng);
    assert_eq!(p, vec![10, 20, 30]);
    Perlin::permute(&mut p, -4, &mut rng);
    assert_eq!(p, vec![10, 20, 30]);
}

#[test]
fn permute_of_three_changes_the_first_two() {
    let mut rng = StdRng::seed_from_u64(3);
    let mut p: Vec<i32> = vec![10, 20, 30];
    Perlin::permute(&mut p, 3, &mut rng);
    assert_eq!(p, vec![20, 10, 30]);
}

#[test]
fn lattice_needs_256_vectors() {
    let mut rng = StdRng::seed_from_u64(1);
    assert!(Perlin::new(Vec::new(), &mut rng).is_none());
    assert!(Perlin::new(vectors()[..255].to_vec(), &mut rng).is_none());
    let mut more = vectors();
    more.push(Vec3::new(None, None, None));
    assert!(Perlin::new(more, &mut rng).is_none());
    assert!(Perlin::new(vectors(), &mut rng).is_some());
}

#[test]
fn lattice_keeps_its_vectors_and_has_three_permutations() {
    let mut rng = StdRng::seed_from_u64(1);
    let p = Perlin::new(vectors(), &mut rng).unwrap();
    assert_eq!(*p.ran_vec(), vectors());
    assert!(is_permutation(p.perm_x()));
    assert!(is_permutation(p.perm_y()));
    assert!(is_permutation(p.perm_z()));
    assert_ne!(p.perm_x(), p.perm_y());
    assert_ne!(p.perm_y(), p.perm_z());
}

#[test]
fn corner_is_looked_up_through_the_permutations() {
    let mut rng = StdRng::seed_from_u64(5);
    let p = Perlin::new(vectors(), &mut rng).unwrap();
    for &(i, j, k) in [(0, 0, 0), (1, 2, 3), (255, 255, 255), (17, 200, 99)].iter() {
        let place = p.perm_x()[i as usize] ^ p.perm_y()[j as usize] ^ p.perm_z()[k as usize];
        assert_eq!(p.corner(i, j, k), vectors()[place as usize]);
    }
}

#[test]
fn lattice_repeats_after_256_steps() {
    let mut rng = StdRng::seed_from_u64(5);
    let p = Perlin::new(vectors(), &mut rng).unwrap();
    assert_eq!(p.corner(256, 0, 0), p.corner(0, 0, 0));
    assert_eq!(p.corner(3, 515, -250), p.corner(3, 3, 6));
    assert_eq!(p.corner(-1, -1, -1), p.corner(255, 255, 255));
    assert_eq!(p.corner(-256, -512, 1024), p.corner(0, 0, 0));
    assert_eq!(p.corner(i32::MIN, i32::MAX, 0), p.corner(0, 255, 0));
}

#[test]
fn noise_gives_the_eight_corners_of_the_cell() {
    let mut rng = StdRng::seed_from_u64(5);
    let p = Perlin::new(vectors(), &mut rng).unwrap();
    let points = [
        (0.0f32, 0.0f32, 0.0f32),
        (4.5, -7.25, 300.75),
        (255.0, 255.99, -0.5),
        (3.0e9, -3.0e9, f32::NAN),
        (f32::INFINITY, f32::NEG_INFINITY, -0.0),
        (1.0e-40, -1.0e-40, 0.999_999_9),
    ];
    for &(x, y, z) in points.iter() {
        let c = p.noise(&Vec3::new(Some(s(x)), Some(s(y)), Some(s(z))));
        assert_eq!(c.len(), 8);
        let i = x.floor() as i32;
        let j = y.floor() as i32;
        let k = z.floor() as i32;
        for di in 0..2i32 {
            for dj in 0..2i32 {
                for dk in 0..2i32 {
                    let want = p.corner(
                        i.wrapping_add(di),
                        j.wrapping_add(dj),
                        k.wrapping_add(dk),
                    );
                    assert_eq!(c[(4 * di + 2 * dj + dk) as usize], want);
                }
            }
        }
    }
}

#[test]
fn same_seed_gives_the_same_lattice() {
    let mut a = StdRng::seed_from_u64(8);
    let mut b = StdRng::seed_from_u64(8);
    let p = Perlin::new(vectors(), &mut a).unwrap();
    let q = Perlin::new(vectors(), &mut b).unwrap();
    assert_eq!(p.perm_x(), q.perm_x());
    assert_eq!(p.perm_y(), q.perm_y());
    assert_eq!(p.perm_z(), q.perm_z());
    let at = Vec3::new(Some(s(5.5)), Some(s(6.5)), Some(s(7.5)));
    assert_eq!(p.noise(&at), q.noise(&at));
}

#[test]
fn permute_moves_an_earlier_entry_to_the_last_place_it_touches() {
    for seed in 0..50 {
        let mut rng = StdRng::seed_from_u64(seed);
        let before: Vec<i32> = vec![10, 20, 30, 40, 50, 60, 70, 80];
        let mut p = before.clone();
        Perlin::permute(&mut p, 6, &mut rng);
        assert_ne!(p[4], before[4]);
        assert!(before[..4].contains(&p[4]));
        assert_eq!(&p[5..], &before[5..]);
        assert_ne!(p[1], before[1]);
    }
}
