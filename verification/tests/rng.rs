use jepa_dual::ids::new_id;
use jepa_dual::rng::{random_draws, random_vector_parts, simple_rng, SEED};

fn step(mut s: u64) -> u64 {
    s ^= s << 13;
    s ^= s >> 7;
    s ^= s << 17;
    s
}

#[test]
fn generator_follows_xorshift() {
    let mut rng = simple_rng();
    let first = rng.next();
    assert_eq!(first, step(SEED));
    let second = rng.next();
    assert_eq!(second, step(step(SEED)));
    assert_ne!(first, second);
}

#[test]
fn draws_are_deterministic_and_prefixes() {
    let a = random_draws(5);
    let b = random_draws(8);
    assert_eq!(a.len(), 5);
    assert_eq!(a[..], b[..5]);
    assert_eq!(a, random_draws(5));
    assert!(b.iter().all(|&x| x != 0));
    assert_eq!(random_draws(0), Vec::<u64>::new());
}

#[test]
fn random_parts_share_raw_values() {
    let (id1, raw1) = random_vector_parts(4);
    let (id2, raw2) = random_vector_parts(4);
    assert_eq!(raw1, raw2);
    assert_eq!(raw1, random_draws(4));
    assert_ne!(id1, id2);
}

#[test]
fn ids_are_version_4() {
    for _ in 0..16 {
        let id = new_id();
        assert_eq!((id >> 76) & 0xF, 4);
        assert_eq!((id >> 62) & 0x3, 2);
    }
}
