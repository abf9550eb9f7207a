use veldspar::client::particles::{
    mix_seed, push_particle, ParticleRng, FALLBACK_RNG_STATE, INITIAL_RNG_STATE, MAX_BREAK_PARTICLES,
    MAX_PARTICLES, MIN_BREAK_PARTICLES, PLACE_SALT, WALK_SALT,
};
use veldspar::coords::WorldPos;

fn pos(x: i32, y: i32, z: i32) -> WorldPos {
    WorldPos { x, y, z }
}

#[test]
fn seeds_of_block_positions() {
    assert_eq!(mix_seed(pos(1, 2, 3), 0), 8250716666893329518);
    assert_eq!(mix_seed(pos(-5, 64, -7), WALK_SALT), 2231795533198642913);
}

#[test]
fn the_generator_steps_as_xorshift_star() {
    let mut rng = ParticleRng::new();
    assert_eq!(rng.state(), INITIAL_RNG_STATE);
    assert_eq!(rng.next_rand_u32(), 2351675904);
    assert_eq!(rng.state(), 9160962605067491195);
}

#[test]
fn reseeding_mixes_in_the_block_and_the_salt() {
    let mut rng = ParticleRng::new();
    rng.reseed(pos(10, -3, 7), PLACE_SALT);
    assert_eq!(rng.state(), 3016157989103011863);
    assert_ne!(rng.state(), 0);
    assert_ne!(FALLBACK_RNG_STATE, 0);
}

#[test]
fn bursts_stay_within_their_range() {
    let mut rng = ParticleRng::new();
    for _ in 0..1000 {
        let n = rng.burst_size(MIN_BREAK_PARTICLES, MAX_BREAK_PARTICLES);
        assert!((MIN_BREAK_PARTICLES..=MAX_BREAK_PARTICLES).contains(&n));
        assert_ne!(rng.state(), 0);
    }
}

#[test]
fn a_full_particle_list_drops_its_first() {
    let mut list: Vec<u32> = (0..MAX_PARTICLES as u32).collect();
    push_particle(&mut list, 9999);
    assert_eq!(list.len(), MAX_PARTICLES);
    assert_eq!(list[0], MAX_PARTICLES as u32 - 1);
    assert_eq!(list[MAX_PARTICLES - 1], 9999);
    let mut short = vec![1u32, 2];
    push_particle(&mut short, 3);
    assert_eq!(short, vec![1, 2, 3]);
}
