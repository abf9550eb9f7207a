//! The integer side of the particle system: its random numbers, a xorshift generator that is
//! reseeded from the block where particles appear, how many particles a burst has, and the
//! bounded list that new particles join.

use vstd::prelude::*;
use crate::coords::WorldPos;

verus! {

/// The most particles alive at once.
pub const MAX_PARTICLES: usize = 8192;

/// The fewest particles a broken block gives off.
pub const MIN_BREAK_PARTICLES: usize = 8;

/// The most particles a broken block gives off.
pub const MAX_BREAK_PARTICLES: usize = 12;

/// The fewest particles a step gives off.
pub const MIN_WALK_PARTICLES: usize = 2;

/// The most particles a step gives off.
pub const MAX_WALK_PARTICLES: usize = 4;

/// The fewest particles a placed block gives off.
pub const MIN_PLACE_PARTICLES: usize = 4;

/// The most particles a placed block gives off.
pub const MAX_PLACE_PARTICLES: usize = 7;

/// The generator's state before any particle was spawned.
pub const INITIAL_RNG_STATE: u64 = 0xA4B3_C2D1_E0F9_8765;

/// The state taken instead when reseeding would leave none.
pub const FALLBACK_RNG_STATE: u64 = 0x9E37_79B9_7F4A_7C15;

/// What is mixed into the seed for walking particles.
pub const WALK_SALT: u64 = 0xD1CE_BAAD_5511_09E5;

/// What is mixed into the seed for placing particles.
pub const PLACE_SALT: u64 = 0x31A6_EA51_7A11_CE5C;

/// What is mixed into the seed for rain, with the number of drops.
pub const RAIN_SALT: u64 = 0xEA15_8A41_7BC2_90D3;

/// What is mixed into the seed for snow, with the number of flakes.
pub const SNOW_SALT: u64 = 0x2D47_5FCB_A5E1_144F;

/// The seed of a block position and a salt: each coordinate, sign-extended to 64 bits, is
/// multiplied by its own odd constant, the three and the salt are xored, and the result goes
/// through the finalizer of SplitMix64.
pub open spec fn spec_mix_seed(x: i32, y: i32, z: i32, salt: u64) -> u64 {
    let a = (x as i64 as u64).wrapping_mul(0x9E37_79B1_85EB_CA87);
    let b = (y as i64 as u64).wrapping_mul(0xC2B2_AE3D_27D4_EB4F);
    let c = (z as i64 as u64).wrapping_mul(0x1656_67B1_9E37_79F9);
    let m0 = a ^ b ^ c ^ salt;
    let m1 = m0 ^ (m0 >> 30u64);
    let m2 = m1.wrapping_mul(0xBF58_476D_1CE4_E5B9);
    let m3 = m2 ^ (m2 >> 27u64);
    let m4 = m3.wrapping_mul(0x94D0_49BB_1331_11EB);
    m4 ^ (m4 >> 31u64)
}

/// One step of the xorshift generator.
pub open spec fn xorshift_step(x: u64) -> u64 {
    let a = x ^ (x >> 12u64);
    let b = a ^ (a << 25u64);
    b ^ (b >> 27u64)
}

/// The number the generator hands out for a state: the high half of the state times the
/// xorshift* multiplier.
pub open spec fn scrambled(x: u64) -> u32 {
    (x.wrapping_mul(0x2545_F491_4F6C_DD1D) >> 32u64) as u32
}

/// The state after reseeding `state` at a block with a salt: the state xored with the seed of
/// the block and the state xored with the salt, or the fallback where that is zero.
pub open spec fn reseeded(state: u64, pos: WorldPos, salt: u64) -> u64 {
    let s = state ^ spec_mix_seed(pos.x, pos.y, pos.z, state ^ salt);
    if s == 0 {
        FALLBACK_RNG_STATE
    } else {
        s
    }
}

/// The seed of a block position and a salt.
pub fn mix_seed(block_pos: WorldPos, salt: u64) -> (r: u64)
    ensures
        r == spec_mix_seed(block_pos.x, block_pos.y, block_pos.z, salt),
{
    let x = (block_pos.x as i64 as u64).wrapping_mul(0x9E37_79B1_85EB_CA87);
    let y = (block_pos.y as i64 as u64).wrapping_mul(0xC2B2_AE3D_27D4_EB4F);
    let z = (block_pos.z as i64 as u64).wrapping_mul(0x1656_67B1_9E37_79F9);
    let mut mixed = x ^ y ^ z ^ salt;
    mixed = mixed ^ (mixed >> 30);
    mixed = mixed.wrapping_mul(0xBF58_476D_1CE4_E5B9);
    mixed = mixed ^ (mixed >> 27);
    mixed = mixed.wrapping_mul(0x94D0_49BB_1331_11EB);
    mixed ^ (mixed >> 31)
}

/// The particle system's random number generator.
pub struct ParticleRng {
    state: u64,
}

impl ParticleRng {
    /// The generator's state.
    pub closed spec fn spec_state(&self) -> u64 {
        self.state
    }

    /// A generator in its first state.
    pub fn new() -> (r: ParticleRng)
        ensures
            r.spec_state() == INITIAL_RNG_STATE,
    {
        ParticleRng { state: INITIAL_RNG_STATE }
    }

    /// The generator's state.
    pub fn state(&self) -> (r: u64)
        ensures
            r == self.spec_state(),
    {
        self.state
    }

    /// Reseeds the generator from the block where particles appear and a salt.
    pub fn reseed(&mut self, block_pos: WorldPos, salt: u64)
        ensures
            final(self).spec_state() == reseeded(old(self).spec_state(), block_pos, salt),
    {
        let seed = mix_seed(block_pos, self.state ^ salt);
        self.state = self.state ^ seed;
        if self.state == 0 {
            self.state = FALLBACK_RNG_STATE;
        }
    }

    /// Steps the generator and hands out the next number.
    pub fn next_rand_u32(&mut self) -> (r: u32)
        ensures
            final(self).spec_state() == xorshift_step(old(self).spec_state()),
            r == scrambled(final(self).spec_state()),
    {
        let mut x = self.state;
        x = x ^ (x >> 12);
        x = x ^ (x << 25);
        x = x ^ (x >> 27);
        self.state = x;
        (x.wrapping_mul(0x2545_F491_4F6C_DD1D) >> 32) as u32
    }

    /// How many particles a burst has: `min` plus the next number modulo the width of the
    /// range, so between `min` and `max`.
    pub fn burst_size(&mut self, min: usize, max: usize) -> (r: usize)
        requires
            min <= max < usize::MAX,
        ensures
            final(self).spec_state() == xorshift_step(old(self).spec_state()),
            r == min + (scrambled(final(self).spec_state()) as nat) % ((max - min + 1) as nat),
            min <= r <= max,
    {
        let n = self.next_rand_u32();
        min + (n as usize) % (max - min + 1)
    }
}

/// The generator never reaches the zero state, from which xorshift would stay at zero: a step
/// from a state other than zero gives a state other than zero, and reseeding never gives zero.
pub proof fn lemma_rng_state_never_zero(state: u64, pos: WorldPos, salt: u64)
    ensures
        state != 0 ==> xorshift_step(state) != 0,
        reseeded(state, pos, salt) != 0,
{
    let x = state;
    let a = x ^ (x >> 12u64);
    let b = a ^ (a << 25u64);
    let c = b ^ (b >> 27u64);
    assert(x != 0 ==> a != 0) by (bit_vector)
        requires
            a == x ^ (x >> 12u64),
    ;
    assert(a != 0 ==> b != 0) by (bit_vector)
        requires
            b == a ^ (a << 25u64),
    ;
    assert(b != 0 ==> c != 0) by (bit_vector)
        requires
            c == b ^ (b >> 27u64),
    ;
}

/// Adds a particle to the list; when the list is full, the oldest slot gives way first: the
/// first particle is dropped and the last takes its place.
pub fn push_particle<T>(particles: &mut Vec<T>, particle: T)
    requires
        old(particles)@.len() <= MAX_PARTICLES,
    ensures
        old(particles)@.len() < MAX_PARTICLES ==> final(particles)@ == old(particles)@.push(particle),
        old(particles)@.len() == MAX_PARTICLES ==> final(particles)@ == old(particles)@.update(
            0,
            old(particles)@.last(),
        ).drop_last().push(particle),
        final(particles)@.len() <= MAX_PARTICLES,
{
    if particles.len() >= MAX_PARTICLES {
        particles.swap_remove(0);
    }
    particles.push(particle);
}

/// Adds a burst of particles one after another; the list never holds more than
/// `MAX_PARTICLES`, so it ends with as many as fit.
pub fn push_particles<T>(particles: &mut Vec<T>, burst: Vec<T>)
    requires
        old(particles)@.len() <= MAX_PARTICLES,
    ensures
        final(particles)@.len() == (if old(particles)@.len() + burst@.len() > MAX_PARTICLES {
            MAX_PARTICLES as int
        } else {
            (old(particles)@.len() + burst@.len()) as int
        }),
        burst@.len() > 0 ==> final(particles)@.last() == burst@.last(),
        old(particles)@.len() + burst@.len() <= MAX_PARTICLES ==> final(particles)@ == old(particles)@ + burst@,
{
    let ghost start = particles@;
    let ghost all = burst@;
    assert(all.skip(0) =~= all);
    assert(all.len() == burst.len());
    let mut rest = burst;
    let mut pushed: usize = 0;
    while rest.len() > 0
        invariant
            rest@.len() + pushed == all.len(),
            all.len() <= usize::MAX,
            rest@ == all.skip(pushed as int),
            particles@.len() == (if start.len() + pushed > MAX_PARTICLES {
                MAX_PARTICLES as int
            } else {
                (start.len() + pushed) as int
            }),
            pushed > 0 ==> particles@.last() == all[pushed - 1],
            start.len() + all.len() <= MAX_PARTICLES ==> particles@ == start + all.take(pushed as int),
        decreases rest@.len(),
    {
        let ghost before = particles@;
        let ghost r = rest@;
        let p = rest.remove(0);
        assert(p == all[pushed as int]);
        push_particle(particles, p);
        proof {
            assert(rest@ =~= all.skip(pushed + 1));
            if start.len() + all.len() <= MAX_PARTICLES {
                assert(all.take(pushed + 1) =~= all.take(pushed as int).push(all[pushed as int]));
            }
        }
        pushed += 1;
    }
    proof {
        if start.len() + all.len() <= MAX_PARTICLES {
            assert(all.take(pushed as int) =~= all);
        }
    }
}

} // verus!
