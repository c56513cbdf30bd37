//! State digest for proof journals.
//!
//! The digest commits to the final body positions: starting from the hash
//! of the empty message, each body in index order folds the little-endian
//! bytes of its x and y encodings into a fresh SHA-256 of the running
//! hash.  Equal worlds give equal digests on every machine, which is what
//! a prover re-checking a run needs.

use vstd::prelude::*;
use sha2::Digest;

verus! {

use crate::circle::Circle;
use crate::world::{spec_world_after_steps, lemma_step_compose};
use crate::vec2::Vec2;
use crate::scalar::Scalar;
use crate::collision::CollisionConfig;
use vstd::arithmetic::div_mod::lemma_fundamental_div_mod_converse_mod;

/// The SHA-256 digest of a byte sequence, a function of the bytes alone.
pub uninterp spec fn sha256_of(data: Seq<u8>) -> Seq<u8>;

/// Relies on sha2's Sha256: the digest depends on the input bytes alone
/// and is 32 bytes long.
#[verifier::external_body]
fn sha256(data: &Vec<u8>) -> (r: Vec<u8>)
    ensures
        r@ == sha256_of(data@),
        r@.len() == 32,
{
    sha2::Sha256::digest(data.as_slice()).to_vec()
}

/// The four little-endian bytes of a 32-bit two's-complement encoding.
pub open spec fn spec_le_bytes(v: int) -> Seq<u8> {
    let u = v % 0x1_0000_0000;
    seq![
        (u % 0x100) as u8,
        ((u / 0x100) % 0x100) as u8,
        ((u / 0x10000) % 0x100) as u8,
        ((u / 0x1000000) % 0x100) as u8,
    ]
}

/// Serialize an encoding as four little-endian bytes.
fn le_bytes(v: i32) -> (r: Vec<u8>)
    ensures
        r@ == spec_le_bytes(v as int),
{
    let u: u64 = if v >= 0 {
        v as u64
    } else {
        ((v as i64) + 0x1_0000_0000i64) as u64
    };
    proof {
        if v >= 0 {
            lemma_fundamental_div_mod_converse_mod(v as int, 0x1_0000_0000, 0, v as int);
        } else {
            lemma_fundamental_div_mod_converse_mod(
                v as int,
                0x1_0000_0000,
                -1,
                v as int + 0x1_0000_0000,
            );
        }
    }
    let b0 = (u % 0x100) as u8;
    let b1 = ((u / 0x100) % 0x100) as u8;
    let b2 = ((u / 0x10000) % 0x100) as u8;
    let b3 = ((u / 0x1000000) % 0x100) as u8;
    let mut out: Vec<u8> = Vec::new();
    out.push(b0);
    out.push(b1);
    out.push(b2);
    out.push(b3);
    proof {
        assert(out@ =~= spec_le_bytes(v as int));
    }
    out
}

/// Append the bytes of `src` to `dst`.
fn append_bytes(dst: &mut Vec<u8>, src: &Vec<u8>)
    ensures
        final(dst)@ == old(dst)@ + src@,
{
    let ghost base = dst@;
    let mut i: usize = 0;
    while i < src.len()
        invariant
            0 <= i <= src@.len(),
            dst@ == base + src@.take(i as int),
        decreases src@.len() - i,
    {
        dst.push(src[i]);
        proof {
            assert(base + src@.take(i as int + 1) =~= (base + src@.take(i as int)).push(
                src@[i as int],
            ));
        }
        i = i + 1;
    }
    proof {
        assert(base + src@.take(src@.len() as int) =~= base + src@);
    }
}

/// One digest round: hash the running hash followed by the little-endian
/// x and y encodings of one body's position.
pub open spec fn spec_digest_round(h: Seq<u8>, c: Circle) -> Seq<u8> {
    sha256_of(h + spec_le_bytes(c.position.x.bits as int) + spec_le_bytes(c.position.y.bits as int))
}

/// The digest rounds of the bodies from index `i` on.
pub open spec fn spec_digest_from(h: Seq<u8>, circles: Seq<Circle>, i: int) -> Seq<u8>
    decreases circles.len() - i,
{
    if i < 0 || i >= circles.len() {
        h
    } else {
        spec_digest_from(spec_digest_round(h, circles[i]), circles, i + 1)
    }
}

/// The 32-byte digest of the bodies' positions, in index order, starting
/// from the hash of the empty message.
pub open spec fn spec_state_digest(circles: Seq<Circle>) -> Seq<u8> {
    spec_digest_from(sha256_of(Seq::empty()), circles, 0)
}

/// Compute the position digest of a body sequence.
pub fn state_digest(circles: &Vec<Circle>) -> (r: Vec<u8>)
    ensures
        r@ == spec_state_digest(circles@),
{
    let empty: Vec<u8> = Vec::new();
    let mut h = sha256(&empty);
    let ghost target = spec_state_digest(circles@);
    let mut i: usize = 0;
    while i < circles.len()
        invariant
            0 <= i <= circles@.len(),
            spec_digest_from(h@, circles@, i as int) == target,
        decreases circles@.len() - i,
    {
        let c = circles[i];
        let mut buf: Vec<u8> = Vec::new();
        append_bytes(&mut buf, &h);
        let xb = le_bytes(c.position.x.bits);
        append_bytes(&mut buf, &xb);
        let yb = le_bytes(c.position.y.bits);
        append_bytes(&mut buf, &yb);
        proof {
            assert(buf@ =~= Seq::<u8>::empty() + h@ + spec_le_bytes(
                c.position.x.bits as int,
            ) + spec_le_bytes(c.position.y.bits as int));
            assert(Seq::<u8>::empty() + h@ =~= h@);
        }
        h = sha256(&buf);
        i = i + 1;
    }
    h
}

/// The final positions as raw encoding pairs, in index order: what a
/// prover commits to its journal.
pub fn final_positions(circles: &Vec<Circle>) -> (out: Vec<(i32, i32)>)
    ensures
        out@ == Seq::new(
            circles@.len(),
            |i: int| (circles@[i].position.x.bits, circles@[i].position.y.bits),
        ),
{
    let mut out: Vec<(i32, i32)> = Vec::new();
    let mut i: usize = 0;
    while i < circles.len()
        invariant
            0 <= i <= circles@.len(),
            out@.len() == i,
            forall|t: int|
                0 <= t < i ==> out@[t] == ((#[trigger] circles@[t]).position.x.bits,
                circles@[t].position.y.bits),
        decreases circles@.len() - i,
    {
        let c = circles[i];
        out.push((c.position.x.bits, c.position.y.bits));
        i = i + 1;
    }
    proof {
        assert(out@ =~= Seq::new(
            circles@.len(),
            |i: int| (circles@[i].position.x.bits, circles@[i].position.y.bits),
        ));
    }
    out
}

/// Determinism of a run: the bodies after `k` ticks and the digest of
/// their positions are functions of the starting bodies and the
/// configuration alone, so two runs of one input agree bit for bit, on
/// every machine and in every build.
pub proof fn lemma_run_deterministic(
    c1: Seq<Circle>,
    c2: Seq<Circle>,
    gravity: Vec2,
    dt: Scalar,
    bounds: Vec2,
    config: CollisionConfig,
    k: int,
)
    requires
        c1 == c2,
    ensures
        spec_world_after_steps(c1, gravity, dt, bounds, config, k) == spec_world_after_steps(
            c2,
            gravity,
            dt,
            bounds,
            config,
            k,
        ),
        spec_state_digest(spec_world_after_steps(c1, gravity, dt, bounds, config, k))
            == spec_state_digest(spec_world_after_steps(c2, gravity, dt, bounds, config, k)),
{
}

/// Checkpoint-resume equivalence for the digest: the digest after
/// `a + b` ticks equals the digest after running `a` ticks, restarting
/// from the resulting bodies, and running `b` more ticks.
pub proof fn lemma_checkpoint_digest(
    circles: Seq<Circle>,
    gravity: Vec2,
    dt: Scalar,
    bounds: Vec2,
    config: CollisionConfig,
    a: int,
    b: int,
)
    requires
        a >= 0,
        b >= 0,
    ensures
        spec_state_digest(spec_world_after_steps(circles, gravity, dt, bounds, config, a + b))
            == spec_state_digest(
            spec_world_after_steps(
                spec_world_after_steps(circles, gravity, dt, bounds, config, a),
                gravity,
                dt,
                bounds,
                config,
                b,
            ),
        ),
{
    lemma_step_compose(circles, gravity, dt, bounds, config, a, b);
}

} // verus!
