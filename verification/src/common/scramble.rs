//! Password-keyed bit scrambling: a Fisher-Yates permutation drawn from a
//! ChaCha20 generator, and the scatter / gather of bits along it.
use vstd::prelude::*;

use crate::common::password::password_to_seed;
use crate::common::prng::{chacha_range_draw, draw_up_to, keyed_stream};
use crate::common::sha::sha256_digest;
use vstd::string::StringSliceAdditionalSpecFns;

verus! {

/// `p` lists every index of `0..n` exactly once.
pub open spec fn is_permutation(p: Seq<usize>, n: nat) -> bool {
    &&& p.len() == n
    &&& forall|i: int| 0 <= i < n ==> #[trigger] p[i] < n
    &&& forall|i: int, j: int| 0 <= i < n && 0 <= j < n && i != j ==> p[i] != p[j]
    &&& forall|k: int| 0 <= k < n ==> #[trigger] appears(p, n, k)
}

/// Index `k` occurs among the first `n` entries of `p`.
pub open spec fn appears(p: Seq<usize>, n: nat, k: int) -> bool {
    exists|i: int| 0 <= i < n && #[trigger] p[i] == k
}

/// `bits` written into an all-false sequence of the same length: the first
/// `k` bits, bit `i` at position `perm[i]`, later writes winning.
pub open spec fn scatter(bits: Seq<bool>, perm: Seq<usize>, k: nat) -> Seq<bool>
    decreases k,
{
    if k == 0 {
        Seq::new(bits.len(), |i: int| false)
    } else {
        scatter(bits, perm, (k - 1) as nat).update(
            perm[k - 1] as int,
            bits[k - 1],
        )
    }
}

/// Position `i` takes the bit at `perm[i]`.
pub open spec fn gather(scrambled: Seq<bool>, perm: Seq<usize>) -> Seq<bool> {
    Seq::new(perm.len(), |i: int| scrambled[perm[i] as int])
}

/// Every index of `perm` is below `n`.
pub open spec fn indices_below(perm: Seq<usize>, n: nat) -> bool {
    forall|i: int| 0 <= i < perm.len() ==> #[trigger] perm[i] < n
}

/// `0, 1, ..., n - 1`.
pub open spec fn identity_perm(n: nat) -> Seq<usize> {
    Seq::new(n, |i: int| i as usize)
}

/// `p` with the entries at `i` and `j` exchanged.
pub open spec fn swap_entries(p: Seq<usize>, i: int, j: int) -> Seq<usize> {
    p.update(i, p[j]).update(j, p[i])
}

/// Fisher-Yates on `0..n`: the `k`-th draw names the position that position
/// `n - 1 - k` is exchanged with.
pub open spec fn shuffle(n: nat, draws: Seq<usize>) -> Seq<usize>
    decreases draws.len(),
{
    if draws.len() == 0 {
        identity_perm(n)
    } else {
        swap_entries(
            shuffle(n, draws.drop_last()),
            n - draws.len(),
            draws.last() as int,
        )
    }
}

/// Every draw of a Fisher-Yates shuffle of `0..n` picks a position at or
/// below the one being filled, and there is one draw per position above 0.
pub open spec fn valid_draws(n: nat, draws: Seq<usize>) -> bool {
    &&& draws.len() == (if n > 0 {
        n - 1
    } else {
        0
    })
    &&& forall|k: int| 0 <= k < draws.len() ==> #[trigger] draws[k] <= n - 1 - k
}

/// The draws a generator has served after the first `k` Fisher-Yates steps on
/// `0..n`: range draws up to `n - 1`, `n - 2`, ...
pub open spec fn fisher_yates_served(n: nat, k: nat) -> Seq<Option<u64>> {
    Seq::new(k, |t: int| Some((n - 1 - t) as u64))
}

/// Step `k` of the Fisher-Yates shuffle of `0..n` keyed by `seed`: the
/// generator's range draw up to `n - 1 - k`. `gen_range` never exceeds its
/// bound (see `draw_up_to`), so the bound written here never changes a draw;
/// it makes the range visible to proofs about every seed.
pub open spec fn keyed_draw(seed: Seq<u8>, n: nat, k: nat) -> usize {
    let d = chacha_range_draw(seed, fisher_yates_served(n, k), (n - 1 - k) as u64);
    if d <= n - 1 - k {
        d as usize
    } else {
        (n - 1 - k) as usize
    }
}

/// All draws of the Fisher-Yates shuffle of `0..n` keyed by `seed`.
pub open spec fn keyed_draws(seed: Seq<u8>, n: nat) -> Seq<usize> {
    Seq::new(
        if n > 0 {
            (n - 1) as nat
        } else {
            0
        },
        |k: int| keyed_draw(seed, n, k as nat),
    )
}

/// The permutation of `0..n` that the generator keyed by `seed` shuffles.
pub open spec fn keyed_permutation(seed: Seq<u8>, n: nat) -> Seq<usize> {
    shuffle(n, keyed_draws(seed, n))
}

proof fn lemma_identity_is_permutation(n: nat)
    requires
        n <= usize::MAX,
    ensures
        is_permutation(identity_perm(n), n),
{
    let p = identity_perm(n);
    assert forall|k: int| 0 <= k < n implies #[trigger] appears(p, n, k) by {
        assert(p[k] == k);
    }
}

/// A Fisher-Yates shuffle whose draws stay in range lists every index once.
pub proof fn lemma_shuffle_is_permutation(n: nat, draws: Seq<usize>)
    requires
        n <= usize::MAX,
        draws.len() <= n,
        n > 0 ==> draws.len() < n,
        forall|k: int| 0 <= k < draws.len() ==> #[trigger] draws[k] <= n - 1 - k,
    ensures
        is_permutation(shuffle(n, draws), n),
    decreases draws.len(),
{
    if draws.len() == 0 {
        lemma_identity_is_permutation(n);
    } else {
        let prev = draws.drop_last();
        assert forall|k: int| 0 <= k < prev.len() implies #[trigger] prev[k] <= n - 1 - k by {
            assert(prev[k] == draws[k]);
        }
        lemma_shuffle_is_permutation(n, prev);
        lemma_swap_keeps_permutation(
            shuffle(n, prev),
            n - draws.len(),
            draws.last() as int,
            n,
        );
    }
}

/// Whatever the seed, the keyed Fisher-Yates shuffle of `0..n` lists every
/// index exactly once.
pub proof fn lemma_keyed_permutation_is_permutation(seed: Seq<u8>, n: nat)
    requires
        n <= usize::MAX,
    ensures
        is_permutation(keyed_permutation(seed, n), n),
        valid_draws(n, keyed_draws(seed, n)),
{
    let d = keyed_draws(seed, n);
    assert forall|k: int| 0 <= k < d.len() implies #[trigger] d[k] <= n - 1 - k by {
        assert(d[k] == keyed_draw(seed, n, k as nat));
    }
    lemma_shuffle_is_permutation(n, d);
}

/// Generate a deterministic permutation of indices [0..n) using a ChaCha20 PRNG
/// seeded by the given 32-byte seed. Uses the Fisher-Yates shuffle algorithm.
pub fn generate_permutation(n: usize, seed: &[u8; 32]) -> (perm: Vec<usize>)
    ensures
        perm@ == keyed_permutation(seed@, n as nat),
        is_permutation(perm@, n as nat),
{
    let mut stream = keyed_stream(*seed);
    let mut perm: Vec<usize> = Vec::new();
    let mut k: usize = 0;
    while k < n
        invariant
            k <= n,
            perm@.len() == k,
            forall|q: int| 0 <= q < k ==> #[trigger] perm@[q] == q,
        decreases n - k,
    {
        perm.push(k);
        k += 1;
    }
    assert(perm@ =~= identity_perm(n as nat));
    let ghost draws: Seq<usize> = keyed_draws(seed@, n as nat);
    let mut i: usize = n;
    while i > 1
        invariant
            i <= n,
            n > 0 ==> i >= 1,
            draws == keyed_draws(seed@, n as nat),
            stream@ == (seed@, fisher_yates_served(n as nat, (n - i) as nat)),
            perm@ == shuffle(n as nat, draws.take(n - i)),
            perm@.len() == n,
        decreases i,
    {
        i -= 1;
        let ghost step: nat = (n - 1 - i) as nat;
        let j = draw_up_to(&mut stream, i);
        proof {
            assert(j == keyed_draw(seed@, n as nat, step));
            assert(draws[step as int] == j);
        }
        let a = perm[i];
        let b = perm[j];
        let ghost old_perm = perm@;
        perm.set(i, b);
        perm.set(j, a);
        proof {
            assert(stream@.1 =~= fisher_yates_served(n as nat, (n - i) as nat));
            assert(draws.take(n - i).drop_last() =~= draws.take(n - i - 1));
            assert(perm@ =~= swap_entries(old_perm, i as int, j as int));
        }
    }
    assert(draws.take(n - i) =~= draws);
    proof {
        lemma_keyed_permutation_is_permutation(seed@, n as nat);
    }
    perm
}

proof fn lemma_swap_keeps_permutation(p: Seq<usize>, i: int, j: int, n: nat)
    requires
        is_permutation(p, n),
        0 <= i < n,
        0 <= j < n,
    ensures
        is_permutation(p.update(i, p[j]).update(j, p[i]), n),
{
    let q = p.update(i, p[j]).update(j, p[i]);
    assert forall|x: int| 0 <= x < n implies #[trigger] q[x] < n by {
        if x == j {
        } else if x == i {
        } else {
        }
    }
    assert forall|x: int, y: int| 0 <= x < n && 0 <= y < n && x != y implies q[x] != q[y] by {
        let sx = if x == j {
            i
        } else if x == i {
            j
        } else {
            x
        };
        let sy = if y == j {
            i
        } else if y == i {
            j
        } else {
            y
        };
        assert(q[x] == p[sx]);
        assert(q[y] == p[sy]);
        assert(sx != sy);
    }
    assert forall|k: int| 0 <= k < n implies #[trigger] appears(q, n, k) by {
        assert(appears(p, n, k));
        let w = choose|x: int| 0 <= x < n && #[trigger] p[x] == k;
        if w == i {
            assert(q[j] == k);
        } else if w == j {
            assert(q[i] == k);
        } else {
            assert(q[w] == k);
        }
    }
}

/// Scramble bits according to a permutation.
/// `scrambled[perm[i]] = bits[i]` for all i.
pub fn scramble(bits: &[bool], perm: &[usize]) -> (scrambled: Vec<bool>)
    requires
        bits@.len() == perm@.len(),
        indices_below(perm@, bits@.len()),
    ensures
        scrambled@ == scatter(bits@, perm@, bits@.len()),
{
    let n = bits.len();
    let mut scrambled: Vec<bool> = Vec::new();
    let mut k: usize = 0;
    while k < n
        invariant
            n == bits@.len(),
            k <= n,
            scrambled@.len() == k,
            forall|q: int| 0 <= q < k ==> #[trigger] scrambled@[q] == false,
        decreases n - k,
    {
        scrambled.push(false);
        k += 1;
    }
    assert(scrambled@ =~= scatter(bits@, perm@, 0));
    let mut i: usize = 0;
    while i < n
        invariant
            n == bits@.len(),
            n == perm@.len(),
            indices_below(perm@, n as nat),
            i <= n,
            scrambled@ == scatter(bits@, perm@, i as nat),
            scrambled@.len() == n,
        decreases n - i,
    {
        proof {
            lemma_scatter_len(bits@, perm@, (i + 1) as nat);
        }
        let idx = perm[i];
        scrambled.set(idx, bits[i]);
        i += 1;
    }
    scrambled
}

proof fn lemma_scatter_len(bits: Seq<bool>, perm: Seq<usize>, k: nat)
    requires
        k <= perm.len(),
        indices_below(perm, bits.len()),
    ensures
        scatter(bits, perm, k).len() == bits.len(),
    decreases k,
{
    if k > 0 {
        lemma_scatter_len(bits, perm, (k - 1) as nat);
    }
}

/// Unscramble bits according to a permutation (inverse of scramble).
/// `bits[i] = scrambled[perm[i]]` for all i.
pub fn unscramble(scrambled: &[bool], perm: &[usize]) -> (bits: Vec<bool>)
    requires
        scrambled@.len() == perm@.len(),
        indices_below(perm@, scrambled@.len()),
    ensures
        bits@ == gather(scrambled@, perm@),
{
    let n = scrambled.len();
    let mut bits: Vec<bool> = Vec::new();
    let mut i: usize = 0;
    while i < n
        invariant
            n == scrambled@.len(),
            n == perm@.len(),
            indices_below(perm@, n as nat),
            i <= n,
            bits@.len() == i,
            forall|q: int| 0 <= q < i ==> #[trigger] bits@[q] == scrambled@[perm@[q] as int],
        decreases n - i,
    {
        bits.push(scrambled[perm[i]]);
        i += 1;
    }
    assert(bits@ =~= gather(scrambled@, perm@));
    bits
}

/// Along a permutation, the first `k` writes put bit `i` at `perm[i]` and leave
/// every other position false.
proof fn lemma_scatter_prefix(bits: Seq<bool>, perm: Seq<usize>, k: nat)
    requires
        is_permutation(perm, bits.len()),
        k <= bits.len(),
    ensures
        scatter(bits, perm, k).len() == bits.len(),
        forall|i: int| 0 <= i < k ==> scatter(bits, perm, k)[#[trigger] perm[i] as int] == bits[i],
    decreases k,
{
    lemma_scatter_len(bits, perm, k);
    if k > 0 {
        lemma_scatter_prefix(bits, perm, (k - 1) as nat);
        assert forall|i: int| 0 <= i < k implies scatter(bits, perm, k)[#[trigger] perm[i] as int]
            == bits[i] by {
            if i < k - 1 {
                assert(perm[i] != perm[k - 1]);
            }
        }
    }
}

/// Along a permutation, scattering writes bit `i` at position `perm[i]`.
pub proof fn lemma_scatter_places_bits(bits: Seq<bool>, perm: Seq<usize>)
    requires
        is_permutation(perm, bits.len()),
    ensures
        scatter(bits, perm, bits.len()).len() == bits.len(),
        forall|i: int| 0 <= i < bits.len() ==> scatter(bits, perm, bits.len())[#[trigger] perm[i] as int] == bits[i],
{
    lemma_scatter_prefix(bits, perm, bits.len());
}

/// Unscrambling undoes scrambling along the same permutation.
pub proof fn lemma_unscramble_scramble(bits: Seq<bool>, perm: Seq<usize>)
    requires
        is_permutation(perm, bits.len()),
    ensures
        gather(scatter(bits, perm, bits.len()), perm) == bits,
{
    lemma_scatter_places_bits(bits, perm);
    assert(gather(scatter(bits, perm, bits.len()), perm) =~= bits);
}

/// Scrambling undoes unscrambling along the same permutation.
pub proof fn lemma_scramble_unscramble(scrambled: Seq<bool>, perm: Seq<usize>)
    requires
        is_permutation(perm, scrambled.len()),
    ensures
        scatter(gather(scrambled, perm), perm, scrambled.len()) == scrambled,
{
    let g = gather(scrambled, perm);
    lemma_scatter_places_bits(g, perm);
    let s = scatter(g, perm, scrambled.len());
    assert forall|k: int| 0 <= k < scrambled.len() implies #[trigger] s[k] == scrambled[k] by {
        assert(appears(perm, scrambled.len(), k));
        let w = choose|i: int| 0 <= i < scrambled.len() && #[trigger] perm[i] == k;
        assert(s[perm[w] as int] == g[w]);
    }
    assert(s =~= scrambled);
}

/// Scrambling along the permutation a seed draws and unscrambling along the
/// permutation the same seed draws gives the bits back.
pub proof fn lemma_seed_scramble_round_trip(bits: Seq<bool>, seed: Seq<u8>)
    requires
        bits.len() <= usize::MAX,
    ensures
        gather(
            scatter(bits, keyed_permutation(seed, bits.len()), bits.len()),
            keyed_permutation(seed, scatter(bits, keyed_permutation(seed, bits.len()), bits.len()).len()),
        ) == bits,
{
    let perm = keyed_permutation(seed, bits.len());
    lemma_keyed_permutation_is_permutation(seed, bits.len());
    lemma_scatter_places_bits(bits, perm);
    lemma_unscramble_scramble(bits, perm);
}

/// Bits scrambled under a password, with the seed and permutation used.
pub struct Scrambled {
    pub seed: [u8; 32],
    pub perm: Vec<usize>,
    pub bits: Vec<bool>,
}

/// Scrambles `bits` along the permutation drawn from the password's seed.
pub fn scramble_with_password(bits: &[bool], password: &str) -> (s: Scrambled)
    ensures
        s.seed@ == sha256_digest(password.spec_bytes()),
        s.perm@ == keyed_permutation(s.seed@, bits@.len()),
        is_permutation(s.perm@, bits@.len()),
        s.bits@ == scatter(bits@, s.perm@, bits@.len()),
        s.bits@.len() == bits@.len(),
{
    let seed = password_to_seed(password);
    let perm = generate_permutation(bits.len(), &seed);
    let scrambled = scramble(bits, perm.as_slice());
    proof {
        lemma_scatter_places_bits(bits@, perm@);
    }
    Scrambled { seed, perm, bits: scrambled }
}

/// Unscrambles `scrambled` along the permutation drawn from `seed` for its
/// length.
pub fn unscramble_with_seed(scrambled: &[bool], seed: &[u8; 32]) -> (bits: Vec<bool>)
    ensures
        bits@ == gather(scrambled@, keyed_permutation(seed@, scrambled@.len())),
{
    let perm = generate_permutation(scrambled.len(), seed);
    unscramble(scrambled, perm.as_slice())
}

} // verus!
