//! Integer side of the real Fourier transforms: the factorization of the
//! transform length that the workspace stores, the order in which the radix
//! passes run, and the index helpers and layout conversions of the kernels.
use vstd::prelude::*;
use crate::flat::lemma_flat_index_bound;
use vstd::arithmetic::div_mod::{lemma_fundamental_div_mod, lemma_mod_pos_bound};

verus! {

/// Product of a sequence of factors.
pub open spec fn seq_product(s: Seq<usize>) -> int
    decreases s.len(),
{
    if s.len() == 0 {
        1
    } else {
        seq_product(s.drop_last()) * (s.last() as int)
    }
}

/// `p` is a prime number.
pub open spec fn is_prime(p: int) -> bool {
    p >= 2 && forall|d: int| 2 <= d < p ==> #[trigger] (p % d) != 0
}

/// Order in which the factors are stored: a lone 2 first, then the 4s, then
/// the odd primes from small to large.
pub open spec fn factor_rank(x: int) -> int {
    if x == 2 {
        0
    } else if x == 4 {
        1
    } else {
        x
    }
}

/// The shape of the factor list of a transform length: every factor is 2, 4
/// or an odd prime; a 2 occurs only in front; the list is sorted by
/// [`factor_rank`].  Together with the product this fixes the list: the power
/// of two goes into as many 4s as possible and at most one 2.
pub open spec fn rfft_factor_form(f: Seq<usize>) -> bool {
    &&& forall|i: int|
        0 <= i < f.len() ==> (#[trigger] f[i] == 2 || f[i] == 4 || (f[i] % 2 == 1 && is_prime(
            f[i] as int,
        )))
    &&& forall|i: int| 0 <= i < f.len() && #[trigger] f[i] == 2 ==> i == 0
    &&& forall|i: int, j: int|
        0 <= i < j < f.len() ==> factor_rank(#[trigger] f[i] as int) <= factor_rank(
            #[trigger] f[j] as int,
        )
}

/// A factor list that multiplies to `n` and has no factor below 2.
pub open spec fn valid_factorization(f: Seq<usize>, n: int) -> bool {
    &&& seq_product(f) == n
    &&& forall|i: int| 0 <= i < f.len() ==> #[trigger] f[i] >= 2
}

/// The product of a sequence with one more factor at its end.
pub proof fn lemma_product_push(s: Seq<usize>, x: usize)
    ensures
        seq_product(s.push(x)) == seq_product(s) * (x as int),
{
    assert(s.push(x).drop_last() =~= s);
}

/// The product of a sequence with one more factor in front.
pub proof fn lemma_product_prepend(x: usize, s: Seq<usize>)
    ensures
        seq_product(seq![x] + s) == (x as int) * seq_product(s),
    decreases s.len(),
{
    if s.len() == 0 {
        assert(seq![x] + s =~= seq![x]);
        assert(seq![x].drop_last() =~= Seq::<usize>::empty());
        assert(seq_product(Seq::<usize>::empty()) == 1);
        assert(seq_product(seq![x]) == seq_product(seq![x].drop_last()) * (x as int));
    } else {
        lemma_product_prepend(x, s.drop_last());
        let t = seq![x] + s;
        assert(t.drop_last() =~= seq![x] + s.drop_last());
        assert(t.last() == s.last());
        let a = x as int;
        let p = seq_product(s.drop_last());
        let b = s.last() as int;
        assert(seq_product(t) == seq_product(t.drop_last()) * b);
        assert(seq_product(t.drop_last()) == a * p);
        assert(seq_product(s) == p * b);
        assert(a * p * b == a * (p * b)) by (nonlinear_arith);
    }
}

/// The product of a concatenation.
pub proof fn lemma_product_append(s: Seq<usize>, t: Seq<usize>)
    ensures
        seq_product(s + t) == seq_product(s) * seq_product(t),
    decreases t.len(),
{
    if t.len() == 0 {
        assert(s + t =~= s);
    } else {
        lemma_product_append(s, t.drop_last());
        assert((s + t).drop_last() =~= s + t.drop_last());
        assert((s + t).last() == t.last());
        let a = seq_product(s);
        let p = seq_product(t.drop_last());
        let b = t.last() as int;
        assert(a * p * b == a * (p * b)) by (nonlinear_arith);
    }
}

/// A product of factors no smaller than 1 is at least 1.
pub proof fn lemma_product_positive(s: Seq<usize>)
    requires
        forall|i: int| 0 <= i < s.len() ==> #[trigger] s[i] >= 1,
    ensures
        seq_product(s) >= 1,
    decreases s.len(),
{
    if s.len() > 0 {
        lemma_product_positive(s.drop_last());
        let p = seq_product(s.drop_last());
        let b = s.last() as int;
        assert(s[s.len() - 1] >= 1);
        assert(p * b >= 1) by (nonlinear_arith)
            requires
                p >= 1,
                b >= 1,
        ;
    }
}

proof fn lemma_divides_product(a: int, b: int, d: int)
    requires
        d > 0,
        b % d == 0,
    ensures
        (a * b) % d == 0,
{
    let q = b / d;
    lemma_fundamental_div_mod(b, d);
    assert(b == d * q);
    assert(a * b == (a * q) * d) by (nonlinear_arith)
        requires
            b == d * q,
    ;
    vstd::arithmetic::div_mod::lemma_mod_multiples_basic(a * q, d);
}

proof fn lemma_even_divisor(nl: int, d: int)
    requires
        nl % 2 == 1,
        d >= 2,
        d % 2 == 0,
    ensures
        nl % d != 0,
{
    if nl % d == 0 {
        let q = nl / d;
        let h = d / 2;
        lemma_fundamental_div_mod(nl, d);
        assert(nl == d * q);
        assert(d == 2 * h);
        assert(nl == 2 * (h * q)) by (nonlinear_arith)
            requires
                nl == d * q,
                d == 2 * h,
        ;
    }
}

/// Factors the length `n` of a real transform the way the workspace stores
/// it: trial divisors 4, 2, 3, 5, 7, 9, ... each divided out as often as it
/// goes, with a factor 2 moved to the front.  A length of 1 has no factor.
pub fn rfft_factors(n: usize) -> (f: Vec<usize>)
    requires
        n >= 1,
    ensures
        seq_product(f@) == n,
        rfft_factor_form(f@),
        n == 1 ==> f@.len() == 0,
{
    let mut f: Vec<usize> = Vec::new();
    if n == 1 {
        return f;
    }
    let mut nl = n;
    proof {
        assert(seq_product(f@) == 1);
    }
    while nl % 4 == 0
        invariant
            nl >= 1,
            seq_product(f@) * nl == n,
            forall|i: int| 0 <= i < f@.len() ==> #[trigger] f@[i] == 4,
        decreases nl,
    {
        proof {
            lemma_product_push(f@, 4);
            assert(seq_product(f@) * 4 * (nl / 4) == seq_product(f@) * nl) by (nonlinear_arith)
                requires
                    nl % 4 == 0,
            ;
        }
        f.push(4);
        nl = nl / 4;
    }
    if nl % 2 == 0 {
        let ghost before = f@;
        proof {
            lemma_product_prepend(2, f@);
            assert(seq_product(f@) * 2 * (nl / 2) == seq_product(f@) * nl) by (nonlinear_arith)
                requires
                    nl % 2 == 0,
            ;
        }
        f.insert(0, 2);
        nl = nl / 2;
        assert(f@ =~= seq![2usize] + before);
        assert(f@[0] == 2);
    }
    assert(nl % 2 == 1);
    proof {
        lemma_product_positive(f@);
        assert(nl <= n) by (nonlinear_arith)
            requires
                seq_product(f@) * nl == n,
                seq_product(f@) >= 1,
                nl >= 1,
        ;
    }
    assert forall|i: int, j: int| 0 <= i < j < f@.len() implies factor_rank(
        #[trigger] f@[i] as int,
    ) <= factor_rank(#[trigger] f@[j] as int) by {
        assert(f@[j] == 4);
    }
    let mut ntry: usize = 3;
    while nl > 1
        invariant
            nl >= 1,
            nl % 2 == 1,
            ntry >= 3,
            ntry % 2 == 1,
            nl <= n,
            nl > 1 ==> ntry <= nl,
            seq_product(f@) * nl == n,
            forall|d: int| 2 <= d < ntry ==> #[trigger] ((nl as int) % d) != 0,
            forall|i: int| 0 <= i < f@.len() ==> factor_rank(#[trigger] f@[i] as int) <= ntry,
            rfft_factor_form(f@),
        decreases nl, nl - ntry,
    {
        if nl % ntry == 0 {
            let ghost old_nl = nl as int;
            let ghost q = (nl / ntry) as int;
            proof {
                lemma_fundamental_div_mod(old_nl, ntry as int);
                assert(old_nl == ntry * q);
                assert forall|d: int| 2 <= d < ntry implies #[trigger] ((ntry as int) % d) != 0 by {
                    if (ntry as int) % d == 0 {
                        lemma_divides_product(q, ntry as int, d);
                        assert(q * ntry == old_nl) by (nonlinear_arith)
                            requires
                                old_nl == ntry * q,
                        ;
                    }
                }
                assert(is_prime(ntry as int));
                lemma_product_push(f@, ntry);
                assert(seq_product(f@) * ntry * q == seq_product(f@) * old_nl) by (nonlinear_arith)
                    requires
                        old_nl == ntry * q,
                ;
                assert forall|d: int| 2 <= d < ntry implies #[trigger] (q % d) != 0 by {
                    if q % d == 0 {
                        lemma_divides_product(ntry as int, q, d);
                    }
                }
                assert(q % 2 == 1) by {
                    if q % 2 == 0 {
                        lemma_divides_product(ntry as int, q, 2);
                    }
                }
                assert(q >= 1) by (nonlinear_arith)
                    requires
                        old_nl == ntry * q,
                        old_nl >= 1,
                        ntry >= 3,
                ;
                assert(q < old_nl) by (nonlinear_arith)
                    requires
                        old_nl == ntry * q,
                        q >= 1,
                        ntry >= 3,
                ;
                if q > 1 && q < ntry {
                    assert(q % q == 0);
                }
            }
            f.push(ntry);
            nl = nl / ntry;
            assert(nl == q);
            proof {
                let g = f@;
                assert forall|i: int, j: int| 0 <= i < j < g.len() implies factor_rank(
                    #[trigger] g[i] as int,
                ) <= factor_rank(#[trigger] g[j] as int) by {
                    if j == g.len() - 1 {
                        assert(factor_rank(g[i] as int) <= ntry);
                    }
                }
            }
        } else {
            proof {
                assert(nl % nl == 0);
                assert(ntry < nl);
                lemma_even_divisor(nl as int, ntry + 1);
                if ntry + 1 == nl {
                    assert(nl % 2 == 0);
                }
            }
            ntry = ntry + 2;
        }
    }
    assert(nl == 1);
    f
}

/// Index into a four-dimensional array of extents `(d1, d2, d3, *)`, with
/// one-based subscripts.
pub open spec fn spec_idx4(a1: int, a2: int, a3: int, a4: int, d1: int, d2: int, d3: int) -> int {
    (a1 - 1) + d1 * ((a2 - 1) + d2 * ((a3 - 1) + d3 * (a4 - 1)))
}

/// Index into a three-dimensional array of extents `(d1, d2, *)`, with
/// one-based subscripts.
pub open spec fn spec_idx3(a1: int, a2: int, a3: int, d1: int, d2: int) -> int {
    (a1 - 1) + d1 * ((a2 - 1) + d2 * (a3 - 1))
}

/// Column-major offset of the one-based subscripts `(a1, a2, a3, a4)` in an
/// array of extents `(d1, d2, d3, *)`.
pub fn idx4(a1: usize, a2: usize, a3: usize, a4: usize, d1: usize, d2: usize, d3: usize) -> (r:
    usize)
    requires
        a1 >= 1,
        a2 >= 1,
        a3 >= 1,
        a4 >= 1,
        d3 * (a4 - 1) <= usize::MAX,
        (a3 - 1) + d3 * (a4 - 1) <= usize::MAX,
        d2 * ((a3 - 1) + d3 * (a4 - 1)) <= usize::MAX,
        (a2 - 1) + d2 * ((a3 - 1) + d3 * (a4 - 1)) <= usize::MAX,
        d1 * ((a2 - 1) + d2 * ((a3 - 1) + d3 * (a4 - 1))) <= usize::MAX,
        spec_idx4(a1 as int, a2 as int, a3 as int, a4 as int, d1 as int, d2 as int, d3 as int)
            <= usize::MAX,
    ensures
        r == spec_idx4(a1 as int, a2 as int, a3 as int, a4 as int, d1 as int, d2 as int, d3 as int),
{
    (a1 - 1) + d1 * ((a2 - 1) + d2 * ((a3 - 1) + d3 * (a4 - 1)))
}

/// Column-major offset of the one-based subscripts `(a1, a2, a3)` in an
/// array of extents `(d1, d2, *)`.
pub fn idx3(a1: usize, a2: usize, a3: usize, d1: usize, d2: usize) -> (r: usize)
    requires
        a1 >= 1,
        a2 >= 1,
        a3 >= 1,
        d2 * (a3 - 1) <= usize::MAX,
        (a2 - 1) + d2 * (a3 - 1) <= usize::MAX,
        d1 * ((a2 - 1) + d2 * (a3 - 1)) <= usize::MAX,
        spec_idx3(a1 as int, a2 as int, a3 as int, d1 as int, d2 as int) <= usize::MAX,
    ensures
        r == spec_idx3(a1 as int, a2 as int, a3 as int, d1 as int, d2 as int),
{
    (a1 - 1) + d1 * ((a2 - 1) + d2 * (a3 - 1))
}

/// Whether the backward transform falls back to the direct summation: it
/// never does, whatever the length and factor count.
pub fn hrfftb_auto_should_fallback(n: usize, nf: usize) -> (r: bool)
    ensures
        r == false,
{
    let _ = (n, nf);
    false
}

/// Whether the forward transform may use the factored kernels: the length is
/// not 1, the workspace holds the `n + 15` entries, and the stored factor
/// list (`factors`, the stored values truncated to integers) is not empty and
/// has no factor below 2.
pub fn hrfftf_can_use_kernel(n: usize, wlen: usize, factors: &Vec<usize>) -> (r: bool)
    ensures
        r == (n != 1 && wlen >= n + 15 && factors@.len() > 0 && forall|k: int|
            0 <= k < factors@.len() ==> #[trigger] factors@[k] >= 2),
{
    if n == 1 || n > usize::MAX - 15 || wlen < n + 15 {
        return false;
    }
    if factors.len() == 0 {
        return false;
    }
    let mut k: usize = 0;
    while k < factors.len()
        invariant
            k <= factors@.len(),
            forall|j: int| 0 <= j < k ==> #[trigger] factors@[j] >= 2,
        decreases factors@.len() - k,
    {
        if factors[k] < 2 {
            return false;
        }
        k = k + 1;
    }
    true
}

/// How the backward transform is carried out.
#[derive(Clone, Copy, Debug, PartialEq, Eq, Structural)]
pub enum HrfftbMode {
    /// The factored kernels unless the length calls for the direct sum.
    Auto,
    /// The factored kernels.
    KernelOnly,
    /// The direct summation.
    ReferenceOnly,
}

/// How the forward transform is carried out.
#[derive(Clone, Copy, Debug, PartialEq, Eq, Structural)]
pub enum HrfftfMode {
    /// The factored kernels where the stored factors allow them.
    Auto,
    /// The factored kernels.
    KernelOnly,
    /// The direct summation.
    ReferenceOnly,
}

/// What a transform call does with its data.
#[derive(Clone, Copy, Debug, PartialEq, Eq, Structural)]
pub enum FftRoute {
    /// A transform of length 1 leaves the data as it is.
    Unchanged,
    /// The direct summation.
    Reference,
    /// The factored kernels.
    Kernel,
}

/// Why a transform refused its arguments.
#[derive(Clone, Copy, Debug, PartialEq, Eq, Structural)]
pub enum FftError {
    /// The data does not hold `m` sequences of length `n`.
    LengthMismatch,
    /// The workspace holds fewer than `n + 15` entries.
    WorkspaceTooShort,
}

/// The checks shared by both directions: a length-1 transform does
/// nothing; otherwise the data must hold `m * n` values and the workspace
/// `n + 15` entries.
pub open spec fn fft_arguments(m: int, n: int, rlen: int, wlen: int) -> Option<FftError> {
    if rlen != m * n {
        Some(FftError::LengthMismatch)
    } else if wlen < n + 15 {
        Some(FftError::WorkspaceTooShort)
    } else {
        None
    }
}

/// `rlen == m * n` without overflow.
fn holds_sequences(rlen: usize, m: usize, n: usize) -> (b: bool)
    ensures
        b == (rlen == m * n),
{
    match m.checked_mul(n) {
        Some(p) => rlen == p,
        None => false,
    }
}

/// The route of the backward transform of `m` sequences of length `n`
/// stored in `rlen` values, with a workspace of `wlen` entries whose factor
/// count is `nf`.
pub fn hrfftb_route(m: usize, n: usize, rlen: usize, wlen: usize, mode: HrfftbMode, nf: usize) -> (r:
    Result<FftRoute, FftError>)
    ensures
        n == 1 ==> r == Ok::<FftRoute, FftError>(FftRoute::Unchanged),
        n != 1 ==> r == match fft_arguments(m as int, n as int, rlen as int, wlen as int) {
            Some(e) => Err(e),
            None => Ok(
                match mode {
                    HrfftbMode::ReferenceOnly => FftRoute::Reference,
                    _ => FftRoute::Kernel,
                },
            ),
        },
{
    if n == 1 {
        return Ok(FftRoute::Unchanged);
    }
    if !holds_sequences(rlen, m, n) {
        return Err(FftError::LengthMismatch);
    }
    if n > usize::MAX - 15 || wlen < n + 15 {
        return Err(FftError::WorkspaceTooShort);
    }
    match mode {
        HrfftbMode::ReferenceOnly => Ok(FftRoute::Reference),
        HrfftbMode::KernelOnly => Ok(FftRoute::Kernel),
        HrfftbMode::Auto => {
            if hrfftb_auto_should_fallback(n, nf) {
                Ok(FftRoute::Reference)
            } else {
                Ok(FftRoute::Kernel)
            }
        },
    }
}

/// The route of the forward transform of `m` sequences of length `n`
/// stored in `rlen` values, with a workspace of `wlen` entries whose stored
/// factors are `factors`.
pub fn hrfftf_route(
    m: usize,
    n: usize,
    rlen: usize,
    wlen: usize,
    mode: HrfftfMode,
    factors: &Vec<usize>,
) -> (r: Result<FftRoute, FftError>)
    ensures
        n == 1 ==> r == Ok::<FftRoute, FftError>(FftRoute::Unchanged),
        n != 1 ==> r == match fft_arguments(m as int, n as int, rlen as int, wlen as int) {
            Some(e) => Err(e),
            None => Ok(
                match mode {
                    HrfftfMode::ReferenceOnly => FftRoute::Reference,
                    HrfftfMode::KernelOnly => FftRoute::Kernel,
                    HrfftfMode::Auto => if factors@.len() > 0 && forall|k: int|
                        0 <= k < factors@.len() ==> #[trigger] factors@[k] >= 2 {
                        FftRoute::Kernel
                    } else {
                        FftRoute::Reference
                    },
                },
            ),
        },
{
    if n == 1 {
        return Ok(FftRoute::Unchanged);
    }
    if !holds_sequences(rlen, m, n) {
        return Err(FftError::LengthMismatch);
    }
    if n > usize::MAX - 15 || wlen < n + 15 {
        return Err(FftError::WorkspaceTooShort);
    }
    match mode {
        HrfftfMode::ReferenceOnly => Ok(FftRoute::Reference),
        HrfftfMode::KernelOnly => Ok(FftRoute::Kernel),
        HrfftfMode::Auto => {
            if hrfftf_can_use_kernel(n, wlen, factors) {
                Ok(FftRoute::Kernel)
            } else {
                Ok(FftRoute::Reference)
            }
        },
    }
}

/// One radix pass of a factored transform.
#[derive(Clone, Copy, Debug, PartialEq, Eq, Structural)]
pub struct FftStage {
    /// The radix of the pass.
    pub ip: usize,
    /// Product of the factors handled before this pass.
    pub l1: usize,
    /// Length of the inner dimension, `n / (l1 * ip)`.
    pub ido: usize,
    /// One-based start of the twiddle factors of the pass in the workspace.
    pub iw: usize,
    /// 0 when the pass reads the data array and writes the scratch array,
    /// 1 when it reads the scratch array and writes the data array.
    pub na: usize,
}

/// Radices for which a dedicated kernel exists; the others go through the
/// general kernel.
pub open spec fn has_special_kernel(ip: int) -> bool {
    ip == 2 || ip == 3 || ip == 4 || ip == 5
}

/// State of the backward transform after its first `k` passes:
/// `(l1, iw, na)`.
pub open spec fn bwd_state(f: Seq<usize>, n: int, k: int) -> (int, int, int)
    decreases k,
{
    if k <= 0 {
        (1, 1, 0)
    } else {
        let (l1, iw, na) = bwd_state(f, n, k - 1);
        let ip = f[k - 1] as int;
        let ido = n / (ip * l1);
        let na2 = if has_special_kernel(ip) || ido == 1 {
            1 - na
        } else {
            na
        };
        (ip * l1, iw + (ip - 1) * ido, na2)
    }
}

/// The pass number `k` of the backward transform.
pub open spec fn bwd_stage(f: Seq<usize>, n: int, k: int) -> FftStage {
    let (l1, iw, na) = bwd_state(f, n, k);
    let ip = f[k] as int;
    FftStage {
        ip: ip as usize,
        l1: l1 as usize,
        ido: (n / (ip * l1)) as usize,
        iw: iw as usize,
        na: na as usize,
    }
}

/// Where a pass stands in its workspace: `l1` is the product of the factors
/// before it, and `iw - 1 == n - n / l1`, so the twiddle factors of all
/// passes together fill the first `n - 1` entries.
proof fn lemma_bwd_state(f: Seq<usize>, n: int, k: int)
    requires
        valid_factorization(f, n),
        0 <= k <= f.len(),
    ensures
        bwd_state(f, n, k).0 == seq_product(f.take(k)),
        bwd_state(f, n, k).0 * seq_product(f.skip(k)) == n,
        bwd_state(f, n, k).1 == 1 + n - seq_product(f.skip(k)),
        bwd_state(f, n, k).2 == 0 || bwd_state(f, n, k).2 == 1,
        seq_product(f.skip(k)) >= 1,
        bwd_state(f, n, k).0 >= 1,
        n >= 1,
    decreases k,
{
    lemma_product_positive(f);
    assert forall|i: int| 0 <= i < f.take(k).len() implies #[trigger] f.take(k)[i] >= 1 by {
        assert(f.take(k)[i] == f[i]);
    }
    lemma_product_positive(f.take(k));
    lemma_product_append(f.take(k), f.skip(k));
    assert(f.take(k) + f.skip(k) =~= f);
    assert forall|i: int| 0 <= i < f.skip(k).len() implies #[trigger] f.skip(k)[i] >= 1 by {
        assert(f.skip(k)[i] == f[k + i]);
    }
    lemma_product_positive(f.skip(k));
    if k == 0 {
        assert(f.take(0) =~= Seq::<usize>::empty());
        assert(f.skip(0) =~= f);
    } else {
        lemma_bwd_state(f, n, k - 1);
        let (l1, iw, na) = bwd_state(f, n, k - 1);
        let ip = f[k - 1] as int;
        let rest = seq_product(f.skip(k));
        assert(f.take(k).drop_last() =~= f.take(k - 1));
        assert(f.take(k).last() == f[k - 1]);
        assert(seq_product(f.take(k)) == seq_product(f.take(k - 1)) * ip);
        assert(ip * l1 == l1 * ip) by (nonlinear_arith);
        assert(f.skip(k - 1) =~= seq![f[k - 1]] + f.skip(k));
        lemma_product_prepend(f[k - 1], f.skip(k));
        assert(n == l1 * (ip * rest)) by (nonlinear_arith)
            requires
                l1 * seq_product(f.skip(k - 1)) == n,
                seq_product(f.skip(k - 1)) == ip * rest,
        ;
        assert(n == (ip * l1) * rest) by (nonlinear_arith)
            requires
                n == l1 * (ip * rest),
        ;
        assert(ip * l1 > 0) by (nonlinear_arith)
            requires
                ip >= 2,
                l1 * (ip * rest) == n,
                rest >= 1,
                n >= 1,
        ;
        vstd::arithmetic::div_mod::lemma_div_multiples_vanish(rest, ip * l1);
        assert(n / (ip * l1) == rest);
        assert((ip - 1) * rest == ip * rest - rest) by (nonlinear_arith);
    }
}

/// Plans the passes of the backward transform of length `n` whose factors
/// are `factors`: pass `k` uses the factor `factors[k]`, and the result is
/// copied from the scratch array at the end exactly when the last pass left
/// it there (the second component).
pub fn rfft_backward_plan(n: usize, factors: &Vec<usize>) -> (plan: (Vec<FftStage>, bool))
    requires
        valid_factorization(factors@, n as int),
    ensures
        plan.0@.len() == factors@.len(),
        forall|k: int| 0 <= k < factors@.len() ==> #[trigger] plan.0@[k] == bwd_stage(factors@, n as int, k),
        plan.1 == (bwd_state(factors@, n as int, factors@.len() as int).2 != 0),
{
    let mut stages: Vec<FftStage> = Vec::new();
    let mut l1: usize = 1;
    let mut iw: usize = 1;
    let mut na: usize = 0;
    let mut k: usize = 0;
    proof {
        lemma_bwd_state(factors@, n as int, 0);
    }
    while k < factors.len()
        invariant
            valid_factorization(factors@, n as int),
            k <= factors@.len(),
            stages@.len() == k,
            (l1 as int, iw as int, na as int) == bwd_state(factors@, n as int, k as int),
            forall|j: int| 0 <= j < k ==> #[trigger] stages@[j] == bwd_stage(factors@, n as int, j),
        decreases factors@.len() - k,
    {
        proof {
            lemma_bwd_state(factors@, n as int, k as int);
            lemma_bwd_state(factors@, n as int, k as int + 1);
            lemma_product_positive(factors@.skip(k as int + 1));
            assert(factors@[k as int] >= 2);
            assert((factors@[k as int] as int) * (l1 as int) >= 1) by (nonlinear_arith)
                requires
                    factors@[k as int] >= 2,
                    l1 >= 1,
            ;
            let rest = seq_product(factors@.skip(k as int + 1));
            assert((factors@[k as int] as int) * (l1 as int) <= n) by (nonlinear_arith)
                requires
                    (factors@[k as int] as int) * (l1 as int) * rest == n,
                    rest >= 1,
                    n >= 1,
                    (factors@[k as int] as int) * (l1 as int) >= 0,
            ;
        }
        let ip = factors[k];
        let l2 = ip * l1;
        let ido = n / l2;
        let stage = FftStage { ip, l1, ido, iw, na };
        stages.push(stage);
        if ip == 2 || ip == 3 || ip == 4 || ip == 5 || ido == 1 {
            na = 1 - na;
        }
        proof {
            assert(1 + n - seq_product(factors@.skip(k as int + 1)) <= n);
        }
        l1 = l2;
        iw = iw + (ip - 1) * ido;
        k = k + 1;
    }
    proof {
        lemma_bwd_state(factors@, n as int, k as int);
    }
    (stages, na != 0)
}

/// State of the forward transform after its first `k` passes:
/// `(l2, iw, na)`.  The forward transform takes the factors from the last
/// to the first.
pub open spec fn fwd_state(f: Seq<usize>, n: int, k: int) -> (int, int, int)
    decreases k,
{
    if k <= 0 {
        (n, n, 1)
    } else {
        let (l2, iw, na) = fwd_state(f, n, k - 1);
        let ip = f[f.len() - k] as int;
        let l1 = l2 / ip;
        let ido = n / l2;
        let na2 = if has_special_kernel(ip) {
            1 - na
        } else if ido == 1 {
            1 - na
        } else {
            na
        };
        (l1, iw - (ip - 1) * ido, na2)
    }
}

/// The `na` with which the general kernel decides its direction in pass `k`,
/// and which the dedicated kernels use.
pub open spec fn fwd_na_used(f: Seq<usize>, n: int, k: int) -> int {
    let (l2, iw, na) = fwd_state(f, n, k);
    let ip = f[f.len() - k - 1] as int;
    let ido = n / l2;
    if has_special_kernel(ip) {
        1 - na
    } else if ido == 1 {
        na
    } else {
        1 - na
    }
}

/// The pass number `k` of the forward transform.
pub open spec fn fwd_stage(f: Seq<usize>, n: int, k: int) -> FftStage {
    let (l2, iw, na) = fwd_state(f, n, k);
    let ip = f[f.len() - k - 1] as int;
    let ido = n / l2;
    FftStage {
        ip: ip as usize,
        l1: (l2 / ip) as usize,
        ido: ido as usize,
        iw: (iw - (ip - 1) * ido) as usize,
        na: fwd_na_used(f, n, k) as usize,
    }
}

/// Where a forward pass stands: `l2` is the product of the factors not yet
/// handled, and `iw - 1 == n - n / l2`.
proof fn lemma_fwd_state(f: Seq<usize>, n: int, k: int)
    requires
        valid_factorization(f, n),
        0 <= k <= f.len(),
    ensures
        fwd_state(f, n, k).0 == seq_product(f.take(f.len() - k)),
        fwd_state(f, n, k).0 * seq_product(f.skip(f.len() - k)) == n,
        fwd_state(f, n, k).1 == 1 + n - seq_product(f.skip(f.len() - k)),
        fwd_state(f, n, k).2 == 0 || fwd_state(f, n, k).2 == 1,
        seq_product(f.skip(f.len() - k)) >= 1,
        fwd_state(f, n, k).0 >= 1,
    decreases k,
{
    let c = f.len() - k;
    lemma_product_append(f.take(c), f.skip(c));
    assert(f.take(c) + f.skip(c) =~= f);
    assert forall|i: int| 0 <= i < f.skip(c).len() implies #[trigger] f.skip(c)[i] >= 1 by {
        assert(f.skip(c)[i] == f[c + i]);
    }
    lemma_product_positive(f.skip(c));
    assert forall|i: int| 0 <= i < f.take(c).len() implies #[trigger] f.take(c)[i] >= 1 by {
        assert(f.take(c)[i] == f[i]);
    }
    lemma_product_positive(f.take(c));
    if k == 0 {
        assert(f.take(f.len() as int) =~= f);
        assert(f.skip(f.len() as int) =~= Seq::<usize>::empty());
    } else {
        lemma_fwd_state(f, n, k - 1);
        let (l2, iw, na) = fwd_state(f, n, k - 1);
        let ip = f[c] as int;
        let head = seq_product(f.take(c));
        let done = seq_product(f.skip(c + 1));
        assert(f.take(c + 1).drop_last() =~= f.take(c));
        assert(f.skip(c) =~= seq![f[c]] + f.skip(c + 1));
        lemma_product_prepend(f[c], f.skip(c + 1));
        assert(l2 == head * ip);
        assert(ip >= 2);
        vstd::arithmetic::div_mod::lemma_div_by_multiple(head, ip);
        assert(l2 / ip == head);
        assert(n == l2 * done);
        assert(l2 >= 1);
        vstd::arithmetic::div_mod::lemma_div_multiples_vanish(done, l2);
        assert(n / l2 == done);
        assert((ip - 1) * done == ip * done - done) by (nonlinear_arith);
        assert(head * (ip * done) == n) by (nonlinear_arith)
            requires
                l2 == head * ip,
                n == l2 * done,
        ;
    }
}

/// Plans the passes of the forward transform of length `n` whose factors are
/// `factors`: pass `k` uses the factor `factors[nf - 1 - k]`, and the result
/// is copied from the scratch array at the end exactly when the final `na`
/// is not 1 (the second component).
pub fn rfft_forward_plan(n: usize, factors: &Vec<usize>) -> (plan: (Vec<FftStage>, bool))
    requires
        valid_factorization(factors@, n as int),
    ensures
        plan.0@.len() == factors@.len(),
        forall|k: int| 0 <= k < factors@.len() ==> #[trigger] plan.0@[k] == fwd_stage(factors@, n as int, k),
        plan.1 == (fwd_state(factors@, n as int, factors@.len() as int).2 != 1),
{
    let mut stages: Vec<FftStage> = Vec::new();
    let mut l2: usize = n;
    let mut iw: usize = n;
    let mut na: usize = 1;
    let nf = factors.len();
    let mut k: usize = 0;
    proof {
        lemma_fwd_state(factors@, n as int, 0);
    }
    while k < nf
        invariant
            valid_factorization(factors@, n as int),
            nf == factors@.len(),
            k <= nf,
            stages@.len() == k,
            (l2 as int, iw as int, na as int) == fwd_state(factors@, n as int, k as int),
            forall|j: int| 0 <= j < k ==> #[trigger] stages@[j] == fwd_stage(factors@, n as int, j),
        decreases nf - k,
    {
        proof {
            lemma_fwd_state(factors@, n as int, k as int);
            lemma_fwd_state(factors@, n as int, k as int + 1);
            assert(factors@[nf - 1 - k] >= 2);
        }
        let kh = nf - 1 - k;
        let ip = factors[kh];
        let l1 = l2 / ip;
        let ido = n / l2;
        proof {
            let done = seq_product(factors@.skip(nf - k));
            assert(n == (l2 as int) * done);
            vstd::arithmetic::div_mod::lemma_div_multiples_vanish(done, l2 as int);
            assert(ido == done);
            assert((ip - 1) * done <= iw - 1) by {
                assert(iw - (ip - 1) * done == 1 + n - seq_product(factors@.skip(nf - k - 1)));
                assert(seq_product(factors@.skip(nf - k - 1)) <= n) by {
                    lemma_fwd_state(factors@, n as int, k as int + 1);
                    let a = fwd_state(factors@, n as int, k as int + 1).0;
                    let b = seq_product(factors@.skip(nf - k - 1));
                    assert(b <= n) by (nonlinear_arith)
                        requires
                            a * b == n,
                            a >= 1,
                            b >= 1,
                    ;
                }
            }
        }
        iw = iw - (ip - 1) * ido;
        let used = if ip == 2 || ip == 3 || ip == 4 || ip == 5 {
            na = 1 - na;
            na
        } else if ido == 1 {
            let u = na;
            na = 1 - na;
            u
        } else {
            1 - na
        };
        stages.push(FftStage { ip, l1, ido, iw, na: used });
        l2 = l1;
        k = k + 1;
    }
    (stages, na != 1)
}

/// Pass `k` of a backward plan, in the terms of the state before and after
/// it.
proof fn lemma_bwd_stage_fields(f: Seq<usize>, n: int, k: int)
    requires
        valid_factorization(f, n),
        0 <= k < f.len(),
        n <= usize::MAX,
    ensures
        bwd_stage(f, n, k).ip as int == f[k] as int,
        bwd_stage(f, n, k).l1 as int == bwd_state(f, n, k).0,
        bwd_stage(f, n, k).iw as int == bwd_state(f, n, k).1,
        bwd_stage(f, n, k).l1 * bwd_stage(f, n, k).ip * bwd_stage(f, n, k).ido == n,
        bwd_state(f, n, k + 1).0 == bwd_stage(f, n, k).l1 * bwd_stage(f, n, k).ip,
        bwd_state(f, n, k + 1).1 == bwd_stage(f, n, k).iw + (bwd_stage(f, n, k).ip - 1)
            * bwd_stage(f, n, k).ido,
{
    lemma_bwd_state(f, n, k);
    lemma_bwd_state(f, n, k + 1);
    let (l1, iw, na) = bwd_state(f, n, k);
    let ip = f[k] as int;
    let rest = seq_product(f.skip(k + 1));
    assert(l1 <= n) by (nonlinear_arith)
        requires
            l1 * seq_product(f.skip(k)) == n,
            seq_product(f.skip(k)) >= 1,
            l1 >= 1,
    ;
    assert(f.skip(k) =~= seq![f[k]] + f.skip(k + 1));
    lemma_product_prepend(f[k], f.skip(k + 1));
    assert(n == (ip * l1) * rest) by (nonlinear_arith)
        requires
            l1 * seq_product(f.skip(k)) == n,
            seq_product(f.skip(k)) == ip * rest,
    ;
    assert(ip * l1 > 0) by (nonlinear_arith)
        requires
            ip >= 2,
            l1 >= 1,
    ;
    vstd::arithmetic::div_mod::lemma_div_multiples_vanish(rest, ip * l1);
    assert(n / (ip * l1) == rest);
    assert(rest <= n) by (nonlinear_arith)
        requires
            n == (ip * l1) * rest,
            ip * l1 >= 1,
            rest >= 1,
    ;
    assert(l1 * ip * rest == n) by (nonlinear_arith)
        requires
            n == (ip * l1) * rest,
    ;
    assert(seq_product(f.skip(k)) <= n) by (nonlinear_arith)
        requires
            l1 * seq_product(f.skip(k)) == n,
            seq_product(f.skip(k)) >= 1,
            l1 >= 1,
    ;
    assert(ip * l1 == l1 * ip) by (nonlinear_arith);
    assert(1 <= iw <= n);
}

/// The passes of a backward plan run over the factors in their order: pass
/// `k` has radix `factors[k]`, `l1` is the product of the radices before it
/// (1 for the first pass), `l1 * ip * ido == n`, and the twiddle factors of
/// the passes follow each other in the workspace from position 1, each pass
/// taking `(ip - 1) * ido` of them.
pub proof fn lemma_backward_plan_passes(n: usize, factors: Seq<usize>, plan: (Vec<FftStage>, bool))
    requires
        valid_factorization(factors, n as int),
        plan.0@.len() == factors.len(),
        forall|k: int| 0 <= k < factors.len() ==> #[trigger] plan.0@[k] == bwd_stage(factors, n as int, k),
    ensures
        forall|k: int|
            0 <= k < plan.0@.len() ==> #[trigger] plan.0@[k].ip == factors[k] && plan.0@[k].l1
                * plan.0@[k].ip * plan.0@[k].ido == n,
        plan.0@.len() > 0 ==> plan.0@[0].l1 == 1 && plan.0@[0].iw == 1,
        forall|k: int|
            0 <= k < plan.0@.len() - 1 ==> #[trigger] plan.0@[k + 1].l1 == plan.0@[k].l1
                * plan.0@[k].ip && plan.0@[k + 1].iw == plan.0@[k].iw + (plan.0@[k].ip - 1)
                * plan.0@[k].ido,
{
    let stages = plan.0@;
    let nn = n as int;
    assert forall|k: int| 0 <= k < stages.len() implies #[trigger] stages[k].ip == factors[k]
        && stages[k].l1 * stages[k].ip * stages[k].ido == n by {
        lemma_bwd_stage_fields(factors, nn, k);
    }
    if stages.len() > 0 {
        lemma_bwd_stage_fields(factors, nn, 0);
        assert(stages[0] == bwd_stage(factors, nn, 0));
        assert(bwd_state(factors, nn, 0) == (1int, 1int, 0int));
    }
    assert forall|k: int| 0 <= k < stages.len() - 1 implies #[trigger] stages[k + 1].l1
        == stages[k].l1 * stages[k].ip && stages[k + 1].iw == stages[k].iw + (stages[k].ip - 1)
        * stages[k].ido by {
        lemma_bwd_stage_fields(factors, nn, k);
        lemma_bwd_stage_fields(factors, nn, k + 1);
    }
}

/// After the first `k` passes of a backward plan, whether the values sit in
/// the data array rather than in the scratch array.  They start in the data
/// array; a pass with a dedicated kernel, or with the general kernel on an
/// inner length of 1, writes the array it does not read (`na == 1`: from
/// the scratch array into the data array); a pass with the general kernel
/// on a longer inner length leaves its result where it read it.
pub open spec fn bwd_values_in_data(stages: Seq<FftStage>, k: int) -> bool {
    if k <= 0 {
        true
    } else if has_special_kernel(stages[k - 1].ip as int) || stages[k - 1].ido == 1 {
        stages[k - 1].na == 1
    } else {
        stages[k - 1].na == 0
    }
}

/// The passes of a backward plan move the values between the data array
/// and the scratch array as the kernels do: every pass reads the array that
/// holds the values (`na == 0` when they sit in the data array), and the
/// result is copied back from the scratch array exactly when the last pass
/// left it there.
pub proof fn lemma_backward_plan_buffers(n: usize, factors: Seq<usize>, plan: (Vec<FftStage>, bool))
    requires
        valid_factorization(factors, n as int),
        plan.0@.len() == factors.len(),
        forall|k: int| 0 <= k < factors.len() ==> #[trigger] plan.0@[k] == bwd_stage(factors, n as int, k),
        plan.1 == (bwd_state(factors, n as int, factors.len() as int).2 != 0),
    ensures
        forall|k: int|
            0 <= k < plan.0@.len() ==> #[trigger] plan.0@[k].na == (if bwd_values_in_data(
                plan.0@,
                k,
            ) {
                0usize
            } else {
                1usize
            }),
        plan.1 == !bwd_values_in_data(plan.0@, plan.0@.len() as int),
{
    let stages = plan.0@;
    let nn = n as int;
    assert forall|k: int| 0 <= k <= stages.len() implies bwd_values_in_data(stages, k) == (bwd_state(
        factors,
        nn,
        k,
    ).2 == 0) by {
        if k > 0 {
            lemma_bwd_state(factors, nn, k - 1);
            let st = stages[k - 1];
            assert(st == bwd_stage(factors, nn, k - 1));
            let (l1, iw, na) = bwd_state(factors, nn, k - 1);
            let ip = factors[k - 1] as int;
            assert(st.ip as int == ip);
            assert(st.na as int == na);
            assert(l1 >= 1 && ip >= 2);
            assert(ip * l1 >= 1) by (nonlinear_arith)
                requires
                    l1 >= 1,
                    ip >= 2,
            ;
            assert(nn / (ip * l1) >= 0);
            assert(st.ido as int == nn / (ip * l1));
            assert(bwd_state(factors, nn, k).2 == if has_special_kernel(ip) || nn / (ip * l1) == 1 {
                1 - na
            } else {
                na
            });
        }
    }
    assert forall|k: int| 0 <= k < stages.len() implies #[trigger] stages[k].na == (if bwd_values_in_data(
        stages,
        k,
    ) {
        0usize
    } else {
        1usize
    }) by {
        lemma_bwd_state(factors, nn, k);
        assert(stages[k] == bwd_stage(factors, nn, k));
        assert(bwd_values_in_data(stages, k) == (bwd_state(factors, nn, k).2 == 0));
    }
    assert(bwd_values_in_data(stages, stages.len() as int) == (bwd_state(
        factors,
        nn,
        stages.len() as int,
    ).2 == 0));
}

/// Pass `k` of a forward plan, in the terms of the state before and after
/// it.
proof fn lemma_fwd_stage_fields(f: Seq<usize>, n: int, k: int)
    requires
        valid_factorization(f, n),
        0 <= k < f.len(),
        n <= usize::MAX,
    ensures
        fwd_stage(f, n, k).ip as int == f[f.len() - k - 1] as int,
        fwd_stage(f, n, k).ido as int == seq_product(f.skip(f.len() - k)),
        seq_product(f.skip(f.len() - k - 1)) == fwd_stage(f, n, k).ip * fwd_stage(f, n, k).ido,
        fwd_stage(f, n, k).l1 as int == fwd_state(f, n, k + 1).0,
        fwd_stage(f, n, k).l1 * fwd_stage(f, n, k).ip == fwd_state(f, n, k).0,
        fwd_stage(f, n, k).iw as int == fwd_state(f, n, k + 1).1,
        fwd_state(f, n, k + 1).1 == fwd_state(f, n, k).1 - (fwd_stage(f, n, k).ip - 1)
            * fwd_stage(f, n, k).ido,
        fwd_stage(f, n, k).l1 * fwd_stage(f, n, k).ip * fwd_stage(f, n, k).ido == n,
{
    let c = f.len() - k;
    lemma_fwd_state(f, n, k);
    lemma_fwd_state(f, n, k + 1);
    let (l2, iw, na) = fwd_state(f, n, k);
    let ip = f[c - 1] as int;
    let done = seq_product(f.skip(c));
    let head = seq_product(f.take(c - 1));
    assert(f.take(c).drop_last() =~= f.take(c - 1));
    assert(f.take(c).last() == f[c - 1]);
    assert(l2 == head * ip);
    assert(f.skip(c - 1) =~= seq![f[c - 1]] + f.skip(c));
    lemma_product_prepend(f[c - 1], f.skip(c));
    assert(ip >= 2);
    vstd::arithmetic::div_mod::lemma_div_by_multiple(head, ip);
    assert(l2 / ip == head);
    vstd::arithmetic::div_mod::lemma_div_multiples_vanish(done, l2);
    assert(n / l2 == done);
    assert(head >= 1);
    assert(head <= n && done <= n && l2 <= n) by (nonlinear_arith)
        requires
            l2 == head * ip,
            l2 * done == n,
            head >= 1,
            ip >= 2,
            done >= 1,
    ;
    assert(head * ip * done == n) by (nonlinear_arith)
        requires
            l2 == head * ip,
            l2 * done == n,
    ;
    assert(seq_product(f.skip(c - 1)) == ip * done) by (nonlinear_arith)
        requires
            seq_product(f.skip(c - 1)) == (f[c - 1] as int) * done,
            ip == f[c - 1] as int,
    ;
    assert(ip * done <= n) by (nonlinear_arith)
        requires
            head * ip * done == n,
            head >= 1,
            ip * done >= 0,
    ;
    assert((ip - 1) * done == ip * done - done) by (nonlinear_arith);
}

/// The passes of a forward plan run over the factors from the last to the
/// first: pass `k` has radix `factors[nf - 1 - k]`, `l1 * ip * ido == n`,
/// the first pass has `ido == 1`, each pass multiplies `ido` by its radix
/// for the next, the last pass has `l1 == 1`, and the twiddle factors of the
/// passes follow each other backwards from the end of the first `n` entries
/// of the workspace, each pass taking `(ip - 1) * ido` of them.
pub proof fn lemma_forward_plan_passes(n: usize, factors: Seq<usize>, plan: (Vec<FftStage>, bool))
    requires
        valid_factorization(factors, n as int),
        plan.0@.len() == factors.len(),
        forall|k: int| 0 <= k < factors.len() ==> #[trigger] plan.0@[k] == fwd_stage(factors, n as int, k),
    ensures
        forall|k: int|
            0 <= k < plan.0@.len() ==> #[trigger] plan.0@[k].ip == factors[factors.len() - 1 - k]
                && plan.0@[k].l1 * plan.0@[k].ip * plan.0@[k].ido == n,
        plan.0@.len() > 0 ==> plan.0@[0].ido == 1 && plan.0@[0].iw == n - (plan.0@[0].ip - 1)
            && plan.0@[plan.0@.len() - 1].l1 == 1,
        forall|k: int|
            0 <= k < plan.0@.len() - 1 ==> #[trigger] plan.0@[k + 1].ido == plan.0@[k].ido
                * plan.0@[k].ip && plan.0@[k].l1 == plan.0@[k + 1].l1 * plan.0@[k + 1].ip
                && plan.0@[k + 1].iw == plan.0@[k].iw - (plan.0@[k + 1].ip - 1) * plan.0@[k + 1].ido,
{
    let stages = plan.0@;
    let nn = n as int;
    let len = stages.len() as int;
    assert forall|k: int| 0 <= k < len implies #[trigger] stages[k].ip == factors[factors.len() - 1
        - k] && stages[k].l1 * stages[k].ip * stages[k].ido == n by {
        lemma_fwd_stage_fields(factors, nn, k);
    }
    if len > 0 {
        lemma_fwd_stage_fields(factors, nn, 0);
        lemma_fwd_stage_fields(factors, nn, len - 1);
        lemma_fwd_state(factors, nn, len);
        assert(stages[0] == fwd_stage(factors, nn, 0));
        assert(stages[len - 1] == fwd_stage(factors, nn, len - 1));
        assert(factors.skip(len) =~= Seq::<usize>::empty());
        assert(factors.take(0) =~= Seq::<usize>::empty());
        assert(fwd_state(factors, nn, 0) == (nn, nn, 1int));
    }
    assert forall|k: int| 0 <= k < len - 1 implies #[trigger] stages[k + 1].ido == stages[k].ido
        * stages[k].ip && stages[k].l1 == stages[k + 1].l1 * stages[k + 1].ip && stages[k + 1].iw
        == stages[k].iw - (stages[k + 1].ip - 1) * stages[k + 1].ido by {
        lemma_fwd_stage_fields(factors, nn, k);
        lemma_fwd_stage_fields(factors, nn, k + 1);
        assert(stages[k] == fwd_stage(factors, nn, k));
        assert(stages[k + 1] == fwd_stage(factors, nn, k + 1));
        assert(factors.len() - (k + 1) == factors.len() - k - 1);
        let a = stages[k].ip as int;
        let b = stages[k].ido as int;
        assert(a * b == b * a) by (nonlinear_arith);
    }
}

/// After the first `k` passes of a forward plan, whether the values sit in
/// the data array rather than in the scratch array.  They start in the data
/// array; a pass with a dedicated kernel writes the array it does not read
/// (`na == 1`: from the scratch array into the data array), and a pass with
/// the general kernel leaves its result in the data array exactly when it
/// runs with `na == 0`.
pub open spec fn fwd_values_in_data(stages: Seq<FftStage>, k: int) -> bool {
    if k <= 0 {
        true
    } else if has_special_kernel(stages[k - 1].ip as int) {
        stages[k - 1].na == 1
    } else {
        stages[k - 1].na == 0
    }
}

/// The forward state's `na` is 1 exactly when the values sit in the data
/// array after the first `k` passes.
proof fn lemma_fwd_state_in_data(stages: Seq<FftStage>, f: Seq<usize>, n: int, k: int)
    requires
        valid_factorization(f, n),
        stages.len() == f.len(),
        forall|j: int| 0 <= j < f.len() ==> #[trigger] stages[j] == fwd_stage(f, n, j),
        0 <= k <= f.len(),
    ensures
        fwd_values_in_data(stages, k) == (fwd_state(f, n, k).2 == 1),
{
    if k > 0 {
        lemma_fwd_state(f, n, k - 1);
        let st = stages[k - 1];
        assert(st == fwd_stage(f, n, k - 1));
        let (l2, iw, na) = fwd_state(f, n, k - 1);
        assert(f[f.len() - (k - 1) - 1] == f[f.len() - k]);
        assert(st.ip as int == f[f.len() - k] as int);
        assert(na == 0 || na == 1);
    }
}

/// The passes of a forward plan move the values between the data array and
/// the scratch array as the kernels do: a pass with radix 2, 3, 4 or 5 (and
/// a pass with the general kernel on an inner length above 1) reads the
/// array that holds the values (`na == 0` when they sit in the data array);
/// a general pass on an inner length of 1 runs with the other `na`; and the
/// result is copied back from the scratch array exactly when the last pass
/// left it there.
pub proof fn lemma_forward_plan_buffers(n: usize, factors: Seq<usize>, plan: (Vec<FftStage>, bool))
    requires
        valid_factorization(factors, n as int),
        plan.0@.len() == factors.len(),
        forall|k: int| 0 <= k < factors.len() ==> #[trigger] plan.0@[k] == fwd_stage(factors, n as int, k),
        plan.1 == (fwd_state(factors, n as int, factors.len() as int).2 != 1),
    ensures
        forall|k: int|
            0 <= k < plan.0@.len() && (has_special_kernel(plan.0@[k].ip as int) || plan.0@[k].ido
                != 1) ==> #[trigger] plan.0@[k].na == (if fwd_values_in_data(plan.0@, k) {
                0usize
            } else {
                1usize
            }),
        forall|k: int|
            0 <= k < plan.0@.len() && !has_special_kernel(plan.0@[k].ip as int) && plan.0@[k].ido
                == 1 ==> #[trigger] plan.0@[k].na == (if fwd_values_in_data(plan.0@, k) {
                1usize
            } else {
                0usize
            }),
        plan.1 == !fwd_values_in_data(plan.0@, plan.0@.len() as int),
{
    let stages = plan.0@;
    let nn = n as int;
    assert forall|k: int| 0 <= k < stages.len() implies (#[trigger] stages[k]).na == (if (
    has_special_kernel(stages[k].ip as int) || stages[k].ido != 1) == fwd_values_in_data(stages, k) {
        0usize
    } else {
        1usize
    }) by {
        lemma_fwd_state_in_data(stages, factors, nn, k);
        lemma_fwd_state(factors, nn, k);
        assert(stages[k] == fwd_stage(factors, nn, k));
    }
    lemma_fwd_state_in_data(stages, factors, nn, factors.len() as int);
}

/// Rearranges an `m x n` array stored by columns (`r[j * m + i]`) into rows
/// (`out[i * n + j]`).
pub fn unpack_col_major_to_rows<T: Copy>(m: usize, n: usize, r: &Vec<T>) -> (out: Vec<T>)
    requires
        r@.len() == m * n,
    ensures
        out@.len() == m * n,
        forall|i: int, j: int|
            0 <= i < m && 0 <= j < n ==> #[trigger] out@[i * n + j] == r@[j * m + i],
{
    transpose_flat(m, n, r)
}

/// Rearranges an `m x n` array stored by rows (`row_major[i * n + j]`) into
/// columns (`r[j * m + i]`).
pub fn pack_rows_to_col_major<T: Copy>(m: usize, n: usize, row_major: &Vec<T>) -> (r: Vec<T>)
    requires
        row_major@.len() == m * n,
    ensures
        r@.len() == m * n,
        forall|i: int, j: int|
            0 <= i < m && 0 <= j < n ==> #[trigger] r@[j * m + i] == row_major@[i * n + j],
{
    transpose_flat(n, m, row_major)
}

/// The transpose of a `b x a` array stored by rows: `out[i * b + j]` is
/// `src[j * a + i]`, for `i < a`, `j < b`.
pub fn transpose_flat<T: Copy>(a: usize, b: usize, src: &Vec<T>) -> (out: Vec<T>)
    requires
        src@.len() == a * b,
    ensures
        out@.len() == a * b,
        forall|i: int, j: int|
            0 <= i < a && 0 <= j < b ==> #[trigger] out@[i * b + j] == src@[j * a + i],
{
    let mut out: Vec<T> = Vec::new();
    let len = src.len();
    let mut i: usize = 0;
    while i < a
        invariant
            src@.len() == a * b,
            len == a * b,
            i <= a,
            out@.len() == i * b,
            forall|p: int, q: int|
                0 <= p < i && 0 <= q < b ==> #[trigger] out@[p * b + q] == src@[q * a + p],
        decreases a - i,
    {
        let mut j: usize = 0;
        while j < b
            invariant
                src@.len() == a * b,
                len == a * b,
                i < a,
                j <= b,
                out@.len() == i * b + j,
                forall|p: int, q: int|
                    0 <= p < i && 0 <= q < b ==> #[trigger] out@[p * b + q] == src@[q * a + p],
                forall|q: int| 0 <= q < j ==> #[trigger] out@[i * b + q] == src@[q * a + i],
            decreases b - j,
        {
            proof {
                lemma_flat_index_bound(b as int, a as int, j as int, i as int);
                assert(b * a == a * b) by (nonlinear_arith);
                assert(i * b + j < a * b) by {
                    lemma_flat_index_bound(a as int, b as int, i as int, j as int);
                }
            }
            let v = src[j * a + i];
            let ghost before = out@;
            out.push(v);
            proof {
                assert forall|p: int, q: int|
                    0 <= p < i && 0 <= q < b implies #[trigger] out@[p * b + q] == src@[q * a
                    + p] by {
                    lemma_flat_index_bound(i as int, b as int, p, q);
                    assert(p * b + q < i * b) by {
                        lemma_flat_index_bound(i as int, b as int, p, q);
                    }
                    assert(out@[p * b + q] == before[p * b + q]);
                }
            }
            j = j + 1;
        }
        proof {
            assert((i + 1) * b == i * b + b) by (nonlinear_arith);
        }
        i = i + 1;
    }
    out
}

/// Packing the rows of an array into columns undoes unpacking its columns
/// into rows.
pub proof fn lemma_pack_unpack_roundtrip<T>(m: int, n: int, r: Seq<T>, rows: Seq<T>, back: Seq<T>)
    requires
        r.len() == m * n,
        rows.len() == m * n,
        back.len() == m * n,
        m >= 0,
        n >= 0,
        forall|i: int, j: int| 0 <= i < m && 0 <= j < n ==> #[trigger] rows[i * n + j] == r[j * m + i],
        forall|i: int, j: int| 0 <= i < m && 0 <= j < n ==> #[trigger] back[j * m + i] == rows[i * n + j],
    ensures
        back == r,
{
    assert forall|k: int| 0 <= k < m * n implies #[trigger] back[k] == r[k] by {
        let j = k / m;
        let i = k % m;
        assert(m > 0) by (nonlinear_arith)
            requires
                0 <= k < m * n,
                n >= 0,
        ;
        lemma_fundamental_div_mod(k, m);
        lemma_mod_pos_bound(k, m);
        assert(m * j == j * m) by (nonlinear_arith);
        assert(k == j * m + i);
        assert(j < n) by (nonlinear_arith)
            requires
                k == j * m + i,
                k < m * n,
                0 <= i,
                m > 0,
        ;
        assert(j >= 0);
        assert(back[j * m + i] == rows[i * n + j]);
    }
    assert(back =~= r);
}

} // verus!
