use vstd::prelude::*;

verus! {

pub open spec fn pow2(n: nat) -> nat
    decreases n,
{
    if n == 0 {
        1
    } else {
        2 * pow2((n - 1) as nat)
    }
}

/// The wait before retry number `attempt` (counted from zero): `base_ms`
/// doubled once per earlier attempt, never more than `cap_ms`.
pub open spec fn backoff_spec(base_ms: u64, attempt: u32, cap_ms: u64) -> u64 {
    if base_ms * pow2(attempt as nat) <= cap_ms {
        (base_ms * pow2(attempt as nat)) as u64
    } else {
        cap_ms
    }
}

proof fn lemma_pow2_grows(a: nat, b: nat)
    requires
        a <= b,
    ensures
        pow2(a) <= pow2(b),
        pow2(b) >= 1,
    decreases b,
{
    if b > 0 {
        if a < b {
            lemma_pow2_grows(a, (b - 1) as nat);
        } else {
            lemma_pow2_grows(0, (b - 1) as nat);
        }
    }
}

pub fn backoff_delay(base_ms: u64, attempt: u32, cap_ms: u64) -> (r: u64)
    ensures
        r == backoff_spec(base_ms, attempt, cap_ms),
        r <= cap_ms,
{
    let mut d: u64 = base_ms;
    let mut i: u32 = 0;
    assert(pow2(0) == 1);
    assert(base_ms * pow2(0) == base_ms);
    while i < attempt
        invariant
            i <= attempt,
            d == base_ms * pow2(i as nat),
            d <= cap_ms || i == 0,
        decreases attempt - i,
    {
        if d > cap_ms / 2 {
            proof {
                lemma_pow2_grows((i + 1) as nat, attempt as nat);
                assert(base_ms * pow2((i + 1) as nat) == 2 * d) by (nonlinear_arith)
                    requires
                        pow2((i + 1) as nat) == 2 * pow2(i as nat),
                        d == base_ms * pow2(i as nat),
                ;
                assert(base_ms * pow2((i + 1) as nat) <= base_ms * pow2(attempt as nat))
                    by (nonlinear_arith)
                    requires
                        pow2((i + 1) as nat) <= pow2(attempt as nat),
                ;
            }
            return cap_ms;
        }
        proof {
            assert(base_ms * pow2((i + 1) as nat) == 2 * d) by (nonlinear_arith)
                requires
                    pow2((i + 1) as nat) == 2 * pow2(i as nat),
                    d == base_ms * pow2(i as nat),
            ;
        }
        d = d * 2;
        i = i + 1;
    }
    if d > cap_ms {
        cap_ms
    } else {
        d
    }
}

} // verus!
