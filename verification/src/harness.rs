//! Support for drivers that benchmark or exercise the consensus core:
//! iteration counts, flag parsing, and JSON string escaping.

use vstd::prelude::*;

verus! {

/// How many iterations a benchmark driver runs of each scenario.
pub struct BenchConfig {
    pub micro_create_iters: usize,
    pub micro_propose_iters: usize,
    pub cluster_runs: usize,
    pub cluster_commands: usize,
}

impl BenchConfig {
    /// The iteration counts used when no flag overrides them.
    pub fn default() -> (r: Self)
        ensures
            r.micro_create_iters == 10000,
            r.micro_propose_iters == 100000,
            r.cluster_runs == 5,
            r.cluster_commands == 100,
    {
        Self {
            micro_create_iters: 10_000,
            micro_propose_iters: 100_000,
            cluster_runs: 5,
            cluster_commands: 100,
        }
    }
}

/// `c` is a decimal digit.
pub open spec fn is_digit(c: char) -> bool {
    '0' <= c && c <= '9'
}

/// The numeric value of a decimal digit.
pub open spec fn digit_val(c: char) -> int {
    c as u32 - '0' as u32
}

/// Every character of `s` is a decimal digit.
pub open spec fn all_digits(s: Seq<char>) -> bool {
    forall|i: int| 0 <= i < s.len() ==> is_digit(#[trigger] s[i])
}

/// The value of `s` read as a decimal numeral.
pub open spec fn digits_val(s: Seq<char>) -> int
    decreases s.len(),
{
    if s.len() == 0 {
        0
    } else {
        digits_val(s.drop_last()) * 10 + digit_val(s.last())
    }
}

/// A numeral's value is non-negative, and no prefix of it exceeds it.
proof fn lemma_digits_val_prefix(s: Seq<char>, i: int)
    requires
        all_digits(s),
        0 <= i <= s.len(),
    ensures
        0 <= digits_val(s.subrange(0, i)),
        digits_val(s.subrange(0, i)) <= digits_val(s),
    decreases s.len() - i,
{
    if i == s.len() {
        assert(s.subrange(0, i) =~= s);
        lemma_digits_val_nonneg(s);
    } else {
        lemma_digits_val_prefix(s, i + 1);
        let t = s.subrange(0, i);
        let t1 = s.subrange(0, i + 1);
        assert(t1.drop_last() =~= t);
        assert(t1.last() == s[i]);
        lemma_digits_val_nonneg(t);
        assert(digits_val(t1) == digits_val(t) * 10 + digit_val(s[i]));
        assert(digits_val(t) <= digits_val(t) * 10) by (nonlinear_arith)
            requires
                digits_val(t) >= 0,
        ;
    }
}

/// A numeral's value is non-negative.
proof fn lemma_digits_val_nonneg(s: Seq<char>)
    requires
        all_digits(s),
    ensures
        digits_val(s) >= 0,
    decreases s.len(),
{
    if s.len() > 0 {
        assert(all_digits(s.drop_last())) by {
            assert(forall|i: int|
                0 <= i < s.len() - 1 ==> s.drop_last()[i] == #[trigger] s[i]);
        }
        lemma_digits_val_nonneg(s.drop_last());
        assert(is_digit(s.last()));
    }
}

/// Strips `prefix` from `arg` and reads the remainder as a decimal `usize`.
/// Returns the value exactly when `arg` starts with `prefix` and the
/// remainder is a non-empty, all-digit numeral whose value fits in `usize`;
/// returns nothing otherwise.
#[verifier::loop_isolation(false)]
#[verifier::rlimit(50)]
pub fn parse_usize_arg(arg: &str, prefix: &str) -> (r: Option<usize>)
    ensures
        ({
            let a = arg@;
            let p = prefix@;
            let matched = p.len() <= a.len() && a.subrange(0, p.len() as int) == p;
            let rest = a.subrange(p.len() as int, a.len() as int);
            match r {
                Some(v) => matched && rest.len() > 0 && all_digits(rest) && digits_val(rest)
                    == v,
                None => !matched || rest.len() == 0 || !all_digits(rest) || digits_val(rest)
                    > usize::MAX,
            }
        }),
{
    let plen = prefix.unicode_len();
    let alen = arg.unicode_len();
    if plen > alen {
        return None;
    }
    let mut i: usize = 0;
    while i < plen
        invariant
            i <= plen,
            forall|j: int| 0 <= j < i ==> arg@[j] == prefix@[j],
        decreases plen - i,
    {
        if arg.get_char(i) != prefix.get_char(i) {
            proof {
                assert(arg@.subrange(0, plen as int)[i as int] != prefix@[i as int]);
            }
            return None;
        }
        i = i + 1;
    }
    proof {
        assert(arg@.subrange(0, plen as int) =~= prefix@);
    }
    if plen == alen {
        return None;
    }
    let ghost rest = arg@.subrange(plen as int, alen as int);
    let mut v: usize = 0;
    let mut k: usize = plen;
    while k < alen
        invariant
            plen <= k <= alen,
            all_digits(arg@.subrange(plen as int, k as int)),
            v == digits_val(arg@.subrange(plen as int, k as int)),
        decreases alen - k,
    {
        let c = arg.get_char(k);
        if !(c >= '0' && c <= '9') {
            proof {
                assert(rest[k - plen] == c);
                assert(!all_digits(rest));
            }
            return None;
        }
        let d = (c as u32 - '0' as u32) as usize;
        proof {
            assert(arg@.subrange(plen as int, k + 1).drop_last() =~= arg@.subrange(
                plen as int,
                k as int,
            ));
            assert(arg@.subrange(plen as int, k + 1).last() == c);
        }
        if v > (usize::MAX - d) / 10 {
            proof {
                vstd::arithmetic::div_mod::lemma_fundamental_div_mod(
                    (usize::MAX - d) as int,
                    10,
                );
                assert(10 * v + d > usize::MAX) by (nonlinear_arith)
                    requires
                        v > ((usize::MAX - d) as int) / 10,
                        (usize::MAX - d) as int == 10 * (((usize::MAX - d) as int) / 10) + (
                        (usize::MAX - d) as int) % 10,
                        0 <= ((usize::MAX - d) as int) % 10 < 10,
                        0 <= d,
                ;
                if all_digits(rest) {
                    lemma_digits_val_prefix(rest, k + 1 - plen);
                    assert(arg@.subrange(plen as int, k + 1) =~= rest.subrange(0, k + 1 - plen));
                    assert(digits_val(rest) >= 10 * v + d);
                }
            }
            return None;
        }
        proof {
            assert(10 * v + d <= usize::MAX) by (nonlinear_arith)
                requires
                    v <= ((usize::MAX - d) as int) / 10,
                    ((usize::MAX - d) as int) / 10 * 10 <= (usize::MAX - d) as int,
                    0 <= d <= usize::MAX,
            ;
        }
        v = v * 10 + d;
        k = k + 1;
    }
    proof {
        assert(arg@.subrange(plen as int, alen as int) =~= rest);
    }
    Some(v)
}

/// The JSON escaping of one character: backslash and double quote gain a
/// backslash, everything else stands as itself.
pub open spec fn escape_char(c: char) -> Seq<char> {
    if c == '\\' {
        seq!['\\', '\\']
    } else if c == '"' {
        seq!['\\', '"']
    } else {
        seq![c]
    }
}

/// The JSON escaping of a whole string body.
pub open spec fn json_escape(s: Seq<char>) -> Seq<char>
    decreases s.len(),
{
    if s.len() == 0 {
        Seq::empty()
    } else {
        json_escape(s.drop_last()) + escape_char(s.last())
    }
}

/// A JSON string literal: the escaped body in double quotes.
pub open spec fn json_string(s: Seq<char>) -> Seq<char> {
    seq!['"'] + json_escape(s) + seq!['"']
}

/// Renders `value` as a JSON string literal: escapes every backslash and
/// double quote and wraps the result in double quotes.
#[verifier::loop_isolation(false)]
pub fn format_json_string(value: &str) -> (r: String)
    ensures
        r@ == json_string(value@),
{
    let mut out = String::new();
    out.append("\"");
    proof {
        reveal_strlit("\"");
        assert(out@ =~= seq!['"']);
    }
    let n = value.unicode_len();
    let mut i: usize = 0;
    while i < n
        invariant
            i <= n,
            n == value@.len(),
            out@ == seq!['"'] + json_escape(value@.subrange(0, i as int)),
        decreases n - i,
    {
        let c = value.get_char(i);
        if c == '\\' {
            out.append("\\\\");
            proof {
                reveal_strlit("\\\\");
            }
        } else if c == '"' {
            out.append("\\\"");
            proof {
                reveal_strlit("\\\"");
            }
        } else {
            let piece = value.substring_char(i, i + 1);
            out.append(piece);
            proof {
                assert(piece@ =~= seq![c]);
            }
        }
        proof {
            assert(value@.subrange(0, i + 1).drop_last() =~= value@.subrange(0, i as int));
            assert(value@.subrange(0, i + 1).last() == c);
            assert(out@ =~= seq!['"'] + json_escape(value@.subrange(0, i + 1)));
        }
        i = i + 1;
    }
    out.append("\"");
    proof {
        reveal_strlit("\"");
        assert(value@.subrange(0, n as int) =~= value@);
        assert(out@ =~= json_string(value@));
    }
    out
}

} // verus!
