//! Classification of a process's command-line arguments.
//!
//! Every worker is this same executable re-invoked with `--app=<id>` plus
//! the two handle-passing flags `--tx=<raw>` and `--rx=<raw>`; the
//! supervisor is the executable with `--orchestrator` plus the same two
//! flags — the only way a freshly started process learns its pipe
//! endpoints. The classification of each argument is verified here;
//! turning a raw handle's digits into a live pipe endpoint is platform
//! glue and stays with the caller.

use vstd::prelude::*;
use vstd::string::StrSliceExecFns;
use crate::key_value::{
    all_digits, char_digit, char_digit_exec, digits_val, lemma_digits_val_nonneg,
    lemma_digits_val_prefix,
};

verus! {

/// What one command-line argument means.
#[derive(Debug, Clone)]
pub enum CliArg {
    /// `--orchestrator`: run the supervisor loop.
    Orchestrator,
    /// `--app=<id>`: run a worker for this application id.
    AppId(u32),
    /// `--app=` with anything but an in-range number: a startup error.
    InvalidApp,
    /// `--tx=<raw>`: the raw value of this process's send handle.
    TxHandle(String),
    /// `--rx=<raw>`: the raw value of this process's receive handle.
    RxHandle(String),
    /// Anything else is not this program's business and is ignored.
    Other,
}

/// `t` is letter-for-letter the front of `s`.
pub open spec fn starts_with(s: Seq<char>, t: Seq<char>) -> bool {
    s.len() >= t.len() && s.subrange(0, t.len() as int) == t
}

/// What `str::parse::<u32>` accepts and returns: an optional plus sign,
/// then one or more decimal digits, valued within the type's range;
/// anything else — empty, stray characters, overflow — is no number.
pub open spec fn spec_parse_u32(s: Seq<char>) -> Option<u32> {
    let body = if s.len() >= 1 && s[0] == '+' {
        s.drop_first()
    } else {
        s
    };
    if body.len() == 0 || !all_digits(body) || digits_val(body) > 0xFFFF_FFFF {
        None
    } else {
        Some(digits_val(body) as u32)
    }
}

/// Parses decimal text as `str::parse::<u32>` does.
pub fn parse_u32_str(s: &str) -> (r: Option<u32>)
    ensures
        r == spec_parse_u32(s@),
{
    let n: usize = s.unicode_len();
    if n == 0 {
        return None;
    }
    let c0: char = s.get_char(0);
    let mut idx: usize = 0;
    if c0 == '+' {
        idx = 1;
    }
    if idx >= n {
        return None;
    }
    let ghost body: Seq<char> = if s@[0] == '+' {
        s@.drop_first()
    } else {
        s@
    };
    proof {
        assert(body =~= s@.subrange(idx as int, n as int));
    }
    let mut acc: u64 = 0;
    let mut j: usize = idx;
    while j < n
        invariant
            0 <= idx <= j <= n,
            idx <= 1,
            1 <= n == s@.len(),
            (idx == 1) <==> (s@[0] == '+'),
            body == s@.subrange(idx as int, n as int),
            all_digits(s@.subrange(idx as int, j as int)),
            acc as int == digits_val(s@.subrange(idx as int, j as int)),
            acc <= 0xFFFF_FFFF,
        decreases n - j,
    {
        let c: char = s.get_char(j);
        let d: u8 = match char_digit_exec(c) {
            Some(d) => d,
            None => {
                proof {
                    assert(body[j - idx] == s@[j as int]);
                    assert(!all_digits(body));
                }
                return None;
            },
        };
        let next: u64 = acc * 10 + (d as u64);
        proof {
            let p = s@.subrange(idx as int, j + 1);
            assert(p.drop_last() =~= s@.subrange(idx as int, j as int));
            assert(p.last() == s@[j as int]);
            assert(digits_val(p) == next);
            assert(all_digits(p)) by {
                assert forall|t: int| 0 <= t < p.len() implies char_digit(#[trigger] p[t])
                    is Some by {
                    if t < p.len() - 1 {
                        assert(p[t] == s@.subrange(idx as int, j as int)[t]);
                    }
                }
            };
            if next > 0xFFFF_FFFF {
                let sbody = if s@.len() >= 1 && s@[0] == '+' {
                    s@.drop_first()
                } else {
                    s@
                };
                assert(sbody == body);
                if all_digits(body) {
                    assert(p =~= body.subrange(0, j + 1 - idx));
                    lemma_digits_val_prefix(body, j + 1 - idx);
                    lemma_digits_val_nonneg(body);
                    assert(digits_val(body) >= digits_val(p));
                    assert(digits_val(sbody) > 0xFFFF_FFFF);
                    assert(spec_parse_u32(s@) is None);
                } else {
                    assert(spec_parse_u32(s@) is None);
                }
            }
        }
        if next > 0xFFFF_FFFF {
            return None;
        }
        acc = next;
        j = j + 1;
    }
    proof {
        assert(s@.subrange(idx as int, j as int) =~= body);
        lemma_digits_val_nonneg(body);
    }
    Some(acc as u32)
}

/// Whether `prefix` opens `s`, letter for letter.
fn starts_with_str(s: &str, prefix: &str) -> (r: bool)
    ensures
        r == starts_with(s@, prefix@),
{
    let n: usize = s.unicode_len();
    let m: usize = prefix.unicode_len();
    if n < m {
        return false;
    }
    let mut i: usize = 0;
    while i < m
        invariant
            0 <= i <= m <= n,
            n == s@.len(),
            m == prefix@.len(),
            forall|k: int| 0 <= k < i ==> s@[k] == prefix@[k],
        decreases m - i,
    {
        if s.get_char(i) != prefix.get_char(i) {
            proof {
                assert(s@.subrange(0, m as int)[i as int] == s@[i as int]);
            }
            return false;
        }
        i = i + 1;
    }
    proof {
        assert(s@.subrange(0, m as int) =~= prefix@);
    }
    true
}

/// Whether the two texts are the same, letter for letter.
fn equals_str(s: &str, t: &str) -> (r: bool)
    ensures
        r == (s@ == t@),
{
    let n: usize = s.unicode_len();
    let m: usize = t.unicode_len();
    if n != m {
        return false;
    }
    let r = starts_with_str(s, t);
    proof {
        if starts_with(s@, t@) {
            assert(s@ =~= t@);
        } else {
            if s@ == t@ {
                assert(s@.subrange(0, m as int) =~= t@);
            }
        }
    }
    r
}

/// Classifies one command-line argument, trying the role flag, the
/// application flag and the two handle flags in turn.
pub fn classify_argument(s: &str) -> (r: CliArg)
    ensures
        s@ == "--orchestrator"@ ==> r is Orchestrator,
        s@ != "--orchestrator"@ && starts_with(s@, "--app="@) ==> (match spec_parse_u32(
            s@.skip(6),
        ) {
            Some(v) => r == CliArg::AppId(v),
            None => r is InvalidApp,
        }),
        s@ != "--orchestrator"@ && !starts_with(s@, "--app="@) && starts_with(s@, "--tx="@)
            ==> r is TxHandle && r.arrow_TxHandle_0()@ == s@.skip(5),
        s@ != "--orchestrator"@ && !starts_with(s@, "--app="@) && !starts_with(s@, "--tx="@)
            && starts_with(s@, "--rx="@) ==> r is RxHandle && r.arrow_RxHandle_0()@ == s@.skip(5),
        s@ != "--orchestrator"@ && !starts_with(s@, "--app="@) && !starts_with(s@, "--tx="@)
            && !starts_with(s@, "--rx="@) ==> r is Other,
{
    proof {
        reveal_strlit("--orchestrator");
        reveal_strlit("--app=");
        reveal_strlit("--tx=");
        reveal_strlit("--rx=");
    }
    if equals_str(s, "--orchestrator") {
        CliArg::Orchestrator
    } else if starts_with_str(s, "--app=") {
        let n: usize = s.unicode_len();
        let rest: &str = s.substring_char(6, n);
        proof {
            assert(rest@ =~= s@.skip(6));
        }
        match parse_u32_str(rest) {
            Some(v) => CliArg::AppId(v),
            None => CliArg::InvalidApp,
        }
    } else if starts_with_str(s, "--tx=") {
        let n: usize = s.unicode_len();
        let rest: &str = s.substring_char(5, n);
        proof {
            assert(rest@ =~= s@.skip(5));
        }
        CliArg::TxHandle(rest.to_owned())
    } else if starts_with_str(s, "--rx=") {
        let n: usize = s.unicode_len();
        let rest: &str = s.substring_char(5, n);
        proof {
            assert(rest@ =~= s@.skip(5));
        }
        CliArg::RxHandle(rest.to_owned())
    } else {
        CliArg::Other
    }
}

} // verus!
