//! What a crawl is started with: the seed URL and the request budget.

use crate::urls::{parsed_url, Url};
use vstd::prelude::*;
use vstd::utf8::{is_ascii_chars, is_ascii_chars_encode_utf8};

verus! {

/// The budget of a crawl that names none.
pub const DEFAULT_BUDGET: usize = 10;

/// How many reports may wait for the orchestrator before a worker has to.
pub const REPORT_QUEUE_CAPACITY: usize = 1024;

/// Why a crawl cannot start.
#[derive(Debug, Clone, Copy, PartialEq, Eq, Structural)]
pub enum StartupError {
    /// No seed URL was given.
    MissingSeed,
    /// The budget is not a non-negative decimal number that fits the machine.
    BadBudget,
    /// The seed is not an absolute URL.
    BadSeed,
}

/// The seed and the budget of a crawl.
#[derive(Debug)]
pub struct Startup {
    pub seed: Url,
    pub budget: usize,
}

pub open spec fn is_digit(c: char) -> bool {
    '0' <= c && c <= '9'
}

pub open spec fn digit_value(c: char) -> nat {
    (c as u32 - '0' as u32) as nat
}

/// The number that a string of decimal digits writes.
pub open spec fn numeral_value(digits: Seq<char>) -> nat
    decreases digits.len(),
{
    if digits.len() == 0 {
        0
    } else {
        numeral_value(digits.drop_last()) * 10 + digit_value(digits.last())
    }
}

/// One decimal digit or more, and nothing else.
pub open spec fn is_numeral(digits: Seq<char>) -> bool {
    digits.len() > 0 && forall|i: int| 0 <= i < digits.len() ==> is_digit(#[trigger] digits[i])
}

/// The string without a leading plus sign.
pub open spec fn unsigned_part(s: Seq<char>) -> Seq<char> {
    if s.len() > 0 && s[0] == '+' {
        s.drop_first()
    } else {
        s
    }
}

/// The budget that a command-line argument names: a decimal number, with or
/// without a plus sign in front, that fits in `usize`.
pub open spec fn budget_of(s: Seq<char>) -> Option<usize> {
    let digits = unsigned_part(s);
    if is_numeral(digits) && numeral_value(digits) <= usize::MAX {
        Some(numeral_value(digits) as usize)
    } else {
        None
    }
}

/// The first digits of a numeral write a number no larger than the whole.
proof fn lemma_numeral_prefix(digits: Seq<char>, k: int)
    requires
        0 <= k <= digits.len(),
    ensures
        numeral_value(digits.take(k)) <= numeral_value(digits),
    decreases digits.len(),
{
    if k == digits.len() {
        assert(digits.take(k) =~= digits);
    } else {
        assert(digits.drop_last().take(k) =~= digits.take(k));
        lemma_numeral_prefix(digits.drop_last(), k);
    }
}

/// Reads the budget from its command-line argument.
pub fn parse_budget(arg: &str) -> (res: Result<usize, StartupError>)
    ensures
        match budget_of(arg@) {
            Some(n) => res == Ok::<usize, StartupError>(n),
            None => res == Err::<usize, StartupError>(StartupError::BadBudget),
        },
{
    let ghost digits = unsigned_part(arg@);
    if !arg.is_ascii() {
        proof {
            let i = choose|i: int| 0 <= i < arg@.len() && !('\0' <= #[trigger] arg@[i] <= '\u{7f}');
            if arg@[0] == '+' {
                assert(digits[i - 1] == arg@[i]);
            } else {
                assert(digits[i] == arg@[i]);
            }
        }
        return Err(StartupError::BadBudget);
    }
    let bytes = arg.as_bytes();
    proof {
        is_ascii_chars_encode_utf8(arg@);
    }
    let n = bytes.len();
    let start: usize = if n > 0 && bytes[0] == 43 {
        1
    } else {
        0
    };
    assert(digits =~= arg@.subrange(start as int, n as int));
    if start == n {
        return Err(StartupError::BadBudget);
    }
    let mut acc: usize = 0;
    let mut i: usize = start;
    while i < n
        invariant
            start <= i <= n,
            n == arg@.len(),
            n == bytes@.len(),
            digits == unsigned_part(arg@),
            digits == arg@.subrange(start as int, n as int),
            is_ascii_chars(arg@),
            forall|j: int| 0 <= j < n ==> arg@[j] as u8 == #[trigger] bytes@[j],
            forall|j: int| 0 <= j < i - start ==> is_digit(#[trigger] digits[j]),
            acc == numeral_value(digits.take(i - start)),
        decreases n - i,
    {
        let b = bytes[i];
        let ghost c = arg@[i as int];
        assert(digits[i - start] == c);
        if b < 48 || b > 57 {
            return Err(StartupError::BadBudget);
        }
        let d = (b - 48) as usize;
        assert(digits.take(i - start + 1).drop_last() =~= digits.take(i - start));
        assert(numeral_value(digits.take(i - start + 1)) == acc * 10 + d);
        proof {
            lemma_numeral_prefix(digits, i - start + 1);
        }
        match acc.checked_mul(10) {
            None => {
                return Err(StartupError::BadBudget);
            },
            Some(tens) => match tens.checked_add(d) {
                None => {
                    return Err(StartupError::BadBudget);
                },
                Some(sum) => {
                    acc = sum;
                },
            },
        }
        i += 1;
    }
    assert(digits.take(n - start) =~= digits);
    Ok(acc)
}

impl Startup {
    /// Reads the command line: the seed URL, which has to be there and has to
    /// be absolute, and the budget, which may be left out.
    pub fn from_args(seed: Option<&str>, budget: Option<&str>) -> (res: Result<
        Startup,
        StartupError,
    >)
        ensures
            match seed {
                None => res == Err::<Startup, StartupError>(StartupError::MissingSeed),
                Some(raw) => {
                    if budget is Some && budget_of(budget->Some_0@) is None {
                        res == Err::<Startup, StartupError>(StartupError::BadBudget)
                    } else if parsed_url(raw@) is None {
                        res == Err::<Startup, StartupError>(StartupError::BadSeed)
                    } else {
                        &&& res is Ok
                        &&& Some(res->Ok_0.seed@) == parsed_url(raw@)
                        &&& res->Ok_0.budget == match budget {
                            Some(arg) => budget_of(arg@)->Some_0,
                            None => DEFAULT_BUDGET,
                        }
                    }
                },
            },
    {
        let raw = match seed {
            Some(raw) => raw,
            None => {
                return Err(StartupError::MissingSeed);
            },
        };
        let budget = match budget {
            Some(arg) => match parse_budget(arg) {
                Ok(n) => n,
                Err(e) => {
                    return Err(e);
                },
            },
            None => DEFAULT_BUDGET,
        };
        match Url::parse(raw) {
            Ok(seed) => Ok(Startup { seed, budget }),
            Err(_) => Err(StartupError::BadSeed),
        }
    }
}

} // verus!
