//! Invocation settings: decimal option parsing, second/millisecond
//! scaling, the resolver configuration shared read-only by all
//! concurrent lookups of a pass, and inference of the output file name.

use vstd::prelude::*;

verus! {

/// An ASCII decimal digit.
pub open spec fn is_digit(c: char) -> bool {
    48 <= c as int <= 57
}

pub open spec fn all_digits(s: Seq<char>) -> bool {
    forall|i: int| 0 <= i < s.len() ==> is_digit(#[trigger] s[i])
}

/// The value of a digit sequence read as a decimal numeral.
pub open spec fn dec_val(s: Seq<char>) -> int
    decreases s.len(),
{
    if s.len() == 0 {
        0
    } else {
        dec_val(s.drop_last()) * 10 + (s.last() as int - 48)
    }
}

pub proof fn lemma_dec_val_nonneg(s: Seq<char>)
    requires
        all_digits(s),
    ensures
        dec_val(s) >= 0,
    decreases s.len(),
{
    if s.len() > 0 {
        assert(all_digits(s.drop_last())) by {
            assert(forall|i: int| 0 <= i < s.len() - 1 ==> s.drop_last()[i] == s[i]);
        }
        lemma_dec_val_nonneg(s.drop_last());
    }
}

pub proof fn lemma_dec_val_prefix(s: Seq<char>, i: int)
    requires
        all_digits(s),
        0 <= i <= s.len(),
    ensures
        dec_val(s.take(i)) <= dec_val(s),
    decreases s.len() - i,
{
    if i == s.len() {
        assert(s.take(i) =~= s);
    } else {
        assert(s.take(i + 1).drop_last() =~= s.take(i));
        assert(s.take(i + 1).last() == s[i]);
        assert(all_digits(s.take(i))) by {
            assert(forall|j: int| 0 <= j < i ==> s.take(i)[j] == s[j]);
        }
        lemma_dec_val_nonneg(s.take(i));
        assert(dec_val(s.take(i + 1)) >= dec_val(s.take(i)));
        lemma_dec_val_prefix(s, i + 1);
    }
}

/// What a string denotes as an unsigned 64-bit decimal: an optional
/// leading `+`, then at least one digit, the value fitting the type.
pub open spec fn spec_parse_u64(s: Seq<char>) -> Option<u64> {
    let t = if s.len() > 0 && s[0] == '+' {
        s.drop_first()
    } else {
        s
    };
    if t.len() > 0 && all_digits(t) && dec_val(t) <= u64::MAX {
        Option::Some(dec_val(t) as u64)
    } else {
        Option::None
    }
}

/// Reads a string as an unsigned 64-bit decimal.
pub fn parse_u64(s: &str) -> (r: Option<u64>)
    ensures
        r == spec_parse_u64(s@),
{
    let n = s.unicode_len();
    let start: usize = if n > 0 && s.get_char(0) == '+' {
        1
    } else {
        0
    };
    let ghost t = if s@.len() > 0 && s@[0] == '+' {
        s@.drop_first()
    } else {
        s@
    };
    proof {
        assert(t =~= s@.skip(start as int));
    }
    if start >= n {
        return Option::None;
    }
    let mut val: u64 = 0;
    let mut i: usize = start;
    proof {
        assert(t.take(0) =~= Seq::<char>::empty());
    }
    while i < n
        invariant
            start <= i <= n,
            n == s@.len(),
            t == s@.skip(start as int),
            start <= 1,
            t == (if s@.len() > 0 && s@[0] == '+' {
                s@.drop_first()
            } else {
                s@
            }),
            t.len() > 0,
            all_digits(t.take(i - start)),
            val == dec_val(t.take(i - start)),
        decreases n - i,
    {
        let c = s.get_char(i);
        let cu = c as u32;
        proof {
            assert(t[i - start] == s@[i as int]);
        }
        if cu < 48 || cu > 57 {
            proof {
                assert(!is_digit(t[i - start]));
                assert(!all_digits(t));
            }
            return Option::None;
        }
        let d = (cu - 48) as u64;
        proof {
            assert(t.take(i - start + 1).drop_last() =~= t.take(i - start));
            assert(t.take(i - start + 1).last() == t[i - start]);
            assert(all_digits(t.take(i - start + 1))) by {
                assert(forall|j: int|
                    0 <= j < i - start + 1 ==> t.take(i - start + 1)[j] == t[j]);
                assert(forall|j: int| 0 <= j < i - start ==> t.take(i - start)[j] == t[j]);
            }
        }
        if val > u64::MAX / 10 || (val == u64::MAX / 10 && d > u64::MAX % 10) {
            proof {
                lemma_dec_val_nonneg(t.take(i - start + 1));
                assert(dec_val(t.take(i - start + 1)) == val * 10 + (d as int));
                assert(dec_val(t.take(i - start + 1)) > u64::MAX);
                if all_digits(t) {
                    lemma_dec_val_prefix(t, i - start + 1);
                    assert(dec_val(t) > u64::MAX);
                }
            }
            return Option::None;
        }
        val = val * 10 + d;
        i = i + 1;
    }
    proof {
        assert(t.take(n - start) =~= t);
    }
    Option::Some(val)
}

/// What a string denotes as an unsigned machine-word decimal.
pub open spec fn spec_parse_usize(s: Seq<char>) -> Option<usize> {
    let t = if s.len() > 0 && s[0] == '+' {
        s.drop_first()
    } else {
        s
    };
    if t.len() > 0 && all_digits(t) && dec_val(t) <= usize::MAX {
        Option::Some(dec_val(t) as usize)
    } else {
        Option::None
    }
}

/// Reads a string as an unsigned machine-word decimal.
pub fn parse_usize(s: &str) -> (r: Option<usize>)
    ensures
        r == spec_parse_usize(s@),
{
    proof {
        let t = if s@.len() > 0 && s@[0] == '+' {
            s@.drop_first()
        } else {
            s@
        };
        if all_digits(t) {
            lemma_dec_val_nonneg(t);
        }
        assert(usize::MAX <= u64::MAX);
    }
    match parse_u64(s) {
        Option::Some(v) => {
            if v <= usize::MAX as u64 {
                Option::Some(v as usize)
            } else {
                Option::None
            }
        },
        Option::None => Option::None,
    }
}

/// The number of retry attempts an optional option string denotes: one
/// when absent, zero when unparsable.
pub open spec fn spec_attempts(arg: Option<Seq<char>>) -> usize {
    match arg {
        Option::Some(s) => match spec_parse_usize(s) {
            Option::Some(v) => v,
            Option::None => 0,
        },
        Option::None => 1,
    }
}

/// Reads the retry-attempt option.
pub fn attempts_setting(arg: Option<&String>) -> (r: usize)
    ensures
        r == spec_attempts(match arg {
            Option::Some(s) => Option::Some(s@),
            Option::None => Option::None,
        }),
{
    match arg {
        Option::Some(s) => match parse_usize(s.as_str()) {
            Option::Some(v) => v,
            Option::None => 0,
        },
        Option::None => 1,
    }
}

/// The `ndots` threshold an optional option string denotes: zero when
/// absent or unparsable.
pub open spec fn spec_ndots(arg: Option<Seq<char>>) -> usize {
    match arg {
        Option::Some(s) => match spec_parse_usize(s) {
            Option::Some(v) => v,
            Option::None => 0,
        },
        Option::None => 0,
    }
}

/// Reads the `ndots` option.
pub fn ndots_setting(arg: Option<&String>) -> (r: usize)
    ensures
        r == spec_ndots(match arg {
            Option::Some(s) => Option::Some(s@),
            Option::None => Option::None,
        }),
{
    match arg {
        Option::Some(s) => match parse_usize(s.as_str()) {
            Option::Some(v) => v,
            Option::None => 0,
        },
        Option::None => 0,
    }
}

/// A duration option in milliseconds: taken as given when times are
/// expressed in milliseconds, otherwise scaled from seconds; `None`
/// when the scaling would not fit.
pub open spec fn spec_scaled_millis(v: u64, use_millis: bool) -> Option<u64> {
    if use_millis {
        Option::Some(v)
    } else if v * 1000 <= u64::MAX {
        Option::Some((v * 1000) as u64)
    } else {
        Option::None
    }
}

/// Scales a duration option to milliseconds.
pub fn scaled_millis(v: u64, use_millis: bool) -> (r: Option<u64>)
    ensures
        r == spec_scaled_millis(v, use_millis),
{
    if use_millis {
        Option::Some(v)
    } else if v <= u64::MAX / 1000 {
        Option::Some(v * 1000)
    } else {
        Option::None
    }
}

/// The forward- and reverse-lookup policy of one invocation, shared
/// read-only by every concurrent lookup of a resolution pass.
#[derive(Clone, Copy, PartialEq, Eq, Structural, Debug)]
pub struct ResolverConfig {
    /// Timeout of one lookup attempt, in milliseconds.
    pub timeout_millis: u64,
    /// How many times a lookup is attempted.
    pub attempts: usize,
    /// Number of dots before an initial absolute query is made.
    pub ndots: usize,
    /// Whether recursive queries are requested.
    pub recurse: bool,
}

impl ResolverConfig {
    /// Builds the lookup policy from the already-scaled timeout and the
    /// raw option strings.
    pub fn from_options(
        timeout_millis: u64,
        attempts_arg: Option<&String>,
        ndots_arg: Option<&String>,
        recurse: bool,
    ) -> (r: ResolverConfig)
        ensures
            r.timeout_millis == timeout_millis,
            r.attempts == spec_attempts(match attempts_arg {
                Option::Some(s) => Option::Some(s@),
                Option::None => Option::None,
            }),
            r.ndots == spec_ndots(match ndots_arg {
                Option::Some(s) => Option::Some(s@),
                Option::None => Option::None,
            }),
            r.recurse == recurse,
    {
        ResolverConfig {
            timeout_millis,
            attempts: attempts_setting(attempts_arg),
            ndots: ndots_setting(ndots_arg),
            recurse,
        }
    }
}

/// The output file name inferred from the template file name: a
/// trailing `.hbs` is removed, otherwise `.out` is appended.
pub open spec fn spec_inferred_output(name: Seq<char>) -> Seq<char> {
    if name.len() >= 4 && name.skip(name.len() - 4) == ".hbs"@ {
        name.take(name.len() - 4)
    } else {
        name + ".out"@
    }
}

/// Infers the output file name from the template file name.
pub fn inferred_output(name: &str) -> (r: String)
    ensures
        r@ == spec_inferred_output(name@),
{
    proof {
        reveal_strlit(".hbs");
        reveal_strlit(".out");
    }
    let n = name.unicode_len();
    if n >= 4 {
        let ends_hbs = name.get_char(n - 4) == '.' && name.get_char(n - 3) == 'h'
            && name.get_char(n - 2) == 'b' && name.get_char(n - 1) == 's';
        if ends_hbs {
            proof {
                assert(name@.skip(n - 4) =~= ".hbs"@);
            }
            let head = name.substring_char(0, n - 4);
            return head.to_owned();
        }
        proof {
            assert(name@.skip(n - 4) != ".hbs"@) by {
                if name@.skip(n - 4) == ".hbs"@ {
                    assert(name@.skip(n - 4)[0] == name@[n - 4]);
                    assert(name@.skip(n - 4)[1] == name@[n - 3]);
                    assert(name@.skip(n - 4)[2] == name@[n - 2]);
                    assert(name@.skip(n - 4)[3] == name@[n - 1]);
                }
            }
        }
    }
    let mut out = name.to_owned();
    out.append(".out");
    out
}

} // verus!
