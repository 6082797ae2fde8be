//! Command-line argument parsing for the metrics tool.
//!
//! Arguments come as `--test <path>`, `--scores <path>`, `--positive <label>`
//! and `--help`, in any order; a repeated flag keeps its last value, an
//! unknown token refuses the whole line, and a line with no flags at all is
//! refused too.

use vstd::prelude::*;
use vstd::string::StringExecFns;

verus! {

/// The recognised flags and their values after a successful parse.
pub struct ParsedArgs {
    pub test: Option<String>,
    pub scores: Option<String>,
    pub positive: Option<String>,
    pub help: bool,
}

/// Whether `a` is one of the three flags that take a value.
pub open spec fn is_pair_flag(a: Seq<char>) -> bool {
    a == "--test"@ || a == "--scores"@ || a == "--positive"@
}

/// A parse starting at position `k` never reads past the end: every flag
/// that takes a value has one.
pub open spec fn args_no_panic(args: Seq<String>, k: int) -> bool
    decreases args.len() - k,
{
    if k >= args.len() {
        true
    } else if is_pair_flag(args[k]@) {
        k + 1 < args.len() && args_no_panic(args, k + 2)
    } else if args[k]@ == "--help"@ {
        args_no_panic(args, k + 1)
    } else {
        true
    }
}

/// A parse starting at position `k` runs to the end of the arguments:
/// every token in flag position is a recognised flag, and every flag that
/// takes a value has one.
pub open spec fn args_success(args: Seq<String>, k: int) -> bool
    decreases args.len() - k,
{
    if k >= args.len() {
        true
    } else if is_pair_flag(args[k]@) {
        k + 1 < args.len() && args_success(args, k + 2)
    } else if args[k]@ == "--help"@ {
        args_success(args, k + 1)
    } else {
        false
    }
}

/// The value that the parse starting at position `k` leaves for `flag`:
/// the value after the last occurrence of `flag` in flag position, or
/// nothing when it never occurs there.
pub open spec fn spec_flag_value(args: Seq<String>, k: int, flag: Seq<char>) -> Option<Seq<char>>
    decreases args.len() - k,
{
    if k >= args.len() {
        None
    } else if is_pair_flag(args[k]@) {
        if k + 1 < args.len() {
            let rest = spec_flag_value(args, k + 2, flag);
            if args[k]@ == flag && rest is None {
                Some(args[k + 1]@)
            } else {
                rest
            }
        } else {
            None
        }
    } else if args[k]@ == "--help"@ {
        spec_flag_value(args, k + 1, flag)
    } else {
        None
    }
}

/// Whether the parse starting at position `k` meets `--help` in flag
/// position.
pub open spec fn spec_help(args: Seq<String>, k: int) -> bool
    decreases args.len() - k,
{
    if k >= args.len() {
        false
    } else if is_pair_flag(args[k]@) {
        k + 1 < args.len() && spec_help(args, k + 2)
    } else if args[k]@ == "--help"@ {
        true
    } else {
        false
    }
}

/// The view of an optional owned string.
pub open spec fn opt_view(o: Option<String>) -> Option<Seq<char>> {
    match o {
        Some(s) => Some(s@),
        None => None,
    }
}

/// Parses the command line, skipping the program name at position 0.  Flags
/// may come in any order and a repeated flag keeps its last value; an
/// unknown token, or a line with no flags at all, yields nothing.  A flag
/// that takes a value must have one: the caller rules dangling flags out
/// before the call.
pub fn parse_args(args: &Vec<String>) -> (r: Option<ParsedArgs>)
    requires
        args_no_panic(args@, 1),
    ensures
        match r {
            Some(p) => {
                &&& args@.len() > 1
                &&& args_success(args@, 1)
                &&& opt_view(p.test) == spec_flag_value(args@, 1, "--test"@)
                &&& opt_view(p.scores) == spec_flag_value(args@, 1, "--scores"@)
                &&& opt_view(p.positive) == spec_flag_value(args@, 1, "--positive"@)
                &&& p.help == spec_help(args@, 1)
            },
            None => args@.len() <= 1 || !args_success(args@, 1),
        },
{
    let flag_test = String::from_str("--test");
    let flag_scores = String::from_str("--scores");
    let flag_positive = String::from_str("--positive");
    let flag_help = String::from_str("--help");
    let n = args.len();
    let mut test: Option<String> = None;
    let mut scores: Option<String> = None;
    let mut positive: Option<String> = None;
    let mut help: bool = false;
    let mut k: usize = 1;
    while k < n
        invariant
            1 <= k,
            n == args@.len(),
            flag_test@ == "--test"@,
            flag_scores@ == "--scores"@,
            flag_positive@ == "--positive"@,
            flag_help@ == "--help"@,
            args_no_panic(args@, 1),
            args_no_panic(args@, k as int),
            args_success(args@, 1) == args_success(args@, k as int),
            spec_flag_value(args@, 1, "--test"@) == (if spec_flag_value(
                args@,
                k as int,
                "--test"@,
            ) is Some {
                spec_flag_value(args@, k as int, "--test"@)
            } else {
                opt_view(test)
            }),
            spec_flag_value(args@, 1, "--scores"@) == (if spec_flag_value(
                args@,
                k as int,
                "--scores"@,
            ) is Some {
                spec_flag_value(args@, k as int, "--scores"@)
            } else {
                opt_view(scores)
            }),
            spec_flag_value(args@, 1, "--positive"@) == (if spec_flag_value(
                args@,
                k as int,
                "--positive"@,
            ) is Some {
                spec_flag_value(args@, k as int, "--positive"@)
            } else {
                opt_view(positive)
            }),
            spec_help(args@, 1) == (help || spec_help(args@, k as int)),
        decreases n - k,
    {
        proof {
            reveal_strlit("--test");
            reveal_strlit("--scores");
            reveal_strlit("--positive");
            reveal_strlit("--help");
            assert("--test"@.len() == 6 && "--scores"@.len() == 8 && "--positive"@.len() == 10
                && "--help"@.len() == 6);
            assert("--test"@ != "--scores"@);
            assert("--test"@ != "--positive"@);
            assert("--test"@[2] != "--help"@[2] && "--test"@ != "--help"@);
            assert("--scores"@ != "--positive"@);
            assert("--scores"@ != "--help"@);
            assert("--positive"@ != "--help"@);
        }
        let is_test = args[k] == flag_test;
        let is_scores = args[k] == flag_scores;
        let is_positive = args[k] == flag_positive;
        if is_test || is_scores || is_positive {
            if is_test {
                test = Some(args[k + 1].clone());
            } else if is_scores {
                scores = Some(args[k + 1].clone());
            } else {
                positive = Some(args[k + 1].clone());
            }
            proof {
                let kk = k as int;
                if is_test {
                    assert(opt_view(test) == Some(args@[kk + 1]@));
                    assert(spec_flag_value(args@, kk, "--test"@) == (if spec_flag_value(
                        args@,
                        kk + 2,
                        "--test"@,
                    ) is None {
                        Some(args@[kk + 1]@)
                    } else {
                        spec_flag_value(args@, kk + 2, "--test"@)
                    }));
                } else {
                    assert(spec_flag_value(args@, kk, "--test"@) == spec_flag_value(
                        args@,
                        kk + 2,
                        "--test"@,
                    ));
                }
                if is_scores {
                    assert(opt_view(scores) == Some(args@[kk + 1]@));
                    assert(spec_flag_value(args@, kk, "--scores"@) == (if spec_flag_value(
                        args@,
                        kk + 2,
                        "--scores"@,
                    ) is None {
                        Some(args@[kk + 1]@)
                    } else {
                        spec_flag_value(args@, kk + 2, "--scores"@)
                    }));
                } else {
                    assert(spec_flag_value(args@, kk, "--scores"@) == spec_flag_value(
                        args@,
                        kk + 2,
                        "--scores"@,
                    ));
                }
                if is_positive {
                    assert(opt_view(positive) == Some(args@[kk + 1]@));
                    assert(spec_flag_value(args@, kk, "--positive"@) == (if spec_flag_value(
                        args@,
                        kk + 2,
                        "--positive"@,
                    ) is None {
                        Some(args@[kk + 1]@)
                    } else {
                        spec_flag_value(args@, kk + 2, "--positive"@)
                    }));
                } else {
                    assert(spec_flag_value(args@, kk, "--positive"@) == spec_flag_value(
                        args@,
                        kk + 2,
                        "--positive"@,
                    ));
                }
            }
            k = k + 2;
        } else if args[k] == flag_help {
            help = true;
            k = k + 1;
        } else {
            return None;
        }
    }
    if n <= 1 {
        None
    } else {
        Some(ParsedArgs { test, scores, positive, help })
    }
}

} // verus!
