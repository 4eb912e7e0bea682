//! Rewriting of the forwarded command line.
//!
//! Every argument is forwarded unchanged and in its original position; the
//! only additions are color-forcing flags. A flag is injected before a bare
//! `--` separator, or appended at the end when no `--` is present, unless the
//! caller already supplied an argument starting with the color-flag prefix.
//! For a test invocation (an argument `t` or `test` before any `--`), the
//! flag is repeated after the separator — appending the separator first when
//! none was present — so that it also reaches the test binary.

use vstd::prelude::*;

use crate::records::lemma_deep_view_push_str;

verus! {

/// Whether `a` starts with the color-flag prefix `--color`.
pub open spec fn is_color_flag(a: Seq<char>) -> bool {
    a.len() >= 7 && a.subrange(0, 7) == "--color"@
}

/// Whether `a` is one of the two test-subcommand tokens.
pub open spec fn is_test_token(a: Seq<char>) -> bool {
    a == "t"@ || a == "test"@
}

/// The injected color-forcing flag.
pub open spec fn color_always() -> Seq<char> {
    "--color=always"@
}

/// The state of the scan over the first arguments: the forwarded arguments
/// so far, whether no bare `--` has been seen yet, whether a test subcommand
/// was seen before any `--`, and whether a color flag has been seen and not
/// yet consumed by a `--`.
pub open spec fn scan(args: Seq<Seq<char>>) -> (Seq<Seq<char>>, bool, bool, bool)
    decreases args.len(),
{
    if args.len() == 0 {
        (Seq::<Seq<char>>::empty(), true, false, false)
    } else {
        let prev = scan(args.drop_last());
        let out = prev.0;
        let in_primary = prev.1;
        let for_testing = prev.2;
        let has_color = prev.3;
        let a = args.last();
        let has_color_now = has_color || is_color_flag(a);
        let for_testing_now = for_testing || (in_primary && is_test_token(a));
        if in_primary && a == "--"@ {
            if has_color_now {
                (out.push(a), false, for_testing_now, false)
            } else {
                (out.push(color_always()).push(a), false, for_testing_now, false)
            }
        } else {
            (out.push(a), in_primary, for_testing_now, has_color_now)
        }
    }
}

/// The whole rewritten argument list: the scanned arguments, a color flag
/// appended when no `--` was present and none was seen, and for a test
/// invocation a separator (when none was present) and a repeated color flag.
pub open spec fn rewritten(args: Seq<Seq<char>>) -> Seq<Seq<char>> {
    let scanned = scan(args);
    let out = scanned.0;
    let in_primary = scanned.1;
    let for_testing = scanned.2;
    let has_color = scanned.3;
    let out1 = if in_primary && !has_color {
        out.push(color_always())
    } else {
        out
    };
    if for_testing {
        let out2 = if in_primary {
            out1.push("--"@)
        } else {
            out1
        };
        if in_primary || !has_color {
            out2.push(color_always())
        } else {
            out2
        }
    } else {
        out1
    }
}

/// Whether `out` is `args` in order with insertions, every inserted element
/// being the injected color flag or the bare separator.
pub open spec fn forwards_with_injections(args: Seq<Seq<char>>, out: Seq<Seq<char>>) -> bool
    decreases out.len(),
{
    if out.len() == 0 {
        args.len() == 0
    } else {
        (args.len() > 0 && args.last() == out.last() && forwards_with_injections(
            args.drop_last(),
            out.drop_last(),
        )) || ((out.last() == color_always() || out.last() == "--"@) && forwards_with_injections(
            args,
            out.drop_last(),
        ))
    }
}

/// Appending an injectable element preserves the forwarding relation.
proof fn lemma_forwards_push_injection(args: Seq<Seq<char>>, out: Seq<Seq<char>>, z: Seq<char>)
    requires
        forwards_with_injections(args, out),
        z == color_always() || z == "--"@,
    ensures
        forwards_with_injections(args, out.push(z)),
{
    assert(out.push(z).drop_last() =~= out);
    assert(out.push(z).last() == z);
}

/// Appending the same argument on both sides preserves the forwarding
/// relation.
proof fn lemma_forwards_push_argument(args: Seq<Seq<char>>, out: Seq<Seq<char>>, a: Seq<char>)
    requires
        forwards_with_injections(args, out),
    ensures
        forwards_with_injections(args.push(a), out.push(a)),
{
    assert(out.push(a).drop_last() =~= out);
    assert(args.push(a).drop_last() =~= args);
    assert(out.push(a).last() == a && args.push(a).last() == a);
}

/// The scan forwards every argument in order; its only additions are
/// injected flags.
proof fn lemma_scan_forwards(args: Seq<Seq<char>>)
    ensures
        forwards_with_injections(args, scan(args).0),
    decreases args.len(),
{
    if args.len() == 0 {
    } else {
        lemma_scan_forwards(args.drop_last());
        let prev = scan(args.drop_last());
        let a = args.last();
        assert(args.drop_last().push(a) =~= args);
        if prev.1 && a == "--"@ && !(prev.3 || is_color_flag(a)) {
            lemma_forwards_push_injection(args.drop_last(), prev.0, color_always());
            lemma_forwards_push_argument(args.drop_last(), prev.0.push(color_always()), a);
        } else {
            lemma_forwards_push_argument(args.drop_last(), prev.0, a);
        }
    }
}

/// Every original argument is forwarded unchanged and in its original
/// relative order; the injected color flags and at most one separator are
/// the only additions.
pub proof fn lemma_rewrite_forwards_arguments(args: Seq<Seq<char>>)
    ensures
        forwards_with_injections(args, rewritten(args)),
{
    lemma_scan_forwards(args);
    let scanned = scan(args);
    let out = scanned.0;
    let in_primary = scanned.1;
    let for_testing = scanned.2;
    let has_color = scanned.3;
    let out1 = if in_primary && !has_color {
        lemma_forwards_push_injection(args, out, color_always());
        out.push(color_always())
    } else {
        out
    };
    if for_testing {
        let out2 = if in_primary {
            lemma_forwards_push_injection(args, out1, "--"@);
            out1.push("--"@)
        } else {
            out1
        };
        if in_primary || !has_color {
            lemma_forwards_push_injection(args, out2, color_always());
        }
    }
}

/// Whether two string slices hold the same characters.
fn str_eq(a: &str, b: &str) -> (r: bool)
    ensures
        r == (a@ == b@),
{
    let x = String::from_str(a);
    let y = String::from_str(b);
    x.eq(&y)
}

/// Whether `arg` starts with the color-flag prefix `--color`.
fn arg_has_color_flag(arg: &str) -> (b: bool)
    ensures
        b == is_color_flag(arg@),
{
    let len = arg.unicode_len();
    if len < 7 {
        false
    } else {
        let prefix = arg.substring_char(0, 7);
        str_eq(prefix, "--color")
    }
}

/// Rewrites the wrapper's own arguments into the child's argument list:
/// every argument forwarded unchanged and in order, with color-forcing flags
/// injected as described at the module level.
pub fn rewrite_args(args: &Vec<String>) -> (out: Vec<String>)
    ensures
        out.deep_view() == rewritten(args.deep_view()),
{
    let mut out: Vec<String> = Vec::new();
    let mut in_primary = true;
    let mut for_testing = false;
    let mut has_color = false;
    proof {
        assert(out.deep_view() =~= Seq::<Seq<char>>::empty());
    }
    let mut i: usize = 0;
    while i < args.len()
        invariant
            i <= args.len(),
            out.deep_view() == scan(args.deep_view().subrange(0, i as int)).0,
            in_primary == scan(args.deep_view().subrange(0, i as int)).1,
            for_testing == scan(args.deep_view().subrange(0, i as int)).2,
            has_color == scan(args.deep_view().subrange(0, i as int)).3,
        decreases args.len() - i,
    {
        proof {
            assert(args.deep_view().subrange(0, i as int + 1).drop_last() =~= args.deep_view()
                .subrange(0, i as int));
            assert(args.deep_view().subrange(0, i as int + 1).last() == args@[i as int]@);
        }
        let arg = &args[i];
        if arg_has_color_flag(arg.as_str()) {
            has_color = true;
        }
        if in_primary {
            if str_eq(arg.as_str(), "t") || str_eq(arg.as_str(), "test") {
                for_testing = true;
            }
            if str_eq(arg.as_str(), "--") {
                if has_color {
                    has_color = false;
                } else {
                    let ghost old_out = out;
                    let injected = String::from_str("--color=always");
                    out.push(injected);
                    proof {
                        lemma_deep_view_push_str(old_out, out, injected);
                    }
                }
                in_primary = false;
            }
        }
        let ghost old_out = out;
        let forwarded = arg.clone();
        out.push(forwarded);
        proof {
            lemma_deep_view_push_str(old_out, out, forwarded);
        }
        i = i + 1;
    }
    proof {
        assert(args.deep_view().subrange(0, args@.len() as int) =~= args.deep_view());
    }
    if in_primary && !has_color {
        let ghost old_out = out;
        let injected = String::from_str("--color=always");
        out.push(injected);
        proof {
            lemma_deep_view_push_str(old_out, out, injected);
        }
    }
    if for_testing {
        if in_primary {
            let ghost old_out = out;
            let separator = String::from_str("--");
            out.push(separator);
            proof {
                lemma_deep_view_push_str(old_out, out, separator);
            }
        }
        if in_primary || !has_color {
            let ghost old_out = out;
            let injected = String::from_str("--color=always");
            out.push(injected);
            proof {
                lemma_deep_view_push_str(old_out, out, injected);
            }
        }
    }
    out
}

} // verus!
