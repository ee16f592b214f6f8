//! The command line of the `gorg` formatter: its options and what they ask for.

use vstd::prelude::*;

use crate::builtin::{detect_language, spec_detect_language};
use crate::jit::{decimal_text, lemma_usize_text_round_trip};
use crate::text::{chars_of, str_eq};

verus! {

/// The settings that a command line gives.
pub struct CliOptions {
    pub lang: Option<String>,
    pub grammar_path: Option<String>,
    pub rule: Option<String>,
    pub width: usize,
    pub indent: usize,
    pub use_tabs: bool,
    pub output_path: Option<String>,
    pub input_path: Option<String>,
}

/// What a command line asks for.
pub enum CliCommand {
    /// Print the usage text and exit with status 1 (no arguments, `-h`,
    /// `--help`, an option without its value, or a width or indent that is
    /// not a number).
    Usage,
    /// Report the unknown option, print the usage text and exit with status 1.
    UnknownOption(String),
    /// Remove the cached JIT binaries and exit.
    ClearCache,
    /// Format with these settings.
    Run(CliOptions),
}

pub open spec fn digit_value(c: char) -> int {
    c as int - '0' as int
}

/// The value of a string of decimal digits.
pub open spec fn decimal_value(s: Seq<char>) -> int
    decreases s.len(),
{
    if s.len() == 0 {
        0
    } else {
        decimal_value(s.drop_last()) * 10 + digit_value(s.last())
    }
}

pub open spec fn all_digits(s: Seq<char>) -> bool {
    forall|i: int| 0 <= i < s.len() ==> '0' <= #[trigger] s[i] && s[i] <= '9'
}

/// What `str::parse::<usize>` gives: an optional `+`, then at least one
/// decimal digit and nothing else, with a value that fits in `usize`.
pub open spec fn spec_parse_usize(s: Seq<char>) -> Option<usize> {
    let digits = if s.len() > 0 && s[0] == '+' {
        s.drop_first()
    } else {
        s
    };
    if digits.len() > 0 && all_digits(digits) && decimal_value(digits) <= usize::MAX {
        Some(decimal_value(digits) as usize)
    } else {
        None
    }
}

proof fn lemma_decimal_nonneg(s: Seq<char>)
    requires
        all_digits(s),
    ensures
        decimal_value(s) >= 0,
    decreases s.len(),
{
    if s.len() > 0 {
        lemma_decimal_nonneg(s.drop_last());
    }
}

proof fn lemma_decimal_grows(s: Seq<char>, c: char)
    requires
        all_digits(s),
        '0' <= c <= '9',
    ensures
        decimal_value(s.push(c)) >= decimal_value(s),
        decimal_value(s.push(c)) == decimal_value(s) * 10 + digit_value(c),
{
    lemma_decimal_nonneg(s);
    assert(s.push(c).drop_last() =~= s);
}

/// Parses a decimal `usize` as `str::parse` does.
pub fn parse_usize(s: &str) -> (r: Option<usize>)
    ensures
        r == spec_parse_usize(s@),
{
    let cs = chars_of(s);
    let start: usize = if cs.len() > 0 && cs[0] == '+' {
        1
    } else {
        0
    };
    let ghost digits = if cs@.len() > 0 && cs@[0] == '+' {
        cs@.drop_first()
    } else {
        cs@
    };
    assert(digits =~= cs@.subrange(start as int, cs@.len() as int));
    assert(spec_parse_usize(s@) == if digits.len() > 0 && all_digits(digits) && decimal_value(digits)
        <= usize::MAX {
        Some(decimal_value(digits) as usize)
    } else {
        None
    });
    if start == cs.len() {
        return None;
    }
    let mut value: usize = 0;
    let mut i: usize = start;
    while i < cs.len()
        invariant
            start <= i <= cs.len(),
            cs@ == s@,
            digits == cs@.subrange(start as int, cs@.len() as int),
            spec_parse_usize(s@) == if digits.len() > 0 && all_digits(digits) && decimal_value(digits)
                <= usize::MAX {
                Some(decimal_value(digits) as usize)
            } else {
                None
            },
            all_digits(cs@.subrange(start as int, i as int)),
            value == decimal_value(cs@.subrange(start as int, i as int)),
        decreases cs.len() - i,
    {
        let c = cs[i];
        let ghost prefix = cs@.subrange(start as int, i as int);
        assert(cs@.subrange(start as int, i + 1) =~= prefix.push(c));
        if c < '0' || c > '9' {
            assert(digits[i - start] == c);
            assert(!all_digits(digits));
            return None;
        }
        proof {
            lemma_decimal_grows(prefix, c);
            assert(all_digits(prefix.push(c)));
        }
        let d = (c as u32 - '0' as u32) as usize;
        if value > (usize::MAX - d) / 10 {
            proof {
                assert(value * 10 + d > usize::MAX) by (nonlinear_arith)
                    requires
                        value > (usize::MAX - d) / 10,
                        d <= 9,
                ;
                assert(digits.take(i + 1 - start) =~= prefix.push(c));
                lemma_decimal_prefix_bound(digits, (i + 1 - start) as int);
            }
            return None;
        }
        value = value * 10 + d;
        i = i + 1;
    }
    assert(cs@.subrange(start as int, cs@.len() as int) == digits);
    Some(value)
}

/// A longer run of digits is worth at least as much as its prefix.
proof fn lemma_decimal_prefix_bound(s: Seq<char>, n: int)
    requires
        0 <= n <= s.len(),
        all_digits(s.take(n)),
    ensures
        all_digits(s) ==> decimal_value(s) >= decimal_value(s.take(n)),
    decreases s.len() - n,
{
    if n < s.len() && all_digits(s) {
        assert(all_digits(s.take(n + 1)));
        lemma_decimal_prefix_bound(s, n + 1);
        lemma_decimal_grows(s.take(n), s[n]);
        assert(s.take(n + 1) =~= s.take(n).push(s[n]));
    } else if n == s.len() {
        assert(s.take(n) =~= s);
    }
}


/// The settings of a command line, with text as characters.
pub struct OptionsSpec {
    pub lang: Option<Seq<char>>,
    pub grammar_path: Option<Seq<char>>,
    pub rule: Option<Seq<char>>,
    pub width: usize,
    pub indent: usize,
    pub use_tabs: bool,
    pub output_path: Option<Seq<char>>,
    pub input_path: Option<Seq<char>>,
}

/// What a command line asks for, with text as characters.
pub enum CliSpec {
    Usage,
    UnknownOption(Seq<char>),
    ClearCache,
    Run(OptionsSpec),
}

pub open spec fn opt_str(o: Option<String>) -> Option<Seq<char>> {
    match o {
        None => None,
        Some(s) => Some(s@),
    }
}

impl CliOptions {
    pub open spec fn spec(self) -> OptionsSpec {
        OptionsSpec {
            lang: opt_str(self.lang),
            grammar_path: opt_str(self.grammar_path),
            rule: opt_str(self.rule),
            width: self.width,
            indent: self.indent,
            use_tabs: self.use_tabs,
            output_path: opt_str(self.output_path),
            input_path: opt_str(self.input_path),
        }
    }
}

impl CliCommand {
    pub open spec fn spec(self) -> CliSpec {
        match self {
            CliCommand::Usage => CliSpec::Usage,
            CliCommand::UnknownOption(s) => CliSpec::UnknownOption(s@),
            CliCommand::ClearCache => CliSpec::ClearCache,
            CliCommand::Run(o) => CliSpec::Run(o.spec()),
        }
    }
}

/// The defaults: width 80, indent 4, spaces, and nothing else given.
pub open spec fn default_options() -> OptionsSpec {
    OptionsSpec {
        lang: None,
        grammar_path: None,
        rule: None,
        width: 80,
        indent: 4,
        use_tabs: false,
        output_path: None,
        input_path: None,
    }
}

/// The options from position `i` on, read left to right into `st`: the first
/// request to stop (help, a missing or malformed value, an unknown option,
/// clearing the cache) decides; a later value of an option replaces an
/// earlier one; an argument that does not start with `-` is the input file.
pub open spec fn scan_args(args: Seq<Seq<char>>, i: int, st: OptionsSpec) -> CliSpec
    decreases args.len() - i,
{
    if i < 0 || i >= args.len() {
        CliSpec::Run(st)
    } else {
        let a = args[i];
        let has_value = i + 1 < args.len();
        let v = args[i + 1];
        if a == "-l"@ || a == "--lang"@ {
            if has_value {
                scan_args(args, i + 2, OptionsSpec { lang: Some(v), ..st })
            } else {
                CliSpec::Usage
            }
        } else if a == "-g"@ || a == "--grammar"@ {
            if has_value {
                scan_args(args, i + 2, OptionsSpec { grammar_path: Some(v), ..st })
            } else {
                CliSpec::Usage
            }
        } else if a == "-r"@ || a == "--rule"@ {
            if has_value {
                scan_args(args, i + 2, OptionsSpec { rule: Some(v), ..st })
            } else {
                CliSpec::Usage
            }
        } else if a == "-w"@ || a == "--width"@ {
            if has_value && spec_parse_usize(v) is Some {
                scan_args(args, i + 2, OptionsSpec { width: spec_parse_usize(v).unwrap(), ..st })
            } else {
                CliSpec::Usage
            }
        } else if a == "-i"@ || a == "--indent"@ {
            if has_value && spec_parse_usize(v) is Some {
                scan_args(args, i + 2, OptionsSpec { indent: spec_parse_usize(v).unwrap(), ..st })
            } else {
                CliSpec::Usage
            }
        } else if a == "--tabs"@ {
            scan_args(args, i + 1, OptionsSpec { use_tabs: true, ..st })
        } else if a == "-o"@ || a == "--output"@ {
            if has_value {
                scan_args(args, i + 2, OptionsSpec { output_path: Some(v), ..st })
            } else {
                CliSpec::Usage
            }
        } else if a == "--clear-cache"@ {
            CliSpec::ClearCache
        } else if a == "-h"@ || a == "--help"@ {
            CliSpec::Usage
        } else if a.len() > 0 && a[0] == '-' {
            CliSpec::UnknownOption(a)
        } else {
            scan_args(args, i + 1, OptionsSpec { input_path: Some(a), ..st })
        }
    }
}

/// What a whole command line (without the program name) asks for.
pub open spec fn spec_parse_args(args: Seq<Seq<char>>) -> CliSpec {
    if args.len() == 0 {
        CliSpec::Usage
    } else {
        scan_args(args, 0, default_options())
    }
}

/// Reading a command line that runs, then more arguments, is reading the
/// more arguments from where the first reading ended.
proof fn lemma_scan_append(args: Seq<Seq<char>>, extra: Seq<Seq<char>>, i: int, st: OptionsSpec)
    requires
        0 <= i <= args.len(),
        scan_args(args, i, st) is Run,
    ensures
        scan_args(args + extra, i, st) == scan_args(args + extra, args.len() as int, scan_args(args, i, st)->Run_0),
    decreases args.len() - i,
{
    let all = args + extra;
    if i < args.len() {
        let a = args[i];
        assert(all[i] == a);
        let has_value = i + 1 < args.len();
        if has_value {
            assert(all[i + 1] == args[i + 1]);
        }
        let v = args[i + 1];
        if a == "-l"@ || a == "--lang"@ {
            lemma_scan_append(args, extra, i + 2, OptionsSpec { lang: Some(v), ..st });
        } else if a == "-g"@ || a == "--grammar"@ {
            lemma_scan_append(args, extra, i + 2, OptionsSpec { grammar_path: Some(v), ..st });
        } else if a == "-r"@ || a == "--rule"@ {
            lemma_scan_append(args, extra, i + 2, OptionsSpec { rule: Some(v), ..st });
        } else if a == "-w"@ || a == "--width"@ {
            lemma_scan_append(args, extra, i + 2, OptionsSpec { width: spec_parse_usize(v).unwrap(), ..st });
        } else if a == "-i"@ || a == "--indent"@ {
            lemma_scan_append(args, extra, i + 2, OptionsSpec { indent: spec_parse_usize(v).unwrap(), ..st });
        } else if a == "--tabs"@ {
            lemma_scan_append(args, extra, i + 1, OptionsSpec { use_tabs: true, ..st });
        } else if a == "-o"@ || a == "--output"@ {
            lemma_scan_append(args, extra, i + 2, OptionsSpec { output_path: Some(v), ..st });
        } else if a == "--clear-cache"@ {
        } else if a == "-h"@ || a == "--help"@ {
        } else if a.len() > 0 && a[0] == '-' {
        } else {
            lemma_scan_append(args, extra, i + 1, OptionsSpec { input_path: Some(a), ..st });
        }
    }
}

/// A later value of an option replaces an earlier one: appending `--width N`
/// to a command line that runs gives the same settings with width `N`.
pub proof fn lemma_later_width_wins(args: Seq<Seq<char>>, n: usize)
    requires
        spec_parse_args(args) is Run,
    ensures
        spec_parse_args(args + seq!["--width"@, decimal_text(n as nat)])
            == CliSpec::Run(OptionsSpec { width: n, ..spec_parse_args(args)->Run_0 }),
{
    let extra = seq!["--width"@, decimal_text(n as nat)];
    let all = args + extra;
    lemma_scan_append(args, extra, 0, default_options());
    lemma_usize_text_round_trip(n);
    let st = spec_parse_args(args)->Run_0;
    let j = args.len() as int;
    assert(all[j] == "--width"@);
    assert(all[j + 1] == decimal_text(n as nat));
    assert(all.len() == j + 2);
    reveal_strlit("--width");
    reveal_strlit("-l");
    reveal_strlit("--lang");
    reveal_strlit("-g");
    reveal_strlit("--grammar");
    reveal_strlit("-r");
    reveal_strlit("--rule");
    reveal_strlit("-w");
    assert(scan_args(all, j + 2, OptionsSpec { width: n, ..st }) == CliSpec::Run(OptionsSpec { width: n, ..st }));
}

fn copy_string(s: &String) -> (r: String)
    ensures
        r@ == s@,
{
    s.clone()
}

fn starts_with_dash(a: &str) -> (r: bool)
    ensures
        r == (a@.len() > 0 && a@[0] == '-'),
{
    let cs = chars_of(a);
    cs.len() > 0 && cs[0] == '-'
}

/// Reads the command line (without the program name).
pub fn parse_args(args: &Vec<String>) -> (r: CliCommand)
    ensures
        r.spec() == spec_parse_args(args@.map_values(|s: String| s@)),
{
    let ghost av = args@.map_values(|s: String| s@);
    if args.len() == 0 {
        return CliCommand::Usage;
    }
    let mut st = CliOptions {
        lang: None,
        grammar_path: None,
        rule: None,
        width: 80,
        indent: 4,
        use_tabs: false,
        output_path: None,
        input_path: None,
    };
    let mut i: usize = 0;
    while i < args.len()
        invariant
            i <= args.len(),
            av == args@.map_values(|s: String| s@),
            spec_parse_args(av) == scan_args(av, i as int, st.spec()),
        decreases args.len() - i,
    {
        let a = args[i].as_str();
        let has_value = i + 1 < args.len();
        proof {
            assert(av[i as int] == a@);
            if has_value {
                assert(av[i + 1] == args@[i + 1]@);
            }
        }
        if str_eq(a, "-l") || str_eq(a, "--lang") {
            if !has_value {
                return CliCommand::Usage;
            }
            st.lang = Some(copy_string(&args[i + 1]));
            i = i + 2;
        } else if str_eq(a, "-g") || str_eq(a, "--grammar") {
            if !has_value {
                return CliCommand::Usage;
            }
            st.grammar_path = Some(copy_string(&args[i + 1]));
            i = i + 2;
        } else if str_eq(a, "-r") || str_eq(a, "--rule") {
            if !has_value {
                return CliCommand::Usage;
            }
            st.rule = Some(copy_string(&args[i + 1]));
            i = i + 2;
        } else if str_eq(a, "-w") || str_eq(a, "--width") {
            if !has_value {
                return CliCommand::Usage;
            }
            match parse_usize(args[i + 1].as_str()) {
                None => {
                    return CliCommand::Usage;
                },
                Some(n) => {
                    st.width = n;
                },
            }
            i = i + 2;
        } else if str_eq(a, "-i") || str_eq(a, "--indent") {
            if !has_value {
                return CliCommand::Usage;
            }
            match parse_usize(args[i + 1].as_str()) {
                None => {
                    return CliCommand::Usage;
                },
                Some(n) => {
                    st.indent = n;
                },
            }
            i = i + 2;
        } else if str_eq(a, "--tabs") {
            st.use_tabs = true;
            i = i + 1;
        } else if str_eq(a, "-o") || str_eq(a, "--output") {
            if !has_value {
                return CliCommand::Usage;
            }
            st.output_path = Some(copy_string(&args[i + 1]));
            i = i + 2;
        } else if str_eq(a, "--clear-cache") {
            return CliCommand::ClearCache;
        } else if str_eq(a, "-h") || str_eq(a, "--help") {
            return CliCommand::Usage;
        } else if starts_with_dash(a) {
            return CliCommand::UnknownOption(copy_string(&args[i]));
        } else {
            st.input_path = Some(copy_string(&args[i]));
            i = i + 1;
        }
    }
    CliCommand::Run(st)
}

/// The language to format with: the one given with `--lang`, else the one
/// that the input file's extension selects.
pub fn choose_language(lang: Option<&str>, input_path: Option<&str>) -> (r: Option<String>)
    ensures
        match lang {
            Some(l) => r matches Some(x) && x@ == l@,
            None => match input_path {
                None => r is None,
                Some(p) => match spec_detect_language(p@) {
                    None => r is None,
                    Some(d) => r matches Some(x) && x@ == d,
                },
            },
        },
{
    match lang {
        Some(l) => Some(l.to_owned()),
        None => match input_path {
            None => None,
            Some(p) => match detect_language(p) {
                None => None,
                Some(d) => Some(d.to_owned()),
            },
        },
    }
}

} // verus!
