//! Command-line interface, hand-rolled: four flags, no parser dependency.
//!
//! - `--help`/`-h`, `--version`/`-V`
//! - `--theme <NAME|FILE>` / `--print-theme` / `--no-config`
//! - unknown flags and positional arguments are errors
//!
//! The internal child-process entry points (`--notify`,
//! `--clipboard-daemon`) are matched on `argv[1]` by the program before
//! this parser runs; here they are unknown arguments like any other.

use vstd::prelude::*;

verus! {

/// Parsed command line (all flags optional, defaults = plain run).
#[derive(Debug, Default, PartialEq)]
pub struct Args {
    pub theme: Option<String>,
    pub print_theme: bool,
    /// Skip the per-user theme file auto-pickup. An explicit `--theme`
    /// still wins over everything.
    pub no_config: bool,
    pub help: bool,
    pub version: bool,
}

/// The mathematical content of [`Args`].
pub struct ArgsView {
    pub theme: Option<Seq<char>>,
    pub print_theme: bool,
    pub no_config: bool,
    pub help: bool,
    pub version: bool,
}

impl View for Args {
    type V = ArgsView;

    open spec fn view(&self) -> ArgsView {
        ArgsView {
            theme: match self.theme {
                Some(t) => Some(t@),
                None => None,
            },
            print_theme: self.print_theme,
            no_config: self.no_config,
            help: self.help,
            version: self.version,
        }
    }
}

/// The plain run: no flag set.
pub open spec fn default_args() -> ArgsView {
    ArgsView { theme: None, print_theme: false, no_config: false, help: false, version: false }
}

/// The error for `--theme` without a value.
pub open spec fn missing_theme_message() -> Seq<char> {
    "missing value for --theme (dark | light | high_contrast | <file>)"@
}

/// The error for any token that is not a known flag.
pub open spec fn unexpected_message(token: Seq<char>) -> Seq<char> {
    "unexpected argument '"@ + token + "'"@
}

/// Parse `tokens[i..]` on top of the flags already collected in `acc`.
/// Later flags override earlier ones; the first bad token decides the error.
pub open spec fn parse_from(tokens: Seq<Seq<char>>, i: int, acc: ArgsView) -> Result<ArgsView, Seq<char>>
    decreases tokens.len() - i,
{
    if i < 0 || i >= tokens.len() {
        Ok(acc)
    } else {
        let a = tokens[i];
        if a == "--help"@ || a == "-h"@ {
            parse_from(tokens, i + 1, ArgsView { help: true, ..acc })
        } else if a == "--version"@ || a == "-V"@ {
            parse_from(tokens, i + 1, ArgsView { version: true, ..acc })
        } else if a == "--print-theme"@ {
            parse_from(tokens, i + 1, ArgsView { print_theme: true, ..acc })
        } else if a == "--no-config"@ {
            parse_from(tokens, i + 1, ArgsView { no_config: true, ..acc })
        } else if a == "--theme"@ {
            if i + 1 < tokens.len() {
                parse_from(tokens, i + 2, ArgsView { theme: Some(tokens[i + 1]), ..acc })
            } else {
                Err(missing_theme_message())
            }
        } else {
            Err(unexpected_message(a))
        }
    }
}

/// The result of parsing a whole argument list.
pub open spec fn parse_spec(tokens: Seq<Seq<char>>) -> Result<ArgsView, Seq<char>> {
    parse_from(tokens, 0, default_args())
}

/// The argument list as character sequences.
pub open spec fn tokens_of(argv: Seq<String>) -> Seq<Seq<char>> {
    argv.map_values(|s: String| s@)
}

/// The version shown by `--version` and in the help text.
pub open spec fn version_spec() -> Seq<char> {
    "0.8.0"@
}

/// The `--help` text.
pub open spec fn help_text_spec() -> Seq<char> {
    "shotori 0.8.0 — Wayland-first screenshot tool\n\nUsage: shotori [OPTIONS]\n\nOptions:\n  -h, --help               Print help and exit\n  -V, --version            Print version and exit\n      --theme <NAME|FILE>  Built-in theme (dark | light | high_contrast)\n                           or a JSON theme file\n      --print-theme        Print the resolved theme and exit\n      --no-config          Skip ~/.config/shotori/theme.json auto-pickup\n\nEverything else (select, copy, save, OCR, annotate) happens in\nthe overlay; see the keybinding table in the README.\n"@
}

/// `a` with the flag numbered `k` set: 0 `help`, 1 `version`,
/// 2 `print_theme`, 3 `no_config`.
spec fn set_flag(a: ArgsView, k: int) -> ArgsView {
    if k == 0 {
        ArgsView { help: true, ..a }
    } else if k == 1 {
        ArgsView { version: true, ..a }
    } else if k == 2 {
        ArgsView { print_theme: true, ..a }
    } else {
        ArgsView { no_config: true, ..a }
    }
}

/// A parse result with `f` applied to the parsed flags.
pub open spec fn map_ok(r: Result<ArgsView, Seq<char>>, f: spec_fn(ArgsView) -> ArgsView) -> Result<ArgsView, Seq<char>> {
    match r {
        Ok(a) => Ok(f(a)),
        Err(e) => Err(e),
    }
}

/// Setting a flag before the rest is parsed sets it in the result and
/// changes nothing else: no later token clears a flag.
proof fn lemma_flag_survives(tokens: Seq<Seq<char>>, i: int, acc: ArgsView, k: int)
    requires
        0 <= i,
    ensures
        parse_from(tokens, i, set_flag(acc, k)) == map_ok(parse_from(tokens, i, acc), |a: ArgsView| set_flag(a, k)),
    decreases tokens.len() - i,
{
    if i < tokens.len() {
        let a = tokens[i];
        if a == "--help"@ || a == "-h"@ {
            lemma_flag_survives(tokens, i + 1, ArgsView { help: true, ..acc }, k);
            assert(ArgsView { help: true, ..set_flag(acc, k) } == set_flag(ArgsView { help: true, ..acc }, k));
        } else if a == "--version"@ || a == "-V"@ {
            lemma_flag_survives(tokens, i + 1, ArgsView { version: true, ..acc }, k);
            assert(ArgsView { version: true, ..set_flag(acc, k) } == set_flag(ArgsView { version: true, ..acc }, k));
        } else if a == "--print-theme"@ {
            lemma_flag_survives(tokens, i + 1, ArgsView { print_theme: true, ..acc }, k);
            assert(ArgsView { print_theme: true, ..set_flag(acc, k) } == set_flag(ArgsView { print_theme: true, ..acc }, k));
        } else if a == "--no-config"@ {
            lemma_flag_survives(tokens, i + 1, ArgsView { no_config: true, ..acc }, k);
            assert(ArgsView { no_config: true, ..set_flag(acc, k) } == set_flag(ArgsView { no_config: true, ..acc }, k));
        } else if a == "--theme"@ && i + 1 < tokens.len() {
            let t = Some(tokens[i + 1]);
            lemma_flag_survives(tokens, i + 2, ArgsView { theme: t, ..acc }, k);
            assert(ArgsView { theme: t, ..set_flag(acc, k) } == set_flag(ArgsView { theme: t, ..acc }, k));
        }
    }
}

/// A result parsed on top of a chosen theme still has a theme.
proof fn lemma_theme_kept(tokens: Seq<Seq<char>>, i: int, acc: ArgsView)
    requires
        0 <= i,
        acc.theme is Some,
    ensures
        parse_from(tokens, i, acc) matches Ok(a) ==> a.theme is Some,
    decreases tokens.len() - i,
{
    if i < tokens.len() {
        let a = tokens[i];
        if a == "--help"@ || a == "-h"@ {
            lemma_theme_kept(tokens, i + 1, ArgsView { help: true, ..acc });
        } else if a == "--version"@ || a == "-V"@ {
            lemma_theme_kept(tokens, i + 1, ArgsView { version: true, ..acc });
        } else if a == "--print-theme"@ {
            lemma_theme_kept(tokens, i + 1, ArgsView { print_theme: true, ..acc });
        } else if a == "--no-config"@ {
            lemma_theme_kept(tokens, i + 1, ArgsView { no_config: true, ..acc });
        } else if a == "--theme"@ && i + 1 < tokens.len() {
            lemma_theme_kept(tokens, i + 2, ArgsView { theme: Some(tokens[i + 1]), ..acc });
        }
    }
}

/// A theme chosen before the rest is parsed stands unless a later
/// `--theme` replaces it; nothing else changes.
proof fn lemma_theme_default(tokens: Seq<Seq<char>>, i: int, acc: ArgsView, v: Seq<char>)
    requires
        0 <= i,
        acc.theme is None,
    ensures
        parse_from(tokens, i, ArgsView { theme: Some(v), ..acc }) == map_ok(
            parse_from(tokens, i, acc),
            |a: ArgsView| if a.theme is None { ArgsView { theme: Some(v), ..a } } else { a },
        ),
    decreases tokens.len() - i,
{
    if i < tokens.len() {
        let a = tokens[i];
        let withv = ArgsView { theme: Some(v), ..acc };
        if a == "--help"@ || a == "-h"@ {
            lemma_theme_default(tokens, i + 1, ArgsView { help: true, ..acc }, v);
            assert(ArgsView { help: true, ..withv } == ArgsView { theme: Some(v), ..ArgsView { help: true, ..acc } });
        } else if a == "--version"@ || a == "-V"@ {
            lemma_theme_default(tokens, i + 1, ArgsView { version: true, ..acc }, v);
            assert(ArgsView { version: true, ..withv } == ArgsView { theme: Some(v), ..ArgsView { version: true, ..acc } });
        } else if a == "--print-theme"@ {
            lemma_theme_default(tokens, i + 1, ArgsView { print_theme: true, ..acc }, v);
            assert(ArgsView { print_theme: true, ..withv } == ArgsView { theme: Some(v), ..ArgsView { print_theme: true, ..acc } });
        } else if a == "--no-config"@ {
            lemma_theme_default(tokens, i + 1, ArgsView { no_config: true, ..acc }, v);
            assert(ArgsView { no_config: true, ..withv } == ArgsView { theme: Some(v), ..ArgsView { no_config: true, ..acc } });
        } else if a == "--theme"@ && i + 1 < tokens.len() {
            let t = Some(tokens[i + 1]);
            assert(ArgsView { theme: t, ..withv } == ArgsView { theme: t, ..acc });
            lemma_theme_kept(tokens, i + 2, ArgsView { theme: t, ..acc });
        }
    }
}

/// Parsing after a prefix of tokens, from just past the prefix, is
/// parsing the rest alone.
proof fn lemma_skip_prefix(prefix: Seq<Seq<char>>, tokens: Seq<Seq<char>>, i: int, acc: ArgsView)
    requires
        0 <= i,
    ensures
        parse_from(prefix + tokens, i + prefix.len(), acc) == parse_from(tokens, i, acc),
    decreases tokens.len() - i,
{
    let all = prefix + tokens;
    let n = prefix.len() as int;
    if i < tokens.len() {
        assert(all[i + n] == tokens[i]);
        if i + 1 < tokens.len() {
            assert(all[i + n + 1] == tokens[i + 1]);
        }
        let a = tokens[i];
        if a == "--help"@ || a == "-h"@ {
            lemma_skip_prefix(prefix, tokens, i + 1, ArgsView { help: true, ..acc });
        } else if a == "--version"@ || a == "-V"@ {
            lemma_skip_prefix(prefix, tokens, i + 1, ArgsView { version: true, ..acc });
        } else if a == "--print-theme"@ {
            lemma_skip_prefix(prefix, tokens, i + 1, ArgsView { print_theme: true, ..acc });
        } else if a == "--no-config"@ {
            lemma_skip_prefix(prefix, tokens, i + 1, ArgsView { no_config: true, ..acc });
        } else if a == "--theme"@ && i + 1 < tokens.len() {
            lemma_skip_prefix(prefix, tokens, i + 2, ArgsView { theme: Some(tokens[i + 1]), ..acc });
        }
    }
}

/// A flag token in front of the rest: parsing goes on with its flag set.
proof fn lemma_prefix_flag(tokens: Seq<Seq<char>>, flag: Seq<char>, k: int)
    requires
        k == 0 ==> flag == "--help"@ || flag == "-h"@,
        k == 1 ==> flag == "--version"@ || flag == "-V"@,
        k == 2 ==> flag == "--print-theme"@,
        k == 3 ==> flag == "--no-config"@,
        0 <= k <= 3,
    ensures
        parse_spec(seq![flag] + tokens) == map_ok(parse_spec(tokens), |a: ArgsView| set_flag(a, k)),
{
    reveal_strlit("--no-config");
    reveal_strlit("--print-theme");
    reveal_strlit("--help");
    reveal_strlit("-h");
    reveal_strlit("--version");
    reveal_strlit("-V");
    let d = default_args();
    let p = seq![flag];
    let all = p + tokens;
    assert(all[0] == flag);
    assert(0 < all.len());
    assert("--no-config"@.len() == 11 && "--print-theme"@.len() == 13 && "--help"@.len() == 6
        && "-h"@.len() == 2 && "--version"@.len() == 9 && "-V"@.len() == 2);
    assert("-h"@[1] == 'h' && "-V"@[1] == 'V');
    if k == 0 {
        assert(parse_from(all, 0, d) == parse_from(all, 1, ArgsView { help: true, ..d }));
    } else if k == 1 {
        assert(flag != "--help"@ && flag != "-h"@);
        assert(parse_from(all, 0, d) == parse_from(all, 1, ArgsView { version: true, ..d }));
    } else if k == 2 {
        assert(flag != "--help"@ && flag != "-h"@ && flag != "--version"@ && flag != "-V"@);
        assert(parse_from(all, 0, d) == parse_from(all, 1, ArgsView { print_theme: true, ..d }));
    } else {
        assert(flag != "--help"@ && flag != "-h"@ && flag != "--version"@ && flag != "-V"@ && flag != "--print-theme"@);
        assert(parse_from(all, 0, d) == parse_from(all, 1, ArgsView { no_config: true, ..d }));
    }
    assert(parse_from(all, 0, d) == parse_from(all, 1, set_flag(d, k)));
    lemma_skip_prefix(p, tokens, 0, set_flag(d, k));
    lemma_flag_survives(tokens, 0, d, k);
}

/// Each flag sets only its own field: putting a flag in front of any
/// argument list gives what that list gives with exactly the flag's field
/// set (`--help`/`-h` → `help`, `--version`/`-V` → `version`,
/// `--print-theme` → `print_theme`, `--no-config` → `no_config`), and the
/// same error when the list is refused. `--theme v` in front sets the
/// theme to `v` unless a later `--theme` chooses another.
pub proof fn lemma_each_flag_sets_only_its_field(tokens: Seq<Seq<char>>, v: Seq<char>)
    ensures
        parse_spec(seq!["--no-config"@] + tokens) == map_ok(parse_spec(tokens), |a: ArgsView| ArgsView { no_config: true, ..a }),
        parse_spec(seq!["--print-theme"@] + tokens) == map_ok(parse_spec(tokens), |a: ArgsView| ArgsView { print_theme: true, ..a }),
        parse_spec(seq!["--help"@] + tokens) == map_ok(parse_spec(tokens), |a: ArgsView| ArgsView { help: true, ..a }),
        parse_spec(seq!["-h"@] + tokens) == map_ok(parse_spec(tokens), |a: ArgsView| ArgsView { help: true, ..a }),
        parse_spec(seq!["--version"@] + tokens) == map_ok(parse_spec(tokens), |a: ArgsView| ArgsView { version: true, ..a }),
        parse_spec(seq!["-V"@] + tokens) == map_ok(parse_spec(tokens), |a: ArgsView| ArgsView { version: true, ..a }),
        parse_spec(seq!["--theme"@, v] + tokens) == map_ok(
            parse_spec(tokens),
            |a: ArgsView| if a.theme is None { ArgsView { theme: Some(v), ..a } } else { a },
        ),
{
    reveal_strlit("--no-config");
    reveal_strlit("--print-theme");
    reveal_strlit("--help");
    reveal_strlit("-h");
    reveal_strlit("--version");
    reveal_strlit("-V");
    reveal_strlit("--theme");
    let d = default_args();
    lemma_prefix_flag(tokens, "--no-config"@, 3);
    lemma_prefix_flag(tokens, "--print-theme"@, 2);
    lemma_prefix_flag(tokens, "--help"@, 0);
    lemma_prefix_flag(tokens, "-h"@, 0);
    lemma_prefix_flag(tokens, "--version"@, 1);
    lemma_prefix_flag(tokens, "-V"@, 1);
    assert((|a: ArgsView| set_flag(a, 3)) =~= (|a: ArgsView| ArgsView { no_config: true, ..a }));
    assert((|a: ArgsView| set_flag(a, 2)) =~= (|a: ArgsView| ArgsView { print_theme: true, ..a }));
    assert((|a: ArgsView| set_flag(a, 0)) =~= (|a: ArgsView| ArgsView { help: true, ..a }));
    assert((|a: ArgsView| set_flag(a, 1)) =~= (|a: ArgsView| ArgsView { version: true, ..a }));
    let p = seq!["--theme"@, v];
    assert((p + tokens)[0] == "--theme"@ && (p + tokens)[1] == v);
    lemma_skip_prefix(p, tokens, 0, ArgsView { theme: Some(v), ..d });
    lemma_theme_default(tokens, 0, d, v);
}

fn same(a: &String, lit: &str) -> (r: bool)
    ensures
        r == (a@ == lit@),
{
    let b = String::from_str(lit);
    *a == b
}

impl Args {
    /// Parse the arguments after the program name.
    pub fn parse(argv: Vec<String>) -> (r: Result<Args, String>)
        ensures
            match (r, parse_spec(tokens_of(argv@))) {
                (Ok(a), Ok(v)) => a@ == v,
                (Err(e), Err(m)) => e@ == m,
                _ => false,
            },
    {
        let ghost tokens = tokens_of(argv@);
        let mut args = Args { theme: None, print_theme: false, no_config: false, help: false, version: false };
        let mut i: usize = 0;
        while i < argv.len()
            invariant
                tokens == tokens_of(argv@),
                tokens.len() == argv.len(),
                i <= argv.len(),
                parse_from(tokens, i as int, args@) == parse_spec(tokens),
            decreases argv.len() - i,
        {
            let a = &argv[i];
            assert(tokens[i as int] == a@);
            if same(a, "--help") || same(a, "-h") {
                args.help = true;
            } else if same(a, "--version") || same(a, "-V") {
                args.version = true;
            } else if same(a, "--print-theme") {
                args.print_theme = true;
            } else if same(a, "--no-config") {
                args.no_config = true;
            } else if same(a, "--theme") {
                if i + 1 < argv.len() {
                    assert(tokens[i + 1] == argv@[i + 1]@);
                    args.theme = Some(argv[i + 1].clone());
                    i = i + 2;
                    continue;
                } else {
                    return Err(String::from_str("missing value for --theme (dark | light | high_contrast | <file>)"));
                }
            } else {
                let mut msg = String::from_str("unexpected argument '");
                msg.append(a.as_str());
                msg.append("'");
                return Err(msg);
            }
            i = i + 1;
        }
        Ok(args)
    }

    /// `--help` text (version line included).
    pub fn help_text() -> (r: String)
        ensures
            r@ == help_text_spec(),
    {
        String::from_str("shotori 0.8.0 — Wayland-first screenshot tool\n\nUsage: shotori [OPTIONS]\n\nOptions:\n  -h, --help               Print help and exit\n  -V, --version            Print version and exit\n      --theme <NAME|FILE>  Built-in theme (dark | light | high_contrast)\n                           or a JSON theme file\n      --print-theme        Print the resolved theme and exit\n      --no-config          Skip ~/.config/shotori/theme.json auto-pickup\n\nEverything else (select, copy, save, OCR, annotate) happens in\nthe overlay; see the keybinding table in the README.\n")
    }

    /// The version string.
    pub fn version() -> (r: String)
        ensures
            r@ == version_spec(),
    {
        String::from_str("0.8.0")
    }
}

} // verus!
