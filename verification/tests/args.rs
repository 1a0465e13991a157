use shotori::args::Args;

fn parse(v: &[&str]) -> Result<Args, String> {
    Args::parse(v.iter().map(|s| s.to_string()).collect())
}

#[test]
fn empty_is_a_plain_run() {
    assert_eq!(parse(&[]).unwrap(), Args::default());
}

#[test]
fn basics() {
    assert_eq!(
        parse(&["-h"]).unwrap(),
        Args {
            help: true,
            ..Default::default()
        }
    );
    assert_eq!(
        parse(&["--version", "-V"]).unwrap(),
        Args {
            version: true,
            ..Default::default()
        }
    );
    assert_eq!(
        parse(&["--print-theme", "--no-config"]).unwrap(),
        Args {
            print_theme: true,
            no_config: true,
            ..Default::default()
        }
    );
}

#[test]
fn theme_takes_the_next_token() {
    let a = parse(&["--theme", "light"]).unwrap();
    assert_eq!(a.theme.as_deref(), Some("light"));
    assert!(parse(&["--theme"]).is_err());
}

#[test]
fn unknown_flags_and_positionals_error() {
    assert!(parse(&["--them"]).is_err());
    assert!(parse(&["-x"]).is_err());
    assert!(parse(&["foo.png"]).is_err());
}

#[test]
fn internal_entry_points_do_not_reach_the_parser_in_main() {
    assert!(parse(&["--notify", "s", "b"]).is_err());
}

#[test]
fn error_messages_name_the_offending_token() {
    assert_eq!(parse(&["foo.png"]).unwrap_err(), "unexpected argument 'foo.png'");
    assert_eq!(
        parse(&["--theme"]).unwrap_err(),
        "missing value for --theme (dark | light | high_contrast | <file>)"
    );
}

#[test]
fn later_theme_wins_and_flags_combine() {
    let a = parse(&["--theme", "dark", "-h", "--theme", "x.json"]).unwrap();
    assert_eq!(a.theme.as_deref(), Some("x.json"));
    assert!(a.help);
}

#[test]
fn help_text_lists_every_flag() {
    let h = Args::help_text();
    assert!(h.starts_with("shotori "));
    for flag in ["--help", "--version", "--theme", "--print-theme", "--no-config"] {
        assert!(h.contains(flag), "{flag}");
    }
}
