use lic::cli::parse_number;
use lic::cli::Cli;
use lic::cli::Commands;
use lic::cli::OptionsAuto;
use lic::cli::OptionsNew;
use lic::cli::OptionsSearch;
use lic::cli::DEFAULT_NUMBER;

#[test]
fn test_new() {
    let cli = Cli::parse_from(&["lic", "new", "MIT"]).unwrap();
    assert_eq!(
        cli.command,
        Commands::New(OptionsNew {
            id: "MIT".into(),
            width: None
        })
    );
}

#[test]
fn test_auto() {
    let cli = Cli::parse_from(&["lic", "auto", "-w", "80"]).unwrap();
    assert_eq!(
        cli.command,
        Commands::Auto(OptionsAuto {
            width: Some(80),
            force: false
        })
    );
}

#[test]
fn test_search() {
    let cli = Cli::parse_from(&["lic", "search", "gpl", "-n", "50"]).unwrap();
    assert_eq!(
        cli.command,
        Commands::Search(OptionsSearch {
            id: String::from("gpl"),
            number: 50
        })
    );
}

#[test]
fn new_takes_a_width() {
    let expected = Some(Cli {
        command: Commands::New(OptionsNew { id: String::from("MIT"), width: Some(72) }),
    });
    assert_eq!(Cli::parse_from(&["lic", "new", "MIT", "--width", "72"]), expected);
    assert_eq!(Cli::parse_from(&["lic", "new", "-w", "72", "MIT"]), expected);
}

#[test]
fn auto_takes_force() {
    let expected = Some(Cli {
        command: Commands::Auto(OptionsAuto { width: Some(100), force: true }),
    });
    assert_eq!(Cli::parse_from(&["lic", "auto", "--force", "--width", "100"]), expected);
    assert_eq!(Cli::parse_from(&["lic", "auto", "-w", "100", "-f"]), expected);
    assert_eq!(
        Cli::parse_from(&["lic", "auto"]),
        Some(Cli { command: Commands::Auto(OptionsAuto { width: None, force: false }) })
    );
}

#[test]
fn search_lists_twenty_by_default() {
    assert_eq!(DEFAULT_NUMBER, 20);
    assert_eq!(
        Cli::parse_from(&["lic", "search", "gpl"]),
        Some(Cli {
            command: Commands::Search(OptionsSearch { id: String::from("gpl"), number: 20 })
        })
    );
    assert_eq!(
        Cli::parse_from(&["lic", "search", "--number", "0", "gpl"]),
        Some(Cli {
            command: Commands::Search(OptionsSearch { id: String::from("gpl"), number: 0 })
        })
    );
}

#[test]
fn command_is_required() {
    assert_eq!(Cli::parse_from(&[]), None);
    assert_eq!(Cli::parse_from(&["lic"]), None);
    assert_eq!(Cli::parse_from(&["lic", "list"]), None);
    assert_eq!(Cli::parse_from(&["lic", "NEW", "MIT"]), None);
    assert_eq!(Cli::parse_from(&["lic", "--width", "80", "new", "MIT"]), None);
}

#[test]
fn identifier_is_required_once() {
    assert_eq!(Cli::parse_from(&["lic", "new"]), None);
    assert_eq!(Cli::parse_from(&["lic", "search"]), None);
    assert_eq!(Cli::parse_from(&["lic", "new", "MIT", "GPL-3.0"]), None);
    assert_eq!(Cli::parse_from(&["lic", "auto", "MIT"]), None);
    assert_eq!(Cli::parse_from(&["lic", "new", ""]), None);
}

#[test]
fn options_belong_to_their_commands() {
    assert_eq!(Cli::parse_from(&["lic", "new", "MIT", "-n", "5"]), None);
    assert_eq!(Cli::parse_from(&["lic", "new", "MIT", "-f"]), None);
    assert_eq!(Cli::parse_from(&["lic", "auto", "-n", "5"]), None);
    assert_eq!(Cli::parse_from(&["lic", "search", "gpl", "-w", "80"]), None);
    assert_eq!(Cli::parse_from(&["lic", "search", "gpl", "--force"]), None);
    assert_eq!(Cli::parse_from(&["lic", "new", "MIT", "--wide"]), None);
    assert_eq!(Cli::parse_from(&["lic", "new", "MIT", "-x"]), None);
    assert_eq!(Cli::parse_from(&["lic", "new", "-"]), None);
}

#[test]
fn options_occur_once() {
    assert_eq!(Cli::parse_from(&["lic", "auto", "-w", "80", "--width", "80"]), None);
    assert_eq!(Cli::parse_from(&["lic", "auto", "-f", "--force"]), None);
    assert_eq!(Cli::parse_from(&["lic", "search", "gpl", "-n", "1", "-n", "2"]), None);
}

#[test]
fn options_need_a_number() {
    assert_eq!(Cli::parse_from(&["lic", "auto", "-w"]), None);
    assert_eq!(Cli::parse_from(&["lic", "auto", "-w", "wide"]), None);
    assert_eq!(Cli::parse_from(&["lic", "auto", "-w", "-80"]), None);
    assert_eq!(Cli::parse_from(&["lic", "auto", "-w", "8 0"]), None);
    assert_eq!(Cli::parse_from(&["lic", "auto", "-w", ""]), None);
    assert_eq!(Cli::parse_from(&["lic", "auto", "-w", "-f"]), None);
    assert_eq!(Cli::parse_from(&["lic", "search", "gpl", "-n", "99999999999999999999999"]), None);
}

#[test]
fn parse_number_reads_decimal_digits() {
    assert_eq!(parse_number("0"), Some(0));
    assert_eq!(parse_number("7"), Some(7));
    assert_eq!(parse_number("80"), Some(80));
    assert_eq!(parse_number("0080"), Some(80));
    assert_eq!(parse_number("1234567890"), Some(1234567890));
    assert_eq!(parse_number(&usize::MAX.to_string()), Some(usize::MAX));
}

#[test]
fn parse_number_rejects_everything_else() {
    assert_eq!(parse_number(""), None);
    assert_eq!(parse_number("+5"), None);
    assert_eq!(parse_number("-5"), None);
    assert_eq!(parse_number("5a"), None);
    assert_eq!(parse_number(" 5"), None);
    assert_eq!(parse_number("٥"), None);
    assert_eq!(parse_number("1.0"), None);
    let too_large = format!("{}0", usize::MAX);
    assert_eq!(parse_number(&too_large), None);
    let next = (usize::MAX as u128 + 1).to_string();
    assert_eq!(parse_number(&next), None);
}

#[test]
fn may_write_needs_force_over_an_old_file() {
    let plain = OptionsAuto { width: None, force: false };
    let forced = OptionsAuto { width: None, force: true };
    assert!(plain.may_write(false));
    assert!(!plain.may_write(true));
    assert!(forced.may_write(false));
    assert!(forced.may_write(true));
}
