use calendar_app::cli::Cli;
use calendar_app::cli::Commands;

#[test]
fn commands_carry_their_payloads() {
    let cli = Cli {
        command: Commands::Add {
            day: String::from("w"),
            item: String::from("Dentist"),
            location: None,
            recurring: true,
        },
    };
    match cli.command {
        Commands::Add { day, item, location, recurring } => {
            assert_eq!(day, "w");
            assert_eq!(item, "Dentist");
            assert_eq!(location, None);
            assert!(recurring);
        },
        _ => panic!("expected an add command"),
    }
}

#[test]
fn the_other_commands_exist() {
    let show = Cli { command: Commands::Show };
    let clear = Cli { command: Commands::Clear { day: String::from("su") } };
    let archive = Cli { command: Commands::ArchiveWeek };
    assert!(matches!(show.command, Commands::Show));
    assert!(matches!(clear.command, Commands::Clear { .. }));
    assert!(matches!(archive.command, Commands::ArchiveWeek));
}
