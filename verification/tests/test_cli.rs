use canvas_cli::cli::{Cli, CliError, Commands};

fn argv(parts: &[&str]) -> Vec<String> {
    parts.iter().map(|p| p.to_string()).collect()
}

#[test]
fn test_courses_command() {
    let cli = Cli::parse_args(&argv(&["canvas-cli", "courses"])).unwrap();
    match cli.command {
        Commands::Courses => (),
        _ => panic!("Expected Courses command"),
    }
}

#[test]
fn test_course_command() {
    let cli = Cli::parse_args(&argv(&["canvas-cli", "course", "1234"])).unwrap();
    match cli.command {
        Commands::Course(args) => assert_eq!(args.course_id, 1234),
        _ => panic!("Expected Course command"),
    }
}

#[test]
fn test_assignment_command() {
    let cli = Cli::parse_args(&argv(&[
        "canvas-cli",
        "assignment",
        "1234", // course_id
        "4321", // assignment_id
        "--file-path",
        "test.pdf",
    ]))
    .unwrap();

    match cli.command {
        Commands::Assignment(args) => {
            assert_eq!(args.course_id, 1234);
            assert_eq!(args.assignment_id, 4321);
            assert_eq!(args.file_path, Some("test.pdf".to_string()));
        }
        _ => panic!("Expected Assignment command"),
    }
}

#[test]
fn test_global_options_before_command() {
    let cli = Cli::parse_args(&argv(&[
        "canvas-cli",
        "--base-url",
        "https://canvas.example",
        "-a",
        "SECRET-REDACTED",
        "sync",
    ]))
    .unwrap();
    assert_eq!(cli.base_url, Some("https://canvas.example".to_string()));
    assert_eq!(cli.access_token, Some("SECRET-REDACTED".to_string()));
    assert!(matches!(cli.command, Commands::Sync));
}

#[test]
fn test_rejects_unknown_command() {
    let r = Cli::parse_args(&argv(&["canvas-cli", "frobnicate"]));
    assert_eq!(r.unwrap_err(), CliError::UnknownCommand);
}

#[test]
fn test_rejects_bad_number() {
    let r = Cli::parse_args(&argv(&["canvas-cli", "course", "12x4"]));
    assert_eq!(r.unwrap_err(), CliError::InvalidNumber);

    // One past the largest course identifier a u64 can carry.
    let r = Cli::parse_args(&argv(&["canvas-cli", "course", "18446744073709551616"]));
    assert_eq!(r.unwrap_err(), CliError::InvalidNumber);

    let ok = Cli::parse_args(&argv(&["canvas-cli", "course", "18446744073709551615"])).unwrap();
    match ok.command {
        Commands::Course(args) => assert_eq!(args.course_id, u64::MAX),
        _ => panic!("Expected Course command"),
    }
}

#[test]
fn test_rejects_missing_arguments() {
    assert_eq!(
        Cli::parse_args(&argv(&["canvas-cli"])).unwrap_err(),
        CliError::MissingCommand
    );
    assert_eq!(
        Cli::parse_args(&argv(&["canvas-cli", "course"])).unwrap_err(),
        CliError::MissingArgument
    );
    assert_eq!(
        Cli::parse_args(&argv(&["canvas-cli", "module-items", "7"])).unwrap_err(),
        CliError::MissingArgument
    );
    assert_eq!(
        Cli::parse_args(&argv(&["canvas-cli", "--base-url"])).unwrap_err(),
        CliError::MissingValue
    );
    assert_eq!(
        Cli::parse_args(&argv(&["canvas-cli", "courses", "extra"])).unwrap_err(),
        CliError::UnexpectedArgument
    );
}

#[test]
fn test_two_id_commands() {
    let cli = Cli::parse_args(&argv(&["canvas-cli", "module-items", "7", "9"])).unwrap();
    match cli.command {
        Commands::ModuleItems(args) => {
            assert_eq!(args.course_id, 7);
            assert_eq!(args.module_id, 9);
        }
        _ => panic!("Expected ModuleItems command"),
    }
    let cli = Cli::parse_args(&argv(&["canvas-cli", "post-discussion", "7", "9", "hello"])).unwrap();
    match cli.command {
        Commands::PostDiscussion(args) => {
            assert_eq!(args.course_id, 7);
            assert_eq!(args.topic_id, 9);
            assert_eq!(args.message, "hello");
        }
        _ => panic!("Expected PostDiscussion command"),
    }
}
