use myspace::cli::commands::{branch_action, BranchAction, Cli, Commands, FlagError};

#[test]
fn branch_flags_without_delete() {
    assert_eq!(branch_action(&vec![], &None, false, false, false), Ok(BranchAction::Grow));
    assert_eq!(
        branch_action(&vec!["repo-a".to_string()], &Some("base".to_string()), false, false, false),
        Ok(BranchAction::Grow)
    );
    assert_eq!(
        branch_action(&vec![], &None, false, true, false),
        Err(FlagError::DeleteOnlyFlags)
    );
    assert_eq!(
        branch_action(&vec![], &None, false, false, true),
        Err(FlagError::DeleteOnlyFlags)
    );
}

#[test]
fn branch_flags_with_delete() {
    assert_eq!(branch_action(&vec![], &None, true, true, true), Ok(BranchAction::TearDown));
    assert_eq!(
        branch_action(&vec!["repo-a".to_string()], &None, true, false, false),
        Err(FlagError::DeleteTakesOnlyName)
    );
    assert_eq!(
        branch_action(&vec![], &Some("base".to_string()), true, false, false),
        Err(FlagError::DeleteTakesOnlyName)
    );
}

#[test]
fn flag_error_messages() {
    assert_eq!(FlagError::DeleteTakesOnlyName.message(), "-d takes only the branch set name");
    assert_eq!(
        FlagError::DeleteOnlyFlags.message(),
        "--force and --keep-branch only apply with -d"
    );
}

#[test]
fn commands_carry_their_arguments() {
    let cli = Cli { command: Commands::Status { all: true, json: false } };
    match cli.command {
        Commands::Status { all, json } => assert!(all && !json),
        _ => panic!("wrong command"),
    }
}
