use inker::cli::{Cli, CliAction, DeletionAnswer};

fn args(words: &[&str]) -> Vec<String> {
    words.iter().map(|w| w.to_string()).collect()
}

#[test]
fn too_few_arguments() {
    let a = args(&["inker"]);
    assert_eq!(Cli::new(&a).err(), Some("not enough arg2s"));
}

#[test]
fn new_and_delete_need_a_name() {
    let a = args(&["inker", "new"]);
    assert_eq!(Cli::new(&a).err(), Some("not enough arguments, please provide the post name"));
    let b = args(&["inker", "delete"]);
    assert_eq!(Cli::new(&b).err(), Some("not enough arguments, please provide the post name"));
}

#[test]
fn unknown_command() {
    let a = args(&["inker", "publish"]);
    assert_eq!(
        Cli::new(&a).err(),
        Some("you entered an unknown command. current commands are \nbuild\nclean\nnew\ndelete\ndeleteall")
    );
}

#[test]
fn actions_of_commands() {
    let a = args(&["inker", "build"]);
    assert!(matches!(Cli::new(&a).unwrap().action(), CliAction::Build));
    let a = args(&["inker", "clean"]);
    assert!(matches!(Cli::new(&a).unwrap().action(), CliAction::Clean));
    let a = args(&["inker", "deleteall"]);
    assert!(matches!(Cli::new(&a).unwrap().action(), CliAction::DeleteAll));
    let a = args(&["inker", "livereload"]);
    assert!(matches!(Cli::new(&a).unwrap().action(), CliAction::LiveReload));
}

#[test]
fn server_command_serves_with_reload() {
    let a = args(&["inker", "server"]);
    let c = Cli::new(&a).unwrap();
    assert!(matches!(c.action(), CliAction::LiveReload));
}

#[test]
fn post_name_is_the_joined_rest() {
    let a = args(&["inker", "new", "my", "first", "post"]);
    match Cli::new(&a).unwrap().action() {
        CliAction::CreatePost(name) => assert_eq!(name, "my first post"),
        _ => panic!("expected a new post"),
    }
    let b = args(&["inker", "delete", "solo"]);
    match Cli::new(&b).unwrap().action() {
        CliAction::DeletePost(name) => assert_eq!(name, "solo"),
        _ => panic!("expected a deletion"),
    }
}

#[test]
fn extra_arguments_are_allowed_for_other_commands() {
    let a = args(&["inker", "build", "extra"]);
    assert!(matches!(Cli::new(&a).unwrap().action(), CliAction::Build));
}

#[test]
fn deletion_answers() {
    assert_eq!(Cli::deletion_answer("y\n"), DeletionAnswer::Yes);
    assert_eq!(Cli::deletion_answer("yes\n"), DeletionAnswer::Yes);
    assert_eq!(Cli::deletion_answer("n\n"), DeletionAnswer::No);
    assert_eq!(Cli::deletion_answer("no\n"), DeletionAnswer::No);
    assert_eq!(Cli::deletion_answer("maybe\n"), DeletionAnswer::Invalid);
    assert_eq!(Cli::deletion_answer("y"), DeletionAnswer::Invalid);
    assert_eq!(Cli::deletion_answer("yes!"), DeletionAnswer::Yes);
}
