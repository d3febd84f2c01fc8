use rush::owned;
use rush::owned::OutputPlan;
use rush::single::{
    externals, getSingleCommand, historyShell, is_readable, plan_single_command, BasicAction,
};

#[test]
fn reads_command_arguments_and_files() {
    let c = getSingleCommand("grep -n foo < in.txt > out.txt &");
    assert_eq!(c.command, "grep");
    assert_eq!(c.arguments, vec!["-n", "foo"]);
    assert_eq!(c.inputFile, "in.txt");
    assert_eq!(c.outputFile, "out.txt");
    assert!(c.isBackground);
    assert_eq!(c.commandOutput, "");
}

#[test]
fn word_after_a_redirection_is_not_an_argument() {
    let c = getSingleCommand("cat < a b < c d");
    assert_eq!(c.arguments, vec!["b", "d"]);
    assert_eq!(c.inputFile, "c");
    assert_eq!(c.outputFile, "");
    assert!(!c.isBackground);
}

#[test]
fn marks_after_a_redirection_keep_skipping() {
    let c = getSingleCommand("cat < & g h");
    assert_eq!(c.arguments, vec!["h"]);
    assert_eq!(c.inputFile, "&");
    assert!(c.isBackground);
}

#[test]
fn first_word_is_not_a_mark() {
    let c = getSingleCommand("& x");
    assert_eq!(c.command, "&");
    assert_eq!(c.arguments, vec!["x"]);
    assert!(!c.isBackground);
}

#[test]
fn readable_lines() {
    assert!(is_readable("ls"));
    assert!(is_readable("<"));
    assert!(is_readable("cat < f"));
    assert!(!is_readable("cat <"));
    assert!(!is_readable("cat >"));
}

#[test]
fn actions_of_single_commands() {
    assert!(matches!(plan_single_command(&getSingleCommand("exit")), BasicAction::Exit));
    assert!(matches!(plan_single_command(&getSingleCommand("pwd")), BasicAction::Pwd));
    assert!(matches!(plan_single_command(&getSingleCommand("history")), BasicAction::History));
    assert!(matches!(plan_single_command(&getSingleCommand("cd /tmp")), BasicAction::Cd(Some("/tmp"))));
    assert!(matches!(plan_single_command(&getSingleCommand("cd")), BasicAction::Cd(None)));
    assert!(matches!(plan_single_command(&getSingleCommand("ls")), BasicAction::Unsupported));
}

#[test]
fn history_listing() {
    let history = vec![String::from("ls"), String::from("pwd")];
    assert_eq!(historyShell(&history), "  1  ls\n  2  pwd\n");
}

#[test]
fn external_words() {
    assert_eq!(externals(&vec![" ls "]), Some(vec!["ls"]));
    assert_eq!(externals(&vec![" ls ", " -l "]), Some(vec!["ls", "-l"]));
    assert_eq!(externals(&vec![" ls ", " -l ", " x "]), Some(vec!["ls", " -l ", " x "]));
    assert_eq!(externals(&vec![]), None);
    assert_eq!(externals(&vec!["a", "b", "c", "d"]), None);
}

fn blank() -> owned::SingleCommand {
    owned::SingleCommand {
        command: String::new(),
        inputFile: String::new(),
        outputFile: String::new(),
        isBackground: false,
        arguments: vec![String::from("old")],
        commandOutput: String::from("kept"),
    }
}

#[test]
fn owned_command_reads_its_line() {
    let mut c = blank();
    owned::getSingleCommand(&mut c, String::from(" echo a < f b &"));
    assert_eq!(c.command, "");
    let mut d = blank();
    owned::getSingleCommand(&mut d, String::from("echo a < f b &"));
    assert_eq!(d.command, "echo");
    assert_eq!(d.inputFile, "echo");
    assert_eq!(d.outputFile, "echo");
    assert_eq!(d.arguments, vec!["old", "a", "b"]);
    assert!(d.isBackground);
    assert_eq!(d.commandOutput, "kept");
}

#[test]
fn owned_command_output_plan() {
    let mut c = blank();
    owned::getSingleCommand(&mut c, String::from("exit"));
    assert!(matches!(owned::executeSingleCommand(&c), OutputPlan::Exit));
    let mut d = blank();
    owned::getSingleCommand(&mut d, String::from("ls"));
    assert!(matches!(owned::executeSingleCommand(&d), OutputPlan::WriteFile));
    d.outputFile = String::new();
    assert!(matches!(owned::executeSingleCommand(&d), OutputPlan::Print));
    d.commandOutput = String::new();
    assert!(matches!(owned::executeSingleCommand(&d), OutputPlan::Nothing));
}

#[test]
fn a_background_mark_keeps_the_command() {
    for line in ["ls -l", "cat < in.txt x", "sort > out.txt", "a  b", ""] {
        let plain = getSingleCommand(line);
        let marked_line = format!("{} &", line);
        let marked = getSingleCommand(&marked_line);
        assert!(marked.isBackground);
        assert_eq!(marked.command, plain.command);
        assert_eq!(marked.arguments, plain.arguments);
        assert_eq!(marked.inputFile, plain.inputFile);
        assert_eq!(marked.outputFile, plain.outputFile);
    }
}
