use rush::pipeline::{
    begin_pipeline, end_of_line, historyShell, jobsShell, plan_pipeline, pwdShell, record_stage, Input, Output,
    ProcessState, SingleCommand, Stage,
};

fn command(raw: &str, processes: Vec<Option<ProcessState>>) -> SingleCommand {
    SingleCommand {
        rawCommand: String::from(raw),
        isBackground: false,
        commandOutput: String::new(),
        processes,
    }
}

#[test]
fn two_programs_are_piped() {
    let plan = plan_pipeline("ls -l | wc -c");
    assert!(!plan.is_background);
    assert_eq!(plan.stages.len(), 2);
    match &plan.stages[0] {
        Stage::External { program, args, stdin, stdout } => {
            assert_eq!(program, "ls");
            assert_eq!(args, &vec![String::from("-l")]);
            assert!(matches!(stdin, Input::Inherit));
            assert!(matches!(stdout, Output::Pipe));
        }
        _ => panic!("ls is a program"),
    }
    match &plan.stages[1] {
        Stage::External { program, args, stdin, stdout } => {
            assert_eq!(program, "wc");
            assert_eq!(args, &vec![String::from("-c")]);
            assert!(matches!(stdin, Input::PreviousOutput));
            assert!(matches!(stdout, Output::Inherit));
        }
        _ => panic!("wc is a program"),
    }
}

#[test]
fn files_go_to_the_first_and_last_command() {
    let plan = plan_pipeline("sort < in.txt | uniq > out.txt");
    assert_eq!(plan.stages.len(), 2);
    match &plan.stages[0] {
        Stage::External { program, args, stdin, stdout } => {
            assert_eq!(program, "sort");
            assert!(args.is_empty());
            assert!(matches!(stdin, Input::File(f) if f == "in.txt"));
            assert!(matches!(stdout, Output::Pipe));
        }
        _ => panic!("sort is a program"),
    }
    match &plan.stages[1] {
        Stage::External { program, stdout, .. } => {
            assert_eq!(program, "uniq");
            assert!(matches!(stdout, Output::File(f) if f == "out.txt"));
        }
        _ => panic!("uniq is a program"),
    }
}

#[test]
fn ampersand_marks_background_and_is_cut_off() {
    let plan = plan_pipeline("sleep 10 &");
    assert!(plan.is_background);
    match &plan.stages[0] {
        Stage::External { program, args, .. } => {
            assert_eq!(program, "sleep");
            assert_eq!(args, &vec![String::from("10")]);
        }
        _ => panic!("sleep is a program"),
    }
}

#[test]
fn builtin_output_is_fed_to_the_next_program() {
    let plan = plan_pipeline("history | grep ls");
    assert!(matches!(plan.stages[0], Stage::History));
    match &plan.stages[1] {
        Stage::External { stdin, .. } => assert!(matches!(stdin, Input::BuiltinOutput)),
        _ => panic!("grep is a program"),
    }
}

#[test]
fn builtins_are_recognised() {
    assert!(matches!(plan_pipeline("exit").stages[0], Stage::Exit));
    assert!(matches!(plan_pipeline("pwd").stages[0], Stage::Pwd));
    assert!(matches!(plan_pipeline("jobs").stages[0], Stage::Jobs));
    assert!(matches!(&plan_pipeline("cd /tmp").stages[0], Stage::Cd(Some(d)) if d == "/tmp"));
    assert!(matches!(&plan_pipeline("kill 42").stages[0], Stage::Kill(Some(p)) if p == "42"));
    assert!(matches!(&plan_pipeline("kill").stages[0], Stage::Kill(None)));
    assert!(matches!(&plan_pipeline("cd").stages[0], Stage::Cd(None)));
}

#[test]
fn empty_line_is_one_empty_program() {
    let plan = plan_pipeline("");
    assert_eq!(plan.stages.len(), 1);
    assert!(matches!(&plan.stages[0], Stage::External { program, .. } if program.is_empty()));
}

#[test]
fn double_spaces_give_empty_arguments() {
    let plan = plan_pipeline("echo  a");
    match &plan.stages[0] {
        Stage::External { args, .. } => {
            assert_eq!(args, &vec![String::from(""), String::from("a")])
        }
        _ => panic!("echo is a program"),
    }
}

#[test]
fn history_numbers_lines_from_one() {
    let history = vec![command("ls", vec![]), command("  pwd  ", vec![None])];
    let mut current = command("history", vec![]);
    historyShell(&mut current, &history);
    assert_eq!(current.commandOutput, "    1  ls\n    2  pwd\n");
    assert_eq!(current.rawCommand, "history");
}

#[test]
fn history_of_nothing_is_empty() {
    let mut current = command("history", vec![]);
    historyShell(&mut current, &vec![]);
    assert_eq!(current.commandOutput, "");
}

#[test]
fn jobs_lists_processes_that_run() {
    let history = vec![
        command("sleep 100 &", vec![Some(ProcessState::Running)]),
        command("ls | wc", vec![Some(ProcessState::Exited), Some(ProcessState::Exited)]),
        command("pwd", vec![None]),
        command("yes | head &", vec![Some(ProcessState::Running), Some(ProcessState::Running)]),
    ];
    let mut current = command("jobs", vec![]);
    jobsShell(&mut current, &history);
    assert_eq!(current.commandOutput, "sleep 100\nyes | head\nyes | head\n");
}

#[test]
fn pwd_output_ends_the_line() {
    let mut current = command("pwd", vec![]);
    pwdShell(&mut current, "/home/user");
    assert_eq!(current.commandOutput, "/home/user\n");
}

#[test]
fn stages_are_recorded_one_entry_each() {
    let plan = plan_pipeline("pwd | wc -c &");
    let mut current = command("pwd | wc -c &", vec![]);
    begin_pipeline(&mut current, &plan);
    assert!(current.isBackground);
    current.commandOutput = String::from("/tmp\n");
    record_stage(&mut current, &plan.stages[0]);
    assert_eq!(current.processes, vec![None]);
    assert_eq!(current.commandOutput, "/tmp\n");
    record_stage(&mut current, &plan.stages[1]);
    assert_eq!(current.processes, vec![None, Some(ProcessState::Running)]);
    assert_eq!(current.commandOutput, "");
    record_stage(&mut current, &Stage::Exit);
    assert_eq!(current.processes.len(), 2);
}

#[test]
fn a_foreground_line_stays_foreground() {
    let plan = plan_pipeline("ls");
    let mut current = command("ls", vec![]);
    begin_pipeline(&mut current, &plan);
    assert!(!current.isBackground);
}

#[test]
fn kill_and_cd_leave_no_output() {
    let plan = plan_pipeline("pwd | cd /tmp");
    let mut current = command("pwd | cd /tmp", vec![]);
    current.commandOutput = String::from("/home\n");
    record_stage(&mut current, &plan.stages[0]);
    assert_eq!(current.commandOutput, "/home\n");
    record_stage(&mut current, &plan.stages[1]);
    assert_eq!(current.commandOutput, "");
    assert_eq!(current.processes, vec![None, None]);
    let kill = plan_pipeline("kill 7");
    current.commandOutput = String::from("x");
    record_stage(&mut current, &kill.stages[0]);
    assert_eq!(current.commandOutput, "");
}

#[test]
fn end_of_line_decisions() {
    let mut current = command("ls", vec![]);
    let e = end_of_line(&current);
    assert!(e.wait_for_children);
    assert!(!e.print_output);
    current.isBackground = true;
    current.commandOutput = String::from("out\n");
    let e = end_of_line(&current);
    assert!(!e.wait_for_children);
    assert!(e.print_output);
}
