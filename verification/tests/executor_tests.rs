use rush::command::{Redirection, Segment, Sequencer, Stage};
use rush::executor::{Action, Channel, Executor, Notice, Outcome};
use rush::session::Variables;
use rush::shell::plan_line;

const HOME_DIR: &str = "/home/user";
const SEARCH_PATH: &str = "/usr/bin:/bin";

fn executor_for(line: &str) -> Executor {
    let vars = Variables::of_session(HOME_DIR, SEARCH_PATH);
    Executor::new(plan_line(line, &vars), HOME_DIR, SEARCH_PATH)
}

fn launch(
    command: &str,
    program: &str,
    args: &[&str],
    redirection: Redirection,
    piped_input: bool,
) -> Action {
    Action::Launch {
        command: command.to_string(),
        program: program.to_string(),
        args: args.iter().map(|a| a.to_string()).collect(),
        redirection,
        piped_input,
    }
}

fn probe(candidate: &str) -> Action {
    Action::Probe { candidate: candidate.to_string() }
}

fn stdout(text: &str) -> Option<Notice> {
    Some(Notice { channel: Channel::Stdout, text: text.to_string() })
}

fn stderr(text: &str) -> Option<Notice> {
    Some(Notice { channel: Channel::Stderr, text: text.to_string() })
}

/// Answers probes until the executor names another action. Every program
/// but those in `missing` is an executable file in `/bin`.
fn resolve(executor: &mut Executor, missing: &[&str], told: &mut Vec<String>) -> Action {
    loop {
        match executor.action() {
            Action::Probe { candidate } => {
                let found = match candidate.strip_prefix("/bin/") {
                    Some(name) => !missing.contains(&name),
                    None => false,
                };
                if let Some(notice) = executor.report(Outcome::Probed(found)) {
                    told.push(notice.text);
                }
            }
            other => return other,
        }
    }
}

/// Runs a line. Every program but those in `missing` is found; every
/// program that runs succeeds, but those in `failing`.
fn run(line: &str, missing: &[&str], failing: &[&str]) -> Vec<String> {
    let mut executor = executor_for(line);
    let mut log = Vec::new();
    loop {
        match resolve(&mut executor, missing, &mut log) {
            Action::Launch { command, .. } => {
                let success = !failing.contains(&command.as_str());
                log.push(command);
                executor.report(Outcome::Completed(success));
            }
            Action::ChangeDirectory { target } => {
                log.push(format!("cd {}", target));
                executor.report(Outcome::Completed(true));
            }
            Action::Exit(code) => {
                log.push(format!("exit {}", code));
                return log;
            }
            Action::Finished => return log,
            Action::Probe { .. } => unreachable!(),
        }
    }
}

#[test]
fn a_blank_line_runs_nothing() {
    for line in ["", " ", "\t\n", "   \r\n", "\u{a0}\u{2003}"] {
        let mut executor = executor_for(line);
        assert!(executor.is_finished());
        assert_eq!(executor.action(), Action::Finished);
        assert_eq!(executor.report(Outcome::Completed(true)), None);
        assert_eq!(executor.action(), Action::Finished);
    }
}

#[test]
fn a_blank_line_has_an_empty_plan() {
    let vars = Variables::new();
    assert_eq!(plan_line("   ", &vars), vec![]);
    assert_eq!(plan_line("\r", &vars), vec![]);
    assert_eq!(plan_line(";", &vars), vec![]);
}

#[test]
fn plan_line_lexes_and_parses() {
    let vars = Variables::of_session(HOME_DIR, "/bin");
    assert_eq!(
        plan_line("echo $HOME > out", &vars),
        vec![Segment {
            stages: vec![Stage {
                program: "echo".to_string(),
                args: vec![HOME_DIR.to_string()],
                redirection: Redirection::WriteStdout("out".to_string(), false),
            }],
            terminator: Sequencer::End,
        }]
    );
}

#[test]
fn and_skips_after_failure() {
    assert_eq!(run("false && echo hi", &[], &["false"]), vec!["false"]);
    assert_eq!(run("true && echo hi", &[], &["false"]), vec!["true", "echo"]);
    assert_eq!(run("false && echo hi ; echo more", &[], &["false"]), vec!["false"]);
}

#[test]
fn or_runs_after_failure() {
    assert_eq!(run("false || echo hi", &[], &["false"]), vec!["false", "echo"]);
    assert_eq!(run("true || echo hi", &[], &["false"]), vec!["true"]);
    assert_eq!(run("true || echo hi ; echo more", &[], &["false"]), vec!["true"]);
}

#[test]
fn semicolon_always_goes_on() {
    assert_eq!(run("true; echo always", &[], &["false"]), vec!["true", "echo"]);
    assert_eq!(run("false; echo always", &[], &["false"]), vec!["false", "echo"]);
    assert_eq!(
        run("missing; echo always", &["missing"], &[]),
        vec!["missing: command not found", "echo"]
    );
}

#[test]
fn a_command_that_is_not_found_counts_as_failed() {
    assert_eq!(
        run("missing && echo hi", &["missing"], &[]),
        vec!["missing: command not found"]
    );
    assert_eq!(
        run("missing || echo hi", &["missing"], &[]),
        vec!["missing: command not found", "echo"]
    );
}

#[test]
fn the_last_stage_decides_the_segment() {
    assert_eq!(run("a | b && c", &[], &["a"]), vec!["a", "b", "c"]);
    assert_eq!(run("a | b && c", &[], &["b"]), vec!["a", "b"]);
}

#[test]
fn candidates_are_probed_in_the_order_of_the_search_path() {
    let mut executor = executor_for("ls -l");
    assert_eq!(executor.action(), probe("/usr/bin/ls"));
    assert_eq!(executor.action(), probe("/usr/bin/ls"));
    assert_eq!(executor.report(Outcome::Probed(false)), None);
    assert_eq!(executor.action(), probe("/bin/ls"));
    assert_eq!(executor.report(Outcome::Probed(true)), None);
    assert_eq!(
        executor.action(),
        launch("ls", "/bin/ls", &["-l"], Redirection::Inherit, false)
    );
    assert_eq!(executor.report(Outcome::Completed(true)), None);
    assert_eq!(executor.action(), Action::Finished);
}

#[test]
fn the_first_match_is_launched() {
    let mut executor = executor_for("ls");
    assert_eq!(executor.report(Outcome::Probed(true)), None);
    assert_eq!(executor.action(), launch("ls", "/usr/bin/ls", &[], Redirection::Inherit, false));
}

#[test]
fn a_path_is_probed_directly() {
    let mut executor = executor_for("./run x");
    assert_eq!(executor.action(), probe("./run"));
    assert_eq!(executor.report(Outcome::Probed(true)), None);
    assert_eq!(executor.action(), launch("./run", "./run", &["x"], Redirection::Inherit, false));
    let mut executor = executor_for("/opt/tool ; echo next");
    assert_eq!(executor.action(), probe("/opt/tool"));
    assert_eq!(executor.report(Outcome::Probed(false)), stdout("/opt/tool: command not found"));
    assert_eq!(executor.action(), probe("/usr/bin/echo"));
}

#[test]
fn a_command_that_is_not_found_is_reported_on_stdout() {
    let mut executor = executor_for("frobnicate");
    assert_eq!(executor.report(Outcome::Probed(false)), None);
    assert_eq!(executor.report(Outcome::Probed(false)), stdout("frobnicate: command not found"));
    assert!(!executor.last_success());
    assert_eq!(executor.action(), Action::Finished);
}

#[test]
fn a_pipeline_feeds_each_stage_to_the_next() {
    let mut executor = executor_for("cmd1 x | cmd2 | cmd3");
    let mut told = Vec::new();
    assert_eq!(
        resolve(&mut executor, &[], &mut told),
        launch("cmd1", "/bin/cmd1", &["x"], Redirection::PipeToNext, false)
    );
    executor.report(Outcome::Completed(true));
    assert_eq!(
        resolve(&mut executor, &[], &mut told),
        launch("cmd2", "/bin/cmd2", &[], Redirection::PipeToNext, true)
    );
    executor.report(Outcome::Completed(false));
    assert_eq!(
        resolve(&mut executor, &[], &mut told),
        launch("cmd3", "/bin/cmd3", &[], Redirection::Inherit, true)
    );
    assert!(!executor.last_success());
    executor.report(Outcome::Completed(true));
    assert!(executor.last_success());
    assert_eq!(executor.action(), Action::Finished);
    assert!(told.is_empty());
}

#[test]
fn a_pipe_wins_over_a_redirect_of_an_inner_stage() {
    let mut executor = executor_for("a > f | b 2> e");
    let mut told = Vec::new();
    assert_eq!(
        resolve(&mut executor, &[], &mut told),
        launch("a", "/bin/a", &[], Redirection::PipeToNext, false)
    );
    executor.report(Outcome::Completed(true));
    assert_eq!(
        resolve(&mut executor, &[], &mut told),
        launch("b", "/bin/b", &[], Redirection::WriteStderr("e".to_string(), false), true)
    );
}

#[test]
fn truncate_and_append_are_told_apart() {
    let mut told = Vec::new();
    let mut executor = executor_for("echo a > f.txt");
    assert_eq!(
        resolve(&mut executor, &[], &mut told),
        launch(
            "echo",
            "/bin/echo",
            &["a"],
            Redirection::WriteStdout("f.txt".to_string(), false),
            false
        )
    );
    let mut executor = executor_for("echo b >> f.txt");
    assert_eq!(
        resolve(&mut executor, &[], &mut told),
        launch(
            "echo",
            "/bin/echo",
            &["b"],
            Redirection::WriteStdout("f.txt".to_string(), true),
            false
        )
    );
    let mut executor = executor_for("cat f.txt");
    assert_eq!(
        resolve(&mut executor, &[], &mut told),
        launch("cat", "/bin/cat", &["f.txt"], Redirection::Inherit, false)
    );
}

#[test]
fn a_stage_after_one_that_was_not_found_reads_the_terminal() {
    let mut executor = executor_for("missing | wc");
    let mut told = Vec::new();
    assert_eq!(
        resolve(&mut executor, &["missing"], &mut told),
        launch("wc", "/bin/wc", &[], Redirection::Inherit, false)
    );
    assert_eq!(told, vec!["missing: command not found"]);
}

#[test]
fn a_stage_that_cannot_run_ends_its_segment() {
    let mut told = Vec::new();
    let mut executor = executor_for("a | b | c ; d");
    resolve(&mut executor, &[], &mut told);
    executor.report(Outcome::Completed(true));
    resolve(&mut executor, &[], &mut told);
    assert_eq!(
        executor.report(Outcome::Failed("Permission denied (os error 13)".to_string())),
        stderr("Error executing command: Permission denied (os error 13)")
    );
    assert!(!executor.last_success());
    assert_eq!(
        resolve(&mut executor, &[], &mut told),
        launch("d", "/bin/d", &[], Redirection::Inherit, false)
    );
    let mut executor = executor_for("a | b && d");
    resolve(&mut executor, &[], &mut told);
    assert_eq!(
        executor.report(Outcome::Failed("broken".to_string())),
        stderr("Error executing command: broken")
    );
    assert_eq!(executor.action(), Action::Finished);
}

#[test]
fn exit_ends_the_shell_with_its_code() {
    assert_eq!(executor_for("exit").action(), Action::Exit(0));
    assert_eq!(executor_for("exit 3").action(), Action::Exit(3));
    assert_eq!(executor_for("exit -1").action(), Action::Exit(-1));
    assert_eq!(executor_for("exit abc").action(), Action::Exit(0));
    assert_eq!(executor_for("exit 3 4").action(), Action::Exit(3));
    assert_eq!(run("echo a ; exit 2 ; echo b", &[], &[]), vec!["echo", "exit 2"]);
}

#[test]
fn a_report_after_exit_changes_nothing() {
    let mut executor = executor_for("exit 5 ; echo a");
    assert_eq!(executor.report(Outcome::Completed(true)), None);
    assert_eq!(executor.action(), Action::Exit(5));
}

#[test]
fn cd_changes_the_directory() {
    assert_eq!(
        executor_for("cd").action(),
        Action::ChangeDirectory { target: HOME_DIR.to_string() }
    );
    assert_eq!(
        executor_for("cd /tmp").action(),
        Action::ChangeDirectory { target: "/tmp".to_string() }
    );
    assert_eq!(
        executor_for("cd ~/docs").action(),
        Action::ChangeDirectory { target: "/home/user/docs".to_string() }
    );
}

#[test]
fn a_failed_cd_is_reported_with_the_path_as_given() {
    let mut executor = executor_for("cd ~/nowhere");
    assert_eq!(
        executor.report(Outcome::Completed(false)),
        stdout("cd: ~/nowhere: No such file or directory")
    );
    assert!(!executor.last_success());
    let mut executor = executor_for("cd");
    assert_eq!(
        executor.report(Outcome::Completed(false)),
        stdout("cd: /home/user: No such file or directory")
    );
    let mut executor = executor_for("cd /tmp");
    assert_eq!(executor.report(Outcome::Completed(true)), None);
    assert!(executor.last_success());
}

#[test]
fn a_failed_cd_fails_its_segment() {
    let mut executor = executor_for("cd /nowhere && echo hi");
    executor.report(Outcome::Completed(false));
    assert_eq!(executor.action(), Action::Finished);
    let mut executor = executor_for("cd /tmp && echo hi");
    executor.report(Outcome::Completed(true));
    assert_eq!(executor.action(), probe("/usr/bin/echo"));
}

#[test]
fn a_builtin_in_a_pipeline_is_launched() {
    let mut told = Vec::new();
    let mut executor = executor_for("cd /tmp | cat");
    assert_eq!(
        resolve(&mut executor, &[], &mut told),
        launch("cd", "/bin/cd", &["/tmp"], Redirection::PipeToNext, false)
    );
    let mut executor = executor_for("ls | exit");
    resolve(&mut executor, &[], &mut told);
    executor.report(Outcome::Completed(true));
    assert_eq!(
        resolve(&mut executor, &[], &mut told),
        launch("exit", "/bin/exit", &[], Redirection::Inherit, true)
    );
}

#[test]
fn a_finished_executor_stays_finished() {
    let mut told = Vec::new();
    let mut executor = executor_for("a");
    resolve(&mut executor, &[], &mut told);
    executor.report(Outcome::Completed(true));
    assert!(executor.is_finished());
    assert_eq!(executor.report(Outcome::Completed(false)), None);
    assert_eq!(executor.report(Outcome::Failed("x".to_string())), None);
    assert_eq!(executor.report(Outcome::Probed(true)), None);
    assert!(executor.is_finished());
    assert_eq!(executor.action(), Action::Finished);
}
