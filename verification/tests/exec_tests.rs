use rush::builtins::{cd, exec, CdTarget};
use rush::errors::Error;
use rush::job::{Input, Job, JobMode, Output, OutputRedirect, Process, StageOutput, StagePlan};
use rush::parser::parse_job;

fn strings(words: &[&str]) -> Vec<String> {
    words.iter().map(|w| String::from(*w)).collect()
}

#[test]
fn cd_is_the_only_builtin() {
    assert_eq!(exec(&strings(&["cd"])), Some(CdTarget::Home));
    assert_eq!(
        exec(&strings(&["cd", "/tmp"])),
        Some(CdTarget::Path(String::from("/tmp")))
    );
    assert_eq!(exec(&strings(&["ls"])), None);
    assert_eq!(exec(&strings(&["cdx"])), None);
    assert_eq!(exec(&strings(&["echo", "cd"])), None);
}

#[test]
fn cd_picks_home_or_the_argument() {
    assert_eq!(cd(&strings(&["cd"])), CdTarget::Home);
    assert_eq!(
        cd(&strings(&["cd", "a/b"])),
        CdTarget::Path(String::from("a/b"))
    );
}

#[test]
fn plan_lays_out_the_wiring() {
    let job = parse_job(b"cmd0 < in | cmd1 | cmd2 arg >> out &").unwrap();
    let plans = job.plan().unwrap();
    assert_eq!(
        plans,
        vec![
            StagePlan {
                argument_list: strings(&["cmd0"]),
                builtin: None,
                input: Input::Redirect(String::from("in")),
                output: StageOutput::Pipe,
            },
            StagePlan {
                argument_list: strings(&["cmd1"]),
                builtin: None,
                input: Input::Pipe,
                output: StageOutput::Pipe,
            },
            StagePlan {
                argument_list: strings(&["cmd2", "arg"]),
                builtin: None,
                input: Input::Pipe,
                output: StageOutput::Append(String::from("out")),
            },
        ]
    );
}

#[test]
fn plan_recognizes_a_builtin_stage() {
    let job = parse_job(b"cd /tmp").unwrap();
    let plans = job.plan().unwrap();
    assert_eq!(
        plans,
        vec![StagePlan {
            argument_list: strings(&["cd", "/tmp"]),
            builtin: Some(CdTarget::Path(String::from("/tmp"))),
            input: Input::Inherit,
            output: StageOutput::Inherit,
        }]
    );
}

#[test]
fn builtin_as_pipe_source_is_refused() {
    let job = parse_job(b"cd /tmp | wc").unwrap();
    assert_eq!(job.plan(), Err(Error::BuiltinPipe));
}

#[test]
fn builtin_as_pipe_target_is_allowed() {
    let job = parse_job(b"ls | cd /tmp").unwrap();
    let plans = job.plan().unwrap();
    assert_eq!(plans.len(), 2);
    assert_eq!(plans[0].builtin, None);
    assert_eq!(
        plans[1].builtin,
        Some(CdTarget::Path(String::from("/tmp")))
    );
}

#[test]
fn plan_of_a_built_job_matches_its_shape() {
    let proc1 = Process::new(strings(&["sort"]), Input::Pipe, Output::Inherit);
    let proc0 = Process::new(
        strings(&["cat", "f"]),
        Input::Inherit,
        Output::Pipe(Box::new(proc1)),
    );
    let job = Job::new(proc0, JobMode::ForeGround);
    let plans = job.plan().unwrap();
    assert_eq!(plans.len(), 2);
    assert_eq!(plans[0].argument_list, strings(&["cat", "f"]));
    assert_eq!(plans[0].output, StageOutput::Pipe);
    assert_eq!(plans[1].input, Input::Pipe);
    assert_eq!(plans[1].output, StageOutput::Inherit);
}

#[test]
fn render_writes_the_line_back() {
    let job = parse_job(b"cmd").unwrap();
    assert_eq!(job.render(), "cmd  ");

    let job = parse_job(b"cmd0 < file0 | cmd1 arg1 >> file3 &").unwrap();
    assert_eq!(job.render(), "cmd0 < file0 | cmd1 arg1 >> file3  &");

    let job = parse_job(b"cmd > out").unwrap();
    assert_eq!(job.render(), "cmd > out  ");

    let proc = parse_job(b"a b < c").unwrap();
    assert_eq!(proc.render(), "a b < c  ");
}

#[test]
fn renders_of_different_jobs_differ() {
    let trunc = parse_job(b"cmd > out").unwrap();
    let append = parse_job(b"cmd >> out").unwrap();
    assert_ne!(trunc.render(), append.render());
}
