use rush::errors::ParseError;
use rush::job::{Input, Job, JobMode, Output, OutputRedirect, Process};
use rush::parser::{argument_list, parse_job, process_car, redirect_in, redirect_out, token};

fn strings(words: &[&str]) -> Vec<String> {
    words.iter().map(|w| String::from(*w)).collect()
}

#[test]
fn token_test() {
    assert_eq!(token(b"t", 0), Ok((String::from("t"), 1)));
    assert_eq!(token(b"token", 0), Ok((String::from("token"), 5)));

    let s: &[u8] = b"token<";
    assert_eq!(token(s, 0), Ok((String::from("token"), 5)));
    assert_eq!(&s[5..], b"<");

    let s: &[u8] = b"token>|&";
    assert_eq!(token(s, 0), Ok((String::from("token"), 5)));
    assert_eq!(&s[5..], b">|&");

    let s: &[u8] = b"token ";
    assert_eq!(token(s, 0), Ok((String::from("token"), 5)));
    assert_eq!(&s[5..], b" ");

    let s: &[u8] = b"token token";
    assert_eq!(token(s, 0), Ok((String::from("token"), 5)));
    assert_eq!(&s[5..], b" token");

    let s: &[u8] = b"token\ttoken  ";
    assert_eq!(token(s, 0), Ok((String::from("token"), 5)));
    assert_eq!(&s[5..], b"\ttoken  ");

    assert_eq!(token(b"", 0), Err(ParseError::Incomplete));
}

#[test]
fn argument_list_test() {
    let s: &[u8] = b"cmd";
    assert_eq!(argument_list(s, 0), Ok((strings(&["cmd"]), s.len())));

    let s: &[u8] = b"cmd arg";
    assert_eq!(argument_list(s, 0), Ok((strings(&["cmd", "arg"]), s.len())));

    let s: &[u8] = b" cmd  arg0\targ1 \t";
    assert_eq!(
        argument_list(s, 0),
        Ok((strings(&["cmd", "arg0", "arg1"]), s.len()))
    );
}

#[test]
fn redirect_in_test() {
    let s: &[u8] = b"< file_name";
    assert_eq!(
        redirect_in(s, 0),
        Ok((Input::Redirect(String::from("file_name")), s.len()))
    );

    let s: &[u8] = b" <file_name ";
    assert_eq!(
        redirect_in(s, 0),
        Ok((Input::Redirect(String::from("file_name")), s.len()))
    );
}

#[test]
fn redirect_out_test() {
    let s: &[u8] = b"> file_name";
    assert_eq!(
        redirect_out(s, 0),
        Ok((
            Output::Redirect(OutputRedirect::Truncate(String::from("file_name"))),
            s.len()
        ))
    );

    let s: &[u8] = b" >file_name ";
    assert_eq!(
        redirect_out(s, 0),
        Ok((
            Output::Redirect(OutputRedirect::Truncate(String::from("file_name"))),
            s.len()
        ))
    );

    let s: &[u8] = b">> file_name";
    assert_eq!(
        redirect_out(s, 0),
        Ok((
            Output::Redirect(OutputRedirect::Append(String::from("file_name"))),
            s.len()
        ))
    );
}

#[test]
fn process_test() {
    let s: &[u8] = b"cmd";
    assert_eq!(
        process_car(s, 0),
        Ok((
            Process::new(strings(&["cmd"]), Input::Inherit, Output::Inherit),
            s.len()
        ))
    );

    let s: &[u8] = b"cmd < file";
    assert_eq!(
        process_car(s, 0),
        Ok((
            Process::new(
                strings(&["cmd"]),
                Input::Redirect(String::from("file")),
                Output::Inherit
            ),
            s.len()
        ))
    );

    let s: &[u8] = b"cmd > file";
    assert_eq!(
        process_car(s, 0),
        Ok((
            Process::new(
                strings(&["cmd"]),
                Input::Inherit,
                Output::Redirect(OutputRedirect::Truncate(String::from("file")))
            ),
            s.len()
        ))
    );

    let s: &[u8] = b"cmd arg0 arg1 < file0 >> file1";
    assert_eq!(
        process_car(s, 0),
        Ok((
            Process::new(
                strings(&["cmd", "arg0", "arg1"]),
                Input::Redirect(String::from("file0")),
                Output::Redirect(OutputRedirect::Append(String::from("file1")))
            ),
            s.len()
        ))
    );

    let (a, _) = process_car(b"cmd arg0 arg1 < file0 >> file1", 0).unwrap();
    let (b, _) = process_car(b" cmd \t arg0 arg1 < file0 >> file1\n", 0).unwrap();
    assert_eq!(a, b);

    assert!(process_car(b"< file cmd", 0).is_err());
    assert!(process_car(b"> file cmd", 0).is_err());

    // Redirects may stand in either order: `> out < in` reads the same as
    // `< in > out`.
    let s: &[u8] = b"cmd > file0 < file1";
    assert_eq!(
        process_car(s, 0),
        Ok((
            Process::new(
                strings(&["cmd"]),
                Input::Redirect(String::from("file1")),
                Output::Redirect(OutputRedirect::Truncate(String::from("file0")))
            ),
            s.len()
        ))
    );
}

#[test]
fn job_test() {
    assert_eq!(
        parse_job(b"cmd"),
        Ok(Job::new(
            Process::new(strings(&["cmd"]), Input::Inherit, Output::Inherit),
            JobMode::ForeGround,
        ))
    );

    assert_eq!(
        parse_job(b"cmd < file0 > file1"),
        Ok(Job::new(
            Process::new(
                strings(&["cmd"]),
                Input::Redirect(String::from("file0")),
                Output::Redirect(OutputRedirect::Truncate(String::from("file1"))),
            ),
            JobMode::ForeGround,
        ))
    );

    assert_eq!(
        parse_job(b"cmd0 | cmd1"),
        Ok(Job::new(
            {
                let proc1 = Process::new(strings(&["cmd1"]), Input::Pipe, Output::Inherit);
                Process::new(
                    strings(&["cmd0"]),
                    Input::Inherit,
                    Output::Pipe(Box::new(proc1)),
                )
            },
            JobMode::ForeGround,
        ))
    );

    assert_eq!(
        parse_job(b"cmd0 < file0 | cmd1 arg1 > file1"),
        Ok(Job::new(
            {
                let proc1 = Process::new(
                    strings(&["cmd1", "arg1"]),
                    Input::Pipe,
                    Output::Redirect(OutputRedirect::Truncate(String::from("file1"))),
                );
                Process::new(
                    strings(&["cmd0"]),
                    Input::Redirect(String::from("file0")),
                    Output::Pipe(Box::new(proc1)),
                )
            },
            JobMode::ForeGround,
        ))
    );

    assert_eq!(
        parse_job(b"cmd0 < file0 | cmd1 arg1 | cmd2 arg2 arg3 >> file3 &"),
        Ok(Job::new(
            {
                let proc2 = Process::new(
                    strings(&["cmd2", "arg2", "arg3"]),
                    Input::Pipe,
                    Output::Redirect(OutputRedirect::Append(String::from("file3"))),
                );
                let proc1 = Process::new(
                    strings(&["cmd1", "arg1"]),
                    Input::Pipe,
                    Output::Pipe(Box::new(proc2)),
                );
                Process::new(
                    strings(&["cmd0"]),
                    Input::Redirect(String::from("file0")),
                    Output::Pipe(Box::new(proc1)),
                )
            },
            JobMode::BackGround,
        ))
    );

    assert_eq!(
        parse_job(b"cmd0 < file0 | cmd1 arg1 | cmd2 arg2 arg3 >> file3 &"),
        parse_job(b" cmd0 < file0 \t | cmd1 arg1 | cmd2 arg2 arg3 >> file3 & \n"),
    );

    assert!(parse_job(b"| cmd").is_err());
    assert!(parse_job(b"cmd |").is_err());
    assert!(parse_job(b"&").is_err());
    assert!(parse_job(b"cmd < file |").is_err());

    assert!(parse_job(b"> file").is_err());
    assert!(parse_job(b"file >").is_err());

    assert!(parse_job(b"& cmd").is_err());
    assert!(parse_job(b"cmd0 & | cmd1").is_err());

    assert!(parse_job(b"cmd0 > file | cmd1").is_err());
    assert!(parse_job(b"cmd0 | cmd1 < file").is_err());
    assert!(parse_job(b"cmd0 | cmd1 > file | cmd2").is_err());
}

#[test]
fn single_stage_inherits_both_streams() {
    let job = parse_job(b"cmd").unwrap();
    assert_eq!(
        job,
        Job::new(
            Process::new(strings(&["cmd"]), Input::Inherit, Output::Inherit),
            JobMode::ForeGround,
        )
    );
}

#[test]
fn two_stages_are_joined_by_a_pipe() {
    let job = parse_job(b"cmd0 | cmd1").unwrap();
    let expected = Job::new(
        Process::new(
            strings(&["cmd0"]),
            Input::Inherit,
            Output::Pipe(Box::new(Process::new(
                strings(&["cmd1"]),
                Input::Pipe,
                Output::Inherit,
            ))),
        ),
        JobMode::ForeGround,
    );
    assert_eq!(job, expected);
}

#[test]
fn both_redirects_on_one_stage() {
    let job = parse_job(b"cmd < in > out").unwrap();
    assert_eq!(
        job,
        Job::new(
            Process::new(
                strings(&["cmd"]),
                Input::Redirect(String::from("in")),
                Output::Redirect(OutputRedirect::Truncate(String::from("out"))),
            ),
            JobMode::ForeGround,
        )
    );
}

#[test]
fn double_angle_appends() {
    let job = parse_job(b"cmd >> out").unwrap();
    assert_eq!(
        job,
        Job::new(
            Process::new(
                strings(&["cmd"]),
                Input::Inherit,
                Output::Redirect(OutputRedirect::Append(String::from("out"))),
            ),
            JobMode::ForeGround,
        )
    );
}

#[test]
fn ampersand_selects_background_mode() {
    let bg = parse_job(b"cmd &").unwrap();
    assert_eq!(bg.mode, JobMode::BackGround);
    let fg = parse_job(b"cmd").unwrap();
    assert_eq!(fg.mode, JobMode::ForeGround);
}

#[test]
fn whitespace_only_separates_tokens() {
    assert_eq!(parse_job(b"cmd arg"), parse_job(b"  cmd \t arg  "));
}

#[test]
fn three_stages_with_mixed_redirection() {
    let job = parse_job(b"cmd0 < a | cmd1 | cmd2 arg >> b &").unwrap();
    let expected = Job::new(
        Process::new(
            strings(&["cmd0"]),
            Input::Redirect(String::from("a")),
            Output::Pipe(Box::new(Process::new(
                strings(&["cmd1"]),
                Input::Pipe,
                Output::Pipe(Box::new(Process::new(
                    strings(&["cmd2", "arg"]),
                    Input::Pipe,
                    Output::Redirect(OutputRedirect::Append(String::from("b"))),
                ))),
            ))),
        ),
        JobMode::BackGround,
    );
    assert_eq!(job, expected);
}

#[test]
fn empty_and_unfinished_lines_want_more_input() {
    assert_eq!(parse_job(b""), Err(ParseError::Incomplete));
    assert_eq!(parse_job(b"   \t "), Err(ParseError::Incomplete));
    assert_eq!(parse_job(b"cmd <"), Err(ParseError::Incomplete));
    assert_eq!(parse_job(b"cmd |"), Err(ParseError::Incomplete));
}

#[test]
fn misplaced_bytes_are_malformed() {
    assert_eq!(parse_job(b"| cmd"), Err(ParseError::Malformed));
    assert_eq!(parse_job(b"&"), Err(ParseError::Malformed));
    assert_eq!(parse_job(b"> file"), Err(ParseError::Malformed));
    assert_eq!(parse_job(b"cmd < a < b"), Err(ParseError::Malformed));
    assert_eq!(parse_job(b"cmd > a > b"), Err(ParseError::Malformed));
}

#[test]
fn arguments_must_be_utf8() {
    let line: &[u8] = &[99, 109, 100, 32, 255, 254];
    assert_eq!(parse_job(line), Err(ParseError::Malformed));
    let ok: &[u8] = &[99, 109, 100];
    assert!(parse_job(ok).is_ok());
}

#[test]
fn terminators_end_the_job() {
    assert!(parse_job(b"cmd\n").is_ok());
    assert!(parse_job(b"cmd;").is_ok());
    assert!(parse_job(b"cmd\r\n").is_ok());
    assert!(parse_job(b"cmd; ls").is_err());
}
