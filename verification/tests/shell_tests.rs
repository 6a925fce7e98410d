use rwlock::command::{parse_command_line, CommandLine};
use rwlock::jobs::JobTable;
use rwlock::shell::{format_history_entry, job_line_of, Action, Shell};
use rwlock::text::{format_decimal, join_with_spaces, pad_left_exec, parse_i32, split_words};

fn chars(s: &str) -> Vec<char> {
    s.chars().collect()
}

fn string(v: &[char]) -> String {
    v.iter().collect()
}

fn words(s: &str) -> Vec<Vec<char>> {
    split_words(&chars(s))
}

fn strings(ws: &[Vec<char>]) -> Vec<String> {
    ws.iter().map(|w| string(w)).collect()
}

fn parse(s: &str) -> Option<CommandLine> {
    parse_command_line(&words(s))
}

fn stage_strings(cl: &CommandLine) -> Vec<Vec<String>> {
    cl.stages.iter().map(|st| strings(st)).collect()
}

fn act(sh: &mut Shell, line: &str) -> Action {
    sh.handle_line(&chars(line))
}

#[test]
fn split_words_like_split_whitespace() {
    let samples = [
        "",
        "   ",
        "ls",
        "  ls   -l  ",
        "a\tb\nc\u{3000}d\u{a0}e",
        "x\u{2003}y\u{85}z",
        "émile  über",
    ];
    for s in samples {
        let expected: Vec<String> = s.split_whitespace().map(|w| w.to_string()).collect();
        assert_eq!(strings(&words(s)), expected, "input {:?}", s);
    }
}

#[test]
fn parse_simple_command() {
    let cl = parse("ls -l /tmp").unwrap();
    assert_eq!(stage_strings(&cl), vec![vec!["ls", "-l", "/tmp"]]);
    assert!(cl.input.is_none());
    assert!(cl.output.is_none());
    assert!(!cl.background);
}

#[test]
fn parse_full_command_line() {
    let cl = parse("cat < foo | grep x | wc -l > bar &").unwrap();
    assert_eq!(
        stage_strings(&cl),
        vec![vec!["cat"], vec!["grep", "x"], vec!["wc", "-l"]]
    );
    assert_eq!(string(cl.input.as_ref().unwrap()), "foo");
    assert_eq!(string(cl.output.as_ref().unwrap()), "bar");
    assert!(cl.background);
}

#[test]
fn parse_redirect_inside_first_command() {
    let cl = parse("sort -r < data -n").unwrap();
    assert_eq!(stage_strings(&cl), vec![vec!["sort", "-r", "-n"]]);
    assert_eq!(string(cl.input.as_ref().unwrap()), "data");
}

#[test]
fn parse_lone_less_than_stays_a_word() {
    let cl = parse("echo <").unwrap();
    assert_eq!(stage_strings(&cl), vec![vec!["echo", "<"]]);
    assert!(cl.input.is_none());
}

#[test]
fn parse_rejects_command_without_name() {
    assert!(parse("| ls").is_none());
    assert!(parse("ls |").is_none());
    assert!(parse("ls | | wc").is_none());
    assert!(parse("&").is_none());
    assert!(parse("< foo").is_none());
}

#[test]
fn job_line_drops_only_the_final_ampersand() {
    assert_eq!(string(&job_line_of(&words("  sleep   10 &"))), "sleep 10");
    assert_eq!(string(&job_line_of(&words("cat < a | wc > b &"))), "cat < a | wc > b");
    assert_eq!(string(&job_line_of(&words("ls"))), "ls");
}

#[test]
fn join_words_with_single_spaces() {
    assert_eq!(string(&join_with_spaces(&vec![])), "");
    assert_eq!(string(&join_with_spaces(&vec![chars("a")])), "a");
    assert_eq!(string(&join_with_spaces(&vec![chars("a"), chars("bc"), chars("d")])), "a bc d");
}

#[test]
fn decimal_and_padding() {
    assert_eq!(string(&format_decimal(0)), "0");
    assert_eq!(string(&format_decimal(7)), "7");
    assert_eq!(string(&format_decimal(1234567890)), "1234567890");
    assert_eq!(string(&format_decimal(u64::MAX)), u64::MAX.to_string());
    assert_eq!(string(&pad_left_exec(&chars("12"), 5)), "   12");
    assert_eq!(string(&pad_left_exec(&chars("123456"), 5)), "123456");
}

#[test]
fn history_entry_format() {
    assert_eq!(string(&format_history_entry(1, &chars("ls"))), "    1  ls");
    assert_eq!(string(&format_history_entry(42, &chars("cat < foo"))), "   42  cat < foo");
    assert_eq!(string(&format_history_entry(123456, &chars("x"))), "123456  x");
    for n in [1u64, 99, 12345, 999999] {
        assert_eq!(
            string(&format_history_entry(n, &chars("cmd"))),
            format!("{:>5}  {}", n, "cmd")
        );
    }
}

#[test]
fn parse_i32_like_str_parse() {
    let samples = [
        "0", "15", "+15", "-15", "007", "2147483647", "-2147483648", "2147483648",
        "-2147483649", "99999999999999999999", "", "+", "-", "12a", " 1", "1 ", "--1", "+-1",
    ];
    for s in samples {
        assert_eq!(parse_i32(&chars(s)), s.parse::<i32>().ok(), "input {:?}", s);
    }
}

#[test]
fn parse_reads_back_decimal() {
    for n in [0u64, 9, 10, 65535, 2147483647] {
        assert_eq!(parse_i32(&format_decimal(n)), Some(n as i32));
    }
}

#[test]
fn empty_line_does_nothing_but_is_remembered() {
    let mut sh = Shell::new();
    assert!(matches!(act(&mut sh, "\n"), Action::Nothing));
    assert!(matches!(act(&mut sh, "   \t\n"), Action::Nothing));
    let h = sh.history();
    assert_eq!(strings(&h), vec!["    1  ", "    2     \t"]);
}

#[test]
fn builtin_pwd_exit_jobs() {
    let mut sh = Shell::new();
    assert!(matches!(act(&mut sh, "pwd\n"), Action::PrintWorkingDirectory));
    assert!(matches!(act(&mut sh, "jobs\n"), Action::ListJobs));
    assert!(matches!(act(&mut sh, "exit\n"), Action::Exit));
    assert!(matches!(act(&mut sh, "pwd extra\n"), Action::PrintWorkingDirectory));
}

#[test]
fn builtin_cd() {
    let mut sh = Shell::new();
    match act(&mut sh, "cd /tmp\n") {
        Action::ChangeDirectory(d) => assert_eq!(string(&d), "/tmp"),
        _ => panic!("cd should change directory"),
    }
    match act(&mut sh, "cd\n") {
        Action::Report(m) => assert_eq!(string(&m), "Wrong parameters"),
        _ => panic!("cd without a directory is wrong"),
    }
    match act(&mut sh, "cd a b\n") {
        Action::Report(m) => assert_eq!(string(&m), "Wrong parameters"),
        _ => panic!("cd with two directories is wrong"),
    }
}

#[test]
fn builtin_kill() {
    let mut sh = Shell::new();
    assert!(matches!(act(&mut sh, "kill 1234\n"), Action::Terminate(1234)));
    match act(&mut sh, "kill abc\n") {
        Action::Report(m) => assert_eq!(string(&m), "Wrong parameters"),
        _ => panic!("kill needs a number"),
    }
    match act(&mut sh, "kill\n") {
        Action::Report(m) => assert_eq!(string(&m), "Wrong parameters"),
        _ => panic!("kill needs a pid"),
    }
}

#[test]
fn builtin_history_lists_earlier_lines() {
    let mut sh = Shell::new();
    act(&mut sh, "ls\n");
    act(&mut sh, "ls | cat\n");
    act(&mut sh, "cat < foo | cat | cat > bar\n");
    act(&mut sh, "sleep 10 &\n");
    match act(&mut sh, "history\n") {
        Action::Print(lines) => assert_eq!(
            strings(&lines),
            vec![
                "    1  ls",
                "    2  ls | cat",
                "    3  cat < foo | cat | cat > bar",
                "    4  sleep 10 &",
            ]
        ),
        _ => panic!("history should print"),
    }
    assert_eq!(sh.history().len(), 5);
    assert_eq!(string(&sh.history()[4]), "    5  history");
}

#[test]
fn external_command_runs() {
    let mut sh = Shell::new();
    match act(&mut sh, "sleep 10 &\n") {
        Action::Run(cl, line) => {
            assert_eq!(stage_strings(&cl), vec![vec!["sleep", "10"]]);
            assert!(cl.background);
            assert_eq!(string(&line), "sleep 10");
        }
        _ => panic!("sleep should run"),
    }
    match act(&mut sh, "pwd | cat\n") {
        Action::Run(cl, _) => assert_eq!(stage_strings(&cl), vec![vec!["pwd"], vec!["cat"]]),
        _ => panic!("a pipeline runs even with a built-in"),
    }
    match act(&mut sh, "ls |\n") {
        Action::Report(m) => assert_eq!(string(&m), "syntax error"),
        _ => panic!("a command without a name is an error"),
    }
}

#[test]
fn line_without_newline_is_kept_whole() {
    let mut sh = Shell::new();
    act(&mut sh, "ls");
    assert_eq!(string(&sh.history()[0]), "    1  ls");
}

#[test]
fn job_table_tracks_live_lines() {
    let mut jobs = JobTable::new();
    jobs.add(vec![10, 11], chars("a | b"));
    jobs.add(vec![], chars("dead at once"));
    jobs.add(vec![20], chars("c"));
    assert_eq!(jobs.pids(), vec![10, 11, 20]);
    assert_eq!(strings(&jobs.lines()), vec!["a | b", "c"]);
    jobs.finish(10);
    assert_eq!(strings(&jobs.lines()), vec!["a | b", "c"]);
    jobs.finish(20);
    assert_eq!(strings(&jobs.lines()), vec!["a | b"]);
    jobs.finish(99);
    assert_eq!(jobs.pids(), vec![11]);
    jobs.finish(11);
    assert!(jobs.lines().is_empty());
    assert!(jobs.pids().is_empty());
}
