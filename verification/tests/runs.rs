use pxx::args::{Args, ProxyDirective};
use pxx::command::{raw, shell, Channel, Drain, Input, Output, Spawn};
use pxx::proxy::{Endpoint, SocketAddress, SocketNumbers};
use pxx::run::{
    aggregate, banner, first_blank, join_spaced, plan, receivers, Action, Event, Outcome,
    Supervisor,
};

fn strings(items: &[&str]) -> Vec<String> {
    items.iter().map(|s| s.to_string()).collect()
}

fn exited(code: i32) -> Outcome {
    Outcome { code: Some(code) }
}

fn killed() -> Outcome {
    Outcome { code: None }
}

fn args(proxies: Vec<ProxyDirective>, commands: &[&str], raw_commands: &[&str]) -> Args {
    Args {
        proxies,
        shell: "/bin/sh".to_string(),
        shell_args: strings(&["-c"]),
        buffered: true,
        raw_commands: strings(raw_commands),
        commands: strings(commands),
    }
}

fn run_to_end(count: usize, events: &[Event]) -> Vec<Action> {
    let mut supervisor = Supervisor::new(count);
    events.iter().map(|event| supervisor.wait(*event)).collect()
}

#[test]
fn outcome_succeeds_only_with_code_zero() {
    assert!(exited(0).success());
    assert!(!exited(1).success());
    assert!(!exited(-1).success());
    assert!(!killed().success());
}

#[test]
fn exit_code_of_true_and_false_is_one() {
    assert_eq!(aggregate(&vec![exited(0), exited(1)]), 1);
    assert_eq!(aggregate(&vec![exited(1), exited(0)]), 1);
}

#[test]
fn exit_code_is_zero_when_all_succeed() {
    assert_eq!(aggregate(&vec![]), 0);
    assert_eq!(aggregate(&vec![exited(0)]), 0);
    assert_eq!(aggregate(&vec![exited(0), exited(0), exited(0)]), 0);
}

#[test]
fn exit_code_is_that_of_the_first_failure_as_declared() {
    assert_eq!(aggregate(&vec![exited(0), exited(3), exited(7)]), 3);
    assert_eq!(aggregate(&vec![exited(7), exited(3), exited(0)]), 7);
    assert_eq!(aggregate(&vec![exited(0), exited(-2)]), -2);
    assert_eq!(aggregate(&vec![exited(0), exited(i32::MIN), exited(i32::MAX)]), i32::MIN);
}

#[test]
fn exit_code_is_one_for_a_process_without_code() {
    assert_eq!(aggregate(&vec![killed()]), 1);
    assert_eq!(aggregate(&vec![exited(0), killed(), exited(9)]), 1);
    assert_eq!(aggregate(&vec![exited(9), killed()]), 9);
}

#[test]
fn supervisor_waits_until_all_have_ended() {
    let actions = run_to_end(
        3,
        &[
            Event::Exited { index: 2, outcome: exited(5) },
            Event::Exited { index: 0, outcome: exited(0) },
            Event::Exited { index: 1, outcome: exited(4) },
        ],
    );
    assert_eq!(actions, vec![Action::Wait, Action::Wait, Action::Exit { code: 4 }]);
}

#[test]
fn supervisor_gives_the_same_code_in_every_order() {
    let outcomes = [exited(0), exited(3), killed(), exited(0), exited(8)];
    let orders: [[usize; 5]; 5] =
        [[0, 1, 2, 3, 4], [4, 3, 2, 1, 0], [2, 4, 0, 3, 1], [1, 0, 4, 2, 3], [3, 2, 1, 4, 0]];
    for order in orders {
        let mut supervisor = Supervisor::new(5);
        let mut last = supervisor.action();
        for (step, index) in order.iter().enumerate() {
            assert_eq!(last, Action::Wait);
            if step == 2 {
                assert_eq!(supervisor.wait(Event::Interrupted), Action::Wait);
            }
            last = supervisor.wait(Event::Exited { index: *index, outcome: outcomes[*index] });
        }
        assert_eq!(last, Action::Exit { code: 3 });
        assert_eq!(last, Action::Exit { code: aggregate(&outcomes.to_vec()) });
    }
}

#[test]
fn supervisor_of_true_and_false() {
    let quick_true = run_to_end(
        2,
        &[
            Event::Exited { index: 0, outcome: exited(0) },
            Event::Exited { index: 1, outcome: exited(1) },
        ],
    );
    let quick_false = run_to_end(
        2,
        &[
            Event::Exited { index: 1, outcome: exited(1) },
            Event::Exited { index: 0, outcome: exited(0) },
        ],
    );
    assert_eq!(quick_true.last(), Some(&Action::Exit { code: 1 }));
    assert_eq!(quick_false.last(), Some(&Action::Exit { code: 1 }));
}

#[test]
fn supervisor_without_processes_exits_at_once() {
    let supervisor = Supervisor::new(0);
    assert_eq!(supervisor.action(), Action::Exit { code: 0 });
}

#[test]
fn interrupt_stops_nothing() {
    let mut supervisor = Supervisor::new(2);
    assert!(!supervisor.interrupted());
    assert_eq!(supervisor.wait(Event::Interrupted), Action::Wait);
    assert!(supervisor.interrupted());
    assert_eq!(supervisor.wait(Event::Interrupted), Action::Wait);
    assert_eq!(supervisor.wait(Event::Exited { index: 0, outcome: killed() }), Action::Wait);
    assert_eq!(
        supervisor.wait(Event::Exited { index: 1, outcome: exited(0) }),
        Action::Exit { code: 1 }
    );
    assert_eq!(supervisor.wait(Event::Interrupted), Action::Exit { code: 1 });
}

#[test]
fn supervisor_keeps_the_first_word_on_a_process() {
    let actions = run_to_end(
        2,
        &[
            Event::Exited { index: 0, outcome: exited(2) },
            Event::Exited { index: 0, outcome: exited(0) },
            Event::Exited { index: 7, outcome: exited(9) },
            Event::Exited { index: 1, outcome: exited(0) },
        ],
    );
    assert_eq!(actions, vec![Action::Wait, Action::Wait, Action::Wait, Action::Exit { code: 2 }]);
}

#[test]
fn supervisor_aborts_on_an_error() {
    let actions = run_to_end(
        2,
        &[
            Event::Exited { index: 0, outcome: exited(0) },
            Event::Failed,
            Event::Exited { index: 1, outcome: exited(0) },
            Event::Interrupted,
        ],
    );
    assert_eq!(actions, vec![Action::Wait, Action::Abort, Action::Abort, Action::Abort]);
    assert_eq!(run_to_end(1, &[Event::InterruptFailed]), vec![Action::Abort]);
}

#[test]
fn plan_starts_shell_commands_before_raw_commands() {
    let mut given = args(vec![], &["npm start", "docker compose up"], &["echo a", "ls -l /"]);
    let planned = plan(&given);
    assert_eq!(
        planned,
        vec![
            Spawn {
                command: shell("/bin/sh", &strings(&["-c"]), "npm start"),
                stdout: Output::Piped,
                stderr: Output::Piped,
            },
            Spawn {
                command: shell("/bin/sh", &strings(&["-c"]), "docker compose up"),
                stdout: Output::Piped,
                stderr: Output::Piped,
            },
            Spawn { command: raw("echo a"), stdout: Output::Piped, stderr: Output::Piped },
            Spawn { command: raw("ls -l /"), stdout: Output::Piped, stderr: Output::Piped },
        ]
    );
    let inputs: Vec<Input> = planned.iter().map(|p| p.command.stdin).collect();
    assert_eq!(inputs, vec![Input::Piped, Input::Piped, Input::Closed, Input::Closed]);
    given.buffered = false;
    for process in plan(&given) {
        assert_eq!(process.stdout, Output::Inherited);
        assert_eq!(process.stderr, Output::Inherited);
    }
    assert_eq!(plan(&args(vec![], &[], &[])), vec![]);
}

#[test]
fn two_echoes_with_buffering() {
    let given = args(vec![], &[], &["echo a", "echo b"]);
    let planned = plan(&given);
    assert_eq!(planned.len(), 2);
    assert_eq!(planned[0].command.program, "echo");
    assert_eq!(planned[0].command.args, strings(&["a"]));
    assert_eq!(planned[1].command.args, strings(&["b"]));
    assert_eq!(planned[0].stdout, Output::Piped);

    let mut drains = vec![Drain::new(), Drain::new()];
    let mut supervisor = Supervisor::new(planned.len());
    let mut sink: Vec<u8> = Vec::new();
    let mut last = supervisor.action();
    for index in [1usize, 0] {
        let written = format!("{}\n", planned[index].command.args[0]);
        sink.extend(drains[index].read(Channel::Stdout, written.as_bytes()));
        sink.extend(drains[index].read(Channel::Stdout, b""));
        sink.extend(drains[index].read(Channel::Stderr, b""));
        assert!(!drains[index].is_open(Channel::Stdout));
        last = supervisor.wait(Event::Exited { index, outcome: exited(0) });
    }
    assert_eq!(sink, b"b\na\n");
    assert_eq!(last, Action::Exit { code: 0 });
}

#[test]
fn parts_are_joined_with_single_spaces() {
    assert_eq!(join_spaced(&vec![]), "");
    assert_eq!(join_spaced(&strings(&["-c"])), "-c");
    assert_eq!(join_spaced(&strings(&["-e", "-c"])), "-e -c");
    assert_eq!(join_spaced(&strings(&["", ""])), " ");
    assert_eq!(join_spaced(&strings(&["a", "", "b"])), "a  b");
}

#[test]
fn banner_announces_directives_and_commands() {
    let directive = ProxyDirective {
        source: Endpoint::Tcp(SocketAddress {
            numbers: SocketNumbers::V4 { octets: [0, 0, 0, 0], port: 8080 },
            text: "0.0.0.0:8080".to_string(),
        }),
        destination: Endpoint::Unix("./pg.sock".to_string()),
    };
    let given = args(vec![directive], &["npm start"], &["echo a"]);
    assert_eq!(
        banner(&given),
        strings(&[
            "Proxying connections from `tcp:0.0.0.0:8080` to `unix:./pg.sock`",
            "",
            "Spawning `/bin/sh -c npm start`",
            "Spawning `echo a`",
            "",
        ])
    );
}

#[test]
fn banner_leaves_out_what_is_not_there() {
    assert_eq!(banner(&args(vec![], &[], &[])), Vec::<String>::new());
    assert_eq!(banner(&args(vec![], &[], &["true"])), strings(&["Spawning `true`", ""]));
    let mut plain = args(vec![], &["dir"], &[]);
    plain.shell = "powershell.exe".to_string();
    plain.shell_args = vec![];
    assert_eq!(banner(&plain), strings(&["Spawning `powershell.exe dir`", ""]));
    plain.shell_args = strings(&[""]);
    assert_eq!(banner(&plain), strings(&["Spawning `powershell.exe dir`", ""]));
    let directive = ProxyDirective {
        source: Endpoint::Pipe(r"\\.\pipe\a".to_string()),
        destination: Endpoint::Pipe(r"\\.\pipe\b".to_string()),
    };
    assert_eq!(
        banner(&args(vec![directive], &[], &[])),
        strings(&[r"Proxying connections from `pipe:\\.\pipe\a` to `pipe:\\.\pipe\b`", ""])
    );
}

#[test]
fn input_goes_to_the_processes_that_read_from_a_pipe() {
    let given = args(vec![], &["cat", "wc -l"], &["echo a", "sort"]);
    assert_eq!(receivers(&plan(&given)), vec![0, 1]);
    assert_eq!(receivers(&plan(&args(vec![], &[], &["echo a"]))), Vec::<usize>::new());
    assert_eq!(receivers(&vec![]), Vec::<usize>::new());
    let mixed = vec![
        Spawn { command: raw("echo a"), stdout: Output::Piped, stderr: Output::Piped },
        Spawn {
            command: shell("sh", &strings(&["-c"]), "cat"),
            stdout: Output::Inherited,
            stderr: Output::Inherited,
        },
        Spawn { command: raw("true"), stdout: Output::Piped, stderr: Output::Piped },
        Spawn {
            command: shell("sh", &strings(&["-c"]), "wc"),
            stdout: Output::Piped,
            stderr: Output::Piped,
        },
    ];
    assert_eq!(receivers(&mixed), vec![1, 3]);
}

#[test]
fn first_blank_raw_command_is_found() {
    assert_eq!(first_blank(&strings(&["echo a", "ls"])), None);
    assert_eq!(first_blank(&vec![]), None);
    assert_eq!(first_blank(&strings(&["echo a", "", "ls", " "])), Some(1));
    assert_eq!(first_blank(&strings(&[" \t\n", "ls"])), Some(0));
    assert_eq!(first_blank(&strings(&["a", "b", "\u{3000}"])), Some(2));
}

#[test]
fn plan_of_the_commands_before_a_blank_one() {
    let mut given = args(vec![], &["npm start"], &["echo a", "", "echo b"]);
    let place = first_blank(&given.raw_commands).unwrap();
    given.raw_commands.truncate(place);
    let planned = plan(&given);
    assert_eq!(planned.len(), 2);
    assert_eq!(planned[0].command, shell("/bin/sh", &strings(&["-c"]), "npm start"));
    assert_eq!(planned[1].command, raw("echo a"));
}
