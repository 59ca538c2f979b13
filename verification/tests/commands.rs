use pxx::command::{
    broadcast, broadcast_start, is_blank, raw, shell, spawn, split_words, whitespace, Broadcast,
    BroadcastAction, BroadcastEvent, Channel, Command, Drain, Input, Output, Source, CHUNK_SIZE,
};
use pxx::lines::{LineBuffer, NEWLINE};

fn strings(items: &[&str]) -> Vec<String> {
    items.iter().map(|s| s.to_string()).collect()
}

fn lines_of(bytes: &[u8]) -> Vec<Vec<u8>> {
    let mut out = Vec::new();
    let mut line = Vec::new();
    for b in bytes {
        line.push(*b);
        if *b == b'\n' {
            out.push(line);
            line = Vec::new();
        }
    }
    if !line.is_empty() {
        out.push(line);
    }
    out
}

#[test]
fn whitespace_is_what_the_standard_library_calls_whitespace() {
    for n in 0..=0x10FFFFu32 {
        if let Some(c) = char::from_u32(n) {
            assert_eq!(whitespace(c), c.is_whitespace(), "U+{:04X}", n);
        }
    }
}

#[test]
fn words_are_split_like_the_standard_library_does() {
    let samples = [
        "",
        " ",
        "echo",
        "echo a",
        "  echo   a  b\t\tc\n",
        "\u{a0}x\u{2003}y\u{3000}",
        "a\u{85}b\u{1680}c\u{2028}d\u{2029}e\u{202f}f\u{205f}g",
        "caf\u{e9} \u{1F600}  z",
        "\u{200b}zero-width is no space",
        "x\u{180e}y",
    ];
    for sample in samples {
        let expected: Vec<String> = sample.split_whitespace().map(|w| w.to_string()).collect();
        assert_eq!(split_words(sample), expected, "{:?}", sample);
        assert_eq!(is_blank(sample), expected.is_empty(), "{:?}", sample);
    }
}

#[test]
fn words_of_a_command_line() {
    assert_eq!(split_words("docker compose up"), strings(&["docker", "compose", "up"]));
    assert_eq!(split_words("   "), Vec::<String>::new());
    assert!(is_blank(""));
    assert!(is_blank(" \t\r\n"));
    assert!(!is_blank(" x "));
}

#[test]
fn raw_command_is_program_and_arguments() {
    assert_eq!(
        raw("echo a"),
        Command { program: "echo".to_string(), args: strings(&["a"]), stdin: Input::Closed }
    );
    assert_eq!(
        raw("  ls\t-l   /tmp \n"),
        Command { program: "ls".to_string(), args: strings(&["-l", "/tmp"]), stdin: Input::Closed }
    );
    assert_eq!(
        raw("true"),
        Command { program: "true".to_string(), args: vec![], stdin: Input::Closed }
    );
}

#[test]
fn shell_command_ends_with_the_command_as_one_argument() {
    assert_eq!(
        shell("sh", &strings(&["-c"]), "npm start"),
        Command {
            program: "sh".to_string(),
            args: strings(&["-c", "npm start"]),
            stdin: Input::Piped,
        }
    );
    assert_eq!(
        shell("powershell.exe", &vec![], "  dir  "),
        Command {
            program: "powershell.exe".to_string(),
            args: strings(&["  dir  "]),
            stdin: Input::Piped,
        }
    );
    assert_eq!(
        shell("bash", &strings(&["-e", "-c"]), ""),
        Command { program: "bash".to_string(), args: strings(&["-e", "-c", ""]), stdin: Input::Piped }
    );
}

#[test]
fn spawn_pipes_output_only_when_buffered() {
    let buffered = spawn(raw("echo a"), true);
    assert_eq!(buffered.command, raw("echo a"));
    assert_eq!(buffered.stdout, Output::Piped);
    assert_eq!(buffered.stderr, Output::Piped);
    let direct = spawn(shell("sh", &strings(&["-c"]), "echo a"), false);
    assert_eq!(direct.command, shell("sh", &strings(&["-c"]), "echo a"));
    assert_eq!(direct.stdout, Output::Inherited);
    assert_eq!(direct.stderr, Output::Inherited);
}

#[test]
fn line_buffer_lets_whole_lines_through() {
    assert_eq!(NEWLINE, b'\n');
    let mut buffer = LineBuffer::new();
    assert_eq!(buffer.len(), 0);
    assert_eq!(buffer.push(b"hel"), b"");
    assert_eq!(buffer.len(), 3);
    assert_eq!(buffer.push(b"lo\nwor"), b"hello\n");
    assert_eq!(buffer.len(), 3);
    assert_eq!(buffer.push(b"ld\n"), b"world\n");
    assert_eq!(buffer.len(), 0);
    assert_eq!(buffer.push(b""), b"");
    assert_eq!(buffer.push(b"a\nb\nc"), b"a\nb\n");
    assert_eq!(buffer.push(b"\n\n"), b"c\n\n");
    assert_eq!(buffer.push(b"tail"), b"");
    assert_eq!(buffer.finish(), b"tail");
    assert_eq!(buffer.len(), 0);
    assert_eq!(buffer.finish(), b"");
}

#[test]
fn line_buffer_loses_nothing() {
    let reads: [&[u8]; 7] = [b"a", b"b\nc", b"", b"\n", b"dd\nee\nf", b"g", b"h\n"];
    let mut buffer = LineBuffer::new();
    let mut written = Vec::new();
    let mut all = Vec::new();
    for read in reads {
        all.extend_from_slice(read);
        let chunk = buffer.push(read);
        assert!(chunk.is_empty() || chunk.last() == Some(&b'\n'));
        written.extend_from_slice(&chunk);
    }
    assert_eq!(buffer.len(), 0);
    assert_eq!(written, all);
}

#[test]
fn drain_closes_a_stream_at_its_end() {
    let mut drain = Drain::new();
    assert!(drain.is_open(Channel::Stdout));
    assert!(drain.is_open(Channel::Stderr));
    assert_eq!(drain.order(), vec![Source::Stdout, Source::Stderr, Source::Exit]);
    assert_eq!(drain.read(Channel::Stdout, b"out"), b"");
    assert_eq!(drain.read(Channel::Stderr, b"err\nmore"), b"err\n");
    assert_eq!(drain.read(Channel::Stdout, b"put\n"), b"output\n");
    assert_eq!(drain.read(Channel::Stdout, b""), b"");
    assert!(!drain.is_open(Channel::Stdout));
    assert!(drain.is_open(Channel::Stderr));
    assert_eq!(drain.order(), vec![Source::Stderr, Source::Exit]);
    assert_eq!(drain.read(Channel::Stdout, b"late\n"), b"");
    assert_eq!(drain.read(Channel::Stderr, b""), b"more");
    assert!(!drain.is_open(Channel::Stderr));
    assert_eq!(drain.order(), vec![Source::Exit]);
    assert_eq!(drain.read(Channel::Stderr, b""), b"");
}

#[test]
fn lines_of_two_processes_are_never_mixed() {
    let first: [&[u8]; 5] = [b"one ", b"two\nthr", b"ee\n", b"four\nfive\n", b""];
    let second: [&[u8]; 5] = [b"AL", b"PHA\nBE", b"TA\nGAM", b"MA\n", b""];
    let mut a = Drain::new();
    let mut b = Drain::new();
    let mut sink = Vec::new();
    let mut chunks = Vec::new();
    for i in 0..5 {
        for (drain, reads) in [(&mut a, &first), (&mut b, &second)] {
            let chunk = drain.read(Channel::Stdout, reads[i]);
            if !chunk.is_empty() {
                sink.extend_from_slice(&chunk);
                chunks.push(chunk);
            }
        }
    }
    let mut expected = Vec::new();
    for chunk in &chunks {
        expected.extend(lines_of(chunk));
    }
    assert_eq!(lines_of(&sink), expected);
    let mut seen: Vec<String> =
        lines_of(&sink).into_iter().map(|l| String::from_utf8(l).unwrap()).collect();
    assert_eq!(
        seen,
        strings(&["one two\n", "ALPHA\n", "three\n", "BETA\n", "four\n", "five\n", "GAMMA\n"])
    );
    seen.sort();
    assert_eq!(
        seen,
        strings(&["ALPHA\n", "BETA\n", "GAMMA\n", "five\n", "four\n", "one two\n", "three\n"])
    );
}

#[test]
fn broadcast_hands_each_chunk_to_every_process_in_order() {
    let (mut state, mut action) = broadcast_start();
    assert_eq!(state, Broadcast::Reading);
    assert_eq!(action, BroadcastAction::Read { limit: 8192 });
    assert_eq!(CHUNK_SIZE, 8192);
    let input: [&[u8]; 3] = [b"first", b"second", b""];
    let mut received: Vec<Vec<u8>> = vec![Vec::new(); 3];
    let mut actions = Vec::new();
    let mut next = 0;
    loop {
        match action {
            BroadcastAction::Read { .. } => {
                let event = BroadcastEvent::Read(input[next].to_vec());
                next += 1;
                (state, action) = broadcast(state, event, 3);
            }
            BroadcastAction::Write { target } => {
                if let Broadcast::Writing { chunk, .. } = &state {
                    received[target].extend_from_slice(chunk);
                } else {
                    panic!("a write without a chunk");
                }
                (state, action) = broadcast(state, BroadcastEvent::Written, 3);
            }
            BroadcastAction::Finish => break,
            BroadcastAction::Fail => panic!("the broadcast failed"),
        }
        actions.push(action);
    }
    assert_eq!(state, Broadcast::Finished);
    assert_eq!(
        actions,
        vec![
            BroadcastAction::Write { target: 0 },
            BroadcastAction::Write { target: 1 },
            BroadcastAction::Write { target: 2 },
            BroadcastAction::Read { limit: 8192 },
            BroadcastAction::Write { target: 0 },
            BroadcastAction::Write { target: 1 },
            BroadcastAction::Write { target: 2 },
            BroadcastAction::Read { limit: 8192 },
            BroadcastAction::Finish,
        ]
    );
    for bytes in received {
        assert_eq!(bytes, b"firstsecond");
    }
}

#[test]
fn broadcast_stops_for_all_when_one_write_fails() {
    let (state, _) = broadcast_start();
    let (state, action) = broadcast(state, BroadcastEvent::Read(b"chunk".to_vec()), 3);
    assert_eq!(action, BroadcastAction::Write { target: 0 });
    let (state, action) = broadcast(state, BroadcastEvent::Written, 3);
    assert_eq!(action, BroadcastAction::Write { target: 1 });
    let (state, action) = broadcast(state, BroadcastEvent::WriteFailed, 3);
    assert_eq!((state.clone(), action), (Broadcast::Failed, BroadcastAction::Fail));
    let (state, action) = broadcast(state, BroadcastEvent::Written, 3);
    assert_eq!((state.clone(), action), (Broadcast::Failed, BroadcastAction::Fail));
    let (state, action) = broadcast(state, BroadcastEvent::Read(b"next".to_vec()), 3);
    assert_eq!((state, action), (Broadcast::Failed, BroadcastAction::Fail));
}

#[test]
fn broadcast_stops_when_a_read_fails() {
    let (state, _) = broadcast_start();
    assert_eq!(
        broadcast(state, BroadcastEvent::ReadFailed, 2),
        (Broadcast::Failed, BroadcastAction::Fail)
    );
}

#[test]
fn broadcast_ends_with_the_input() {
    let (state, _) = broadcast_start();
    let (state, action) = broadcast(state, BroadcastEvent::Read(vec![]), 2);
    assert_eq!((state.clone(), action), (Broadcast::Finished, BroadcastAction::Finish));
    assert_eq!(
        broadcast(state, BroadcastEvent::Read(b"more".to_vec()), 2),
        (Broadcast::Finished, BroadcastAction::Finish)
    );
}

#[test]
fn broadcast_without_processes_reads_on() {
    let (state, _) = broadcast_start();
    let (state, action) = broadcast(state, BroadcastEvent::Read(b"unheard".to_vec()), 0);
    assert_eq!((state.clone(), action), (Broadcast::Reading, BroadcastAction::Read { limit: 8192 }));
    assert_eq!(
        broadcast(state, BroadcastEvent::Read(vec![]), 0),
        (Broadcast::Finished, BroadcastAction::Finish)
    );
}

#[test]
fn broadcast_ignores_what_it_did_not_wait_for() {
    assert_eq!(
        broadcast(Broadcast::Reading, BroadcastEvent::Written, 2),
        (Broadcast::Reading, BroadcastAction::Read { limit: 8192 })
    );
    assert_eq!(
        broadcast(Broadcast::Reading, BroadcastEvent::WriteFailed, 2),
        (Broadcast::Reading, BroadcastAction::Read { limit: 8192 })
    );
    let writing = Broadcast::Writing { chunk: b"x".to_vec(), next: 1 };
    assert_eq!(
        broadcast(writing.clone(), BroadcastEvent::Read(b"y".to_vec()), 2),
        (writing.clone(), BroadcastAction::Write { target: 1 })
    );
    assert_eq!(
        broadcast(writing.clone(), BroadcastEvent::ReadFailed, 2),
        (writing.clone(), BroadcastAction::Write { target: 1 })
    );
    assert_eq!(
        broadcast(writing, BroadcastEvent::Written, 2),
        (Broadcast::Reading, BroadcastAction::Read { limit: 8192 })
    );
}

#[test]
fn step_of_a_state_is_the_step_of_the_machine() {
    let events = [
        BroadcastEvent::Read(b"x".to_vec()),
        BroadcastEvent::Read(vec![]),
        BroadcastEvent::ReadFailed,
        BroadcastEvent::Written,
        BroadcastEvent::WriteFailed,
    ];
    let states = [
        Broadcast::Reading,
        Broadcast::Writing { chunk: b"c".to_vec(), next: 0 },
        Broadcast::Writing { chunk: b"c".to_vec(), next: 1 },
        Broadcast::Finished,
        Broadcast::Failed,
    ];
    for targets in 0..3usize {
        for state in &states {
            for event in &events {
                assert_eq!(
                    state.clone().step(event.clone(), targets),
                    broadcast(state.clone(), event.clone(), targets)
                );
            }
        }
    }
    assert_eq!(
        Broadcast::Reading.step(BroadcastEvent::Read(b"x".to_vec()), 2),
        (Broadcast::Writing { chunk: b"x".to_vec(), next: 0 }, BroadcastAction::Write { target: 0 })
    );
    assert_eq!(
        Broadcast::Writing { chunk: b"x".to_vec(), next: 1 }.step(BroadcastEvent::Written, 2),
        (Broadcast::Reading, BroadcastAction::Read { limit: 8192 })
    );
}
