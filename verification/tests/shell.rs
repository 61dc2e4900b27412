//! Routing of events, settings, and the programs that are run.

use wireline::command::pty_command;
use wireline::config::{cfg_parts, default_cfg_path, probe_name, resolve_cfg, CfgPlace};
use wireline::engine::Zm;
use wireline::event::Event;
use wireline::frame::hex_header;
use wireline::launch::{
    child_path, cmd_out, command_line, default_shell, dirs_home, home_dirs, names_path,
    program_dirs, pty_program, resolve_program, shell_var, term_value, working_dir, CmdOut, Dir,
    Launch,
};
use wireline::route::{
    apply_pump, apply_zm_events, exit_message, flush_emits, message, read_messages, Action, Emit,
    Message, Payload, PtyData, PtyExit, ZmNote, ZmOffer, ZmProgress,
};

fn text(s: &str) -> String {
    s.to_string()
}

fn texts(v: &[&str]) -> Vec<String> {
    v.iter().map(|s| s.to_string()).collect()
}

fn one_of_each() -> Vec<Event> {
    vec![
        Event::Forward(vec![1]),
        Event::Write(vec![2]),
        Event::RecvOffer { name: text("a"), size: 3 },
        Event::SendReady,
        Event::Progress { name: text("b"), done: 4, total: 5, dir: "up" },
        Event::Done { name: text("c"), dir: "down" },
        Event::Error(text("d")),
        Event::Store(vec![6]),
        Event::Sync,
        Event::Seek(7),
        Event::Release,
        Event::Finished,
    ]
}

fn all_actions() -> Vec<Action> {
    vec![
        Action::Write(vec![2]),
        Action::Store(vec![6]),
        Action::Sync,
        Action::Seek(7),
        Action::Release,
        Action::Close,
    ]
}

#[test]
fn engine_events_are_routed() {
    let mut emits = vec![Emit::SendReady];
    assert_eq!(apply_zm_events(one_of_each(), &mut emits), all_actions());
    assert_eq!(
        emits,
        vec![
            Emit::SendReady,
            Emit::Data(vec![1]),
            Emit::Offer { name: text("a"), size: 3 },
            Emit::SendReady,
            Emit::Progress { name: text("b"), done: 4, total: 5, dir: text("up") },
            Emit::Done { name: text("c") },
            Emit::Error(text("d")),
            Emit::Finished,
        ]
    );
}

#[test]
fn pump_events_are_routed() {
    let mut emits = Vec::new();
    assert_eq!(apply_pump(one_of_each(), &mut emits), all_actions());
    assert_eq!(
        emits,
        vec![
            Emit::Progress { name: text("b"), done: 4, total: 5, dir: text("up") },
            Emit::Done { name: text("c") },
            Emit::Error(text("d")),
            Emit::Finished,
        ]
    );
}

#[test]
fn nothing_of_a_pump_is_dropped() {
    let mut zm = Zm::new();
    let mut out = Vec::new();
    zm.feed(&hex_header(1, [0; 4]), &mut out);
    zm.start_send(texts(&["/a"]), &mut out);
    zm.file_opened(Some(text("a")), Some(2), &mut out);
    zm.feed(&hex_header(9, [0; 4]), &mut out);
    let mut one = Vec::new();
    zm.pump(&vec![vec![b'x', b'y']], &mut one);
    let count = one.len();
    let mut emits = Vec::new();
    let actions = apply_pump(one, &mut emits);
    assert_eq!(actions.len() + emits.len(), count);
}

#[test]
fn terminal_bytes_reach_the_interface() {
    let mut zm = Zm::new();
    let mut events = Vec::new();
    zm.feed(b"hello, world", &mut events);
    zm.feed(b"!", &mut events);
    let mut emits = Vec::new();
    assert_eq!(apply_zm_events(events, &mut emits), vec![]);
    assert_eq!(emits, vec![Emit::Data(b"hello, wo".to_vec()), Emit::Data(b"r".to_vec())]);
}

#[test]
fn notices_become_messages() {
    let id = "p1";
    let emits = vec![
        Emit::Data(vec![1, 2]),
        Emit::Offer { name: text("a"), size: 3 },
        Emit::SendReady,
        Emit::Progress { name: text("b"), done: 4, total: 5, dir: text("up") },
        Emit::Done { name: text("c") },
        Emit::Error(text("d")),
        Emit::Finished,
    ];
    let expected = vec![
        Message {
            channel: "pty://data",
            payload: Payload::Data(PtyData { id: text(id), data: vec![1, 2] }),
        },
        Message {
            channel: "zmodem://offer",
            payload: Payload::Offer(ZmOffer { id: text(id), name: text("a"), size: 3 }),
        },
        Message {
            channel: "zmodem://send-ready",
            payload: Payload::Exit(PtyExit { id: text(id) }),
        },
        Message {
            channel: "zmodem://progress",
            payload: Payload::Progress(ZmProgress {
                id: text(id),
                name: text("b"),
                done: 4,
                total: 5,
                dir: text("up"),
            }),
        },
        Message {
            channel: "zmodem://done",
            payload: Payload::Note(ZmNote { id: text(id), text: text("c") }),
        },
        Message {
            channel: "zmodem://error",
            payload: Payload::Note(ZmNote { id: text(id), text: text("d") }),
        },
        Message {
            channel: "zmodem://finished",
            payload: Payload::Exit(PtyExit { id: text(id) }),
        },
    ];
    assert_eq!(flush_emits(id, emits), expected);
    assert_eq!(flush_emits(id, vec![]), vec![]);
    assert_eq!(message(id, Emit::Finished), expected[6]);
}

#[test]
fn bytes_without_an_engine_are_shown_raw() {
    assert_eq!(
        read_messages("q", None, vec![9]),
        vec![Message {
            channel: "pty://data",
            payload: Payload::Data(PtyData { id: text("q"), data: vec![9] }),
        }]
    );
    assert_eq!(read_messages("q", Some(vec![]), vec![9]), vec![]);
    assert_eq!(
        read_messages("q", Some(vec![Emit::SendReady]), vec![9])[0].channel,
        "zmodem://send-ready"
    );
    assert_eq!(
        exit_message("q"),
        Message { channel: "pty://exit", payload: Payload::Exit(PtyExit { id: text("q") }) }
    );
}

#[test]
fn settings_path() {
    assert_eq!(resolve_cfg(Some(text("/a/b.json"))), Some(text("/a/b.json")));
    assert_eq!(resolve_cfg(Some(text(" x "))), Some(text(" x ")));
    assert_eq!(resolve_cfg(Some(text(""))), None);
    assert_eq!(resolve_cfg(Some(text(" \t\n"))), None);
    assert_eq!(resolve_cfg(None), None);
}

#[test]
fn default_settings_place() {
    assert_eq!(default_cfg_path(Some(true), true), CfgPlace::ExeDir);
    assert_eq!(default_cfg_path(Some(true), false), CfgPlace::ExeDir);
    assert_eq!(default_cfg_path(Some(false), true), CfgPlace::Home);
    assert_eq!(default_cfg_path(None, true), CfgPlace::Home);
    assert_eq!(default_cfg_path(Some(false), false), CfgPlace::Here);
    assert_eq!(default_cfg_path(None, false), CfgPlace::Here);
    assert_eq!(cfg_parts(CfgPlace::ExeDir), vec!["wireline.config.json"]);
    assert_eq!(cfg_parts(CfgPlace::Home), vec![".wireline", "wireline.config.json"]);
    assert_eq!(cfg_parts(CfgPlace::Here), vec!["wireline.config.json"]);
    assert_eq!(probe_name(), ".wireline_write_test");
}

#[test]
fn shell_of_the_platform() {
    assert_eq!(shell_var(true), "COMSPEC");
    assert_eq!(shell_var(false), "SHELL");
    assert_eq!(default_shell(true, None), "cmd.exe");
    assert_eq!(default_shell(false, None), "/bin/bash");
    assert_eq!(default_shell(false, Some(text("/bin/zsh"))), "/bin/zsh");
    assert_eq!(default_shell(true, Some(text(""))), "");
    assert_eq!(term_value(false), Some("xterm-256color"));
    assert_eq!(term_value(true), None);
}

#[test]
fn program_of_a_pty() {
    assert_eq!(
        pty_program(Some(text("ssh")), Some(texts(&["-p", "22"])), text("sh")),
        Launch { program: text("ssh"), args: texts(&["-p", "22"]) }
    );
    assert_eq!(
        pty_program(Some(text("ssh")), None, text("sh")),
        Launch { program: text("ssh"), args: vec![] }
    );
    assert_eq!(
        pty_program(Some(text("")), Some(texts(&["x"])), text("sh")),
        Launch { program: text("sh"), args: vec![] }
    );
    assert_eq!(
        pty_program(None, Some(texts(&["x"])), text("sh")),
        Launch { program: text("sh"), args: vec![] }
    );
}

#[test]
fn command_of_a_pty() {
    let c = pty_command(Some(text("ssh")), Some(texts(&["-p", "22", "u@h"])), text("sh"), false);
    let argv: Vec<String> =
        c.get_argv().iter().map(|s| s.to_str().unwrap().to_string()).collect();
    assert_eq!(argv, texts(&["ssh", "-p", "22", "u@h"]));
    let set: Vec<(&str, &str)> = c.iter_extra_env_as_str().collect();
    assert_eq!(set, vec![("TERM", "xterm-256color")]);
    assert!(c.get_cwd().is_none());

    let c = pty_command(None, Some(texts(&["x"])), text("/bin/sh"), true);
    assert_eq!(c.get_argv().len(), 1);
    assert_eq!(c.get_argv()[0], "/bin/sh");
    assert_eq!(c.iter_extra_env_as_str().count(), 0);
}

#[test]
fn home_of_the_user() {
    assert_eq!(dirs_home(Some(1), Some(2)), Some(1));
    assert_eq!(dirs_home(None, Some(2)), Some(2));
    assert_eq!(dirs_home::<u8>(None, None), None);
}

#[test]
fn paths_and_bare_names() {
    assert!(names_path("/bin/ls"));
    assert!(names_path("./x"));
    assert!(!names_path("ls"));
    assert!(!names_path(""));
    assert!(!names_path("a\\b"));
}

#[test]
fn directories_that_are_searched() {
    let usual = || {
        vec![
            Dir::At(text("/usr/local/bin")),
            Dir::At(text("/opt/homebrew/bin")),
            Dir::At(text("/usr/bin")),
            Dir::At(text("/bin")),
        ]
    };
    assert_eq!(program_dirs("", false), usual());
    let mut expected = vec![Dir::At(text("/a")), Dir::At(text("/b c"))];
    expected.extend(usual());
    assert_eq!(program_dirs("/a:/b c", false), expected);
    assert_eq!(program_dirs("::/a::/b c:", false), expected);
    for d in [".opencode/bin", ".local/bin", ".bun/bin", ".npm-global/bin", ".cargo/bin"] {
        expected.push(Dir::InHome(d));
    }
    assert_eq!(program_dirs("/a:/b c:", true), expected);
}

#[test]
fn first_directory_that_has_the_program() {
    assert_eq!(resolve_program("ls", &vec![false, true, true]), Some(1));
    assert_eq!(resolve_program("ls", &vec![false, false]), None);
    assert_eq!(resolve_program("ls", &vec![]), None);
    assert_eq!(resolve_program("/bin/ls", &vec![true]), None);
}

#[test]
fn command_line_of_a_tool() {
    assert_eq!(
        command_line(true, text("opencode"), text("ignored"), texts(&["run", "-"])),
        Launch { program: text("cmd"), args: texts(&["/C", "opencode", "run", "-"]) }
    );
    assert_eq!(
        command_line(false, text("opencode"), text("/usr/bin/opencode"), texts(&["run"])),
        Launch { program: text("/usr/bin/opencode"), args: texts(&["run"]) }
    );
}

#[test]
fn search_path_of_a_tool() {
    assert_eq!(child_path("", &vec![]), "/usr/local/bin:/opt/homebrew/bin");
    assert_eq!(
        child_path("/bin:/sbin", &texts(&["/h/.bun/bin", "/h/x"])),
        "/bin:/sbin:/usr/local/bin:/opt/homebrew/bin:/h/.bun/bin:/h/x"
    );
    assert_eq!(home_dirs(), vec![".opencode/bin", ".local/bin", ".bun/bin", ".npm-global/bin"]);
}

#[test]
fn working_directory_of_a_tool() {
    assert_eq!(working_dir(Some(text("/w"))), Some(text("/w")));
    assert_eq!(working_dir(Some(text(" "))), Some(text(" ")));
    assert_eq!(working_dir(Some(text(""))), None);
    assert_eq!(working_dir(None), None);
}

#[test]
fn outcome_of_a_tool() {
    assert_eq!(
        cmd_out(Some(3), b"out\n", b"e\xffr"),
        CmdOut { code: 3, stdout: text("out\n"), stderr: text("e\u{fffd}r") }
    );
    assert_eq!(cmd_out(None, b"", b"").code, -1);
}
