//! Which programs are run, and how.

use vstd::prelude::*;

use crate::text::{chars_of, lossy};

verus! {

/// The environment variable that names the platform's shell.
pub fn shell_var(windows: bool) -> (name: &'static str)
    ensures
        name@ == (if windows {
            "COMSPEC"@
        } else {
            "SHELL"@
        }),
{
    if windows {
        "COMSPEC"
    } else {
        "SHELL"
    }
}

/// The platform's shell; `var` is what the environment says about it.
pub open spec fn default_shell_of(windows: bool, var: Option<Seq<char>>) -> Seq<char> {
    match var {
        Some(s) => s,
        None => if windows {
            "cmd.exe"@
        } else {
            "/bin/bash"@
        },
    }
}

/// A text that may be missing.
pub open spec fn text_view(s: Option<String>) -> Option<Seq<char>> {
    match s {
        Some(t) => Some(t@),
        None => None,
    }
}

/// The platform's shell; `var` is what the environment says about it.
pub fn default_shell(windows: bool, var: Option<String>) -> (shell: String)
    ensures
        shell@ == default_shell_of(windows, text_view(var)),
{
    match var {
        Some(s) => s,
        None => if windows {
            "cmd.exe".to_owned()
        } else {
            "/bin/bash".to_owned()
        },
    }
}

/// A program and its arguments.
#[derive(Debug, PartialEq, Eq)]
pub struct Launch {
    pub program: String,
    pub args: Vec<String>,
}

/// A program and its arguments as mathematical values.
#[verifier::ext_equal]
pub struct LaunchView {
    pub program: Seq<char>,
    pub args: Seq<Seq<char>>,
}

impl View for Launch {
    type V = LaunchView;

    open spec fn view(&self) -> LaunchView {
        LaunchView {
            program: self.program@,
            args: crate::engine::texts_of(self.args@),
        }
    }
}

/// What runs in a new pty: the program that was asked for, with its arguments,
/// or else the shell without any.
pub fn pty_program(program: Option<String>, args: Option<Vec<String>>, shell: String) -> (r: Launch)
    ensures
        r@ == (if program is Some && program->0@.len() > 0 {
            LaunchView {
                program: program->0@,
                args: match args {
                    Some(a) => crate::engine::texts_of(a@),
                    None => Seq::empty(),
                },
            }
        } else {
            LaunchView { program: shell@, args: Seq::empty() }
        }),
{
    let none: Vec<String> = Vec::new();
    assert(crate::engine::texts_of(none@) =~= Seq::<Seq<char>>::empty());
    match program {
        Some(p) => {
            if p.as_str().is_empty() {
                Launch { program: shell, args: none }
            } else {
                match args {
                    Some(a) => Launch { program: p, args: a },
                    None => Launch { program: p, args: none },
                }
            }
        },
        None => Launch { program: shell, args: none },
    }
}

/// The terminal type that programs in a pty are told, where they are told one.
pub fn term_value(windows: bool) -> (r: Option<&'static str>)
    ensures
        match r {
            Some(t) => !windows && t@ == "xterm-256color"@,
            None => windows,
        },
{
    if windows {
        None
    } else {
        Some("xterm-256color")
    }
}

/// The user's home: what `HOME` names, or else what `USERPROFILE` names.
pub fn dirs_home<T>(home: Option<T>, profile: Option<T>) -> (r: Option<T>)
    ensures
        r == (if home is Some {
            home
        } else {
            profile
        }),
{
    match home {
        Some(h) => Some(h),
        None => profile,
    }
}

/// A text with a path separator in it is a path, not a bare program name.
pub open spec fn is_path(program: Seq<char>) -> bool {
    program.contains('/')
}

/// Tells a path from a bare program name.
pub fn names_path(program: &str) -> (r: bool)
    ensures
        r == is_path(program@),
{
    let v = chars_of(program);
    let mut i: usize = 0;
    while i < v.len()
        invariant
            i <= v.len(),
            v@ == program@,
            forall|j: int| 0 <= j < i ==> program@[j] != '/',
        decreases v.len() - i,
    {
        if v[i] == '/' {
            return true;
        }
        i = i + 1;
    }
    false
}

/// The place of the first colon of `s`, or its length.
pub open spec fn colon_of(s: Seq<char>) -> nat
    decreases s.len(),
{
    if s.len() == 0 || s[0] == ':' {
        0
    } else {
        1 + colon_of(s.skip(1))
    }
}

pub proof fn lemma_colon_of(s: Seq<char>, i: int)
    requires
        0 <= i <= s.len(),
        i == s.len() || s[i] == ':',
        forall|j: int| 0 <= j < i ==> #[trigger] s[j] != ':',
    ensures
        colon_of(s) == i,
    decreases i,
{
    if i > 0 {
        let t = s.skip(1);
        assert forall|j: int| 0 <= j < i - 1 implies #[trigger] t[j] != ':' by {
            assert(s[j + 1] != ':');
        }
        assert(s[0] != ':');
        lemma_colon_of(t, i - 1);
    }
}

/// The parts of `s` between its colons, in order, without the empty ones.
pub open spec fn path_parts(s: Seq<char>) -> Seq<Seq<char>>
    decreases s.len(),
{
    let n = colon_of(s) as int;
    let head = if n > 0 {
        seq![s.take(n)]
    } else {
        Seq::empty()
    };
    if 0 <= n < s.len() {
        head + path_parts(s.skip(n + 1))
    } else {
        head
    }
}

/// A directory in which a program is looked for.
#[derive(Debug, PartialEq, Eq)]
pub enum Dir {
    At(String),
    /// given from the user's home
    InHome(&'static str),
}

/// A directory as mathematical values.
#[verifier::ext_equal]
pub enum DirView {
    At(Seq<char>),
    InHome(Seq<char>),
}

impl View for Dir {
    type V = DirView;

    open spec fn view(&self) -> DirView {
        match self {
            Dir::At(s) => DirView::At(s@),
            Dir::InHome(s) => DirView::InHome(s@),
        }
    }
}

/// The directories of a list.
pub open spec fn dirs_view(s: Seq<Dir>) -> Seq<DirView> {
    s.map_values(|d: Dir| d@)
}

/// Where a bare program name is looked for: in the directories of the search
/// path, then in the usual places for installed programs, then in those of
/// the user's home if there is one.
pub open spec fn program_dirs_of(path: Seq<char>, home: bool) -> Seq<DirView> {
    path_parts(path).map_values(|p: Seq<char>| DirView::At(p)) + seq![
        DirView::At("/usr/local/bin"@),
        DirView::At("/opt/homebrew/bin"@),
        DirView::At("/usr/bin"@),
        DirView::At("/bin"@),
    ] + (if home {
        seq![
            DirView::InHome(".opencode/bin"@),
            DirView::InHome(".local/bin"@),
            DirView::InHome(".bun/bin"@),
            DirView::InHome(".npm-global/bin"@),
            DirView::InHome(".cargo/bin"@),
        ]
    } else {
        Seq::empty()
    })
}

fn add_dir(dirs: &mut Vec<Dir>, d: Dir)
    ensures
        dirs_view(final(dirs)@) == dirs_view(old(dirs)@).push(d@),
{
    dirs.push(d);
    assert(dirs_view(dirs@) =~= dirs_view(old(dirs)@).push(d@));
}

/// The directories of the search path `path`.
fn path_dirs(path: &str) -> (dirs: Vec<Dir>)
    ensures
        dirs_view(dirs@) == path_parts(path@).map_values(|p: Seq<char>| DirView::At(p)),
{
    let v = chars_of(path);
    let ghost at = |p: Seq<char>| DirView::At(p);
    let mut dirs: Vec<Dir> = Vec::new();
    let mut start: usize = 0;
    let mut i: usize = 0;
    assert(path@.skip(0) =~= path@);
    assert(dirs_view(dirs@) + path_parts(path@).map_values(at) =~= path_parts(path@).map_values(at));
    while i < v.len()
        invariant
            start <= i <= v.len(),
            v@ == path@,
            forall|j: int| start <= j < i ==> #[trigger] path@[j] != ':',
            dirs_view(dirs@) + path_parts(path@.skip(start as int)).map_values(at) == path_parts(
                path@,
            ).map_values(at),
            at == (|p: Seq<char>| DirView::At(p)),
        decreases v.len() - i,
    {
        if v[i] == ':' {
            let ghost s = path@.skip(start as int);
            let ghost n = (i - start) as int;
            let ghost before = dirs_view(dirs@);
            proof {
                assert forall|j: int| 0 <= j < n implies #[trigger] s[j] != ':' by {
                    assert(path@[start + j] != ':');
                }
                lemma_colon_of(s, n);
                assert(s.skip(n + 1) =~= path@.skip(i + 1));
                assert(s.take(n) =~= path@.subrange(start as int, i as int));
            }
            if i > start {
                add_dir(&mut dirs, Dir::At(path.substring_char(start, i).to_owned()));
            }
            proof {
                let head = if n > 0 {
                    seq![s.take(n)]
                } else {
                    Seq::empty()
                };
                let rest = path_parts(s.skip(n + 1));
                assert(path_parts(s) == head + rest);
                assert(dirs_view(dirs@) =~= before + head.map_values(at));
                assert(dirs_view(dirs@) + rest.map_values(at) =~= before + (head + rest).map_values(
                    at,
                ));
            }
            start = i + 1;
        }
        i = i + 1;
    }
    let ghost s = path@.skip(start as int);
    let ghost n = (i - start) as int;
    let ghost before = dirs_view(dirs@);
    proof {
        assert forall|j: int| 0 <= j < n implies #[trigger] s[j] != ':' by {
            assert(path@[start + j] != ':');
        }
        lemma_colon_of(s, n);
        assert(s.take(n) =~= path@.subrange(start as int, i as int));
    }
    if i > start {
        add_dir(&mut dirs, Dir::At(path.substring_char(start, i).to_owned()));
    }
    proof {
        let head = if n > 0 {
            seq![s.take(n)]
        } else {
            Seq::empty()
        };
        assert(path_parts(s) == head);
        assert(dirs_view(dirs@) =~= before + head.map_values(at));
    }
    dirs
}

/// Where a bare program name is looked for; `path` is the search path, `home`
/// says whether the user has a home.
pub fn program_dirs(path: &str, home: bool) -> (dirs: Vec<Dir>)
    ensures
        dirs_view(dirs@) == program_dirs_of(path@, home),
{
    let mut dirs = path_dirs(path);
    add_dir(&mut dirs, Dir::At("/usr/local/bin".to_owned()));
    add_dir(&mut dirs, Dir::At("/opt/homebrew/bin".to_owned()));
    add_dir(&mut dirs, Dir::At("/usr/bin".to_owned()));
    add_dir(&mut dirs, Dir::At("/bin".to_owned()));
    if home {
        add_dir(&mut dirs, Dir::InHome(".opencode/bin"));
        add_dir(&mut dirs, Dir::InHome(".local/bin"));
        add_dir(&mut dirs, Dir::InHome(".bun/bin"));
        add_dir(&mut dirs, Dir::InHome(".npm-global/bin"));
        add_dir(&mut dirs, Dir::InHome(".cargo/bin"));
    }
    assert(dirs_view(dirs@) =~= program_dirs_of(path@, home));
    dirs
}

/// The first place of `found` that holds; `None` if none does.
pub open spec fn first_of(found: Seq<bool>) -> Option<nat>
    decreases found.len(),
{
    if found.len() == 0 {
        None
    } else if found[0] {
        Some(0)
    } else {
        match first_of(found.skip(1)) {
            Some(i) => Some(i + 1),
            None => None,
        }
    }
}

/// Which directory a program is run from: the first one that has it, `found`
/// saying which have. `None` for a path, or where no directory has it: the
/// program is then run by the name it was given.
pub fn resolve_program(program: &str, found: &Vec<bool>) -> (r: Option<usize>)
    ensures
        match r {
            Some(i) => !is_path(program@) && first_of(found@) == Some(i as nat),
            None => is_path(program@) || first_of(found@) is None,
        },
        r matches Some(i) ==> i < found@.len() && found@[i as int] && forall|j: int|
            0 <= j < i ==> !#[trigger] found@[j],
        r is None && !is_path(program@) ==> forall|j: int|
            0 <= j < found@.len() ==> !#[trigger] found@[j],
        is_path(program@) ==> r is None,
{
    if names_path(program) {
        return None;
    }
    let mut i: usize = 0;
    assert(found@.skip(0) =~= found@);
    while i < found.len()
        invariant
            i <= found.len(),
            !is_path(program@),
            forall|j: int| 0 <= j < i ==> !#[trigger] found@[j],
            first_of(found@) == (match first_of(found@.skip(i as int)) {
                Some(k) => Some(k + i as nat),
                None => None,
            }),
        decreases found.len() - i,
    {
        if found[i] {
            return Some(i);
        }
        assert(found@.skip(i as int).skip(1) =~= found@.skip(i + 1));
        i = i + 1;
    }
    None
}

/// The program that is run to completion. On Windows it goes through the
/// command interpreter, because installed tools may be scripts there; elsewhere
/// it is the program that was found.
pub fn command_line(windows: bool, program: String, resolved: String, args: Vec<String>) -> (r:
    Launch)
    ensures
        r@ == (if windows {
            LaunchView {
                program: "cmd"@,
                args: seq!["/C"@, program@] + crate::engine::texts_of(args@),
            }
        } else {
            LaunchView { program: resolved@, args: crate::engine::texts_of(args@) }
        }),
{
    if windows {
        let mut all: Vec<String> = Vec::new();
        all.push("/C".to_owned());
        all.push(program);
        let mut args = args;
        let ghost given = args@;
        all.append(&mut args);
        assert(crate::engine::texts_of(all@) =~= seq!["/C"@, program@] + crate::engine::texts_of(
            given,
        ));
        Launch { program: "cmd".to_owned(), args: all }
    } else {
        Launch { program: resolved, args }
    }
}

/// The directories of the user's home that programs are told to search.
pub fn home_dirs() -> (dirs: Vec<&'static str>)
    ensures
        dirs@.map_values(|s: &'static str| s@) == seq![
            ".opencode/bin"@,
            ".local/bin"@,
            ".bun/bin"@,
            ".npm-global/bin"@,
        ],
{
    let mut dirs: Vec<&'static str> = Vec::new();
    dirs.push(".opencode/bin");
    dirs.push(".local/bin");
    dirs.push(".bun/bin");
    dirs.push(".npm-global/bin");
    assert(dirs@.map_values(|s: &'static str| s@) =~= seq![
        ".opencode/bin"@,
        ".local/bin"@,
        ".bun/bin"@,
        ".npm-global/bin"@,
    ]);
    dirs
}

/// A colon and a directory, for each directory.
pub open spec fn with_colons(dirs: Seq<Seq<char>>) -> Seq<char>
    decreases dirs.len(),
{
    if dirs.len() == 0 {
        Seq::empty()
    } else {
        with_colons(dirs.drop_last()) + ":"@ + dirs.last()
    }
}

/// The search path for a program that is run: the one of this process, then
/// the usual places for installed programs, then those of the user's home.
pub open spec fn child_path_of(base: Seq<char>, homes: Seq<Seq<char>>) -> Seq<char> {
    let extra = "/usr/local/bin:/opt/homebrew/bin"@ + with_colons(homes);
    if base.len() == 0 {
        extra
    } else {
        base + ":"@ + extra
    }
}

/// The search path for a program that is run; `base` is the one of this
/// process, `homes` are the directories of the user's home.
pub fn child_path(base: &str, homes: &Vec<String>) -> (path: String)
    ensures
        path@ == child_path_of(base@, crate::engine::texts_of(homes@)),
{
    let mut extra = "/usr/local/bin:/opt/homebrew/bin".to_owned();
    let ghost all = crate::engine::texts_of(homes@);
    let mut i: usize = 0;
    assert(all.take(0) =~= Seq::<Seq<char>>::empty());
    assert(extra@ =~= "/usr/local/bin:/opt/homebrew/bin"@ + with_colons(all.take(0)));
    while i < homes.len()
        invariant
            i <= homes.len(),
            all == crate::engine::texts_of(homes@),
            extra@ == "/usr/local/bin:/opt/homebrew/bin"@ + with_colons(all.take(i as int)),
        decreases homes.len() - i,
    {
        let ghost next = all.take(i + 1);
        assert(next.drop_last() =~= all.take(i as int));
        assert(next.last() == homes@[i as int]@);
        extra = extra.concat(":").concat(homes[i].as_str());
        assert(extra@ =~= "/usr/local/bin:/opt/homebrew/bin"@ + with_colons(next));
        i = i + 1;
    }
    assert(all.take(all.len() as int) =~= all);
    if base.is_empty() {
        extra
    } else {
        let path = base.to_owned().concat(":").concat(extra.as_str());
        path
    }
}

/// The directory that a program is run in: the one that was asked for, or
/// `None` for the user's home, where none or an empty one was.
pub fn working_dir(cwd: Option<String>) -> (r: Option<String>)
    ensures
        r == (if cwd is Some && cwd->0@.len() > 0 {
            cwd
        } else {
            None
        }),
{
    match cwd {
        Some(d) => if d.as_str().is_empty() {
            None
        } else {
            Some(d)
        },
        None => None,
    }
}

/// The outcome of a program that was run to completion.
#[derive(Debug, PartialEq, Eq)]
pub struct CmdOut {
    pub code: i32,
    pub stdout: String,
    pub stderr: String,
}

/// The outcome of a program: its exit code, or -1 if it has none, and what it
/// wrote, as text.
pub fn cmd_out(code: Option<i32>, stdout: &[u8], stderr: &[u8]) -> (r: CmdOut)
    ensures
        code matches Some(c) ==> r.code == c,
        code is None ==> r.code == -1,
        r.stdout@ == crate::text::text_of(stdout@),
        r.stderr@ == crate::text::text_of(stderr@),
{
    let code: i32 = match code {
        Some(c) => c,
        None => -1,
    };
    CmdOut { code, stdout: lossy(stdout), stderr: lossy(stderr) }
}

} // verus!
