//! What the container runner decides: where a runner's home lives, which
//! program it runs with which arguments and environment, and how the
//! container's own prefix is taken off what a command wrote to stderr.

use vstd::prelude::*;
use crate::ids::{hex_digits, new_uuid_v4, uuid_simple_text};
use crate::path::strings_view;
use crate::text::{concat3, push_str};

verus! {

/// A program to run in the container, with its arguments.
pub struct CommandPlan {
    pub program: String,
    pub args: Vec<String>,
}

/// The directory, inside the container, where commands run.
pub open spec fn working_dir_text() -> Seq<char> {
    "/home"@
}

/// The host directory of a runner whose identifier is `id`: `/tmp/` and the
/// 32 hexadecimal digits of the identifier.
pub open spec fn temp_home_text(id: u128) -> Seq<char> {
    "/tmp/"@ + hex_digits(id as nat, 32)
}

/// The host directory of the runner with identifier `id`.
pub fn temp_home_path(id: u128) -> (p: String)
    ensures
        p@ == temp_home_text(id),
{
    let digits = uuid_simple_text(id);
    let mut p = "/tmp/".to_owned();
    push_str(&mut p, digits.as_str());
    p
}

/// The host directory of a new runner, named after a fresh random UUID of
/// version 4 and of the RFC 4122 variant.
pub fn new_temp_home() -> (p: String)
    ensures
        exists|id: u128|
            p@ == temp_home_text(id) && (id >> 76u128) & 0xfu128 == 4 && (id >> 62u128) & 0x3u128
                == 2,
{
    let id = new_uuid_v4();
    temp_home_path(id)
}

/// The working directory of every command.
pub fn working_dir() -> (d: String)
    ensures
        d@ == working_dir_text(),
{
    "/home".to_owned()
}

fn pair(a: &str, b: &str) -> (p: (String, String))
    ensures
        p.0@ == a@,
        p.1@ == b@,
{
    (a.to_owned(), b.to_owned())
}

/// The views of a list of name/value pairs.
pub open spec fn pairs_view(v: Seq<(String, String)>) -> Seq<(Seq<char>, Seq<char>)> {
    v.map_values(|p: (String, String)| (p.0@, p.1@))
}

/// The environment of a command that is run to completion.
pub open spec fn run_environment_view() -> Seq<(Seq<char>, Seq<char>)> {
    seq![
        ("HOME"@, "/home"@),
        ("PATH"@, "/bin"@),
        ("PROG"@, "/bin/cc"@),
        ("LD_LIBRARY_PATH"@, "/lib:/lib64:/libexec"@),
    ]
}

/// The environment of an interactive command.
pub open spec fn spawn_environment_view() -> Seq<(Seq<char>, Seq<char>)> {
    seq![("HOME"@, "/home"@), ("PATH"@, "/bin"@), ("LD_LIBRARY_PATH"@, "/lib:/lib64:/libexec"@)]
}

/// The environment in which a command is run to completion.
pub fn run_environment() -> (env: Vec<(String, String)>)
    ensures
        pairs_view(env@) == run_environment_view(),
{
    let mut env = Vec::new();
    env.push(pair("HOME", "/home"));
    env.push(pair("PATH", "/bin"));
    env.push(pair("PROG", "/bin/cc"));
    env.push(pair("LD_LIBRARY_PATH", "/lib:/lib64:/libexec"));
    assert(pairs_view(env@) =~= run_environment_view());
    env
}

/// The environment of an interactive command.
pub fn spawn_environment() -> (env: Vec<(String, String)>)
    ensures
        pairs_view(env@) == spawn_environment_view(),
{
    let mut env = Vec::new();
    env.push(pair("HOME", "/home"));
    env.push(pair("PATH", "/bin"));
    env.push(pair("LD_LIBRARY_PATH", "/lib:/lib64:/libexec"));
    assert(pairs_view(env@) =~= spawn_environment_view());
    env
}

/// The words of `args` separated by single spaces.
pub open spec fn join_spaces(args: Seq<Seq<char>>) -> Seq<char>
    decreases args.len(),
{
    if args.len() == 0 {
        Seq::empty()
    } else if args.len() == 1 {
        args[0]
    } else {
        join_spaces(args.drop_last()) + " "@ + args.last()
    }
}

/// The script that `bash -c` runs for `cmd` and `args`: the command, a
/// space, and the arguments separated by spaces.
pub fn bash_script(cmd: &str, args: &Vec<String>) -> (s: String)
    ensures
        s@ == cmd@ + " "@ + join_spaces(strings_view(args@)),
{
    let mut joined = String::new();
    let mut i: usize = 0;
    while i < args.len()
        invariant
            i <= args@.len(),
            joined@ == join_spaces(strings_view(args@).take(i as int)),
        decreases args@.len() - i,
    {
        let ghost before = strings_view(args@).take(i as int);
        proof {
            assert(strings_view(args@).take(i as int + 1).drop_last() =~= before);
        }
        if i > 0 {
            push_str(&mut joined, " ");
        }
        push_str(&mut joined, args[i].as_str());
        proof {
            if i == 0 {
                assert(joined@ =~= strings_view(args@).take(1)[0]);
            }
        }
        i = i + 1;
    }
    assert(strings_view(args@).take(i as int) =~= strings_view(args@));
    concat3(cmd, " ", joined.as_str())
}

/// Running `cmd` with `args` through `bash -c`.
pub fn bash_plan(cmd: &str, args: &Vec<String>) -> (p: CommandPlan)
    ensures
        p.program@ == "/bin/bash"@,
        strings_view(p.args@) == seq!["-c"@, cmd@ + " "@ + join_spaces(strings_view(args@))],
{
    let script = bash_script(cmd, args);
    let mut a = Vec::new();
    a.push("-c".to_owned());
    a.push(script);
    assert(strings_view(a@) =~= seq!["-c"@, cmd@ + " "@ + join_spaces(strings_view(args@))]);
    CommandPlan { program: "/bin/bash".to_owned(), args: a }
}

/// Compiling with `rustc` and the given arguments.
pub fn rustc_plan(args: Vec<String>) -> (p: CommandPlan)
    ensures
        p.program@ == "/bin/rustc"@,
        p.args == args,
{
    CommandPlan { program: "/bin/rustc".to_owned(), args }
}

/// Making the binary at `path` use the container's dynamic loader.
pub fn patch_binary_plan(path: &str) -> (p: CommandPlan)
    ensures
        p.program@ == "/bin/patchelf"@,
        strings_view(p.args@) == seq![
            "--set-interpreter"@,
            "/lib/ld-linux-x86-64.so.2"@,
            path@,
        ],
{
    let mut a = Vec::new();
    a.push("--set-interpreter".to_owned());
    a.push("/lib/ld-linux-x86-64.so.2".to_owned());
    a.push(path.to_owned());
    assert(strings_view(a@) =~= seq!["--set-interpreter"@, "/lib/ld-linux-x86-64.so.2"@, path@]);
    CommandPlan { program: "/bin/patchelf".to_owned(), args: a }
}

/// The bytes `hakoniwa: ` that the container puts before its own messages.
pub open spec fn container_prefix() -> Seq<u8> {
    seq![104u8, 97u8, 107u8, 111u8, 110u8, 105u8, 119u8, 97u8, 58u8, 32u8]
}

/// What a command wrote to stderr, without the container's prefix when it
/// starts with it.
pub fn strip_container_prefix(stderr: Vec<u8>) -> (r: Vec<u8>)
    ensures
        r@ == if stderr@.len() >= 10 && stderr@.take(10) == container_prefix() {
            stderr@.skip(10)
        } else {
            stderr@
        },
{
    let n = stderr.len();
    let starts = n >= 10 && stderr[0] == 104u8 && stderr[1] == 97u8 && stderr[2] == 107u8
        && stderr[3] == 111u8 && stderr[4] == 110u8 && stderr[5] == 105u8 && stderr[6] == 119u8
        && stderr[7] == 97u8 && stderr[8] == 58u8 && stderr[9] == 32u8;
    proof {
        if starts {
            assert(stderr@.take(10) =~= container_prefix());
        } else if n >= 10 {
            if stderr@.take(10) == container_prefix() {
                assert(stderr@[0] == stderr@.take(10)[0]);
                assert(stderr@[1] == stderr@.take(10)[1]);
                assert(stderr@[2] == stderr@.take(10)[2]);
                assert(stderr@[3] == stderr@.take(10)[3]);
                assert(stderr@[4] == stderr@.take(10)[4]);
                assert(stderr@[5] == stderr@.take(10)[5]);
                assert(stderr@[6] == stderr@.take(10)[6]);
                assert(stderr@[7] == stderr@.take(10)[7]);
                assert(stderr@[8] == stderr@.take(10)[8]);
                assert(stderr@[9] == stderr@.take(10)[9]);
            }
        }
    }
    if starts {
        let mut out: Vec<u8> = Vec::new();
        let mut i: usize = 10;
        while i < n
            invariant
                10 <= i <= n,
                n == stderr@.len(),
                out@ == stderr@.subrange(10, i as int),
            decreases n - i,
        {
            out.push(stderr[i]);
            proof {
                assert(out@ =~= stderr@.subrange(10, i as int + 1));
            }
            i = i + 1;
        }
        out
    } else {
        stderr
    }
}

} // verus!
