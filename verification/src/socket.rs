//! Where the control socket lives: a file in the user's runtime directory
//! whose name carries the session and the process that serve it.

use crate::decimal::{
    decimal, is_digit, lemma_decimal_is_digits, lemma_decimal_round_trip, push_decimal,
};
use vstd::prelude::*;
use vstd::string::*;

verus! {

/// The name of the socket file that process `pid` serves for `session`.
pub open spec fn socket_name_spec(session: Seq<char>, pid: nat) -> Seq<char> {
    "niri."@ + session + "."@ + decimal(pid) + ".sock"@
}

/// `dir` with `name` as its last component: a separator goes between the
/// two unless `dir` is empty or already ends in one.
pub open spec fn in_dir(dir: Seq<char>, name: Seq<char>) -> Seq<char> {
    if dir.len() == 0 || dir.last() == '/' {
        dir + name
    } else {
        dir + "/"@ + name
    }
}

/// The path of the socket file that process `pid` serves for `session`,
/// under `dir`.
pub open spec fn socket_path_spec(dir: Seq<char>, session: Seq<char>, pid: nat) -> Seq<char> {
    in_dir(dir, socket_name_spec(session, pid))
}

/// The directory for the socket file: the runtime directory where the
/// system names one, the temporary directory otherwise.
pub open spec fn resolved_dir(runtime_dir: Option<Seq<char>>, temp_dir: Seq<char>) -> Seq<char> {
    match runtime_dir {
        Some(dir) => dir,
        None => temp_dir,
    }
}

/// The name of the socket file: `niri.`, the session's name, a dot, the
/// process id in decimal, `.sock`.
pub fn socket_name(wayland_socket_name: &str, pid: u32) -> (name: String)
    ensures
        name@ == socket_name_spec(wayland_socket_name@, pid as nat),
{
    let mut name = String::new();
    name.append("niri.");
    name.append(wayland_socket_name);
    name.append(".");
    push_decimal(&mut name, pid);
    name.append(".sock");
    assert(name@ =~= socket_name_spec(wayland_socket_name@, pid as nat));
    name
}

/// The path of the socket file under `dir`.
pub fn socket_path(dir: &str, wayland_socket_name: &str, pid: u32) -> (path: String)
    ensures
        path@ == socket_path_spec(dir@, wayland_socket_name@, pid as nat),
{
    let name = socket_name(wayland_socket_name, pid);
    let len = dir.unicode_len();
    let separate = len > 0 && dir.get_char(len - 1) != '/';
    let mut path = String::new();
    path.append(dir);
    if separate {
        path.append("/");
    }
    path.append(name.as_str());
    assert(path@ =~= socket_path_spec(dir@, wayland_socket_name@, pid as nat));
    path
}

/// Chooses the directory for the socket file from what the system offers.
pub fn resolve_socket_dir(runtime_dir: Option<String>, temp_dir: String) -> (dir: String)
    ensures
        dir@ == resolved_dir(
            match runtime_dir {
                Some(d) => Some(d@),
                None => None,
            },
            temp_dir@,
        ),
{
    match runtime_dir {
        Some(dir) => dir,
        None => temp_dir,
    }
}

/// `directories::BaseDirs::new` and `BaseDirs::runtime_dir`: the user's
/// runtime directory as the environment names it at the time of the call,
/// as text. The crate offers one only where `XDG_RUNTIME_DIR` holds an
/// absolute path, which is all that is claimed here; what the directory is
/// depends on the environment and is not stated.
#[verifier::external_body]
fn runtime_dir() -> (dir: Option<String>)
    ensures
        dir matches Some(d) ==> d@.len() > 0 && d@[0] == '/',
{
    let base = directories::BaseDirs::new();
    base.as_ref().and_then(|x| x.runtime_dir()).map(|x| x.to_string_lossy().into_owned())
}

/// The directory for the socket file on this system: the user's runtime
/// directory, or `temp_dir` where there is none. Which of the two it is
/// depends on the environment; a runtime directory is always absolute.
pub fn socket_dir(temp_dir: String) -> (dir: String)
    ensures
        dir@ == temp_dir@ || (dir@.len() > 0 && dir@[0] == '/'),
{
    resolve_socket_dir(runtime_dir(), temp_dir)
}

/// Socket names do not collide: a name is shared only by servers of the same
/// session in the same process, so hosts that run side by side never meet
/// at one socket file.
pub proof fn lemma_socket_name_is_unique(
    session_a: Seq<char>,
    pid_a: nat,
    session_b: Seq<char>,
    pid_b: nat,
)
    requires
        socket_name_spec(session_a, pid_a) == socket_name_spec(session_b, pid_b),
    ensures
        session_a == session_b,
        pid_a == pid_b,
{
    reveal_strlit("niri.");
    reveal_strlit(".");
    reveal_strlit(".sock");
    let name_a = socket_name_spec(session_a, pid_a);
    let name_b = socket_name_spec(session_b, pid_b);
    let digits_a = decimal(pid_a);
    let digits_b = decimal(pid_b);
    lemma_decimal_is_digits(pid_a);
    lemma_decimal_is_digits(pid_b);
    lemma_decimal_round_trip(pid_a);
    lemma_decimal_round_trip(pid_b);
    let la = session_a.len() as int;
    let lb = session_b.len() as int;
    assert(name_a.len() == 5 + la + 1 + digits_a.len() + 5);
    assert(name_b.len() == 5 + lb + 1 + digits_b.len() + 5);
    assert(name_a[5 + la] == '.');
    assert(name_b[5 + lb] == '.');
    if la < lb {
        let j = lb - la - 1;
        assert(name_a[5 + lb] == digits_a[j]);
        assert(is_digit(digits_a[j]));
    } else if lb < la {
        let j = la - lb - 1;
        assert(name_b[5 + la] == digits_b[j]);
        assert(is_digit(digits_b[j]));
    }
    assert(la == lb);
    assert(session_a =~= session_b) by {
        assert forall|i: int| 0 <= i < la implies session_a[i] == session_b[i] by {
            assert(name_a[5 + i] == session_a[i]);
            assert(name_b[5 + i] == session_b[i]);
        }
    }
    assert(digits_a =~= digits_b) by {
        assert forall|i: int| 0 <= i < digits_a.len() implies digits_a[i] == digits_b[i] by {
            assert(name_a[5 + la + 1 + i] == digits_a[i]);
            assert(name_b[5 + lb + 1 + i] == digits_b[i]);
        }
    }
}

/// Socket paths under one directory do not collide either.
pub proof fn lemma_socket_path_is_unique(
    dir: Seq<char>,
    session_a: Seq<char>,
    pid_a: nat,
    session_b: Seq<char>,
    pid_b: nat,
)
    requires
        socket_path_spec(dir, session_a, pid_a) == socket_path_spec(dir, session_b, pid_b),
    ensures
        session_a == session_b,
        pid_a == pid_b,
{
    reveal_strlit("/");
    let name_a = socket_name_spec(session_a, pid_a);
    let name_b = socket_name_spec(session_b, pid_b);
    let path_a = socket_path_spec(dir, session_a, pid_a);
    let path_b = socket_path_spec(dir, session_b, pid_b);
    let head = path_a.len() - name_a.len();
    assert(name_a =~= path_a.skip(head));
    assert(name_b =~= path_b.skip(head));
    lemma_socket_name_is_unique(session_a, pid_a, session_b, pid_b);
}

} // verus!
