use vstd::prelude::*;
use vstd::string::StringExecFns;
use crate::decimal::{law_numeral_round_trip, numeral, numeral_of, parse_i32, parsed_i32};
use crate::pool::{arg_views, ArgError};
use crate::text::str_eq;

verus! {

/// The port on which a remote server listens.
pub const PORT: u16 = 4466;

/// What the program is asked to be.
#[derive(Debug, Clone, Copy, PartialEq, Eq, Structural)]
pub enum Role {
    /// `-r ...`: run commands on remote machines.
    Remote,
    /// `-J ...`: run commands here.
    Local,
    /// `--server-remote n`: serve commands with `n` workers.
    Server(i32),
    /// Anything else: nothing to do.
    Nothing,
}

/// The role that the first argument after the program name selects.
pub open spec fn role_of(args: Seq<Seq<char>>) -> Result<Role, ArgError> {
    let a = args[1];
    if a == "-r"@ {
        Ok(Role::Remote)
    } else if a == "-J"@ {
        Ok(Role::Local)
    } else if a == "--server-remote"@ {
        match parsed_i32(args[2]) {
            Some(n) => Ok(Role::Server(n)),
            None => Err(ArgError::BadWorkerCount),
        }
    } else {
        Ok(Role::Nothing)
    }
}

/// The role a command line asks for; a server's worker count must be an `i32`.
pub fn choose_role(args: &Vec<String>) -> (res: Result<Role, ArgError>)
    requires
        args.len() >= 2,
        args@[1]@ == "--server-remote"@ ==> args.len() >= 3,
    ensures
        res == role_of(arg_views(args@)),
{
    let a = args[1].as_str();
    assert(arg_views(args@)[1] == args@[1]@);
    if str_eq(a, "-r") {
        Ok(Role::Remote)
    } else if str_eq(a, "-J") {
        Ok(Role::Local)
    } else if str_eq(a, "--server-remote") {
        assert(arg_views(args@)[2] == args@[2]@);
        match parse_i32(args[2].as_str()) {
            Some(n) => Ok(Role::Server(n)),
            None => Err(ArgError::BadWorkerCount),
        }
    } else {
        Ok(Role::Nothing)
    }
}

/// The command line that starts a client on a remote machine.
pub open spec fn wakeup_line(n_workers: i32, mode: i32) -> Seq<Seq<char>> {
    seq!["pars"@, "--client-remote"@, numeral_of(n_workers as int), numeral_of(mode as int)]
}

/// The command (program and arguments) that wakes up a remote machine with
/// `n_workers` workers of halt mode `mode`.
pub fn wakeup_command(n_workers: i32, mode: i32) -> (res: Vec<String>)
    ensures
        res.deep_view() == wakeup_line(n_workers, mode),
{
    let mut res: Vec<String> = Vec::new();
    res.push(String::from_str("pars"));
    res.push(String::from_str("--client-remote"));
    res.push(numeral(n_workers));
    res.push(numeral(mode));
    assert(res.deep_view() =~= wakeup_line(n_workers, mode));
    res
}

/// Law: the worker count and the halt mode in a wake-up command read back as
/// the numbers they were written from.
pub proof fn law_wakeup_reads_back(n_workers: i32, mode: i32)
    ensures
        parsed_i32(wakeup_line(n_workers, mode)[2]) == Some(n_workers),
        parsed_i32(wakeup_line(n_workers, mode)[3]) == Some(mode),
{
    law_numeral_round_trip(n_workers);
    law_numeral_round_trip(mode);
}

/// Law: the role depends on the first argument after the program name
/// alone (and, for a server, on the one after it): `-r` asks for a remote
/// run and `-J` for a local one, whatever follows.
pub proof fn law_role_from_first_argument(args: Seq<Seq<char>>)
    requires
        args.len() >= 2,
    ensures
        args[1] == "-r"@ ==> role_of(args) == Ok::<Role, ArgError>(Role::Remote),
        args[1] == "-J"@ ==> role_of(args) == Ok::<Role, ArgError>(Role::Local),
        args[1] == "--server-remote"@ && args.len() >= 3 ==> (match parsed_i32(args[2]) {
            Some(n) => role_of(args) == Ok::<Role, ArgError>(Role::Server(n)),
            None => role_of(args) is Err,
        }),
{
    reveal_strlit("-r");
    reveal_strlit("-J");
    reveal_strlit("--server-remote");
    assert("-r"@[1] != "-J"@[1]);
    assert("--server-remote"@.len() != "-r"@.len());
    assert("--server-remote"@.len() != "-J"@.len());
}

/// Law: two command lines that agree on the arguments that choose the role
/// ask for the same role, however much else they hold.
pub proof fn law_role_ignores_the_rest(a: Seq<Seq<char>>, b: Seq<Seq<char>>)
    requires
        a.len() >= 3,
        b.len() >= 3,
        a[1] == b[1],
        a[2] == b[2],
    ensures
        role_of(a) == role_of(b),
{
}

} // verus!
