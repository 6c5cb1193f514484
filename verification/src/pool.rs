use vstd::prelude::*;
use crate::decimal::{lemma_numeral_chars, parse_i32, parse_u16, parsed_i32, parsed_u16};
use crate::text::{
    after_first, before_first, holds, lemma_first_index_absent, lemma_first_index_after, lowercase,
    split_first, str_eq, to_lowercase,
};

verus! {

/// Why a command line was refused.
#[derive(Debug, Clone, Copy, PartialEq, Eq, Structural)]
pub enum ArgError {
    /// A flag that takes a value stands last ("Error in argument").
    MissingValue,
    /// A halt mode other than lazy, eager or never ("Error in termination mode").
    BadMode,
    /// The port of a remote URL is not a `u16`.
    BadPort,
    /// The worker count of a remote URL is not an `i32`.
    BadWorkerCount,
    /// A remote URL without `:` before its port.
    NoPort,
    /// A remote URL without `/` before its worker count.
    NoWorkerCount,
    /// The value of `-J` is not an `i32` ("Error: num workers").
    BadJobCount,
}

/// The settings of one pool of workers: how many, how they halt, and the
/// machine they run on when they are remote.
#[derive(Debug, Clone, Copy)]
pub struct Pool<'a> {
    n_workers: i32,
    terminal_mode: i32,
    remote_port: u16,
    remote_ip: &'a str,
}

/// A pool's settings as values.
pub struct PoolView {
    pub n_workers: i32,
    pub terminal_mode: i32,
    pub remote_port: u16,
    pub remote_ip: Seq<char>,
}

impl<'a> View for Pool<'a> {
    type V = PoolView;

    closed spec fn view(&self) -> PoolView {
        PoolView {
            n_workers: self.n_workers,
            terminal_mode: self.terminal_mode,
            remote_port: self.remote_port,
            remote_ip: self.remote_ip@,
        }
    }
}

/// The arguments of a command line, each as its characters.
pub open spec fn arg_views(conf: Seq<String>) -> Seq<Seq<char>> {
    conf.map_values(|s: String| s@)
}

/// A pool before any argument is read: no workers, mode 0 (never), port 0, no address.
pub open spec fn fresh_pool() -> PoolView {
    PoolView { n_workers: 0, terminal_mode: 0, remote_port: 0, remote_ip: Seq::empty() }
}

pub open spec fn is_remote_flag(a: Seq<char>) -> bool {
    a == "-r"@ || a == "--remote"@
}

pub open spec fn is_halt_flag(a: Seq<char>) -> bool {
    a == "-e"@ || a == "--halt"@
}

/// The halt mode that `-e` value `s` names, compared after lowering its case.
pub open spec fn mode_of(s: Seq<char>) -> Result<i32, ArgError> {
    mode_word(lowercase(s))
}

/// The halt mode a lowercase word names: `never` is 0, `lazy` is 1, `eager` is 2.
pub open spec fn mode_word(l: Seq<char>) -> Result<i32, ArgError> {
    if l == "lazy"@ {
        Ok(1)
    } else if l == "eager"@ {
        Ok(2)
    } else if l == "never"@ {
        Ok(0)
    } else {
        Err(ArgError::BadMode)
    }
}

/// The address a remote host name stands for: `localhost` is 127.0.0.1.
pub open spec fn host_address(host: Seq<char>) -> Seq<char> {
    if host == "localhost"@ {
        "127.0.0.1"@
    } else {
        host
    }
}

/// Address, port and worker count of a URL `host:port/workers`. The host is
/// what precedes the first `:`, the port what lies between it and the first
/// `/` after it, the worker count what follows that `/` up to the next `/`;
/// a further `:` ends the port part. The checks come in that order.
pub open spec fn url_fields(url: Seq<char>) -> Result<(Seq<char>, u16, i32), ArgError> {
    if !holds(url, ':') {
        Err(ArgError::NoPort)
    } else {
        let hp = before_first(after_first(url, ':'), ':');
        match parsed_u16(before_first(hp, '/')) {
            None => Err(ArgError::BadPort),
            Some(port) => if !holds(hp, '/') {
                Err(ArgError::NoWorkerCount)
            } else {
                match parsed_i32(before_first(after_first(hp, '/'), '/')) {
                    None => Err(ArgError::BadWorkerCount),
                    Some(n) => Ok((host_address(before_first(url, ':')), port, n)),
                }
            },
        }
    }
}

/// Reading the remote settings from argument `i` on. The first `-r`/`--remote`
/// sets address, port and workers from the URL after it; a second one ends the
/// reading. Each `-e`/`--halt` on the way sets the halt mode. A flag that stands
/// last is refused, the second `-r` too.
pub open spec fn remote_scan(p: PoolView, conf: Seq<Seq<char>>, i: int, seen: bool) -> Result<PoolView, ArgError>
    decreases conf.len() - i,
{
    if i < 0 || i >= conf.len() {
        Ok(p)
    } else if is_remote_flag(conf[i]) {
        if i + 1 == conf.len() {
            Err(ArgError::MissingValue)
        } else if seen {
            Ok(p)
        } else {
            match url_fields(conf[i + 1]) {
                Ok((ip, port, n)) => remote_scan(
                    PoolView { remote_ip: ip, remote_port: port, n_workers: n, ..p },
                    conf,
                    i + 1,
                    true,
                ),
                Err(e) => Err(e),
            }
        }
    } else if is_halt_flag(conf[i]) {
        if i + 1 == conf.len() {
            Err(ArgError::MissingValue)
        } else {
            match mode_of(conf[i + 1]) {
                Ok(m) => remote_scan(PoolView { terminal_mode: m, ..p }, conf, i + 1, seen),
                Err(e) => Err(e),
            }
        }
    } else {
        remote_scan(p, conf, i + 1, seen)
    }
}

/// Reading the local settings from argument `i` on: each `-J` sets the worker
/// count, each `-e`/`--halt` the halt mode; a flag that stands last is refused.
pub open spec fn init_scan(p: PoolView, conf: Seq<Seq<char>>, i: int) -> Result<PoolView, ArgError>
    decreases conf.len() - i,
{
    if i < 0 || i >= conf.len() {
        Ok(p)
    } else if conf[i] == "-J"@ {
        if i + 1 == conf.len() {
            Err(ArgError::MissingValue)
        } else {
            match parsed_i32(conf[i + 1]) {
                Some(n) => init_scan(PoolView { n_workers: n, ..p }, conf, i + 1),
                None => Err(ArgError::BadJobCount),
            }
        }
    } else if is_halt_flag(conf[i]) {
        if i + 1 == conf.len() {
            Err(ArgError::MissingValue)
        } else {
            match mode_of(conf[i + 1]) {
                Ok(m) => init_scan(PoolView { terminal_mode: m, ..p }, conf, i + 1),
                Err(e) => Err(e),
            }
        }
    } else {
        init_scan(p, conf, i + 1)
    }
}

/// The halt mode that a lowercase word names, or `BadMode`.
pub fn mode_from_word(l: &str) -> (res: Result<i32, ArgError>)
    ensures
        res == mode_word(l@),
{
    if str_eq(l, "lazy") {
        Ok(1)
    } else if str_eq(l, "eager") {
        Ok(2)
    } else if str_eq(l, "never") {
        Ok(0)
    } else {
        Err(ArgError::BadMode)
    }
}

/// One pool per `-r` from argument `i` on, in order, each read from its own `-r`
/// by `remote_scan`; the first refusal refuses the whole line.
pub open spec fn pools_from(conf: Seq<Seq<char>>, i: int) -> Result<Seq<PoolView>, ArgError>
    decreases conf.len() - i,
{
    if i < 0 || i >= conf.len() {
        Ok(Seq::empty())
    } else if conf[i] == "-r"@ {
        match remote_scan(fresh_pool(), conf, i, false) {
            Ok(p) => match pools_from(conf, i + 1) {
                Ok(rest) => Ok(seq![p] + rest),
                Err(e) => Err(e),
            },
            Err(e) => Err(e),
        }
    } else {
        pools_from(conf, i + 1)
    }
}

pub open spec fn pool_views<'a>(pools: Seq<Pool<'a>>) -> Seq<PoolView> {
    pools.map_values(|p: Pool<'a>| p@)
}

/// `pre` followed by what `r` holds, or the error of `r`.
pub open spec fn prepend(pre: Seq<PoolView>, r: Result<Seq<PoolView>, ArgError>) -> Result<Seq<PoolView>, ArgError> {
    match r {
        Ok(rest) => Ok(pre + rest),
        Err(e) => Err(e),
    }
}

/// All the pools that the `-r` flags of a command line describe, in order.
pub fn init_pools<'a>(conf: &'a Vec<String>) -> (res: Result<Vec<Pool<'a>>, ArgError>)
    ensures
        match res {
            Ok(pools) => pools_from(arg_views(conf@), 0) == Ok::<Seq<PoolView>, ArgError>(pool_views(pools@)),
            Err(e) => pools_from(arg_views(conf@), 0) == Err::<Seq<PoolView>, ArgError>(e),
        },
{
    let ghost args = arg_views(conf@);
    let mut pools: Vec<Pool<'a>> = Vec::new();
    let mut i: usize = 0;
    assert(pool_views(pools@) =~= Seq::<PoolView>::empty());
    while i < conf.len()
        invariant
            i <= conf.len(),
            args == arg_views(conf@),
            pools_from(args, 0) == prepend(pool_views(pools@), pools_from(args, i as int)),
        decreases conf.len() - i,
    {
        assert(args[i as int] == conf@[i as int]@);
        if str_eq(conf[i].as_str(), "-r") {
            let mut p = Pool::new();
            match p.remote_init(i, conf) {
                Ok(()) => {},
                Err(e) => {
                    return Err(e);
                },
            }
            let ghost before = pool_views(pools@);
            pools.push(p);
            assert(pool_views(pools@) =~= before + seq![p@]);
            proof {
                match pools_from(args, i + 1) {
                    Ok(rest) => {
                        assert(before + (seq![p@] + rest) =~= (before + seq![p@]) + rest);
                    },
                    Err(e) => {},
                }
            }
        }
        i = i + 1;
    }
    proof {
        match pools_from(args, i as int) {
            Ok(rest) => {
                assert(pool_views(pools@) + rest =~= pool_views(pools@));
            },
            Err(e) => {},
        }
    }
    Ok(pools)
}

impl<'a> Pool<'a> {
    /// A pool with no workers, mode 0, port 0 and an empty address.
    pub fn new() -> (p: Self)
        ensures
            p@ == fresh_pool(),
    {
        proof {
            reveal_strlit("");
            assert(""@ =~= Seq::<char>::empty());
        }
        Pool { n_workers: 0, terminal_mode: 0, remote_port: 0, remote_ip: "" }
    }

    /// Takes address, port and worker count from a URL `host:port/workers`.
    fn parse_url(&mut self, url: &'a str) -> (res: Result<(), ArgError>)
        ensures
            match url_fields(url@) {
                Ok((ip, port, n)) => res is Ok && final(self)@ == PoolView {
                    remote_ip: ip,
                    remote_port: port,
                    n_workers: n,
                    ..old(self)@
                },
                Err(e) => res == Err::<(), ArgError>(e) && final(self)@ == old(self)@,
            },
    {
        let (host, rest) = split_first(url, ':');
        let hp_full = match rest {
            Some(r) => r,
            None => {
                return Err(ArgError::NoPort);
            },
        };
        let (hp, _) = split_first(hp_full, ':');
        let (port_text, workers_rest) = split_first(hp, '/');
        let port = match parse_u16(port_text) {
            Some(n) => n,
            None => {
                return Err(ArgError::BadPort);
            },
        };
        let workers_full = match workers_rest {
            Some(w) => w,
            None => {
                return Err(ArgError::NoWorkerCount);
            },
        };
        let (workers_text, _) = split_first(workers_full, '/');
        let n = match parse_i32(workers_text) {
            Some(n) => n,
            None => {
                return Err(ArgError::BadWorkerCount);
            },
        };
        let localhost = str_eq(host, "localhost");
        self.remote_ip = if localhost { "127.0.0.1" } else { host };
        self.remote_port = port;
        self.n_workers = n;
        Ok(())
    }

    /// Sets the halt mode that `conf` names.
    fn parse_mode(&mut self, conf: &str) -> (res: Result<(), ArgError>)
        ensures
            match mode_of(conf@) {
                Ok(m) => res is Ok && final(self)@ == PoolView { terminal_mode: m, ..old(self)@ },
                Err(e) => res == Err::<(), ArgError>(e) && final(self)@ == old(self)@,
            },
    {
        let lowered = to_lowercase(conf);
        let m = mode_from_word(lowered.as_str())?;
        self.terminal_mode = m;
        Ok(())
    }

    /// Refuses a flag at position `idx` that is the last of `total_len` arguments.
    fn check_arg(&self, idx: usize, total_len: usize) -> (res: Result<(), ArgError>)
        ensures
            res is Err <==> idx + 1 == total_len,
            res is Err ==> res == Err::<(), ArgError>(ArgError::MissingValue),
    {
        if idx < usize::MAX && idx + 1 == total_len {
            Err(ArgError::MissingValue)
        } else {
            Ok(())
        }
    }

    /// Reads the settings of the remote pool whose `-r` stands at `idx`.
    pub fn remote_init(&mut self, idx: usize, conf: &'a Vec<String>) -> (res: Result<(), ArgError>)
        ensures
            match remote_scan(old(self)@, arg_views(conf@), idx as int, false) {
                Ok(p) => res is Ok && final(self)@ == p,
                Err(e) => res == Err::<(), ArgError>(e) && final(self)@ == old(self)@,
            },
    {
        let ghost args = arg_views(conf@);
        let ghost goal = remote_scan(self@, args, idx as int, false);
        let mut p: Pool<'a> = *self;
        let mut seen = false;
        let mut i: usize = idx;
        while i < conf.len()
            invariant
                idx <= i,
                *self == *old(self),
                goal == remote_scan(old(self)@, args, idx as int, false),
                args == arg_views(conf@),
                goal == remote_scan(p@, args, i as int, seen),
            decreases conf.len() - i,
        {
            assert(args[i as int] == conf@[i as int]@);
            let arg = conf[i].as_str();
            if str_eq(arg, "-r") || str_eq(arg, "--remote") {
                p.check_arg(i, conf.len())?;
                if seen {
                    *self = p;
                    return Ok(());
                }
                seen = true;
                assert(args[i + 1] == conf@[i + 1]@);
                p.parse_url(conf[i + 1].as_str())?;
            } else if str_eq(arg, "-e") || str_eq(arg, "--halt") {
                p.check_arg(i, conf.len())?;
                assert(args[i + 1] == conf@[i + 1]@);
                p.parse_mode(conf[i + 1].as_str())?;
            }
            i = i + 1;
        }
        *self = p;
        Ok(())
    }

    /// The port of the remote machine.
    pub fn get_remote_port(self) -> (port: u16)
        ensures
            port == self@.remote_port,
    {
        self.remote_port
    }

    /// The address of the remote machine.
    pub fn get_remote_ip(&self) -> (ip: &str)
        ensures
            ip@ == self@.remote_ip,
    {
        self.remote_ip
    }

    /// Reads the local settings (`-J` and `-e`) of a command line.
    pub fn init(&mut self, conf: &[String]) -> (res: Result<(), ArgError>)
        ensures
            match init_scan(old(self)@, arg_views(conf@), 0) {
                Ok(p) => res is Ok && final(self)@ == p,
                Err(e) => res == Err::<(), ArgError>(e) && final(self)@ == old(self)@,
            },
    {
        let ghost args = arg_views(conf@);
        let ghost goal = init_scan(self@, args, 0);
        let mut p: Pool<'a> = *self;
        let mut i: usize = 0;
        while i < conf.len()
            invariant
                args == arg_views(conf@),
                *self == *old(self),
                goal == init_scan(old(self)@, args, 0),
                goal == init_scan(p@, args, i as int),
            decreases conf.len() - i,
        {
            assert(args[i as int] == conf@[i as int]@);
            let arg = conf[i].as_str();
            if str_eq(arg, "-J") {
                p.check_arg(i, conf.len())?;
                assert(args[i + 1] == conf@[i + 1]@);
                match parse_i32(conf[i + 1].as_str()) {
                    Some(n) => {
                        p.n_workers = n;
                    },
                    None => {
                        return Err(ArgError::BadJobCount);
                    },
                }
            } else if str_eq(arg, "-e") || str_eq(arg, "--halt") {
                p.check_arg(i, conf.len())?;
                assert(args[i + 1] == conf@[i + 1]@);
                p.parse_mode(conf[i + 1].as_str())?;
            }
            i = i + 1;
        }
        *self = p;
        Ok(())
    }

    /// The number of workers.
    pub fn get_workers(self) -> (n: i32)
        ensures
            n == self@.n_workers,
    {
        self.n_workers
    }

    /// The halt mode: 0 never, 1 lazy, 2 eager.
    pub fn get_mode(self) -> (m: i32)
        ensures
            m == self@.terminal_mode,
    {
        self.terminal_mode
    }
}

// ---------------------------------------------------------------------------
// Laws of the command line
// ---------------------------------------------------------------------------

/// The positions of the `-r` flags from argument `i` on, in order.
pub open spec fn remote_positions(conf: Seq<Seq<char>>, i: int) -> Seq<int>
    decreases conf.len() - i,
{
    if i < 0 || i >= conf.len() {
        Seq::empty()
    } else if conf[i] == "-r"@ {
        seq![i] + remote_positions(conf, i + 1)
    } else {
        remote_positions(conf, i + 1)
    }
}

/// The halt mode is one of never (0), lazy (1) and eager (2).
pub open spec fn valid_mode(m: i32) -> bool {
    0 <= m <= 2
}

/// Once a pool has read its URL, nothing further changes its address, port
/// or worker count.
pub proof fn lemma_scan_keeps_address(p: PoolView, conf: Seq<Seq<char>>, i: int)
    ensures
        remote_scan(p, conf, i, true) matches Ok(q) ==> {
            &&& q.remote_ip == p.remote_ip
            &&& q.remote_port == p.remote_port
            &&& q.n_workers == p.n_workers
        },
    decreases conf.len() - i,
{
    if 0 <= i < conf.len() {
        if is_remote_flag(conf[i]) {
        } else if is_halt_flag(conf[i]) {
            if i + 1 < conf.len() {
                if let Ok(m) = mode_of(conf[i + 1]) {
                    lemma_scan_keeps_address(PoolView { terminal_mode: m, ..p }, conf, i + 1);
                }
            }
        } else {
            lemma_scan_keeps_address(p, conf, i + 1);
        }
    }
}

/// A pool read from the `-r` at `i` has the address, port and worker count of
/// the URL that follows that flag.
pub proof fn lemma_pool_from_its_url(conf: Seq<Seq<char>>, i: int)
    requires
        0 <= i < conf.len(),
        conf[i] == "-r"@,
    ensures
        remote_scan(fresh_pool(), conf, i, false) matches Ok(q) ==> {
            &&& i + 1 < conf.len()
            &&& url_fields(conf[i + 1]) matches Ok((ip, port, n))
            &&& q.remote_ip == ip
            &&& q.remote_port == port
            &&& q.n_workers == n
        },
{
    if i + 1 < conf.len() {
        if let Ok((ip, port, n)) = url_fields(conf[i + 1]) {
            lemma_scan_keeps_address(
                PoolView { remote_ip: ip, remote_port: port, n_workers: n, ..fresh_pool() },
                conf,
                i + 1,
            );
        }
    }
}

/// `p` runs on the host and port, with the number of workers, that `url` gives.
pub open spec fn pool_matches_url(p: PoolView, url: Seq<char>) -> bool {
    url_fields(url) matches Ok((ip, port, n)) && p.remote_ip == ip && p.remote_port == port
        && p.n_workers == n
}

/// The pools read from argument `i` on match the `-r` flags there: one pool
/// per flag, in order, each running where the URL after its flag says.
pub open spec fn pools_match_flags(conf: Seq<Seq<char>>, i: int) -> bool {
    match pools_from(conf, i) {
        Ok(ps) => pools_at_flags(conf, ps, remote_positions(conf, i)),
        Err(_) => true,
    }
}

/// Pool `k` runs where the URL after flag position `pos[k]` says.
pub open spec fn pools_at_flags(conf: Seq<Seq<char>>, ps: Seq<PoolView>, pos: Seq<int>) -> bool {
    &&& ps.len() == pos.len()
    &&& forall|k: int| 0 <= k < ps.len() ==>
        pos[k] + 1 < conf.len() && pool_matches_url(#[trigger] ps[k], conf[pos[k] + 1])
    &&& forall|k: int| 0 <= k < ps.len() ==>
        remote_scan(fresh_pool(), conf, pos[k], false) == Ok::<PoolView, ArgError>(#[trigger] ps[k])
}

/// Law: a command line that is accepted gives one pool per `-r` flag, in the
/// order of the flags; the k-th pool is what `remote_init` reads from a fresh
/// pool at the k-th `-r`, and it runs on the host, port and number of workers
/// of the URL right after that flag.
pub proof fn law_one_pool_per_remote_flag(conf: Seq<Seq<char>>, i: int)
    requires
        0 <= i,
    ensures
        pools_match_flags(conf, i),
    decreases conf.len() - i,
{
    if i < conf.len() {
        law_one_pool_per_remote_flag(conf, i + 1);
        if conf[i] == "-r"@ {
            lemma_pool_from_its_url(conf, i);
            if let Ok(ps) = pools_from(conf, i) {
                let q = remote_scan(fresh_pool(), conf, i, false)->Ok_0;
                let rest = pools_from(conf, i + 1)->Ok_0;
                let pos = remote_positions(conf, i);
                let rest_pos = remote_positions(conf, i + 1);
                assert(pools_from(conf, i + 1) is Ok);
                assert(pools_at_flags(conf, rest, rest_pos));
                assert(ps == seq![q] + rest);
                assert(pos == seq![i] + rest_pos);
                assert(ps.len() == pos.len());
                assert forall|k: int| 0 <= k < ps.len() implies pool_matches_url(#[trigger] ps[k], conf[pos[k] + 1]) by {
                    if k == 0 {
                        assert(ps[0] == q);
                        assert(pos[0] == i);
                    } else {
                        assert(ps[k] == rest[k - 1]);
                        assert(pos[k] == rest_pos[k - 1]);
                    }
                }
                assert forall|k: int| 0 <= k < ps.len() implies #[trigger] pos[k] + 1 < conf.len() by {
                    if k == 0 {
                        assert(pos[0] == i);
                    } else {
                        assert(ps[k] == rest[k - 1]);
                        assert(pos[k] == rest_pos[k - 1]);
                    }
                }
                assert forall|k: int| 0 <= k < ps.len() implies remote_scan(fresh_pool(), conf, pos[k], false)
                    == Ok::<PoolView, ArgError>(#[trigger] ps[k]) by {
                    if k == 0 {
                        assert(ps[0] == q);
                        assert(pos[0] == i);
                    } else {
                        assert(ps[k] == rest[k - 1]);
                        assert(pos[k] == rest_pos[k - 1]);
                    }
                }
                assert(pools_at_flags(conf, ps, pos));
            }
            assert(pools_match_flags(conf, i));
        } else {
            assert(pools_from(conf, i) == pools_from(conf, i + 1));
            assert(remote_positions(conf, i) == remote_positions(conf, i + 1));
            assert(pools_match_flags(conf, i));
        }
    } else {
        assert(pools_from(conf, i) == Ok::<Seq<PoolView>, ArgError>(Seq::empty()));
        assert(pools_match_flags(conf, i));
    }
}

/// Law: whatever a command line says, a pool read from it halts in one of the
/// three modes never, lazy and eager.
pub proof fn law_mode_is_valid(p: PoolView, conf: Seq<Seq<char>>, i: int, seen: bool)
    requires
        valid_mode(p.terminal_mode),
    ensures
        remote_scan(p, conf, i, seen) matches Ok(q) ==> valid_mode(q.terminal_mode),
        init_scan(p, conf, i) matches Ok(q) ==> valid_mode(q.terminal_mode),
    decreases conf.len() - i,
{
    if 0 <= i < conf.len() {
      if i + 1 < conf.len() {
        if let Ok(m) = mode_of(conf[i + 1]) {
            law_mode_is_valid(PoolView { terminal_mode: m, ..p }, conf, i + 1, seen);
            law_mode_is_valid(PoolView { terminal_mode: m, ..p }, conf, i + 1, true);
        }
        if let Ok((ip, port, n)) = url_fields(conf[i + 1]) {
            law_mode_is_valid(PoolView { remote_ip: ip, remote_port: port, n_workers: n, ..p }, conf, i + 1, true);
        }
        if let Some(n) = parsed_i32(conf[i + 1]) {
            law_mode_is_valid(PoolView { n_workers: n, ..p }, conf, i + 1, seen);
        }
      }
        law_mode_is_valid(p, conf, i + 1, seen);
    }
}

/// Each field of `q1` and `q2` either is still that of `p1` and `p2`, or was
/// set to one and the same value in both.
pub open spec fn same_writes(p1: PoolView, p2: PoolView, q1: PoolView, q2: PoolView) -> bool {
    &&& (q1.n_workers == p1.n_workers && q2.n_workers == p2.n_workers) || q1.n_workers == q2.n_workers
    &&& (q1.terminal_mode == p1.terminal_mode && q2.terminal_mode == p2.terminal_mode)
        || q1.terminal_mode == q2.terminal_mode
    &&& (q1.remote_port == p1.remote_port && q2.remote_port == p2.remote_port)
        || q1.remote_port == q2.remote_port
    &&& (q1.remote_ip == p1.remote_ip && q2.remote_ip == p2.remote_ip) || q1.remote_ip == q2.remote_ip
}

/// Reading the remote settings refuses the same arguments whatever the pool
/// held, and writes the same values into it.
pub proof fn lemma_remote_scan_frame(p1: PoolView, p2: PoolView, conf: Seq<Seq<char>>, i: int, seen: bool)
    ensures
        match (remote_scan(p1, conf, i, seen), remote_scan(p2, conf, i, seen)) {
            (Ok(q1), Ok(q2)) => same_writes(p1, p2, q1, q2),
            (Err(e1), Err(e2)) => e1 == e2,
            _ => false,
        },
    decreases conf.len() - i,
{
    if 0 <= i < conf.len() {
        if is_remote_flag(conf[i]) {
            if i + 1 < conf.len() && !seen {
                if let Ok((ip, port, n)) = url_fields(conf[i + 1]) {
                    lemma_remote_scan_frame(
                        PoolView { remote_ip: ip, remote_port: port, n_workers: n, ..p1 },
                        PoolView { remote_ip: ip, remote_port: port, n_workers: n, ..p2 },
                        conf,
                        i + 1,
                        true,
                    );
                }
            }
        } else if is_halt_flag(conf[i]) {
            if i + 1 < conf.len() {
                if let Ok(m) = mode_of(conf[i + 1]) {
                    lemma_remote_scan_frame(
                        PoolView { terminal_mode: m, ..p1 },
                        PoolView { terminal_mode: m, ..p2 },
                        conf,
                        i + 1,
                        seen,
                    );
                }
            }
        } else {
            lemma_remote_scan_frame(p1, p2, conf, i + 1, seen);
        }
    }
}

/// Reading the local settings refuses the same arguments whatever the pool
/// held, and writes the same values into it.
pub proof fn lemma_init_scan_frame(p1: PoolView, p2: PoolView, conf: Seq<Seq<char>>, i: int)
    ensures
        match (init_scan(p1, conf, i), init_scan(p2, conf, i)) {
            (Ok(q1), Ok(q2)) => same_writes(p1, p2, q1, q2),
            (Err(e1), Err(e2)) => e1 == e2,
            _ => false,
        },
    decreases conf.len() - i,
{
    if 0 <= i < conf.len() {
        if conf[i] == "-J"@ {
            if i + 1 < conf.len() {
                if let Some(n) = parsed_i32(conf[i + 1]) {
                    lemma_init_scan_frame(
                        PoolView { n_workers: n, ..p1 },
                        PoolView { n_workers: n, ..p2 },
                        conf,
                        i + 1,
                    );
                }
            }
        } else if is_halt_flag(conf[i]) {
            if i + 1 < conf.len() {
                if let Ok(m) = mode_of(conf[i + 1]) {
                    lemma_init_scan_frame(
                        PoolView { terminal_mode: m, ..p1 },
                        PoolView { terminal_mode: m, ..p2 },
                        conf,
                        i + 1,
                    );
                }
            }
        } else {
            lemma_init_scan_frame(p1, p2, conf, i + 1);
        }
    }
}

/// Law: reading the same remote settings twice leaves the pool as reading them
/// once did (`remote_init` is idempotent).
pub proof fn law_remote_init_idempotent(p: PoolView, conf: Seq<Seq<char>>, i: int)
    ensures
        remote_scan(p, conf, i, false) matches Ok(q) ==> remote_scan(q, conf, i, false) == Ok::<PoolView, ArgError>(q),
{
    if let Ok(q) = remote_scan(p, conf, i, false) {
        lemma_remote_scan_frame(p, q, conf, i, false);
        let q2 = remote_scan(q, conf, i, false)->Ok_0;
        assert(q2 == q);
    }
}

/// Law: reading the same local settings twice leaves the pool as reading them
/// once did (`init` is idempotent).
pub proof fn law_init_idempotent(p: PoolView, conf: Seq<Seq<char>>)
    ensures
        init_scan(p, conf, 0) matches Ok(q) ==> init_scan(q, conf, 0) == Ok::<PoolView, ArgError>(q),
{
    if let Ok(q) = init_scan(p, conf, 0) {
        lemma_init_scan_frame(p, q, conf, 0);
        let q2 = init_scan(q, conf, 0)->Ok_0;
        assert(q2 == q);
    }
}

/// Law: a URL `host:port/workers` whose host holds no `:` runs on that very
/// host, or on 127.0.0.1 when the host is `localhost`, with the port and
/// worker count written in it.
pub proof fn law_url_names_its_host(h: Seq<char>, p: Seq<char>, w: Seq<char>, port: u16, n: i32)
    requires
        forall|i: int| 0 <= i < h.len() ==> h[i] != ':',
        parsed_u16(p) == Some(port),
        parsed_i32(w) == Some(n),
    ensures
        url_fields(h + seq![':'] + p + seq!['/'] + w) == Ok::<(Seq<char>, u16, i32), ArgError>(
            (if h == "localhost"@ { "127.0.0.1"@ } else { h }, port, n),
        ),
{
    lemma_numeral_chars(p, false);
    lemma_numeral_chars(w, true);
    let rest = p + seq!['/'] + w;
    let url = h + seq![':'] + rest;
    assert(h + seq![':'] + p + seq!['/'] + w =~= url);
    lemma_first_index_after(h, ':', rest);
    assert forall|i: int| 0 <= i < rest.len() implies rest[i] != ':' by {
        if i < p.len() {
            assert(rest[i] == p[i]);
        } else if i > p.len() {
            assert(rest[i] == w[i - p.len() - 1]);
        }
    }
    lemma_first_index_absent(rest, ':');
    assert forall|i: int| 0 <= i < p.len() implies p[i] != '/' by {}
    lemma_first_index_after(p, '/', w);
    assert forall|i: int| 0 <= i < w.len() implies w[i] != '/' by {}
    lemma_first_index_absent(w, '/');
}

/// The position of the last `-e`/`--halt` flag from argument `i` on, if any.
pub open spec fn last_halt_flag(conf: Seq<Seq<char>>, i: int) -> Option<int>
    decreases conf.len() - i,
{
    if i < 0 || i >= conf.len() {
        None
    } else {
        match last_halt_flag(conf, i + 1) {
            Some(k) => Some(k),
            None => if conf[i] == "-e"@ || conf[i] == "--halt"@ { Some(i) } else { None },
        }
    }
}

/// The position of the last `-J` flag from argument `i` on, if any.
pub open spec fn last_jobs_flag(conf: Seq<Seq<char>>, i: int) -> Option<int>
    decreases conf.len() - i,
{
    if i < 0 || i >= conf.len() {
        None
    } else {
        match last_jobs_flag(conf, i + 1) {
            Some(k) => Some(k),
            None => if conf[i] == "-J"@ { Some(i) } else { None },
        }
    }
}

/// Law: the local settings are those of the last flags. When `init` accepts
/// a command line, its halt mode is the one that the value after the last
/// `-e`/`--halt` names once lowercased (never 0, lazy 1, eager 2), and its
/// worker count is the number after the last `-J`; without such a flag the
/// pool keeps what it had.
pub proof fn law_init_takes_last_flags(p: PoolView, conf: Seq<Seq<char>>, i: int)
    requires
        0 <= i,
    ensures
        init_scan(p, conf, i) matches Ok(q) ==> {
            &&& match last_halt_flag(conf, i) {
                Some(k) => k + 1 < conf.len() && ({
                    let l = lowercase(conf[k + 1]);
                    q.terminal_mode == if l == "never"@ { 0i32 } else if l == "lazy"@ { 1i32 } else { 2i32 }
                        && (l == "never"@ || l == "lazy"@ || l == "eager"@)
                }),
                None => q.terminal_mode == p.terminal_mode,
            }
            &&& match last_jobs_flag(conf, i) {
                Some(k) => k + 1 < conf.len() && parsed_i32(conf[k + 1]) == Some(q.n_workers),
                None => q.n_workers == p.n_workers,
            }
        },
    decreases conf.len() - i,
{
    reveal_strlit("-J");
    reveal_strlit("-e");
    reveal_strlit("--halt");
    reveal_strlit("never");
    reveal_strlit("lazy");
    reveal_strlit("eager");
    assert("-J"@[1] != "-e"@[1]);
    assert("-J"@.len() != "--halt"@.len());
    assert("never"@.len() != "lazy"@.len());
    assert("never"@[0] != "eager"@[0]);
    assert("lazy"@[0] != "eager"@[0]);
    if i < conf.len() {
        if conf[i] == "-J"@ {
            if i + 1 < conf.len() {
                if let Some(n) = parsed_i32(conf[i + 1]) {
                    law_init_takes_last_flags(PoolView { n_workers: n, ..p }, conf, i + 1);
                }
            }
        } else if is_halt_flag(conf[i]) {
            if i + 1 < conf.len() {
                if let Ok(m) = mode_of(conf[i + 1]) {
                    law_init_takes_last_flags(PoolView { terminal_mode: m, ..p }, conf, i + 1);
                }
            }
        } else {
            law_init_takes_last_flags(p, conf, i + 1);
        }
    }
}

/// The first position from `j` on that holds `-r` or `--remote`, or the
/// number of arguments when there is none.
pub open spec fn next_remote_flag(conf: Seq<Seq<char>>, j: int) -> int
    decreases conf.len() - j,
{
    if j < 0 || j >= conf.len() {
        conf.len() as int
    } else if conf[j] == "-r"@ || conf[j] == "--remote"@ {
        j
    } else {
        next_remote_flag(conf, j + 1)
    }
}

/// The position of the last `-e`/`--halt` flag at `j` or after, before `stop`.
pub open spec fn last_halt_before(conf: Seq<Seq<char>>, j: int, stop: int) -> Option<int>
    decreases conf.len() - j,
{
    if j < 0 || j >= conf.len() || j >= stop {
        None
    } else {
        match last_halt_before(conf, j + 1, stop) {
            Some(k) => Some(k),
            None => if conf[j] == "-e"@ || conf[j] == "--halt"@ { Some(j) } else { None },
        }
    }
}

proof fn lemma_flags_differ()
    ensures
        "-e"@ != "-r"@,
        "-e"@ != "--remote"@,
        "--halt"@ != "-r"@,
        "--halt"@ != "--remote"@,
        "never"@.len() != "lazy"@.len(),
        "never"@ != "eager"@,
        "lazy"@ != "eager"@,
{
    reveal_strlit("-e");
    reveal_strlit("-r");
    reveal_strlit("--halt");
    reveal_strlit("--remote");
    reveal_strlit("never");
    reveal_strlit("lazy");
    reveal_strlit("eager");
    assert("-e"@[1] != "-r"@[1]);
    assert("-e"@.len() != "--remote"@.len());
    assert("--halt"@.len() != "-r"@.len());
    assert("--halt"@.len() != "--remote"@.len());
    assert("never"@[0] != "eager"@[0]);
    assert("lazy"@[0] != "eager"@[0]);
}

proof fn lemma_next_remote_flag_bound(conf: Seq<Seq<char>>, j: int)
    requires
        0 <= j,
    ensures
        next_remote_flag(conf, j) >= j || j > conf.len(),
    decreases conf.len() - j,
{
    if j < conf.len() {
        lemma_next_remote_flag_bound(conf, j + 1);
    }
}

proof fn lemma_scan_mode_after_url(p: PoolView, conf: Seq<Seq<char>>, j: int)
    requires
        0 <= j,
    ensures
        remote_scan(p, conf, j, true) matches Ok(q) ==> match last_halt_before(conf, j, next_remote_flag(conf, j)) {
            Some(k) => k + 1 < conf.len() && ({
                let l = lowercase(conf[k + 1]);
                &&& l == "never"@ || l == "lazy"@ || l == "eager"@
                &&& q.terminal_mode == if l == "never"@ { 0i32 } else if l == "lazy"@ { 1i32 } else { 2i32 }
            }),
            None => q.terminal_mode == p.terminal_mode,
        },
    decreases conf.len() - j,
{
    lemma_flags_differ();
    if j < conf.len() {
        if is_remote_flag(conf[j]) {
            assert(next_remote_flag(conf, j) == j);
        } else {
            assert(next_remote_flag(conf, j) == next_remote_flag(conf, j + 1));
            assert(next_remote_flag(conf, j + 1) >= j + 1) by {
                lemma_next_remote_flag_bound(conf, j + 1);
            }
        }
        if is_remote_flag(conf[j]) {
        } else if is_halt_flag(conf[j]) {
            if j + 1 < conf.len() {
                if let Ok(m) = mode_of(conf[j + 1]) {
                    lemma_scan_mode_after_url(PoolView { terminal_mode: m, ..p }, conf, j + 1);
                }
            }
        } else {
            lemma_scan_mode_after_url(p, conf, j + 1);
        }
    }
}

/// Law: a remote pool halts in the mode that the value after the last
/// `-e`/`--halt` between its own `-r` and the next remote flag names once
/// lowercased (never 0, lazy 1, eager 2); without such a flag it keeps the
/// mode it had.
pub proof fn law_remote_pool_takes_its_own_mode(p: PoolView, conf: Seq<Seq<char>>, i: int)
    requires
        0 <= i < conf.len(),
        conf[i] == "-r"@ || conf[i] == "--remote"@,
    ensures
        remote_scan(p, conf, i, false) matches Ok(q) ==> match last_halt_before(conf, i + 1, next_remote_flag(conf, i + 1)) {
            Some(k) => k + 1 < conf.len() && ({
                let l = lowercase(conf[k + 1]);
                &&& l == "never"@ || l == "lazy"@ || l == "eager"@
                &&& q.terminal_mode == if l == "never"@ { 0i32 } else if l == "lazy"@ { 1i32 } else { 2i32 }
            }),
            None => q.terminal_mode == p.terminal_mode,
        },
{
    if i + 1 < conf.len() {
        if let Ok((ip, port, n)) = url_fields(conf[i + 1]) {
            lemma_scan_mode_after_url(
                PoolView { remote_ip: ip, remote_port: port, n_workers: n, ..p },
                conf,
                i + 1,
            );
        }
    }
}

} // verus!
