use pars::pool::{init_pools, mode_from_word, ArgError, Pool};

fn args(v: &[&str]) -> Vec<String> {
    v.iter().map(|s| s.to_string()).collect()
}

#[test]
fn one_pool_per_remote_flag() {
    let conf = args(&["pars", "-r", "localhost:12346/2", "-e", "lazy", "-r", "host:1/3", "-e", "EAGER"]);
    let pools = init_pools(&conf).unwrap();
    assert_eq!(pools.len(), 2);
    assert_eq!(pools[0].get_remote_ip(), "127.0.0.1");
    assert_eq!(pools[0].get_remote_port(), 12346);
    assert_eq!(pools[0].get_workers(), 2);
    assert_eq!(pools[0].get_mode(), 1);
    assert_eq!(pools[1].get_remote_ip(), "host");
    assert_eq!(pools[1].get_remote_port(), 1);
    assert_eq!(pools[1].get_workers(), 3);
    assert_eq!(pools[1].get_mode(), 2);
}

#[test]
fn no_remote_flag_no_pool() {
    let conf = args(&["pars", "-J", "2"]);
    assert_eq!(init_pools(&conf).unwrap().len(), 0);
}

#[test]
fn long_remote_flag_does_not_start_a_pool() {
    let conf = args(&["pars", "--remote", "a:1/1", "-r", "b:2/2"]);
    let pools = init_pools(&conf).unwrap();
    assert_eq!(pools.len(), 1);
    assert_eq!(pools[0].get_remote_ip(), "b");
}

#[test]
fn remote_init_stops_at_the_next_remote_flag() {
    let conf = args(&["-r", "a:10/4", "-e", "eager", "--remote", "b:20/5", "-e", "never"]);
    let mut p = Pool::new();
    assert_eq!(p.remote_init(0, &conf), Ok(()));
    assert_eq!(p.get_remote_ip(), "a");
    assert_eq!(p.get_remote_port(), 10);
    assert_eq!(p.get_workers(), 4);
    assert_eq!(p.get_mode(), 2);
}

#[test]
fn remote_init_from_a_later_index() {
    let conf = args(&["-r", "a:10/4", "-e", "eager", "--remote", "b:20/5", "-e", "never"]);
    let mut p = Pool::new();
    assert_eq!(p.remote_init(4, &conf), Ok(()));
    assert_eq!(p.get_remote_ip(), "b");
    assert_eq!(p.get_remote_port(), 20);
    assert_eq!(p.get_workers(), 5);
    assert_eq!(p.get_mode(), 0);
}

#[test]
fn new_pool_is_empty() {
    let p = Pool::new();
    assert_eq!(p.get_remote_ip(), "");
    assert_eq!(p.get_remote_port(), 0);
    assert_eq!(p.get_workers(), 0);
    assert_eq!(p.get_mode(), 0);
}

#[test]
fn a_flag_standing_last_is_refused() {
    assert_eq!(init_pools(&args(&["pars", "-r"])).err(), Some(ArgError::MissingValue));
    assert_eq!(init_pools(&args(&["pars", "-r", "a:1/1", "-e"])).err(), Some(ArgError::MissingValue));
    let mut p = Pool::new();
    assert_eq!(p.init(&args(&["-J"])), Err(ArgError::MissingValue));
}

#[test]
fn a_second_remote_flag_standing_last_is_refused() {
    let conf = args(&["-r", "a:1/1", "-r"]);
    let mut p = Pool::new();
    assert_eq!(p.remote_init(0, &conf), Err(ArgError::MissingValue));
}

#[test]
fn unknown_mode_is_refused() {
    let conf = args(&["pars", "-r", "a:1/1", "-e", "sometimes"]);
    assert_eq!(init_pools(&conf).err(), Some(ArgError::BadMode));
}

#[test]
fn malformed_urls_are_refused() {
    assert_eq!(init_pools(&args(&["-r", "nohost"])).err(), Some(ArgError::NoPort));
    assert_eq!(init_pools(&args(&["-r", "h:x/2"])).err(), Some(ArgError::BadPort));
    assert_eq!(init_pools(&args(&["-r", "h:70000/2"])).err(), Some(ArgError::BadPort));
    assert_eq!(init_pools(&args(&["-r", "h:1"])).err(), Some(ArgError::NoWorkerCount));
    assert_eq!(init_pools(&args(&["-r", "h:1/x"])).err(), Some(ArgError::BadWorkerCount));
    assert_eq!(init_pools(&args(&["-r", "h:12:5/3"])).err(), Some(ArgError::NoWorkerCount));
}

#[test]
fn url_parts_after_the_second_delimiter_are_ignored() {
    let conf = args(&["-r", "h:7/3/9:z"]);
    let pools = init_pools(&conf).unwrap();
    assert_eq!(pools[0].get_remote_port(), 7);
    assert_eq!(pools[0].get_workers(), 3);
}

#[test]
fn refused_remote_init_leaves_the_pool_alone() {
    let conf = args(&["-e", "lazy", "-r", "h:1"]);
    let mut p = Pool::new();
    assert_eq!(p.remote_init(0, &conf), Err(ArgError::NoWorkerCount));
    assert_eq!(p.get_mode(), 0);
    assert_eq!(p.get_remote_ip(), "");
}

#[test]
fn init_reads_jobs_and_mode() {
    let conf = args(&["-J", "4", "-e", "Never", "--halt", "lAzY"]);
    let mut p = Pool::new();
    assert_eq!(p.init(&conf), Ok(()));
    assert_eq!(p.get_workers(), 4);
    assert_eq!(p.get_mode(), 1);
}

#[test]
fn init_on_a_slice_of_the_command_line() {
    let conf = args(&["pars", "-J", "3", "-e", "eager"]);
    let mut p = Pool::new();
    assert_eq!(p.init(&conf[1..]), Ok(()));
    assert_eq!(p.get_workers(), 3);
    assert_eq!(p.get_mode(), 2);
}

#[test]
fn init_refuses_a_bad_job_count() {
    let mut p = Pool::new();
    assert_eq!(p.init(&args(&["-J", "many"])), Err(ArgError::BadJobCount));
    assert_eq!(p.get_workers(), 0);
}

#[test]
fn mode_is_always_valid() {
    for m in ["never", "LAZY", "Eager"] {
        let mut p = Pool::new();
        assert_eq!(p.init(&args(&["-e", m])), Ok(()));
        assert!((0..=2).contains(&p.get_mode()));
    }
}

#[test]
fn each_remote_pool_takes_the_modes_after_it() {
    let conf = args(&[
        "pars", "-r", "localhost:12346/2", "-e", "lazy", "-r", "localhost:12367/3", "-e", "never", "-r",
        "localhost:12300/2", "-e", "eager",
    ]);
    let pools = init_pools(&conf).unwrap();
    assert_eq!(pools.len(), 3);
    let got: Vec<(String, u16, i32, i32)> = pools
        .iter()
        .map(|p| (p.get_remote_ip().to_string(), p.get_remote_port(), p.get_workers(), p.get_mode()))
        .collect();
    assert_eq!(
        got,
        vec![
            ("127.0.0.1".to_string(), 12346, 2, 1),
            ("127.0.0.1".to_string(), 12367, 3, 0),
            ("127.0.0.1".to_string(), 12300, 2, 2),
        ]
    );
}

#[test]
fn mode_from_word_names_the_three_modes() {
    assert_eq!(mode_from_word("never"), Ok(0));
    assert_eq!(mode_from_word("lazy"), Ok(1));
    assert_eq!(mode_from_word("eager"), Ok(2));
    assert_eq!(mode_from_word("Lazy"), Err(ArgError::BadMode));
    assert_eq!(mode_from_word(""), Err(ArgError::BadMode));
}

#[test]
fn remote_init_idempotent() {
    let conf = args(&["-r", "localhost:9/2", "-e", "eager"]);
    let mut p = Pool::new();
    assert_eq!(p.remote_init(0, &conf), Ok(()));
    let once = (p.get_remote_ip().to_string(), p.get_remote_port(), p.get_workers(), p.get_mode());
    assert_eq!(p.remote_init(0, &conf), Ok(()));
    let twice = (p.get_remote_ip().to_string(), p.get_remote_port(), p.get_workers(), p.get_mode());
    assert_eq!(once, twice);
}

#[test]
fn init_idempotent() {
    let conf = args(&["-J", "5", "-e", "lazy"]);
    let mut p = Pool::new();
    assert_eq!(p.init(&conf), Ok(()));
    assert_eq!(p.init(&conf), Ok(()));
    assert_eq!((p.get_workers(), p.get_mode()), (5, 1));
}

#[test]
fn each_pool_is_remote_init_at_its_flag() {
    let conf = args(&["pars", "-r", "a:1/2", "-e", "lazy", "-r", "b:3/4"]);
    let pools = init_pools(&conf).unwrap();
    for (k, at) in [1usize, 5].iter().enumerate() {
        let mut p = Pool::new();
        assert_eq!(p.remote_init(*at, &conf), Ok(()));
        assert_eq!(p.get_remote_ip(), pools[k].get_remote_ip());
        assert_eq!(p.get_remote_port(), pools[k].get_remote_port());
        assert_eq!(p.get_workers(), pools[k].get_workers());
        assert_eq!(p.get_mode(), pools[k].get_mode());
    }
}
