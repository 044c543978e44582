use vstd::prelude::*;

verus! {

/// Server settings: listening port, worker count, log level and the
/// directory that holds the spec files.
pub struct Config {
    port: u16,
    max_threads: u8,
    log_level: String,
    base_dir: String,
}

impl Config {
    pub closed spec fn spec_port(&self) -> u16 {
        self.port
    }

    pub closed spec fn spec_max_threads(&self) -> u8 {
        self.max_threads
    }

    pub closed spec fn spec_log_level(&self) -> Seq<char> {
        self.log_level@
    }

    pub closed spec fn spec_base_dir(&self) -> Seq<char> {
        self.base_dir@
    }

    pub fn new(port: u16, max_threads: u8, log_level: String, base_dir: String) -> (r: Config)
        ensures
            r.spec_port() == port,
            r.spec_max_threads() == max_threads,
            r.spec_log_level() == log_level@,
            r.spec_base_dir() == base_dir@,
    {
        Config { port, max_threads, log_level, base_dir }
    }

    pub fn port(&self) -> (r: u16)
        ensures
            r == self.spec_port(),
    {
        self.port
    }

    pub fn max_threads(&self) -> (r: u8)
        ensures
            r == self.spec_max_threads(),
    {
        self.max_threads
    }

    pub fn log_level(&self) -> (r: &str)
        ensures
            r@ == self.spec_log_level(),
    {
        self.log_level.as_str()
    }

    pub fn base_dir(&self) -> (r: &str)
        ensures
            r@ == self.spec_base_dir(),
    {
        self.base_dir.as_str()
    }
}

} // verus!
