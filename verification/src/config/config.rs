//! The configuration as a whole: the listening ports and the settings of
//! the process.

use vstd::prelude::*;

use crate::config::error::ConfigError;
use crate::config::proxy::{Server, ServerRaw};
use crate::util::text::{first_failing, lemma_first_failing_extend};

verus! {

/// The configuration of the gateway.
#[derive(Clone, Debug)]
pub struct Config {
    /// The listening ports, each under its number as the file writes it.
    pub server: Vec<(String, Server)>,
    pub log: Option<String>,
    pub version: Option<usize>,
    pub pid_file: Option<String>,
    pub upgrade_sock: Option<String>,
    pub user: Option<String>,
    pub group: Option<String>,
    pub threads: Option<usize>,
    pub work_stealing: Option<bool>,
    pub ca_file: Option<String>,
    pub grace_period_seconds: Option<u64>,
    pub graceful_shutdown_timeout_seconds: Option<u64>,
    pub client_bind_to_ipv4: Option<Vec<String>>,
    pub client_bind_to_ipv6: Option<Vec<String>>,
    pub upstream_connect_offload_threadpools: Option<usize>,
    pub upstream_connect_offload_thread_per_pool: Option<usize>,
}

/// The configuration as the files state it.
pub struct ConfigRaw {
    pub server: Vec<(String, ServerRaw)>,
    pub log: Option<String>,
    pub version: Option<usize>,
    pub pid_file: Option<String>,
    pub upgrade_sock: Option<String>,
    pub user: Option<String>,
    pub group: Option<String>,
    pub threads: Option<usize>,
    pub work_stealing: Option<bool>,
    pub ca_file: Option<String>,
    pub grace_period_seconds: Option<u64>,
    pub graceful_shutdown_timeout_seconds: Option<u64>,
    pub client_bind_to_ipv4: Option<Vec<String>>,
    pub client_bind_to_ipv6: Option<Vec<String>>,
    pub upstream_connect_offload_threadpools: Option<usize>,
    pub upstream_connect_offload_thread_per_pool: Option<usize>,
}

/// The settings of the serving process that the configuration can change.
pub struct ServerSettings {
    pub version: usize,
    pub pid_file: String,
    pub upgrade_sock: String,
    pub user: Option<String>,
    pub group: Option<String>,
    pub threads: usize,
    pub work_stealing: bool,
    pub ca_file: Option<String>,
    pub grace_period_seconds: Option<u64>,
    pub graceful_shutdown_timeout_seconds: Option<u64>,
    pub client_bind_to_ipv4: Vec<String>,
    pub client_bind_to_ipv6: Vec<String>,
    pub upstream_connect_offload_threadpools: Option<usize>,
    pub upstream_connect_offload_thread_per_pool: Option<usize>,
}

/// Whether a listening port is accepted: whether all its sources are.
pub open spec fn server_accepted(entry: (String, ServerRaw)) -> bool {
    exists|server: Server| Server::converts(entry.1, Ok(server))
}

/// A stated value, or else the one already there.
pub open spec fn stated_or<T>(stated: Option<T>, current: T) -> T {
    match stated {
        Some(v) => v,
        None => current,
    }
}

/// A stated value, or else the one already there, which may be none.
pub open spec fn stated_or_kept<T>(stated: Option<T>, current: Option<T>) -> Option<T> {
    match stated {
        Some(v) => Some(v),
        None => current,
    }
}

fn copy_names(list: &Vec<String>) -> (r: Vec<String>)
    ensures
        r@ == list@,
{
    let mut r: Vec<String> = Vec::new();
    let mut i: usize = 0;
    while i < list.len()
        invariant
            i <= list.len(),
            r@ == list@.take(i as int),
        decreases list.len() - i,
    {
        r.push(list[i].clone());
        assert(list@.take(i + 1) =~= list@.take(i as int).push(list@[i as int]));
        i += 1;
    }
    assert(list@.take(list@.len() as int) =~= list@);
    r
}

impl Config {
    /// Whether `r` is what `raw` converts to: the first listening port
    /// with a refused source is reported with that source's error; else
    /// every port is converted, under its number and in the stated order,
    /// and the settings are as stated.
    pub open spec fn converts(raw: ConfigRaw, r: Result<Config, ConfigError>) -> bool {
        match first_failing(raw.server@, |e: (String, ServerRaw)| server_accepted(e)) {
            Some(i) => r matches Err(e) && Server::converts(raw.server@[i].1, Err(e)),
            None => {
                &&& r matches Ok(config)
                &&& config.server@.len() == raw.server@.len()
                &&& forall|i: int|
                    0 <= i < raw.server@.len() ==> (#[trigger] config.server@[i]).0
                        == raw.server@[i].0 && Server::converts(
                        raw.server@[i].1,
                        Ok(config.server@[i].1),
                    )
                &&& config.log == raw.log
                &&& config.version == raw.version
                &&& config.pid_file == raw.pid_file
                &&& config.upgrade_sock == raw.upgrade_sock
                &&& config.user == raw.user
                &&& config.group == raw.group
                &&& config.threads == raw.threads
                &&& config.work_stealing == raw.work_stealing
                &&& config.ca_file == raw.ca_file
                &&& config.grace_period_seconds == raw.grace_period_seconds
                &&& config.graceful_shutdown_timeout_seconds
                    == raw.graceful_shutdown_timeout_seconds
                &&& config.client_bind_to_ipv4 == raw.client_bind_to_ipv4
                &&& config.client_bind_to_ipv6 == raw.client_bind_to_ipv6
                &&& config.upstream_connect_offload_threadpools
                    == raw.upstream_connect_offload_threadpools
                &&& config.upstream_connect_offload_thread_per_pool
                    == raw.upstream_connect_offload_thread_per_pool
            },
        }
    }

    /// Converts the configuration.
    pub fn from_raw(raw: ConfigRaw) -> (r: Result<Self, ConfigError>)
        ensures
            Config::converts(raw, r),
    {
        let ghost stated = raw.server@;
        let ghost ok = |e: (String, ServerRaw)| server_accepted(e);
        let mut server: Vec<(String, Server)> = Vec::new();
        assert(stated.take(0) =~= Seq::empty());
        for entry in it: raw.server
            invariant
                it.seq() == stated,
                ok == |e: (String, ServerRaw)| server_accepted(e),
                first_failing(stated.take(it.index() as int), ok) is None,
                server@.len() == it.index(),
                forall|i: int|
                    0 <= i < it.index() ==> (#[trigger] server@[i]).0 == stated[i].0
                        && Server::converts(stated[i].1, Ok(server@[i].1)),
        {
            let ghost i = it.index() as int;
            assert(stated.take(i + 1).drop_last() =~= stated.take(i));
            assert(stated.take(i + 1).last() == stated[i]);
            assert(entry == stated[i]);
            let (port, stated_server) = entry;
            match Server::from_raw(stated_server) {
                Ok(converted) => {
                    assert(ok(stated[i]));
                    server.push((port, converted));
                },
                Err(e) => {
                    proof {
                        assert(!ok(stated[i]));
                        lemma_first_failing_extend(stated, ok, i + 1);
                    }
                    return Err(e);
                },
            }
        }
        assert(stated.take(stated.len() as int) =~= stated);
        Ok(
            Self {
                server,
                pid_file: raw.pid_file,
                log: raw.log,
                version: raw.version,
                upgrade_sock: raw.upgrade_sock,
                user: raw.user,
                group: raw.group,
                threads: raw.threads,
                work_stealing: raw.work_stealing,
                ca_file: raw.ca_file,
                grace_period_seconds: raw.grace_period_seconds,
                graceful_shutdown_timeout_seconds: raw.graceful_shutdown_timeout_seconds,
                client_bind_to_ipv4: raw.client_bind_to_ipv4,
                client_bind_to_ipv6: raw.client_bind_to_ipv6,
                upstream_connect_offload_threadpools: raw.upstream_connect_offload_threadpools,
                upstream_connect_offload_thread_per_pool: raw.upstream_connect_offload_thread_per_pool,
            },
        )
    }

    /// Writes the stated settings over those of the serving process; a
    /// setting that the configuration does not state stays as it is.
    pub fn merge_into_pingora_config(&self, base_config: &mut ServerSettings)
        ensures
            final(base_config).version == stated_or(self.version, old(base_config).version),
            final(base_config).pid_file == stated_or(self.pid_file, old(base_config).pid_file),
            final(base_config).upgrade_sock == stated_or(
                self.upgrade_sock,
                old(base_config).upgrade_sock,
            ),
            final(base_config).user == stated_or_kept(self.user, old(base_config).user),
            final(base_config).group == stated_or_kept(self.group, old(base_config).group),
            final(base_config).threads == stated_or(self.threads, old(base_config).threads),
            final(base_config).work_stealing == stated_or(
                self.work_stealing,
                old(base_config).work_stealing,
            ),
            final(base_config).ca_file == stated_or_kept(self.ca_file, old(base_config).ca_file),
            final(base_config).grace_period_seconds == stated_or_kept(
                self.grace_period_seconds,
                old(base_config).grace_period_seconds,
            ),
            final(base_config).graceful_shutdown_timeout_seconds == stated_or_kept(
                self.graceful_shutdown_timeout_seconds,
                old(base_config).graceful_shutdown_timeout_seconds,
            ),
            final(base_config).client_bind_to_ipv4@ == match self.client_bind_to_ipv4 {
                Some(list) => list@,
                None => old(base_config).client_bind_to_ipv4@,
            },
            final(base_config).client_bind_to_ipv6@ == match self.client_bind_to_ipv6 {
                Some(list) => list@,
                None => old(base_config).client_bind_to_ipv6@,
            },
            final(base_config).upstream_connect_offload_threadpools == stated_or_kept(
                self.upstream_connect_offload_threadpools,
                old(base_config).upstream_connect_offload_threadpools,
            ),
            final(base_config).upstream_connect_offload_thread_per_pool == stated_or_kept(
                self.upstream_connect_offload_thread_per_pool,
                old(base_config).upstream_connect_offload_thread_per_pool,
            ),
    {
        self.merge_process(base_config);
        self.merge_threads(base_config);
        self.merge_network(base_config);
    }

    /// Writes the stated version, files, user and group.
    fn merge_process(&self, base_config: &mut ServerSettings)
        ensures
            final(base_config).version == stated_or(self.version, old(base_config).version),
            final(base_config).pid_file == stated_or(self.pid_file, old(base_config).pid_file),
            final(base_config).upgrade_sock == stated_or(
                self.upgrade_sock,
                old(base_config).upgrade_sock,
            ),
            final(base_config).user == stated_or_kept(self.user, old(base_config).user),
            final(base_config).group == stated_or_kept(self.group, old(base_config).group),
            final(base_config).ca_file == stated_or_kept(self.ca_file, old(base_config).ca_file),
            final(base_config).threads == old(base_config).threads,
            final(base_config).work_stealing == old(base_config).work_stealing,
            final(base_config).grace_period_seconds == old(base_config).grace_period_seconds,
            final(base_config).graceful_shutdown_timeout_seconds == old(
                base_config,
            ).graceful_shutdown_timeout_seconds,
            final(base_config).client_bind_to_ipv4 == old(base_config).client_bind_to_ipv4,
            final(base_config).client_bind_to_ipv6 == old(base_config).client_bind_to_ipv6,
            final(base_config).upstream_connect_offload_threadpools == old(
                base_config,
            ).upstream_connect_offload_threadpools,
            final(base_config).upstream_connect_offload_thread_per_pool == old(
                base_config,
            ).upstream_connect_offload_thread_per_pool,
    {
        if let Some(version) = self.version {
            base_config.version = version;
        }
        if let Some(pid_file) = &self.pid_file {
            base_config.pid_file = pid_file.clone();
        }
        if let Some(upgrade_sock) = &self.upgrade_sock {
            base_config.upgrade_sock = upgrade_sock.clone();
        }
        if let Some(user) = &self.user {
            base_config.user = Some(user.clone());
        }
        if let Some(group) = &self.group {
            base_config.group = Some(group.clone());
        }
        if let Some(ca_file) = &self.ca_file {
            base_config.ca_file = Some(ca_file.clone());
        }
    }

    /// Writes the stated thread and shutdown settings.
    fn merge_threads(&self, base_config: &mut ServerSettings)
        ensures
            final(base_config).threads == stated_or(self.threads, old(base_config).threads),
            final(base_config).work_stealing == stated_or(
                self.work_stealing,
                old(base_config).work_stealing,
            ),
            final(base_config).grace_period_seconds == stated_or_kept(
                self.grace_period_seconds,
                old(base_config).grace_period_seconds,
            ),
            final(base_config).graceful_shutdown_timeout_seconds == stated_or_kept(
                self.graceful_shutdown_timeout_seconds,
                old(base_config).graceful_shutdown_timeout_seconds,
            ),
            final(base_config).upstream_connect_offload_threadpools == stated_or_kept(
                self.upstream_connect_offload_threadpools,
                old(base_config).upstream_connect_offload_threadpools,
            ),
            final(base_config).upstream_connect_offload_thread_per_pool == stated_or_kept(
                self.upstream_connect_offload_thread_per_pool,
                old(base_config).upstream_connect_offload_thread_per_pool,
            ),
            final(base_config).version == old(base_config).version,
            final(base_config).pid_file == old(base_config).pid_file,
            final(base_config).upgrade_sock == old(base_config).upgrade_sock,
            final(base_config).user == old(base_config).user,
            final(base_config).group == old(base_config).group,
            final(base_config).ca_file == old(base_config).ca_file,
            final(base_config).client_bind_to_ipv4 == old(base_config).client_bind_to_ipv4,
            final(base_config).client_bind_to_ipv6 == old(base_config).client_bind_to_ipv6,
    {
        if let Some(threads) = self.threads {
            base_config.threads = threads;
        }
        if let Some(work_stealing) = self.work_stealing {
            base_config.work_stealing = work_stealing;
        }
        if let Some(seconds) = self.grace_period_seconds {
            base_config.grace_period_seconds = Some(seconds);
        }
        if let Some(seconds) = self.graceful_shutdown_timeout_seconds {
            base_config.graceful_shutdown_timeout_seconds = Some(seconds);
        }
        if let Some(pools) = self.upstream_connect_offload_threadpools {
            base_config.upstream_connect_offload_threadpools = Some(pools);
        }
        if let Some(threads) = self.upstream_connect_offload_thread_per_pool {
            base_config.upstream_connect_offload_thread_per_pool = Some(threads);
        }
    }

    /// Writes the stated addresses to bind to.
    fn merge_network(&self, base_config: &mut ServerSettings)
        ensures
            final(base_config).client_bind_to_ipv4@ == match self.client_bind_to_ipv4 {
                Some(list) => list@,
                None => old(base_config).client_bind_to_ipv4@,
            },
            final(base_config).client_bind_to_ipv6@ == match self.client_bind_to_ipv6 {
                Some(list) => list@,
                None => old(base_config).client_bind_to_ipv6@,
            },
            final(base_config).version == old(base_config).version,
            final(base_config).pid_file == old(base_config).pid_file,
            final(base_config).upgrade_sock == old(base_config).upgrade_sock,
            final(base_config).user == old(base_config).user,
            final(base_config).group == old(base_config).group,
            final(base_config).ca_file == old(base_config).ca_file,
            final(base_config).threads == old(base_config).threads,
            final(base_config).work_stealing == old(base_config).work_stealing,
            final(base_config).grace_period_seconds == old(base_config).grace_period_seconds,
            final(base_config).graceful_shutdown_timeout_seconds == old(
                base_config,
            ).graceful_shutdown_timeout_seconds,
            final(base_config).upstream_connect_offload_threadpools == old(
                base_config,
            ).upstream_connect_offload_threadpools,
            final(base_config).upstream_connect_offload_thread_per_pool == old(
                base_config,
            ).upstream_connect_offload_thread_per_pool,
    {
        if let Some(list) = &self.client_bind_to_ipv4 {
            base_config.client_bind_to_ipv4 = copy_names(list);
        }
        if let Some(list) = &self.client_bind_to_ipv6 {
            base_config.client_bind_to_ipv6 = copy_names(list);
        }
    }
}

} // verus!
