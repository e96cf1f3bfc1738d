//! The overlay-tunnel supervisor: the state of the tunnel daemon, the
//! decisions taken on what it prints and on how bring-up progresses, and the
//! fixed command lines used to drive it.
use vstd::prelude::*;
use vstd::string::*;
use crate::address::{
    address_from_log_line, is_fatal_error_line, is_fatal_view, is_usable_address, is_usable_view,
    is_valid_ip, is_valid_ip_view, lower_of, opt_view, reported_address,
};
use crate::error::AppError;

verus! {

/// State of the tunnel as the supervisor sees it.
#[derive(Debug, Clone)]
pub enum ConnectionStatus {
    /// Up, with the overlay address the daemon was assigned.
    Connected(String),
    Disconnected,
    Connecting,
    /// Bring-up failed, with the reason.
    Error(String),
}

impl PartialEq for ConnectionStatus {
    fn eq(&self, other: &ConnectionStatus) -> (r: bool) {
        match self {
            ConnectionStatus::Connected(a) => match other {
                ConnectionStatus::Connected(b) => a.eq(b),
                _ => false,
            },
            ConnectionStatus::Disconnected => matches!(other, ConnectionStatus::Disconnected),
            ConnectionStatus::Connecting => matches!(other, ConnectionStatus::Connecting),
            ConnectionStatus::Error(a) => match other {
                ConnectionStatus::Error(b) => a.eq(b),
                _ => false,
            },
        }
    }
}

impl vstd::std_specs::cmp::PartialEqSpecImpl for ConnectionStatus {
    open spec fn obeys_eq_spec() -> bool {
        true
    }

    open spec fn eq_spec(&self, other: &ConnectionStatus) -> bool {
        self.view() == other.view()
    }
}

/// `ConnectionStatus` with its texts as character sequences.
pub enum StatusView {
    Connected(Seq<char>),
    Disconnected,
    Connecting,
    Error(Seq<char>),
}

impl View for ConnectionStatus {
    type V = StatusView;

    open spec fn view(&self) -> StatusView {
        match self {
            ConnectionStatus::Connected(a) => StatusView::Connected(a@),
            ConnectionStatus::Disconnected => StatusView::Disconnected,
            ConnectionStatus::Connecting => StatusView::Connecting,
            ConnectionStatus::Error(m) => StatusView::Error(m@),
        }
    }
}

impl ConnectionStatus {
    /// A copy of the status.
    pub fn duplicate(&self) -> (r: ConnectionStatus)
        ensures
            r@ == self@,
    {
        match self {
            ConnectionStatus::Connected(a) => ConnectionStatus::Connected(a.clone()),
            ConnectionStatus::Disconnected => ConnectionStatus::Disconnected,
            ConnectionStatus::Connecting => ConnectionStatus::Connecting,
            ConnectionStatus::Error(m) => ConnectionStatus::Error(m.clone()),
        }
    }
}

/// Where the daemon binary lives and where configuration goes.
#[derive(Debug, Clone)]
pub struct NetworkConfig {
    pub easytier_path: String,
    pub config_dir: String,
}

impl Default for NetworkConfig {
    fn default() -> (r: NetworkConfig)
        ensures
            r.easytier_path@ == "easytier-core.exe"@,
            r.config_dir@ == "./config"@,
    {
        NetworkConfig {
            easytier_path: String::from_str("easytier-core.exe"),
            config_dir: String::from_str("./config"),
        }
    }
}

/// How long bring-up may wait for an address, in milliseconds.
pub const START_TIMEOUT_MS: u64 = 30000;

/// Pause between two queries of the companion CLI, in milliseconds.
pub const CLI_QUERY_INTERVAL_MS: u64 = 3000;

/// How many times the companion CLI is queried during one bring-up.
pub const CLI_QUERY_ATTEMPTS: u32 = 10;

/// What the bring-up loop does next.
#[derive(Debug)]
pub enum StartStep {
    /// Nothing decided yet: sleep briefly and poll again.
    Wait,
    /// Ask the companion CLI for the node's address.
    QueryCli,
    /// The tunnel is up with this address.
    Connected(String),
    /// Bring-up failed: the daemon is torn down, then the error reported.
    Failed(AppError),
}

/// The kinds of bring-up step.
pub enum StepKind {
    Wait,
    QueryCli,
    Connected,
    Fail,
}

pub open spec fn step_kind(r: StartStep) -> StepKind {
    match r {
        StartStep::Wait => StepKind::Wait,
        StartStep::QueryCli => StepKind::QueryCli,
        StartStep::Connected(_) => StepKind::Connected,
        StartStep::Failed(_) => StepKind::Fail,
    }
}

/// One poll of bring-up, in order: past the deadline, or in `Error`, fail;
/// with an address, succeed; when a query of the companion CLI is due, make
/// it; when the daemon no longer runs, fail; otherwise wait. Every failure
/// is followed by a teardown.
pub open spec fn start_decision(
    status: StatusView,
    ip: Option<Seq<char>>,
    running: bool,
    elapsed_ms: u64,
    since_query_ms: u64,
    queries: u32,
) -> StepKind {
    if elapsed_ms > START_TIMEOUT_MS || status is Error {
        StepKind::Fail
    } else if ip is Some {
        StepKind::Connected
    } else if since_query_ms > CLI_QUERY_INTERVAL_MS && queries < CLI_QUERY_ATTEMPTS {
        StepKind::QueryCli
    } else if !running {
        StepKind::Fail
    } else {
        StepKind::Wait
    }
}

/// The supervisor of the tunnel daemon: its status, the address it was
/// assigned, whether the daemon runs, and the instance it runs as.
pub struct NetworkService {
    config: NetworkConfig,
    status: ConnectionStatus,
    virtual_ip: Option<String>,
    running: bool,
    instance_name: Option<String>,
}

impl NetworkService {
    pub closed spec fn config_of(&self) -> NetworkConfig {
        self.config
    }

    /// The configuration the supervisor was made with.
    pub fn config(&self) -> (r: &NetworkConfig)
        ensures
            *r == self.config_of(),
    {
        &self.config
    }

    pub closed spec fn status_view(&self) -> StatusView {
        self.status@
    }

    pub closed spec fn ip_view(&self) -> Option<Seq<char>> {
        opt_view(self.virtual_ip)
    }

    pub closed spec fn running_view(&self) -> bool {
        self.running
    }

    pub closed spec fn instance_view(&self) -> Option<Seq<char>> {
        opt_view(self.instance_name)
    }

    /// A supervisor with nothing running.
    pub fn new(config: NetworkConfig) -> (r: NetworkService)
        ensures
            r.status_view() == StatusView::Disconnected,
            r.ip_view() is None,
            !r.running_view(),
            r.instance_view() is None,
            r.config_of() == config,
    {
        NetworkService {
            config,
            status: ConnectionStatus::Disconnected,
            virtual_ip: None,
            running: false,
            instance_name: None,
        }
    }

    /// A supervisor with the default configuration and nothing running.
    pub fn new_with_defaults() -> (r: NetworkService)
        ensures
            r.status_view() == StatusView::Disconnected,
            r.ip_view() is None,
            !r.running_view(),
            r.instance_view() is None,
            r.config_of().easytier_path@ == "easytier-core.exe"@,
            r.config_of().config_dir@ == "./config"@,
    {
        NetworkService::new(NetworkConfig::default())
    }

    /// The current status.
    pub fn check_connection(&self) -> (r: ConnectionStatus)
        ensures
            r@ == self.status_view(),
    {
        self.status.duplicate()
    }

    /// The assigned overlay address, if one is known.
    pub fn get_virtual_ip(&self) -> (r: Option<String>)
        ensures
            opt_view(r) == self.ip_view(),
    {
        match &self.virtual_ip {
            Some(ip) => Some(ip.clone()),
            None => None,
        }
    }

    pub fn is_running(&self) -> (r: bool)
        ensures
            r == self.running_view(),
    {
        self.running
    }

    /// The instance the daemon runs as, if it was started.
    pub fn instance_name(&self) -> (r: Option<String>)
        ensures
            opt_view(r) == self.instance_view(),
    {
        match &self.instance_name {
            Some(n) => Some(n.clone()),
            None => None,
        }
    }

    /// Admits one bring-up at a time: fails while the daemon runs, otherwise
    /// moves to `Connecting`.
    pub fn begin_start(&mut self) -> (r: Result<(), AppError>)
        ensures
            old(self).running_view() ==> r is Err && r->Err_0 is NetworkError && *final(self)
                == *old(self),
            !old(self).running_view() ==> r is Ok && final(self).status_view()
                == StatusView::Connecting && final(self).ip_view() == old(self).ip_view()
                && !final(self).running_view() && final(self).instance_view()
                == old(self).instance_view(),
            final(self).config_of() == old(self).config_of(),
    {
        if self.running {
            return Err(AppError::NetworkError(String::from_str("EasyTier 服务已在运行")));
        }
        self.status = ConnectionStatus::Connecting;
        Ok(())
    }

    /// Records that the daemon was spawned as instance `instance`.
    pub fn mark_spawned(&mut self, instance: String)
        ensures
            final(self).running_view(),
            final(self).instance_view() == Some(instance@),
            final(self).status_view() == old(self).status_view(),
            final(self).ip_view() == old(self).ip_view(),
            final(self).config_of() == old(self).config_of(),
    {
        self.running = true;
        self.instance_name = Some(instance);
    }

    /// Feeds one line of the daemon's standard output: while no address is
    /// held, a line that reports one makes it the overlay address and the
    /// tunnel `Connected`; the first accepted address stays.
    pub fn on_stdout_line(&mut self, line: &str) -> (r: Option<String>)
        ensures
            opt_view(r) == (if old(self).ip_view() is None {
                reported_address(line@, lower_of(line@))
            } else {
                None
            }),
            old(self).ip_view() is Some ==> *final(self) == *old(self),
            r matches Some(ip) ==> final(self).ip_view() == Some(ip@) && final(self).status_view()
                == StatusView::Connected(ip@),
            r is None ==> final(self).ip_view() == old(self).ip_view() && final(self).status_view()
                == old(self).status_view(),
            final(self).running_view() == old(self).running_view(),
            final(self).instance_view() == old(self).instance_view(),
            final(self).config_of() == old(self).config_of(),
    {
        if self.virtual_ip.is_some() {
            return None;
        }
        let found = address_from_log_line(line);
        match found {
            Some(ip) => {
                self.virtual_ip = Some(ip.clone());
                self.status = ConnectionStatus::Connected(ip.clone());
                Some(ip)
            },
            None => None,
        }
    }

    /// Feeds one line of the daemon's error stream: a fatal adapter failure
    /// stops the run and puts the tunnel in `Error`.
    pub fn on_stderr_line(&mut self, line: &str) -> (r: bool)
        ensures
            r == is_fatal_view(line@),
            r ==> !final(self).running_view() && final(self).status_view() is Error,
            !r ==> *final(self) == *old(self),
            final(self).ip_view() == old(self).ip_view(),
            final(self).instance_view() == old(self).instance_view(),
            final(self).config_of() == old(self).config_of(),
    {
        if is_fatal_error_line(line) {
            self.running = false;
            self.status = ConnectionStatus::Error(
                String::from_str("虚拟网卡创建失败：请确保已安装 WinTun 驱动并以管理员权限运行"),
            );
            true
        } else {
            false
        }
    }

    /// The daemon exited on its own: nothing runs and no address is held.
    pub fn on_process_exit(&mut self)
        ensures
            !final(self).running_view(),
            final(self).status_view() == StatusView::Disconnected,
            final(self).ip_view() is None,
            final(self).instance_view() == old(self).instance_view(),
            final(self).config_of() == old(self).config_of(),
    {
        self.running = false;
        self.status = ConnectionStatus::Disconnected;
        self.virtual_ip = None;
    }

    /// Watching the daemon failed: the run counts as ended, in `Error`.
    pub fn on_monitor_failure(&mut self, reason: String)
        ensures
            !final(self).running_view(),
            final(self).status_view() == StatusView::Error(reason@),
            final(self).ip_view() == old(self).ip_view(),
            final(self).instance_view() == old(self).instance_view(),
            final(self).config_of() == old(self).config_of(),
    {
        self.running = false;
        self.status = ConnectionStatus::Error(reason);
    }

    /// The companion CLI reported `ip`: while no address is held, a usable
    /// one becomes the overlay address and the tunnel is `Connected`.
    pub fn on_cli_address(&mut self, ip: String) -> (r: bool)
        ensures
            r == (old(self).ip_view() is None && is_usable_view(ip@)),
            r ==> final(self).ip_view() == Some(ip@) && final(self).status_view()
                == StatusView::Connected(ip@),
            !r ==> *final(self) == *old(self),
            final(self).running_view() == old(self).running_view(),
            final(self).instance_view() == old(self).instance_view(),
            final(self).config_of() == old(self).config_of(),
    {
        if self.virtual_ip.is_some() || !is_usable_address(ip.as_str()) {
            return false;
        }
        self.virtual_ip = Some(ip.clone());
        self.status = ConnectionStatus::Connected(ip);
        true
    }

    /// One poll of bring-up, `elapsed_ms` after it began, `since_query_ms`
    /// after the last CLI query, with `queries` queries made so far: the
    /// step `start_decision` names. On success the tunnel is `Connected`.
    pub fn poll_start(&mut self, elapsed_ms: u64, since_query_ms: u64, queries: u32) -> (r:
        StartStep)
        ensures
            step_kind(r) == start_decision(
                old(self).status_view(),
                old(self).ip_view(),
                old(self).running_view(),
                elapsed_ms,
                since_query_ms,
                queries,
            ),
            r matches StartStep::Failed(error) ==> error is NetworkError,
            old(self).status_view() is Error && elapsed_ms <= START_TIMEOUT_MS ==> r->Failed_0.detail()
                == old(self).status_view()->Error_0,
            r matches StartStep::Connected(ip) ==> Some(ip@) == old(self).ip_view()
                && final(self).status_view() == StatusView::Connected(ip@),
            !(r is Connected) ==> *final(self) == *old(self),
            final(self).ip_view() == old(self).ip_view(),
            final(self).running_view() == old(self).running_view(),
            final(self).instance_view() == old(self).instance_view(),
            final(self).config_of() == old(self).config_of(),
    {
        if elapsed_ms > START_TIMEOUT_MS {
            return StartStep::Failed(
                AppError::NetworkError(
                    String::from_str("获取虚拟 IP 超时：请检查网络连接和 EasyTier 服务状态"),
                ),
            );
        }
        if let ConnectionStatus::Error(m) = &self.status {
            return StartStep::Failed(AppError::NetworkError(m.clone()));
        }
        if let Some(ip) = &self.virtual_ip {
            let ip = ip.clone();
            self.status = ConnectionStatus::Connected(ip.clone());
            return StartStep::Connected(ip);
        }
        if since_query_ms > CLI_QUERY_INTERVAL_MS && queries < CLI_QUERY_ATTEMPTS {
            return StartStep::QueryCli;
        }
        if !self.running {
            return StartStep::Failed(AppError::NetworkError(String::from_str("EasyTier 进程意外终止")));
        }
        StartStep::Wait
    }

    /// Ends a run, whatever state it was in: the tunnel is `Disconnected`,
    /// nothing runs, no address is held. Returns the instance that was
    /// running, which the caller deregisters and whose directory it removes.
    pub fn finish_stop(&mut self) -> (r: Option<String>)
        ensures
            opt_view(r) == old(self).instance_view(),
            final(self).status_view() == StatusView::Disconnected,
            !final(self).running_view(),
            final(self).ip_view() is None,
            final(self).instance_view() is None,
            final(self).config_of() == old(self).config_of(),
    {
        self.running = false;
        self.status = ConnectionStatus::Disconnected;
        self.virtual_ip = None;
        let inst = self.instance_name.take();
        inst
    }
}

/// Index of the first `/` at or after `i`, or the length.
pub open spec fn slash_at(s: Seq<char>, i: int) -> int
    decreases s.len() - i,
{
    if 0 <= i < s.len() && s[i] != '/' {
        slash_at(s, i + 1)
    } else {
        i
    }
}

/// The address part of an address that may carry a `/len` suffix.
pub open spec fn without_prefix_len(s: Seq<char>) -> Seq<char> {
    s.take(slash_at(s, 0))
}

/// Cuts a `/len` suffix off an address.
pub fn strip_prefix_len(s: &str) -> (r: &str)
    ensures
        r@ == without_prefix_len(s@),
{
    let n = s.unicode_len();
    let mut i: usize = 0;
    while i < n && s.get_char(i) != '/'
        invariant
            n == s@.len(),
            0 <= i <= n,
            slash_at(s@, 0) == slash_at(s@, i as int),
        decreases n - i,
    {
        i = i + 1;
    }
    let r = s.substring_char(0, i);
    assert(r@ =~= s@.take(i as int));
    r
}

/// The first reported value that, without its `/len` suffix, is a usable
/// overlay address (private, not loopback, naming a host).
pub open spec fn first_host(vals: Seq<Seq<char>>) -> Option<Seq<char>>
    decreases vals.len(),
{
    if vals.len() == 0 {
        None
    } else if is_usable_view(without_prefix_len(vals[0])) {
        Some(without_prefix_len(vals[0]))
    } else {
        first_host(vals.drop_first())
    }
}

/// Picks the node's own address from the values the companion CLI reported
/// under the address-bearing fields, in the order the fields are tried.
pub fn address_from_fields(values: &Vec<String>) -> (r: Option<String>)
    ensures
        opt_view(r) == first_host(values@.map_values(|v: String| v@)),
{
    let ghost all = values@.map_values(|v: String| v@);
    let mut i: usize = 0;
    assert(all.skip(0) =~= all);
    while i < values.len()
        invariant
            all == values@.map_values(|v: String| v@),
            0 <= i <= values.len(),
            first_host(all) == first_host(all.skip(i as int)),
        decreases values.len() - i,
    {
        assert(all.skip(i as int)[0] == values[i as int]@);
        assert(all.skip(i as int).drop_first() =~= all.skip(i + 1));
        let ip = strip_prefix_len(values[i].as_str());
        if is_usable_address(ip) {
            return Some(String::from_str(ip));
        }
        i = i + 1;
    }
    None
}

/// The values that, without their `/len` suffix, are well-formed addresses.
pub open spec fn well_formed_addresses(vals: Seq<Seq<char>>) -> Seq<Seq<char>>
    decreases vals.len(),
{
    if vals.len() == 0 {
        Seq::<Seq<char>>::empty()
    } else {
        let r = well_formed_addresses(vals.drop_last());
        let a = without_prefix_len(vals.last());
        if is_valid_ip_view(a) {
            r.push(a)
        } else {
            r
        }
    }
}

/// The peers' addresses among the values the companion CLI listed, in order.
pub fn peer_addresses(values: &Vec<String>) -> (r: Vec<String>)
    ensures
        r@.map_values(|v: String| v@) == well_formed_addresses(values@.map_values(|v: String| v@)),
{
    let ghost all = values@.map_values(|v: String| v@);
    let mut out: Vec<String> = Vec::new();
    let mut i: usize = 0;
    while i < values.len()
        invariant
            all == values@.map_values(|v: String| v@),
            0 <= i <= values.len(),
            out@.map_values(|v: String| v@) == well_formed_addresses(all.take(i as int)),
        decreases values.len() - i,
    {
        assert(all.take(i + 1).drop_last() =~= all.take(i as int));
        assert(all.take(i + 1).last() == values[i as int]@);
        let ip = strip_prefix_len(values[i].as_str());
        if is_valid_ip(ip) {
            out.push(String::from_str(ip));
            assert(out@.map_values(|v: String| v@) =~= well_formed_addresses(all.take(i as int)).push(ip@));
        }
        i = i + 1;
    }
    assert(all.take(i as int) =~= all);
    out
}

/// Views of a vector of strings.
pub open spec fn views(v: Seq<String>) -> Seq<Seq<char>> {
    v.map_values(|s: String| s@)
}

/// The daemon's command line for one bring-up: network name and secret,
/// rendezvous peer, automatic address assignment, instance name and
/// configuration directory, UDP as default protocol, and the
/// performance and privacy flags.
pub fn daemon_arguments(
    network_name: &str,
    network_secret: &str,
    server_node: &str,
    instance: &str,
    config_dir: &str,
) -> (r: Vec<String>)
    ensures
        views(r@) == seq![
            "--network-name"@,
            network_name@,
            "--network-secret"@,
            network_secret@,
            "--peers"@,
            server_node@,
            "--dhcp"@,
            "true"@,
            "--instance-name"@,
            instance@,
            "--config-dir"@,
            config_dir@,
            "--default-protocol"@,
            "udp"@,
            "--multi-thread"@,
            "--enable-kcp-proxy"@,
            "--latency-first"@,
            "--private-mode"@,
            "true"@,
        ],
{
    let mut r: Vec<String> = Vec::new();
    r.push(String::from_str("--network-name"));
    r.push(String::from_str(network_name));
    r.push(String::from_str("--network-secret"));
    r.push(String::from_str(network_secret));
    r.push(String::from_str("--peers"));
    r.push(String::from_str(server_node));
    r.push(String::from_str("--dhcp"));
    r.push(String::from_str("true"));
    r.push(String::from_str("--instance-name"));
    r.push(String::from_str(instance));
    r.push(String::from_str("--config-dir"));
    r.push(String::from_str(config_dir));
    r.push(String::from_str("--default-protocol"));
    r.push(String::from_str("udp"));
    r.push(String::from_str("--multi-thread"));
    r.push(String::from_str("--enable-kcp-proxy"));
    r.push(String::from_str("--latency-first"));
    r.push(String::from_str("--private-mode"));
    r.push(String::from_str("true"));
    assert(views(r@) =~= seq![
        "--network-name"@,
        network_name@,
        "--network-secret"@,
        network_secret@,
        "--peers"@,
        server_node@,
        "--dhcp"@,
        "true"@,
        "--instance-name"@,
        instance@,
        "--config-dir"@,
        config_dir@,
        "--default-protocol"@,
        "udp"@,
        "--multi-thread"@,
        "--enable-kcp-proxy"@,
        "--latency-first"@,
        "--private-mode"@,
        "true"@,
    ]);
    r
}

/// The companion CLI's command line asking instance `instance` a JSON
/// `query` (`node info`, `peer list`).
pub fn cli_query_arguments(instance: &str, subject: &str, query: &str) -> (r: Vec<String>)
    ensures
        views(r@) == seq![
            "--instance-name"@,
            instance@,
            "--output"@,
            "json"@,
            subject@,
            query@,
        ],
{
    let mut r: Vec<String> = Vec::new();
    r.push(String::from_str("--instance-name"));
    r.push(String::from_str(instance));
    r.push(String::from_str("--output"));
    r.push(String::from_str("json"));
    r.push(String::from_str(subject));
    r.push(String::from_str(query));
    assert(views(r@) =~= seq!["--instance-name"@, instance@, "--output"@, "json"@, subject@, query@]);
    r
}

/// The companion CLI's command line deregistering instance `instance`.
pub fn cli_stop_arguments(instance: &str) -> (r: Vec<String>)
    ensures
        views(r@) == seq!["--instance-name"@, instance@, "stop"@],
{
    let mut r: Vec<String> = Vec::new();
    r.push(String::from_str("--instance-name"));
    r.push(String::from_str(instance));
    r.push(String::from_str("stop"));
    assert(views(r@) =~= seq!["--instance-name"@, instance@, "stop"@]);
    r
}

/// The per-instance configuration directory's name.
pub fn instance_dir_name(instance: &str) -> (r: String)
    ensures
        r@ == "config_"@ + instance@,
{
    let mut r = String::from_str("config_");
    r.append(instance);
    r
}

/// The string held under `key` in the JSON object `doc`; `None` when `doc`
/// is not JSON, not an object, has no such member, or holds no string there.
pub uninterp spec fn json_string_at(doc: Seq<char>, key: Seq<char>) -> Option<Seq<char>>;

/// Relies on `serde_json::from_str`, `Value::get` and `Value::as_str`: the
/// string under `key` in the JSON text `doc`, which depends on the two
/// texts alone.
#[verifier::external_body]
fn json_string_field(doc: &str, key: &str) -> (r: Option<String>)
    ensures
        opt_view(r) == json_string_at(doc@, key@),
{
    let v = serde_json::from_str::<serde_json::Value>(doc).ok()?;
    v.get(key).and_then(|x| x.as_str()).map(|x| x.to_string())
}

/// The address-bearing fields of `node info`, in the order they are tried.
pub open spec fn node_info_fields() -> Seq<Seq<char>> {
    seq!["virtual_ipv4"@, "ipv4"@, "virtual_ip"@, "ip"@, "ipv4_addr"@]
}

/// The strings present under the given fields of `doc`, in order.
pub open spec fn present_values(doc: Seq<char>, fields: Seq<Seq<char>>) -> Seq<Seq<char>>
    decreases fields.len(),
{
    if fields.len() == 0 {
        Seq::<Seq<char>>::empty()
    } else {
        let r = present_values(doc, fields.drop_last());
        match json_string_at(doc, fields.last()) {
            Some(v) => r.push(v),
            None => r,
        }
    }
}

/// The node's own address in the companion CLI's `node info` output: the
/// first of the address-bearing fields, in a fixed order, whose string
/// is a usable overlay address once a `/len` suffix is cut off.
pub fn address_from_node_info(output: &str) -> (r: Option<String>)
    ensures
        opt_view(r) == first_host(present_values(output@, node_info_fields())),
        r matches Some(ip) ==> is_usable_view(ip@),
{
    let fields = ["virtual_ipv4", "ipv4", "virtual_ip", "ip", "ipv4_addr"];
    let ghost fs = node_info_fields();
    let mut values: Vec<String> = Vec::new();
    let mut i: usize = 0;
    assert(fs.take(0) =~= Seq::<Seq<char>>::empty());
    assert(values@.map_values(|v: String| v@) =~= Seq::<Seq<char>>::empty());
    while i < 5
        invariant
            fs == node_info_fields(),
            0 <= i <= 5,
            fields@.len() == 5,
            forall|k: int| 0 <= k < 5 ==> (#[trigger] fields@[k])@ == fs[k],
            values@.map_values(|v: String| v@) == present_values(output@, fs.take(i as int)),
        decreases 5 - i,
    {
        assert(fs.take(i + 1).drop_last() =~= fs.take(i as int));
        assert(fs.take(i + 1).last() == fs[i as int]);
        let found = json_string_field(output, fields[i]);
        if let Some(v) = found {
            values.push(v);
        }
        assert(values@.map_values(|v: String| v@) =~= present_values(output@, fs.take(i + 1)));
        i = i + 1;
    }
    assert(fs.take(5) =~= fs);
    let r = address_from_fields(&values);
    proof {
        lemma_first_host_is_host(values@.map_values(|v: String| v@));
    }
    r
}

proof fn lemma_first_host_is_host(vals: Seq<Seq<char>>)
    ensures
        first_host(vals) matches Some(a) ==> is_usable_view(a),
    decreases vals.len(),
{
    if vals.len() > 0 {
        lemma_first_host_is_host(vals.drop_first());
    }
}

/// Whether `doc` is a JSON text.
pub uninterp spec fn json_valid(doc: Seq<char>) -> bool;

/// Relies on `serde_json::from_str`: whether the text parses as JSON,
/// which depends on the text alone.
#[verifier::external_body]
fn is_json(doc: &str) -> (r: bool)
    ensures
        r == json_valid(doc@),
{
    serde_json::from_str::<serde_json::Value>(doc).is_ok()
}

/// The items of the JSON array `doc`, each as JSON text; `None` when `doc`
/// is not a JSON array.
pub uninterp spec fn json_array_at(doc: Seq<char>) -> Option<Seq<Seq<char>>>;

/// Relies on `serde_json::from_str`, `Value::as_array` and
/// `serde_json::to_string`: the items of a JSON array, each written back as
/// JSON text, which depends on the text alone.
#[verifier::external_body]
fn json_array_items(doc: &str) -> (r: Option<Vec<String>>)
    ensures
        match r {
            Some(v) => json_array_at(doc@) == Some(v@.map_values(|x: String| x@)),
            None => json_array_at(doc@) is None,
        },
{
    let v = serde_json::from_str::<serde_json::Value>(doc).ok()?;
    v.as_array().map(|items| items.iter().map(|x| x.to_string()).collect())
}

/// The member under `key` of the JSON object `doc`, as JSON text.
pub uninterp spec fn json_member_at(doc: Seq<char>, key: Seq<char>) -> Option<Seq<char>>;

/// Relies on `serde_json::from_str`, `Value::get` and
/// `serde_json::to_string`: the member under `key` written back as JSON
/// text, which depends on the two texts alone.
#[verifier::external_body]
fn json_member(doc: &str, key: &str) -> (r: Option<String>)
    ensures
        opt_view(r) == json_member_at(doc@, key@),
{
    let v = serde_json::from_str::<serde_json::Value>(doc).ok()?;
    v.get(key).map(|x| x.to_string())
}

/// The peer records of a `peer list` output: the output itself when it is
/// an array, else its `peers` member when that is one, else none.
pub open spec fn peer_items(doc: Seq<char>) -> Seq<Seq<char>> {
    match json_array_at(doc) {
        Some(items) => items,
        None => match json_member_at(doc, "peers"@) {
            Some(p) => match json_array_at(p) {
                Some(items) => items,
                None => Seq::<Seq<char>>::empty(),
            },
            None => Seq::<Seq<char>>::empty(),
        },
    }
}

/// Each peer record's `virtual_ipv4` string, or else its `ipv4` string,
/// for the records that have one, in order.
pub open spec fn peer_values(items: Seq<Seq<char>>) -> Seq<Seq<char>>
    decreases items.len(),
{
    if items.len() == 0 {
        Seq::<Seq<char>>::empty()
    } else {
        let r = peer_values(items.drop_last());
        let it = items.last();
        match json_string_at(it, "virtual_ipv4"@) {
            Some(v) => r.push(v),
            None => match json_string_at(it, "ipv4"@) {
                Some(v) => r.push(v),
                None => r,
            },
        }
    }
}

/// The peers' addresses in the companion CLI's `peer list` output: the
/// well-formed addresses among the peer records' values, in order; an
/// error when the output is not JSON.
pub fn peers_from_peer_list(output: &str) -> (r: Result<Vec<String>, AppError>)
    ensures
        !json_valid(output@) ==> (r matches Err(e) && e is ProcessError),
        json_valid(output@) ==> (r matches Ok(v) && v@.map_values(|x: String| x@)
            == well_formed_addresses(peer_values(peer_items(output@)))),
{
    if !is_json(output) {
        return Err(AppError::ProcessError(String::from_str("解析 JSON 失败")));
    }
    let items = match json_array_items(output) {
        Some(items) => items,
        None => match json_member(output, "peers") {
            Some(p) => match json_array_items(p.as_str()) {
                Some(items) => items,
                None => Vec::new(),
            },
            None => Vec::new(),
        },
    };
    let ghost all = items@.map_values(|x: String| x@);
    assert(all =~= peer_items(output@));
    let mut values: Vec<String> = Vec::new();
    let mut i: usize = 0;
    assert(all.take(0) =~= Seq::<Seq<char>>::empty());
    assert(values@.map_values(|v: String| v@) =~= Seq::<Seq<char>>::empty());
    while i < items.len()
        invariant
            all == items@.map_values(|x: String| x@),
            0 <= i <= items.len(),
            values@.map_values(|v: String| v@) == peer_values(all.take(i as int)),
        decreases items.len() - i,
    {
        assert(all.take(i + 1).drop_last() =~= all.take(i as int));
        assert(all.take(i + 1).last() == items[i as int]@);
        let found = match json_string_field(items[i].as_str(), "virtual_ipv4") {
            Some(v) => Some(v),
            None => json_string_field(items[i].as_str(), "ipv4"),
        };
        if let Some(v) = found {
            values.push(v);
        }
        assert(values@.map_values(|v: String| v@) =~= peer_values(all.take(i + 1)));
        i = i + 1;
    }
    assert(all.take(i as int) =~= all);
    Ok(peer_addresses(&values))
}

} // verus!
