//! The instance manager: the registry of instances and their lifecycle.
//!
//! An operation that starts an endpoint has two halves. The first halts what
//! runs, raises the generation and hands the generation out; the caller then
//! starts the endpoint, which takes time; the second installs what the start
//! gave. Whoever comes back with an older generation finds that things have
//! moved on, and leaves them alone.

use crate::api::failure;
use crate::api::not_found;
use crate::api::not_found_failure;
use crate::api::ApiFailure;
use crate::api::FailureView;
use crate::api::BAD_REQUEST;
use crate::api::CONFLICT;
use crate::api::CREATED;
use crate::api::INTERNAL_SERVER_ERROR;
use crate::api::OK;
use crate::clock::moment;
use crate::conf::clone_opt;
use crate::conf::opt_text;
use crate::conf::ConfView;
use crate::conf::EndpointConf;
use crate::conf::EndpointInfo;
use crate::conf::NetConf;
use crate::conf::Resolved;
use crate::instance::abort_task;
use crate::instance::id_fault;
use crate::instance::persisted_status;
use crate::instance::random_id;
use crate::instance::restored_status;
use crate::instance::status_restored;
use crate::instance::status_written;
use crate::instance::validate_instance_id;
use crate::instance::CreateInstanceRequest;
use crate::instance::DataView;
use crate::instance::Instance;
use crate::instance::InstanceAutoStartUpdate;
use crate::instance::InstanceData;
use crate::instance::InstanceStatus;
use crate::instance::InstanceView;
use crate::instance::PersistedInstance;
use crate::instance::StatusView;
use crate::report::can_be_page_of;
use crate::report::connections_page;
use crate::report::invalid_query;
use crate::report::is_page;
use crate::report::is_route_report;
use crate::report::strategy_written;
use crate::report::lowercased;
use crate::report::page_limit;
use crate::report::page_offset;
use crate::report::protocol_named;
use crate::report::route_report;
use crate::report::rows_describe;
use crate::report::rows_read;
use crate::report::ConnectionStats;
use crate::report::ConnectionsPageResponse;
use crate::report::ConnectionsQuery;
use crate::report::InstanceRouteResponse;
use crate::report::InstanceStatsResponse;
use crate::stats::InstanceStats;
use crate::stats::StatsView;
use crate::tally::capped_sum;
use crate::tally::first_where;
use crate::tally::lemma_first_where;
use crate::tally::lemma_first_where_is;
use crate::text::str_eq;
use tokio::task::AbortHandle;
use vstd::prelude::*;
use vstd::string::StringExecFns;

verus! {

/// Whether an instance has the id `id`.
pub open spec fn has_id(id: Seq<char>) -> spec_fn(DataView) -> bool {
    |d: DataView| d.instance.id == id
}

/// The position of the instance `id` in the registry.
pub open spec fn index_of(reg: Seq<DataView>, id: Seq<char>) -> Option<int> {
    first_where(reg, has_id(id))
}

/// No two instances have one id.
pub open spec fn distinct(reg: Seq<DataView>) -> bool {
    forall|i: int, j: int|
        0 <= i < j < reg.len() ==> (#[trigger] reg[i]).instance.id != (#[trigger] reg[j]).instance.id
}

/// No instance has a lower generation after than it had before.
pub open spec fn never_older(before: Seq<DataView>, after: Seq<DataView>) -> bool {
    forall|i: int, j: int|
        0 <= i < before.len() && 0 <= j < after.len() && (#[trigger] before[i]).instance.id == (
        #[trigger] after[j]).instance.id ==> before[i].generation <= after[j].generation
}

/// Every instance holds handles only while it runs.
pub open spec fn all_settled(reg: Seq<DataView>) -> bool {
    forall|i: int| 0 <= i < reg.len() ==> (#[trigger] reg[i]).settled()
}

/// What starting an endpoint gave: the handles on its TCP task and on its
/// UDP task, as far as it has them, or why it did not start.
pub enum StartView {
    Started { tcp: Option<AbortHandle>, udp: Option<AbortHandle> },
    Failed(Seq<char>),
}

/// The view of what starting an endpoint gave.
pub open spec fn start_view(result: Result<(Option<AbortHandle>, Option<AbortHandle>), String>)
    -> StartView {
    match result {
        Ok((tcp, udp)) => StartView::Started { tcp, udp },
        Err(why) => StartView::Failed(why@),
    }
}

impl DataView {
    /// Whether a request to start would find the instance running.
    pub open spec fn already_running(self) -> bool {
        self.instance.status is Running && (self.tcp is Some || self.udp is Some)
    }

    /// Whether a request to stop would find the instance stopped.
    pub open spec fn already_stopped(self) -> bool {
        self.tcp is None && self.udp is None && !(self.instance.status is Running)
    }

    /// With the status `status`, stamped `now`.
    pub open spec fn with_status(self, status: StatusView, now: Seq<char>) -> DataView {
        DataView {
            instance: InstanceView { status, ..self.instance },
            updated_at: Some(now),
            ..self
        }
    }

    /// Halted for a new start: the handles are gone, what belonged to the
    /// run is forgotten, the generation is raised, and the instance is
    /// stopped.
    pub open spec fn halted(self, now: Seq<char>) -> DataView {
        DataView {
            tcp: None,
            udp: None,
            stats: self.stats.cleared(),
            generation: capped_sum(self.generation, 1),
            ..self.with_status(StatusView::Stopped, now)
        }
    }

    /// Halted for a new start with a new configuration.
    pub open spec fn reconfigured(self, config: ConfView, now: Seq<char>) -> DataView {
        DataView {
            instance: InstanceView { config, ..self.halted(now).instance },
            ..self.halted(now)
        }
    }

    /// Halted for a new start, which the configuration's build then allowed
    /// or not: where it did not, the instance has failed for that reason.
    pub open spec fn prepared(self, build_error: Option<Seq<char>>, now: Seq<char>) -> DataView {
        match build_error {
            Some(why) => self.halted(now).with_status(StatusView::Failed(why), now),
            None => self.halted(now),
        }
    }

    /// Stopped: the handles are gone, what belonged to the run is forgotten.
    pub open spec fn stopped(self, now: Seq<char>) -> DataView {
        DataView {
            tcp: None,
            udp: None,
            stats: self.stats.cleared(),
            ..self.with_status(StatusView::Stopped, now)
        }
    }

    /// After the start came back. A start that succeeded makes the instance
    /// run with the handles it gave, unless the instance has failed in the
    /// meantime; a start that failed makes the instance fail, without
    /// handles.
    pub open spec fn started(self, outcome: StartView, now: Seq<char>) -> DataView {
        match outcome {
            StartView::Started { tcp, udp } => if self.instance.status is Failed {
                DataView { updated_at: Some(now), ..self }
            } else {
                DataView { tcp, udp, ..self.with_status(StatusView::Running, now) }
            },
            StartView::Failed(why) => DataView {
                tcp: None,
                udp: None,
                ..self.with_status(StatusView::Failed(why), now)
            },
        }
    }

    /// After a task of the endpoint ended by itself: the other task is
    /// cancelled with it, and the instance has failed.
    pub open spec fn crashed(self, why: Seq<char>, now: Seq<char>) -> DataView {
        DataView { tcp: None, udp: None, ..self.with_status(StatusView::Failed(why), now) }
    }

    /// A new instance.
    pub open spec fn fresh(id: Seq<char>, config: ConfView, now: Seq<char>) -> DataView {
        DataView {
            instance: InstanceView { id, config, status: StatusView::Stopped, auto_start: true },
            tcp: None,
            udp: None,
            generation: 1,
            created_at: now,
            updated_at: None,
            stats: StatsView::empty(),
        }
    }

    /// A restored instance: stopped, or failed as it was; not yet started
    /// in this process.
    pub open spec fn restored(
        id: Seq<char>,
        config: ConfView,
        status: Seq<char>,
        auto_start: bool,
        created_at: Seq<char>,
        updated_at: Option<Seq<char>>,
    ) -> DataView {
        DataView {
            instance: InstanceView { id, config, status: status_restored(status), auto_start },
            tcp: None,
            udp: None,
            generation: 0,
            created_at,
            updated_at,
            stats: StatsView::empty(),
        }
    }

    /// Whether the instance is started with the process: auto-start is on,
    /// and the instance has not failed.
    pub open spec fn starts_with_process(self) -> bool {
        self.auto_start_on() && !(self.instance.status is Failed)
    }

    pub open spec fn auto_start_on(self) -> bool {
        self.instance.auto_start
    }
}

/// The registry after the first half of a creation of `id`: the instance
/// is new, stopped and of generation one, at the end; or, where there is one
/// under that id, it is halted, has the configuration, and keeps its place.
pub open spec fn created(reg: Seq<DataView>, id: Seq<char>, config: ConfView, now: Seq<char>)
    -> Seq<DataView> {
    match index_of(reg, id) {
        Some(i) => reg.update(i, reg[i].reconfigured(config, now)),
        None => reg.push(DataView::fresh(id, config, now)),
    }
}

/// A creation leaves every other instance as it is, and leaves one
/// instance under the id. A second creation under the same id makes no
/// second instance: it raises the generation of the one that is there, to
/// two at the least.
pub proof fn lemma_create_twice(
    reg: Seq<DataView>,
    id: Seq<char>,
    first: ConfView,
    second: ConfView,
    now: Seq<char>,
    later: Seq<char>,
)
    requires
        distinct(reg),
    ensures
        ({
            let once = created(reg, id, first, now);
            let twice = created(once, id, second, later);
            &&& distinct(once)
            &&& distinct(twice)
            &&& index_of(once, id) is Some
            &&& index_of(twice, id) == index_of(once, id)
            &&& twice.len() == once.len()
            &&& reg.len() <= once.len() <= reg.len() + 1
            &&& twice[index_of(twice, id).unwrap()].generation >= 2
            &&& twice[index_of(twice, id).unwrap()].instance.config == second
            &&& forall|j: int|
                0 <= j < reg.len() && reg[j].instance.id != id ==> once[j] == reg[j] && twice[j]
                    == reg[j]
        }),
{
    let once = created(reg, id, first, now);
    let twice = created(once, id, second, later);
    lemma_first_where(reg, has_id(id));
    match index_of(reg, id) {
        Some(i) => {
            assert(has_id(id)(once[i]));
            assert forall|j: int| 0 <= j < i implies !has_id(id)(#[trigger] once[j]) by {
                assert(once[j] == reg[j]);
                assert(!has_id(id)(reg[j]));
            }
            lemma_first_where_is(once, has_id(id), i);
            assert(has_id(id)(twice[i]));
            assert forall|j: int| 0 <= j < i implies !has_id(id)(#[trigger] twice[j]) by {
                assert(twice[j] == reg[j]);
                assert(!has_id(id)(reg[j]));
            }
            lemma_first_where_is(twice, has_id(id), i);
        },
        None => {
            let i = reg.len() as int;
            assert(has_id(id)(once[i]));
            assert forall|j: int| 0 <= j < i implies !has_id(id)(#[trigger] once[j]) by {
                assert(once[j] == reg[j]);
                assert(!has_id(id)(reg[j]));
            }
            lemma_first_where_is(once, has_id(id), i);
            assert forall|j: int| 0 <= j < i implies (#[trigger] once[j]).instance.id != id by {
                assert(!has_id(id)(reg[j]));
            }
            assert(has_id(id)(twice[i]));
            assert forall|j: int| 0 <= j < i implies !has_id(id)(#[trigger] twice[j]) by {
                assert(twice[j] == reg[j]);
                assert(!has_id(id)(reg[j]));
            }
            lemma_first_where_is(twice, has_id(id), i);
        },
    }
}

/// Other statistics leave an instance what it is: its id, its generation,
/// its status and its handles.
pub proof fn lemma_other_statistics(reg: Seq<DataView>, i: int, stats: StatsView)
    requires
        0 <= i < reg.len(),
    ensures
        distinct(reg) ==> distinct(reg.update(i, DataView { stats, ..reg[i] })),
        distinct(reg) ==> never_older(reg, reg.update(i, DataView { stats, ..reg[i] })),
        all_settled(reg) ==> all_settled(reg.update(i, DataView { stats, ..reg[i] })),
{
    let after = reg.update(i, DataView { stats, ..reg[i] });
    assert forall|j: int| 0 <= j < reg.len() implies (#[trigger] after[j]).instance
        == reg[j].instance && after[j].generation == reg[j].generation && after[j].tcp
        == reg[j].tcp && after[j].udp == reg[j].udp by {}
    if distinct(reg) {
        assert forall|a: int, b: int|
            0 <= a < reg.len() && 0 <= b < after.len() && (#[trigger] reg[a]).instance.id == (
            #[trigger] after[b]).instance.id implies reg[a].generation <= after[b].generation by {
            assert(after[b].instance == reg[b].instance);
            if a < b {
                assert(reg[a].instance.id != reg[b].instance.id);
            } else if b < a {
                assert(reg[b].instance.id != reg[a].instance.id);
            }
        }
    }
    if all_settled(reg) {
        assert forall|j: int| 0 <= j < after.len() implies (#[trigger] after[j]).settled() by {
            assert(reg[j].settled());
        }
    }
}

/// The views of a list of instances.
pub open spec fn data_views(list: Seq<InstanceData>) -> Seq<DataView> {
    Seq::new(list.len(), |i: int| list[i]@)
}

/// The failure of a request that finds the instance in the state that it
/// asks for.
pub open spec fn conflict(message: Seq<char>) -> FailureView {
    FailureView { status: CONFLICT, code: "conflict"@, message }
}

/// The failure of a request whose configuration builds no endpoint.
pub open spec fn invalid_config(message: Seq<char>) -> FailureView {
    FailureView { status: BAD_REQUEST, code: "invalid_config"@, message }
}

/// The failure of a request with an unusable id.
pub open spec fn invalid_id(message: Seq<char>) -> FailureView {
    FailureView { status: BAD_REQUEST, code: "invalid_id"@, message }
}

/// The failure of an operation whose instance was deleted while its
/// endpoint started.
pub open spec fn disappeared(during: Seq<char>) -> FailureView {
    FailureView {
        status: INTERNAL_SERVER_ERROR,
        code: "internal_error"@,
        message: "instance disappeared during "@ + during,
    }
}

/// Cancels the tasks of an instance and lets go of their handles.
fn abort_both(data: &mut InstanceData)
    ensures
        final(data)@ == (DataView { tcp: None, udp: None, ..old(data)@ }),
{
    match data.tcp_abort.take() {
        Some(tcp) => abort_task(&tcp),
        None => {},
    }
    match data.udp_abort.take() {
        Some(udp) => abort_task(&udp),
        None => {},
    }
}

/// Halts an instance for a new start.
fn halt(data: &mut InstanceData, now: &String)
    ensures
        final(data)@ == old(data)@.halted(now@),
{
    abort_both(data);
    data.stats.clear_runtime_state();
    data.generation = data.generation.saturating_add(1);
    data.instance.status = InstanceStatus::Stopped;
    data.updated_at = Some(now.clone());
}

/// The registry of instances.
#[derive(Debug)]
pub struct InstanceManager {
    instances: Vec<InstanceData>,
}

impl View for InstanceManager {
    type V = Seq<DataView>;

    closed spec fn view(&self) -> Seq<DataView> {
        data_views(self.instances@)
    }
}

impl InstanceManager {
    /// No two instances have one id.
    pub open spec fn wf(&self) -> bool {
        distinct(self@)
    }

    /// A registry without instances.
    pub fn new() -> (r: Self)
        ensures
            r@.len() == 0,
            r.wf(),
    {
        InstanceManager { instances: Vec::new() }
    }

    /// The position of the instance `id`.
    fn find(&self, id: &str) -> (r: Option<usize>)
        ensures
            match r {
                Some(i) => index_of(self@, id@) == Some(i as int) && i < self.instances@.len()
                    && self@[i as int].instance.id == id@,
                None => index_of(self@, id@) is None,
            },
    {
        let ghost views = self@;
        proof {
            lemma_first_where(views, has_id(id@));
        }
        let mut i: usize = 0;
        while i < self.instances.len()
            invariant
                i <= self.instances@.len(),
                views == self@,
                forall|j: int| 0 <= j < i ==> !has_id(id@)(#[trigger] views[j]),
            decreases self.instances@.len() - i,
        {
            if str_eq(self.instances[i].instance.id.as_str(), id) {
                proof {
                    assert(has_id(id@)(views[i as int]));
                    lemma_first_where_is(views, has_id(id@), i as int);
                }
                return Some(i);
            }
            proof {
                assert(!has_id(id@)(views[i as int]));
            }
            i += 1;
        }
        None
    }

    /// The number of instances.
    pub fn len(&self) -> (r: usize)
        ensures
            r == self@.len(),
    {
        self.instances.len()
    }

    /// Every instance.
    pub fn list(&self) -> (r: Vec<Instance>)
        ensures
            r@.len() == self@.len(),
            forall|i: int| 0 <= i < r@.len() ==> (#[trigger] r@[i])@ == self@[i].instance,
    {
        let mut out: Vec<Instance> = Vec::new();
        let mut i: usize = 0;
        while i < self.instances.len()
            invariant
                i <= self.instances@.len(),
                out@.len() == i,
                forall|k: int| 0 <= k < i ==> (#[trigger] out@[k])@ == self@[k].instance,
            decreases self.instances@.len() - i,
        {
            out.push(self.instances[i].instance.clone());
            i += 1;
        }
        out
    }

    /// The instance `id`.
    pub fn get(&self, id: &str) -> (r: Result<Instance, ApiFailure>)
        ensures
            match index_of(self@, id@) {
                Some(i) => r matches Ok(instance) && instance@ == self@[i].instance,
                None => r matches Err(e) && e@ == not_found(),
            },
    {
        match self.find(id) {
            Some(i) => Ok(self.instances[i].instance.clone()),
            None => Err(not_found_failure()),
        }
    }

    /// The instance `id` with what belongs to its run.
    pub fn data(&self, id: &str) -> (r: Option<&InstanceData>)
        ensures
            match index_of(self@, id@) {
                Some(i) => r matches Some(data) && data@ == self@[i],
                None => r is None,
            },
    {
        match self.find(id) {
            Some(i) => Some(&self.instances[i]),
            None => None,
        }
    }

    /// The report on the counters of the instance `id`.
    pub fn stats_report(&self, id: &str) -> (r: Result<InstanceStatsResponse, ApiFailure>)
        ensures
            match index_of(self@, id@) {
                Some(i) => r matches Ok(report) && self@[i].stats.reported(
                    id@,
                    self@[i].instance.config.remote,
                    report,
                ),
                None => r matches Err(e) && e@ == not_found(),
            },
    {
        match self.find(id) {
            Some(i) => {
                let data = &self.instances[i];
                Ok(data.stats.report(id, data.instance.config.remote.as_str()))
            },
            None => Err(not_found_failure()),
        }
    }

    /// The route report of the instance `id`, stamped `updated_at`: its
    /// backends as its health sees them now.
    pub fn route_report(&self, id: &str, updated_at: String) -> (r: Result<
        InstanceRouteResponse,
        ApiFailure,
    >)
        ensures
            match index_of(self@, id@) {
                Some(i) => r matches Ok(report) && exists|now: u64| #[trigger]
                    moment(now) && is_route_report(
                        report,
                        id@,
                        lowercased(strategy_written(self@[i].instance.config.balance)),
                        self@[i].instance.config.remote,
                        self@[i].instance.config.extra_remotes,
                        self@[i].stats,
                        now,
                        updated_at@,
                    ),
                None => r matches Err(e) && e@ == not_found(),
            },
    {
        match self.find(id) {
            Some(i) => {
                let data = &self.instances[i];
                let config = &data.instance.config;
                Ok(
                    route_report(
                        &data.stats,
                        id,
                        &config.balance,
                        &config.remote,
                        &config.extra_remotes,
                        updated_at,
                    ),
                )
            },
            None => Err(not_found_failure()),
        }
    }

    /// The page of live connections and associations of the instance `id`
    /// that `query` asks for: made of one row for each of them, with the
    /// instance's remote as the backend of a connection that has none yet.
    pub fn connections_page(&self, id: &str, query: &ConnectionsQuery) -> (r: Result<
        ConnectionsPageResponse,
        ApiFailure,
    >)
        ensures
            match index_of(self@, id@) {
                None => r matches Err(e) && e@ == not_found(),
                Some(i) => match protocol_named(
                    match query.protocol {
                        Some(p) => Some(lowercased(p@)),
                        None => None,
                    },
                ) {
                    None => r matches Err(e) && e@ == invalid_query(),
                    Some(protocol) => r matches Ok(page) && can_be_page_of(
                        page,
                        id@,
                        protocol,
                        self@[i].stats.connections.len(),
                        self@[i].stats.udp_sessions.len(),
                        page_limit(query.limit),
                        page_offset(query.offset),
                    ) && exists|tcp: Seq<ConnectionStats>, udp: Seq<ConnectionStats>| #[trigger]
                        rows_read(tcp, udp) && rows_describe(
                            tcp,
                            udp,
                            self@[i].stats,
                            self@[i].instance.config.remote,
                        ) && is_page(
                            page,
                            id@,
                            protocol,
                            tcp,
                            udp,
                            page_limit(query.limit),
                            page_offset(query.offset),
                        ),
                },
            },
    {
        match self.find(id) {
            Some(i) => {
                let data = &self.instances[i];
                connections_page(&data.stats, id, data.instance.config.remote.as_str(), query)
            },
            None => Err(not_found_failure()),
        }
    }

    /// The statistics of the instance `id`, for the pipelines to report to.
    /// Whatever they report, the instance is otherwise what it was.
    pub fn stats_mut(&mut self, id: &str) -> (r: Option<&mut InstanceStats>)
        ensures
            match index_of(old(self)@, id@) {
                Some(i) => r matches Some(stats) && stats@ == old(self)@[i].stats && final(self)@
                    == old(self)@.update(i, DataView { stats: final(stats)@, ..old(self)@[i] }),
                None => r is None && final(self)@ == old(self)@,
            },
    {
        match self.find(id) {
            Some(i) => {
                proof {
                    assert(old(self)@.update(i as int, old(self)@[i as int]) =~= old(self)@);
                }
                Some(&mut self.instances[i].stats)
            },
            None => None,
        }
    }

    /// The configuration with which the instance `id` is started: its own,
    /// with what it does not set taken from the global network defaults.
    pub fn effective_config(&self, id: &str, global: Option<&NetConf>) -> (r: Result<
        EndpointConf,
        ApiFailure,
    >)
        ensures
            match index_of(self@, id@) {
                Some(i) => r matches Ok(config) && config@ == (ConfView {
                    network: match global {
                        Some(g) => self@[i].instance.config.network.inheriting(*g),
                        None => self@[i].instance.config.network,
                    },
                    ..self@[i].instance.config
                }),
                None => r matches Err(e) && e@ == not_found(),
            },
    {
        match self.find(id) {
            Some(i) => {
                let mut config = self.instances[i].instance.config.clone();
                match global {
                    Some(g) => {
                        config.network.take_field(g);
                    },
                    None => {},
                }
                Ok(config)
            },
            None => Err(not_found_failure()),
        }
    }

    /// The first half of a creation: the instance `id` is new, stopped and of
    /// generation one; or, where there is one under that id, it is halted,
    /// gets the configuration, and keeps its place. The results are the
    /// generation under which the endpoint is to be started, and the status
    /// of the answer: created, or ok.
    pub fn prepare_create(&mut self, id: String, config: EndpointConf, now: String) -> (r: (
        u64,
        u16,
    ))
        requires
            old(self).wf(),
        ensures
            final(self).wf(),
            never_older(old(self)@, final(self)@),
            all_settled(old(self)@) ==> all_settled(final(self)@),
            final(self)@ == created(old(self)@, id@, config@, now@),
            r == match index_of(old(self)@, id@) {
                Some(i) => (final(self)@[i].generation, OK),
                None => (1u64, CREATED),
            },
    {
        proof {
            lemma_first_where(self@, has_id(id@));
        }
        match self.find(id.as_str()) {
            Some(i) => {
                halt(&mut self.instances[i], &now);
                self.instances[i].instance.config = config;
                proof {
                    assert(self@ =~= old(self)@.update(
                        i as int,
                        old(self)@[i as int].reconfigured(config@, now@),
                    ));
                }
                (self.instances[i].generation, OK)
            },
            None => {
                self.instances.push(
                    InstanceData {
                        instance: Instance {
                            id,
                            config,
                            status: InstanceStatus::Stopped,
                            auto_start: true,
                        },
                        tcp_abort: None,
                        udp_abort: None,
                        generation: 1,
                        created_at: now,
                        updated_at: None,
                        stats: InstanceStats::new(),
                    },
                );
                proof {
                    assert(self@ =~= old(self)@.push(DataView::fresh(id@, config@, now@)));
                    assert forall|j: int| 0 <= j < old(self)@.len() implies (
                    #[trigger] self@[j]).instance.id != id@ by {
                        assert(!has_id(id@)(old(self)@[j]));
                    }
                }
                (1, CREATED)
            },
        }
    }

    /// The first half of an update: the instance `id` is halted and gets the
    /// configuration. The result is the generation under which the endpoint
    /// is to be started.
    pub fn prepare_update(&mut self, id: &str, config: EndpointConf, now: String) -> (r: Result<
        u64,
        ApiFailure,
    >)
        requires
            old(self).wf(),
        ensures
            final(self).wf(),
            never_older(old(self)@, final(self)@),
            all_settled(old(self)@) ==> all_settled(final(self)@),
            match index_of(old(self)@, id@) {
                Some(i) => {
                    &&& final(self)@ == old(self)@.update(
                        i,
                        old(self)@[i].reconfigured(config@, now@),
                    )
                    &&& r == Ok::<u64, ApiFailure>(final(self)@[i].generation)
                },
                None => r matches Err(e) && e@ == not_found() && final(self)@ == old(self)@,
            },
    {
        match self.find(id) {
            Some(i) => {
                halt(&mut self.instances[i], &now);
                self.instances[i].instance.config = config;
                proof {
                    assert(self@ =~= old(self)@.update(
                        i as int,
                        old(self)@[i as int].reconfigured(config@, now@),
                    ));
                }
                Ok(self.instances[i].generation)
            },
            None => Err(not_found_failure()),
        }
    }

    /// Halts the instance at `i` for a new start, and marks it failed where
    /// its configuration builds no endpoint.
    fn prepare_at(&mut self, i: usize, build_error: Option<String>, now: String) -> (r: Result<
        u64,
        ApiFailure,
    >)
        requires
            i < old(self)@.len(),
        ensures
            final(self)@ == old(self)@.update(
                i as int,
                old(self)@[i as int].prepared(opt_text(build_error), now@),
            ),
            match build_error {
                Some(why) => r matches Err(e) && e@ == invalid_config(why@),
                None => r == Ok::<u64, ApiFailure>(final(self)@[i as int].generation),
            },
    {
        halt(&mut self.instances[i], &now);
        let r = match build_error {
            Some(why) => {
                let e = failure(BAD_REQUEST, "invalid_config", why.as_str());
                self.instances[i].instance.status = InstanceStatus::Failed(why);
                self.instances[i].updated_at = Some(now);
                Err(e)
            },
            None => Ok(self.instances[i].generation),
        };
        proof {
            assert(self@ =~= old(self)@.update(
                i as int,
                old(self)@[i as int].prepared(opt_text(build_error), now@),
            ));
        }
        r
    }

    /// The first half of a start. An instance that runs is left alone: that
    /// is a conflict. Any other is halted; where `build_error` says that its
    /// configuration builds no endpoint, it has failed for that reason, and
    /// the request with it. The result is the generation under which the
    /// endpoint is to be started.
    pub fn prepare_start(&mut self, id: &str, build_error: Option<String>, now: String) -> (r:
        Result<u64, ApiFailure>)
        requires
            old(self).wf(),
        ensures
            final(self).wf(),
            never_older(old(self)@, final(self)@),
            all_settled(old(self)@) ==> all_settled(final(self)@),
            match index_of(old(self)@, id@) {
                None => r matches Err(e) && e@ == not_found() && final(self)@ == old(self)@,
                Some(i) => if old(self)@[i].already_running() {
                    r matches Err(e) && e@ == conflict("instance already running"@)
                        && final(self)@ == old(self)@
                } else {
                    &&& final(self)@ == old(self)@.update(
                        i,
                        old(self)@[i].prepared(opt_text(build_error), now@),
                    )
                    &&& match build_error {
                        Some(why) => r matches Err(e) && e@ == invalid_config(why@),
                        None => r == Ok::<u64, ApiFailure>(final(self)@[i].generation),
                    }
                },
            },
    {
        let i: usize = match self.find(id) {
            Some(i) => i,
            None => {
                return Err(not_found_failure());
            },
        };
        let running: bool = match self.instances[i].instance.status {
            InstanceStatus::Running => true,
            _ => false,
        };
        if running && (self.instances[i].tcp_abort.is_some() || self.instances[i].udp_abort.is_some()) {
            return Err(failure(CONFLICT, "conflict", "instance already running"));
        }
        self.prepare_at(i, build_error, now)
    }

    /// The first half of a restart: the instance is halted; where
    /// `build_error` says that its configuration builds no endpoint, it has
    /// failed for that reason, and the request with it. The result is the
    /// generation under which the endpoint is to be started.
    pub fn prepare_restart(&mut self, id: &str, build_error: Option<String>, now: String) -> (r:
        Result<u64, ApiFailure>)
        requires
            old(self).wf(),
        ensures
            final(self).wf(),
            never_older(old(self)@, final(self)@),
            all_settled(old(self)@) ==> all_settled(final(self)@),
            match index_of(old(self)@, id@) {
                None => r matches Err(e) && e@ == not_found() && final(self)@ == old(self)@,
                Some(i) => {
                    &&& final(self)@ == old(self)@.update(
                        i,
                        old(self)@[i].prepared(opt_text(build_error), now@),
                    )
                    &&& match build_error {
                        Some(why) => r matches Err(e) && e@ == invalid_config(why@),
                        None => r == Ok::<u64, ApiFailure>(final(self)@[i].generation),
                    }
                },
            },
    {
        match self.find(id) {
            Some(i) => self.prepare_at(i, build_error, now),
            None => Err(not_found_failure()),
        }
    }

    /// The second half of an operation that starts an endpoint: what the
    /// start gave is installed. `during` names the operation.
    pub fn finish_start(
        &mut self,
        id: &str,
        result: Result<(Option<AbortHandle>, Option<AbortHandle>), String>,
        during: &str,
        now: String,
    ) -> (r: Result<Instance, ApiFailure>)
        requires
            old(self).wf(),
        ensures
            final(self).wf(),
            never_older(old(self)@, final(self)@),
            all_settled(old(self)@) ==> all_settled(final(self)@),
            match index_of(old(self)@, id@) {
                None => r matches Err(e) && e@ == disappeared(during@) && final(self)@ == old(self)@,
                Some(i) => {
                    &&& final(self)@ == old(self)@.update(
                        i,
                        old(self)@[i].started(start_view(result), now@),
                    )
                    &&& r matches Ok(instance) && instance@ == final(self)@[i].instance
                },
            },
    {
        let i: usize = match self.find(id) {
            Some(i) => i,
            None => {
                let mut message = String::from_str("instance disappeared during ");
                message.append(during);
                return Err(failure(INTERNAL_SERVER_ERROR, "internal_error", message.as_str()));
            },
        };
        match result {
            Ok((tcp_abort, udp_abort)) => {
                let failed: bool = match self.instances[i].instance.status {
                    InstanceStatus::Failed(_) => true,
                    _ => false,
                };
                if !failed {
                    self.instances[i].tcp_abort = tcp_abort;
                    self.instances[i].udp_abort = udp_abort;
                    self.instances[i].instance.status = InstanceStatus::Running;
                }
            },
            Err(why) => {
                self.instances[i].instance.status = InstanceStatus::Failed(why);
                self.instances[i].tcp_abort = None;
                self.instances[i].udp_abort = None;
            },
        }
        self.instances[i].updated_at = Some(now);
        proof {
            assert(self@ =~= old(self)@.update(
                i as int,
                old(self)@[i as int].started(start_view(result), now@),
            ));
        }
        Ok(self.instances[i].instance.clone())
    }

    /// Stops the instance `id`. An instance that is stopped already is left
    /// alone: that is a conflict.
    pub fn stop(&mut self, id: &str, now: String) -> (r: Result<Instance, ApiFailure>)
        requires
            old(self).wf(),
        ensures
            final(self).wf(),
            never_older(old(self)@, final(self)@),
            all_settled(old(self)@) ==> all_settled(final(self)@),
            match index_of(old(self)@, id@) {
                None => r matches Err(e) && e@ == not_found() && final(self)@ == old(self)@,
                Some(i) => if old(self)@[i].already_stopped() {
                    r matches Err(e) && e@ == conflict("instance already stopped"@)
                        && final(self)@ == old(self)@
                } else {
                    &&& final(self)@ == old(self)@.update(i, old(self)@[i].stopped(now@))
                    &&& r matches Ok(instance) && instance@ == final(self)@[i].instance
                },
            },
    {
        let i: usize = match self.find(id) {
            Some(i) => i,
            None => {
                return Err(not_found_failure());
            },
        };
        let running: bool = match self.instances[i].instance.status {
            InstanceStatus::Running => true,
            _ => false,
        };
        if self.instances[i].tcp_abort.is_none() && self.instances[i].udp_abort.is_none()
            && !running {
            return Err(failure(CONFLICT, "conflict", "instance already stopped"));
        }
        abort_both(&mut self.instances[i]);
        self.instances[i].stats.clear_runtime_state();
        self.instances[i].instance.status = InstanceStatus::Stopped;
        self.instances[i].updated_at = Some(now);
        proof {
            assert(self@ =~= old(self)@.update(i as int, old(self)@[i as int].stopped(now@)));
        }
        Ok(self.instances[i].instance.clone())
    }

    /// Deletes the instance `id`: its tasks are cancelled, and it is gone.
    pub fn delete(&mut self, id: &str) -> (r: Result<(), ApiFailure>)
        requires
            old(self).wf(),
        ensures
            final(self).wf(),
            never_older(old(self)@, final(self)@),
            all_settled(old(self)@) ==> all_settled(final(self)@),
            match index_of(old(self)@, id@) {
                None => r matches Err(e) && e@ == not_found() && final(self)@ == old(self)@,
                Some(i) => final(self)@ == old(self)@.remove(i) && r is Ok && index_of(
                    final(self)@,
                    id@,
                ) is None,
            },
    {
        let i: usize = match self.find(id) {
            Some(i) => i,
            None => {
                return Err(not_found_failure());
            },
        };
        let mut data = self.instances.remove(i);
        data.stats.clear_runtime_state();
        abort_both(&mut data);
        proof {
            let after = old(self)@.remove(i as int);
            assert(self@ =~= after);
            assert forall|j: int| 0 <= j < after.len() implies !has_id(id@)(#[trigger] after[j]) by {
                if j < i {
                    assert(after[j] == old(self)@[j]);
                } else {
                    assert(after[j] == old(self)@[j + 1]);
                }
            }
            lemma_first_where(after, has_id(id@));
            assert(never_older(old(self)@, after)) by {
                assert forall|a: int, b: int|
                    0 <= a < old(self)@.len() && 0 <= b < after.len() && (
                    #[trigger] old(self)@[a]).instance.id == (
                    #[trigger] after[b]).instance.id implies old(self)@[a].generation
                    <= after[b].generation by {
                    let bb = if b < i {
                        b
                    } else {
                        b + 1
                    };
                    assert(after[b] == old(self)@[bb]);
                }
            }
            assert forall|a: int, b: int| 0 <= a < b < after.len() implies (
            #[trigger] after[a]).instance.id != (#[trigger] after[b]).instance.id by {
                let aa = if a < i {
                    a
                } else {
                    a + 1
                };
                let bb = if b < i {
                    b
                } else {
                    b + 1
                };
                assert(after[a] == old(self)@[aa]);
                assert(after[b] == old(self)@[bb]);
            }
            assert forall|j: int| 0 <= j < after.len() && all_settled(old(self)@) implies (
            #[trigger] after[j]).settled() by {
                let jj = if j < i {
                    j
                } else {
                    j + 1
                };
                assert(after[j] == old(self)@[jj]);
            }
        }
        Ok(())
    }

    /// Switches the auto-start of the instance `id`.
    pub fn patch_auto_start(&mut self, id: &str, update: InstanceAutoStartUpdate, now: String) -> (r:
        Result<Instance, ApiFailure>)
        requires
            old(self).wf(),
        ensures
            final(self).wf(),
            never_older(old(self)@, final(self)@),
            all_settled(old(self)@) ==> all_settled(final(self)@),
            match index_of(old(self)@, id@) {
                None => r matches Err(e) && e@ == not_found() && final(self)@ == old(self)@,
                Some(i) => {
                    &&& final(self)@ == old(self)@.update(
                        i,
                        DataView {
                            instance: InstanceView {
                                auto_start: update.auto_start,
                                ..old(self)@[i].instance
                            },
                            updated_at: Some(now@),
                            ..old(self)@[i]
                        },
                    )
                    &&& r matches Ok(instance) && instance@ == final(self)@[i].instance
                },
            },
    {
        let i: usize = match self.find(id) {
            Some(i) => i,
            None => {
                return Err(not_found_failure());
            },
        };
        self.instances[i].instance.auto_start = update.auto_start;
        self.instances[i].updated_at = Some(now);
        proof {
            assert(self@ =~= old(self)@.update(
                i as int,
                DataView {
                    instance: InstanceView {
                        auto_start: update.auto_start,
                        ..old(self)@[i as int].instance
                    },
                    updated_at: Some(now@),
                    ..old(self)@[i as int]
                },
            ));
        }
        Ok(self.instances[i].instance.clone())
    }
}

/// One of the two tasks of an endpoint.
#[derive(Debug, Clone, Copy, PartialEq, Eq, Structural)]
pub enum Transport {
    Tcp,
    Udp,
}

impl Transport {
    /// The transport's name.
    pub open spec fn label(self) -> Seq<char> {
        match self {
            Transport::Tcp => "tcp"@,
            Transport::Udp => "udp"@,
        }
    }

    /// The transport's name.
    pub fn name(&self) -> (r: &'static str)
        ensures
            r@ == self.label(),
    {
        match self {
            Transport::Tcp => "tcp",
            Transport::Udp => "udp",
        }
    }
}

/// The seconds that a task has to report that its socket is bound.
pub const READY_TIMEOUT_SECS: u64 = 3;

/// What came of waiting for a task to report that its socket is bound.
#[derive(Debug)]
pub enum ReadyOutcome {
    /// The socket is bound.
    Ready,
    /// The bind failed; this is why.
    BindFailed(String),
    /// The task ended without a report.
    Closed,
    /// No report came in time.
    TimedOut,
}

/// Why a start failed, by what came of waiting for a task: nothing where the
/// task is ready.
pub open spec fn ready_fault(transport: Transport, outcome: ReadyOutcome) -> Option<Seq<char>> {
    match outcome {
        ReadyOutcome::Ready => None,
        ReadyOutcome::BindFailed(why) => Some(transport.label() + " bind failed: "@ + why@),
        ReadyOutcome::Closed => Some(
            transport.label() + " startup failed (ready channel closed)"@,
        ),
        ReadyOutcome::TimedOut => Some(transport.label() + " startup timed out"@),
    }
}

/// Why a start failed, by what came of waiting for a task.
pub fn ready_failure(transport: Transport, outcome: &ReadyOutcome) -> (r: Option<String>)
    ensures
        opt_text(r) == ready_fault(transport, *outcome),
{
    let mut message = String::from_str(transport.name());
    match outcome {
        ReadyOutcome::Ready => {
            return None;
        },
        ReadyOutcome::BindFailed(why) => {
            message.append(" bind failed: ");
            message.append(why.as_str());
        },
        ReadyOutcome::Closed => {
            message.append(" startup failed (ready channel closed)");
        },
        ReadyOutcome::TimedOut => {
            message.append(" startup timed out");
        },
    }
    Some(message)
}

/// What a starter does after a step of a start.
pub enum StartStep {
    /// It goes on, holding these handles.
    GoOn { tcp: Option<AbortHandle>, udp: Option<AbortHandle> },
    /// It gives up: it cancels the tasks of these handles, which are all
    /// that it held, and returns the reason.
    GiveUp { cancel_tcp: Option<AbortHandle>, cancel_udp: Option<AbortHandle>, why: String },
}

/// What a starter that holds the handles `tcp` and `udp` does where a step
/// failed for the reason `fault`, or did not fail.
pub open spec fn start_step(
    fault: Option<Seq<char>>,
    step: StartStep,
    tcp: Option<AbortHandle>,
    udp: Option<AbortHandle>,
) -> bool {
    match fault {
        None => step == (StartStep::GoOn { tcp, udp }),
        Some(reason) => step matches StartStep::GiveUp { cancel_tcp, cancel_udp, why }
            && cancel_tcp == tcp && cancel_udp == udp && why@ == reason,
    }
}

/// What a starter that holds the handles `tcp` and `udp` does after it asked
/// to install `handle`, the handle of the task it spawned for `transport`.
/// Where the handle was installed the starter holds it too and goes on.
/// Where it was refused its task is cancelled already, and the starter
/// cancels what it held before and gives up for the same reason.
pub fn after_install(
    installed: Result<(), String>,
    transport: Transport,
    handle: AbortHandle,
    tcp: Option<AbortHandle>,
    udp: Option<AbortHandle>,
) -> (r: StartStep)
    ensures
        match installed {
            Ok(_) => r == match transport {
                Transport::Tcp => StartStep::GoOn { tcp: Some(handle), udp },
                Transport::Udp => StartStep::GoOn { tcp, udp: Some(handle) },
            },
            Err(reason) => start_step(Some(reason@), r, tcp, udp),
        },
{
    match installed {
        Ok(_) => match transport {
            Transport::Tcp => StartStep::GoOn { tcp: Some(handle), udp },
            Transport::Udp => StartStep::GoOn { tcp, udp: Some(handle) },
        },
        Err(why) => StartStep::GiveUp { cancel_tcp: tcp, cancel_udp: udp, why },
    }
}

/// What a starter that holds the handles `tcp` and `udp` does after it
/// waited for the task of `transport` to report that its socket is bound.
/// Where the task is ready the starter goes on with what it holds. Else it
/// cancels both tasks and gives up, for the reason that `ready_fault` gives.
pub fn after_ready(
    transport: Transport,
    outcome: &ReadyOutcome,
    tcp: Option<AbortHandle>,
    udp: Option<AbortHandle>,
) -> (r: StartStep)
    ensures
        start_step(ready_fault(transport, *outcome), r, tcp, udp),
{
    match ready_failure(transport, outcome) {
        None => StartStep::GoOn { tcp, udp },
        Some(why) => StartStep::GiveUp { cancel_tcp: tcp, cancel_udp: udp, why },
    }
}

/// How a task of an endpoint ended.
#[derive(Debug)]
pub enum TaskExit {
    /// It returned, which a relay should not.
    Finished,
    /// It returned an error.
    Failed(String),
    /// It was cancelled, by a lifecycle operation.
    Cancelled,
    /// It panicked.
    Panicked,
    /// It could not be joined.
    JoinFailed(String),
}

/// Why an instance has failed, by how its task ended: nothing where the
/// task was cancelled.
pub open spec fn exit_fault(transport: Transport, exit: TaskExit) -> Option<Seq<char>> {
    match exit {
        TaskExit::Finished => Some(transport.label() + " task exited"@),
        TaskExit::Failed(why) => Some(transport.label() + " task error: "@ + why@),
        TaskExit::Cancelled => None,
        TaskExit::Panicked => Some(transport.label() + " task panicked"@),
        TaskExit::JoinFailed(why) => Some(transport.label() + " task join error: "@ + why@),
    }
}

/// Why an instance has failed, by how its task ended.
pub fn exit_message(transport: Transport, exit: &TaskExit) -> (r: Option<String>)
    ensures
        opt_text(r) == exit_fault(transport, *exit),
{
    let mut message = String::from_str(transport.name());
    match exit {
        TaskExit::Finished => {
            message.append(" task exited");
        },
        TaskExit::Failed(why) => {
            message.append(" task error: ");
            message.append(why.as_str());
        },
        TaskExit::Cancelled => {
            return None;
        },
        TaskExit::Panicked => {
            message.append(" task panicked");
        },
        TaskExit::JoinFailed(why) => {
            message.append(" task join error: ");
            message.append(why.as_str());
        },
    }
    Some(message)
}

/// Why a starter may not go on under `generation`: the instance is gone, or
/// has moved on to another generation.
pub open spec fn stale(reg: Seq<DataView>, id: Seq<char>, generation: u64) -> Option<Seq<char>> {
    match index_of(reg, id) {
        None => Some("instance not found"@),
        Some(i) => if reg[i].generation != generation {
            Some("instance generation changed during start"@)
        } else {
            None
        },
    }
}

impl InstanceManager {
    /// Whether a starter may go on under `generation`.
    pub fn check_generation(&self, id: &str, generation: u64) -> (r: Result<(), String>)
        ensures
            match stale(self@, id@, generation) {
                Some(why) => r matches Err(e) && e@ == why,
                None => r is Ok,
            },
    {
        match self.find(id) {
            None => Err(String::from_str("instance not found")),
            Some(i) => if self.instances[i].generation != generation {
                Err(String::from_str("instance generation changed during start"))
            } else {
                Ok(())
            },
        }
    }

    /// Installs `handle`, the handle on a task that a starter has spawned
    /// under `generation`: it is the one the instance then holds for that
    /// transport. Where the instance is gone or has moved on, the task is
    /// cancelled instead, and the starter gives up.
    pub fn install_handle(
        &mut self,
        id: &str,
        generation: u64,
        transport: Transport,
        handle: AbortHandle,
    ) -> (r: Result<(), String>)
        requires
            old(self).wf(),
        ensures
            final(self).wf(),
            never_older(old(self)@, final(self)@),
            match stale(old(self)@, id@, generation) {
                Some(why) => r matches Err(e) && e@ == why && final(self)@ == old(self)@,
                None => r is Ok && final(self)@ == old(self)@.update(
                    index_of(old(self)@, id@).unwrap(),
                    match transport {
                        Transport::Tcp => DataView {
                            tcp: Some(handle),
                            ..old(self)@[index_of(old(self)@, id@).unwrap()]
                        },
                        Transport::Udp => DataView {
                            udp: Some(handle),
                            ..old(self)@[index_of(old(self)@, id@).unwrap()]
                        },
                    },
                ),
            },
    {
        let i: usize = match self.find(id) {
            Some(i) => i,
            None => {
                abort_task(&handle);
                return Err(String::from_str("instance not found"));
            },
        };
        if self.instances[i].generation != generation {
            abort_task(&handle);
            return Err(String::from_str("instance generation changed during start"));
        }
        match transport {
            Transport::Tcp => {
                self.instances[i].tcp_abort = Some(handle);
            },
            Transport::Udp => {
                self.instances[i].udp_abort = Some(handle);
            },
        }
        proof {
            let d = old(self)@[i as int];
            assert(self@ =~= old(self)@.update(
                i as int,
                match transport {
                    Transport::Tcp => DataView { tcp: Some(handle), ..d },
                    Transport::Udp => DataView { udp: Some(handle), ..d },
                },
            ));
        }
        Ok(())
    }

    /// Takes note that a task of the instance `id`, spawned under
    /// `generation`, has ended by itself. Where the instance is still of that
    /// generation, it has failed: the other task is cancelled, both handles
    /// are gone. Where it has moved on, or the task was cancelled, nothing
    /// happens. The result says whether anything changed, and so whether to
    /// persist.
    pub fn on_task_exit(
        &mut self,
        id: &str,
        generation: u64,
        transport: Transport,
        exit: &TaskExit,
        now: String,
    ) -> (changed: bool)
        requires
            old(self).wf(),
        ensures
            final(self).wf(),
            never_older(old(self)@, final(self)@),
            all_settled(old(self)@) ==> all_settled(final(self)@),
            changed == (exit_fault(transport, *exit) is Some && stale(old(self)@, id@, generation)
                is None),
            final(self)@ == if changed {
                old(self)@.update(
                    index_of(old(self)@, id@).unwrap(),
                    old(self)@[index_of(old(self)@, id@).unwrap()].crashed(
                        exit_fault(transport, *exit).unwrap(),
                        now@,
                    ),
                )
            } else {
                old(self)@
            },
    {
        let message: String = match exit_message(transport, exit) {
            Some(m) => m,
            None => {
                return false;
            },
        };
        let i: usize = match self.find(id) {
            Some(i) => i,
            None => {
                return false;
            },
        };
        if self.instances[i].generation != generation {
            return false;
        }
        abort_both(&mut self.instances[i]);
        self.instances[i].instance.status = InstanceStatus::Failed(message);
        self.instances[i].updated_at = Some(now);
        proof {
            assert(self@ =~= old(self)@.update(
                i as int,
                old(self)@[i as int].crashed(exit_fault(transport, *exit).unwrap(), now@),
            ));
        }
        true
    }
}

/// An instance in the configuration file, as plain values.
pub struct PersistedView {
    pub id: Seq<char>,
    pub config: ConfView,
    pub status: Seq<char>,
    pub auto_start: bool,
    pub created_at: Seq<char>,
    pub updated_at: Option<Seq<char>>,
}

impl View for PersistedInstance {
    type V = PersistedView;

    open spec fn view(&self) -> PersistedView {
        PersistedView {
            id: self.id@,
            config: self.config@,
            status: self.status@,
            auto_start: self.auto_start,
            created_at: self.created_at@,
            updated_at: opt_text(self.updated_at),
        }
    }
}

/// An instance as it is written to the configuration file.
pub open spec fn persisted(d: DataView) -> PersistedView {
    PersistedView {
        id: d.instance.id,
        config: d.instance.config,
        status: status_written(d.instance.status),
        auto_start: d.instance.auto_start,
        created_at: d.created_at,
        updated_at: d.updated_at,
    }
}

/// The instance that an entry of the configuration file restores.
pub open spec fn restored(p: PersistedView) -> DataView {
    DataView::restored(p.id, p.config, p.status, p.auto_start, p.created_at, p.updated_at)
}

/// The registry with `d` in it: in place of the instance of that id, or at
/// the end.
pub open spec fn with_instance(reg: Seq<DataView>, d: DataView) -> Seq<DataView> {
    match index_of(reg, d.instance.id) {
        Some(i) => reg.update(i, d),
        None => reg.push(d),
    }
}

/// The registry that a list of persisted instances restores. Where an id
/// stands twice, the later entry counts.
pub open spec fn restored_all(list: Seq<PersistedView>) -> Seq<DataView>
    decreases list.len(),
{
    if list.len() == 0 {
        Seq::empty()
    } else {
        with_instance(restored_all(list.drop_last()), restored(list.last()))
    }
}

/// The ids of the instances that are started with the process, in the
/// registry's order.
pub open spec fn auto_started(reg: Seq<DataView>) -> Seq<Seq<char>>
    decreases reg.len(),
{
    if reg.len() == 0 {
        Seq::empty()
    } else if reg.last().starts_with_process() {
        auto_started(reg.drop_last()).push(reg.last().instance.id)
    } else {
        auto_started(reg.drop_last())
    }
}

/// Putting an instance into a registry without doubles leaves no doubles.
pub proof fn lemma_with_instance_distinct(reg: Seq<DataView>, d: DataView)
    requires
        distinct(reg),
    ensures
        distinct(with_instance(reg, d)),
        index_of(with_instance(reg, d), d.instance.id) is Some,
{
    lemma_first_where(reg, has_id(d.instance.id));
    let after = with_instance(reg, d);
    match index_of(reg, d.instance.id) {
        Some(i) => {
            assert(has_id(d.instance.id)(after[i]));
            assert forall|j: int| 0 <= j < i implies !has_id(d.instance.id)(#[trigger] after[j]) by {
                assert(after[j] == reg[j]);
            }
            lemma_first_where_is(after, has_id(d.instance.id), i);
        },
        None => {
            assert forall|j: int| 0 <= j < reg.len() implies (#[trigger] after[j]).instance.id
                != d.instance.id by {
                assert(!has_id(d.instance.id)(reg[j]));
            }
            assert(has_id(d.instance.id)(after[reg.len() as int]));
            lemma_first_where(after, has_id(d.instance.id));
        },
    }
}

impl InstanceManager {
    /// The instances as they are written to the configuration file: one
    /// entry for each, with its timestamps as they are.
    pub fn snapshot(&self) -> (r: Vec<PersistedInstance>)
        ensures
            r@.len() == self@.len(),
            forall|i: int| 0 <= i < r@.len() ==> (#[trigger] r@[i])@ == persisted(self@[i]),
    {
        let mut out: Vec<PersistedInstance> = Vec::new();
        let mut i: usize = 0;
        while i < self.instances.len()
            invariant
                i <= self.instances@.len(),
                out@.len() == i,
                forall|k: int| 0 <= k < i ==> (#[trigger] out@[k])@ == persisted(self@[k]),
            decreases self.instances@.len() - i,
        {
            let data = &self.instances[i];
            out.push(
                PersistedInstance {
                    id: data.instance.id.clone(),
                    config: data.instance.config.clone(),
                    status: persisted_status(&data.instance.status),
                    auto_start: data.instance.auto_start,
                    created_at: data.created_at.clone(),
                    updated_at: clone_opt(&data.updated_at),
                },
            );
            i += 1;
        }
        out
    }

    /// The registry that the instances of the configuration file restore:
    /// none runs; a failure is kept with its reason, everything else is
    /// stopped.
    pub fn restore(list: Vec<PersistedInstance>) -> (r: Self)
        ensures
            r.wf(),
            all_settled(r@),
            r@ == restored_all(Seq::new(list@.len(), |i: int| list@[i]@)),
    {
        let ghost views = Seq::new(list@.len(), |i: int| list@[i]@);
        let mut m = InstanceManager::new();
        let mut list = list;
        let mut done: usize = 0;
        let total: usize = list.len();
        proof {
            assert(views.take(0) =~= Seq::<PersistedView>::empty());
            assert(m@ =~= Seq::<DataView>::empty());
        }
        while list.len() > 0
            invariant
                done + list@.len() == total,
                total == views.len(),
                forall|k: int| 0 <= k < list@.len() ==> (#[trigger] list@[k])@ == views[done + k],
                m.wf(),
                all_settled(m@),
                m@ == restored_all(views.take(done as int)),
            decreases list@.len(),
        {
            let p = list.remove(0);
            let ghost before = m@;
            let ghost d = restored(p@);
            proof {
                assert(views.take(done + 1).drop_last() =~= views.take(done as int));
                assert(views.take(done + 1).last() == p@);
                lemma_with_instance_distinct(before, d);
            }
            let data = InstanceData {
                instance: Instance {
                    id: p.id,
                    config: p.config,
                    status: restored_status(p.status.as_str()),
                    auto_start: p.auto_start,
                },
                tcp_abort: None,
                udp_abort: None,
                generation: 0,
                created_at: p.created_at,
                updated_at: p.updated_at,
                stats: InstanceStats::new(),
            };
            match m.find(data.instance.id.as_str()) {
                Some(i) => {
                    m.instances.set(i, data);
                    proof {
                        assert(m@ =~= before.update(i as int, d));
                    }
                },
                None => {
                    m.instances.push(data);
                    proof {
                        assert(m@ =~= before.push(d));
                    }
                },
            }
            done += 1;
        }
        proof {
            assert(views.take(done as int) =~= views);
        }
        m
    }

    /// The ids of the instances that are started with the process: those
    /// with auto-start on that have not failed.
    pub fn auto_start_ids(&self) -> (r: Vec<String>)
        ensures
            crate::conf::texts(r@) == auto_started(self@),
    {
        let mut out: Vec<String> = Vec::new();
        let mut i: usize = 0;
        proof {
            assert(self@.take(0) =~= Seq::<DataView>::empty());
            assert(crate::conf::texts(out@) =~= auto_started(self@.take(0)));
        }
        while i < self.instances.len()
            invariant
                i <= self.instances@.len(),
                crate::conf::texts(out@) == auto_started(self@.take(i as int)),
            decreases self.instances@.len() - i,
        {
            proof {
                assert(self@.take(i + 1).drop_last() =~= self@.take(i as int));
                assert(self@.take(i + 1).last() == self@[i as int]);
            }
            let failed: bool = match self.instances[i].instance.status {
                InstanceStatus::Failed(_) => true,
                _ => false,
            };
            if self.instances[i].instance.auto_start && !failed {
                let ghost before = crate::conf::texts(out@);
                out.push(self.instances[i].instance.id.clone());
                proof {
                    assert(crate::conf::texts(out@) =~= before.push(self@[i as int].instance.id));
                }
            }
            i += 1;
        }
        proof {
            assert(self@.take(i as int) =~= self@);
        }
        out
    }
}

/// What a request to create an instance is admitted with.
#[derive(Debug)]
pub struct Admitted {
    /// The id of the instance: the one that the request names, or a random
    /// one.
    pub id: String,
    /// The configuration, with what it does not set taken from the global
    /// network defaults.
    pub config: EndpointConf,
    /// The endpoint that the configuration builds.
    pub info: EndpointInfo,
}

/// The id that a request names, under either name.
pub open spec fn named_id(id: Option<String>, external_id: Option<String>) -> Option<Seq<char>> {
    match id {
        Some(x) => Some(x@),
        None => opt_text(external_id),
    }
}

/// `config` with what its network does not set taken from `global`.
pub open spec fn inherited(config: EndpointConf, global: Option<&NetConf>) -> NetConf {
    match global {
        Some(g) => config.network.inheriting(*g),
        None => config.network,
    }
}

/// Why a request to create an instance is turned down, if it is: the two
/// names of the id disagree; the configuration builds no endpoint; or the id
/// is unusable.
pub open spec fn create_fault(
    req: CreateInstanceRequest,
    global: Option<&NetConf>,
    resolved: Resolved,
) -> Option<FailureView> {
    let config = EndpointConf { network: inherited(req.config, global), ..req.config };
    if req.id is Some && req.external_id is Some && req.id.unwrap()@ != req.external_id.unwrap()@ {
        Some(invalid_id("id and external_id must match when both are provided"@))
    } else if let Some(e) = config.build_failure(resolved) {
        Some(invalid_config(e.text()))
    } else if let Some(id) = named_id(req.id, req.external_id) {
        match id_fault(id) {
            Some(why) => Some(invalid_id(why)),
            None => None,
        }
    } else {
        None
    }
}

/// Checks a request to create an instance, and builds its endpoint. A
/// request that names no id gets a random one.
pub fn create_checked(req: CreateInstanceRequest, global: Option<&NetConf>, resolved: &Resolved)
    -> (r: Result<Admitted, ApiFailure>)
    ensures
        match create_fault(req, global, *resolved) {
            Some(f) => r matches Err(e) && e@ == f,
            None => r matches Ok(a) && {
                &&& named_id(req.id, req.external_id) matches Some(id) ==> a.id@ == id
                &&& a.config@ == (ConfView {
                    network: inherited(req.config, global),
                    ..req.config@
                })
                &&& (EndpointConf {
                    network: inherited(req.config, global),
                    ..req.config
                }).builds(*resolved, a.info)
            },
        },
{
    let CreateInstanceRequest { id, external_id, config } = req;
    let differ: bool = match (&id, &external_id) {
        (Some(a), Some(b)) => !str_eq(a.as_str(), b.as_str()),
        _ => false,
    };
    if differ {
        return Err(
            failure(
                BAD_REQUEST,
                "invalid_id",
                "id and external_id must match when both are provided",
            ),
        );
    }
    let mut config = config;
    match global {
        Some(g) => {
            config.network.take_field(g);
        },
        None => {},
    }
    let ghost wanted = EndpointConf { network: inherited(req.config, global), ..req.config };
    let copy = config.clone();
    proof {
        assert(copy.build_failure(*resolved) == wanted.build_failure(*resolved));
    }
    let info: EndpointInfo = match copy.try_build(resolved) {
        Ok(info) => info,
        Err(e) => {
            return Err(failure(BAD_REQUEST, "invalid_config", e.to_text().as_str()));
        },
    };
    let named: Option<String> = match id {
        Some(x) => Some(x),
        None => external_id,
    };
    let id: String = match named {
        Some(x) => {
            match validate_instance_id(x.as_str()) {
                Ok(()) => {},
                Err(why) => {
                    return Err(failure(BAD_REQUEST, "invalid_id", why.as_str()));
                },
            }
            x
        },
        None => random_id(),
    };
    Ok(Admitted { id, config, info })
}

/// Why a request to update an instance is turned down before the registry
/// is looked at, if it is: its configuration builds no endpoint.
pub open spec fn update_fault(config: EndpointConf, global: Option<&NetConf>, resolved: Resolved)
    -> Option<FailureView> {
    match (EndpointConf { network: inherited(config, global), ..config }).build_failure(resolved) {
        Some(e) => Some(invalid_config(e.text())),
        None => None,
    }
}

/// Checks the configuration of a request to update an instance, and builds
/// its endpoint.
pub fn update_checked(config: EndpointConf, global: Option<&NetConf>, resolved: &Resolved) -> (r:
    Result<(EndpointConf, EndpointInfo), ApiFailure>)
    ensures
        match update_fault(config, global, *resolved) {
            Some(f) => r matches Err(e) && e@ == f,
            None => r matches Ok(a) && {
                &&& a.0@ == (ConfView { network: inherited(config, global), ..config@ })
                &&& (EndpointConf { network: inherited(config, global), ..config }).builds(
                    *resolved,
                    a.1,
                )
            },
        },
{
    let ghost wanted = EndpointConf { network: inherited(config, global), ..config };
    let mut config = config;
    match global {
        Some(g) => {
            config.network.take_field(g);
        },
        None => {},
    }
    let copy = config.clone();
    proof {
        assert(copy.build_failure(*resolved) == wanted.build_failure(*resolved));
    }
    match copy.try_build(resolved) {
        Ok(info) => Ok((config, info)),
        Err(e) => Err(failure(BAD_REQUEST, "invalid_config", e.to_text().as_str())),
    }
}

/// The text of what a configuration's build gave, for the first half of a
/// start: the error in words, or nothing.
pub fn build_error_text(built: &Result<EndpointInfo, crate::conf::EndpointBuildError>) -> (r: Option<
    String,
>)
    ensures
        opt_text(r) == match built {
            Ok(_) => None,
            Err(e) => Some(e@.text()),
        },
{
    match built {
        Ok(_) => None,
        Err(e) => Some(e.to_text()),
    }
}

/// No lifecycle step lowers a generation, and every step but the
/// installation of a handle leaves the instance with handles only while it
/// runs.
pub proof fn lemma_lifecycle_steps(
    d: DataView,
    config: ConfView,
    build_error: Option<Seq<char>>,
    outcome: StartView,
    why: Seq<char>,
    now: Seq<char>,
)
    ensures
        d.generation <= d.halted(now).generation,
        d.generation <= d.reconfigured(config, now).generation,
        d.generation <= d.prepared(build_error, now).generation,
        d.generation == d.stopped(now).generation,
        d.generation == d.started(outcome, now).generation,
        d.generation == d.crashed(why, now).generation,
        d.halted(now).settled(),
        d.reconfigured(config, now).settled(),
        d.prepared(build_error, now).settled(),
        d.stopped(now).settled(),
        d.settled() ==> d.started(outcome, now).settled(),
        d.crashed(why, now).settled(),
{
}

/// An instance that was stopped is stopped already: a second request to
/// stop it is a conflict.
pub proof fn lemma_stop_twice_conflicts(d: DataView, now: Seq<char>)
    ensures
        d.stopped(now).already_stopped(),
{
}

/// An instance whose start gave a handle runs already: a second request to
/// start it is a conflict.
pub proof fn lemma_start_twice_conflicts(
    d: DataView,
    tcp: Option<AbortHandle>,
    udp: Option<AbortHandle>,
    now: Seq<char>,
)
    requires
        tcp is Some || udp is Some,
    ensures
        d.prepared(None, now).started(StartView::Started { tcp, udp }, now).already_running(),
{
}

/// A restart whose configuration builds and whose start succeeds leaves the
/// instance running one generation on, holding exactly the handles that the
/// start gave, with nothing left of the earlier run and with its id, its
/// configuration, its auto-start flag and its creation time as they were. An
/// update does the same under the new configuration.
pub proof fn lemma_restart_installs(
    d: DataView,
    config: ConfView,
    tcp: Option<AbortHandle>,
    udp: Option<AbortHandle>,
    now: Seq<char>,
)
    ensures
        ({
            let after = d.prepared(None, now).started(StartView::Started { tcp, udp }, now);
            &&& after.instance == (InstanceView {
                status: StatusView::Running,
                ..d.instance
            })
            &&& after.tcp == tcp
            &&& after.udp == udp
            &&& after.generation == capped_sum(d.generation, 1)
            &&& after.stats == d.stats.cleared()
            &&& after.created_at == d.created_at
            &&& after.updated_at == Some(now)
        }),
        ({
            let after = d.reconfigured(config, now).started(
                StartView::Started { tcp, udp },
                now,
            );
            &&& after.instance == (InstanceView {
                status: StatusView::Running,
                config,
                ..d.instance
            })
            &&& after.tcp == tcp
            &&& after.udp == udp
            &&& after.generation == capped_sum(d.generation, 1)
            &&& after.stats == d.stats.cleared()
            &&& after.created_at == d.created_at
            &&& after.updated_at == Some(now)
        }),
{
}

/// A restored instance that had failed is not started with the process, and
/// is failed still; any other is stopped.
pub proof fn lemma_restored_failure_is_kept(p: PersistedView)
    ensures
        status_restored(p.status) is Failed ==> !restored(p).starts_with_process(),
        !(restored(p).instance.status is Running),
        restored(p).settled(),
        restored(p).created_at == p.created_at,
        restored(p).updated_at == p.updated_at,
{
}

/// What is written of an instance and restored is the instance, stopped or
/// failed as it was, with its timestamps.
pub proof fn lemma_persist_then_restore(d: DataView)
    ensures
        restored(persisted(d)).instance.id == d.instance.id,
        restored(persisted(d)).instance.config == d.instance.config,
        restored(persisted(d)).instance.auto_start == d.instance.auto_start,
        restored(persisted(d)).created_at == d.created_at,
        restored(persisted(d)).updated_at == d.updated_at,
        restored(persisted(d)).instance.status == match d.instance.status {
            StatusView::Failed(why) => StatusView::Failed(why),
            _ => StatusView::Stopped,
        },
{
    crate::instance::lemma_status_round_trip(d.instance.status);
}

} // verus!
