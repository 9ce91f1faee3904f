use vstd::prelude::*;

use crate::admin::{
    create_request, delete_request, follows, list_request, list_result, no_watch_version,
    request_result, ApiError, CommonCreateRequest, ConfigError, ConnectEvent, ConnectStep,
    Connecting, DeleteRequest, FluvioAdmin, FluvioConfig, FluvioError, IoError, ListRequest,
    SocketError, WatchApi,
};
use crate::connector::{CliError, DeleteManagedConnectorOpt};

verus! {

/// The step that the event belongs to was a success.
pub open spec fn went_well<T>(event: ConnectEvent<T>) -> bool {
    match event {
        ConnectEvent::ConfigLoaded(loaded) => loaded is Ok,
        ConnectEvent::ClusterFound(found) => found is Ok,
        ConnectEvent::ConnectorBuilt(built) => built is Ok,
        ConnectEvent::ConnectionOpened(opened) => opened is Ok,
        ConnectEvent::VersionLookedUp(version) => version is Some,
        ConnectEvent::MetadataStarted(started) => started is Ok,
    }
}

/// Once connecting has ended, nothing that happens changes how it ended.
pub proof fn the_end_is_final<T>(
    watch: WatchApi,
    step: ConnectStep<T>,
    event: ConnectEvent<T>,
    next: ConnectStep<T>,
)
    requires
        follows(watch, step, event, next),
        step is Connected || step is Failed,
    ensures
        next == step,
{
}

/// Each step is taken only when the step before it went well: nothing is skipped.
pub proof fn no_step_is_skipped<T>(
    watch: WatchApi,
    step: ConnectStep<T>,
    event: ConnectEvent<T>,
    next: ConnectStep<T>,
)
    requires
        follows(watch, step, event, next),
        next != step,
    ensures
        next !is LoadConfig,
        next is Failed <==> !went_well(event),
        next is FindCluster ==> step is LoadConfig && event is ConfigLoaded,
        next matches ConnectStep::BuildConnector(config) ==> step is FindCluster && event
            == ConnectEvent::ClusterFound(Ok(config)),
        next is OpenConnection ==> step is BuildConnector && event is ConnectorBuilt,
        next is LookUpVersion ==> step is OpenConnection && event is ConnectionOpened,
        next matches ConnectStep::StartMetadata { watch_version } ==> step is LookUpVersion && event
            == ConnectEvent::<T>::VersionLookedUp(Some(watch_version)),
        next is Connected ==> step is StartMetadata && event is MetadataStarted,
{
}

/// A cluster without a version to watch objects with is given up with words that say so.
pub proof fn missing_watch_version_is_reported<T>(watch: WatchApi, next: ConnectStep<T>)
    requires
        follows(
            watch,
            ConnectStep::LookUpVersion(watch),
            ConnectEvent::VersionLookedUp(None),
            next,
        ),
    ensures
        next matches ConnectStep::Failed(FluvioError::Other(words)) && words@ == no_watch_version(),
{
}

/// With a configuration at hand an administrator is connected by four steps that go well: the
/// connection is opened to the endpoint of the configuration, and the metadata stores are
/// started with the version that was found.
pub proof fn steps_that_go_well_connect<T>(
    watch: WatchApi,
    config: FluvioConfig<T>,
    watch_version: i16,
    open: ConnectStep<T>,
    look_up: ConnectStep<T>,
    start: ConnectStep<T>,
    end: ConnectStep<T>,
)
    requires
        follows(
            watch,
            ConnectStep::BuildConnector(config),
            ConnectEvent::ConnectorBuilt(Ok(())),
            open,
        ),
        follows(watch, open, ConnectEvent::ConnectionOpened(Ok(())), look_up),
        follows(watch, look_up, ConnectEvent::VersionLookedUp(Some(watch_version)), start),
        follows(watch, start, ConnectEvent::MetadataStarted(Ok(())), end),
    ensures
        open == (ConnectStep::<T>::OpenConnection {
            endpoint: config.endpoint,
            use_spu_local_address: config.use_spu_local_address,
        }),
        look_up == ConnectStep::<T>::LookUpVersion(watch),
        start == (ConnectStep::<T>::StartMetadata { watch_version }),
        end is Connected,
{
}

/// `steps` are the steps that `events` lead through.
pub open spec fn is_run<T>(
    watch: WatchApi,
    steps: Seq<ConnectStep<T>>,
    events: Seq<ConnectEvent<T>>,
) -> bool {
    &&& steps.len() == events.len() + 1
    &&& forall|i: int|
        0 <= i < events.len() ==> follows(watch, steps[i], #[trigger] events[i], steps[i + 1])
}

/// The place of a step in the order of the steps.
spec fn rank<T>(step: ConnectStep<T>) -> nat {
    match step {
        ConnectStep::LoadConfig => 0,
        ConnectStep::FindCluster => 1,
        ConnectStep::BuildConnector(_) => 2,
        ConnectStep::OpenConnection { .. } => 3,
        ConnectStep::LookUpVersion(_) => 4,
        ConnectStep::StartMetadata { .. } => 5,
        ConnectStep::Connected => 6,
        ConnectStep::Failed(_) => 7,
    }
}

proof fn lemma_entry<T>(
    watch: WatchApi,
    steps: Seq<ConnectStep<T>>,
    events: Seq<ConnectEvent<T>>,
    at: int,
) -> (entry: int)
    requires
        is_run(watch, steps, events),
        0 <= at < steps.len(),
        rank(steps[0]) < rank(steps[at]) <= 6,
    ensures
        0 <= entry < at,
        rank(steps[entry]) + 1 == rank(steps[at]),
        steps[entry + 1] == steps[at],
    decreases at,
{
    assert(follows(watch, steps[at - 1], events[at - 1], steps[at]));
    if steps[at - 1] == steps[at] {
        lemma_entry(watch, steps, events, at - 1)
    } else {
        at - 1
    }
}

proof fn lemma_no_step_back<T>(
    watch: WatchApi,
    steps: Seq<ConnectStep<T>>,
    events: Seq<ConnectEvent<T>>,
    at: int,
)
    requires
        is_run(watch, steps, events),
        0 <= at < steps.len(),
    ensures
        rank(steps[0]) <= rank(steps[at]),
        rank(steps[0]) == rank(steps[at]) ==> steps[0] == steps[at],
    decreases at,
{
    if at > 0 {
        assert(follows(watch, steps[at - 1], events[at - 1], steps[at]));
        lemma_no_step_back(watch, steps, events, at - 1);
    }
}

/// In the run the connector was made for `config`, the connection was opened to the endpoint of
/// `config`, the version to watch objects with was looked up and found, and the metadata stores
/// were started with that version. These steps went well at the places given, in this order.
pub open spec fn connected_with<T>(
    watch: WatchApi,
    steps: Seq<ConnectStep<T>>,
    events: Seq<ConnectEvent<T>>,
    config: FluvioConfig<T>,
    built: int,
    opened: int,
    found: int,
    started: int,
) -> bool {
    &&& 0 <= built < opened < found < started < events.len()
    &&& steps[built] == ConnectStep::BuildConnector(config)
    &&& events[built] is ConnectorBuilt && went_well(events[built])
    &&& steps[opened] == (ConnectStep::<T>::OpenConnection {
        endpoint: config.endpoint,
        use_spu_local_address: config.use_spu_local_address,
    })
    &&& events[opened] is ConnectionOpened && went_well(events[opened])
    &&& steps[found] == ConnectStep::<T>::LookUpVersion(watch)
    &&& steps[started] is StartMetadata
    &&& events[found] == ConnectEvent::<T>::VersionLookedUp(Some(steps[started]->watch_version))
    &&& events[started] is MetadataStarted && went_well(events[started])
}

proof fn lemma_connected_with<T>(
    watch: WatchApi,
    steps: Seq<ConnectStep<T>>,
    events: Seq<ConnectEvent<T>>,
) -> (places: (FluvioConfig<T>, int, int, int, int))
    requires
        is_run(watch, steps, events),
        rank(steps[0]) <= 2,
        steps.last() is Connected,
    ensures
        connected_with(watch, steps, events, places.0, places.1, places.2, places.3, places.4),
{
    let started = lemma_entry(watch, steps, events, steps.len() - 1);
    let found = lemma_entry(watch, steps, events, started);
    let opened = lemma_entry(watch, steps, events, found);
    let built = lemma_entry(watch, steps, events, opened);
    assert(follows(watch, steps[started], events[started], steps[started + 1]));
    assert(follows(watch, steps[found], events[found], steps[found + 1]));
    assert(follows(watch, steps[opened], events[opened], steps[opened + 1]));
    assert(follows(watch, steps[built], events[built], steps[built + 1]));
    (steps[built]->BuildConnector_0, built, opened, found, started)
}

/// A run that starts with a configuration at hand and ends connected took every step, with that
/// configuration.
pub proof fn connected_run_used_the_configuration<T>(
    watch: WatchApi,
    config: FluvioConfig<T>,
    steps: Seq<ConnectStep<T>>,
    events: Seq<ConnectEvent<T>>,
)
    requires
        is_run(watch, steps, events),
        steps[0] == ConnectStep::BuildConnector(config),
        steps.last() is Connected,
    ensures
        exists|built: int, opened: int, found: int, started: int|
            connected_with(watch, steps, events, config, built, opened, found, started),
{
    let (_, built, opened, found, started) = lemma_connected_with(watch, steps, events);
    lemma_no_step_back(watch, steps, events, built);
    assert(connected_with(watch, steps, events, config, built, opened, found, started));
}

/// A run that starts at the beginning and ends connected loaded the configuration, found the
/// current cluster in it and then took every step with what was found: it is that cluster whose
/// endpoint the connection was opened to.
pub proof fn connected_run_reached_the_current_cluster<T>(
    watch: WatchApi,
    steps: Seq<ConnectStep<T>>,
    events: Seq<ConnectEvent<T>>,
)
    requires
        is_run(watch, steps, events),
        steps[0] is LoadConfig,
        steps.last() is Connected,
    ensures
        exists|
            config: FluvioConfig<T>,
            loaded: int,
            chosen: int,
            built: int,
            opened: int,
            found: int,
            started: int,
        |
            #![trigger events[loaded], events[chosen], connected_with(
                watch, steps, events, config, built, opened, found, started)]
            {
                &&& 0 <= loaded < chosen < built
                &&& steps[loaded] is LoadConfig
                &&& events[loaded] is ConfigLoaded && went_well(events[loaded])
                &&& steps[chosen] is FindCluster
                &&& events[chosen] == ConnectEvent::ClusterFound(Ok(config))
                &&& connected_with(watch, steps, events, config, built, opened, found, started)
            },
{
    let (config, built, opened, found, started) = lemma_connected_with(watch, steps, events);
    let chosen = lemma_entry(watch, steps, events, built);
    let loaded = lemma_entry(watch, steps, events, chosen);
    assert(follows(watch, steps[chosen], events[chosen], steps[chosen + 1]));
    assert(follows(watch, steps[loaded], events[loaded], steps[loaded + 1]));
}

/// The error says what the event, which is that of a step that failed, came with.
pub open spec fn reports<T>(event: ConnectEvent<T>, error: FluvioError) -> bool {
    match event {
        ConnectEvent::ConfigLoaded(Err(cause)) => error == FluvioError::ClientConfig(cause),
        ConnectEvent::ClusterFound(Err(cause)) => error == FluvioError::ClientConfig(cause),
        ConnectEvent::ConnectorBuilt(Err(cause)) => error == FluvioError::Io(cause),
        ConnectEvent::ConnectionOpened(Err(cause)) => error == FluvioError::Socket(cause),
        ConnectEvent::VersionLookedUp(None) => error matches FluvioError::Other(words) && words@
            == "WatchApi versio not found"@,
        ConnectEvent::MetadataStarted(Err(cause)) => error == FluvioError::Socket(cause),
        _ => false,
    }
}

/// A run that ends in failure went wrong at one step, and ends with the report of that step.
pub proof fn failed_run_reports_what_failed<T>(
    watch: WatchApi,
    steps: Seq<ConnectStep<T>>,
    events: Seq<ConnectEvent<T>>,
)
    requires
        is_run(watch, steps, events),
        steps[0] !is Failed,
        steps.last() is Failed,
    ensures
        exists|failed: int|
            #![trigger events[failed]]
            {
                &&& 0 <= failed < events.len()
                &&& steps[failed] !is Failed
                &&& steps[failed + 1] == steps.last()
                &&& reports(events[failed], steps.last()->Failed_0)
            },
    decreases events.len(),
{
    let last = events.len() - 1;
    assert(follows(watch, steps[last], events[last], steps[last + 1]));
    if steps[last] is Failed {
        let before = steps.drop_last();
        let earlier = events.drop_last();
        assert forall|i: int| 0 <= i < earlier.len() implies follows(
            watch,
            before[i],
            #[trigger] earlier[i],
            before[i + 1],
        ) by {
            assert(follows(watch, steps[i], events[i], steps[i + 1]));
        }
        failed_run_reports_what_failed(watch, before, earlier);
        let failed = choose|failed: int|
            #![trigger earlier[failed]]
            {
                &&& 0 <= failed < earlier.len()
                &&& before[failed] !is Failed
                &&& before[failed + 1] == before.last()
                &&& reports(earlier[failed], before.last()->Failed_0)
            };
        assert(events[failed] == earlier[failed]);
    }
}

/// The event is one that can come of the step.
pub open spec fn belongs<T>(step: ConnectStep<T>, event: ConnectEvent<T>) -> bool {
    match event {
        ConnectEvent::ConfigLoaded(_) => step is LoadConfig,
        ConnectEvent::ClusterFound(_) => step is FindCluster,
        ConnectEvent::ConnectorBuilt(_) => step is BuildConnector,
        ConnectEvent::ConnectionOpened(_) => step is OpenConnection,
        ConnectEvent::VersionLookedUp(_) => step is LookUpVersion,
        ConnectEvent::MetadataStarted(_) => step is StartMetadata,
    }
}

/// Connecting starts with the configuration, or where one is given, with the connector for it.
pub proof fn connecting_starts<T>(
    watch: WatchApi,
    config: FluvioConfig<T>,
    from_profile: Connecting<T>,
    from_config: Connecting<T>,
)
    requires
        call_ensures(Connecting::<T>::connect, (watch,), from_profile),
        call_ensures(Connecting::<T>::connect_with_config, (watch, config), from_config),
    ensures
        from_profile.watch == watch,
        from_profile.step is LoadConfig,
        from_config.watch == watch,
        from_config.step == ConnectStep::BuildConnector(config),
{
}

/// An event that belongs to the step always changes it: to a failure that reports the event where
/// the step did not go well, and otherwise to another step. An event of another step changes
/// nothing.
pub proof fn every_event_of_the_step_counts<T>(
    before: Connecting<T>,
    event: ConnectEvent<T>,
    after: Connecting<T>,
)
    requires
        call_ensures(Connecting::<T>::next, (before, event), after),
    ensures
        after.watch == before.watch,
        !belongs(before.step, event) ==> after.step == before.step,
        belongs(before.step, event) ==> after.step != before.step,
        belongs(before.step, event) && went_well(event) ==> after.step !is Failed,
        belongs(before.step, event) && !went_well(event) ==> (after.step matches ConnectStep::Failed(
            error,
        ) && reports(event, error)),
{
}

/// Each step that goes well leads to the one behind it, with what the step was given and what came
/// of it.
pub proof fn each_step_leads_to_the_next<T>(
    before: Connecting<T>,
    event: ConnectEvent<T>,
    after: Connecting<T>,
)
    requires
        call_ensures(Connecting::<T>::next, (before, event), after),
        belongs(before.step, event),
        went_well(event),
    ensures
        before.step is LoadConfig ==> after.step is FindCluster,
        event matches ConnectEvent::ClusterFound(Ok(config)) ==> after.step
            == ConnectStep::BuildConnector(config),
        before.step matches ConnectStep::BuildConnector(config) ==> {
            &&& after.step is OpenConnection
            &&& after.step->endpoint == config.endpoint
            &&& after.step->use_spu_local_address == config.use_spu_local_address
        },
        before.step is OpenConnection ==> after.step == ConnectStep::<T>::LookUpVersion(
            before.watch,
        ),
        event matches ConnectEvent::VersionLookedUp(Some(version)) ==> after.step is StartMetadata
            && after.step->watch_version == version,
        before.step is StartMetadata ==> after.step is Connected,
{
}

/// Six events that go well connect an administrator from the beginning, whatever configuration
/// and whatever version are found. The connector is made for that configuration, the connection is
/// opened to its endpoint, the version is looked up for the request to watch, and the metadata
/// stores are started with the version found.
pub proof fn events_that_go_well_connect<T>(
    watch: WatchApi,
    config: FluvioConfig<T>,
    version: i16,
    start: Connecting<T>,
    loaded: Connecting<T>,
    found: Connecting<T>,
    built: Connecting<T>,
    opened: Connecting<T>,
    known: Connecting<T>,
    end: Connecting<T>,
)
    requires
        call_ensures(Connecting::<T>::connect, (watch,), start),
        call_ensures(
            Connecting::<T>::next,
            (start, ConnectEvent::ConfigLoaded(Ok(()))),
            loaded,
        ),
        call_ensures(
            Connecting::<T>::next,
            (loaded, ConnectEvent::ClusterFound(Ok(config))),
            found,
        ),
        call_ensures(
            Connecting::<T>::next,
            (found, ConnectEvent::ConnectorBuilt(Ok(()))),
            built,
        ),
        call_ensures(
            Connecting::<T>::next,
            (built, ConnectEvent::ConnectionOpened(Ok(()))),
            opened,
        ),
        call_ensures(
            Connecting::<T>::next,
            (opened, ConnectEvent::VersionLookedUp(Some(version))),
            known,
        ),
        call_ensures(
            Connecting::<T>::next,
            (known, ConnectEvent::MetadataStarted(Ok(()))),
            end,
        ),
    ensures
        start.step is LoadConfig,
        loaded.step is FindCluster,
        found.step == ConnectStep::BuildConnector(config),
        built.step is OpenConnection,
        built.step->endpoint == config.endpoint,
        built.step->use_spu_local_address == config.use_spu_local_address,
        opened.step == ConnectStep::<T>::LookUpVersion(watch),
        known.step is StartMetadata,
        known.step->watch_version == version,
        end.step is Connected,
{
}

/// Connecting from the profile comes, once the cluster is found, to connecting with the
/// configuration that was found.
pub proof fn connecting_goes_on_with_what_was_found<T>(
    watch: WatchApi,
    config: FluvioConfig<T>,
    start: Connecting<T>,
    loaded: Connecting<T>,
    found: Connecting<T>,
    given: Connecting<T>,
)
    requires
        call_ensures(Connecting::<T>::connect, (watch,), start),
        call_ensures(
            Connecting::<T>::next,
            (start, ConnectEvent::ConfigLoaded(Ok(()))),
            loaded,
        ),
        call_ensures(
            Connecting::<T>::next,
            (loaded, ConnectEvent::ClusterFound(Ok(config))),
            found,
        ),
        call_ensures(Connecting::<T>::connect_with_config, (watch, config), given),
    ensures
        found == given,
{
}

/// Each kind of failure becomes the error that carries it.
pub proof fn failures_become_errors(
    io: IoError,
    socket: SocketError,
    api: ApiError,
    config: ConfigError,
    from_io: FluvioError,
    from_socket: FluvioError,
    from_api: FluvioError,
    from_config: FluvioError,
)
    requires
        call_ensures(<FluvioError as From<IoError>>::from, (io,), from_io),
        call_ensures(<FluvioError as From<SocketError>>::from, (socket,), from_socket),
        call_ensures(<FluvioError as From<ApiError>>::from, (api,), from_api),
        call_ensures(<FluvioError as From<ConfigError>>::from, (config,), from_config),
    ensures
        from_io == FluvioError::Io(io),
        from_socket == FluvioError::Socket(socket),
        from_api == FluvioError::AdminApi(api),
        from_config == FluvioError::ClientConfig(config),
{
}

/// An administrator holds the connection and the metadata stores that it is made of.
pub proof fn administrator_holds_its_parts<S, M>(socket: S, metadata: M, admin: FluvioAdmin<S, M>)
    requires
        call_ensures(FluvioAdmin::<S, M>::new, (socket, metadata), admin),
    ensures
        admin.socket == socket,
        admin.metadata == metadata,
{
}

/// A request to create an object is made of its name, of whether it is only tried, and of what is
/// to be created, as they were given.
pub proof fn create_request_carries_what_was_asked<Spec, Request>(
    name: String,
    dry_run: bool,
    spec: Spec,
    request: Request,
) where Request: From<(CommonCreateRequest, Spec)>
    requires
        call_ensures(create_request::<Spec, Request>, (name, dry_run, spec), request),
    ensures
        exists|common: CommonCreateRequest|
            {
                &&& common.name == name
                &&& common.dry_run == dry_run
                &&& #[trigger] call_ensures(Request::from, ((common, spec),), request)
            },
{
    let common = CommonCreateRequest { name, dry_run };
    assert(call_ensures(Request::from, ((common, spec),), request));
}

/// A request to delete an object is made of the key that what was given converts to.
pub proof fn delete_request_carries_the_key<Given, Key, Request>(key: Given, request: Request)
    where Given: Into<Key>, Request: From<DeleteRequest<Key>>
    requires
        call_ensures(delete_request::<Given, Key, Request>, (key,), request),
    ensures
        exists|delete: DeleteRequest<Key>|
            {
                &&& call_ensures(Given::into, (key,), delete.key)
                &&& #[trigger] call_ensures(Request::from, (delete,), request)
            },
{
}

/// A request to list objects is made of the filters that what was given converts to.
pub proof fn list_request_carries_the_filters<Given, Filter, Request>(
    filters: Given,
    request: Request,
)
    where Given: Into<Vec<Filter>>, Request: From<ListRequest<Filter>>
    requires
        call_ensures(list_request::<Given, Filter, Request>, (filters,), request),
    ensures
        exists|list: ListRequest<Filter>|
            {
                &&& call_ensures(Given::into, (filters,), list.name_filters)
                &&& #[trigger] call_ensures(Request::from, (list,), request)
            },
{
}

/// A request to create or to delete is granted just where the connection held and the cluster
/// granted it; a refusal and a lost connection are told apart, each with its cause.
pub proof fn reply_says_what_became_of_the_request(
    reply: Result<Result<(), ApiError>, SocketError>,
    result: Result<(), FluvioError>,
)
    requires
        call_ensures(request_result, (reply,), result),
    ensures
        result is Ok <==> (reply matches Ok(answer) && answer is Ok),
        reply matches Ok(Err(cause)) ==> result == Err::<(), FluvioError>(
            FluvioError::AdminApi(cause),
        ),
        reply matches Err(cause) ==> result == Err::<(), FluvioError>(FluvioError::Socket(cause)),
{
}

/// A list is handed on as it came. A reply that is no list fails with words that end in the reason
/// given, and a lost connection with its cause.
pub proof fn reply_hands_on_the_list<Item>(
    reply: Result<Result<Vec<Item>, String>, SocketError>,
    result: Result<Vec<Item>, FluvioError>,
)
    requires
        call_ensures(list_result::<Item>, (reply,), result),
    ensures
        reply matches Ok(Ok(items)) ==> result == Ok::<Vec<Item>, FluvioError>(items),
        reply matches Ok(Err(reason)) ==> (result matches Err(FluvioError::Io(IoError::Other(words)))
            && words@ == "can't convert: "@ + reason@),
        reply matches Err(cause) ==> result == Err::<Vec<Item>, FluvioError>(
            FluvioError::Socket(cause),
        ),
{
}

/// The command to delete a managed connector asks to delete it by its name, and comes to what the
/// request comes to.
pub proof fn connector_is_deleted_by_name(
    command: DeleteManagedConnectorOpt,
    request: DeleteRequest<String>,
    reply: Result<Result<(), ApiError>, SocketError>,
    result: Result<(), CliError>,
    granted: Result<(), FluvioError>,
)
    requires
        call_ensures(DeleteManagedConnectorOpt::request, (command,), request),
        call_ensures(DeleteManagedConnectorOpt::result, (reply,), result),
        call_ensures(request_result, (reply,), granted),
    ensures
        request.key == command.name,
        result is Ok <==> granted is Ok,
        granted matches Err(error) ==> result == Err::<(), CliError>(CliError::ClientError(error)),
        result is Ok <==> (reply matches Ok(answer) && answer is Ok),
{
}

} // verus!
