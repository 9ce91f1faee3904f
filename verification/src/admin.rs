use vstd::prelude::*;
use vstd::string::StringExecFns;

verus! {

/// An input or output failure, in words.
#[derive(Debug)]
pub enum IoError {
    /// No connector could be made for the security policy.
    Connector(String),
    /// Any other failure.
    Other(String),
}

/// A failure of the connection, in words.
#[derive(Debug)]
pub struct SocketError(pub String);

/// A request that the cluster answered with an error, in words.
#[derive(Debug)]
pub struct ApiError(pub String);

/// A configuration that could not be read or lacks the cluster, in words.
#[derive(Debug)]
pub struct ConfigError(pub String);

/// Why the client could not do what it was asked to.
#[derive(Debug)]
pub enum FluvioError {
    Io(IoError),
    Socket(SocketError),
    AdminApi(ApiError),
    ClientConfig(ConfigError),
    Other(String),
}

impl From<IoError> for FluvioError {
    fn from(error: IoError) -> (result: FluvioError) {
        FluvioError::Io(error)
    }
}

impl vstd::std_specs::convert::FromSpecImpl<IoError> for FluvioError {
    open spec fn obeys_from_spec() -> bool {
        true
    }

    open spec fn from_spec(error: IoError) -> FluvioError {
        FluvioError::Io(error)
    }
}

impl From<SocketError> for FluvioError {
    fn from(error: SocketError) -> (result: FluvioError) {
        FluvioError::Socket(error)
    }
}

impl vstd::std_specs::convert::FromSpecImpl<SocketError> for FluvioError {
    open spec fn obeys_from_spec() -> bool {
        true
    }

    open spec fn from_spec(error: SocketError) -> FluvioError {
        FluvioError::Socket(error)
    }
}

impl From<ApiError> for FluvioError {
    fn from(error: ApiError) -> (result: FluvioError) {
        FluvioError::AdminApi(error)
    }
}

impl vstd::std_specs::convert::FromSpecImpl<ApiError> for FluvioError {
    open spec fn obeys_from_spec() -> bool {
        true
    }

    open spec fn from_spec(error: ApiError) -> FluvioError {
        FluvioError::AdminApi(error)
    }
}

impl From<ConfigError> for FluvioError {
    fn from(error: ConfigError) -> (result: FluvioError) {
        FluvioError::ClientConfig(error)
    }
}

impl vstd::std_specs::convert::FromSpecImpl<ConfigError> for FluvioError {
    open spec fn obeys_from_spec() -> bool {
        true
    }

    open spec fn from_spec(error: ConfigError) -> FluvioError {
        FluvioError::ClientConfig(error)
    }
}

/// How to reach a cluster. `T` is the security policy.
#[derive(Debug)]
pub struct FluvioConfig<T> {
    pub endpoint: String,
    pub use_spu_local_address: bool,
    pub tls: T,
}

/// The request that watches objects: its key, and the newest version that the client knows.
#[derive(Debug, Clone, Copy, PartialEq, Eq, Structural)]
pub struct WatchApi {
    pub api_key: u16,
    pub default_version: i16,
}

/// What is to be done next to connect an administrator, or how it ended.
#[derive(Debug)]
pub enum ConnectStep<T> {
    /// Load the configuration file, or make one.
    LoadConfig,
    /// Look up the current cluster in the configuration.
    FindCluster,
    /// Make a connector for the security policy.
    BuildConnector(FluvioConfig<T>),
    /// Connect to the endpoint with the connector.
    OpenConnection { endpoint: String, use_spu_local_address: bool },
    /// Ask the versions of the cluster for the one to watch objects with.
    LookUpVersion(WatchApi),
    /// Start the metadata stores on the shared connection.
    StartMetadata { watch_version: i16 },
    /// The administrator is connected.
    Connected,
    /// The administrator could not be connected.
    Failed(FluvioError),
}

/// What came of a step.
#[derive(Debug)]
pub enum ConnectEvent<T> {
    ConfigLoaded(Result<(), ConfigError>),
    ClusterFound(Result<FluvioConfig<T>, ConfigError>),
    ConnectorBuilt(Result<(), IoError>),
    ConnectionOpened(Result<(), SocketError>),
    VersionLookedUp(Option<i16>),
    MetadataStarted(Result<(), SocketError>),
}

/// The words for a cluster that has no version to watch objects with.
pub open spec fn no_watch_version() -> Seq<char> {
    "WatchApi versio not found"@
}

/// `next` is what is to be done once `event` has come of `step`. An event that does not belong
/// to the step changes nothing.
pub open spec fn follows<T>(
    watch: WatchApi,
    step: ConnectStep<T>,
    event: ConnectEvent<T>,
    next: ConnectStep<T>,
) -> bool {
    match (step, event) {
        (ConnectStep::LoadConfig, ConnectEvent::ConfigLoaded(loaded)) => match loaded {
            Ok(_) => next == ConnectStep::<T>::FindCluster,
            Err(error) => next == ConnectStep::<T>::Failed(FluvioError::ClientConfig(error)),
        },
        (ConnectStep::FindCluster, ConnectEvent::ClusterFound(found)) => match found {
            Ok(config) => next == ConnectStep::BuildConnector(config),
            Err(error) => next == ConnectStep::<T>::Failed(FluvioError::ClientConfig(error)),
        },
        (ConnectStep::BuildConnector(config), ConnectEvent::ConnectorBuilt(built)) => match built {
            Ok(_) => next == (ConnectStep::<T>::OpenConnection {
                endpoint: config.endpoint,
                use_spu_local_address: config.use_spu_local_address,
            }),
            Err(error) => next == ConnectStep::<T>::Failed(FluvioError::Io(error)),
        },
        (ConnectStep::OpenConnection { .. }, ConnectEvent::ConnectionOpened(opened)) => {
            match opened {
                Ok(_) => next == ConnectStep::<T>::LookUpVersion(watch),
                Err(error) => next == ConnectStep::<T>::Failed(FluvioError::Socket(error)),
            }
        },
        (ConnectStep::LookUpVersion(_), ConnectEvent::VersionLookedUp(version)) => match version {
            Some(watch_version) => next == (ConnectStep::<T>::StartMetadata { watch_version }),
            None => next matches ConnectStep::Failed(FluvioError::Other(words)) && words@
                == no_watch_version(),
        },
        (ConnectStep::StartMetadata { .. }, ConnectEvent::MetadataStarted(started)) => {
            match started {
                Ok(_) => next == ConnectStep::<T>::Connected,
                Err(error) => next == ConnectStep::<T>::Failed(FluvioError::Socket(error)),
            }
        },
        _ => next == step,
    }
}

/// An administrator that is being connected.
#[derive(Debug)]
pub struct Connecting<T> {
    pub watch: WatchApi,
    pub step: ConnectStep<T>,
}

impl<T> Connecting<T> {
    /// Connects with the current profile of the configuration file.
    pub fn connect(watch: WatchApi) -> (connecting: Self)
        ensures
            connecting == (Connecting { watch, step: ConnectStep::<T>::LoadConfig }),
    {
        Connecting { watch, step: ConnectStep::LoadConfig }
    }

    /// Connects with a configuration of the caller's.
    pub fn connect_with_config(watch: WatchApi, config: FluvioConfig<T>) -> (connecting: Self)
        ensures
            connecting == (Connecting { watch, step: ConnectStep::BuildConnector(config) }),
    {
        Connecting { watch, step: ConnectStep::BuildConnector(config) }
    }

    /// Goes on once it is known what came of the step.
    pub fn next(self, event: ConnectEvent<T>) -> (connecting: Self)
        ensures
            connecting.watch == self.watch,
            follows(self.watch, self.step, event, connecting.step),
    {
        let watch: WatchApi = self.watch;
        let step = match (self.step, event) {
            (ConnectStep::LoadConfig, ConnectEvent::ConfigLoaded(loaded)) => match loaded {
                Ok(()) => ConnectStep::FindCluster,
                Err(error) => ConnectStep::Failed(FluvioError::from(error)),
            },
            (ConnectStep::FindCluster, ConnectEvent::ClusterFound(found)) => match found {
                Ok(config) => ConnectStep::BuildConnector(config),
                Err(error) => ConnectStep::Failed(FluvioError::from(error)),
            },
            (ConnectStep::BuildConnector(config), ConnectEvent::ConnectorBuilt(built)) => {
                match built {
                    Ok(()) => ConnectStep::OpenConnection {
                        endpoint: config.endpoint,
                        use_spu_local_address: config.use_spu_local_address,
                    },
                    Err(error) => ConnectStep::Failed(FluvioError::from(error)),
                }
            },
            (ConnectStep::OpenConnection { .. }, ConnectEvent::ConnectionOpened(opened)) => {
                match opened {
                    Ok(()) => ConnectStep::LookUpVersion(watch),
                    Err(error) => ConnectStep::Failed(FluvioError::from(error)),
                }
            },
            (ConnectStep::LookUpVersion(_), ConnectEvent::VersionLookedUp(version)) => {
                match version {
                    Some(watch_version) => ConnectStep::StartMetadata { watch_version },
                    None => ConnectStep::Failed(
                        FluvioError::Other("WatchApi versio not found".to_owned()),
                    ),
                }
            },
            (ConnectStep::StartMetadata { .. }, ConnectEvent::MetadataStarted(started)) => {
                match started {
                    Ok(()) => ConnectStep::Connected,
                    Err(error) => ConnectStep::Failed(FluvioError::from(error)),
                }
            },
            (step, _) => step,
        };
        Connecting { watch, step }
    }
}

/// An interface for managing a Fluvio cluster, over a connection `S` and metadata stores `M`.
///
/// Most applications do not need it: it creates, edits and manages topics and other
/// operational items, as the administrator of a database does with tables.
#[derive(Debug)]
pub struct FluvioAdmin<S, M> {
    pub socket: S,
    pub metadata: M,
}

impl<S, M> FluvioAdmin<S, M> {
    pub fn new(socket: S, metadata: M) -> (admin: Self)
        ensures
            admin.socket == socket,
            admin.metadata == metadata,
    {
        FluvioAdmin { socket, metadata }
    }
}

/// What all requests for a new object have in common.
#[derive(Debug)]
pub struct CommonCreateRequest {
    pub name: String,
    pub dry_run: bool,
}

/// A request to delete the object with this key.
#[derive(Debug)]
pub struct DeleteRequest<K> {
    pub key: K,
}

/// A request to list the objects that match these filters.
#[derive(Debug)]
pub struct ListRequest<F> {
    pub name_filters: Vec<F>,
}

/// The request to create an object.
pub fn create_request<Spec, Request>(name: String, dry_run: bool, spec: Spec) -> (request: Request)
    where Request: From<(CommonCreateRequest, Spec)>
    ensures
        call_ensures(
            Request::from,
            ((CommonCreateRequest { name, dry_run }, spec),),
            request,
        ),
{
    let common_request = CommonCreateRequest { name, dry_run };
    Request::from((common_request, spec))
}

/// The request to delete an object by its key.
pub fn delete_request<Given, Key, Request>(key: Given) -> (request: Request)
    where Given: Into<Key>, Request: From<DeleteRequest<Key>>
    ensures
        exists|converted: Key|
            call_ensures(Given::into, (key,), converted) && #[trigger] call_ensures(
                Request::from,
                (DeleteRequest { key: converted },),
                request,
            ),
{
    let converted: Key = key.into();
    Request::from(DeleteRequest { key: converted })
}

/// The request to list the objects that match the filters.
pub fn list_request<Given, Filter, Request>(filters: Given) -> (request: Request)
    where Given: Into<Vec<Filter>>, Request: From<ListRequest<Filter>>
    ensures
        exists|converted: Vec<Filter>|
            call_ensures(Given::into, (filters,), converted) && #[trigger] call_ensures(
                Request::from,
                (ListRequest { name_filters: converted },),
                request,
            ),
{
    let converted: Vec<Filter> = filters.into();
    Request::from(ListRequest { name_filters: converted })
}

/// What the reply to a request to create or to delete comes to: the connection may have failed,
/// or the cluster may have refused.
pub fn request_result(reply: Result<Result<(), ApiError>, SocketError>) -> (result: Result<
    (),
    FluvioError,
>)
    ensures
        match reply {
            Ok(Ok(_)) => result == Ok::<(), FluvioError>(()),
            Ok(Err(error)) => result == Err::<(), FluvioError>(FluvioError::AdminApi(error)),
            Err(error) => result == Err::<(), FluvioError>(FluvioError::Socket(error)),
        },
{
    match reply {
        Ok(Ok(())) => Ok(()),
        Ok(Err(error)) => Err(FluvioError::from(error)),
        Err(error) => Err(FluvioError::from(error)),
    }
}

/// What stands in front of the words for a reply that is no list of the objects asked for.
pub open spec fn cannot_convert() -> Seq<char> {
    "can't convert: "@
}

/// What the reply to a request to list comes to: the connection may have failed, or the reply
/// may be no list of the objects asked for, in which case it says why in words.
pub fn list_result<Item>(reply: Result<Result<Vec<Item>, String>, SocketError>) -> (result: Result<
    Vec<Item>,
    FluvioError,
>)
    ensures
        match reply {
            Ok(Ok(items)) => result == Ok::<Vec<Item>, FluvioError>(items),
            Ok(Err(reason)) => result matches Err(FluvioError::Io(IoError::Other(words))) && words@
                == cannot_convert() + reason@,
            Err(error) => result == Err::<Vec<Item>, FluvioError>(FluvioError::Socket(error)),
        },
{
    match reply {
        Ok(Ok(items)) => Ok(items),
        Ok(Err(reason)) => {
            let words: String = "can't convert: ".to_owned().concat(reason.as_str());
            Err(FluvioError::from(IoError::Other(words)))
        },
        Err(error) => Err(FluvioError::from(error)),
    }
}

} // verus!
