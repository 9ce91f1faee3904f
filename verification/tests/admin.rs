use fluvio::admin::{
    create_request, delete_request, list_request, list_result, request_result, ApiError,
    CommonCreateRequest, ConfigError, ConnectEvent, ConnectStep, Connecting, DeleteRequest,
    FluvioAdmin, FluvioConfig, FluvioError, IoError, ListRequest, SocketError, WatchApi,
};
use fluvio::connector::{CliError, DeleteManagedConnectorOpt};
use fluvio::test_option::RunTestOption;

const WATCH: WatchApi = WatchApi {
    api_key: 1005,
    default_version: 2,
};

fn config() -> FluvioConfig<u8> {
    FluvioConfig {
        endpoint: "localhost:9003".to_string(),
        use_spu_local_address: true,
        tls: 1,
    }
}

fn words(text: &str) -> String {
    text.to_string()
}

#[test]
fn connecting_goes_through_every_step() {
    let connecting = Connecting::connect(WATCH);
    assert!(matches!(connecting.step, ConnectStep::LoadConfig));
    let connecting = connecting.next(ConnectEvent::ConfigLoaded(Ok(())));
    assert!(matches!(connecting.step, ConnectStep::FindCluster));
    let connecting = connecting.next(ConnectEvent::ClusterFound(Ok(config())));
    match &connecting.step {
        ConnectStep::BuildConnector(config) => assert_eq!(config.tls, 1),
        step => panic!("{:?}", step),
    }
    let connecting = connecting.next(ConnectEvent::ConnectorBuilt(Ok(())));
    match &connecting.step {
        ConnectStep::OpenConnection {
            endpoint,
            use_spu_local_address,
        } => {
            assert_eq!(endpoint, "localhost:9003");
            assert!(use_spu_local_address);
        }
        step => panic!("{:?}", step),
    }
    let connecting = connecting.next(ConnectEvent::ConnectionOpened(Ok(())));
    match connecting.step {
        ConnectStep::LookUpVersion(watch) => assert_eq!(watch, WATCH),
        ref step => panic!("{:?}", step),
    }
    let connecting = connecting.next(ConnectEvent::VersionLookedUp(Some(4)));
    assert!(matches!(
        connecting.step,
        ConnectStep::StartMetadata { watch_version: 4 }
    ));
    let connecting = connecting.next(ConnectEvent::MetadataStarted(Ok(())));
    assert!(matches!(connecting.step, ConnectStep::Connected));
    let connecting = connecting.next(ConnectEvent::VersionLookedUp(None));
    assert!(matches!(connecting.step, ConnectStep::Connected));
}

#[test]
fn event_of_another_step_changes_nothing() {
    let connecting = Connecting::connect_with_config(WATCH, config());
    let connecting = connecting.next(ConnectEvent::MetadataStarted(Ok(())));
    assert!(matches!(connecting.step, ConnectStep::BuildConnector(_)));
}

#[test]
fn cluster_without_watch_version() {
    let connecting = Connecting::connect_with_config(WATCH, config())
        .next(ConnectEvent::ConnectorBuilt(Ok(())))
        .next(ConnectEvent::ConnectionOpened(Ok(())))
        .next(ConnectEvent::VersionLookedUp(None));
    match connecting.step {
        ConnectStep::Failed(FluvioError::Other(text)) => {
            assert_eq!(text, "WatchApi versio not found")
        }
        step => panic!("{:?}", step),
    }
}

#[test]
fn every_failure_ends_connecting() {
    let failed = Connecting::<u8>::connect(WATCH)
        .next(ConnectEvent::ConfigLoaded(Err(ConfigError(words("file")))));
    match failed.step {
        ConnectStep::Failed(FluvioError::ClientConfig(ConfigError(text))) => {
            assert_eq!(text, "file")
        }
        step => panic!("{:?}", step),
    }

    let failed = Connecting::<u8>::connect(WATCH)
        .next(ConnectEvent::ConfigLoaded(Ok(())))
        .next(ConnectEvent::ClusterFound(Err(ConfigError(words("none")))));
    match failed.step {
        ConnectStep::Failed(FluvioError::ClientConfig(ConfigError(text))) => {
            assert_eq!(text, "none")
        }
        step => panic!("{:?}", step),
    }

    let failed = Connecting::connect_with_config(WATCH, config()).next(
        ConnectEvent::ConnectorBuilt(Err(IoError::Connector(words("tls")))),
    );
    match failed.step {
        ConnectStep::Failed(FluvioError::Io(IoError::Connector(text))) => assert_eq!(text, "tls"),
        step => panic!("{:?}", step),
    }

    let failed = Connecting::connect_with_config(WATCH, config())
        .next(ConnectEvent::ConnectorBuilt(Ok(())))
        .next(ConnectEvent::ConnectionOpened(Err(SocketError(words("refused")))));
    match failed.step {
        ConnectStep::Failed(FluvioError::Socket(SocketError(text))) => assert_eq!(text, "refused"),
        step => panic!("{:?}", step),
    }

    let failed = Connecting::connect_with_config(WATCH, config())
        .next(ConnectEvent::ConnectorBuilt(Ok(())))
        .next(ConnectEvent::ConnectionOpened(Ok(())))
        .next(ConnectEvent::VersionLookedUp(Some(1)))
        .next(ConnectEvent::MetadataStarted(Err(SocketError(words("closed")))));
    match failed.step {
        ConnectStep::Failed(FluvioError::Socket(SocketError(text))) => assert_eq!(text, "closed"),
        step => panic!("{:?}", step),
    }
}

#[test]
fn administrator_holds_what_it_is_made_of() {
    let admin = FluvioAdmin::new(1u8, "stores");
    assert_eq!(admin.socket, 1);
    assert_eq!(admin.metadata, "stores");
}

struct Create(String, bool, u8);

impl From<(CommonCreateRequest, u8)> for Create {
    fn from((common, spec): (CommonCreateRequest, u8)) -> Self {
        Create(common.name, common.dry_run, spec)
    }
}

struct Delete(String);

impl From<DeleteRequest<String>> for Delete {
    fn from(request: DeleteRequest<String>) -> Self {
        Delete(request.key)
    }
}

struct List(Vec<String>);

impl From<ListRequest<String>> for List {
    fn from(request: ListRequest<String>) -> Self {
        List(request.name_filters)
    }
}

#[test]
fn requests_carry_what_was_asked() {
    let create: Create = create_request(words("topic"), true, 9);
    assert_eq!(create.0, "topic");
    assert!(create.1);
    assert_eq!(create.2, 9);

    let delete: Delete = delete_request::<&str, String, Delete>("topic");
    assert_eq!(delete.0, "topic");

    let list: List = list_request::<[String; 2], String, List>([words("a"), words("b")]);
    assert_eq!(list.0, ["a", "b"]);
}

#[test]
fn replies_to_requests() {
    assert!(request_result(Ok(Ok(()))).is_ok());
    match request_result(Ok(Err(ApiError(words("exists"))))) {
        Err(FluvioError::AdminApi(ApiError(text))) => assert_eq!(text, "exists"),
        result => panic!("{:?}", result),
    }
    match request_result(Err(SocketError(words("gone")))) {
        Err(FluvioError::Socket(SocketError(text))) => assert_eq!(text, "gone"),
        result => panic!("{:?}", result),
    }
}

#[test]
fn replies_to_lists() {
    assert_eq!(list_result(Ok(Ok(vec![1, 2]))).unwrap(), [1, 2]);
    match list_result::<u8>(Ok(Err(words("not a topic")))) {
        Err(FluvioError::Io(IoError::Other(text))) => {
            assert_eq!(text, "can't convert: not a topic")
        }
        result => panic!("{:?}", result),
    }
    match list_result::<u8>(Err(SocketError(words("gone")))) {
        Err(FluvioError::Socket(SocketError(text))) => assert_eq!(text, "gone"),
        result => panic!("{:?}", result),
    }
}

#[test]
fn connector_is_deleted_by_name() {
    let command = DeleteManagedConnectorOpt { name: words("cat") };
    assert_eq!(command.request().key, "cat");
    assert!(DeleteManagedConnectorOpt::result(Ok(Ok(()))).is_ok());
    match DeleteManagedConnectorOpt::result(Ok(Err(ApiError(words("unknown"))))) {
        Err(CliError::ClientError(FluvioError::AdminApi(ApiError(text)))) => {
            assert_eq!(text, "unknown")
        }
        result => panic!("{:?}", result),
    }
    match DeleteManagedConnectorOpt::result(Err(SocketError(words("gone")))) {
        Err(CliError::ClientError(FluvioError::Socket(SocketError(text)))) => {
            assert_eq!(text, "gone")
        }
        result => panic!("{:?}", result),
    }
}

#[test]
fn test_without_options() {
    assert_eq!(RunTestOption::default(), RunTestOption {});
}
