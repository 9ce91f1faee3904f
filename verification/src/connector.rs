use vstd::prelude::*;

use crate::admin::{request_result, ApiError, DeleteRequest, FluvioError, SocketError};

verus! {

/// Why a command failed.
#[derive(Debug)]
pub enum CliError {
    ClientError(FluvioError),
}

impl From<FluvioError> for CliError {
    fn from(error: FluvioError) -> (result: CliError) {
        CliError::ClientError(error)
    }
}

impl vstd::std_specs::convert::FromSpecImpl<FluvioError> for CliError {
    open spec fn obeys_from_spec() -> bool {
        true
    }

    open spec fn from_spec(error: FluvioError) -> CliError {
        CliError::ClientError(error)
    }
}

/// The command that deletes a managed connector.
#[derive(Debug)]
pub struct DeleteManagedConnectorOpt {
    /// The name of the connector to delete.
    pub name: String,
}

impl DeleteManagedConnectorOpt {
    /// The request that the command sends: managed connectors are deleted by name.
    pub fn request(self) -> (request: DeleteRequest<String>)
        ensures
            request.key == self.name,
    {
        DeleteRequest { key: self.name }
    }

    /// What the reply to the request comes to.
    pub fn result(reply: Result<Result<(), ApiError>, SocketError>) -> (result: Result<(), CliError>)
        ensures
            match reply {
                Ok(Ok(_)) => result == Ok::<(), CliError>(()),
                Ok(Err(error)) => result == Err::<(), CliError>(
                    CliError::ClientError(FluvioError::AdminApi(error)),
                ),
                Err(error) => result == Err::<(), CliError>(
                    CliError::ClientError(FluvioError::Socket(error)),
                ),
            },
    {
        match request_result(reply) {
            Ok(()) => Ok(()),
            Err(error) => Err(CliError::from(error)),
        }
    }
}

} // verus!
