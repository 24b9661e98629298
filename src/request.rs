//! The backend's replies: each is either a success payload or an error
//! envelope carrying a message.
use vstd::prelude::*;

verus! {

/// The backend's error envelope.
pub struct ErrorResponse {
    pub message: String,
}

/// Reply to a service deployment: whether it was (re)deployed, and the
/// handle to poll its health with, if it has a healthcheck.
pub struct ApiDeploymentResponse {
    pub deployed: bool,
    pub monitor: Option<String>,
}

/// Reply to a task run.
pub struct ApiTaskDeploymentResponse {
    pub module_name: String,
}

/// Reply to a stop or restart operation.
pub struct ApiOperationResponse {
    pub module_name: String,
}

/// Health of a deployed service, as the backend reports it.
#[derive(PartialEq, Eq, Structural, Clone, Copy, Debug)]
pub enum ApiHealthStatus {
    Pending,
    Successful,
    RetriesExceeded,
    Error,
}

pub enum DeploymentResponse {
    Success(ApiDeploymentResponse),
    Failure(ErrorResponse),
}

pub enum TaskDeploymentResponse {
    Success(ApiTaskDeploymentResponse),
    Failure(ErrorResponse),
}

pub enum OperationResponse {
    Success(ApiOperationResponse),
    Failure(ErrorResponse),
}

impl DeploymentResponse {
    /// The payload, or the backend's message verbatim.
    pub fn into_result(self) -> (r: Result<ApiDeploymentResponse, String>)
        ensures
            self matches DeploymentResponse::Success(p) ==> r == Ok::<ApiDeploymentResponse, String>(p),
            self matches DeploymentResponse::Failure(e) ==> r == Err::<ApiDeploymentResponse, String>(e.message),
    {
        match self {
            DeploymentResponse::Success(p) => Ok(p),
            DeploymentResponse::Failure(e) => Err(e.message),
        }
    }
}

impl TaskDeploymentResponse {
    /// The payload, or the backend's message verbatim.
    pub fn into_result(self) -> (r: Result<ApiTaskDeploymentResponse, String>)
        ensures
            self matches TaskDeploymentResponse::Success(p) ==> r == Ok::<ApiTaskDeploymentResponse, String>(p),
            self matches TaskDeploymentResponse::Failure(e) ==> r == Err::<ApiTaskDeploymentResponse, String>(e.message),
    {
        match self {
            TaskDeploymentResponse::Success(p) => Ok(p),
            TaskDeploymentResponse::Failure(e) => Err(e.message),
        }
    }
}

impl OperationResponse {
    /// The payload, or the backend's message verbatim.
    pub fn into_result(self) -> (r: Result<ApiOperationResponse, String>)
        ensures
            self matches OperationResponse::Success(p) ==> r == Ok::<ApiOperationResponse, String>(p),
            self matches OperationResponse::Failure(e) ==> r == Err::<ApiOperationResponse, String>(e.message),
    {
        match self {
            OperationResponse::Success(p) => Ok(p),
            OperationResponse::Failure(e) => Err(e.message),
        }
    }
}

} // verus!
