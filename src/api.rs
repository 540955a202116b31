//! The measurement-API sink: the request that submits a water temperature,
//! and how its response is judged.

use crate::config::Api;
use crate::reading::Reading;
use vstd::prelude::*;

verus! {

/// Why a sink did not take a measurement.
#[derive(Debug, Clone)]
pub enum SinkError {
    /// The sink answered with a status other than success.
    Status { status: u16, reason: String },
    /// The request did not complete (connection, timeout, TLS).
    Transport { message: String },
}

/// The request that submits one water temperature to the measurement API:
/// `POST {url}` with the `authorization` header and a JSON body
/// `{"sensor_id": .., "temperature": ..}`.
#[derive(Debug, Clone)]
pub struct ApiRequest {
    /// Target URL.
    pub url: String,
    /// Value of the `authorization` header.
    pub authorization: String,
    /// The sensor's ID at the API.
    pub sensor_id: u32,
    /// The water temperature in °C.
    pub temperature: Reading,
}

/// The status with which the API accepts a measurement.
pub const API_CREATED: u16 = 201;

impl ApiRequest {
    /// This is the request that submits `temperature` of sensor `sensor_id`
    /// to the API of `api`.
    pub open spec fn is_for(self, api: Api, sensor_id: u32, temperature: Reading) -> bool {
        &&& self.url@ == api.base_url@ + "/measurements"@
        &&& self.authorization@ == "Bearer "@ + api.api_token@
        &&& self.sensor_id == sensor_id
        &&& self.temperature == temperature
    }
}

/// The request that submits `temperature` of sensor `sensor_id` to the API.
pub fn api_request(api: &Api, sensor_id: u32, temperature: Reading) -> (r: ApiRequest)
    ensures
        r.is_for(*api, sensor_id, temperature),
{
    let mut url = api.base_url.clone();
    url.append("/measurements");
    let mut authorization = String::from_str("Bearer ");
    authorization.append(api.api_token.as_str());
    ApiRequest { url, authorization, sensor_id, temperature }
}

/// Judges the API's response: `201 Created` is success, any other status a
/// failure that carries the status and its reason text.
pub fn api_outcome(status: u16, reason: String) -> (r: Result<(), SinkError>)
    ensures
        status == 201 ==> r is Ok,
        status != 201 ==> (r matches Err(SinkError::Status { status: s, reason: t }) && s == status
            && t@ == reason@),
{
    if status == API_CREATED {
        Ok(())
    } else {
        Err(SinkError::Status { status, reason })
    }
}

} // verus!
