//! The answers of the lifecycle calls.
use vstd::prelude::*;
use crate::registry::{StartError, StopError};
use crate::text::{decimal, push_decimal, viewer_address, viewer_address_of};

verus! {

/// The answer to a start or stop request.
#[derive(Debug)]
pub struct StreamResponse {
    pub success: bool,
    pub message: String,
    pub ws_url: Option<String>,
    pub port: Option<u16>,
}

/// The contents of an optional string.
pub open spec fn opt_view(o: Option<String>) -> Option<Seq<char>> {
    match o {
        Some(s) => Some(s@),
        None => None,
    }
}

/// The message of a successful start.
pub open spec fn started_message(port: u16) -> Seq<char> {
    "Stream started on port "@ + decimal(port as nat)
}

/// The message of a start refused because the port is taken.
pub open spec fn in_use_message(port: u16) -> Seq<char> {
    "Port "@ + decimal(port as nat) + " is already in use"@
}

/// The message of a start refused for want of a relay identifier.
pub open spec fn exhausted_message(port: u16) -> Seq<char> {
    "No relay identifier left for port "@ + decimal(port as nat)
}

/// The message of a successful stop.
pub open spec fn stopped_message(port: u16) -> Seq<char> {
    "Stream on port "@ + decimal(port as nat) + " stopped"@
}

/// The message of a stop that found no relay.
pub open spec fn not_found_message(port: u16) -> Seq<char> {
    "No stream found on port "@ + decimal(port as nat)
}

/// `r` is the answer to a start request on `port` that came to `outcome`.
pub open spec fn answers_start(r: StreamResponse, port: u16, outcome: Result<u64, StartError>) -> bool {
    &&& r.success == outcome is Ok
    &&& r.port == (if outcome is Ok { Some(port) } else { None::<u16> })
    &&& opt_view(r.ws_url) == (if outcome is Ok {
        Some(viewer_address_of(port))
    } else {
        None::<Seq<char>>
    })
    &&& r.message@ == (match outcome {
        Ok(_) => started_message(port),
        Err(StartError::EndpointInUse) => in_use_message(port),
        Err(StartError::RelayIdsExhausted) => exhausted_message(port),
    })
}

/// `r` is the answer to a stop request on `port` that came to `outcome`.
pub open spec fn answers_stop<S>(r: StreamResponse, port: u16, outcome: Result<S, StopError>) -> bool {
    &&& r.success == outcome is Ok
    &&& r.port == (if outcome is Ok { Some(port) } else { None::<u16> })
    &&& r.ws_url is None
    &&& r.message@ == (if outcome is Ok {
        stopped_message(port)
    } else {
        not_found_message(port)
    })
}

fn around_port(prefix: &str, port: u16, suffix: &str) -> (r: String)
    ensures
        r@ == prefix@ + decimal(port as nat) + suffix@,
{
    let mut s = String::from_str(prefix);
    push_decimal(&mut s, port);
    s.append(suffix);
    s
}

impl StreamResponse {
    /// The answer to a start request on `port` that came to `outcome`.
    pub fn for_start(port: u16, outcome: &Result<u64, StartError>) -> (r: Self)
        ensures
            answers_start(r, port, *outcome),
    {
        proof {
            assert(""@ =~= Seq::<char>::empty()) by {
                reveal_strlit("");
            }
        }
        match outcome {
            Ok(_) => {
                let message = around_port("Stream started on port ", port, "");
                assert(message@ =~= started_message(port));
                StreamResponse {
                    success: true,
                    message,
                    ws_url: Some(viewer_address(port)),
                    port: Some(port),
                }
            },
            Err(StartError::EndpointInUse) => StreamResponse {
                success: false,
                message: around_port("Port ", port, " is already in use"),
                ws_url: None,
                port: None,
            },
            Err(StartError::RelayIdsExhausted) => {
                let message = around_port("No relay identifier left for port ", port, "");
                assert(message@ =~= exhausted_message(port));
                StreamResponse { success: false, message, ws_url: None, port: None }
            },
        }
    }

    /// The answer to a stop request on `port`, which found a relay or not.
    pub fn for_stop<S>(port: u16, outcome: &Result<S, StopError>) -> (r: Self)
        ensures
            answers_stop(r, port, *outcome),
    {
        proof {
            assert(""@ =~= Seq::<char>::empty()) by {
                reveal_strlit("");
            }
        }
        match outcome {
            Ok(_) => StreamResponse {
                success: true,
                message: around_port("Stream on port ", port, " stopped"),
                ws_url: None,
                port: Some(port),
            },
            Err(_) => {
                let message = around_port("No stream found on port ", port, "");
                assert(message@ =~= not_found_message(port));
                StreamResponse { success: false, message, ws_url: None, port: None }
            },
        }
    }
}

} // verus!
