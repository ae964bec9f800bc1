//! A layer-7 reverse proxy engine: an upstream registry driven by active
//! health checks, upstream selection with failover, and the per-connection
//! relay loop, each stated as verified functions over plain values.

mod bytes;
mod codec;
mod health;
mod message;
mod registry;
mod session;

pub use bytes::{
    append_bytes, ascii_bytes, ascii_literal, contains_at, contains_subslice, copy_bytes,
    has_subslice,
};
pub use codec::{
    bytes_result_view, client_request_builder, controller_outcome, forwarded, forwarded_for_name,
    head_outcome, http_accepts_uri, httparse_request, lemma_forwarding_appends,
    read_client_request, read_outcome, request_controller, request_from_head, request_of_head,
    request_result_view, Error, HeadParse, HeadParseView, HeadView, RequestHead,
};
pub use health::{health_check_passed, health_check_request, ok_status, probe_bytes};
pub use message::{
    bad_gateway_bytes, bad_gateway_response, bad_request_bytes, bad_request_response, crlf,
    decimal, format_request_line, header_lines, headers_view, request_bytes, request_line,
    wire_bytes, ClientRequest, HeaderField, RequestView,
};
pub use registry::{
    addresses_within, healthy_subset, lemma_sweep_converges, ConfigError, ProxyState,
};
pub use session::{
    closed, connects, current_upstream, failures, in_phase, lemma_exhaustion, lemma_failover,
    lemma_failover_reaches, lemma_sessions_isolated, next, opening, run, settle, share,
    side_by_side, trace, Action, ActionView, Event, EventView, Phase, Session, SessionView,
};
