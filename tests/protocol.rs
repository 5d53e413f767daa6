use quake_alert::ingest::{
    carries_event, classify_message, feed_start, feed_step, FeedAction, FeedEvent, FeedState, MessageKind,
    SourceSchema,
};
use quake_alert::models::{ApiResponse, StatsResponse};
use quake_alert::notify::push_url;

#[test]
fn message_classification() {
    assert_eq!(classify_message("heartbeat"), MessageKind::Heartbeat);
    assert_eq!(classify_message("pong"), MessageKind::Pong);
    assert_eq!(classify_message("jma_eqlist"), MessageKind::EventList);
    assert_eq!(classify_message("cenc_eqlist"), MessageKind::EventList);
    assert_eq!(classify_message("jma_eew"), MessageKind::Event(SourceSchema::Jma));
    assert_eq!(classify_message("sc_eew"), MessageKind::Event(SourceSchema::Sichuan));
    assert_eq!(classify_message("cenc_eew"), MessageKind::Event(SourceSchema::Cenc));
    assert_eq!(classify_message("fj_eew"), MessageKind::Event(SourceSchema::Fujian));
    assert_eq!(classify_message("cwa_eew"), MessageKind::Event(SourceSchema::Generic));
    assert!(!carries_event(MessageKind::Heartbeat));
    assert!(carries_event(MessageKind::Event(SourceSchema::Generic)));
}

#[test]
fn feed_reconnects_forever() {
    let (s, a) = feed_start();
    assert_eq!((s, a), (FeedState::Connecting, FeedAction::Connect));
    let (s, a) = feed_step(s, FeedEvent::Connected);
    assert_eq!((s, a), (FeedState::Streaming, FeedAction::ReadNext));
    let (s, a) = feed_step(s, FeedEvent::MessageHandled);
    assert_eq!((s, a), (FeedState::Streaming, FeedAction::ReadNext));
    let (s, a) = feed_step(s, FeedEvent::TransportError);
    assert_eq!((s, a), (FeedState::Disconnected, FeedAction::Wait(5000)));
    let (s, a) = feed_step(s, FeedEvent::DelayElapsed);
    assert_eq!((s, a), (FeedState::Connecting, FeedAction::Connect));
    let (s, a) = feed_step(s, FeedEvent::ConnectFailed);
    assert_eq!((s, a), (FeedState::Disconnected, FeedAction::Wait(5000)));
}

#[test]
fn push_url_encodes_path_parts() {
    let url = push_url("https://api.day.app", "key1", "M7.0 alert", "a/b", "x~y.z_-");
    assert_eq!(
        url,
        "https://api.day.app/key1/M7.0%20alert/a%2Fb/x~y.z_-?group=地震预警&level=critical&volume=5"
    );
}

#[test]
fn push_url_encodes_utf8_bytes() {
    let url = push_url("http://h", "k", "震", "", "\n");
    assert_eq!(url, "http://h/k/%E9%9C%87//%0A?group=地震预警&level=critical&volume=5");
}

#[test]
fn api_response_constructors() {
    let ok = ApiResponse::success("OK".to_string(), Some(StatsResponse { total_subscriptions: 4 }));
    assert!(ok.success);
    assert_eq!(ok.message, "OK");
    assert_eq!(ok.data.unwrap().total_subscriptions, 4);
    let err: ApiResponse<()> = ApiResponse::error("bad".to_string());
    assert!(!err.success);
    assert!(err.data.is_none());
}
