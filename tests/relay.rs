use rtsp_relay::connection::{
    conn_step, listener_step, offers_player_protocol, ConnAction, ConnEvent, ConnState,
    ListenerAction, ListenerEvent,
};
use rtsp_relay::decoder::{decoder_args, decoder_step, get_ffmpeg_path, DecoderStep, READ_CHUNK};
use rtsp_relay::fanout::{FanOut, Recv};
use rtsp_relay::registry::{StartError, StopError, StreamManager};
use rtsp_relay::response::StreamResponse;
use rtsp_relay::text::{push_decimal, viewer_address};

#[test]
fn start_then_stop_scenario() {
    let mut m: StreamManager<u32> = StreamManager::new();
    let r = m.start("rtsp://cam/1".to_string(), 9001, 7);
    assert_eq!(r, Ok(0));
    let resp = StreamResponse::for_start(9001, &r);
    assert!(resp.success);
    assert_eq!(resp.ws_url.as_deref(), Some("ws://127.0.0.1:9001"));
    assert_eq!(resp.port, Some(9001));
    assert_eq!(resp.message, "Stream started on port 9001");

    let mut ch = FanOut::new(100);
    let a = ch.subscribe().unwrap();
    ch.send(vec![1, 2, 3]);
    let b = ch.subscribe().unwrap();
    ch.send(vec![4, 5]);
    assert_eq!(ch.recv(a), Recv::Chunk(vec![1, 2, 3]));
    assert_eq!(ch.recv(a), Recv::Chunk(vec![4, 5]));
    assert_eq!(ch.recv(b), Recv::Chunk(vec![4, 5]));
    assert_eq!(ch.recv(b), Recv::Empty);

    let stopped = m.stop(9001);
    assert_eq!(stopped, Ok(7));
    let resp = StreamResponse::for_stop(9001, &stopped);
    assert!(resp.success);
    assert_eq!(resp.message, "Stream on port 9001 stopped");
    assert_eq!(resp.port, Some(9001));
    assert_eq!(conn_step(ConnState::Streaming, ConnEvent::RelayStopped), (ConnState::Closed, ConnAction::Release));
    assert!(m.get_active_streams().is_empty());
}

#[test]
fn start_twice_scenario() {
    let mut m: StreamManager<u32> = StreamManager::new();
    let (first, id) = m.start_stream("rtsp://cam/1".to_string(), 9001, 1);
    assert!(first.success);
    assert_eq!(id, Ok(0));
    let (resp, second) = m.start_stream("rtsp://cam/2".to_string(), 9001, 2);
    assert_eq!(second, Err(StartError::EndpointInUse));
    assert!(!resp.success);
    assert_eq!(resp.message, "Port 9001 is already in use");
    assert_eq!(resp.ws_url, None);
    assert_eq!(resp.port, None);
    let list = m.get_active_streams();
    assert_eq!(list.len(), 1);
    assert_eq!(list[0].port, 9001);
    assert_eq!(list[0].rtsp_url, "rtsp://cam/1");
    assert_eq!(list[0].ws_url, "ws://127.0.0.1:9001");
    assert!(list[0].active);
}

#[test]
fn stop_unknown_is_not_found_every_time() {
    let mut m: StreamManager<u32> = StreamManager::new();
    for _ in 0..3 {
        let (resp, r) = m.stop_stream(8000);
        assert_eq!(r, Err(StopError::NotFound));
        assert!(!resp.success);
        assert_eq!(resp.message, "No stream found on port 8000");
        assert_eq!(resp.port, None);
    }
    assert_eq!(m.start("a".to_string(), 8000, 1), Ok(0));
    assert_eq!(m.stop(8000), Ok(1));
    assert_eq!(m.stop(8000), Err(StopError::NotFound));
}

#[test]
fn restart_after_stop_and_stale_exit() {
    let mut m: StreamManager<u32> = StreamManager::new();
    assert_eq!(m.start("a".to_string(), 9001, 1), Ok(0));
    assert_eq!(m.stop(9001), Ok(1));
    assert_eq!(m.start("b".to_string(), 9001, 2), Ok(1));
    // the first relay ends late: the new entry stays
    assert!(!m.relay_exited(9001, 0));
    assert_eq!(m.get_active_streams().len(), 1);
    assert_eq!(m.get_active_streams()[0].rtsp_url, "b");
    // the second relay ends on its own: its entry goes
    assert!(m.relay_exited(9001, 1));
    assert!(m.get_active_streams().is_empty());
    assert!(!m.contains(9001));
}

#[test]
fn list_has_one_entry_per_port() {
    let mut m: StreamManager<u32> = StreamManager::new();
    assert_eq!(m.start("a".to_string(), 1, 0), Ok(0));
    assert_eq!(m.start("b".to_string(), 65535, 0), Ok(1));
    assert_eq!(m.start("c".to_string(), 0, 0), Ok(2));
    assert_eq!(m.start("d".to_string(), 1, 0), Err(StartError::EndpointInUse));
    let mut ports: Vec<u16> = m.get_active_streams().iter().map(|s| s.port).collect();
    ports.sort();
    assert_eq!(ports, vec![0, 1, 65535]);
    let l = m.get_active_streams();
    let hi = l.iter().find(|s| s.port == 65535).unwrap();
    assert_eq!(hi.ws_url, "ws://127.0.0.1:65535");
    assert_eq!(hi.rtsp_url, "b");
}

#[test]
fn viewer_address_formats_port() {
    assert_eq!(viewer_address(0), "ws://127.0.0.1:0");
    assert_eq!(viewer_address(9), "ws://127.0.0.1:9");
    assert_eq!(viewer_address(10), "ws://127.0.0.1:10");
    assert_eq!(viewer_address(9001), "ws://127.0.0.1:9001");
    assert_eq!(viewer_address(65535), "ws://127.0.0.1:65535");
    let mut s = String::from("x");
    push_decimal(&mut s, 1200);
    assert_eq!(s, "x1200");
}

#[test]
fn fanout_no_backfill_and_order() {
    let mut ch = FanOut::new(4);
    ch.send(vec![0]);
    let a = ch.subscribe().unwrap();
    assert_eq!(ch.recv(a), Recv::Empty);
    for i in 1..=3u8 {
        ch.send(vec![i]);
    }
    assert_eq!(ch.recv(a), Recv::Chunk(vec![1]));
    assert_eq!(ch.recv(a), Recv::Chunk(vec![2]));
    assert_eq!(ch.recv(a), Recv::Chunk(vec![3]));
    assert_eq!(ch.recv(a), Recv::Empty);
}

#[test]
fn fanout_overflow_drops_oldest_and_lags() {
    let mut ch = FanOut::new(2);
    let slow = ch.subscribe().unwrap();
    let fast = ch.subscribe().unwrap();
    ch.send(vec![1]);
    assert_eq!(ch.recv(fast), Recv::Chunk(vec![1]));
    ch.send(vec![2]);
    assert_eq!(ch.recv(fast), Recv::Chunk(vec![2]));
    ch.send(vec![3]);
    assert_eq!(ch.recv(fast), Recv::Chunk(vec![3]));
    assert_eq!(ch.recv(slow), Recv::Lagged);
    assert_eq!(ch.recv(slow), Recv::Lagged);
    ch.send(vec![4]);
    assert_eq!(ch.recv(fast), Recv::Chunk(vec![4]));
}

#[test]
fn fanout_disconnect_leaves_others() {
    let mut ch = FanOut::new(8);
    let a = ch.subscribe().unwrap();
    let b = ch.subscribe().unwrap();
    ch.send(vec![9, 9]);
    ch.unsubscribe(a);
    ch.send(vec![8]);
    assert_eq!(ch.recv(b), Recv::Chunk(vec![9, 9]));
    assert_eq!(ch.recv(b), Recv::Chunk(vec![8]));
    // the freed handle is handed out again, to a subscriber with no backlog
    let c = ch.subscribe().unwrap();
    assert_eq!(c, a);
    assert_eq!(ch.recv(c), Recv::Empty);
}

#[test]
fn decoder_profile_is_fixed() {
    let args = decoder_args("rtsp://cam/1");
    let expected = [
        "-rtsp_transport", "tcp", "-fflags", "nobuffer", "-flags", "low_delay", "-i",
        "rtsp://cam/1", "-f", "mpegts", "-codec:v", "mpeg1video", "-s", "640x480", "-b:v",
        "1000k", "-bf", "0", "-q:v", "5", "-r", "25", "-an", "-flush_packets", "1", "pipe:1",
    ];
    assert_eq!(args, expected.iter().map(|s| s.to_string()).collect::<Vec<_>>());
}

#[test]
fn decoder_read_steps() {
    assert_eq!(decoder_step(Some(READ_CHUNK)), DecoderStep::Publish(32768));
    assert_eq!(decoder_step(Some(1)), DecoderStep::Publish(1));
    assert_eq!(decoder_step(Some(0)), DecoderStep::Finish);
    assert_eq!(decoder_step(None), DecoderStep::Finish);
}

#[test]
fn decoder_path_is_found_once() {
    let mut cache: Option<String> = None;
    let mut calls = 0;
    let p = get_ffmpeg_path(&mut cache, || {
        calls += 1;
        "/usr/bin/ffmpeg".to_string()
    });
    assert_eq!(p, "/usr/bin/ffmpeg");
    let q = get_ffmpeg_path(&mut cache, || "other".to_string());
    assert_eq!(q, "/usr/bin/ffmpeg");
    assert_eq!(calls, 1);
}

#[test]
fn listener_reactions() {
    assert_eq!(listener_step(ListenerEvent::Shutdown), ListenerAction::Stop);
    assert_eq!(listener_step(ListenerEvent::Accepted), ListenerAction::Serve);
    assert_eq!(listener_step(ListenerEvent::AcceptFailed), ListenerAction::Continue);
}

#[test]
fn connection_lifecycle() {
    let (s, a) = conn_step(ConnState::Handshaking, ConnEvent::HandshakeDone);
    assert_eq!((s, a), (ConnState::Streaming, ConnAction::BeginStreaming));
    assert_eq!(conn_step(s, ConnEvent::ChunkReady), (ConnState::Streaming, ConnAction::Write));
    assert_eq!(conn_step(s, ConnEvent::ViewerFrame), (ConnState::Streaming, ConnAction::Idle));
    assert_eq!(conn_step(s, ConnEvent::ViewerClosed), (ConnState::Closed, ConnAction::Release));
    assert_eq!(conn_step(s, ConnEvent::WriteFailed), (ConnState::Closed, ConnAction::Release));
    assert_eq!(conn_step(s, ConnEvent::Lagged), (ConnState::Closed, ConnAction::Release));
    assert_eq!(
        conn_step(ConnState::Handshaking, ConnEvent::HandshakeFailed),
        (ConnState::Closed, ConnAction::Release)
    );
    assert_eq!(conn_step(ConnState::Closed, ConnEvent::ChunkReady), (ConnState::Closed, ConnAction::Idle));
}

#[test]
fn subprotocol_token_detection() {
    assert!(offers_player_protocol(b"jsmpeg"));
    assert!(offers_player_protocol(b"chat, jsmpeg"));
    assert!(!offers_player_protocol(b"jsmpe"));
    assert!(!offers_player_protocol(b""));
    assert!(!offers_player_protocol(b"JSMPEG"));
}
