use ruwm::mqtt::{
    apply_command, parse_command, parse_u32, translate_command, CommandKind, Message,
    MessageParser, MqttCommand,
};
use ruwm::valve::ValveCommand;
use ruwm::water_meter::WaterMeterCommand;

fn complete(topic: &str, payload: &[u8]) -> Message {
    Message::Complete { topic: topic.as_bytes().to_vec(), data: payload.to_vec() }
}

#[test]
fn complete_valve_true_yields_open() {
    let mut parser = MessageParser::new();
    let cmd = parser.process(&complete("x/commands/valve", b"true"));
    assert_eq!(cmd, Some(MqttCommand::Valve(true)));
    let (valve, wm) = translate_command(cmd.unwrap());
    assert_eq!(valve, Some(ValveCommand::Open));
    assert_eq!(wm, None);
}

#[test]
fn complete_valve_false_yields_close() {
    let mut parser = MessageParser::new();
    let cmd = parser.process(&complete("x/commands/valve", b"false"));
    assert_eq!(cmd, Some(MqttCommand::Valve(false)));
    let (valve, _) = translate_command(cmd.unwrap());
    assert_eq!(valve, Some(ValveCommand::Close));
}

#[test]
fn complete_flow_watch_false_yields_disarm() {
    let mut parser = MessageParser::new();
    let cmd = parser.process(&complete("x/commands/flow_watch", b"false"));
    assert_eq!(cmd, Some(MqttCommand::FlowWatch(false)));
    let (valve, wm) = translate_command(cmd.unwrap());
    assert_eq!(valve, None);
    assert_eq!(wm, Some(WaterMeterCommand::Disarm));
}

#[test]
fn complete_keep_alive_parses_seconds() {
    let mut parser = MessageParser::new();
    let cmd = parser.process(&complete("home/water/commands/keep_alive", b"42"));
    assert_eq!(cmd, Some(MqttCommand::KeepAlive(42)));
    let (valve, wm) = translate_command(cmd.unwrap());
    assert_eq!(valve, None);
    assert_eq!(wm, None);
}

#[test]
fn system_update_with_nonempty_payload_yields_nothing() {
    let mut parser = MessageParser::new();
    assert_eq!(parser.process(&complete("x/commands/system_update", b"oops")), None);
}

#[test]
fn system_update_with_empty_payload_decodes() {
    let mut parser = MessageParser::new();
    assert_eq!(
        parser.process(&complete("x/commands/system_update", b"")),
        Some(MqttCommand::SystemUpdate)
    );
}

#[test]
fn unknown_topic_yields_nothing() {
    let mut parser = MessageParser::new();
    assert_eq!(parser.process(&complete("x/commands/other", b"true")), None);
    assert_eq!(parser.process(&complete("x/valve", b"true")), None);
}

#[test]
fn malformed_bool_payload_yields_nothing() {
    let mut parser = MessageParser::new();
    assert_eq!(parser.process(&complete("x/commands/valve", b"TRUE")), None);
    assert_eq!(parser.process(&complete("x/commands/valve", b"yes")), None);
    assert_eq!(parser.process(&complete("x/commands/valve", b"")), None);
}

#[test]
fn classify_selects_parser_by_suffix() {
    assert_eq!(parse_command(b"a/commands/valve"), Some(CommandKind::Valve));
    assert_eq!(parse_command(b"a/commands/flow_watch"), Some(CommandKind::FlowWatch));
    assert_eq!(parse_command(b"a/commands/keep_alive"), Some(CommandKind::KeepAlive));
    assert_eq!(parse_command(b"a/commands/system_update"), Some(CommandKind::SystemUpdate));
    assert_eq!(parse_command(b"a/commands/nothing"), None);
}

#[test]
fn parse_u32_accepts_decimal_and_rejects_junk() {
    assert_eq!(parse_u32(b"0"), Some(0));
    assert_eq!(parse_u32(b"007"), Some(7));
    assert_eq!(parse_u32(b"+7"), Some(7));
    assert_eq!(parse_u32(b"4294967295"), Some(u32::MAX));
    assert_eq!(parse_u32(b"4294967296"), None);
    assert_eq!(parse_u32(b""), None);
    assert_eq!(parse_u32(b"+"), None);
    assert_eq!(parse_u32(b"12a"), None);
    assert_eq!(parse_u32(b"-1"), None);
}

#[test]
fn apply_command_runs_the_selected_parser() {
    assert_eq!(apply_command(CommandKind::Valve, b"true"), Some(MqttCommand::Valve(true)));
    assert_eq!(
        apply_command(CommandKind::KeepAlive, b"100"),
        Some(MqttCommand::KeepAlive(100))
    );
    assert_eq!(apply_command(CommandKind::SystemUpdate, b""), Some(MqttCommand::SystemUpdate));
    assert_eq!(apply_command(CommandKind::FlowWatch, b"x"), None);
}

#[test]
fn chunked_valve_payload_reassembles_and_fires_once() {
    let mut parser = MessageParser::new();
    let first = Message::InitialChunk {
        topic: b"x/commands/valve".to_vec(),
        total: 4,
        data: b"tr".to_vec(),
    };
    let second = Message::SubsequentChunk { offset: 2, total: 4, data: b"ue".to_vec() };
    assert_eq!(parser.process(&first), None);
    assert_eq!(parser.process(&second), Some(MqttCommand::Valve(true)));
}

#[test]
fn chunked_keep_alive_in_three_fragments() {
    let mut parser = MessageParser::new();
    let frags = [
        Message::InitialChunk {
            topic: b"x/commands/keep_alive".to_vec(),
            total: 5,
            data: b"12".to_vec(),
        },
        Message::SubsequentChunk { offset: 2, total: 5, data: b"34".to_vec() },
        Message::SubsequentChunk { offset: 4, total: 5, data: b"5".to_vec() },
    ];
    assert_eq!(parser.process(&frags[0]), None);
    assert_eq!(parser.process(&frags[1]), None);
    assert_eq!(parser.process(&frags[2]), Some(MqttCommand::KeepAlive(12345)));
}

#[test]
fn parser_resets_after_a_completed_chunked_message() {
    let mut parser = MessageParser::new();
    let first = Message::InitialChunk {
        topic: b"x/commands/valve".to_vec(),
        total: 4,
        data: b"tr".to_vec(),
    };
    let second = Message::SubsequentChunk { offset: 2, total: 4, data: b"ue".to_vec() };
    assert_eq!(parser.process(&first), None);
    assert_eq!(parser.process(&second), Some(MqttCommand::Valve(true)));
    let stray = Message::SubsequentChunk { offset: 0, total: 4, data: b"true".to_vec() };
    assert_eq!(parser.process(&stray), None);
}

#[test]
fn oversized_chunked_message_is_abandoned_silently() {
    let mut parser = MessageParser::new();
    let first = Message::InitialChunk {
        topic: b"x/commands/keep_alive".to_vec(),
        total: 17,
        data: b"12345678".to_vec(),
    };
    let second = Message::SubsequentChunk { offset: 8, total: 17, data: b"87654321".to_vec() };
    let third = Message::SubsequentChunk { offset: 16, total: 17, data: b"0".to_vec() };
    assert_eq!(parser.process(&first), None);
    assert_eq!(parser.process(&second), None);
    assert_eq!(parser.process(&third), None);
}

#[test]
fn message_after_oversized_one_parses_from_fresh_state() {
    let mut parser = MessageParser::new();
    let oversized = Message::InitialChunk {
        topic: b"x/commands/keep_alive".to_vec(),
        total: 17,
        data: b"12345678".to_vec(),
    };
    let tail = Message::SubsequentChunk { offset: 8, total: 17, data: b"87654321".to_vec() };
    assert_eq!(parser.process(&oversized), None);
    assert_eq!(parser.process(&tail), None);
    let next = complete("x/commands/flow_watch", b"true");
    assert_eq!(parser.process(&next), Some(MqttCommand::FlowWatch(true)));
}

#[test]
fn chunks_on_unknown_topic_never_fire() {
    let mut parser = MessageParser::new();
    let first = Message::InitialChunk {
        topic: b"x/commands/other".to_vec(),
        total: 4,
        data: b"tr".to_vec(),
    };
    let second = Message::SubsequentChunk { offset: 2, total: 4, data: b"ue".to_vec() };
    assert_eq!(parser.process(&first), None);
    assert_eq!(parser.process(&second), None);
}

#[test]
fn subsequent_chunk_without_initial_is_ignored() {
    let mut parser = MessageParser::new();
    let stray = Message::SubsequentChunk { offset: 0, total: 4, data: b"true".to_vec() };
    assert_eq!(parser.process(&stray), None);
}

#[test]
fn chunk_overrunning_the_buffer_abandons_the_message() {
    let mut parser = MessageParser::new();
    let first = Message::InitialChunk {
        topic: b"x/commands/valve".to_vec(),
        total: 16,
        data: b"tr".to_vec(),
    };
    let overrun = Message::SubsequentChunk { offset: 14, total: 16, data: b"uehello".to_vec() };
    assert_eq!(parser.process(&first), None);
    assert_eq!(parser.process(&overrun), None);
    let finish = Message::SubsequentChunk { offset: 2, total: 4, data: b"ue".to_vec() };
    assert_eq!(parser.process(&finish), None);
}
