//! MQTT bridge logic: inbound command decoding with chunked-payload
//! reassembly, and the outbound change-driven publication policy.
//!
//! Topics and payloads are byte vectors, exactly as they travel on the
//! wire. The transport itself (subscribe, publish, the broker connection)
//! lives outside the verified core: the sender half computes which
//! publications an incoming snapshot requires, the receiver half turns raw
//! message fragments into commands.

use vstd::prelude::*;

use crate::battery::BatteryState;
use crate::valve::{ValveCommand, ValveState};
use crate::water_meter::{WaterMeterCommand, WaterMeterState};

verus! {

/// A fully decoded inbound command. Keep-alive time is in seconds.
#[derive(Clone, Copy, Debug, PartialEq, Eq, Structural)]
pub enum MqttCommand {
    KeepAlive(u64),
    Valve(bool),
    FlowWatch(bool),
    SystemUpdate,
}

/// Which command an inbound topic announces: the per-topic parser
/// selection, as a pure classification rather than a registry.
#[derive(Clone, Copy, Debug, PartialEq, Eq, Structural)]
pub enum CommandKind {
    Valve,
    FlowWatch,
    KeepAlive,
    SystemUpdate,
}

// ---------------------------------------------------------------------------
// Byte-level helpers
// ---------------------------------------------------------------------------

/// The bytes of `"true"`.
pub open spec fn spec_true_payload() -> Seq<u8> {
    seq![116u8, 114u8, 117u8, 101u8]
}

/// The bytes of `"false"`.
pub open spec fn spec_false_payload() -> Seq<u8> {
    seq![102u8, 97u8, 108u8, 115u8, 101u8]
}

/// The boolean payload encoding used on every boolean topic.
pub open spec fn spec_bool_payload(b: bool) -> Seq<u8> {
    if b {
        spec_true_payload()
    } else {
        spec_false_payload()
    }
}

/// Build the boolean payload.
pub fn bool_payload(b: bool) -> (r: Vec<u8>)
    ensures
        r@ == spec_bool_payload(b),
{
    if b {
        let r: Vec<u8> = vec![116u8, 114u8, 117u8, 101u8];
        proof {
            assert(r@ =~= spec_true_payload());
        }
        r
    } else {
        let r: Vec<u8> = vec![102u8, 97u8, 108u8, 115u8, 101u8];
        proof {
            assert(r@ =~= spec_false_payload());
        }
        r
    }
}

/// Byte-for-byte equality of two slices.
pub fn bytes_eq(a: &[u8], b: &[u8]) -> (r: bool)
    ensures
        r == (a@ == b@),
{
    if a.len() != b.len() {
        proof {
            assert(a@.len() != b@.len());
        }
        return false;
    }
    let n = a.len();
    for i in 0..n
        invariant
            n == a@.len(),
            n == b@.len(),
            forall|k: int| 0 <= k < i ==> a@[k] == b@[k],
    {
        if a[i] != b[i] {
            proof {
                assert(a@[i as int] != b@[i as int]);
            }
            return false;
        }
    }
    proof {
        assert(a@ =~= b@);
    }
    true
}

/// Whether `s` ends in `sfx`.
pub open spec fn spec_ends_with(s: Seq<u8>, sfx: Seq<u8>) -> bool {
    s.len() >= sfx.len() && s.subrange(s.len() - sfx.len(), s.len() as int) == sfx
}

/// Byte-level suffix test.
pub fn bytes_ends_with(s: &[u8], sfx: &[u8]) -> (r: bool)
    ensures
        r == spec_ends_with(s@, sfx@),
{
    if sfx.len() > s.len() {
        return false;
    }
    let off = s.len() - sfx.len();
    let n = sfx.len();
    for i in 0..n
        invariant
            n == sfx@.len(),
            off == s@.len() - sfx@.len(),
            off + n == s@.len(),
            s@.len() <= usize::MAX,
            forall|k: int| 0 <= k < i ==> s@[off + k] == sfx@[k],
    {
        if s[off + i] != sfx[i] {
            proof {
                let sub = s@.subrange(s@.len() - sfx@.len(), s@.len() as int);
                assert(sub[i as int] == s@[off + i]);
                assert(sub[i as int] != sfx@[i as int]);
            }
            return false;
        }
    }
    proof {
        assert(s@.subrange(s@.len() - sfx@.len(), s@.len() as int) =~= sfx@);
    }
    true
}

// ---------------------------------------------------------------------------
// Payload parsers
// ---------------------------------------------------------------------------

/// Boolean text: exactly `"true"` or `"false"`, nothing else.
pub open spec fn spec_parse_bool(data: Seq<u8>) -> Option<bool> {
    if data == spec_true_payload() {
        Some(true)
    } else if data == spec_false_payload() {
        Some(false)
    } else {
        None
    }
}

/// Parse a boolean text payload.
pub fn parse_bool(data: &[u8]) -> (r: Option<bool>)
    ensures
        r == spec_parse_bool(data@),
{
    let t: Vec<u8> = vec![116u8, 114u8, 117u8, 101u8];
    proof {
        assert(t@ =~= spec_true_payload());
    }
    if bytes_eq(data, t.as_slice()) {
        return Some(true);
    }
    let f: Vec<u8> = vec![102u8, 97u8, 108u8, 115u8, 101u8];
    proof {
        assert(f@ =~= spec_false_payload());
    }
    if bytes_eq(data, f.as_slice()) {
        return Some(false);
    }
    None
}

/// Whether `c` is an ASCII decimal digit.
pub open spec fn spec_is_digit(c: u8) -> bool {
    48 <= c <= 57
}

/// All bytes of `s` are ASCII decimal digits.
pub open spec fn spec_all_digits(s: Seq<u8>) -> bool {
    forall|i: int| 0 <= i < s.len() ==> spec_is_digit(#[trigger] s[i])
}

/// The number written by a digit string, most significant digit first.
pub open spec fn spec_digits_value(s: Seq<u8>) -> int
    decreases s.len(),
{
    if s.len() == 0 {
        0
    } else {
        spec_digits_value(s.drop_last()) * 10 + (s.last() - 48)
    }
}

/// Unsigned decimal text as `str::parse::<u32>` accepts it: an optional
/// leading `+`, then at least one digit, value within `u32`.
pub open spec fn spec_parse_u32(data: Seq<u8>) -> Option<u32> {
    let digits = if data.len() >= 1 && data[0] == 43 {
        data.drop_first()
    } else {
        data
    };
    if digits.len() >= 1 && spec_all_digits(digits) && spec_digits_value(digits) <= u32::MAX {
        Some(spec_digits_value(digits) as u32)
    } else {
        None
    }
}

/// Appending a digit multiplies the value by ten and adds it.
proof fn lemma_digits_value_push(s: Seq<u8>, d: u8)
    ensures
        spec_digits_value(s.push(d)) == spec_digits_value(s) * 10 + (d - 48),
{
    assert(s.push(d).drop_last() =~= s);
    assert(s.push(d).last() == d);
}

/// A digit string's value is never negative.
proof fn lemma_digits_value_nonneg(s: Seq<u8>)
    requires
        spec_all_digits(s),
    ensures
        spec_digits_value(s) >= 0,
    decreases s.len(),
{
    if s.len() > 0 {
        assert forall|i: int| 0 <= i < s.drop_last().len() implies spec_is_digit(
            #[trigger] s.drop_last()[i],
        ) by {
            assert(s.drop_last()[i] == s[i]);
        }
        lemma_digits_value_nonneg(s.drop_last());
        assert(spec_is_digit(s.last()));
    }
}

/// A digit string is worth at least any of its prefixes.
proof fn lemma_digits_value_prefix_le(s: Seq<u8>, j: int)
    requires
        0 <= j <= s.len(),
        spec_all_digits(s),
    ensures
        spec_digits_value(s.take(j)) <= spec_digits_value(s),
    decreases s.len() - j,
{
    if j < s.len() {
        assert forall|i: int| 0 <= i < s.take(j).len() implies spec_is_digit(
            #[trigger] s.take(j)[i],
        ) by {
            assert(s.take(j)[i] == s[i]);
        }
        lemma_digits_value_nonneg(s.take(j));
        lemma_digits_value_push(s.take(j), s[j]);
        assert(s.take(j).push(s[j]) =~= s.take(j + 1));
        lemma_digits_value_prefix_le(s, j + 1);
    } else {
        assert(s.take(j) =~= s);
    }
}

/// Parse an unsigned decimal text payload.
pub fn parse_u32(data: &[u8]) -> (r: Option<u32>)
    ensures
        r == spec_parse_u32(data@),
{
    let mut start: usize = 0;
    if data.len() >= 1 && data[0] == 43 {
        start = 1;
    }
    let ghost digits = if data@.len() >= 1 && data@[0] == 43 {
        data@.drop_first()
    } else {
        data@
    };
    proof {
        assert(digits =~= data@.subrange(start as int, data@.len() as int));
    }
    let n = data.len();
    if start >= n {
        return None;
    }
    let mut acc: u64 = 0;
    for i in start..n
        invariant
            start < n,
            n == data@.len(),
            start as int == (if data@.len() >= 1 && data@[0] == 43 {
                1int
            } else {
                0int
            }),
            digits == (if data@.len() >= 1 && data@[0] == 43 {
                data@.drop_first()
            } else {
                data@
            }),
            digits =~= data@.subrange(start as int, data@.len() as int),
            acc == spec_digits_value(digits.take(i - start)),
            acc <= u32::MAX,
            spec_all_digits(digits.take(i - start)),
    {
        let c = data[i];
        proof {
            assert(digits[i - start] == data@[i as int]);
        }
        if c < 48 || c > 57 {
            proof {
                assert(!spec_is_digit(digits[i - start]));
                assert(!spec_all_digits(digits));
            }
            return None;
        }
        let d = (c - 48) as u64;
        let next = acc * 10 + d;
        proof {
            lemma_digits_value_push(digits.take(i - start), digits[i - start]);
            assert(digits.take(i - start).push(digits[i - start]) =~= digits.take(i + 1 - start));
            assert forall|k: int| 0 <= k < i + 1 - start implies spec_is_digit(
                #[trigger] digits.take(i + 1 - start)[k],
            ) by {
                if k < i - start {
                    assert(digits.take(i + 1 - start)[k] == digits.take(i - start)[k]);
                } else {
                    assert(digits.take(i + 1 - start)[k] == digits[i - start]);
                }
            }
        }
        if next > u32::MAX as u64 {
            proof {
                assert(spec_digits_value(digits.take(i + 1 - start)) > u32::MAX);
                if spec_all_digits(digits) {
                    lemma_digits_value_prefix_le(digits, i + 1 - start);
                    assert(spec_digits_value(digits) > u32::MAX);
                }
            }
            return None;
        }
        acc = next;
    }
    proof {
        assert(digits.take(n - start) =~= digits);
    }
    Some(acc as u32)
}

/// The empty payload, demanded by the system-update topic.
pub open spec fn spec_parse_empty(data: Seq<u8>) -> Option<()> {
    if data.len() == 0 {
        Some(())
    } else {
        None
    }
}

/// Accept only an empty payload.
pub fn parse_empty(data: &[u8]) -> (r: Option<()>)
    ensures
        r == spec_parse_empty(data@),
{
    if data.len() == 0 {
        Some(())
    } else {
        None
    }
}

// ---------------------------------------------------------------------------
// Topic classification
// ---------------------------------------------------------------------------

/// The bytes of `"/commands/valve"`.
pub open spec fn spec_valve_command_suffix() -> Seq<u8> {
    seq![47u8, 99u8, 111u8, 109u8, 109u8, 97u8, 110u8, 100u8, 115u8, 47u8, 118u8, 97u8, 108u8, 118u8, 101u8]
}

/// The bytes of `"/commands/flow_watch"`.
pub open spec fn spec_flow_watch_command_suffix() -> Seq<u8> {
    seq![47u8, 99u8, 111u8, 109u8, 109u8, 97u8, 110u8, 100u8, 115u8, 47u8, 102u8, 108u8, 111u8, 119u8, 95u8, 119u8, 97u8, 116u8, 99u8, 104u8]
}

/// The bytes of `"/commands/keep_alive"`.
pub open spec fn spec_keep_alive_command_suffix() -> Seq<u8> {
    seq![47u8, 99u8, 111u8, 109u8, 109u8, 97u8, 110u8, 100u8, 115u8, 47u8, 107u8, 101u8, 101u8, 112u8, 95u8, 97u8, 108u8, 105u8, 118u8, 101u8]
}

/// The bytes of `"/commands/system_update"`.
pub open spec fn spec_system_update_command_suffix() -> Seq<u8> {
    seq![47u8, 99u8, 111u8, 109u8, 109u8, 97u8, 110u8, 100u8, 115u8, 47u8, 115u8, 121u8, 115u8, 116u8, 101u8, 109u8, 95u8, 117u8, 112u8, 100u8, 97u8, 116u8, 101u8]
}

/// The command a topic selects, by its suffix; `None` for an unknown topic.
pub open spec fn spec_classify(topic: Seq<u8>) -> Option<CommandKind> {
    if spec_ends_with(topic, spec_valve_command_suffix()) {
        Some(CommandKind::Valve)
    } else if spec_ends_with(topic, spec_flow_watch_command_suffix()) {
        Some(CommandKind::FlowWatch)
    } else if spec_ends_with(topic, spec_keep_alive_command_suffix()) {
        Some(CommandKind::KeepAlive)
    } else if spec_ends_with(topic, spec_system_update_command_suffix()) {
        Some(CommandKind::SystemUpdate)
    } else {
        None
    }
}

/// The per-topic parser for `data`, applied: what a complete payload on a
/// topic of kind `kind` decodes to.
pub open spec fn spec_apply(kind: CommandKind, data: Seq<u8>) -> Option<MqttCommand> {
    match kind {
        CommandKind::Valve => match spec_parse_bool(data) {
            Some(b) => Some(MqttCommand::Valve(b)),
            None => None,
        },
        CommandKind::FlowWatch => match spec_parse_bool(data) {
            Some(b) => Some(MqttCommand::FlowWatch(b)),
            None => None,
        },
        CommandKind::KeepAlive => match spec_parse_u32(data) {
            Some(secs) => Some(MqttCommand::KeepAlive(secs as u64)),
            None => None,
        },
        CommandKind::SystemUpdate => match spec_parse_empty(data) {
            Some(u) => Some(MqttCommand::SystemUpdate),
            None => None,
        },
    }
}

/// `spec_apply` lifted over an optional kind: an unknown topic decodes to
/// nothing, never to an error.
pub open spec fn spec_apply_opt(kind: Option<CommandKind>, data: Seq<u8>) -> Option<MqttCommand> {
    match kind {
        Some(k) => spec_apply(k, data),
        None => None,
    }
}

// ---------------------------------------------------------------------------
// Message fragments and the reassembly state machine
// ---------------------------------------------------------------------------

/// Select the parser for an inbound topic: the executable form of
/// [`spec_classify`].
pub fn parse_command(topic: &[u8]) -> (r: Option<CommandKind>)
    ensures
        r == spec_classify(topic@),
{
    let sfx_valve: Vec<u8> = vec![47u8, 99u8, 111u8, 109u8, 109u8, 97u8, 110u8, 100u8, 115u8, 47u8, 118u8, 97u8, 108u8, 118u8, 101u8];
    proof {
        assert(sfx_valve@ =~= spec_valve_command_suffix());
    }
    if bytes_ends_with(topic, sfx_valve.as_slice()) {
        return Some(CommandKind::Valve);
    }
    let sfx_flow: Vec<u8> = vec![47u8, 99u8, 111u8, 109u8, 109u8, 97u8, 110u8, 100u8, 115u8, 47u8, 102u8, 108u8, 111u8, 119u8, 95u8, 119u8, 97u8, 116u8, 99u8, 104u8];
    proof {
        assert(sfx_flow@ =~= spec_flow_watch_command_suffix());
    }
    if bytes_ends_with(topic, sfx_flow.as_slice()) {
        return Some(CommandKind::FlowWatch);
    }
    let sfx_keep: Vec<u8> = vec![47u8, 99u8, 111u8, 109u8, 109u8, 97u8, 110u8, 100u8, 115u8, 47u8, 107u8, 101u8, 101u8, 112u8, 95u8, 97u8, 108u8, 105u8, 118u8, 101u8];
    proof {
        assert(sfx_keep@ =~= spec_keep_alive_command_suffix());
    }
    if bytes_ends_with(topic, sfx_keep.as_slice()) {
        return Some(CommandKind::KeepAlive);
    }
    let sfx_sys: Vec<u8> = vec![47u8, 99u8, 111u8, 109u8, 109u8, 97u8, 110u8, 100u8, 115u8, 47u8, 115u8, 121u8, 115u8, 116u8, 101u8, 109u8, 95u8, 117u8, 112u8, 100u8, 97u8, 116u8, 101u8];
    proof {
        assert(sfx_sys@ =~= spec_system_update_command_suffix());
    }
    if bytes_ends_with(topic, sfx_sys.as_slice()) {
        return Some(CommandKind::SystemUpdate);
    }
    None
}

/// Decode a complete valve-command payload.
pub fn parse_valve_command(data: &[u8]) -> (r: Option<MqttCommand>)
    ensures
        r == spec_apply(CommandKind::Valve, data@),
{
    match parse_bool(data) {
        Some(b) => Some(MqttCommand::Valve(b)),
        None => None,
    }
}

/// Decode a complete flow-watch-command payload.
pub fn parse_flow_watch_command(data: &[u8]) -> (r: Option<MqttCommand>)
    ensures
        r == spec_apply(CommandKind::FlowWatch, data@),
{
    match parse_bool(data) {
        Some(b) => Some(MqttCommand::FlowWatch(b)),
        None => None,
    }
}

/// Decode a complete keep-alive-command payload (unsigned seconds).
pub fn parse_keep_alive_command(data: &[u8]) -> (r: Option<MqttCommand>)
    ensures
        r == spec_apply(CommandKind::KeepAlive, data@),
{
    match parse_u32(data) {
        Some(secs) => Some(MqttCommand::KeepAlive(secs as u64)),
        None => None,
    }
}

/// Decode a complete system-update-command payload (must be empty).
pub fn parse_system_update_command(data: &[u8]) -> (r: Option<MqttCommand>)
    ensures
        r == spec_apply(CommandKind::SystemUpdate, data@),
{
    match parse_empty(data) {
        Some(_) => Some(MqttCommand::SystemUpdate),
        None => None,
    }
}

/// Run the parser a topic of kind `kind` selects over `data`.
pub fn apply_command(kind: CommandKind, data: &[u8]) -> (r: Option<MqttCommand>)
    ensures
        r == spec_apply(kind, data@),
{
    match kind {
        CommandKind::Valve => parse_valve_command(data),
        CommandKind::FlowWatch => parse_flow_watch_command(data),
        CommandKind::KeepAlive => parse_keep_alive_command(data),
        CommandKind::SystemUpdate => parse_system_update_command(data),
    }
}

/// Capacity of the reassembly buffer: the largest announced total size a
/// chunked message may have.
pub const PAYLOAD_BUF_SIZE: usize = 16;

/// One inbound broker message fragment, as the transport tags it:
/// complete, the first chunk of a larger payload (with the announced total
/// size), or a later chunk (with its offset and the announced total).
pub enum Message {
    Complete { topic: Vec<u8>, data: Vec<u8> },
    InitialChunk { topic: Vec<u8>, total: usize, data: Vec<u8> },
    SubsequentChunk { offset: usize, total: usize, data: Vec<u8> },
}

/// The mathematical shape of a fragment.
pub enum MessageView {
    Complete { topic: Seq<u8>, data: Seq<u8> },
    InitialChunk { topic: Seq<u8>, total: int, data: Seq<u8> },
    SubsequentChunk { offset: int, total: int, data: Seq<u8> },
}

impl View for Message {
    type V = MessageView;

    open spec fn view(&self) -> MessageView {
        match self {
            Message::Complete { topic, data } => MessageView::Complete {
                topic: topic@,
                data: data@,
            },
            Message::InitialChunk { topic, total, data } => MessageView::InitialChunk {
                topic: topic@,
                total: *total as int,
                data: data@,
            },
            Message::SubsequentChunk { offset, total, data } => MessageView::SubsequentChunk {
                offset: *offset as int,
                total: *total as int,
                data: data@,
            },
        }
    }
}

/// The reassembly state: the parser selected for the in-flight chunked
/// message, if any, and the buffer contents.
pub struct ParserView {
    pub selected: Option<CommandKind>,
    pub buf: Seq<u8>,
}

/// `buf` with `data` written at `offset`, the rest untouched.
pub open spec fn spec_overwrite(buf: Seq<u8>, offset: int, data: Seq<u8>) -> Seq<u8> {
    buf.take(offset) + data + buf.skip(offset + data.len())
}

/// One step of the reassembly state machine over one fragment: the whole
/// of [`MessageParser::process`], as a mathematical function.
///
/// A complete fragment is decoded on the spot and touches no state. An
/// initial chunk whose announced total exceeds the buffer capacity — or
/// whose own data overruns that total — abandons the message silently;
/// otherwise it selects the topic's parser and copies the first bytes. A
/// subsequent chunk is ignored unless a parser is selected; one that would
/// overrun the buffer abandons the message; otherwise its bytes land at
/// its announced offset, and when the received size reaches the announced
/// total the selected parser runs over the reassembled payload and the
/// state resets for the next message.
pub open spec fn spec_process(p: ParserView, m: MessageView) -> (ParserView, Option<MqttCommand>) {
    match m {
        MessageView::Complete { topic, data } => (p, spec_apply_opt(spec_classify(topic), data)),
        MessageView::InitialChunk { topic, total, data } => {
            if total > PAYLOAD_BUF_SIZE || data.len() > total {
                (ParserView { selected: None, buf: p.buf }, None)
            } else {
                (
                    ParserView {
                        selected: spec_classify(topic),
                        buf: spec_overwrite(p.buf, 0, data),
                    },
                    None,
                )
            }
        },
        MessageView::SubsequentChunk { offset, total, data } => {
            match p.selected {
                None => (p, None),
                Some(kind) => {
                    if offset < 0 || offset + data.len() > PAYLOAD_BUF_SIZE {
                        (ParserView { selected: None, buf: p.buf }, None)
                    } else {
                        let buf = spec_overwrite(p.buf, offset, data);
                        if offset + data.len() == total {
                            (
                                ParserView { selected: None, buf },
                                spec_apply(kind, buf.take(total)),
                            )
                        } else {
                            (ParserView { selected: Some(kind), buf }, None)
                        }
                    }
                },
            }
        },
    }
}

/// Per-connection decode state machine for inbound messages, reused across
/// messages: reassembles chunked payloads into a fixed 16-byte buffer and
/// decodes each finished payload with the parser its topic selected.
pub struct MessageParser {
    command_parser: Option<CommandKind>,
    payload_buf: Vec<u8>,
}

impl MessageParser {
    /// The abstract reassembly state.
    pub closed spec fn view(&self) -> ParserView {
        ParserView { selected: self.command_parser, buf: self.payload_buf@ }
    }

    /// The buffer always keeps its full fixed size.
    pub open spec fn wf(&self) -> bool {
        self@.buf.len() == PAYLOAD_BUF_SIZE
    }

    /// A parser with no message in flight and a zeroed buffer.
    pub fn new() -> (r: MessageParser)
        ensures
            r.wf(),
            r@.selected is None,
            r@.buf == Seq::<u8>::new(PAYLOAD_BUF_SIZE as nat, |i: int| 0u8),
    {
        let mut payload_buf: Vec<u8> = Vec::new();
        let mut i: usize = 0;
        while i < PAYLOAD_BUF_SIZE
            invariant
                i <= PAYLOAD_BUF_SIZE,
                payload_buf@ =~= Seq::<u8>::new(i as nat, |k: int| 0u8),
            decreases PAYLOAD_BUF_SIZE - i,
        {
            payload_buf.push(0);
            proof {
                assert(payload_buf@ =~= Seq::<u8>::new((i + 1) as nat, |k: int| 0u8));
            }
            i = i + 1;
        }
        let r = MessageParser { command_parser: None, payload_buf };
        proof {
            assert(r@.buf =~= Seq::<u8>::new(PAYLOAD_BUF_SIZE as nat, |k: int| 0u8));
        }
        r
    }

    /// Copy `data` into the buffer starting at `offset`.
    fn copy_into_buf(&mut self, offset: usize, data: &[u8])
        requires
            old(self).wf(),
            offset + data@.len() <= PAYLOAD_BUF_SIZE,
        ensures
            final(self).wf(),
            final(self)@.selected == old(self)@.selected,
            final(self)@.buf == spec_overwrite(old(self)@.buf, offset as int, data@),
    {
        let ghost orig = self.payload_buf@;
        let n = data.len();
        for k in 0..n
            invariant
                n == data@.len(),
                offset + n <= PAYLOAD_BUF_SIZE,
                self.payload_buf@.len() == PAYLOAD_BUF_SIZE,
                self.command_parser == old(self).command_parser,
                forall|j: int|
                    0 <= j < PAYLOAD_BUF_SIZE ==> #[trigger] self.payload_buf@[j] == (if offset
                        <= j < offset + k {
                        data@[j - offset]
                    } else {
                        orig[j]
                    }),
        {
            let b = data[k];
            self.payload_buf[offset + k] = b;
        }
        proof {
            assert(self.payload_buf@ =~= spec_overwrite(orig, offset as int, data@));
        }
    }

    /// Feed one fragment through the state machine; returns the decoded
    /// command when this fragment completes a decodable message.
    pub fn process(&mut self, message: &Message) -> (r: Option<MqttCommand>)
        requires
            old(self).wf(),
        ensures
            final(self).wf(),
            (final(self)@, r) == spec_process(old(self)@, message@),
    {
        match message {
            Message::Complete { topic, data } => {
                match parse_command(topic.as_slice()) {
                    Some(kind) => apply_command(kind, data.as_slice()),
                    None => None,
                }
            },
            Message::InitialChunk { topic, total, data } => {
                if *total > PAYLOAD_BUF_SIZE || data.len() > *total {
                    self.command_parser = None;
                } else {
                    self.command_parser = parse_command(topic.as_slice());
                    self.copy_into_buf(0, data.as_slice());
                }
                None
            },
            Message::SubsequentChunk { offset, total, data } => {
                match self.command_parser {
                    None => None,
                    Some(kind) => {
                        if *offset > PAYLOAD_BUF_SIZE || PAYLOAD_BUF_SIZE - *offset < data.len() {
                            self.command_parser = None;
                            None
                        } else {
                            self.copy_into_buf(*offset, data.as_slice());
                            if *offset + data.len() == *total {
                                self.command_parser = None;
                                let r = apply_command(
                                    kind,
                                    slice_take(self.payload_buf.as_slice(), *total),
                                );
                                r
                            } else {
                                None
                            }
                        }
                    },
                }
            },
        }
    }
}

/// The first `n` bytes of a slice.
fn slice_take(s: &[u8], n: usize) -> (r: &[u8])
    requires
        n <= s@.len(),
    ensures
        r@ == s@.take(n as int),
{
    let r = &s[0..n];
    proof {
        assert(r@ =~= s@.take(n as int));
    }
    r
}

// ---------------------------------------------------------------------------
// Reassembly laws
// ---------------------------------------------------------------------------

/// The state and outputs after feeding a whole sequence of fragments, in
/// order, through the state machine.
pub open spec fn spec_process_all(p: ParserView, ms: Seq<MessageView>) -> (
    ParserView,
    Seq<Option<MqttCommand>>,
)
    decreases ms.len(),
{
    if ms.len() == 0 {
        (p, Seq::empty())
    } else {
        let step = spec_process(p, ms[0]);
        let rest = spec_process_all(step.0, ms.drop_first());
        (rest.0, seq![step.1] + rest.1)
    }
}

/// The payload the chunks carry, joined in order.
pub open spec fn spec_concat_chunks(chunks: Seq<Seq<u8>>) -> Seq<u8>
    decreases chunks.len(),
{
    if chunks.len() == 0 {
        Seq::empty()
    } else {
        chunks[0] + spec_concat_chunks(chunks.drop_first())
    }
}

/// The total number of bytes the chunks carry.
pub open spec fn spec_chunks_len(chunks: Seq<Seq<u8>>) -> int
    decreases chunks.len(),
{
    if chunks.len() == 0 {
        0
    } else {
        chunks[0].len() + spec_chunks_len(chunks.drop_first())
    }
}

/// No chunk is empty.
pub open spec fn spec_all_nonempty(chunks: Seq<Seq<u8>>) -> bool {
    forall|i: int| 0 <= i < chunks.len() ==> (#[trigger] chunks[i]).len() >= 1
}

/// The subsequent-chunk fragments that deliver `chunks` contiguously,
/// starting at offset `start`, all announcing `total`.
pub open spec fn spec_subsequent_frags(chunks: Seq<Seq<u8>>, start: int, total: int) -> Seq<
    MessageView,
>
    decreases chunks.len(),
{
    if chunks.len() == 0 {
        Seq::empty()
    } else {
        seq![MessageView::SubsequentChunk { offset: start, total, data: chunks[0] }]
            + spec_subsequent_frags(chunks.drop_first(), start + chunks[0].len(), total)
    }
}

/// The fragment sequence of one whole chunked message on `topic`: an
/// initial chunk, then the remaining chunks at their contiguous offsets.
pub open spec fn spec_chunked_frags(topic: Seq<u8>, total: int, chunks: Seq<Seq<u8>>) -> Seq<
    MessageView,
>
    recommends
        chunks.len() >= 1,
{
    seq![MessageView::InitialChunk { topic, total, data: chunks[0] }] + spec_subsequent_frags(
        chunks.drop_first(),
        chunks[0].len() as int,
        total,
    )
}

/// Joined nonempty chunks carry at least one byte each.
proof fn lemma_chunks_len_at_least(chunks: Seq<Seq<u8>>)
    requires
        spec_all_nonempty(chunks),
    ensures
        spec_chunks_len(chunks) >= chunks.len(),
    decreases chunks.len(),
{
    if chunks.len() > 0 {
        assert(chunks[0].len() >= 1);
        assert forall|i: int| 0 <= i < chunks.drop_first().len() implies (#[trigger] chunks.drop_first()[i]).len() >= 1 by {
            assert(chunks.drop_first()[i] == chunks[i + 1]);
        }
        lemma_chunks_len_at_least(chunks.drop_first());
    }
}

/// Feeding the remaining chunks of an in-flight message, contiguously from
/// `start`, produces no output until the last chunk, which runs the
/// selected parser over everything received and resets the selection.
proof fn lemma_subsequent_chain(
    p: ParserView,
    kind: CommandKind,
    chunks: Seq<Seq<u8>>,
    start: int,
    total: int,
)
    requires
        p.selected == Some(kind),
        p.buf.len() == PAYLOAD_BUF_SIZE,
        0 <= start,
        total <= PAYLOAD_BUF_SIZE,
        chunks.len() >= 1,
        spec_all_nonempty(chunks),
        start + spec_chunks_len(chunks) == total,
    ensures
        ({
            let out = spec_process_all(p, spec_subsequent_frags(chunks, start, total));
            &&& out.1.len() == chunks.len()
            &&& forall|i: int| 0 <= i < chunks.len() - 1 ==> out.1[i] is None
            &&& out.1.last() == spec_apply(kind, p.buf.take(start) + spec_concat_chunks(chunks))
            &&& out.0.selected is None
        }),
    decreases chunks.len(),
{
    reveal_with_fuel(spec_process_all, 3);
    let ms = spec_subsequent_frags(chunks, start, total);
    let c0 = chunks[0];
    let rest = chunks.drop_first();
    assert(ms[0] == MessageView::SubsequentChunk { offset: start, total, data: c0 });
    assert(ms.drop_first() =~= spec_subsequent_frags(rest, start + c0.len(), total));
    assert forall|i: int| 0 <= i < rest.len() implies (#[trigger] rest[i]).len() >= 1 by {
        assert(rest[i] == chunks[i + 1]);
    }
    lemma_chunks_len_at_least(rest);
    let buf1 = spec_overwrite(p.buf, start, c0);
    assert(start + c0.len() <= total);
    assert(buf1.len() == PAYLOAD_BUF_SIZE) by {
        assert(buf1 =~= p.buf.take(start) + c0 + p.buf.skip(start + c0.len()));
    }
    if chunks.len() == 1 {
        assert(start + c0.len() == total);
        let step = spec_process(p, ms[0]);
        assert(step.0 == ParserView { selected: None::<CommandKind>, buf: buf1 });
        assert(step.1 == spec_apply(kind, buf1.take(total)));
        assert(buf1.take(total) =~= p.buf.take(start) + c0);
        assert(spec_concat_chunks(rest) =~= Seq::<u8>::empty());
        assert(spec_concat_chunks(chunks) =~= c0);
        assert(ms.drop_first() =~= Seq::<MessageView>::empty());
        let out = spec_process_all(p, ms);
        assert(out.1 =~= seq![step.1]);
    } else {
        assert(rest.len() >= 1);
        assert(spec_chunks_len(rest) >= 1);
        assert(start + c0.len() < total);
        let step = spec_process(p, ms[0]);
        assert(step.1 is None);
        let p1 = ParserView { selected: Some(kind), buf: buf1 };
        assert(step.0 == p1);
        lemma_subsequent_chain(p1, kind, rest, start + c0.len(), total);
        let out_rest = spec_process_all(p1, spec_subsequent_frags(rest, start + c0.len(), total));
        assert(buf1.take(start + c0.len()) =~= p.buf.take(start) + c0);
        assert((p.buf.take(start) + c0) + spec_concat_chunks(rest) =~= p.buf.take(start)
            + spec_concat_chunks(chunks));
        let out = spec_process_all(p, ms);
        assert(out.1 =~= seq![step.1] + out_rest.1);
        assert(out.1.last() == out_rest.1.last());
        assert forall|i: int| 0 <= i < chunks.len() - 1 implies out.1[i] is None by {
            if i > 0 {
                assert(out.1[i] == out_rest.1[i - 1]);
            }
        }
    }
}

/// Reassembly law: a chunked payload whose fragments contiguously
/// partition the announced total, within buffer capacity, on a recognized
/// topic, is reassembled bit-for-bit — every fragment but the last yields
/// nothing, and the last runs the topic's parser exactly once, over
/// exactly the original payload, leaving the machine reset.
pub proof fn lemma_chunked_reassembly(
    p: ParserView,
    topic: Seq<u8>,
    total: int,
    chunks: Seq<Seq<u8>>,
)
    requires
        p.buf.len() == PAYLOAD_BUF_SIZE,
        spec_classify(topic) is Some,
        chunks.len() >= 2,
        spec_all_nonempty(chunks),
        spec_chunks_len(chunks) == total,
        total <= PAYLOAD_BUF_SIZE,
    ensures
        ({
            let out = spec_process_all(p, spec_chunked_frags(topic, total, chunks));
            &&& out.1.len() == chunks.len()
            &&& forall|i: int| 0 <= i < chunks.len() - 1 ==> out.1[i] is None
            &&& out.1.last() == spec_apply(
                spec_classify(topic).unwrap(),
                spec_concat_chunks(chunks),
            )
            &&& out.0.selected is None
        }),
{
    let ms = spec_chunked_frags(topic, total, chunks);
    let c0 = chunks[0];
    let rest = chunks.drop_first();
    let kind = spec_classify(topic).unwrap();
    assert forall|i: int| 0 <= i < rest.len() implies (#[trigger] rest[i]).len() >= 1 by {
        assert(rest[i] == chunks[i + 1]);
    }
    lemma_chunks_len_at_least(rest);
    assert(c0.len() < total);
    assert(ms[0] == MessageView::InitialChunk { topic, total, data: c0 });
    assert(ms.drop_first() =~= spec_subsequent_frags(rest, c0.len() as int, total));
    let step = spec_process(p, ms[0]);
    let buf1 = spec_overwrite(p.buf, 0, c0);
    assert(buf1.len() == PAYLOAD_BUF_SIZE) by {
        assert(buf1 =~= p.buf.take(0) + c0 + p.buf.skip(c0.len() as int));
    }
    let p1 = ParserView { selected: Some(kind), buf: buf1 };
    assert(step.0 == p1);
    assert(step.1 is None);
    lemma_subsequent_chain(p1, kind, rest, c0.len() as int, total);
    let out_rest = spec_process_all(p1, spec_subsequent_frags(rest, c0.len() as int, total));
    assert(buf1.take(c0.len() as int) =~= c0);
    assert(c0 + spec_concat_chunks(rest) =~= spec_concat_chunks(chunks));
    let out = spec_process_all(p, ms);
    assert(out.1 =~= seq![step.1] + out_rest.1);
    assert(out.1.last() == out_rest.1.last());
    assert forall|i: int| 0 <= i < chunks.len() - 1 implies out.1[i] is None by {
        if i > 0 {
            assert(out.1[i] == out_rest.1[i - 1]);
        }
    }
}

/// Every fragment in the sequence is a subsequent chunk.
pub open spec fn spec_all_subsequent(ms: Seq<MessageView>) -> bool {
    forall|i: int| 0 <= i < ms.len() ==> (#[trigger] ms[i]) is SubsequentChunk
}

/// With no parser selected, subsequent chunks are ignored entirely: no
/// output, no state change.
proof fn lemma_unselected_ignores_chunks(p: ParserView, ms: Seq<MessageView>)
    requires
        p.selected is None,
        spec_all_subsequent(ms),
    ensures
        spec_process_all(p, ms).0 == p,
        spec_process_all(p, ms).1.len() == ms.len(),
        forall|i: int| 0 <= i < ms.len() ==> spec_process_all(p, ms).1[i] is None,
    decreases ms.len(),
{
    if ms.len() > 0 {
        assert(ms[0] is SubsequentChunk);
        assert(spec_process(p, ms[0]) == (p, None::<MqttCommand>));
        assert forall|i: int| 0 <= i < ms.drop_first().len() implies (#[trigger] ms.drop_first()[i]) is SubsequentChunk by {
            assert(ms.drop_first()[i] == ms[i + 1]);
        }
        lemma_unselected_ignores_chunks(p, ms.drop_first());
        let out = spec_process_all(p, ms);
        let out_rest = spec_process_all(p, ms.drop_first());
        assert forall|i: int| 0 <= i < ms.len() implies out.1[i] is None by {
            if i > 0 {
                assert(out.1[i] == out_rest.1[i - 1]);
            }
        }
    }
}

/// Abandonment law: an initial chunk announcing more than the buffer
/// capacity abandons the whole message — no parser ever fires for it,
/// however many chunks follow — and the machine is fully reset: the next,
/// unrelated complete message parses exactly as from a fresh state.
pub proof fn lemma_oversized_abandoned(
    p: ParserView,
    topic: Seq<u8>,
    total: int,
    data: Seq<u8>,
    later: Seq<MessageView>,
    topic2: Seq<u8>,
    data2: Seq<u8>,
)
    requires
        total > PAYLOAD_BUF_SIZE,
        spec_all_subsequent(later),
    ensures
        ({
            let ms = seq![MessageView::InitialChunk { topic, total, data }] + later + seq![
                MessageView::Complete { topic: topic2, data: data2 },
            ];
            let out = spec_process_all(p, ms);
            &&& out.1.len() == ms.len()
            &&& forall|i: int| 0 <= i < ms.len() - 1 ==> out.1[i] is None
            &&& out.1.last() == spec_apply_opt(spec_classify(topic2), data2)
        }),
{
    reveal_with_fuel(spec_process_all, 3);
    let ms = seq![MessageView::InitialChunk { topic, total, data }] + later + seq![
        MessageView::Complete { topic: topic2, data: data2 },
    ];
    let step = spec_process(p, ms[0]);
    let p1 = ParserView { selected: None::<CommandKind>, buf: p.buf };
    assert(step.0 == p1);
    assert(step.1 is None);
    let tail = later + seq![MessageView::Complete { topic: topic2, data: data2 }];
    assert(ms.drop_first() =~= tail);
    lemma_unselected_ignores_chunks(p1, later);
    lemma_process_all_append(p1, later, seq![MessageView::Complete { topic: topic2, data: data2 }]);
    let out_later = spec_process_all(p1, later);
    let p2 = out_later.0;
    assert(p2 == p1);
    let out_last = spec_process_all(p2, seq![MessageView::Complete { topic: topic2, data: data2 }]);
    assert(out_last.1 =~= seq![
        spec_apply_opt(spec_classify(topic2), data2),
    ]) by {
        assert(seq![MessageView::Complete { topic: topic2, data: data2 }].drop_first()
            =~= Seq::<MessageView>::empty());
    }
    let out_tail = spec_process_all(p1, tail);
    assert(out_tail.1 =~= out_later.1 + out_last.1);
    let out = spec_process_all(p, ms);
    assert(out.1 =~= seq![step.1] + out_tail.1);
    assert(out.1.len() == ms.len());
    assert(out.1.last() == spec_apply_opt(spec_classify(topic2), data2));
    assert forall|i: int| 0 <= i < ms.len() - 1 implies out.1[i] is None by {
        if i > 0 {
            assert(out.1[i] == out_tail.1[i - 1]);
            if i - 1 < later.len() {
                assert(out_tail.1[i - 1] == out_later.1[i - 1]);
            }
        }
    }
}

/// Processing a concatenation of fragment sequences is processing one
/// after the other.
proof fn lemma_process_all_append(p: ParserView, a: Seq<MessageView>, b: Seq<MessageView>)
    ensures
        ({
            let out_a = spec_process_all(p, a);
            let out_b = spec_process_all(out_a.0, b);
            &&& spec_process_all(p, a + b).0 == out_b.0
            &&& spec_process_all(p, a + b).1 =~= out_a.1 + out_b.1
        }),
    decreases a.len(),
{
    if a.len() == 0 {
        assert(a + b =~= b);
        assert(spec_process_all(p, a).0 == p);
    } else {
        assert((a + b)[0] == a[0]);
        let step = spec_process(p, a[0]);
        assert((a + b).drop_first() =~= a.drop_first() + b);
        lemma_process_all_append(step.0, a.drop_first(), b);
    }
}

// ---------------------------------------------------------------------------
// Outbound publication policy
// ---------------------------------------------------------------------------

/// Delivery guarantee requested for one publication.
#[derive(Clone, Copy, Debug, PartialEq, Eq, Structural)]
pub enum QoS {
    AtMostOnce,
    AtLeastOnce,
    ExactlyOnce,
}

/// Whether a publication at this level needs its broker-assigned message
/// id enqueued for acknowledgement tracking.
pub fn needs_ack(qos: QoS) -> (r: bool)
    ensures
        r == (qos != QoS::AtMostOnce),
{
    match qos {
        QoS::AtMostOnce => false,
        QoS::AtLeastOnce => true,
        QoS::ExactlyOnce => true,
    }
}

/// One outbound publication the policy asks the transport to perform.
pub struct Publication {
    pub topic: Vec<u8>,
    pub qos: QoS,
    pub payload: Vec<u8>,
}

/// The mathematical shape of a publication.
pub struct PublicationView {
    pub topic: Seq<u8>,
    pub qos: QoS,
    pub payload: Seq<u8>,
}

impl View for Publication {
    type V = PublicationView;

    open spec fn view(&self) -> PublicationView {
        PublicationView { topic: self.topic@, qos: self.qos, payload: self.payload@ }
    }
}

/// A publication list, element by element, as its mathematical shape.
pub open spec fn spec_pubs_view(s: Seq<Publication>) -> Seq<PublicationView> {
    s.map_values(|p: Publication| p@)
}

/// The bytes of `"/valve"`.
pub open spec fn spec_valve_topic_suffix() -> Seq<u8> {
    seq![47u8, 118u8, 97u8, 108u8, 118u8, 101u8]
}

/// The bytes of `"/meter/edges"`.
pub open spec fn spec_meter_edges_topic_suffix() -> Seq<u8> {
    seq![47u8, 109u8, 101u8, 116u8, 101u8, 114u8, 47u8, 101u8, 100u8, 103u8, 101u8, 115u8]
}

/// The bytes of `"/meter/armed"`.
pub open spec fn spec_meter_armed_topic_suffix() -> Seq<u8> {
    seq![47u8, 109u8, 101u8, 116u8, 101u8, 114u8, 47u8, 97u8, 114u8, 109u8, 101u8, 100u8]
}

/// The bytes of `"/meter/leak"`.
pub open spec fn spec_meter_leak_topic_suffix() -> Seq<u8> {
    seq![47u8, 109u8, 101u8, 116u8, 101u8, 114u8, 47u8, 108u8, 101u8, 97u8, 107u8]
}

/// The bytes of `"/battery/voltage"`.
pub open spec fn spec_battery_voltage_topic_suffix() -> Seq<u8> {
    seq![47u8, 98u8, 97u8, 116u8, 116u8, 101u8, 114u8, 121u8, 47u8, 118u8, 111u8, 108u8, 116u8, 97u8, 103u8, 101u8]
}

/// The bytes of `"/battery/low"`.
pub open spec fn spec_battery_low_topic_suffix() -> Seq<u8> {
    seq![47u8, 98u8, 97u8, 116u8, 116u8, 101u8, 114u8, 121u8, 47u8, 108u8, 111u8, 119u8]
}

/// The bytes of `"/battery/charged"`.
pub open spec fn spec_battery_charged_topic_suffix() -> Seq<u8> {
    seq![47u8, 98u8, 97u8, 116u8, 116u8, 101u8, 114u8, 121u8, 47u8, 99u8, 104u8, 97u8, 114u8, 103u8, 101u8, 100u8]
}

/// The bytes of `"/powered"`.
pub open spec fn spec_powered_topic_suffix() -> Seq<u8> {
    seq![47u8, 112u8, 111u8, 119u8, 101u8, 114u8, 101u8, 100u8]
}

/// The bytes of `"/commands/#"`: the wildcard the bridge subscribes to.
pub open spec fn spec_commands_wildcard_suffix() -> Seq<u8> {
    seq![47u8, 99u8, 111u8, 109u8, 109u8, 97u8, 110u8, 100u8, 115u8, 47u8, 35u8]
}

/// Two byte strings, joined.
pub fn concat_bytes(a: &[u8], b: &[u8]) -> (r: Vec<u8>)
    ensures
        r@ == a@ + b@,
{
    let mut r: Vec<u8> = Vec::new();
    let na = a.len();
    for i in 0..na
        invariant
            na == a@.len(),
            r@ =~= a@.take(i as int),
    {
        r.push(a[i]);
        proof {
            assert(r@ =~= a@.take(i + 1));
        }
    }
    proof {
        assert(r@ =~= a@);
    }
    let nb = b.len();
    for i in 0..nb
        invariant
            nb == b@.len(),
            r@ =~= a@ + b@.take(i as int),
    {
        r.push(b[i]);
        proof {
            assert(r@ =~= a@ + b@.take(i + 1));
        }
    }
    proof {
        assert(r@ =~= a@ + b@);
    }
    r
}

/// The topic the bridge subscribes to for inbound commands.
pub fn commands_subscription_topic(prefix: &[u8]) -> (r: Vec<u8>)
    ensures
        r@ == prefix@ + spec_commands_wildcard_suffix(),
{
    let sfx: Vec<u8> = vec![47u8, 99u8, 111u8, 109u8, 109u8, 97u8, 110u8, 100u8, 115u8, 47u8, 35u8];
    proof {
        assert(sfx@ =~= spec_commands_wildcard_suffix());
    }
    concat_bytes(prefix, sfx.as_slice())
}

/// The valve status text published for each observable valve state.
pub open spec fn spec_valve_status_payload(v: Option<ValveState>) -> Seq<u8> {
    match v {
        Some(ValveState::Open) => seq![111u8, 112u8, 101u8, 110u8],
        Some(ValveState::Opening) => seq![111u8, 112u8, 101u8, 110u8, 105u8, 110u8, 103u8],
        Some(ValveState::Closed) => seq![99u8, 108u8, 111u8, 115u8, 101u8, 100u8],
        Some(ValveState::Closing) => seq![99u8, 108u8, 111u8, 115u8, 105u8, 110u8, 103u8],
        None => seq![117u8, 110u8, 107u8, 110u8, 111u8, 119u8, 110u8],
    }
}

/// Build the valve status text.
pub fn valve_status_payload(v: Option<ValveState>) -> (r: Vec<u8>)
    ensures
        r@ == spec_valve_status_payload(v),
{
    match v {
        Some(ValveState::Open) => {
            let r: Vec<u8> = vec![111u8, 112u8, 101u8, 110u8];
            proof {
                assert(r@ =~= spec_valve_status_payload(v));
            }
            r
        },
        Some(ValveState::Opening) => {
            let r: Vec<u8> = vec![111u8, 112u8, 101u8, 110u8, 105u8, 110u8, 103u8];
            proof {
                assert(r@ =~= spec_valve_status_payload(v));
            }
            r
        },
        Some(ValveState::Closed) => {
            let r: Vec<u8> = vec![99u8, 108u8, 111u8, 115u8, 101u8, 100u8];
            proof {
                assert(r@ =~= spec_valve_status_payload(v));
            }
            r
        },
        Some(ValveState::Closing) => {
            let r: Vec<u8> = vec![99u8, 108u8, 111u8, 115u8, 105u8, 110u8, 103u8];
            proof {
                assert(r@ =~= spec_valve_status_payload(v));
            }
            r
        },
        None => {
            let r: Vec<u8> = vec![117u8, 110u8, 107u8, 110u8, 111u8, 119u8, 110u8];
            proof {
                assert(r@ =~= spec_valve_status_payload(v));
            }
            r
        },
    }
}

/// Publications a valve status snapshot requires: the status text, on
/// every snapshot, at least once.
pub open spec fn spec_valve_publications(prefix: Seq<u8>, v: Option<ValveState>) -> Seq<
    PublicationView,
> {
    seq![
        PublicationView {
            topic: prefix + spec_valve_topic_suffix(),
            qos: QoS::AtLeastOnce,
            payload: spec_valve_status_payload(v),
        },
    ]
}

/// Publications a water-meter snapshot requires: each field that changed
/// against its previous value, at least once. The leak topic mirrors the
/// armed flag's value, as the deployed policy has it.
pub open spec fn spec_water_meter_publications(prefix: Seq<u8>, s: WaterMeterState) -> Seq<
    PublicationView,
> {
    (if s.prev_edges_count != s.edges_count {
        seq![
            PublicationView {
                topic: prefix + spec_meter_edges_topic_suffix(),
                qos: QoS::AtLeastOnce,
                payload: vstd::bytes::spec_u64_to_le_bytes(s.edges_count),
            },
        ]
    } else {
        Seq::empty()
    }) + (if s.prev_armed != s.armed {
        seq![
            PublicationView {
                topic: prefix + spec_meter_armed_topic_suffix(),
                qos: QoS::AtLeastOnce,
                payload: spec_bool_payload(s.armed),
            },
        ]
    } else {
        Seq::empty()
    }) + (if s.prev_leaking != s.leaking {
        seq![
            PublicationView {
                topic: prefix + spec_meter_leak_topic_suffix(),
                qos: QoS::AtLeastOnce,
                payload: spec_bool_payload(s.armed),
            },
        ]
    } else {
        Seq::empty()
    })
}

/// The low-battery alert: published exactly when the voltage crosses the
/// low threshold, with the side it lands on.
pub open spec fn spec_battery_low_publications(prefix: Seq<u8>, prev: Option<u16>, v: u16) -> Seq<
    PublicationView,
> {
    match prev {
        Some(pv) => if (pv > BatteryState::LOW_VOLTAGE) != (v > BatteryState::LOW_VOLTAGE) {
            seq![
                PublicationView {
                    topic: prefix + spec_battery_low_topic_suffix(),
                    qos: QoS::AtLeastOnce,
                    payload: spec_bool_payload(v <= BatteryState::LOW_VOLTAGE),
                },
            ]
        } else {
            Seq::empty()
        },
        None => Seq::empty(),
    }
}

/// The charged alert: published exactly when the voltage crosses the full
/// threshold, with the side it lands on.
pub open spec fn spec_battery_charged_publications(
    prefix: Seq<u8>,
    prev: Option<u16>,
    v: u16,
) -> Seq<PublicationView> {
    match prev {
        Some(pv) => if (pv >= BatteryState::MAX_VOLTAGE) != (v >= BatteryState::MAX_VOLTAGE) {
            seq![
                PublicationView {
                    topic: prefix + spec_battery_charged_topic_suffix(),
                    qos: QoS::AtMostOnce,
                    payload: spec_bool_payload(v >= BatteryState::MAX_VOLTAGE),
                },
            ]
        } else {
            Seq::empty()
        },
        None => Seq::empty(),
    }
}

/// Publications a battery snapshot requires: the voltage when it changed
/// (at most once), the threshold alerts when crossed, and the powered flag
/// when it changed (at most once).
pub open spec fn spec_battery_publications(prefix: Seq<u8>, s: BatteryState) -> Seq<
    PublicationView,
> {
    (if s.prev_voltage != s.voltage {
        match s.voltage {
            Some(v) => seq![
                PublicationView {
                    topic: prefix + spec_battery_voltage_topic_suffix(),
                    qos: QoS::AtMostOnce,
                    payload: vstd::bytes::spec_u16_to_le_bytes(v),
                },
            ] + spec_battery_low_publications(prefix, s.prev_voltage, v)
                + spec_battery_charged_publications(prefix, s.prev_voltage, v),
            None => Seq::empty(),
        }
    } else {
        Seq::empty()
    }) + (if s.prev_powered != s.powered {
        match s.powered {
            Some(p) => seq![
                PublicationView {
                    topic: prefix + spec_powered_topic_suffix(),
                    qos: QoS::AtMostOnce,
                    payload: spec_bool_payload(p),
                },
            ],
            None => Seq::empty(),
        }
    } else {
        Seq::empty()
    })
}

/// Build the publications one valve status snapshot requires.
pub fn valve_publications(prefix: &[u8], v: Option<ValveState>) -> (r: Vec<Publication>)
    ensures
        spec_pubs_view(r@) == spec_valve_publications(prefix@, v),
{
    let sfx: Vec<u8> = vec![47u8, 118u8, 97u8, 108u8, 118u8, 101u8];
    proof {
        assert(sfx@ =~= spec_valve_topic_suffix());
    }
    let topic = concat_bytes(prefix, sfx.as_slice());
    let payload = valve_status_payload(v);
    let mut r: Vec<Publication> = Vec::new();
    r.push(Publication { topic, qos: QoS::AtLeastOnce, payload });
    proof {
        assert(spec_pubs_view(r@) =~= spec_valve_publications(prefix@, v));
    }
    r
}

/// Build the publications one water-meter snapshot requires.
pub fn water_meter_publications(prefix: &[u8], s: &WaterMeterState) -> (r: Vec<Publication>)
    ensures
        spec_pubs_view(r@) == spec_water_meter_publications(prefix@, *s),
{
    let mut r: Vec<Publication> = Vec::new();
    if s.prev_edges_count != s.edges_count {
        let sfx: Vec<u8> = vec![47u8, 109u8, 101u8, 116u8, 101u8, 114u8, 47u8, 101u8, 100u8, 103u8, 101u8, 115u8];
        proof {
            assert(sfx@ =~= spec_meter_edges_topic_suffix());
        }
        let topic = concat_bytes(prefix, sfx.as_slice());
        let payload = vstd::bytes::u64_to_le_bytes(s.edges_count);
        r.push(Publication { topic, qos: QoS::AtLeastOnce, payload });
    }
    if s.prev_armed != s.armed {
        let sfx: Vec<u8> = vec![47u8, 109u8, 101u8, 116u8, 101u8, 114u8, 47u8, 97u8, 114u8, 109u8, 101u8, 100u8];
        proof {
            assert(sfx@ =~= spec_meter_armed_topic_suffix());
        }
        let topic = concat_bytes(prefix, sfx.as_slice());
        let payload = bool_payload(s.armed);
        r.push(Publication { topic, qos: QoS::AtLeastOnce, payload });
    }
    if s.prev_leaking != s.leaking {
        let sfx: Vec<u8> = vec![47u8, 109u8, 101u8, 116u8, 101u8, 114u8, 47u8, 108u8, 101u8, 97u8, 107u8];
        proof {
            assert(sfx@ =~= spec_meter_leak_topic_suffix());
        }
        let topic = concat_bytes(prefix, sfx.as_slice());
        let payload = bool_payload(s.armed);
        r.push(Publication { topic, qos: QoS::AtLeastOnce, payload });
    }
    proof {
        assert(spec_pubs_view(r@) =~= spec_water_meter_publications(prefix@, *s));
    }
    r
}

/// Build the publications one battery snapshot requires.
pub fn battery_publications(prefix: &[u8], s: &BatteryState) -> (r: Vec<Publication>)
    ensures
        spec_pubs_view(r@) == spec_battery_publications(prefix@, *s),
{
    let mut r: Vec<Publication> = Vec::new();
    if s.prev_voltage != s.voltage {
        if let Some(v) = s.voltage {
            let sfx: Vec<u8> = vec![47u8, 98u8, 97u8, 116u8, 116u8, 101u8, 114u8, 121u8, 47u8, 118u8, 111u8, 108u8, 116u8, 97u8, 103u8, 101u8];
            proof {
                assert(sfx@ =~= spec_battery_voltage_topic_suffix());
            }
            let topic = concat_bytes(prefix, sfx.as_slice());
            let payload = vstd::bytes::u16_to_le_bytes(v);
            r.push(Publication { topic, qos: QoS::AtMostOnce, payload });
            if let Some(pv) = s.prev_voltage {
                if (pv > BatteryState::LOW_VOLTAGE) != (v > BatteryState::LOW_VOLTAGE) {
                    let sfx_low: Vec<u8> = vec![47u8, 98u8, 97u8, 116u8, 116u8, 101u8, 114u8, 121u8, 47u8, 108u8, 111u8, 119u8];
                    proof {
                        assert(sfx_low@ =~= spec_battery_low_topic_suffix());
                    }
                    let topic_low = concat_bytes(prefix, sfx_low.as_slice());
                    let payload_low = bool_payload(v <= BatteryState::LOW_VOLTAGE);
                    r.push(Publication { topic: topic_low, qos: QoS::AtLeastOnce, payload: payload_low });
                }
                if (pv >= BatteryState::MAX_VOLTAGE) != (v >= BatteryState::MAX_VOLTAGE) {
                    let sfx_chg: Vec<u8> = vec![47u8, 98u8, 97u8, 116u8, 116u8, 101u8, 114u8, 121u8, 47u8, 99u8, 104u8, 97u8, 114u8, 103u8, 101u8, 100u8];
                    proof {
                        assert(sfx_chg@ =~= spec_battery_charged_topic_suffix());
                    }
                    let topic_chg = concat_bytes(prefix, sfx_chg.as_slice());
                    let payload_chg = bool_payload(v >= BatteryState::MAX_VOLTAGE);
                    r.push(Publication { topic: topic_chg, qos: QoS::AtMostOnce, payload: payload_chg });
                }
            }
        }
    }
    if s.prev_powered != s.powered {
        if let Some(p) = s.powered {
            let sfx: Vec<u8> = vec![47u8, 112u8, 111u8, 119u8, 101u8, 114u8, 101u8, 100u8];
            proof {
                assert(sfx@ =~= spec_powered_topic_suffix());
            }
            let topic = concat_bytes(prefix, sfx.as_slice());
            let payload = bool_payload(p);
            r.push(Publication { topic, qos: QoS::AtMostOnce, payload });
        }
    }
    proof {
        assert(spec_pubs_view(r@) =~= spec_battery_publications(prefix@, *s));
    }
    r
}

/// What one iteration of the sender loop publishes: the policy applied to
/// whichever snapshot the race delivered.
pub open spec fn spec_sender_publications(
    prefix: Seq<u8>,
    valve: Option<Option<ValveState>>,
    wm: Option<WaterMeterState>,
    batt: Option<BatteryState>,
) -> Seq<PublicationView> {
    (match valve {
        Some(v) => spec_valve_publications(prefix, v),
        None => Seq::empty(),
    }) + (match wm {
        Some(s) => spec_water_meter_publications(prefix, s),
        None => Seq::empty(),
    }) + (match batt {
        Some(s) => spec_battery_publications(prefix, s),
        None => Seq::empty(),
    })
}

/// Build what one iteration of the sender loop publishes. The transport
/// performs these in order and aborts on its first failure.
pub fn sender_publications(
    prefix: &[u8],
    valve: Option<Option<ValveState>>,
    wm: Option<WaterMeterState>,
    batt: Option<BatteryState>,
) -> (r: Vec<Publication>)
    ensures
        spec_pubs_view(r@) == spec_sender_publications(prefix@, valve, wm, batt),
{
    let mut r: Vec<Publication> = Vec::new();
    if let Some(v) = valve {
        let mut part = valve_publications(prefix, v);
        r.append(&mut part);
    }
    proof {
        assert(spec_pubs_view(r@) =~= (match valve {
            Some(v) => spec_valve_publications(prefix@, v),
            None => Seq::empty(),
        }));
    }
    let ghost after_valve = r@;
    if let Some(s) = wm {
        let mut part = water_meter_publications(prefix, &s);
        r.append(&mut part);
    }
    proof {
        assert(spec_pubs_view(r@) =~= spec_pubs_view(after_valve) + (match wm {
            Some(s) => spec_water_meter_publications(prefix@, s),
            None => Seq::empty(),
        }));
    }
    let ghost after_wm = r@;
    if let Some(s) = batt {
        let mut part = battery_publications(prefix, &s);
        r.append(&mut part);
    }
    proof {
        assert(spec_pubs_view(r@) =~= spec_pubs_view(after_wm) + (match batt {
            Some(s) => spec_battery_publications(prefix@, s),
            None => Seq::empty(),
        }));
        assert(spec_pubs_view(r@) =~= spec_sender_publications(prefix@, valve, wm, batt));
    }
    r
}

/// Translate a decoded inbound command into device actions: valve commands
/// open or close the valve, flow-watch commands arm or disarm the meter;
/// keep-alive and system-update are decoded but reserved, driving nothing
/// yet.
pub fn translate_command(cmd: MqttCommand) -> (r: (Option<ValveCommand>, Option<
    WaterMeterCommand,
>))
    ensures
        r.0 == (match cmd {
            MqttCommand::Valve(true) => Some(ValveCommand::Open),
            MqttCommand::Valve(false) => Some(ValveCommand::Close),
            _ => None::<ValveCommand>,
        }),
        r.1 == (match cmd {
            MqttCommand::FlowWatch(true) => Some(WaterMeterCommand::Arm),
            MqttCommand::FlowWatch(false) => Some(WaterMeterCommand::Disarm),
            _ => None::<WaterMeterCommand>,
        }),
{
    match cmd {
        MqttCommand::Valve(open) => (
            if open {
                Some(ValveCommand::Open)
            } else {
                Some(ValveCommand::Close)
            },
            None,
        ),
        MqttCommand::FlowWatch(enable) => (
            None,
            if enable {
                Some(WaterMeterCommand::Arm)
            } else {
                Some(WaterMeterCommand::Disarm)
            },
        ),
        MqttCommand::KeepAlive(_) => (None, None),
        MqttCommand::SystemUpdate => (None, None),
    }
}

} // verus!
