//! The WebSocket session actor: one per client connection.
//!
//! The session parses inbound frames in both dialects, keeps the client's
//! subscription set, asks the distributor to mirror it, and encodes outbound
//! frames — every snapshot goes out in both dialects, legacy first.

use vstd::prelude::*;
use crate::codec::{i64_jspec, snap_jspec};
use crate::json::{Dec, JSpec, JVal, jprint, to_text, print_u64, spec_parse_text};
use crate::messages::{
    spec_parse_client, parse_client_message, LegacyClientMessage, LegacyClientView,
    WsClientMessage, WsClientView,
};
use crate::smap::{lemma_take_to_set_step, StrSet, views_of};
use crate::snapshot::{Snapshot, SnapshotView, TriVal};

verus! {

/// Seconds between keep-alive pings.
pub const HEARTBEAT_INTERVAL_SECS: u64 = 10;

/// Seconds of client silence after which the connection is dropped.
pub const CLIENT_TIMEOUT_SECS: u64 = 30;

/// What a heartbeat tick decides.
#[derive(Clone, Copy, Debug, PartialEq, Eq, Structural)]
pub enum HeartbeatAction {
    /// Send a ping frame.
    SendPing,
    /// The client has been silent too long: close and unregister.
    Close,
}

/// The heartbeat rule: ping while the client is live, close after thirty
/// silent seconds.
pub fn heartbeat_tick(elapsed_secs: u64) -> (r: HeartbeatAction)
    ensures
        r == (if elapsed_secs > CLIENT_TIMEOUT_SECS {
            HeartbeatAction::Close
        } else {
            HeartbeatAction::SendPing
        }),
{
    if elapsed_secs > CLIENT_TIMEOUT_SECS {
        HeartbeatAction::Close
    } else {
        HeartbeatAction::SendPing
    }
}

/// Index of the first `c` at or after `i`, or `s.len()`.
pub open spec fn find_char_from(s: Seq<char>, i: int, c: char) -> int
    decreases s.len() - i,
{
    if i < 0 || i >= s.len() {
        s.len() as int
    } else if s[i] == c {
        i
    } else {
        find_char_from(s, i + 1, c)
    }
}

/// A comma-joined list split into its nonempty segments.
pub open spec fn spec_split_ids(s: Seq<char>, i: int) -> Seq<Seq<char>>
    decreases s.len() - i,
{
    if i < 0 || i >= s.len() {
        Seq::empty()
    } else {
        let e = find_char_from(s, i, ',');
        let e1 = if e < i {
            i
        } else if e > s.len() {
            s.len() as int
        } else {
            e
        };
        let seg = s.subrange(i, e1);
        if e1 >= s.len() {
            if seg.len() == 0 {
                Seq::empty()
            } else {
                seq![seg]
            }
        } else {
            let rest = spec_split_ids(s, e1 + 1);
            if seg.len() == 0 {
                rest
            } else {
                seq![seg] + rest
            }
        }
    }
}

/// A list of ids joined with commas.
pub open spec fn spec_join_ids(ids: Seq<Seq<char>>) -> Seq<char>
    decreases ids.len(),
{
    if ids.len() == 0 {
        Seq::empty()
    } else if ids.len() == 1 {
        ids[0]
    } else {
        spec_join_ids(ids.drop_last()) + seq![','] + ids.last()
    }
}

/// Strings as JSON string values.
pub open spec fn strs_docs(ids: Seq<Seq<char>>) -> Seq<JSpec> {
    Seq::new(ids.len(), |q: int| JSpec::Str(ids[q]))
}

/// `{"type":"error","payload":{"message":...}}`
pub open spec fn legacy_error_doc(msg: Seq<char>) -> JSpec {
    JSpec::Obj(
        seq![
            ("type"@, JSpec::Str("error"@)),
            ("payload"@, JSpec::Obj(seq![("message"@, JSpec::Str(msg))])),
        ],
    )
}

/// `{"type":"system","payload":{"message":...}}`
pub open spec fn legacy_system_doc(msg: Seq<char>) -> JSpec {
    JSpec::Obj(
        seq![
            ("type"@, JSpec::Str("system"@)),
            ("payload"@, JSpec::Obj(seq![("message"@, JSpec::Str(msg))])),
        ],
    )
}

/// `{"type":"pong"}`
pub open spec fn legacy_pong_doc() -> JSpec {
    JSpec::Obj(seq![("type"@, JSpec::Str("pong"@))])
}

/// `{"type":"subscriptions","payload":{"instruments":[...]}}`
pub open spec fn legacy_subscriptions_doc(ids: Seq<Seq<char>>) -> JSpec {
    JSpec::Obj(
        seq![
            ("type"@, JSpec::Str("subscriptions"@)),
            ("payload"@, JSpec::Obj(seq![("instruments"@, JSpec::Arr(strs_docs(ids)))])),
        ],
    )
}

/// `{"aid":...,"ins_list":...}` — the platform-style acks.
pub open spec fn tv_rsp_doc(aid: Seq<char>, ins_list: Seq<char>) -> JSpec {
    JSpec::Obj(seq![("aid"@, JSpec::Str(aid)), ("ins_list"@, JSpec::Str(ins_list))])
}

/// `{"type":"market_data","payload":{"data":<snapshot>}}` — the legacy
/// per-update frame.
pub open spec fn market_data_doc(s: SnapshotView) -> JSpec {
    JSpec::Obj(
        seq![
            ("type"@, JSpec::Str("market_data"@)),
            ("payload"@, JSpec::Obj(seq![("data"@, snap_jspec(s))])),
        ],
    )
}

/// A tri-valued field as a plain number, zero when absent or sentinel.
pub open spec fn tri_num_or_zero(t: TriVal) -> JSpec {
    match t {
        TriVal::Num(d) => JSpec::Num(d),
        _ => JSpec::Num(Dec { neg: false, int_part: 0, frac: 0, frac_len: 1 }),
    }
}

/// A tri-valued field truncated to an integer, zero when absent or sentinel.
pub open spec fn tri_int_or_zero(t: TriVal) -> JSpec {
    match t {
        TriVal::Num(d) => if d.int_part <= 0x7fff_ffff_ffff_ffffu64 {
            JSpec::Num(Dec { neg: d.neg, int_part: d.int_part, frac: 0, frac_len: 0 })
        } else {
            i64_jspec(0)
        },
        _ => i64_jspec(0),
    }
}

/// The flat quote projection of a snapshot in the platform dialect. Fields
/// the snapshot does not carry default to zero.
pub open spec fn tv_quote_doc(s: SnapshotView) -> JSpec {
    JSpec::Obj(
        seq![
            ("instrument_id"@, JSpec::Str(s.instrument_id)),
            ("datetime"@, JSpec::Str(s.datetime)),
            ("last_price"@, JSpec::Num(s.last_price)),
            ("volume"@, i64_jspec(s.volume)),
            ("amount"@, JSpec::Num(s.amount)),
            ("open"@, JSpec::Num(s.open)),
            ("high"@, JSpec::Num(s.highest)),
            ("low"@, JSpec::Num(s.lowest)),
            ("bid_price1"@, JSpec::Num(s.bid_price1)),
            ("bid_volume1"@, i64_jspec(s.bid_volume1)),
            ("ask_price1"@, JSpec::Num(s.ask_price1)),
            ("ask_volume1"@, i64_jspec(s.ask_volume1)),
            ("volume_multiple"@, i64_jspec(1)),
            ("price_tick"@, JSpec::Num(Dec { neg: false, int_part: 0, frac: 1, frac_len: 2 })),
            ("price_decs"@, i64_jspec(2)),
            ("max_market_order_volume"@, i64_jspec(0)),
            ("min_market_order_volume"@, i64_jspec(0)),
            ("max_limit_order_volume"@, i64_jspec(0)),
            ("min_limit_order_volume"@, i64_jspec(0)),
            ("margin"@, JSpec::Num(Dec { neg: false, int_part: 0, frac: 0, frac_len: 1 })),
            ("commission"@, JSpec::Num(Dec { neg: false, int_part: 0, frac: 0, frac_len: 1 })),
            ("upper_limit"@, JSpec::Num(s.upper_limit)),
            ("lower_limit"@, JSpec::Num(s.lower_limit)),
            ("pre_close"@, JSpec::Num(s.pre_close)),
            ("pre_settlement"@, tri_num_or_zero(s.pre_settlement)),
            ("pre_open_interest"@, tri_int_or_zero(s.pre_open_interest)),
            ("open_interest"@, tri_int_or_zero(s.open_interest)),
            ("close"@, tri_num_or_zero(s.close)),
            ("settlement"@, tri_num_or_zero(s.settlement)),
            ("average"@, JSpec::Num(s.average)),
        ],
    )
}

/// `{"aid":"rtn_data","data":[{"quotes":{<id>:<quote>}}]}` — the platform
/// per-update frame.
pub open spec fn tv_frame_doc(s: SnapshotView) -> JSpec {
    JSpec::Obj(
        seq![
            ("aid"@, JSpec::Str("rtn_data"@)),
            (
                "data"@,
                JSpec::Arr(
                    seq![
                        JSpec::Obj(
                            seq![
                                (
                                    "quotes"@,
                                    JSpec::Obj(seq![(s.instrument_id, tv_quote_doc(s))]),
                                ),
                            ],
                        ),
                    ],
                ),
            ),
        ],
    )
}

/// Frames a session may buffer before its socket accepts them.
pub const SESSION_OUTBOX_CAPACITY: usize = 1024;

/// A bounded outbound frame queue with a drop-oldest policy: a full outbox
/// never blocks the distributor — the oldest pending frame is dropped to
/// make room for the new one.
pub struct Outbox {
    frames: Vec<String>,
    capacity: usize,
}

impl Outbox {
    /// The pending frames, oldest first.
    pub closed spec fn pending(&self) -> Seq<Seq<char>> {
        views_of(self.frames@)
    }

    /// The bound this outbox was made with.
    pub closed spec fn cap(&self) -> nat {
        self.capacity as nat
    }

    pub open spec fn wf(&self) -> bool {
        &&& self.cap() >= 1
        &&& self.pending().len() <= self.cap()
    }

    pub fn new(capacity: usize) -> (r: Outbox)
        requires
            capacity >= 1,
        ensures
            r.wf(),
            r.cap() == capacity,
            r.pending() =~= Seq::<Seq<char>>::empty(),
    {
        Outbox { frames: Vec::new(), capacity }
    }

    pub fn len(&self) -> (r: usize)
        ensures
            r == self.pending().len(),
    {
        self.frames.len()
    }

    /// Enqueues a frame; when the outbox is full the oldest pending frame is
    /// dropped, never the distributor blocked.
    pub fn push(&mut self, frame: String)
        requires
            old(self).wf(),
        ensures
            final(self).wf(),
            final(self).cap() == old(self).cap(),
            final(self).pending() =~= (if old(self).pending().len() < old(self).cap() {
                old(self).pending().push(frame@)
            } else {
                old(self).pending().drop_first().push(frame@)
            }),
    {
        if self.frames.len() >= self.capacity {
            self.frames.remove(0);
            proof {
                assert(views_of(self.frames@) =~= old(self).pending().drop_first());
            }
        }
        let ghost mid = views_of(self.frames@);
        self.frames.push(frame);
        proof {
            assert(views_of(self.frames@) =~= mid.push(frame@));
        }
    }

    /// Dequeues the oldest pending frame, if any.
    pub fn pop(&mut self) -> (r: Option<String>)
        requires
            old(self).wf(),
        ensures
            final(self).wf(),
            final(self).cap() == old(self).cap(),
            match r {
                Some(f) => old(self).pending().len() > 0 && f@ == old(self).pending()[0]
                    && final(self).pending() =~= old(self).pending().drop_first(),
                None => old(self).pending().len() == 0 && final(self).pending() == old(
                    self,
                ).pending(),
            },
    {
        if self.frames.len() == 0 {
            return None;
        }
        let f = self.frames.remove(0);
        proof {
            assert(views_of(self.frames@) =~= old(self).pending().drop_first());
        }
        Some(f)
    }
}

/// An outbound message in the legacy dialect.
pub enum LegacyServerMessage {
    /// One quote update.
    MarketData { data: Snapshot },
    /// A human-readable notice.
    System { message: String },
    /// A human-readable error; the connection stays open.
    Error { message: String },
    /// The client's current subscription list.
    Subscriptions { instruments: Vec<String> },
    /// The answer to a ping.
    Pong,
}

/// The document a legacy server message renders to.
pub open spec fn server_message_doc(m: &LegacyServerMessage) -> JSpec {
    match m {
        LegacyServerMessage::MarketData { data } => market_data_doc(data@),
        LegacyServerMessage::System { message } => legacy_system_doc(message@),
        LegacyServerMessage::Error { message } => legacy_error_doc(message@),
        LegacyServerMessage::Subscriptions { instruments } => legacy_subscriptions_doc(
            views_of(instruments@),
        ),
        LegacyServerMessage::Pong => legacy_pong_doc(),
    }
}

/// Renders a legacy server message as one text frame.
pub fn encode_server_message(m: &LegacyServerMessage) -> (r: String)
    ensures
        r@ == jprint(server_message_doc(m)),
{
    match m {
        LegacyServerMessage::MarketData { data } => market_data_frame(data),
        LegacyServerMessage::System { message } => legacy_system_frame(message.as_str()),
        LegacyServerMessage::Error { message } => legacy_error_frame(message.as_str()),
        LegacyServerMessage::Subscriptions { instruments } => legacy_subscriptions_frame(
            instruments,
        ),
        LegacyServerMessage::Pong => legacy_pong_frame(),
    }
}

/// One step of the session: the frames to send back, in order, and — when
/// the client's subscription set changed — the full new set to hand to the
/// distributor.
pub struct SessionStep {
    pub frames: Vec<String>,
    pub update: Option<Vec<String>>,
}

/// One WebSocket connection's state.
pub struct WsSession {
    /// The stable unique client id this connection registered under.
    pub client_id: String,
    /// What this client currently wants to receive.
    pub subscriptions: StrSet,
}

impl WsSession {
    pub open spec fn wf(&self) -> bool {
        self.subscriptions.wf()
    }

    pub fn new(client_id: String) -> (r: WsSession)
        ensures
            r.wf(),
            r.client_id == client_id,
            r.subscriptions@ =~= Set::<Seq<char>>::empty(),
    {
        WsSession { client_id, subscriptions: StrSet::new() }
    }

    /// Splits a platform-style comma-joined instrument list, dropping empty
    /// segments.
    pub fn parse_tv_instruments(&self, ins_list: &str) -> (r: Vec<String>)
        ensures
            views_of(r@) == spec_split_ids(ins_list@, 0),
    {
        let n: usize = ins_list.unicode_len();
        let mut out: Vec<String> = Vec::new();
        let mut i: usize = 0;
        let mut seg: Vec<char> = Vec::new();
        let ghost s = ins_list@;
        while i < n
            invariant
                0 <= i <= n,
                n == s.len(),
                s == ins_list@,
                seg@ =~= s.subrange(i - seg@.len(), i as int),
                seg@.len() <= i,
                forall|w: int| i - seg@.len() <= w < i ==> s[w] != ',',
                spec_split_ids(s, 0) == views_of(out@) + spec_split_ids(
                    s,
                    i - seg@.len() as int,
                ),
            decreases n - i,
        {
            let c = ins_list.get_char(i);
            if c == ',' {
                proof {
                    let start = i - seg@.len();
                    lemma_find_char_skips(s, start, i as int, ',');
                    assert(find_char_from(s, start, ',') == i);
                    assert(s.subrange(start, i as int) == seg@);
                }
                if seg.len() > 0 {
                    let ghost pre = out@;
                    let idstr = crate::strutil::chars_to_string(&seg);
                    out.push(idstr);
                    proof {
                        assert(views_of(out@) =~= views_of(pre).push(seg@));
                        assert forall|rest: Seq<Seq<char>>| true implies views_of(pre) + (seq![
                            seg@,
                        ] + rest) =~= views_of(out@) + rest by {}
                    }
                }
                seg = Vec::new();
            } else {
                seg.push(c);
                proof {
                    assert(seg@ =~= s.subrange(i + 1 - seg@.len(), i + 1 as int));
                }
            }
            i = i + 1;
        }
        proof {
            let start = n - seg@.len();
            lemma_find_char_skips(s, start as int, n as int, ',');
        }
        if seg.len() > 0 {
            let ghost pre = out@;
            let idstr = crate::strutil::chars_to_string(&seg);
            out.push(idstr);
            proof {
                assert(views_of(out@) =~= views_of(pre).push(seg@));
                assert(s.subrange(n - seg@.len(), n as int) == seg@);
                assert(spec_split_ids(s, n - seg@.len() as int) =~= seq![seg@]);
                assert(views_of(pre) + seq![seg@] =~= views_of(out@));
            }
        } else {
            proof {
                assert(spec_split_ids(s, n - seg@.len() as int) =~= Seq::<Seq<char>>::empty());
                assert(views_of(out@) + Seq::<Seq<char>>::empty() =~= views_of(out@));
            }
        }
        out
    }

    /// The greeting sent when the connection opens.
    pub fn greeting_frame(&self) -> (r: String)
        ensures
            r@ == jprint(
                legacy_system_doc(
                    "Connected to QAMD Gateway WebSocket. Session ID: "@ + self.client_id@,
                ),
            ),
    {
        let mut msg = String::new();
        msg.append("Connected to QAMD Gateway WebSocket. Session ID: ");
        msg.append(self.client_id.as_str());
        proof {
            assert(msg@ =~= "Connected to QAMD Gateway WebSocket. Session ID: "@
                + self.client_id@);
        }
        legacy_system_frame(msg.as_str())
    }

    /// Both per-update frames for one snapshot, legacy dialect first. Both
    /// are sent on every update to every subscriber.
    pub fn market_data_frames(&self, snap: &Snapshot) -> (r: Vec<String>)
        ensures
            r@.len() == 2,
            r@[0]@ == jprint(market_data_doc(snap@)),
            r@[1]@ == jprint(tv_frame_doc(snap@)),
    {
        let mut out: Vec<String> = Vec::new();
        out.push(market_data_frame(snap));
        out.push(tv_frame(snap));
        out
    }

    /// True when this session subscribes to the instrument.
    pub fn wants(&self, instrument: &str) -> (r: bool)
        ensures
            r == self.subscriptions@.contains(instrument@),
    {
        self.subscriptions.contains(instrument)
    }

    /// Handles one inbound text frame: parses it in either dialect, updates
    /// the local subscription set, and produces the reply frames plus — when
    /// the set changed — the full new set for the distributor.
    ///
    /// Unparseable JSON and unknown requests produce an error envelope and
    /// leave the connection open.
    #[verifier::rlimit(100)]
    pub fn on_text(&mut self, text: &str) -> (r: SessionStep)
        requires
            old(self).wf(),
        ensures
            final(self).wf(),
            final(self).client_id == old(self).client_id,
            ({
                let cmd = spec_parse_client(text@);
                if spec_parse_text(text@) is None {
                    &&& final(self).subscriptions@ == old(self).subscriptions@
                    &&& r.update is None
                    &&& r.frames@.len() == 1
                    &&& r.frames@[0]@ == jprint(legacy_error_doc("Invalid JSON"@))
                } else if cmd is None {
                    &&& final(self).subscriptions@ == old(self).subscriptions@
                    &&& r.update is None
                    &&& r.frames@.len() == 1
                    &&& r.frames@[0]@ == jprint(legacy_error_doc("Invalid message format"@))
                } else {
                    match cmd->Some_0 {
                        WsClientView::TvSubscribeQuote { aid, ins_list } => {
                            &&& final(self).subscriptions@ =~= spec_split_ids(
                                ins_list,
                                0,
                            ).to_set()
                            &&& (match r.update {
                                Some(l) => views_of(l@) == spec_split_ids(ins_list, 0),
                                None => false,
                            })
                            &&& r.frames@.len() == 1
                            &&& r.frames@[0]@ == jprint(
                                tv_rsp_doc("rsp_subscribe_quote"@, ins_list),
                            )
                        },
                        WsClientView::PeekMessage { aid } => if aid == "peek_message"@ {
                            &&& final(self).subscriptions@ == old(self).subscriptions@
                            &&& r.update is None
                            &&& r.frames@.len() == 1
                            &&& r.frames@[0]@ == jprint(
                                tv_rsp_doc(
                                    "rsp_peek_message"@,
                                    spec_join_ids(old(self).subscriptions.sseq()),
                                ),
                            )
                        } else {
                            &&& final(self).subscriptions@ == old(self).subscriptions@
                            &&& r.update is None
                            &&& r.frames@.len() == 1
                            &&& r.frames@[0]@ == jprint(
                                legacy_error_doc("Unknown aid type: "@ + aid),
                            )
                        },
                        WsClientView::LegacyMessage(lm) => match lm {
                            LegacyClientView::Subscribe(ids) => if ids.len() == 0 {
                                &&& final(self).subscriptions@ == old(self).subscriptions@
                                &&& r.update is None
                                &&& r.frames@.len() == 1
                                &&& r.frames@[0]@ == jprint(
                                    legacy_error_doc("No instruments specified"@),
                                )
                            } else {
                                &&& final(self).subscriptions@ =~= old(
                                    self,
                                ).subscriptions@.union(ids.to_set())
                                &&& (match r.update {
                                    Some(l) => views_of(l@) == final(self).subscriptions.sseq(),
                                    None => false,
                                })
                                &&& r.frames@.len() == 1
                                &&& r.frames@[0]@ == jprint(
                                    legacy_system_doc(
                                        "Subscribed to "@ + print_u64(ids.len())
                                            + " instruments"@,
                                    ),
                                )
                            },
                            LegacyClientView::Unsubscribe(ids) => if ids.len() == 0 {
                                &&& final(self).subscriptions@ == old(self).subscriptions@
                                &&& r.update is None
                                &&& r.frames@.len() == 1
                                &&& r.frames@[0]@ == jprint(
                                    legacy_error_doc("No instruments specified"@),
                                )
                            } else {
                                &&& final(self).subscriptions@ =~= old(
                                    self,
                                ).subscriptions@.difference(ids.to_set())
                                &&& (match r.update {
                                    Some(l) => views_of(l@) == final(self).subscriptions.sseq(),
                                    None => false,
                                })
                                &&& r.frames@.len() == 1
                                &&& r.frames@[0]@ == jprint(
                                    legacy_system_doc(
                                        "Unsubscribed from "@ + print_u64(ids.len())
                                            + " instruments"@,
                                    ),
                                )
                            },
                            LegacyClientView::Subscriptions => {
                                &&& final(self).subscriptions@ == old(self).subscriptions@
                                &&& r.update is None
                                &&& r.frames@.len() == 1
                                &&& r.frames@[0]@ == jprint(
                                    legacy_subscriptions_doc(old(self).subscriptions.sseq()),
                                )
                            },
                            LegacyClientView::Ping => {
                                &&& final(self).subscriptions@ == old(self).subscriptions@
                                &&& r.update is None
                                &&& r.frames@.len() == 1
                                &&& r.frames@[0]@ == jprint(legacy_pong_doc())
                            },
                            LegacyClientView::Auth(token) => {
                                &&& final(self).subscriptions@ == old(self).subscriptions@
                                &&& r.update is None
                                &&& r.frames@.len() == 1
                                &&& r.frames@[0]@ == jprint(
                                    legacy_system_doc("Authentication not required"@),
                                )
                            },
                        },
                    }
                }
            }),
    {
        let parsed = parse_client_message(text);
        let mut frames: Vec<String> = Vec::new();
        match parsed {
            None => {
                if crate::json::parse_text(text).is_some() {
                    frames.push(legacy_error_frame("Invalid message format"));
                } else {
                    frames.push(legacy_error_frame("Invalid JSON"));
                }
                SessionStep { frames, update: None }
            },
            Some(WsClientMessage::TvSubscribeQuote { aid: _, ins_list }) => {
                let parsed_ids = self.parse_tv_instruments(ins_list.as_str());
                let mut fresh = StrSet::new();
                let n = parsed_ids.len();
                let mut k: usize = 0;
                while k < n
                    invariant
                        0 <= k <= n,
                        n == parsed_ids@.len(),
                        fresh.wf(),
                        fresh@ =~= views_of(parsed_ids@).take(k as int).to_set(),
                    decreases n - k,
                {
                    fresh.insert(parsed_ids[k].clone());
                    proof {
                        lemma_take_to_set_step(views_of(parsed_ids@), k as int);
                    }
                    k = k + 1;
                }
                proof {
                    assert(views_of(parsed_ids@).take(n as int) =~= views_of(parsed_ids@));
                    assert(fresh@ =~= views_of(parsed_ids@).to_set());
                }
                self.subscriptions = fresh;
                frames.push(tv_rsp_frame("rsp_subscribe_quote", ins_list.as_str()));
                SessionStep { frames, update: Some(parsed_ids) }
            },
            Some(WsClientMessage::PeekMessage { aid }) => {
                if crate::strutil::str_eq(aid.as_str(), "peek_message") {
                    let ids = self.subscriptions.to_vec();
                    let joined = join_ids(&ids);
                    frames.push(tv_rsp_frame("rsp_peek_message", joined.as_str()));
                    SessionStep { frames, update: None }
                } else {
                    let mut msg = String::new();
                    msg.append("Unknown aid type: ");
                    msg.append(aid.as_str());
                    proof {
                        assert(msg@ =~= "Unknown aid type: "@ + aid@);
                    }
                    frames.push(legacy_error_frame(msg.as_str()));
                    SessionStep { frames, update: None }
                }
            },
            Some(WsClientMessage::LegacyMessage(lm)) => match lm {
                LegacyClientMessage::Subscribe { instruments } => {
                    if instruments.len() == 0 {
                        frames.push(legacy_error_frame("No instruments specified"));
                        return SessionStep { frames, update: None };
                    }
                    let n = instruments.len();
                    let mut k: usize = 0;
                    while k < n
                        invariant
                            0 <= k <= n,
                            n == instruments@.len(),
                            self.wf(),
                            self.client_id == old(self).client_id,
                            self.subscriptions@ =~= old(self).subscriptions@.union(
                                views_of(instruments@).take(k as int).to_set(),
                            ),
                        decreases n - k,
                    {
                        self.subscriptions.insert(instruments[k].clone());
                        proof {
                            lemma_take_to_set_step(views_of(instruments@), k as int);
                        }
                        k = k + 1;
                    }
                    proof {
                        assert(views_of(instruments@).take(n as int) =~= views_of(
                            instruments@,
                        ));
                    }
                    let listing = self.subscriptions.to_vec();
                    let msg = count_message("Subscribed to ", instruments.len());
                    frames.push(legacy_system_frame(msg.as_str()));
                    SessionStep { frames, update: Some(listing) }
                },
                LegacyClientMessage::Unsubscribe { instruments } => {
                    if instruments.len() == 0 {
                        frames.push(legacy_error_frame("No instruments specified"));
                        return SessionStep { frames, update: None };
                    }
                    let n = instruments.len();
                    let mut k: usize = 0;
                    while k < n
                        invariant
                            0 <= k <= n,
                            n == instruments@.len(),
                            self.wf(),
                            self.client_id == old(self).client_id,
                            self.subscriptions@ =~= old(self).subscriptions@.difference(
                                views_of(instruments@).take(k as int).to_set(),
                            ),
                        decreases n - k,
                    {
                        self.subscriptions.remove(instruments[k].as_str());
                        proof {
                            lemma_take_to_set_step(views_of(instruments@), k as int);
                        }
                        k = k + 1;
                    }
                    proof {
                        assert(views_of(instruments@).take(n as int) =~= views_of(
                            instruments@,
                        ));
                    }
                    let listing = self.subscriptions.to_vec();
                    let msg = count_message("Unsubscribed from ", instruments.len());
                    frames.push(legacy_system_frame(msg.as_str()));
                    SessionStep { frames, update: Some(listing) }
                },
                LegacyClientMessage::Subscriptions => {
                    let ids = self.subscriptions.to_vec();
                    frames.push(legacy_subscriptions_frame(&ids));
                    SessionStep { frames, update: None }
                },
                LegacyClientMessage::Ping => {
                    frames.push(legacy_pong_frame());
                    SessionStep { frames, update: None }
                },
                LegacyClientMessage::Auth { token: _ } => {
                    frames.push(legacy_system_frame("Authentication not required"));
                    SessionStep { frames, update: None }
                },
            },
        }
    }
}

/// Relies on uuid's `new_v4` and its hyphenated `Display` form: a freshly
/// drawn random id rendered as 36 characters of lowercase hex digits and
/// hyphens. The value is random; only its shape is promised.
#[verifier::external_body]
pub fn fresh_client_id() -> (r: String)
    ensures
        r@.len() == 36,
        crate::json::json_safe(r@),
{
    uuid::Uuid::new_v4().to_string()
}

/// Joins ids with commas.
pub fn join_ids(ids: &Vec<String>) -> (r: String)
    ensures
        r@ == spec_join_ids(views_of(ids@)),
{
    let n = ids.len();
    let mut acc = String::new();
    if n == 0 {
        proof {
            assert(views_of(ids@).len() == 0);
        }
        return acc;
    }
    acc.append(ids[0].as_str());
    proof {
        assert(views_of(ids@).take(1) =~= seq![views_of(ids@)[0]]);
        assert(Seq::<char>::empty() + ids@[0]@ =~= ids@[0]@);
        assert(acc@ == spec_join_ids(views_of(ids@).take(1)));
    }
    let mut k: usize = 1;
    while k < n
        invariant
            1 <= k <= n,
            n == ids@.len(),
            acc@ == spec_join_ids(views_of(ids@).take(k as int)),
        decreases n - k,
    {
        acc.append(",");
        acc.append(ids[k].as_str());
        proof {
            reveal_strlit(",");
            let vs = views_of(ids@);
            assert(vs.take(k + 1 as int).drop_last() =~= vs.take(k as int));
            assert(vs.take(k + 1 as int).last() == vs[k as int]);
            assert(spec_join_ids(vs.take(k + 1 as int)) == spec_join_ids(vs.take(k as int))
                + seq![','] + vs[k as int]);
            assert(","@ =~= seq![',']);
            assert(acc@ =~= spec_join_ids(vs.take(k as int)) + seq![','] + vs[k as int]);
        }
        k = k + 1;
    }
    proof {
        assert(views_of(ids@).take(n as int) =~= views_of(ids@));
    }
    acc
}

/// `"<prefix><count> instruments"`.
fn count_message(prefix: &str, count: usize) -> (r: String)
    ensures
        r@ == prefix@ + print_u64(count as nat) + " instruments"@,
{
    let mut digits: Vec<char> = Vec::new();
    crate::json::write_u64(count as u64, &mut digits);
    let dstr = crate::strutil::chars_to_string(&digits);
    let mut msg = String::new();
    msg.append(prefix);
    msg.append(dstr.as_str());
    msg.append(" instruments");
    proof {
        assert(msg@ =~= prefix@ + print_u64(count as nat) + " instruments"@);
    }
    msg
}

/// `find_char_from` passes over positions without the character.
proof fn lemma_find_char_skips(s: Seq<char>, i: int, j: int, c: char)
    requires
        0 <= i <= j <= s.len(),
        forall|w: int| i <= w < j ==> s[w] != c,
    ensures
        find_char_from(s, i, c) == find_char_from(s, j, c),
    decreases j - i,
{
    if i < j {
        lemma_find_char_skips(s, i + 1, j, c);
    }
}

/// Builds `{"type":...,"payload":{"message":...}}` text.
fn legacy_wrapped_frame(tag: &str, msg: &str) -> (r: String)
    ensures
        r@ == jprint(
            JSpec::Obj(
                seq![
                    ("type"@, JSpec::Str(tag@)),
                    ("payload"@, JSpec::Obj(seq![("message"@, JSpec::Str(msg@))])),
                ],
            ),
        ),
{
    let mut payload: Vec<(String, JVal)> = Vec::new();
    payload.push((String::from_str("message"), JVal::Str(msg.to_owned())));
    let ghost pj = payload@;
    let mut fs: Vec<(String, JVal)> = Vec::new();
    fs.push((String::from_str("type"), JVal::Str(tag.to_owned())));
    fs.push((String::from_str("payload"), JVal::Obj(payload)));
    let doc = JVal::Obj(fs);
    proof {
        assert(crate::json::deep_fields(pj) =~= seq![("message"@, JSpec::Str(msg@))]);
        assert(crate::json::deep_fields(fs@) =~= seq![
            ("type"@, JSpec::Str(tag@)),
            ("payload"@, JSpec::Obj(seq![("message"@, JSpec::Str(msg@))])),
        ]);
    }
    to_text(&doc)
}

/// `{"type":"error","payload":{"message":...}}` text.
pub fn legacy_error_frame(msg: &str) -> (r: String)
    ensures
        r@ == jprint(legacy_error_doc(msg@)),
{
    legacy_wrapped_frame("error", msg)
}

/// `{"type":"system","payload":{"message":...}}` text.
pub fn legacy_system_frame(msg: &str) -> (r: String)
    ensures
        r@ == jprint(legacy_system_doc(msg@)),
{
    legacy_wrapped_frame("system", msg)
}

/// `{"type":"pong"}` text.
pub fn legacy_pong_frame() -> (r: String)
    ensures
        r@ == jprint(legacy_pong_doc()),
{
    let mut fs: Vec<(String, JVal)> = Vec::new();
    fs.push((String::from_str("type"), JVal::Str(String::from_str("pong"))));
    let doc = JVal::Obj(fs);
    proof {
        assert(crate::json::deep_fields(fs@) =~= seq![("type"@, JSpec::Str("pong"@))]);
    }
    to_text(&doc)
}

/// `{"type":"subscriptions","payload":{"instruments":[...]}}` text.
pub fn legacy_subscriptions_frame(ids: &Vec<String>) -> (r: String)
    ensures
        r@ == jprint(legacy_subscriptions_doc(views_of(ids@))),
{
    let n = ids.len();
    let mut items: Vec<JVal> = Vec::new();
    let mut i: usize = 0;
    while i < n
        invariant
            0 <= i <= n,
            n == ids@.len(),
            crate::json::deep_list(items@) == strs_docs(views_of(ids@).take(i as int)),
        decreases n - i,
    {
        let ghost pre = items@;
        items.push(JVal::Str(ids[i].clone()));
        proof {
            let before = strs_docs(views_of(ids@).take(i as int));
            let after = strs_docs(views_of(ids@).take(i + 1 as int));
            assert forall|q: int|
                0 <= q < items@.len() implies crate::json::deep_list(items@)[q] == after[q] by {
                if q < i {
                    assert(crate::json::deep_list(pre)[q] == before[q]);
                    assert(items@[q] == pre[q]);
                    assert(views_of(ids@).take(i + 1 as int)[q] == views_of(ids@).take(
                        i as int,
                    )[q]);
                } else {
                    assert(items@[q].deep() == JSpec::Str(ids@[i as int]@));
                }
            }
            assert(crate::json::deep_list(items@) =~= after);
        }
        i = i + 1;
    }
    proof {
        assert(views_of(ids@).take(n as int) =~= views_of(ids@));
    }
    let ghost dl = crate::json::deep_list(items@);
    let mut payload: Vec<(String, JVal)> = Vec::new();
    payload.push((String::from_str("instruments"), JVal::Arr(items)));
    let ghost pj = payload@;
    let mut fs: Vec<(String, JVal)> = Vec::new();
    fs.push((String::from_str("type"), JVal::Str(String::from_str("subscriptions"))));
    fs.push((String::from_str("payload"), JVal::Obj(payload)));
    let doc = JVal::Obj(fs);
    proof {
        assert(dl == strs_docs(views_of(ids@)));
        assert(crate::json::deep_fields(pj) =~= seq![
            ("instruments"@, JSpec::Arr(strs_docs(views_of(ids@)))),
        ]);
        assert(crate::json::deep_fields(fs@) =~= seq![
            ("type"@, JSpec::Str("subscriptions"@)),
            (
                "payload"@,
                JSpec::Obj(seq![("instruments"@, JSpec::Arr(strs_docs(views_of(ids@))))]),
            ),
        ]);
    }
    to_text(&doc)
}

/// `{"aid":...,"ins_list":...}` text.
pub fn tv_rsp_frame(aid: &str, ins_list: &str) -> (r: String)
    ensures
        r@ == jprint(tv_rsp_doc(aid@, ins_list@)),
{
    let mut fs: Vec<(String, JVal)> = Vec::new();
    fs.push((String::from_str("aid"), JVal::Str(aid.to_owned())));
    fs.push((String::from_str("ins_list"), JVal::Str(ins_list.to_owned())));
    let doc = JVal::Obj(fs);
    proof {
        assert(crate::json::deep_fields(fs@) =~= seq![
            ("aid"@, JSpec::Str(aid@)),
            ("ins_list"@, JSpec::Str(ins_list@)),
        ]);
    }
    to_text(&doc)
}

/// The legacy market-data frame for one snapshot.
pub fn market_data_frame(snap: &Snapshot) -> (r: String)
    ensures
        r@ == jprint(market_data_doc(snap@)),
{
    let sj = crate::codec::snapshot_to_jval(snap);
    let mut payload: Vec<(String, JVal)> = Vec::new();
    payload.push((String::from_str("data"), sj));
    let ghost pj = payload@;
    let mut fs: Vec<(String, JVal)> = Vec::new();
    fs.push((String::from_str("type"), JVal::Str(String::from_str("market_data"))));
    fs.push((String::from_str("payload"), JVal::Obj(payload)));
    let doc = JVal::Obj(fs);
    proof {
        assert(crate::json::deep_fields(pj) =~= seq![("data"@, snap_jspec(snap@))]);
        assert(crate::json::deep_fields(fs@) =~= seq![
            ("type"@, JSpec::Str("market_data"@)),
            ("payload"@, JSpec::Obj(seq![("data"@, snap_jspec(snap@))])),
        ]);
    }
    to_text(&doc)
}

/// The platform-style frame for one snapshot.
#[verifier::rlimit(100)]
pub fn tv_frame(snap: &Snapshot) -> (r: String)
    ensures
        r@ == jprint(tv_frame_doc(snap@)),
{
    let q = tv_quote_jval(snap);
    let mut quotes: Vec<(String, JVal)> = Vec::new();
    quotes.push((snap.instrument_id.clone(), q));
    let ghost qj = quotes@;
    let mut item: Vec<(String, JVal)> = Vec::new();
    item.push((String::from_str("quotes"), JVal::Obj(quotes)));
    let ghost ij = item@;
    let mut data: Vec<JVal> = Vec::new();
    data.push(JVal::Obj(item));
    let ghost dj = data@;
    let mut fs: Vec<(String, JVal)> = Vec::new();
    fs.push((String::from_str("aid"), JVal::Str(String::from_str("rtn_data"))));
    fs.push((String::from_str("data"), JVal::Arr(data)));
    let doc = JVal::Obj(fs);
    proof {
        assert(crate::json::deep_fields(qj) =~= seq![
            (snap@.instrument_id, tv_quote_doc(snap@)),
        ]);
        assert(crate::json::deep_fields(ij) =~= seq![
            ("quotes"@, JSpec::Obj(seq![(snap@.instrument_id, tv_quote_doc(snap@))])),
        ]);
        assert(crate::json::deep_list(dj) =~= seq![
            JSpec::Obj(
                seq![("quotes"@, JSpec::Obj(seq![(snap@.instrument_id, tv_quote_doc(snap@))]))],
            ),
        ]);
        assert(crate::json::deep_fields(fs@) =~= seq![
            ("aid"@, JSpec::Str("rtn_data"@)),
            (
                "data"@,
                JSpec::Arr(
                    seq![
                        JSpec::Obj(
                            seq![
                                (
                                    "quotes"@,
                                    JSpec::Obj(seq![(snap@.instrument_id, tv_quote_doc(snap@))]),
                                ),
                            ],
                        ),
                    ],
                ),
            ),
        ]);
    }
    to_text(&doc)
}

/// The flat quote object of the platform dialect.
#[verifier::rlimit(100)]
fn tv_quote_jval(snap: &Snapshot) -> (r: JVal)
    ensures
        r.deep() == tv_quote_doc(snap@),
{
    let mut fs: Vec<(String, JVal)> = Vec::new();
    fs.push((String::from_str("instrument_id"), JVal::Str(snap.instrument_id.clone())));
    fs.push((String::from_str("datetime"), JVal::Str(snap.datetime.clone())));
    fs.push((String::from_str("last_price"), JVal::Num(snap.last_price)));
    fs.push((String::from_str("volume"), jv_of_i64(snap.volume)));
    fs.push((String::from_str("amount"), JVal::Num(snap.amount)));
    fs.push((String::from_str("open"), JVal::Num(snap.open)));
    fs.push((String::from_str("high"), JVal::Num(snap.highest)));
    fs.push((String::from_str("low"), JVal::Num(snap.lowest)));
    fs.push((String::from_str("bid_price1"), JVal::Num(snap.bid_price1)));
    fs.push((String::from_str("bid_volume1"), jv_of_i64(snap.bid_volume1)));
    fs.push((String::from_str("ask_price1"), JVal::Num(snap.ask_price1)));
    fs.push((String::from_str("ask_volume1"), jv_of_i64(snap.ask_volume1)));
    fs.push((String::from_str("volume_multiple"), jv_of_i64(1)));
    fs.push(
        (
            String::from_str("price_tick"),
            JVal::Num(Dec { neg: false, int_part: 0, frac: 1, frac_len: 2 }),
        ),
    );
    fs.push((String::from_str("price_decs"), jv_of_i64(2)));
    fs.push((String::from_str("max_market_order_volume"), jv_of_i64(0)));
    fs.push((String::from_str("min_market_order_volume"), jv_of_i64(0)));
    fs.push((String::from_str("max_limit_order_volume"), jv_of_i64(0)));
    fs.push((String::from_str("min_limit_order_volume"), jv_of_i64(0)));
    fs.push(
        (
            String::from_str("margin"),
            JVal::Num(Dec { neg: false, int_part: 0, frac: 0, frac_len: 1 }),
        ),
    );
    fs.push(
        (
            String::from_str("commission"),
            JVal::Num(Dec { neg: false, int_part: 0, frac: 0, frac_len: 1 }),
        ),
    );
    fs.push((String::from_str("upper_limit"), JVal::Num(snap.upper_limit)));
    fs.push((String::from_str("lower_limit"), JVal::Num(snap.lower_limit)));
    fs.push((String::from_str("pre_close"), JVal::Num(snap.pre_close)));
    fs.push((String::from_str("pre_settlement"), jv_tri_num(&snap.pre_settlement)));
    fs.push((String::from_str("pre_open_interest"), jv_tri_int(&snap.pre_open_interest)));
    fs.push((String::from_str("open_interest"), jv_tri_int(&snap.open_interest)));
    fs.push((String::from_str("close"), jv_tri_num(&snap.close)));
    fs.push((String::from_str("settlement"), jv_tri_num(&snap.settlement)));
    fs.push((String::from_str("average"), JVal::Num(snap.average)));
    let r = JVal::Obj(fs);
    proof {
        assert(crate::json::deep_fields(fs@) =~= (match tv_quote_doc(snap@) {
            JSpec::Obj(x) => x,
            _ => Seq::empty(),
        }));
    }
    r
}

/// A signed integer as a JSON number.
fn jv_of_i64(v: i64) -> (r: JVal)
    ensures
        r.deep() == i64_jspec(v),
{
    if v >= 0 {
        JVal::Num(Dec { neg: false, int_part: v as u64, frac: 0, frac_len: 0 })
    } else {
        let m: i128 = -(v as i128);
        JVal::Num(Dec { neg: true, int_part: m as u64, frac: 0, frac_len: 0 })
    }
}

fn jv_tri_num(t: &TriVal) -> (r: JVal)
    ensures
        r.deep() == tri_num_or_zero(*t),
{
    match t {
        TriVal::Num(d) => JVal::Num(*d),
        _ => JVal::Num(Dec { neg: false, int_part: 0, frac: 0, frac_len: 1 }),
    }
}

fn jv_tri_int(t: &TriVal) -> (r: JVal)
    ensures
        r.deep() == tri_int_or_zero(*t),
{
    match t {
        TriVal::Num(d) => {
            if d.int_part <= 0x7fff_ffff_ffff_ffffu64 {
                JVal::Num(Dec { neg: d.neg, int_part: d.int_part, frac: 0, frac_len: 0 })
            } else {
                jv_of_i64(0)
            }
        },
        _ => jv_of_i64(0),
    }
}

} // verus!
