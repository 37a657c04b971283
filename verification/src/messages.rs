//! Inbound client messages: both wire dialects, parsed from JSON text.
//!
//! One socket accepts three shapes: the platform-style `{"aid":...}`
//! requests, and the legacy tagged envelope `{"type":...,"payload":...}`.
//! Classification goes by the `aid` field first; an object without `aid` is
//! read as a legacy envelope.

use vstd::prelude::*;
use crate::json::{JSpec, JVal, spec_parse_text, parse_text};
use crate::smap::views_of;

verus! {

/// A legacy tagged-envelope request.
pub enum LegacyClientMessage {
    /// Subscribe to one or more instruments.
    Subscribe { instruments: Vec<String> },
    /// Unsubscribe from one or more instruments.
    Unsubscribe { instruments: Vec<String> },
    /// Ask for the current subscription list.
    Subscriptions,
    /// Authentication; a no-op in this gateway.
    Auth { token: String },
    /// Keep-alive ping.
    Ping,
}

/// A request in either dialect.
pub enum WsClientMessage {
    /// Platform-style subscribe: replace the set with a comma-joined list.
    TvSubscribeQuote { aid: String, ins_list: String },
    /// A legacy envelope.
    LegacyMessage(LegacyClientMessage),
    /// Platform-style peek, or any other `aid`-only request.
    PeekMessage { aid: String },
}

/// The mathematical value of a legacy request.
pub enum LegacyClientView {
    Subscribe(Seq<Seq<char>>),
    Unsubscribe(Seq<Seq<char>>),
    Subscriptions,
    Auth(Seq<char>),
    Ping,
}

/// The mathematical value of a request.
pub enum WsClientView {
    TvSubscribeQuote { aid: Seq<char>, ins_list: Seq<char> },
    LegacyMessage(LegacyClientView),
    PeekMessage { aid: Seq<char> },
}

impl View for LegacyClientMessage {
    type V = LegacyClientView;

    open spec fn view(&self) -> LegacyClientView {
        match self {
            LegacyClientMessage::Subscribe { instruments } => LegacyClientView::Subscribe(
                views_of(instruments@),
            ),
            LegacyClientMessage::Unsubscribe { instruments } => LegacyClientView::Unsubscribe(
                views_of(instruments@),
            ),
            LegacyClientMessage::Subscriptions => LegacyClientView::Subscriptions,
            LegacyClientMessage::Auth { token } => LegacyClientView::Auth(token@),
            LegacyClientMessage::Ping => LegacyClientView::Ping,
        }
    }
}

impl View for WsClientMessage {
    type V = WsClientView;

    open spec fn view(&self) -> WsClientView {
        match self {
            WsClientMessage::TvSubscribeQuote { aid, ins_list } => WsClientView::TvSubscribeQuote {
                aid: aid@,
                ins_list: ins_list@,
            },
            WsClientMessage::LegacyMessage(m) => WsClientView::LegacyMessage(m@),
            WsClientMessage::PeekMessage { aid } => WsClientView::PeekMessage { aid: aid@ },
        }
    }
}

/// The value under the first member named `k`, if any.
pub open spec fn obj_get(fs: Seq<(Seq<char>, JSpec)>, k: Seq<char>) -> Option<JSpec>
    decreases fs.len(),
{
    if fs.len() == 0 {
        None
    } else if fs[0].0 == k {
        Some(fs[0].1)
    } else {
        obj_get(fs.drop_first(), k)
    }
}

/// The contents of an array of strings, if every element is a string.
pub open spec fn arr_strs(items: Seq<JSpec>) -> Option<Seq<Seq<char>>>
    decreases items.len(),
{
    if items.len() == 0 {
        Some(Seq::empty())
    } else {
        match items[0] {
            JSpec::Str(t) => match arr_strs(items.drop_first()) {
                Some(rest) => Some(seq![t] + rest),
                None => None,
            },
            _ => None,
        }
    }
}

/// Classifies a parsed document as a client request.
pub open spec fn classify_doc(j: JSpec) -> Option<WsClientView> {
    match j {
        JSpec::Obj(fs) => match obj_get(fs, "aid"@) {
            Some(JSpec::Str(a)) => if a == "subscribe_quote"@ {
                match obj_get(fs, "ins_list"@) {
                    Some(JSpec::Str(il)) => Some(
                        WsClientView::TvSubscribeQuote { aid: a, ins_list: il },
                    ),
                    Some(_) => None,
                    None => Some(
                        WsClientView::TvSubscribeQuote { aid: a, ins_list: Seq::empty() },
                    ),
                }
            } else {
                Some(WsClientView::PeekMessage { aid: a })
            },
            Some(_) => None,
            None => match obj_get(fs, "type"@) {
                Some(JSpec::Str(t)) => classify_legacy(fs, t),
                _ => None,
            },
        },
        _ => None,
    }
}

/// Classifies a legacy envelope by its `type` tag.
pub open spec fn classify_legacy(fs: Seq<(Seq<char>, JSpec)>, t: Seq<char>) -> Option<
    WsClientView,
> {
    if t == "subscribe"@ {
        match payload_instruments(fs) {
            Some(ids) => Some(WsClientView::LegacyMessage(LegacyClientView::Subscribe(ids))),
            None => None,
        }
    } else if t == "unsubscribe"@ {
        match payload_instruments(fs) {
            Some(ids) => Some(WsClientView::LegacyMessage(LegacyClientView::Unsubscribe(ids))),
            None => None,
        }
    } else if t == "subscriptions"@ {
        Some(WsClientView::LegacyMessage(LegacyClientView::Subscriptions))
    } else if t == "ping"@ {
        Some(WsClientView::LegacyMessage(LegacyClientView::Ping))
    } else if t == "auth"@ {
        match obj_get(fs, "payload"@) {
            Some(JSpec::Obj(p)) => match obj_get(p, "token"@) {
                Some(JSpec::Str(tok)) => Some(
                    WsClientView::LegacyMessage(LegacyClientView::Auth(tok)),
                ),
                _ => None,
            },
            _ => None,
        }
    } else {
        None
    }
}

/// The `payload.instruments` string list of a legacy envelope.
pub open spec fn payload_instruments(fs: Seq<(Seq<char>, JSpec)>) -> Option<Seq<Seq<char>>> {
    match obj_get(fs, "payload"@) {
        Some(JSpec::Obj(p)) => match obj_get(p, "instruments"@) {
            Some(JSpec::Arr(items)) => arr_strs(items),
            _ => None,
        },
        _ => None,
    }
}

/// Parses and classifies one inbound text frame.
pub open spec fn spec_parse_client(s: Seq<char>) -> Option<WsClientView> {
    match spec_parse_text(s) {
        Some(j) => classify_doc(j),
        None => None,
    }
}

/// Looks a member up in a parsed object.
fn jv_obj_get<'a>(fs: &'a Vec<(String, JVal)>, k: &str) -> (r: Option<&'a JVal>)
    ensures
        match r {
            Some(v) => obj_get(crate::json::deep_fields(fs@), k@) == Some(v.deep()),
            None => obj_get(crate::json::deep_fields(fs@), k@) is None,
        },
{
    let n = fs.len();
    let mut i: usize = 0;
    proof {
        assert(crate::json::deep_fields(fs@).skip(0) =~= crate::json::deep_fields(fs@));
    }
    while i < n
        invariant
            0 <= i <= n,
            n == fs@.len(),
            obj_get(crate::json::deep_fields(fs@), k@) == obj_get(
                crate::json::deep_fields(fs@).skip(i as int),
                k@,
            ),
            forall|w: int| 0 <= w < i ==> fs@[w].0@ != k@,
        decreases n - i,
    {
        proof {
            let dfs = crate::json::deep_fields(fs@);
            assert(dfs.skip(i as int)[0] == dfs[i as int]);
            assert(dfs.skip(i as int).drop_first() =~= dfs.skip(i + 1 as int));
        }
        if crate::strutil::str_eq(fs[i].0.as_str(), k) {
            return Some(&fs[i].1);
        }
        i = i + 1;
    }
    proof {
        assert(crate::json::deep_fields(fs@).skip(n as int) =~= Seq::<(Seq<char>, JSpec)>::empty());
    }
    None
}

/// Extracts a string list from a parsed array.
fn jv_arr_strs(items: &Vec<JVal>) -> (r: Option<Vec<String>>)
    ensures
        match r {
            Some(ids) => arr_strs(crate::json::deep_list(items@)) == Some(views_of(ids@)),
            None => arr_strs(crate::json::deep_list(items@)) is None,
        },
{
    let n = items.len();
    let mut out: Vec<String> = Vec::new();
    let mut i: usize = 0;
    proof {
        assert(crate::json::deep_list(items@).skip(0) =~= crate::json::deep_list(items@));
        assert(views_of(out@) =~= Seq::<Seq<char>>::empty());
        assert forall|rest: Seq<Seq<char>>| true implies views_of(out@) + rest =~= rest by {}
    }
    while i < n
        invariant
            0 <= i <= n,
            n == items@.len(),
            arr_strs(crate::json::deep_list(items@)) == (match arr_strs(
                crate::json::deep_list(items@).skip(i as int),
            ) {
                Some(rest) => Some(views_of(out@) + rest),
                None => None::<Seq<Seq<char>>>,
            }),
        decreases n - i,
    {
        proof {
            let dl = crate::json::deep_list(items@);
            assert(dl.skip(i as int)[0] == dl[i as int]);
            assert(dl.skip(i as int).drop_first() =~= dl.skip(i + 1 as int));
        }
        match &items[i] {
            JVal::Str(t) => {
                let ghost pre = out@;
                out.push(t.clone());
                proof {
                    let dl = crate::json::deep_list(items@);
                    assert forall|rest: Seq<Seq<char>>| true implies views_of(pre) + (seq![
                        dl[i as int]->Str_0,
                    ] + rest) =~= views_of(out@) + rest by {
                        assert(views_of(out@) =~= views_of(pre).push(items@[i as int]->Str_0@));
                    }
                }
            },
            _ => {
                return None;
            },
        }
        i = i + 1;
    }
    proof {
        assert(crate::json::deep_list(items@).skip(n as int) =~= Seq::<JSpec>::empty());
        assert(views_of(out@) + Seq::<Seq<char>>::empty() =~= views_of(out@));
    }
    Some(out)
}

/// Parses one inbound text frame into a client request.
///
/// `None` covers both unparseable JSON and a JSON shape that is no request;
/// the session answers each with an error envelope.
pub fn parse_client_message(text: &str) -> (r: Option<WsClientMessage>)
    ensures
        match r {
            Some(m) => spec_parse_client(text@) == Some(m@),
            None => spec_parse_client(text@) is None,
        },
{
    let doc = match parse_text(text) {
        Some(doc) => doc,
        None => {
            return None;
        },
    };
    let fs = match &doc {
        JVal::Obj(fs) => fs,
        _ => {
            return None;
        },
    };
    match jv_obj_get(fs, "aid") {
        Some(av) => {
            let a = match av {
                JVal::Str(a) => a.clone(),
                _ => {
                    return None;
                },
            };
            if crate::strutil::str_eq(a.as_str(), "subscribe_quote") {
                match jv_obj_get(fs, "ins_list") {
                    Some(ilv) => match ilv {
                        JVal::Str(il) => Some(
                            WsClientMessage::TvSubscribeQuote { aid: a, ins_list: il.clone() },
                        ),
                        _ => None,
                    },
                    None => Some(
                        WsClientMessage::TvSubscribeQuote { aid: a, ins_list: String::new() },
                    ),
                }
            } else {
                Some(WsClientMessage::PeekMessage { aid: a })
            }
        },
        None => {
            let t = match jv_obj_get(fs, "type") {
                Some(tv) => match tv {
                    JVal::Str(t) => t.clone(),
                    _ => {
                        return None;
                    },
                },
                None => {
                    return None;
                },
            };
            if crate::strutil::str_eq(t.as_str(), "subscribe") {
                match parse_payload_instruments(fs) {
                    Some(ids) => Some(
                        WsClientMessage::LegacyMessage(
                            LegacyClientMessage::Subscribe { instruments: ids },
                        ),
                    ),
                    None => None,
                }
            } else if crate::strutil::str_eq(t.as_str(), "unsubscribe") {
                match parse_payload_instruments(fs) {
                    Some(ids) => Some(
                        WsClientMessage::LegacyMessage(
                            LegacyClientMessage::Unsubscribe { instruments: ids },
                        ),
                    ),
                    None => None,
                }
            } else if crate::strutil::str_eq(t.as_str(), "subscriptions") {
                Some(WsClientMessage::LegacyMessage(LegacyClientMessage::Subscriptions))
            } else if crate::strutil::str_eq(t.as_str(), "ping") {
                Some(WsClientMessage::LegacyMessage(LegacyClientMessage::Ping))
            } else if crate::strutil::str_eq(t.as_str(), "auth") {
                match jv_obj_get(fs, "payload") {
                    Some(pv) => match pv {
                        JVal::Obj(p) => match jv_obj_get(p, "token") {
                            Some(tokv) => match tokv {
                                JVal::Str(tok) => Some(
                                    WsClientMessage::LegacyMessage(
                                        LegacyClientMessage::Auth { token: tok.clone() },
                                    ),
                                ),
                                _ => None,
                            },
                            None => None,
                        },
                        _ => None,
                    },
                    None => None,
                }
            } else {
                None
            }
        },
    }
}

/// Extracts `payload.instruments` from a legacy envelope.
fn parse_payload_instruments(fs: &Vec<(String, JVal)>) -> (r: Option<Vec<String>>)
    ensures
        match r {
            Some(ids) => payload_instruments(crate::json::deep_fields(fs@)) == Some(
                views_of(ids@),
            ),
            None => payload_instruments(crate::json::deep_fields(fs@)) is None,
        },
{
    match jv_obj_get(fs, "payload") {
        Some(pv) => match pv {
            JVal::Obj(p) => match jv_obj_get(p, "instruments") {
                Some(iv) => match iv {
                    JVal::Arr(items) => jv_arr_strs(items),
                    _ => None,
                },
                None => None,
            },
            _ => None,
        },
        _ => None,
    }
}

} // verus!
