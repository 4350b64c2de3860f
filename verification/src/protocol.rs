//! The client-command protocol: a request is one framed, binary-encoded
//! sequence of strings, `[command, arg1, arg2, ...]`. The first token picks
//! the command; several commands match on the first letter alone, which is
//! part of the observed protocol (and fragile: a future command starting with
//! the same letter would collide).

use vstd::prelude::*;

use vstd::string::StrSliceExecFns;

verus! {

/// One decoded client command.
pub enum Request {
    Status,
    Add { name: String, cmd: String, args: Vec<String> },
    AddUsage,
    Remove,
    List,
    Restart { name: Option<String> },
    Enable { name: String },
    EnableUsage,
    Disable { name: String },
    DisableUsage,
    On,
    Quit,
    Unknown { token: String },
}

/// The mathematical value of a `Request`.
pub enum RequestView {
    Status,
    Add { name: Seq<char>, cmd: Seq<char>, args: Seq<Seq<char>> },
    AddUsage,
    Remove,
    List,
    Restart { name: Option<Seq<char>> },
    Enable { name: Seq<char> },
    EnableUsage,
    Disable { name: Seq<char> },
    DisableUsage,
    On,
    Quit,
    Unknown { token: Seq<char> },
}

impl View for Request {
    type V = RequestView;

    open spec fn view(&self) -> RequestView {
        match self {
            Request::Status => RequestView::Status,
            Request::Add { name, cmd, args } => RequestView::Add {
                name: name@,
                cmd: cmd@,
                args: args.deep_view(),
            },
            Request::AddUsage => RequestView::AddUsage,
            Request::Remove => RequestView::Remove,
            Request::List => RequestView::List,
            Request::Restart { name } => RequestView::Restart {
                name: match name {
                    Some(n) => Some(n@),
                    None => None,
                },
            },
            Request::Enable { name } => RequestView::Enable { name: name@ },
            Request::EnableUsage => RequestView::EnableUsage,
            Request::Disable { name } => RequestView::Disable { name: name@ },
            Request::DisableUsage => RequestView::DisableUsage,
            Request::On => RequestView::On,
            Request::Quit => RequestView::Quit,
            Request::Unknown { token } => RequestView::Unknown { token: token@ },
        }
    }
}

/// What an incoming message means. The tokens are tried in the order the
/// daemon tries them: the exact words first, then the one-letter prefixes.
/// An empty message is a protocol error and means nothing.
pub open spec fn spec_parse(m: Seq<Seq<char>>) -> Option<RequestView> {
    if m.len() == 0 {
        None
    } else {
        let t = m[0];
        if t == seq!['s', 't', 'a', 't', 'u', 's'] {
            Some(RequestView::Status)
        } else if t == seq!['a', 'd', 'd'] {
            if m.len() >= 3 {
                Some(RequestView::Add { name: m[1], cmd: m[2], args: m.skip(3) })
            } else {
                Some(RequestView::AddUsage)
            }
        } else if t == seq!['r', 'e', 'm', 'o', 'v', 'e'] {
            Some(RequestView::Remove)
        } else if t.len() > 0 && t[0] == 'l' {
            Some(RequestView::List)
        } else if t.len() > 0 && t[0] == 'r' {
            Some(
                RequestView::Restart {
                    name: if m.len() >= 2 {
                        Some(m[1])
                    } else {
                        None
                    },
                },
            )
        } else if t.len() > 0 && t[0] == 'e' {
            if m.len() >= 2 {
                Some(RequestView::Enable { name: m[1] })
            } else {
                Some(RequestView::EnableUsage)
            }
        } else if t.len() > 0 && t[0] == 'd' {
            if m.len() >= 2 {
                Some(RequestView::Disable { name: m[1] })
            } else {
                Some(RequestView::DisableUsage)
            }
        } else if t == seq!['o', 'n'] {
            Some(RequestView::On)
        } else if t == seq!['q', 'u', 'i', 't'] {
            Some(RequestView::Quit)
        } else {
            Some(RequestView::Unknown { token: t })
        }
    }
}

/// The tokens of a message from position `from` on.
fn tail_of(msg: &Vec<String>, from: usize) -> (r: Vec<String>)
    requires
        from <= msg.len(),
    ensures
        r.deep_view() == msg.deep_view().skip(from as int),
    decreases msg.len() - from,
{
    if from == msg.len() {
        let v: Vec<String> = Vec::new();
        proof {
            assert(msg.deep_view().skip(from as int) =~= Seq::<Seq<char>>::empty());
            assert(v.deep_view() =~= Seq::<Seq<char>>::empty());
        }
        v
    } else {
        let mut v = tail_of(msg, from + 1);
        let ghost prior = v.deep_view();
        v.insert(0, msg[from].clone());
        proof {
            assert(msg.deep_view().skip(from as int)[0] == msg@[from as int]@);
            assert(msg.deep_view().skip(from as int).drop_first() =~= msg.deep_view().skip(
                from + 1,
            ));
            assert(v.deep_view() =~= seq![msg@[from as int]@] + prior);
            assert(msg.deep_view().skip(from as int) =~= seq![msg@[from as int]@] + prior);
        }
        v
    }
}

/// Decode one message into the command it names: `None` only on the empty
/// message, which is a protocol error.
pub fn parse_request(msg: &Vec<String>) -> (r: Option<Request>)
    ensures
        match r {
            Some(req) => spec_parse(msg.deep_view()) == Some(req@),
            None => msg.deep_view().len() == 0 && spec_parse(msg.deep_view()) is None,
        },
{
    let ghost m = msg.deep_view();
    if msg.len() == 0 {
        return None;
    }
    let t = msg[0].as_str();
    let ghost tv = m[0];
    proof {
        assert(tv == msg@[0]@);
        assert(seq!['s', 't', 'a', 't', 'u', 's'].len() == 6);
        assert(seq!['a', 'd', 'd'].len() == 3);
        assert(seq!['r', 'e', 'm', 'o', 'v', 'e'].len() == 6);
        assert(seq!['o', 'n'].len() == 2);
        assert(seq!['q', 'u', 'i', 't'].len() == 4);
    }
    let n = t.unicode_len();
    if n == 6 && t.get_char(0) == 's' && t.get_char(1) == 't' && t.get_char(2) == 'a' && t.get_char(
        3,
    ) == 't' && t.get_char(4) == 'u' && t.get_char(5) == 's' {
        proof {
            assert(tv =~= seq!['s', 't', 'a', 't', 'u', 's']);
        }
        Some(Request::Status)
    } else if n == 3 && t.get_char(0) == 'a' && t.get_char(1) == 'd' && t.get_char(2) == 'd' {
        proof {
            assert(tv =~= seq!['a', 'd', 'd']);
        }
        if msg.len() >= 3 {
            let args = tail_of(msg, 3);
            proof {
                assert(m[1] == msg@[1]@);
                assert(m[2] == msg@[2]@);
            }
            Some(Request::Add { name: msg[1].clone(), cmd: msg[2].clone(), args })
        } else {
            Some(Request::AddUsage)
        }
    } else if n == 6 && t.get_char(0) == 'r' && t.get_char(1) == 'e' && t.get_char(2) == 'm'
        && t.get_char(3) == 'o' && t.get_char(4) == 'v' && t.get_char(5) == 'e' {
        proof {
            assert(tv =~= seq!['r', 'e', 'm', 'o', 'v', 'e']);
        }
        Some(Request::Remove)
    } else if n >= 1 && t.get_char(0) == 'l' {
        Some(Request::List)
    } else if n >= 1 && t.get_char(0) == 'r' {
        proof {
            assert(m[0][0] == 'r');
        }
        if msg.len() >= 2 {
            proof {
                assert(m[1] == msg@[1]@);
            }
            Some(Request::Restart { name: Some(msg[1].clone()) })
        } else {
            Some(Request::Restart { name: None })
        }
    } else if n >= 1 && t.get_char(0) == 'e' {
        if msg.len() >= 2 {
            proof {
                assert(m[1] == msg@[1]@);
            }
            Some(Request::Enable { name: msg[1].clone() })
        } else {
            Some(Request::EnableUsage)
        }
    } else if n >= 1 && t.get_char(0) == 'd' {
        if msg.len() >= 2 {
            proof {
                assert(m[1] == msg@[1]@);
            }
            Some(Request::Disable { name: msg[1].clone() })
        } else {
            Some(Request::DisableUsage)
        }
    } else if n == 2 && t.get_char(0) == 'o' && t.get_char(1) == 'n' {
        proof {
            assert(tv =~= seq!['o', 'n']);
        }
        Some(Request::On)
    } else if n == 4 && t.get_char(0) == 'q' && t.get_char(1) == 'u' && t.get_char(2) == 'i'
        && t.get_char(3) == 't' {
        proof {
            assert(tv =~= seq!['q', 'u', 'i', 't']);
        }
        Some(Request::Quit)
    } else {
        Some(Request::Unknown { token: msg[0].clone() })
    }
}

/// The bytes in which a message crosses the socket. The encoding is a pure
/// function of the message: bincode's standard format.
pub uninterp spec fn wire_of(msg: Seq<Seq<char>>) -> Seq<u8>;

/// Relies on bincode::encode_to_vec with the standard configuration: encodes
/// the message as one length-framed sequence of strings, a pure function of
/// the message.
#[verifier::external_body]
fn bincode_encode(msg: &Vec<String>) -> (r: Option<Vec<u8>>)
    ensures
        r is Some ==> r->Some_0@ == wire_of(msg.deep_view()),
{
    bincode::encode_to_vec(msg, bincode::config::standard()).ok()
}

/// Relies on bincode::decode_from_slice with the standard configuration:
/// decoding the standard encoding of a message yields that message back.
#[verifier::external_body]
fn bincode_decode(bytes: &[u8]) -> (r: Option<Vec<String>>)
    ensures
        forall|m: Seq<Seq<char>>|
            bytes@ == #[trigger] wire_of(m) ==> r is Some && r->Some_0.deep_view() == m,
{
    match bincode::decode_from_slice::<Vec<String>, _>(bytes, bincode::config::standard()) {
        Ok((v, _)) => Some(v),
        Err(_) => None,
    }
}

/// The bytes a client sends for a command line: the command token followed by
/// its parameters.
pub fn encode_request(command: &String, params: &Vec<String>) -> (r: Option<Vec<u8>>)
    ensures
        r is Some ==> r->Some_0@ == wire_of(seq![command@] + params.deep_view()),
{
    let mut msg: Vec<String> = Vec::new();
    msg.push(command.clone());
    let n = params.len();
    for i in 0..n
        invariant
            n == params.len(),
            msg.deep_view() == seq![command@] + params.deep_view().take(i as int),
    {
        let ghost prior = msg.deep_view();
        msg.push(params[i].clone());
        proof {
            assert(msg.deep_view() =~= prior.push(params@[i as int]@));
            assert(msg.deep_view() =~= seq![command@] + params.deep_view().take(i + 1));
        }
    }
    proof {
        assert(params.deep_view().take(n as int) =~= params.deep_view());
    }
    bincode_encode(&msg)
}

/// The command named by the bytes a client sent: when the bytes are the
/// encoding of some message, exactly that message's command; `None` when the
/// bytes decode to nothing or to an empty message.
pub fn decode_request(bytes: &[u8]) -> (r: Option<Request>)
    ensures
        forall|m: Seq<Seq<char>>|
            bytes@ == #[trigger] wire_of(m) ==> match r {
                Some(req) => spec_parse(m) == Some(req@),
                None => spec_parse(m) is None,
            },
{
    match bincode_decode(bytes) {
        None => None,
        Some(msg) => parse_request(&msg),
    }
}

} // verus!
