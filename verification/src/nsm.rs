//! The session manager's side of the conversation: which requests it makes
//! and what the looper replies.
use vstd::prelude::*;
use crate::constants::CLIENT_NAME;
use crate::dispatcher::NsmClientMessage;
use vstd::string::StrSliceExecFns;

verus! {

/// A request of the session manager, by its OSC address.
#[derive(Debug, Clone, Copy, PartialEq, Eq, Structural)]
pub enum NsmRequest {
    Save,
    Open,
    Other,
}

/// The request that an OSC address names.
pub fn nsm_request(addr: &str) -> (r: NsmRequest)
    ensures
        addr@ == "/nsm/client/save"@ ==> r == NsmRequest::Save,
        addr@ == "/nsm/client/open"@ ==> r == NsmRequest::Open,
        addr@ != "/nsm/client/save"@ && addr@ != "/nsm/client/open"@ ==> r == NsmRequest::Other,
{
    proof {
        reveal_strlit("/nsm/client/save");
        reveal_strlit("/nsm/client/open");
        assert("/nsm/client/save"@[13] != "/nsm/client/open"@[13]);
    }
    let a: String = addr.to_owned();
    let save: String = "/nsm/client/save".to_owned();
    let open: String = "/nsm/client/open".to_owned();
    if a == save {
        NsmRequest::Save
    } else if a == open {
        NsmRequest::Open
    } else {
        NsmRequest::Other
    }
}

/// An argument of an OSC message that the looper sends.
#[derive(Debug, Clone, PartialEq, Eq)]
pub enum OscArg {
    Str(String),
    Int(i32),
}

/// An argument of an OSC message, as a value.
pub enum OscArgView {
    Str(Seq<char>),
    Int(i32),
}

impl View for OscArg {
    type V = OscArgView;

    open spec fn view(&self) -> OscArgView {
        match self {
            OscArg::Str(s) => OscArgView::Str(s@),
            OscArg::Int(i) => OscArgView::Int(*i),
        }
    }
}

/// The arguments of a message, as values.
pub open spec fn args_view(args: Seq<OscArg>) -> Seq<OscArgView> {
    args.map_values(|a: OscArg| a@)
}

/// The bytes of the OSC message with address `addr` and arguments `args`.
pub uninterp spec fn osc_message_bytes(addr: Seq<char>, args: Seq<OscArgView>) -> Seq<u8>;

/// Encodes an OSC message with `rosc::encoder::encode`, whose source always
/// returns `Ok` (it writes into a `Vec`).  The contract claims that it
/// returns bytes, and that the same address and arguments give the same
/// bytes.
#[verifier::external_body]
fn encode_osc_message(addr: String, args: Vec<OscArg>) -> (b: Option<Vec<u8>>)
    ensures
        b is Some,
        b is Some ==> b.unwrap()@ == osc_message_bytes(addr@, args_view(args@)),
{
    let args = args.into_iter().map(|a| match a {
        OscArg::Str(s) => rosc::OscType::String(s),
        OscArg::Int(i) => rosc::OscType::Int(i),
    }).collect();
    match rosc::encoder::encode(&rosc::OscPacket::Message(rosc::OscMessage { addr, args })) {
        Ok(bytes) => Some(bytes),
        Err(_) => None,
    }
}

/// The greeting that each reply carries.
pub open spec fn greeting() -> Seq<char> {
    "hello from st-loop"@
}

/// The bytes of the reply to the message at `addr`.
pub open spec fn reply_bytes(addr: Seq<char>) -> Seq<u8> {
    osc_message_bytes("/reply"@, seq![OscArgView::Str(addr), OscArgView::Str(greeting())])
}

/// The reply to the message at `addr`: `/reply` with that address and a greeting.
pub fn get_reply(addr: &str) -> (b: Vec<u8>)
    ensures
        b@ == reply_bytes(addr@),
{
    let mut args: Vec<OscArg> = Vec::new();
    args.push(OscArg::Str(addr.to_owned()));
    args.push(OscArg::Str("hello from st-loop".to_owned()));
    proof {
        reveal_strlit("hello from st-loop");
        assert(args_view(args@) =~= seq![OscArgView::Str(addr@), OscArgView::Str(greeting())]);
    }
    match encode_osc_message("/reply".to_owned(), args) {
        Some(v) => v,
        None => Vec::new(),
    }
}

/// The arguments with which the looper announces itself to the session
/// manager: its name, no capabilities, its executable's name, the protocol
/// version 1.1 and its process id.
pub open spec fn announce_args(pid: i32) -> Seq<OscArgView> {
    seq![
        OscArgView::Str(CLIENT_NAME@),
        OscArgView::Str(""@),
        OscArgView::Str(CLIENT_NAME@),
        OscArgView::Int(1),
        OscArgView::Int(1),
        OscArgView::Int(pid),
    ]
}

/// The message that announces the looper, with process id `pid`, to the
/// session manager.
pub fn announce_message(pid: i32) -> (b: Vec<u8>)
    ensures
        b@ == osc_message_bytes("/nsm/server/announce"@, announce_args(pid)),
{
    let mut args: Vec<OscArg> = Vec::new();
    args.push(OscArg::Str(CLIENT_NAME.to_owned()));
    args.push(OscArg::Str("".to_owned()));
    args.push(OscArg::Str(CLIENT_NAME.to_owned()));
    args.push(OscArg::Int(1));
    args.push(OscArg::Int(1));
    args.push(OscArg::Int(pid));
    proof {
        reveal_strlit("");
        assert(args_view(args@) =~= announce_args(pid));
    }
    match encode_osc_message("/nsm/server/announce".to_owned(), args) {
        Some(v) => v,
        None => Vec::new(),
    }
}

/// What a datagram holds as OSC: `None` where it is no valid packet,
/// `Some(None)` for a bundle, and for a message its address and, for each
/// argument, the string that it holds (`None` for an argument of another
/// type).
pub uninterp spec fn osc_packet_of(bytes: Seq<u8>) -> Option<
    Option<(Seq<char>, Seq<Option<Seq<char>>>)>,
>;

/// A decoded packet, as values.
pub open spec fn decoded_view(r: Option<Option<(String, Vec<Option<String>>)>>) -> Option<
    Option<(Seq<char>, Seq<Option<Seq<char>>>)>,
> {
    match r {
        None => None,
        Some(None) => Some(None),
        Some(Some((addr, args))) => Some(
            Some(
                (
                    addr@,
                    args@.map_values(
                        |a: Option<String>|
                            match a {
                                Some(s) => Some(s@),
                                None => None,
                            },
                    ),
                ),
            ),
        ),
    }
}

/// Decodes a datagram with `rosc::decoder::decode_udp`, which depends on
/// the bytes alone; each argument of a message is taken with
/// `rosc::OscType::string`, which gives the string of a string argument and
/// `None` for any other.  The contract claims that the result is the one
/// named by `osc_packet_of`.
#[verifier::external_body]
fn decode_osc(bytes: &[u8]) -> (r: Option<Option<(String, Vec<Option<String>>)>>)
    ensures
        decoded_view(r) == osc_packet_of(bytes@),
{
    match rosc::decoder::decode_udp(bytes) {
        Ok((_, rosc::OscPacket::Message(m))) => Some(
            Some((m.addr, m.args.into_iter().map(rosc::OscType::string).collect())),
        ),
        Ok((_, rosc::OscPacket::Bundle(_))) => Some(None),
        Err(_) => None,
    }
}

/// Why a datagram from the session manager cannot be taken.
#[derive(Debug, Clone, Copy, PartialEq, Eq, Structural)]
pub enum NsmError {
    /// The bytes are no OSC packet.
    MalformedPacket,
    /// An open request whose first argument is not the session's path.
    MissingPath,
}

/// A datagram from the session manager, decoded as `p`, is taken as the
/// message `m` with the reply `b`, or as nothing for the looper, or
/// refused: save and open requests are taken, open with its first argument
/// as the session's path, and each is answered with its reply.
pub open spec fn nsm_message_spec(
    p: Option<Option<(Seq<char>, Seq<Option<Seq<char>>>)>>,
    r: Result<Option<(NsmClientMessage, Vec<u8>)>, NsmError>,
) -> bool {
    match p {
        None => r == Err::<Option<(NsmClientMessage, Vec<u8>)>, NsmError>(NsmError::MalformedPacket),
        Some(None) => r matches Ok(None),
        Some(Some((addr, args))) => if addr == "/nsm/client/save"@ {
            r matches Ok(Some((NsmClientMessage::Save, b))) && b@ == reply_bytes(addr)
        } else if addr == "/nsm/client/open"@ {
            if args.len() > 0 && args[0] is Some {
                r matches Ok(Some((NsmClientMessage::Open { path }, b))) && path@ == args[0].unwrap()
                    && b@ == reply_bytes(addr)
            } else {
                r == Err::<Option<(NsmClientMessage, Vec<u8>)>, NsmError>(NsmError::MissingPath)
            }
        } else {
            r matches Ok(None)
        },
    }
}

/// Takes a datagram from the session manager: a save or open request
/// becomes the message for the dispatcher, with the reply to send back;
/// other packets are nothing for the looper.
pub fn nsm_message(bytes: &[u8]) -> (r: Result<Option<(NsmClientMessage, Vec<u8>)>, NsmError>)
    ensures
        nsm_message_spec(osc_packet_of(bytes@), r),
{
    match decode_osc(bytes) {
        None => Err(NsmError::MalformedPacket),
        Some(None) => Ok(None),
        Some(Some((addr, args))) => {
            match nsm_request(addr.as_str()) {
                NsmRequest::Save => Ok(Some((NsmClientMessage::Save, get_reply(addr.as_str())))),
                NsmRequest::Open => {
                    if args.len() == 0 {
                        return Err(NsmError::MissingPath);
                    }
                    match &args[0] {
                        Some(path) => Ok(
                            Some(
                                (NsmClientMessage::Open { path: path.clone() }, get_reply(addr.as_str())),
                            ),
                        ),
                        None => Err(NsmError::MissingPath),
                    }
                },
                NsmRequest::Other => Ok(None),
            }
        },
    }
}

/// Position of the first `/` in `s`, or -1 where there is none.
pub open spec fn first_slash(s: Seq<char>) -> int
    decreases s.len(),
{
    if s.len() == 0 {
        -1
    } else if s[0] == '/' {
        0
    } else if first_slash(s.drop_first()) < 0 {
        -1
    } else {
        first_slash(s.drop_first()) + 1
    }
}

/// Part `k` of `s` split at each `/`, where `s` has that many parts.
pub open spec fn slash_part(s: Seq<char>, k: nat) -> Option<Seq<char>>
    decreases k,
{
    let i = first_slash(s);
    if k == 0 {
        if i < 0 {
            Some(s)
        } else {
            Some(s.take(i))
        }
    } else if i < 0 {
        None
    } else {
        slash_part(s.skip(i + 1), (k - 1) as nat)
    }
}

/// The first `/` of `s` stands at `j` (at its end: there is none) where
/// none stands before `j`.
proof fn lemma_first_slash(s: Seq<char>, j: int)
    requires
        0 <= j <= s.len(),
        forall|k: int| 0 <= k < j ==> s[k] != '/',
        j < s.len() ==> s[j] == '/',
    ensures
        first_slash(s) == if j < s.len() {
            j
        } else {
            -1
        },
    decreases j,
{
    if j > 0 {
        let d = s.drop_first();
        assert forall|k: int| 0 <= k < j - 1 implies d[k] != '/' by {
            assert(d[k] == s[k + 1]);
        }
        if j < s.len() {
            assert(d[j - 1] == s[j]);
        }
        lemma_first_slash(d, j - 1);
    }
}

/// Position of the first `/` in `s`.
fn find_slash(s: &str) -> (r: Option<usize>)
    ensures
        match r {
            Some(i) => i == first_slash(s@) && i < s@.len(),
            None => first_slash(s@) < 0,
        },
{
    let n = s.unicode_len();
    let mut j: usize = 0;
    while j < n
        invariant
            0 <= j <= n,
            n == s@.len(),
            forall|k: int| 0 <= k < j ==> s@[k] != '/',
        decreases n - j,
    {
        if s.get_char(j) == '/' {
            proof {
                lemma_first_slash(s@, j as int);
            }
            return Some(j);
        }
        j = j + 1;
    }
    proof {
        lemma_first_slash(s@, n as int);
    }
    None
}

/// The address of the session manager's server in its URL, such as
/// `localhost:1234` in `osc.udp://localhost:1234/`: the third part of the
/// URL split at each `/`; `None` where the URL has fewer parts.
pub fn nsm_server_address(url: &str) -> (r: Option<String>)
    ensures
        match r {
            Some(a) => slash_part(url@, 2) == Some(a@),
            None => slash_part(url@, 2) is None,
        },
{
    let mut rest: &str = url;
    let mut k: usize = 0;
    while k < 2
        invariant
            0 <= k <= 2,
            slash_part(url@, 2) == slash_part(rest@, (2 - k) as nat),
        decreases 2 - k,
    {
        match find_slash(rest) {
            None => {
                return None;
            },
            Some(i) => {
                let ghost prev = rest@;
                let n = rest.unicode_len();
                rest = rest.substring_char(i + 1, n);
                proof {
                    assert(rest@ =~= prev.skip(i + 1));
                }
            },
        }
        k = k + 1;
    }
    match find_slash(rest) {
        None => Some(rest.to_owned()),
        Some(i) => Some(rest.substring_char(0, i).to_owned()),
    }
}

} // verus!
