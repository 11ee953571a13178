//! What the WebSocket server computes: the addresses it listens on and
//! reports, and what it does with each event of a client's socket.

use vstd::prelude::*;
use vstd::string::StringExecFns;

use crate::common::close_events::{reset_connection, CloseEvent};

verus! {

/// The decimal digit for `d`, which is below ten.
pub open spec fn digit_char(d: nat) -> char {
    ((48 + d) as u8) as char
}

/// The decimal representation of `n`, without leading zeros ("0" for zero).
pub open spec fn decimal(n: nat) -> Seq<char>
    decreases n,
{
    if n < 10 {
        seq![digit_char(n)]
    } else {
        decimal(n / 10).push(digit_char(n % 10))
    }
}

/// The one-character text of the decimal digit `d`.
fn digit_text(d: u16) -> (t: &'static str)
    requires
        d < 10,
    ensures
        t@ == seq![digit_char(d as nat)],
{
    proof {
        reveal_strlit("0");
        reveal_strlit("1");
        reveal_strlit("2");
        reveal_strlit("3");
        reveal_strlit("4");
        reveal_strlit("5");
        reveal_strlit("6");
        reveal_strlit("7");
        reveal_strlit("8");
        reveal_strlit("9");
    }
    match d {
        0 => "0",
        1 => "1",
        2 => "2",
        3 => "3",
        4 => "4",
        5 => "5",
        6 => "6",
        7 => "7",
        8 => "8",
        _ => "9",
    }
}

/// The decimal representation of `n` (see [`decimal`]).
pub fn decimal_string(n: u16) -> (s: String)
    ensures
        s@ == decimal(n as nat),
{
    // the digits of n, least significant first
    let mut digits: Vec<u16> = Vec::new();
    let mut m: u16 = n;
    assert(decimal(n as nat) =~= decimal(m as nat) + Seq::<u16>::empty().reverse().map_values(
        |d: u16| digit_char(d as nat),
    ));
    while m >= 10
        invariant
            forall|j: int| 0 <= j < digits@.len() ==> #[trigger] digits@[j] < 10,
            decimal(n as nat) == decimal(m as nat) + digits@.reverse().map_values(
                |d: u16| digit_char(d as nat),
            ),
        decreases m,
    {
        let d = m % 10;
        let ghost before = digits@;
        proof {
            let tail = before.reverse().map_values(|x: u16| digit_char(x as nat));
            let tail2 = before.push(d).reverse().map_values(|x: u16| digit_char(x as nat));
            assert(tail2 =~= seq![digit_char(d as nat)] + tail);
            assert(decimal(m as nat) == decimal((m / 10) as nat).push(digit_char(d as nat)));
            assert(decimal(m as nat) + tail =~= decimal((m / 10) as nat) + tail2);
        }
        digits.push(d);
        m = m / 10;
    }
    proof {
        let tail = digits@.reverse().map_values(|x: u16| digit_char(x as nat));
        let tail2 = digits@.push(m).reverse().map_values(|x: u16| digit_char(x as nat));
        assert(tail2 =~= seq![digit_char(m as nat)] + tail);
        assert(decimal(m as nat) == seq![digit_char(m as nat)]);
    }
    digits.push(m);
    let ghost text = digits@.reverse().map_values(|d: u16| digit_char(d as nat));
    assert(decimal(n as nat) == text);
    let mut s = String::new();
    let mut i: usize = digits.len();
    while i > 0
        invariant
            i <= digits@.len(),
            forall|j: int| 0 <= j < digits@.len() ==> #[trigger] digits@[j] < 10,
            text == digits@.reverse().map_values(|d: u16| digit_char(d as nat)),
            text.len() == digits@.len(),
            s@ == text.take((digits@.len() - i) as int),
        decreases i,
    {
        i = i - 1;
        let t = digit_text(digits[i]);
        s.append(t);
        proof {
            let k = (digits@.len() - i - 1) as int;
            assert(text[k] == digit_char(digits@[i as int] as nat));
            assert(s@ =~= text.take((digits@.len() - i) as int));
        }
    }
    assert(text.take(digits@.len() as int) =~= text);
    s
}

/// The address a server on `address` and `port` listens on: `address:port`.
pub open spec fn spec_url(address: Seq<char>, port: u16) -> Seq<char> {
    address + ":"@ + decimal(port as nat)
}

/// `address:port`, with the port in decimal.
pub fn url(address: &str, port: u16) -> (u: String)
    ensures
        u@ == spec_url(address@, port),
{
    proof {
        reveal_strlit(":");
    }
    let mut u = String::from_str(address);
    u.append(":");
    let p = decimal_string(port);
    u.append(p.as_str());
    u
}

/// The WebSocket URL of a server on `address` and `port`.
pub fn websocket_url(address: &str, port: u16) -> (u: String)
    ensures
        u@ == "ws://"@ + spec_url(address@, port),
{
    let mut u = String::from_str("ws://");
    let rest = url(address, port);
    u.append(rest.as_str());
    u
}

/// The HTTP URL of a server on `address` and `port`.
pub fn http_url(address: &str, port: u16) -> (u: String)
    ensures
        u@ == "http://"@ + spec_url(address@, port),
{
    let mut u = String::from_str("http://");
    let rest = url(address, port);
    u.append(rest.as_str());
    u
}

/// An event read from a client's socket.
pub enum SocketEvent {
    /// A binary frame.
    Binary(Vec<u8>),
    /// A close frame, with the close code and reason if it carried them.
    Close(Option<CloseEvent>),
    /// A ping.
    Ping,
    /// Reading failed.
    Error,
    /// Any other frame.
    Other,
}

/// What the server does with an event of a client's socket.
pub enum SocketStep {
    /// Hand the frame to the client connection.
    Message(Vec<u8>),
    /// Close the client connection with this event, and stop reading.
    Close(Option<CloseEvent>),
    /// Read on.
    Continue,
}

/// Decides what to do with a socket event: frames go to the client
/// connection, a close frame closes it with its own code and reason, a read
/// error closes it as reset, and anything else is skipped.
pub fn socket_step(event: SocketEvent) -> (step: SocketStep)
    ensures
        match event {
            SocketEvent::Binary(d) => step matches SocketStep::Message(m) && m@ == d@,
            SocketEvent::Close(e) => step matches SocketStep::Close(c) && c == e,
            SocketEvent::Error => step matches SocketStep::Close(c) && c matches Some(ev) && ev.code
                == 4205 && ev.reason@ == "Reset Connection"@,
            _ => step is Continue,
        },
{
    match event {
        SocketEvent::Binary(d) => SocketStep::Message(d),
        SocketEvent::Close(e) => SocketStep::Close(e),
        SocketEvent::Error => SocketStep::Close(Some(reset_connection())),
        SocketEvent::Ping => SocketStep::Continue,
        SocketEvent::Other => SocketStep::Continue,
    }
}

/// How many times shutting down waits for documents to unload.
pub const MAX_SHUTDOWN_ATTEMPTS: u32 = 100;

/// Whether shutting down waits once more: documents remain and fewer than
/// [`MAX_SHUTDOWN_ATTEMPTS`] waits have passed.
pub fn keep_waiting_for_unload(documents_count: usize, attempts: u32) -> (b: bool)
    ensures
        b == (documents_count > 0 && attempts < MAX_SHUTDOWN_ATTEMPTS),
{
    documents_count > 0 && attempts < MAX_SHUTDOWN_ATTEMPTS
}


/// The names among `names` that the start screen lists: all but those
/// equal to "Extension", in order.
pub open spec fn listed_extensions(names: Seq<Seq<char>>) -> Seq<Seq<char>>
    decreases names.len(),
{
    if names.len() == 0 {
        Seq::empty()
    } else if names.last() == "Extension"@ {
        listed_extensions(names.drop_last())
    } else {
        listed_extensions(names.drop_last()).push(names.last())
    }
}

/// The title line of the start screen.
pub open spec fn title_line(version: Seq<char>, name: Option<Seq<char>>) -> Seq<char> {
    match name {
        Some(n) => "  Hocuspocus v"@ + version + " ("@ + n + ")"@ + " running at:"@,
        None => "  Hocuspocus v"@ + version + " running at:"@,
    }
}

/// The lines of the start screen of a server named `name` (if any), running
/// version `version` on `address` and `port`, with the extensions named
/// `extensions`; extensions that kept the default name "Extension" are not
/// listed, and the list is left out when none remains.
pub open spec fn spec_start_screen(
    version: Seq<char>,
    name: Option<Seq<char>>,
    address: Seq<char>,
    port: u16,
    extensions: Seq<Seq<char>>,
) -> Seq<Seq<char>> {
    let shown = listed_extensions(extensions);
    let head = seq![
        Seq::empty(),
        title_line(version, name),
        Seq::empty(),
        "  > HTTP: "@ + ("http://"@ + spec_url(address, port)),
        "  > WebSocket: "@ + ("ws://"@ + spec_url(address, port)),
    ];
    let listed = if shown.len() > 0 {
        seq![Seq::empty(), "  Extensions:"@] + shown.map_values(|n: Seq<char>| "  - "@ + n)
    } else {
        Seq::empty()
    };
    head + listed + seq![Seq::empty(), "  Ready."@, Seq::empty()]
}

/// Builds the lines of the start screen (see [`spec_start_screen`]).
pub fn start_screen(
    version: &str,
    name: Option<&str>,
    address: &str,
    port: u16,
    extensions: &Vec<String>,
) -> (lines: Vec<String>)
    ensures
        lines@.map_values(|l: String| l@) == spec_start_screen(
            version@,
            match name {
                Some(n) => Some(n@),
                None => None,
            },
            address@,
            port,
            extensions@.map_values(|e: String| e@),
        ),
{
    let ghost names = extensions@.map_values(|e: String| e@);
    let default_name = String::from_str("Extension");
    let mut shown: Vec<String> = Vec::new();
    let mut i: usize = 0;
    while i < extensions.len()
        invariant
            i <= extensions@.len(),
            names == extensions@.map_values(|e: String| e@),
            default_name@ == "Extension"@,
            shown@.map_values(|s: String| s@) == listed_extensions(names.take(i as int)),
        decreases extensions@.len() - i,
    {
        proof {
            let t = names.take(i + 1);
            assert(t.drop_last() =~= names.take(i as int));
            assert(t.last() == names[i as int]);
        }
        if extensions[i] != default_name {
            shown.push(extensions[i].clone());
            assert(shown@.map_values(|s: String| s@) =~= listed_extensions(names.take(i + 1)));
        } else {
            assert(shown@.map_values(|s: String| s@) =~= listed_extensions(names.take(i + 1)));
        }
        i = i + 1;
    }
    assert(names.take(i as int) =~= names);
    let ghost shown_v = shown@.map_values(|x: String| x@);
    let ghost name_v = match name {
        Some(n) => Some(n@),
        None => None,
    };
    let ghost spec = spec_start_screen(version@, name_v, address@, port, names);
    let mut lines: Vec<String> = Vec::new();
    lines.push(String::new());
    let mut title = String::from_str("  Hocuspocus v");
    title.append(version);
    match name {
        Some(n) => {
            title.append(" (");
            title.append(n);
            title.append(")");
        },
        None => {},
    }
    title.append(" running at:");
    assert(title@ =~= title_line(version@, name_v));
    lines.push(title);
    lines.push(String::new());
    let mut http = String::from_str("  > HTTP: ");
    let h = http_url(address, port);
    http.append(h.as_str());
    lines.push(http);
    let mut ws = String::from_str("  > WebSocket: ");
    let w = websocket_url(address, port);
    ws.append(w.as_str());
    lines.push(ws);
    let ghost head = lines@.map_values(|l: String| l@);
    assert(head =~= spec.take(5));
    if shown.len() > 0 {
        lines.push(String::new());
        lines.push(String::from_str("  Extensions:"));
        let mut j: usize = 0;
        assert(lines@.map_values(|l: String| l@) =~= head + seq![Seq::<char>::empty(), "  Extensions:"@]
            + shown_v.take(0).map_values(|n: Seq<char>| "  - "@ + n));
        while j < shown.len()
            invariant
                j <= shown@.len(),
                shown_v == shown@.map_values(|x: String| x@),
                lines@.map_values(|l: String| l@) == head + seq![Seq::<char>::empty(), "  Extensions:"@]
                    + shown_v.take(j as int).map_values(|n: Seq<char>| "  - "@ + n),
            decreases shown@.len() - j,
        {
            let mut item = String::from_str("  - ");
            item.append(shown[j].as_str());
            let ghost before = lines@.map_values(|l: String| l@);
            lines.push(item);
            proof {
                let g = |n: Seq<char>| "  - "@ + n;
                assert(lines@.map_values(|l: String| l@) =~= before.push(item@));
                assert(shown_v.take(j + 1) =~= shown_v.take(j as int).push(shown_v[j as int]));
                assert(shown_v.take(j + 1).map_values(g) =~= shown_v.take(j as int).map_values(g).push(
                    g(shown_v[j as int]),
                ));
                assert(item@ == g(shown_v[j as int]));
            }
            j = j + 1;
        }
        assert(shown_v.take(j as int) =~= shown_v);
    } else {
        assert(head + Seq::<Seq<char>>::empty() =~= head);
    }
    let ghost mid = lines@.map_values(|l: String| l@);
    proof {
        let shown_spec = listed_extensions(names);
        assert(shown_spec == shown_v);
        let listed = if shown_spec.len() > 0 {
            seq![Seq::<char>::empty(), "  Extensions:"@] + shown_spec.map_values(
                |n: Seq<char>| "  - "@ + n,
            )
        } else {
            Seq::<Seq<char>>::empty()
        };
        assert(mid =~= head + listed);
        assert(spec =~= head + listed + seq![Seq::<char>::empty(), "  Ready."@, Seq::<char>::empty()]);
    }
    lines.push(String::new());
    lines.push(String::from_str("  Ready."));
    lines.push(String::new());
    assert(lines@.map_values(|l: String| l@) =~= mid + seq![
        Seq::<char>::empty(),
        "  Ready."@,
        Seq::<char>::empty(),
    ]);
    assert(lines@.map_values(|l: String| l@) =~= spec);
    lines
}

} // verus!
